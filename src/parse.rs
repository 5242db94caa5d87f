use crate::word;
use crate::ParseError;
use vstd::arithmetic::div_mod::{lemma_add_mod_noop, lemma_mod_add_multiples_vanish, lemma_small_mod};
use vstd::prelude::*;

verus! {

/// An ASCII decimal digit, '0' to '9'.
pub open spec fn is_digit(b: u8) -> bool {
    48 <= b && b <= 57
}

/// An ASCII letter, 'A' to 'Z' or 'a' to 'z'.
pub open spec fn is_letter(b: u8) -> bool {
    (65 <= b && b <= 90) || (97 <= b && b <= 122)
}

/// The scanner's state: the magnitude read so far and, once one was met, the unit letter.
pub enum State {
    Num(u64),
    NumUnit(u64, char),
}

/// A byte that the scanner can take: a digit with its value, or a letter.
enum AsciiChar {
    Digit(u8),
    Alpha(char),
}

impl State {
    /// The magnitude that the state carries.
    pub open spec fn magnitude(self) -> u64 {
        match self {
            State::Num(n) => n,
            State::NumUnit(n, _) => n,
        }
    }

    /// The unit letter that the state carries, if one was read.
    pub open spec fn unit_letter(self) -> Option<char> {
        match self {
            State::Num(_) => None,
            State::NumUnit(_, u) => Some(u),
        }
    }

    /// One transition of the scanner. A byte other than a digit or a letter fails with
    /// `InvalidByte`; any byte after the unit letter fails with `MultiChar`; a digit
    /// is folded into the magnitude (modulo 2^64); a letter is recorded as the unit.
    pub open spec fn step(self, b: u8) -> Result<State, ParseError> {
        if !is_digit(b) && !is_letter(b) {
            Err(ParseError::InvalidByte(b))
        } else {
            match self {
                State::Num(n) => if is_digit(b) {
                    Ok(State::Num(((n * 10 + (b - 48)) % (word() as int)) as u64))
                } else {
                    Ok(State::NumUnit(n, b as char))
                },
                State::NumUnit(_, _) => Err(ParseError::MultiChar),
            }
        }
    }

    fn new() -> (r: State)
        ensures
            r == State::Num(0),
    {
        State::Num(0)
    }

    /// The magnitude read.
    pub fn num(&self) -> (r: u64)
        ensures
            r == self.magnitude(),
    {
        match self {
            State::Num(n) => *n,
            State::NumUnit(n, _) => *n,
        }
    }

    /// The unit letter read, verbatim; `None` where the input held digits only.
    pub fn unit(&self) -> (r: Option<char>)
        ensures
            r == self.unit_letter(),
    {
        match self {
            State::Num(_) => None,
            State::NumUnit(_, unit) => Some(*unit),
        }
    }

    fn add(self, byte: u8) -> (r: Result<State, ParseError>)
        ensures
            r == self.step(byte),
    {
        let value: AsciiChar = match AsciiChar::classify(byte) {
            Some(v) => v,
            None => return Err(ParseError::InvalidByte(byte)),
        };
        match self {
            State::Num(s) => match value {
                AsciiChar::Digit(n) => {
                    proof {
                        lemma_accumulate(s, n);
                    }
                    Ok(State::Num(s.wrapping_mul(10).wrapping_add(n as u64)))
                },
                AsciiChar::Alpha(u) => Ok(State::NumUnit(s, u)),
            },
            State::NumUnit(_, _) => Err(ParseError::MultiChar),
        }
    }
}

impl AsciiChar {
    fn classify(value: u8) -> (r: Option<AsciiChar>)
        ensures
            !is_digit(value) && !is_letter(value) ==> r is None,
            is_digit(value) ==> r == Some(AsciiChar::Digit((value - 48) as u8)),
            is_letter(value) ==> r == Some(AsciiChar::Alpha(value as char)),
    {
        if 48 <= value && value <= 57 {
            Some(AsciiChar::Digit(value - 48))
        } else if (65 <= value && value <= 90) || (97 <= value && value <= 122) {
            Some(AsciiChar::Alpha(value as char))
        } else {
            None
        }
    }
}

/// Folding a digit into the magnitude with wrapping arithmetic is the exact step
/// taken modulo 2^64.
proof fn lemma_accumulate(s: u64, d: u8)
    requires
        d <= 9,
    ensures
        vstd::wrapping::u64_specs::wrapping_add(
            vstd::wrapping::u64_specs::wrapping_mul(s, 10),
            d as u64,
        ) == ((s * 10 + d) % (word() as int)) as u64,
{
    let m = word() as int;
    let a = (s * 10) % m;
    lemma_add_mod_noop(s * 10, d as int, m);
    lemma_small_mod(d as nat, m as nat);
    if a + d < m {
        lemma_small_mod((a + d) as nat, m as nat);
    } else {
        lemma_mod_add_multiples_vanish(a + d - m, m);
        lemma_small_mod((a + d - m) as nat, m as nat);
    }
}

/// The scanner run over a whole byte sequence from the initial state `Num(0)`,
/// stopping at the first failure.
pub open spec fn scan(s: Seq<u8>) -> Result<State, ParseError>
    decreases s.len(),
{
    if s.len() == 0 {
        Ok(State::Num(0))
    } else {
        match scan(s.drop_last()) {
            Ok(st) => st.step(s.last()),
            Err(e) => Err(e),
        }
    }
}

/// What scanning a literal gives: `Empty` for no bytes, else the scanner's run.
pub open spec fn scanned(s: Seq<u8>) -> Result<State, ParseError> {
    if s.len() == 0 {
        Err(ParseError::Empty)
    } else {
        scan(s)
    }
}

/// The scanner itself never reports `Empty`: that verdict belongs to an input with no bytes.
pub proof fn lemma_scan_never_empty(s: Seq<u8>)
    ensures
        scan(s) != Err::<State, ParseError>(ParseError::Empty),
    decreases s.len(),
{
    if s.len() > 0 {
        lemma_scan_never_empty(s.drop_last());
    }
}

/// Once the scanner has failed, no further bytes change its verdict.
pub proof fn lemma_scan_failure_sticks(p: Seq<u8>, q: Seq<u8>)
    requires
        scan(p) is Err,
    ensures
        scan(p + q) == scan(p),
    decreases q.len(),
{
    if q.len() == 0 {
        assert(p + q =~= p);
    } else {
        lemma_scan_failure_sticks(p, q.drop_last());
        assert((p + q).drop_last() =~= p + q.drop_last());
    }
}

/// Scans the bytes of a size literal left to right.
pub(crate) fn parse(input: Vec<u8>) -> (r: Result<State, ParseError>)
    ensures
        r == scanned(input@),
        r == Err::<State, ParseError>(ParseError::Empty) <==> input@.len() == 0,
{
    proof {
        lemma_scan_never_empty(input@);
    }
    if input.len() == 0 {
        return Err(ParseError::Empty);
    }
    let mut state: State = State::new();
    let mut i: usize = 0;
    while i < input.len()
        invariant
            i <= input.len(),
            scan(input@.take(i as int)) == Ok::<State, ParseError>(state),
        decreases input.len() - i,
    {
        let byte: u8 = input[i];
        proof {
            assert(input@.take(i + 1).drop_last() =~= input@.take(i as int));
        }
        match state.add(byte) {
            Ok(next) => state = next,
            Err(e) => {
                proof {
                    lemma_scan_failure_sticks(input@.take(i + 1), input@.skip(i + 1));
                    assert(input@.take(i + 1) + input@.skip(i + 1) =~= input@);
                }
                return Err(e);
            },
        }
        i = i + 1;
    }
    proof {
        assert(input@.take(i as int) =~= input@);
    }
    Ok(state)
}

} // verus!
