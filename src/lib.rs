use vstd::arithmetic::div_mod::lemma_small_mod;
use parse::{parse, scanned, State};
use vstd::prelude::*;
use vstd::slice::slice_to_vec;
use vstd::string::StringSliceAdditionalSpecFns;

pub mod laws;
pub mod parse;

verus! {

/// The number of distinct `u64` values: results that leave the 64-bit range wrap modulo it.
pub open spec fn word() -> nat {
    0x1_0000_0000_0000_0000
}

/// A size given as a magnitude together with a binary (power of 1024) unit.
#[derive(Debug, PartialEq, Eq, Structural)]
pub enum Size {
    Byte(u64),
    Kilobyte(u64),
    Megabyte(u64),
    Gigabyte(u64),
    Terabyte(u64),
}

/// Why a size literal was rejected.
#[derive(Debug, PartialEq, Eq, Structural)]
pub enum ParseError {
    /// The literal holds no bytes at all.
    Empty,
    /// No digits were found; kept for a stricter grammar, never produced today.
    NoNum,
    /// A byte that is neither an ASCII digit nor an ASCII letter.
    InvalidByte(u8),
    /// A unit letter other than b, k, m, g or t (reported in lower case).
    InvalidUnit(char),
    /// Something follows the unit letter.
    MultiChar,
}

impl Size {
    /// The magnitude carried by the size, before its unit is applied.
    pub open spec fn magnitude(self) -> u64 {
        match self {
            Size::Byte(n) => n,
            Size::Kilobyte(n) => n,
            Size::Megabyte(n) => n,
            Size::Gigabyte(n) => n,
            Size::Terabyte(n) => n,
        }
    }

    /// How many bytes one unit of this size stands for.
    pub open spec fn factor(self) -> nat {
        match self {
            Size::Byte(_) => 1,
            Size::Kilobyte(_) => 1024,
            Size::Megabyte(_) => 1024 * 1024,
            Size::Gigabyte(_) => 1024 * 1024 * 1024,
            Size::Terabyte(_) => 1024 * 1024 * 1024 * 1024,
        }
    }

    /// The exact byte count, taken modulo 2^64.
    pub open spec fn byte_count(self) -> nat {
        (self.magnitude() as nat * self.factor()) % word()
    }

    /// The size in bytes: the magnitude times 1, 1024, 1024^2, 1024^3 or 1024^4.
    /// A product beyond `u64::MAX` wraps around.
    pub fn as_bytes(&self) -> (r: u64)
        ensures
            r as nat == self.byte_count(),
            self.magnitude() as nat * self.factor() < word() ==> r as nat == self.magnitude() as nat
                * self.factor(),
    {
        match *self {
            Size::Byte(n) => {
                proof {
                    lemma_small_mod(n as nat, word());
                    let (m, f) = (self.magnitude() as nat, self.factor());
                    assert(m * f == n as nat) by (nonlinear_arith)
                        requires
                            m == n as nat,
                            f == 1,
                    ;
                }
                n
            },
            Size::Kilobyte(n) => n.wrapping_mul(1024),
            Size::Megabyte(n) => n.wrapping_mul(1024 * 1024),
            Size::Gigabyte(n) => n.wrapping_mul(1024 * 1024 * 1024),
            Size::Terabyte(n) => n.wrapping_mul(1024 * 1024 * 1024 * 1024),
        }
    }
}

/// ASCII lower case: 'A' to 'Z' become 'a' to 'z'; every other character stays.
pub open spec fn ascii_lower(c: char) -> char {
    if 'A' <= c && c <= 'Z' {
        ((c as u8) + 32) as char
    } else {
        c
    }
}

/// The size that a magnitude and an optional unit letter stand for. No letter means
/// bytes; the letter is read without regard to case and must be b, k, m, g or t.
pub open spec fn size_of(n: u64, unit: Option<char>) -> Result<Size, ParseError> {
    match unit {
        None => Ok(Size::Byte(n)),
        Some(c) => {
            let l = ascii_lower(c);
            if l == 'b' {
                Ok(Size::Byte(n))
            } else if l == 'k' {
                Ok(Size::Kilobyte(n))
            } else if l == 'm' {
                Ok(Size::Megabyte(n))
            } else if l == 'g' {
                Ok(Size::Gigabyte(n))
            } else if l == 't' {
                Ok(Size::Terabyte(n))
            } else {
                Err(ParseError::InvalidUnit(l))
            }
        },
    }
}

/// What a size literal, given by its bytes, parses to.
pub open spec fn parsed_size(s: Seq<u8>) -> Result<Size, ParseError> {
    match scanned(s) {
        Ok(st) => size_of(st.magnitude(), st.unit_letter()),
        Err(e) => Err(e),
    }
}

fn lowercase(c: char) -> (r: char)
    ensures
        r == ascii_lower(c),
{
    if 'A' <= c && c <= 'Z' {
        ((c as u8) + 32) as char
    } else {
        c
    }
}

/// Parses a size literal: decimal digits, then at most one unit letter.
pub fn parse_size(text: &str) -> (r: Result<Size, ParseError>)
    ensures
        r == parsed_size(text.spec_bytes()),
        r == Err::<Size, ParseError>(ParseError::Empty) <==> text.spec_bytes().len() == 0,
{
    let parts: State = parse(slice_to_vec(text.as_bytes()))?;
    let size: u64 = parts.num();
    let chr: char = match parts.unit() {
        Some(c) => lowercase(c),
        None => return Ok(Size::Byte(size)),
    };
    if chr == 'b' {
        Ok(Size::Byte(size))
    } else if chr == 'k' {
        Ok(Size::Kilobyte(size))
    } else if chr == 'm' {
        Ok(Size::Megabyte(size))
    } else if chr == 'g' {
        Ok(Size::Gigabyte(size))
    } else if chr == 't' {
        Ok(Size::Terabyte(size))
    } else {
        Err(ParseError::InvalidUnit(chr))
    }
}

impl std::str::FromStr for Size {
    type Err = ParseError;

    fn from_str(value: &str) -> (r: Result<Self, Self::Err>)
        ensures
            r == parsed_size(value.spec_bytes()),
            r == Err::<Size, ParseError>(ParseError::Empty) <==> value.spec_bytes().len() == 0,
    {
        parse_size(value)
    }
}

impl<'a> std::convert::TryFrom<&'a str> for Size {
    type Error = ParseError;

    fn try_from(value: &'a str) -> Result<Self, Self::Error> {
        parse_size(value)
    }
}

impl<'a> vstd::std_specs::convert::TryFromSpecImpl<&'a str> for Size {
    open spec fn obeys_try_from_spec() -> bool {
        true
    }

    open spec fn try_from_spec(v: &'a str) -> Result<Self, Self::Error> {
        parsed_size(v.spec_bytes())
    }
}

} // verus!
