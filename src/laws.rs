use crate::parse::{is_digit, is_letter, scan, lemma_scan_failure_sticks, State};
use crate::{ascii_lower, parsed_size, word, ParseError, Size};
use vstd::arithmetic::div_mod::{lemma_add_mod_noop, lemma_mul_mod_noop_left, lemma_small_mod};
use vstd::prelude::*;

verus! {

/// Every byte is an ASCII decimal digit.
pub open spec fn all_digits(s: Seq<u8>) -> bool {
    forall|i: int| 0 <= i < s.len() ==> is_digit(#[trigger] s[i])
}

/// The number that a sequence of decimal digits writes, most significant first.
pub open spec fn digits_value(s: Seq<u8>) -> nat
    decreases s.len(),
{
    if s.len() == 0 {
        0
    } else {
        digits_value(s.drop_last()) * 10 + (s.last() - 48) as nat
    }
}

/// The bytes that one unit named by a letter stands for, in either case; 0 for a
/// letter that names no unit.
pub open spec fn unit_factor(b: u8) -> nat {
    if b == 98 || b == 66 {
        1
    } else if b == 107 || b == 75 {
        1024
    } else if b == 109 || b == 77 {
        1024 * 1024
    } else if b == 103 || b == 71 {
        1024 * 1024 * 1024
    } else if b == 116 || b == 84 {
        1024 * 1024 * 1024 * 1024
    } else {
        0
    }
}

/// A non-empty literal made of decimal digits and, optionally, one unit letter at the end.
pub open spec fn is_size_literal(s: Seq<u8>) -> bool {
    &&& s.len() > 0
    &&& all_digits(s.drop_last())
    &&& is_digit(s.last()) || unit_factor(s.last()) > 0
}

/// The byte count that a well-formed literal writes: its digits times its unit's factor.
pub open spec fn literal_bytes(s: Seq<u8>) -> nat {
    if is_digit(s.last()) {
        digits_value(s)
    } else {
        digits_value(s.drop_last()) * unit_factor(s.last())
    }
}

proof fn lemma_scan_digits(d: Seq<u8>)
    requires
        all_digits(d),
    ensures
        scan(d) == Ok::<State, ParseError>(State::Num((digits_value(d) % word()) as u64)),
    decreases d.len(),
{
    if d.len() > 0 {
        let p = d.drop_last();
        assert(all_digits(p)) by {
            assert forall|i: int| 0 <= i < p.len() implies is_digit(#[trigger] p[i]) by {
                assert(p[i] == d[i]);
            }
        }
        lemma_scan_digits(p);
        let m = word() as int;
        let v = digits_value(p) as int;
        let dig = (d.last() - 48) as int;
        assert(is_digit(d[d.len() - 1]));
        lemma_mul_mod_noop_left(v, 10, m);
        lemma_add_mod_noop((v % m) * 10, dig, m);
        lemma_add_mod_noop(v * 10, dig, m);
    }
}

proof fn lemma_scan_unit(d: Seq<u8>, l: u8)
    requires
        all_digits(d),
        is_letter(l),
    ensures
        scan(d.push(l)) == Ok::<State, ParseError>(
            State::NumUnit((digits_value(d) % word()) as u64, l as char),
        ),
{
    lemma_scan_digits(d);
    assert(d.push(l).drop_last() =~= d);
}

proof fn lemma_scaled_mod(v: nat, f: nat)
    ensures
        (((v % word()) as u64) as nat * f) % word() == (v * f) % word(),
{
    lemma_mul_mod_noop_left(v as int, f as int, word() as int);
}

/// Every non-empty literal of decimal digits followed by at most one of the letters
/// b, k, m, g, t (in either case) parses, to a size whose byte count is the digits'
/// value times that unit's power of 1024 (1 without a letter), taken modulo 2^64;
/// and so exactly that product wherever it fits in a `u64`.
pub proof fn lemma_literal_value(s: Seq<u8>)
    requires
        is_size_literal(s),
    ensures
        parsed_size(s) is Ok,
        parsed_size(s)->Ok_0.byte_count() == literal_bytes(s) % word(),
        literal_bytes(s) < word() ==> parsed_size(s)->Ok_0.byte_count() == literal_bytes(s),
{
    let p = s.drop_last();
    if is_digit(s.last()) {
        assert(all_digits(s)) by {
            assert forall|i: int| 0 <= i < s.len() implies is_digit(#[trigger] s[i]) by {
                if i < s.len() - 1 {
                    assert(s[i] == p[i]);
                }
            }
        }
        lemma_digits_are_bytes(s);
    } else {
        lemma_scan_unit(p, s.last());
        assert(p.push(s.last()) =~= s);
        lemma_scaled_mod(digits_value(p), unit_factor(s.last()));
    }
    if literal_bytes(s) < word() {
        lemma_small_mod(literal_bytes(s), word());
    }
}

/// A non-empty literal of digits alone parses to that many bytes (modulo 2^64).
pub proof fn lemma_digits_are_bytes(d: Seq<u8>)
    requires
        d.len() > 0,
        all_digits(d),
    ensures
        parsed_size(d) == Ok::<Size, ParseError>(Size::Byte((digits_value(d) % word()) as u64)),
        parsed_size(d)->Ok_0.byte_count() == digits_value(d) % word(),
{
    lemma_scan_digits(d);
    lemma_scaled_mod(digits_value(d), 1);
}

/// A literal whose first byte is neither an ASCII digit nor an ASCII letter (a sign
/// such as '-', a space, a non-ASCII byte) fails with `InvalidByte` of that byte.
pub proof fn lemma_leading_invalid_byte(s: Seq<u8>)
    requires
        s.len() > 0,
        !is_digit(s[0]),
        !is_letter(s[0]),
    ensures
        parsed_size(s) == Err::<Size, ParseError>(ParseError::InvalidByte(s[0])),
{
    let head = s.take(1);
    assert(head.drop_last() =~= Seq::<u8>::empty());
    assert(head.last() == s[0]);
    assert(scan(head.drop_last()) == Ok::<State, ParseError>(State::Num(0)));
    assert(scan(head) == Err::<State, ParseError>(ParseError::InvalidByte(s[0])));
    lemma_scan_failure_sticks(head, s.skip(1));
    assert(head + s.skip(1) =~= s);
}

/// Once a unit letter has been read after the digits, a further letter or digit fails
/// the literal with `MultiChar`, whatever comes after it.
pub proof fn lemma_extra_after_unit(d: Seq<u8>, l: u8, rest: Seq<u8>)
    requires
        all_digits(d),
        is_letter(l),
        rest.len() > 0,
        is_digit(rest[0]) || is_letter(rest[0]),
    ensures
        parsed_size(d.push(l) + rest) == Err::<Size, ParseError>(ParseError::MultiChar),
{
    lemma_scan_unit(d, l);
    let head = d.push(l).push(rest[0]);
    assert(head.drop_last() =~= d.push(l));
    lemma_scan_failure_sticks(head, rest.skip(1));
    assert(head + rest.skip(1) =~= d.push(l) + rest);
}

/// Digits followed by a letter that names no unit fail with `InvalidUnit` of that
/// letter in lower case.
pub proof fn lemma_unknown_unit(d: Seq<u8>, l: u8)
    requires
        all_digits(d),
        is_letter(l),
        unit_factor(l) == 0,
    ensures
        parsed_size(d.push(l)) == Err::<Size, ParseError>(ParseError::InvalidUnit(ascii_lower(l as char))),
{
    lemma_scan_unit(d, l);
}

/// A unit letter means the same in upper and in lower case: the two literals parse alike.
pub proof fn lemma_unit_case_insensitive(d: Seq<u8>, l: u8)
    requires
        all_digits(d),
        97 <= l <= 122,
    ensures
        parsed_size(d.push(l)) == parsed_size(d.push((l - 32) as u8)),
{
    lemma_scan_unit(d, l);
    lemma_scan_unit(d, (l - 32) as u8);
}

} // verus!
