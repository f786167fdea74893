//! Building text: digits of numbers, and the one `String` operation that
//! vstd leaves unspecified.
use vstd::prelude::*;

verus! {

/// `String::push`: appends one character.
#[verifier::external_body]
pub fn push_char(s: &mut String, c: char)
    ensures
        final(s)@ == old(s)@.push(c),
{
    s.push(c)
}

/// Appends every character of `t`.
pub fn push_str(s: &mut String, t: &str)
    ensures
        final(s)@ == old(s)@ + t@,
{
    s.append(t)
}

/// The decimal digit `d` (0 to 9) as a character.
pub open spec fn digit_char(d: int) -> char {
    ((48 + d) as u8) as char
}

/// The decimal digits of `n`, most significant first, without leading zeros.
pub open spec fn nat_text(n: nat) -> Seq<char>
    decreases n,
{
    if n < 10 {
        seq![digit_char(n as int)]
    } else {
        nat_text(n / 10).push(digit_char((n % 10) as int))
    }
}

/// A whole number in decimal, with a `-` before a negative one.
pub open spec fn int_text(n: int) -> Seq<char> {
    if n < 0 {
        seq!['-'] + nat_text((-n) as nat)
    } else {
        nat_text(n as nat)
    }
}

fn digit(d: u64) -> (c: char)
    requires
        d < 10,
    ensures
        c == digit_char(d as int),
{
    ((48 + d) as u8) as char
}

fn push_nat(s: &mut String, n: u64)
    ensures
        final(s)@ == old(s)@ + nat_text(n as nat),
    decreases n,
{
    if n >= 10 {
        push_nat(s, n / 10);
    }
    push_char(s, digit(n % 10));
    proof {
        if n >= 10 {
            assert(old(s)@ + nat_text(n as nat) =~= old(s)@ + nat_text((n / 10) as nat) + seq![digit_char((n % 10) as int)]);
        } else {
            assert(old(s)@ + nat_text(n as nat) =~= old(s)@.push(digit_char((n % 10) as int)));
        }
    }
}

/// Appends `n` in decimal.
pub fn push_int(s: &mut String, n: i64)
    ensures
        final(s)@ == old(s)@ + int_text(n as int),
{
    if n < 0 {
        push_char(s, '-');
        let m: u64 = ((-(n + 1)) as u64) + 1;
        push_nat(s, m);
        assert(final(s)@ =~= old(s)@ + int_text(n as int));
    } else {
        push_nat(s, n as u64);
    }
}

/// The lower-case hexadecimal digit `d` (0 to 15).
pub open spec fn hex_char(d: int) -> char {
    if d < 10 {
        digit_char(d)
    } else {
        ((87 + d) as u8) as char
    }
}

/// Appends `b` as two lower-case hexadecimal digits.
pub fn push_hex_byte(s: &mut String, b: u8)
    ensures
        final(s)@ == old(s)@ + seq![hex_char((b / 16) as int), hex_char((b % 16) as int)],
{
    let hi = b / 16;
    let lo = b % 16;
    let c1 = if hi < 10 { ((48 + hi) as u8) as char } else { ((87 + hi) as u8) as char };
    let c2 = if lo < 10 { ((48 + lo) as u8) as char } else { ((87 + lo) as u8) as char };
    push_char(s, c1);
    push_char(s, c2);
    assert(final(s)@ =~= old(s)@ + seq![hex_char((b / 16) as int), hex_char((b % 16) as int)]);
}

} // verus!
