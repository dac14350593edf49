//! Text rendering of numbers and byte strings: hexadecimal and decimal.

use vstd::prelude::*;
use vstd::string::*;

verus! {

/// The lower-case hexadecimal digit for a value below sixteen.
pub open spec fn hex_char(n: u8) -> char {
    if n == 0 { '0' }
    else if n == 1 { '1' }
    else if n == 2 { '2' }
    else if n == 3 { '3' }
    else if n == 4 { '4' }
    else if n == 5 { '5' }
    else if n == 6 { '6' }
    else if n == 7 { '7' }
    else if n == 8 { '8' }
    else if n == 9 { '9' }
    else if n == 10 { 'a' }
    else if n == 11 { 'b' }
    else if n == 12 { 'c' }
    else if n == 13 { 'd' }
    else if n == 14 { 'e' }
    else { 'f' }
}

/// The two-digit, zero-padded, lower-case hexadecimal rendering of `bytes`
/// ("{:02x}" per byte), most significant digit first.
pub open spec fn hex_text(bytes: Seq<u8>) -> Seq<char>
    decreases bytes.len(),
{
    if bytes.len() == 0 {
        Seq::empty()
    } else {
        let b = bytes.last();
        hex_text(bytes.drop_last()) + seq![hex_char(b / 16), hex_char(b % 16)]
    }
}

fn digit_str(n: u8) -> (s: &'static str)
    requires
        n < 16,
    ensures
        s@ == seq![hex_char(n)],
{
    proof {
        reveal_strlit("0");
        reveal_strlit("1");
        reveal_strlit("2");
        reveal_strlit("3");
        reveal_strlit("4");
        reveal_strlit("5");
        reveal_strlit("6");
        reveal_strlit("7");
        reveal_strlit("8");
        reveal_strlit("9");
        reveal_strlit("a");
        reveal_strlit("b");
        reveal_strlit("c");
        reveal_strlit("d");
        reveal_strlit("e");
        reveal_strlit("f");
    }
    if n == 0 { "0" }
    else if n == 1 { "1" }
    else if n == 2 { "2" }
    else if n == 3 { "3" }
    else if n == 4 { "4" }
    else if n == 5 { "5" }
    else if n == 6 { "6" }
    else if n == 7 { "7" }
    else if n == 8 { "8" }
    else if n == 9 { "9" }
    else if n == 10 { "a" }
    else if n == 11 { "b" }
    else if n == 12 { "c" }
    else if n == 13 { "d" }
    else if n == 14 { "e" }
    else { "f" }
}

/// Renders each byte as two lower-case hexadecimal digits ("{:02x}").
pub fn encode(bytes: &[u8]) -> (s: String)
    ensures
        s@ == hex_text(bytes@),
{
    let mut s = String::new();
    let mut i: usize = 0;
    while i < bytes.len()
        invariant
            i <= bytes.len(),
            s@ == hex_text(bytes@.subrange(0, i as int)),
        decreases bytes.len() - i,
    {
        let b = bytes[i];
        let hi = digit_str(b / 16);
        let lo = digit_str(b % 16);
        s.append(hi);
        s.append(lo);
        proof {
            let sub = bytes@.subrange(0, i as int + 1);
            assert(sub.drop_last() =~= bytes@.subrange(0, i as int));
            assert(sub.last() == b);
        }
        i = i + 1;
    }
    assert(bytes@.subrange(0, bytes@.len() as int) =~= bytes@);
    s
}

/// The decimal digits of `n`, without leading zeros ("0" for zero).
pub open spec fn dec_text(n: nat) -> Seq<char>
    decreases n,
{
    if n < 10 {
        seq![hex_char(n as u8)]
    } else {
        dec_text(n / 10) + seq![hex_char((n % 10) as u8)]
    }
}

/// The decimal rendering of a signed integer, with a leading '-' when negative.
pub open spec fn int_text(n: int) -> Seq<char> {
    if n < 0 {
        seq!['-'] + dec_text((-n) as nat)
    } else {
        dec_text(n as nat)
    }
}

/// Appends the decimal digits of `n` to `s`.
pub fn append_decimal(s: &mut String, n: u64)
    ensures
        final(s)@ == old(s)@ + dec_text(n as nat),
    decreases n,
{
    if n >= 10 {
        append_decimal(s, n / 10);
    }
    let d = digit_str((n % 10) as u8);
    s.append(d);
    proof {
        if n >= 10 {
            assert(dec_text(n as nat) == dec_text((n / 10) as nat) + seq![hex_char((n % 10) as u8)]);
        }
    }
}

/// The decimal rendering of an unsigned integer ("{}").
pub fn u64_text(n: u64) -> (s: String)
    ensures
        s@ == dec_text(n as nat),
{
    let mut s = String::new();
    append_decimal(&mut s, n);
    assert(s@ =~= dec_text(n as nat));
    s
}

/// The decimal rendering of a `usize` ("{}").
pub fn usize_text(n: usize) -> (s: String)
    ensures
        s@ == dec_text(n as nat),
{
    u64_text(n as u64)
}

/// The decimal rendering of a signed integer ("{}").
pub fn i64_text(n: i64) -> (s: String)
    ensures
        s@ == int_text(n as int),
{
    proof {
        reveal_strlit("-");
    }
    if n < 0 {
        let mut s = String::from_str("-");
        let m: u64 = ((-(n + 1)) as u64) + 1;
        append_decimal(&mut s, m);
        s
    } else {
        u64_text(n as u64)
    }
}

} // verus!
