//! Text building blocks: decimal numbers, prefixes and the characters of a
//! string.

use vstd::prelude::*;

verus! {

/// `String::push` appends one character to the end of the string.
pub assume_specification[ String::push ](s: &mut String, ch: char)
    ensures
        final(s)@ == old(s)@.push(ch),
;

/// The decimal digit of `n`, for `n` below ten.
pub open spec fn digit(n: nat) -> char {
    (48 + n) as char
}

/// `n` written in decimal, without leading zeros.
pub open spec fn decimal(n: nat) -> Seq<char>
    decreases n,
{
    if n < 10 {
        seq![digit(n)]
    } else {
        decimal(n / 10).push(digit(n % 10))
    }
}

/// Appends `n` in decimal.
pub fn push_decimal(out: &mut String, n: u64)
    ensures
        final(out)@ == old(out)@ + decimal(n as nat),
    decreases n,
{
    let d: u8 = (n % 10) as u8;
    let c: char = (48 + d) as char;
    if n < 10 {
        out.push(c);
        assert(out@ =~= old(out)@ + seq![digit(n as nat)]);
    } else {
        push_decimal(out, n / 10);
        let ghost before = out@;
        out.push(c);
        assert(out@ =~= old(out)@ + decimal((n / 10) as nat).push(digit((n % 10) as nat)));
    }
}

/// Whether `s` begins with `prefix`.
pub open spec fn begins_with(s: Seq<char>, prefix: Seq<char>) -> bool {
    prefix.len() <= s.len() && s.take(prefix.len() as int) == prefix
}

/// Whether `s` begins with `prefix`.
pub fn starts_with(s: &str, prefix: &str) -> (r: bool)
    ensures
        r == begins_with(s@, prefix@),
{
    let n: usize = prefix.unicode_len();
    if s.unicode_len() < n {
        return false;
    }
    for i in 0..n
        invariant
            n == prefix@.len(),
            n <= s@.len(),
            s@.take(i as int) == prefix@.take(i as int),
    {
        if s.get_char(i) != prefix.get_char(i) {
            assert(s@.take(n as int)[i as int] != prefix@[i as int]);
            return false;
        }
        assert(s@.take(i + 1) =~= s@.take(i as int).push(s@[i as int]));
        assert(prefix@.take(i + 1) =~= prefix@.take(i as int).push(prefix@[i as int]));
    }
    assert(prefix@.take(n as int) =~= prefix@);
    true
}

/// Whether `a` and `b` are the same text.
pub fn same_text(a: &str, b: &str) -> (r: bool)
    ensures
        r == (a@ == b@),
{
    a.to_string() == b.to_string()
}

} // verus!
