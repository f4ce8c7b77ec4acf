//! Pure text and numbering helpers: decimal rendering of integers and the
//! 64-bit mixing hash behind content-addressed artifact names.

use vstd::prelude::*;

verus! {

/// The decimal digit character for a value below ten.
pub open spec fn dec_digit(d: nat) -> char {
    if d == 0 {
        '0'
    } else if d == 1 {
        '1'
    } else if d == 2 {
        '2'
    } else if d == 3 {
        '3'
    } else if d == 4 {
        '4'
    } else if d == 5 {
        '5'
    } else if d == 6 {
        '6'
    } else if d == 7 {
        '7'
    } else if d == 8 {
        '8'
    } else {
        '9'
    }
}

/// The decimal rendering of a natural number, without leading zeroes
/// (a single zero for zero itself).
pub open spec fn dec_str(n: nat) -> Seq<char>
    decreases n,
{
    if n < 10 {
        seq![dec_digit(n)]
    } else {
        dec_str(n / 10).push(dec_digit(n % 10))
    }
}

fn digit_str(d: u64) -> (r: &'static str)
    requires
        d < 10,
    ensures
        r@ =~= seq![dec_digit(d as nat)],
{
    proof {
        reveal_strlit("0");
        reveal_strlit("1");
        reveal_strlit("2");
        reveal_strlit("3");
        reveal_strlit("4");
        reveal_strlit("5");
        reveal_strlit("6");
        reveal_strlit("7");
        reveal_strlit("8");
        reveal_strlit("9");
    }
    if d == 0 {
        "0"
    } else if d == 1 {
        "1"
    } else if d == 2 {
        "2"
    } else if d == 3 {
        "3"
    } else if d == 4 {
        "4"
    } else if d == 5 {
        "5"
    } else if d == 6 {
        "6"
    } else if d == 7 {
        "7"
    } else if d == 8 {
        "8"
    } else {
        "9"
    }
}

/// Appends the decimal rendering of `n` to `s`.
pub fn push_decimal(s: &mut String, n: u64)
    ensures
        final(s)@ == old(s)@ + dec_str(n as nat),
    decreases n,
{
    if n >= 10 {
        push_decimal(s, n / 10);
    }
    s.append(digit_str(n % 10));
    proof {
        if n >= 10 {
            assert(old(s)@ + dec_str(n as nat) == old(s)@ + dec_str(n as nat / 10) + seq![
                dec_digit(n as nat % 10),
            ]);
        } else {
            assert(dec_str(n as nat) =~= seq![dec_digit(n as nat)]);
        }
        assert(final(s)@ =~= old(s)@ + dec_str(n as nat));
    }
}

/// The decimal rendering of `n` as an owned string.
pub fn decimal_string(n: u64) -> (r: String)
    ensures
        r@ == dec_str(n as nat),
{
    let mut s = String::new();
    push_decimal(&mut s, n);
    proof {
        assert(s@ =~= dec_str(n as nat));
    }
    s
}

/// One round of the mixing hash: fold a 64-bit word into the state.
pub open spec fn mix(h: u64, x: u64) -> u64 {
    ((((h ^ x) as int) * 0x100000001b3) % 0x10000000000000000) as u64
}

/// Folds one word into the hash state.
pub fn mix_word(h: u64, x: u64) -> (r: u64)
    ensures
        r == mix(h, x),
{
    let m: u128 = ((h ^ x) as u128) * 0x100000001b3u128;
    (m % 0x10000000000000000u128) as u64
}

/// The hash state folded over the characters of a string.
pub open spec fn mix_chars(h: u64, s: Seq<char>) -> u64
    decreases s.len(),
{
    if s.len() == 0 {
        h
    } else {
        mix(mix_chars(h, s.drop_last()), s.last() as u64)
    }
}

/// Folds every character of `s` into the hash state.
pub fn mix_string(h: u64, s: &str) -> (r: u64)
    ensures
        r == mix_chars(h, s@),
{
    let len = s.unicode_len();
    let mut acc = h;
    let mut i: usize = 0;
    while i < len
        invariant
            i <= len,
            len == s@.len(),
            acc == mix_chars(h, s@.take(i as int)),
        decreases len - i,
    {
        let c = s.get_char(i);
        acc = mix_word(acc, c as u64);
        i = i + 1;
        proof {
            assert(s@.take(i as int).drop_last() =~= s@.take(i - 1));
            assert(s@.take(i as int).last() == s@[i - 1]);
        }
    }
    proof {
        assert(s@.take(len as int) =~= s@);
    }
    acc
}

} // verus!
