//! Conversion utility functions for hex strings and color codes.

use vstd::prelude::*;

verus! {

/// True if `c` is a hexadecimal digit.
pub open spec fn is_hex_digit(c: char) -> bool {
    ||| '0' <= c <= '9'
    ||| 'a' <= c <= 'f'
    ||| 'A' <= c <= 'F'
}

/// Value of the hexadecimal digit `c`.
pub open spec fn hex_digit_val(c: char) -> int {
    if '0' <= c <= '9' {
        c as int - '0' as int
    } else if 'a' <= c <= 'f' {
        c as int - 'a' as int + 10
    } else {
        c as int - 'A' as int + 10
    }
}

/// Value of a big-endian sequence of hexadecimal digits.
pub open spec fn hex_seq_val(ds: Seq<char>) -> int
    decreases ds.len(),
{
    if ds.len() == 0 {
        0
    } else {
        hex_seq_val(ds.drop_last()) * 16 + hex_digit_val(ds.last())
    }
}

/// True if every character of `ds` is a hexadecimal digit.
pub open spec fn all_hex_digits(ds: Seq<char>) -> bool {
    forall|i: int| 0 <= i < ds.len() ==> is_hex_digit(#[trigger] ds[i])
}

/// The digit part of a hex string: everything after an optional leading '#'.
pub open spec fn strip_hash(s: Seq<char>) -> Seq<char> {
    if s.len() > 0 && s[0] == '#' {
        s.skip(1)
    } else {
        s
    }
}

/// 16 to the power `n`.
pub open spec fn pow16(n: nat) -> int
    decreases n,
{
    if n == 0 {
        1
    } else {
        16 * pow16((n - 1) as nat)
    }
}

/// A sequence of `n` hex digits denotes a value below `16^n`.
proof fn lemma_hex_seq_val_bound(ds: Seq<char>)
    requires
        all_hex_digits(ds),
    ensures
        0 <= hex_seq_val(ds) < pow16(ds.len()),
    decreases ds.len(),
{
    if ds.len() > 0 {
        lemma_hex_seq_val_bound(ds.drop_last());
    }
}

/// Converts a hex char to a u8.
pub fn hex_char_to_int(ch: char) -> (r: Option<u8>)
    ensures
        r is Some <==> is_hex_digit(ch),
        r matches Some(v) ==> v == hex_digit_val(ch),
{
    if '0' <= ch && ch <= '9' {
        Some((ch as u8) - ('0' as u8))
    } else if 'a' <= ch && ch <= 'f' {
        Some((ch as u8) - ('a' as u8) + 10)
    } else if 'A' <= ch && ch <= 'F' {
        Some((ch as u8) - ('A' as u8) + 10)
    } else {
        None
    }
}

/// Converts a hex string of one to seven digits to a u32.
/// The string can optionally start with '#'.
pub fn hex_str_to_int(s: &str) -> (r: Option<u32>)
    ensures
        r is Some <==> {
            &&& 1 <= strip_hash(s@).len() <= 7
            &&& all_hex_digits(strip_hash(s@))
        },
        r matches Some(v) ==> v == hex_seq_val(strip_hash(s@)),
{
    let n = s.unicode_len();
    if n == 0 {
        return None;
    }
    let first = s.get_char(0);
    let start: usize = if first == '#' {
        1
    } else {
        0
    };
    let ghost ds = strip_hash(s@);
    assert(ds =~= s@.subrange(start as int, n as int));
    if n - start < 1 || n - start > 7 {
        return None;
    }
    let mut res: u32 = 0;
    let mut j: usize = start;
    while j < n
        invariant
            start <= j <= n,
            n == s@.len(),
            n - start <= 7,
            ds == strip_hash(s@),
            ds == s@.subrange(start as int, n as int),
            all_hex_digits(s@.subrange(start as int, j as int)),
            res == hex_seq_val(s@.subrange(start as int, j as int)),
            res < pow16((j - start) as nat),
        decreases n - j,
    {
        let c = s.get_char(j);
        let d = match hex_char_to_int(c) {
            Some(d) => d,
            None => {
                proof {
                    assert(ds.len() == n - start);
                    assert(0 <= j - start < ds.len());
                    assert(ds[j - start] == s@[j as int]);
                    assert(!is_hex_digit(ds[j - start]));
                    assert(!all_hex_digits(ds));
                }
                return None;
            },
        };
        proof {
            let pre = s@.subrange(start as int, j as int);
            let post = s@.subrange(start as int, j + 1);
            assert(post.drop_last() =~= pre);
            assert(post.last() == c);
            assert(pow16(((j + 1) - start) as nat) == 16 * pow16((j - start) as nat));
            assert(pow16((j - start) as nat) <= pow16(6)) by {
                lemma_pow16_monotone((j - start) as nat, 6);
            }
            assert(pow16(6) == 16777216) by {
                reveal_with_fuel(pow16, 7);
            }
        }
        res = res * 16 + (d as u32);
        j = j + 1;
    }
    proof {
        assert(s@.subrange(start as int, j as int) =~= ds);
    }
    Some(res)
}

/// `pow16` is monotone in its exponent.
proof fn lemma_pow16_monotone(a: nat, b: nat)
    requires
        a <= b,
    ensures
        pow16(a) <= pow16(b),
        pow16(a) >= 1,
    decreases b,
{
    if a < b {
        lemma_pow16_monotone(a, (b - 1) as nat);
    } else if a > 0 {
        lemma_pow16_monotone((a - 1) as nat, (b - 1) as nat);
    }
}

/// Converts a 6-digit hex color code to a (r, g, b) tuple of u8's.
/// The string can optionally start with '#'.
pub fn color_code_to_rgb(s: &str) -> (r: Option<(u8, u8, u8)>)
    ensures
        r is Some <==> {
            &&& strip_hash(s@).len() == 6
            &&& all_hex_digits(strip_hash(s@))
        },
        r matches Some(v) ==> {
            let ds = strip_hash(s@);
            &&& v.0 == hex_digit_val(ds[0]) * 16 + hex_digit_val(ds[1])
            &&& v.1 == hex_digit_val(ds[2]) * 16 + hex_digit_val(ds[3])
            &&& v.2 == hex_digit_val(ds[4]) * 16 + hex_digit_val(ds[5])
        },
{
    let n = s.unicode_len();
    if n == 0 {
        return None;
    }
    let first = s.get_char(0);
    let start: usize = if first == '#' {
        1
    } else {
        0
    };
    let ghost ds = strip_hash(s@);
    assert(ds =~= s@.subrange(start as int, n as int));
    if n - start != 6 {
        return None;
    }
    let mut vals: [u8; 6] = [0, 0, 0, 0, 0, 0];
    let mut k: usize = 0;
    while k < 6
        invariant
            0 <= k <= 6,
            n == s@.len(),
            n - start == 6,
            ds == strip_hash(s@),
            ds == s@.subrange(start as int, n as int),
            all_hex_digits(s@.subrange(start as int, (start + k) as int)),
            forall|i: int| 0 <= i < k ==> vals@[i] == hex_digit_val(ds[i]),
        decreases 6 - k,
    {
        let c = s.get_char(start + k);
        match hex_char_to_int(c) {
            Some(d) => {
                vals[k] = d;
                proof {
                    let pre = s@.subrange(start as int, (start + k) as int);
                    let post = s@.subrange(start as int, (start + k) + 1);
                    assert(post.drop_last() =~= pre);
                    assert(post.last() == c);
                }
            },
            None => {
                proof {
                    assert(ds[k as int] == s@[(start + k) as int]);
                    assert(!is_hex_digit(ds[k as int]));
                }
                return None;
            },
        }
        k = k + 1;
    }
    proof {
        assert(s@.subrange(start as int, (start + 6) as int) =~= ds);
        assert(forall|i: int| 0 <= i < 6 ==> is_hex_digit(#[trigger] ds[i]));
    }
    let red = vals[0] * 16 + vals[1];
    let green = vals[2] * 16 + vals[3];
    let blue = vals[4] * 16 + vals[5];
    Some((red, green, blue))
}

} // verus!
