//! String utilities.

use vstd::prelude::*;

verus! {

/// The sequence of characters that `char::to_uppercase` yields for `c`: the
/// full Unicode uppercase mapping, a function of the character alone.
pub uninterp spec fn upper_of(c: char) -> Seq<char>;

/// The ASCII uppercase of the character with value `v`.
pub open spec fn ascii_upper_val(v: int) -> int {
    if 'a' as int <= v <= 'z' as int {
        v - 32
    } else {
        v
    }
}

/// Relies on char::to_uppercase (collected with to_string): the Unicode
/// uppercase mapping of one character, at least one character long; ASCII
/// letters map to their ASCII uppercase.
#[verifier::external_body]
fn upper_str(c: char) -> (r: String)
    ensures
        r@ == upper_of(c),
        r@.len() >= 1,
        (c as int) < 128 ==> r@.len() == 1 && r@[0] as int == ascii_upper_val(c as int) && (
        r@[0] as int) < 128,
{
    c.to_uppercase().to_string()
}

/// Character-exact string equality.
pub fn str_eq(a: &str, b: &str) -> (r: bool)
    ensures
        r == (a@ == b@),
{
    let n = a.unicode_len();
    if n != b.unicode_len() {
        proof {
            assert(a@.len() != b@.len());
        }
        return false;
    }
    let mut i: usize = 0;
    while i < n
        invariant
            0 <= i <= n,
            n == a@.len(),
            n == b@.len(),
            forall|j: int| 0 <= j < i ==> a@[j] == b@[j],
        decreases n - i,
    {
        if a.get_char(i) != b.get_char(i) {
            proof {
                assert(a@[i as int] != b@[i as int]);
            }
            return false;
        }
        i = i + 1;
    }
    proof {
        assert(a@ =~= b@);
    }
    true
}

/// Capitalizes the first letter of a string.
pub fn capitalize(s: &str) -> (r: String)
    ensures
        s@.len() == 0 ==> r@ == Seq::<char>::empty(),
        s@.len() > 0 ==> r@ == upper_of(s@[0]) + s@.skip(1),
        s@.len() > 0 && (s@[0] as int) < 128 ==> {
            &&& r@.len() == s@.len()
            &&& r@[0] as int == ascii_upper_val(s@[0] as int)
            &&& r@.skip(1) == s@.skip(1)
        },
{
    let n = s.unicode_len();
    if n == 0 {
        let r = String::new();
        assert(r@ =~= Seq::<char>::empty());
        return r;
    }
    let first = s.get_char(0);
    let mut res = upper_str(first);
    let rest = s.substring_char(1, n);
    res.append(rest);
    proof {
        assert(rest@ =~= s@.skip(1));
        if (s@[0] as int) < 128 {
            assert(res@.skip(1) =~= s@.skip(1));
        }
    }
    res
}

} // verus!
