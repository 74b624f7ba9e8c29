//! Random name generation over hand-picked letter sequences.

use crate::rng::{dice, rand_u32, rand_usize};
use crate::string_util::{ascii_upper_val, capitalize, upper_of};
use vstd::arithmetic::div_mod::{lemma_div_non_zero, lemma_fundamental_div_mod};
use vstd::prelude::*;
use vstd::utf8::{is_ascii_chars, is_ascii_chars_concat};

verus! {

/// Capitalizes the first letter of a string.
pub fn cap(s: &str) -> (r: String)
    ensures
        s@.len() == 0 ==> r@ == Seq::<char>::empty(),
        s@.len() > 0 ==> r@ == upper_of(s@[0]) + s@.skip(1),
        s@.len() > 0 && (s@[0] as int) < 128 ==> {
            &&& r@.len() == s@.len()
            &&& r@[0] as int == ascii_upper_val(s@[0] as int)
            &&& r@.skip(1) == s@.skip(1)
        },
{
    capitalize(s)
}

// Helper for `name_gen`: picks a uniformly random aligned chunk of `n`
// characters from the sequence pool `s`.
pub(crate) fn pick_seq<'a>(s: &'a str, n: usize) -> (r: &'a str)
    requires
        1 <= n <= s@.len(),
        is_ascii_chars(s@),
    ensures
        r@.len() == n,
        is_ascii_chars(r@),
        exists|i: int|
            0 <= i && n * i + n <= s@.len() && r@ == #[trigger] s@.subrange(n * i, n * i + n),
{
    let len = s.unicode_len();
    proof {
        lemma_div_non_zero(len as int, n as int);
        lemma_fundamental_div_mod(len as int, n as int);
    }
    let i = rand_usize(0, len / n - 1);
    proof {
        assert(n * i + n <= n * (len / n)) by (nonlinear_arith)
            requires
                n >= 1,
                0 <= i,
                i + 1 <= len as int / n as int,
        ;
        assert(n * (len / n) <= len) by (nonlinear_arith)
            requires
                n >= 1,
                len as int == n as int * (len as int / n as int) + len as int % n as int,
                len as int % n as int >= 0,
        ;
    }
    let r = s.substring_ascii(n * i, n * i + n);
    proof {
        assert(r@ == s@.subrange(n * i, n * i + n));
    }
    r
}

/// Returns a randomly-generated name of `len` characters for some uniformly
/// random `len` between `min_len` and `max_len`: alternating consonant and
/// vowel sequences, with dedicated start and end pools, capitalized.
pub fn name_gen(min_len: usize, max_len: usize) -> (r: String)
    requires
        3 <= min_len,
        min_len <= max_len,
    ensures
        min_len <= r@.len() <= max_len,
{
    // Define the list of consonant, double consonant, etc. sequences.
    let consonants = "bdfgklmnprsstvx";
    let start_consonants = "bdfghklmnprsstvwjz";
    let end_consonants = "bdfghklnprsstx";
    let dconsonants = "brchcttrthghdrmmttllstqu";
    let start_dconsonants = "brchcltrthdrslphblcrfrgrstquvrwhwr";
    let end_dconsonants = "chghrmstth";
    let tconsonants = "chrstrthr";
    let vowels = "aaeeiioouy";
    let end_vowels = "aou";
    let dvowels = "iaio";
    let end_dvowels = "ia";
    proof {
        reveal_strlit("bdfgklmnprsstvx");
        reveal_strlit("bdfghklmnprsstvwjz");
        reveal_strlit("bdfghklnprsstx");
        reveal_strlit("brchcttrthghdrmmttllstqu");
        reveal_strlit("brchcltrthdrslphblcrfrgrstquvrwhwr");
        reveal_strlit("chghrmstth");
        reveal_strlit("chrstrthr");
        reveal_strlit("aaeeiioouy");
        reveal_strlit("aou");
        reveal_strlit("iaio");
        reveal_strlit("ia");
    }

    let len = rand_usize(min_len, max_len);
    let mut word = String::new();
    let mut wlen: usize = 0;

    // Pick starting sequence; `len >= 3` leaves room for any start pick.
    let mut is_vowel: bool;
    if dice(1, 3) {
        let p = pick_seq(vowels, 1);
        word.append(p);
        proof {
            is_ascii_chars_concat(word@, Seq::<char>::empty() + p@, Seq::<char>::empty());
            assert(word@ =~= Seq::<char>::empty() + p@);
            assert(is_ascii_chars(word@));
        }
        wlen = 1;
        is_vowel = false;
    } else {
        let roll = rand_u32(1, 100);
        let p: &str = if roll <= 40 {
            pick_seq(start_consonants, 1)
        } else if roll <= 80 {
            pick_seq(start_dconsonants, 2)
        } else {
            pick_seq(tconsonants, 3)
        };
        word.append(p);
        proof {
            assert(word@ =~= Seq::<char>::empty() + p@);
            assert(is_ascii_chars(word@));
        }
        wlen = p.unicode_len();
        is_vowel = true;
    }

    // Pick middle sequences, alternating between vowels and consonants,
    // while at least three characters of the target length remain.
    while wlen <= len - 3
        invariant
            3 <= len,
            1 <= wlen <= len,
            wlen == word@.len(),
            is_ascii_chars(word@),
            is_ascii_chars(consonants@),
            is_ascii_chars(dconsonants@),
            is_ascii_chars(tconsonants@),
            is_ascii_chars(vowels@),
            is_ascii_chars(dvowels@),
            consonants@.len() >= 3,
            dconsonants@.len() >= 3,
            tconsonants@.len() >= 3,
            vowels@.len() >= 2,
            dvowels@.len() >= 2,
        decreases len - wlen,
    {
        let p: &str = if is_vowel {
            let roll = rand_u32(1, 100);
            if roll <= 85 {
                pick_seq(vowels, 1)
            } else {
                pick_seq(dvowels, 2)
            }
        } else {
            let roll = rand_u32(1, 100);
            if roll <= 60 {
                pick_seq(consonants, 1)
            } else if roll <= 90 {
                pick_seq(dconsonants, 2)
            } else {
                pick_seq(tconsonants, 3)
            }
        };
        let ghost prev = word@;
        word.append(p);
        proof {
            assert(is_ascii_chars(word@)) by {
                assert(word@ =~= prev + p@);
                is_ascii_chars_concat(word@, prev, p@);
            }
        }
        wlen = wlen + p.unicode_len();
        is_vowel = !is_vowel;
    }

    // Pick the last sequence so the word lands exactly on the target length.
    let rem = len - wlen;
    if rem > 0 {
        let p: &str = if rem == 1 {
            if is_vowel {
                pick_seq(end_vowels, 1)
            } else {
                pick_seq(end_consonants, 1)
            }
        } else {
            if is_vowel {
                pick_seq(end_dvowels, 2)
            } else {
                pick_seq(end_dconsonants, 2)
            }
        };
        let ghost prev = word@;
        word.append(p);
        proof {
            assert(is_ascii_chars(word@)) by {
                assert(word@ =~= prev + p@);
                is_ascii_chars_concat(word@, prev, p@);
            }
        }
        wlen = wlen + p.unicode_len();
    }

    proof {
        assert((word@[0] as int) < 128);
    }
    cap(word.as_str())
}

} // verus!
