//! Older language helpers: capitalization and a looser name generator kept
//! alongside the sequence-exact one.

use crate::rng::{dice, rand_u32, rand_usize};
use crate::string_util::{ascii_upper_val, capitalize};
use vstd::prelude::*;
use vstd::utf8::{is_ascii_chars, is_ascii_chars_concat};

verus! {

/// Capitalize the first letter of the string. The string must be nonempty
/// and start with an ASCII character.
pub fn cap(s: &String) -> (r: String)
    requires
        s@.len() >= 1,
        (s@[0] as int) < 128,
    ensures
        r@.len() == s@.len(),
        r@[0] as int == ascii_upper_val(s@[0] as int),
        r@.skip(1) == s@.skip(1),
{
    capitalize(s.as_str())
}

// Helper for `name_gen`: picks a uniformly random aligned chunk of `n`
// characters from the sequence pool `s`.
fn pick_chunk<'a>(s: &'a str, n: usize) -> (r: &'a str)
    requires
        1 <= n <= s@.len(),
        is_ascii_chars(s@),
    ensures
        r@.len() == n,
        is_ascii_chars(r@),
{
    crate::lang::pick_seq(s, n)
}

/// Return a randomly-generated name of between one and `max_len + 2`
/// characters (at least three when `max_len` allows), built from two to
/// five alternating vowel and consonant sequences.
pub fn name_gen(max_len: usize) -> (r: String)
    requires
        max_len <= usize::MAX - 2,
    ensures
        1 <= r@.len(),
        r@.len() <= max_len + 2 || r@.len() <= 3,
{
    let consonants = "bdfgklmnprsstvx";
    let start_consonants = "bdfghklmnprsstvwjz";
    let end_consonants = "bdfghklnprsstx";
    let dconsonants = "brchcttrthghdrmmttllstqu";
    let start_dconsonants = "brchcltrthdrslphblcrfrgrstquvrwhwr";
    let end_dconsonants = "chthghstrm";
    let tconsonants = "chrstrthr";
    let vowels = "aaeeiioouy";
    let end_vowels = "aio";
    let dvowels = "ioiaai";
    let end_dvowels = "ia";
    proof {
        reveal_strlit("bdfgklmnprsstvx");
        reveal_strlit("bdfghklmnprsstvwjz");
        reveal_strlit("bdfghklnprsstx");
        reveal_strlit("brchcttrthghdrmmttllstqu");
        reveal_strlit("brchcltrthdrslphblcrfrgrstquvrwhwr");
        reveal_strlit("chthghstrm");
        reveal_strlit("chrstrthr");
        reveal_strlit("aaeeiioouy");
        reveal_strlit("aio");
        reveal_strlit("ioiaai");
        reveal_strlit("ia");
    }

    let mut word = String::new();
    let mut wlen: usize = 0;

    // Pick starting sequence.
    let mut is_vowel = dice(1, 3);
    if is_vowel {
        let p = pick_chunk(vowels, 1);
        word.append(p);
        proof {
            assert(word@ =~= Seq::<char>::empty() + p@);
            assert(is_ascii_chars(word@));
        }
        wlen = 1;
    } else {
        let roll = rand_u32(1, 100);
        let p: &str = if roll <= 40 {
            pick_chunk(start_consonants, 1)
        } else if roll <= 80 {
            pick_chunk(start_dconsonants, 2)
        } else {
            pick_chunk(tconsonants, 3)
        };
        word.append(p);
        proof {
            assert(word@ =~= Seq::<char>::empty() + p@);
            assert(is_ascii_chars(word@));
        }
        wlen = p.unicode_len();
    }

    // Alternate between choosing vowel and consonant sequences.
    let mut m = rand_usize(2, 5);
    while m > 0 && wlen < max_len
        invariant
            1 <= wlen,
            wlen <= max_len + 2 || wlen <= 3,
            wlen == word@.len(),
            is_ascii_chars(word@),
            is_ascii_chars(consonants@),
            is_ascii_chars(dconsonants@),
            is_ascii_chars(tconsonants@),
            is_ascii_chars(end_consonants@),
            is_ascii_chars(end_dconsonants@),
            is_ascii_chars(vowels@),
            is_ascii_chars(dvowels@),
            is_ascii_chars(end_vowels@),
            is_ascii_chars(end_dvowels@),
            consonants@.len() >= 3,
            dconsonants@.len() >= 3,
            tconsonants@.len() >= 3,
            end_consonants@.len() >= 2,
            end_dconsonants@.len() >= 2,
            vowels@.len() >= 2,
            dvowels@.len() >= 2,
            end_vowels@.len() >= 2,
            end_dvowels@.len() >= 2,
            max_len <= usize::MAX - 2,
        decreases m,
    {
        m = m - 1;
        is_vowel = !is_vowel;
        let p: &str = if is_vowel {
            if m == 0 {
                // Last sequence.
                let roll = rand_u32(1, 100);
                if roll <= 80 {
                    pick_chunk(end_vowels, 1)
                } else {
                    pick_chunk(end_dvowels, 2)
                }
            } else {
                let roll = rand_u32(1, 100);
                if roll <= 80 {
                    pick_chunk(vowels, 1)
                } else {
                    pick_chunk(dvowels, 2)
                }
            }
        } else {
            if m == 0 {
                // Last sequence.
                let roll = rand_u32(1, 100);
                if roll <= 60 {
                    pick_chunk(end_consonants, 1)
                } else {
                    pick_chunk(end_dconsonants, 2)
                }
            } else {
                // Middle sequence.
                let roll = rand_u32(1, 100);
                if roll <= 60 {
                    pick_chunk(consonants, 1)
                } else if roll <= 90 {
                    pick_chunk(dconsonants, 2)
                } else {
                    pick_chunk(tconsonants, 3)
                }
            }
        };
        let ghost prev = word@;
        word.append(p);
        proof {
            assert(is_ascii_chars(word@)) by {
                assert(word@ =~= prev + p@);
                is_ascii_chars_concat(word@, prev, p@);
            }
        }
        wlen = wlen + p.unicode_len();
    }

    proof {
        assert((word@[0] as int) < 128);
    }
    cap(&word)
}

} // verus!
