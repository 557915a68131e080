//! Segmenting a formatted string back into cipher parts.

use vstd::prelude::*;
use vstd::string::StrSliceExecFns;

use crate::chars::{
    char_is_alpha, char_is_low, char_is_up, is_alpha, is_low, is_up, push_char, spec_to_lower,
    to_lower_char,
};
use crate::model::{
    all_alpha, chunks4_low, classify_run, deformat_spec, has_pascal, lemma_run_len_exact,
    lower_all,
};

verus! {

/// Whether some four-character window of the string has the pascal shape:
/// one uppercase letter followed by three lowercase ones.
fn has_pascal_window(word: &str) -> (b: bool)
    ensures
        b == has_pascal(word@),
{
    let n = word.unicode_len();
    let mut t: usize = 0;
    if n >= 4 {
        while t <= n - 4
            invariant
                0 <= t <= n - 3,
                4 <= n == word@.len(),
                forall|u: int|
                    0 <= u < t ==> !(is_up(#[trigger] word@[u]) && is_low(word@[u + 1]) && is_low(
                    word@[u + 2]) && is_low(word@[u + 3])),
            decreases n - t,
        {
            if char_is_up(word.get_char(t)) && char_is_low(word.get_char(t + 1)) && char_is_low(
                word.get_char(t + 2),
            ) && char_is_low(word.get_char(t + 3)) {
                proof {
                    assert(0 <= t as int && t as int + 4 <= word@.len() && is_up(word@[t as int])
                        && is_low(word@[t as int + 1]) && is_low(word@[t as int + 2]) && is_low(
                        word@[t as int + 3]));
                }
                return true;
            }
            t += 1;
        }
    }
    proof {
        assert forall|u: int| 0 <= u && u + 4 <= word@.len() implies !(is_up(
            #[trigger] word@[u],
        ) && is_low(word@[u + 1]) && is_low(word@[u + 2]) && is_low(word@[u + 3])) by {
            assert(u < t);
        }
    }
    false
}

/// The string with every character lowercased (ASCII only).
fn lowercase_str(s: &str) -> (r: String)
    ensures
        r@ == lower_all(s@),
{
    let n = s.unicode_len();
    let mut r = String::new();
    let mut i: usize = 0;
    while i < n
        invariant
            0 <= i <= n == s@.len(),
            r@.len() == i,
            forall|t: int| 0 <= t < i ==> r@[t] == spec_to_lower(#[trigger] s@[t]),
        decreases n - i,
    {
        push_char(&mut r, to_lower_char(s.get_char(i)));
        i += 1;
    }
    proof {
        assert(r@ =~= lower_all(s@));
    }
    r
}

/// Tries to cut a segment into four-character code chunks, lowercased.
///
/// The attempt is made when the length is a multiple of four or when some
/// window has the pascal shape; it succeeds only if whole four-character
/// chunks of letters cover the segment exactly, and then appends the chunks
/// to `out` and returns true. A trailing remainder shorter than four
/// characters, a non-letter, or an empty segment leaves `out` untouched.
/// The pascal-window test therefore never changes the outcome: it only
/// admits segments whose chunking then fails on the remainder. That
/// heuristic cannot tell a genuine sixteen-letter word from four codes; the
/// ambiguity is inherent to the separator-free layouts.
pub fn try_split_codes(word: &str, out: &mut Vec<String>) -> (b: bool)
    ensures
        b == (word@.len() > 0 && word@.len() % 4 == 0 && all_alpha(word@)),
        b ==> final(out).deep_view() == old(out).deep_view() + chunks4_low(word@),
        !b ==> final(out).deep_view() == old(out).deep_view(),
{
    let len = word.unicode_len();
    let has_p = has_pascal_window(word);
    if len % 4 != 0 && !has_p {
        return false;
    }
    let mut i: usize = 0;
    let mut temp: Vec<String> = Vec::new();
    proof {
        assert(word@.skip(0) =~= word@);
        assert(temp.deep_view() + chunks4_low(word@) =~= chunks4_low(word@));
    }
    while i < len
        invariant
            0 <= i <= len,
            i % 4 == 0,
            len == word@.len(),
            forall|t: int| 0 <= t < i ==> is_alpha(#[trigger] word@[t]),
            chunks4_low(word@) == temp.deep_view() + chunks4_low(word@.skip(i as int)),
        decreases len - i,
    {
        if len - i >= 4 {
            let chunk = word.substring_char(i, i + 4);
            let mut k: usize = 0;
            while k < 4
                invariant
                    0 <= k <= 4,
                    chunk@ == word@.subrange(i as int, i as int + 4),
                    i + 4 <= len == word@.len(),
                    forall|t: int| 0 <= t < k ==> is_alpha(#[trigger] chunk@[t]),
                decreases 4 - k,
            {
                if !char_is_alpha(chunk.get_char(k)) {
                    return false;
                }
                k += 1;
            }
            let ghost tdv = temp.deep_view();
            proof {
                assert forall|t: int| 0 <= t < i + 4 implies is_alpha(#[trigger] word@[t]) by {
                    if i <= t {
                        assert(chunk@[t - i] == word@[t]);
                    }
                }
                let rem = word@.skip(i as int);
                assert(rem.take(4) =~= chunk@);
                assert(rem.skip(4) =~= word@.skip(i as int + 4));
                assert(tdv + (seq![lower_all(chunk@)] + chunks4_low(word@.skip(i as int + 4)))
                    =~= (tdv + seq![lower_all(chunk@)]) + chunks4_low(word@.skip(i as int + 4)));
            }
            temp.push(lowercase_str(chunk));
            proof {
                assert(temp.deep_view() =~= tdv + seq![lower_all(chunk@)]);
            }
            i += 4;
        } else {
            // remainder shorter than four characters: never accepted
            return false;
        }
    }
    if temp.len() > 0 {
        proof {
            assert(chunks4_low(word@.skip(len as int)) =~= Seq::<Seq<char>>::empty());
            assert(temp.deep_view() + Seq::<Seq<char>>::empty() =~= temp.deep_view());
            assert(word@.len() > 0) by {
                if word@.len() == 0 {
                    assert(chunks4_low(word@) =~= Seq::<Seq<char>>::empty());
                }
            }
        }
        let ghost old_dv = out.deep_view();
        let ghost temp_dv = temp.deep_view();
        out.append(&mut temp);
        proof {
            assert(out.deep_view() =~= old_dv + temp_dv);
        }
        true
    } else {
        false
    }
}

/// Splits a formatted cipher string into its parts.
///
/// The string is cut into maximal runs of letters and non-letters. A run of
/// letters that chunks into four-letter codes yields those codes,
/// lowercased; every other run is kept as one literal. Empty input yields
/// no parts.
pub fn preprocess_cipher(input: &str) -> (r: Vec<String>)
    ensures
        r.deep_view() == deformat_spec(input@),
{
    let n = input.unicode_len();
    let mut result: Vec<String> = Vec::new();
    if n == 0 {
        proof {
            assert(result.deep_view() =~= deformat_spec(input@));
        }
        return result;
    }
    let mut i: usize = 0;
    proof {
        assert(input@.skip(0) =~= input@);
        assert(result.deep_view() + deformat_spec(input@) =~= deformat_spec(input@));
    }
    while i < n
        invariant
            0 <= i <= n == input@.len(),
            deformat_spec(input@) == result.deep_view() + deformat_spec(input@.skip(i as int)),
        decreases n - i,
    {
        let alpha = char_is_alpha(input.get_char(i));
        let mut j: usize = i + 1;
        while j < n && char_is_alpha(input.get_char(j)) == alpha
            invariant
                i < j <= n == input@.len(),
                alpha == is_alpha(input@[i as int]),
                forall|t: int| i <= t < j ==> is_alpha(#[trigger] input@[t]) == alpha,
            decreases n - j,
        {
            j += 1;
        }
        let ghost rem = input@.skip(i as int);
        let ghost seg_view = input@.subrange(i as int, j as int);
        proof {
            assert forall|t: int| 0 <= t < j - i implies is_alpha(#[trigger] rem[t]) == alpha by {
                assert(rem[t] == input@[i + t]);
            }
            if j < n {
                assert(rem[j - i] == input@[j as int]);
            }
            lemma_run_len_exact(rem, alpha, j - i);
            assert(rem.take(j - i) =~= seg_view);
            assert(rem.skip(j - i) =~= input@.skip(j as int));
            assert(deformat_spec(rem) == classify_run(seg_view) + deformat_spec(
                input@.skip(j as int),
            ));
            assert(result.deep_view() + (classify_run(seg_view) + deformat_spec(
                input@.skip(j as int),
            )) =~= (result.deep_view() + classify_run(seg_view)) + deformat_spec(
                input@.skip(j as int),
            ));
        }
        let seg = input.substring_char(i, j);
        if alpha {
            let split = try_split_codes(seg, &mut result);
            if !split {
                let ghost rdv = result.deep_view();
                proof {
                    assert(!(seg_view.len() % 4 == 0));
                    assert(classify_run(seg_view) =~= seq![seg_view]);
                }
                result.push(seg.to_owned());
                proof {
                    assert(result.deep_view() =~= rdv + seq![seg_view]);
                }
            }
        } else {
            let ghost rdv = result.deep_view();
            proof {
                assert(!all_alpha(seg_view)) by {
                    assert(seg_view[0] == input@[i as int]);
                }
                assert(classify_run(seg_view) =~= seq![seg_view]);
            }
            result.push(seg.to_owned());
            proof {
                assert(result.deep_view() =~= rdv + seq![seg_view]);
            }
        }
        i = j;
    }
    proof {
        assert(deformat_spec(input@.skip(n as int)) =~= Seq::<Seq<char>>::empty());
        assert(result.deep_view() + Seq::<Seq<char>>::empty() =~= result.deep_view());
    }
    result
}

} // verus!
