//! Encryption and decryption of whole texts.
//!
//! Encryption segments the text into single Chinese characters and maximal
//! runs of everything else, encodes each Chinese character through the
//! oracle, and renders the parts under the chosen layout. Decryption
//! segments a formatted cipher string back into parts and decodes each
//! code, keeping any part the oracle does not recognise verbatim.

use vstd::prelude::*;
use vstd::string::{StrSliceExecFns, StringExecFns};

use crate::chars::{is_chinese_char, is_chinese, push_char};
use crate::deformat::preprocess_cipher;
use crate::format::{format_cipher, is_code};
use crate::model::{deformat_spec, fmt_of, format_spec, is_code_part};
use crate::oracle::{decode_of, decrypt_code, encode_of, encrypt_char, s2t_of, s2t_string};

verus! {

/// The length of the maximal prefix holding no Chinese character.
pub open spec fn non_han_len(s: Seq<char>) -> nat
    decreases s.len(),
{
    if s.len() == 0 || is_chinese_char(s[0]) {
        0
    } else {
        1 + non_han_len(s.drop_first())
    }
}

/// A run of non-Chinese text never reaches past the end.
pub proof fn lemma_non_han_len_le(s: Seq<char>)
    ensures
        non_han_len(s) <= s.len(),
    decreases s.len(),
{
    if s.len() > 0 && !is_chinese_char(s[0]) {
        lemma_non_han_len_le(s.drop_first());
    }
}

/// A non-Chinese run of known extent: if the characters up to `k` are all
/// non-Chinese and the run cannot be extended, its length is exactly `k`.
pub proof fn lemma_non_han_len_exact(s: Seq<char>, k: int)
    requires
        0 <= k <= s.len(),
        forall|i: int| 0 <= i < k ==> !is_chinese_char(#[trigger] s[i]),
        k == s.len() || is_chinese_char(s[k]),
    ensures
        non_han_len(s) == k,
    decreases s.len(),
{
    if k > 0 {
        lemma_non_han_len_exact(s.drop_first(), k - 1);
    }
}

/// The canonical parts sequence of a text: each Chinese character becomes
/// the code the oracle assigns to it, each maximal run of other characters
/// one literal.
pub open spec fn encode_parts(s: Seq<char>) -> Seq<Seq<char>>
    decreases s.len(),
    via encode_parts_decreases
{
    if s.len() == 0 {
        Seq::empty()
    } else if is_chinese_char(s[0]) {
        seq![encode_of(s[0])] + encode_parts(s.drop_first())
    } else {
        seq![s.take(non_han_len(s) as int)] + encode_parts(s.skip(non_han_len(s) as int))
    }
}

#[via_fn]
proof fn encode_parts_decreases(s: Seq<char>) {
    if s.len() > 0 && !is_chinese_char(s[0]) {
        lemma_non_han_len_le(s);
        assert(non_han_len(s) >= 1);
    }
}

/// What one recovered part contributes to the plaintext: a code becomes
/// the character it decodes to, or stays verbatim when the oracle does not
/// recognise it; a literal stays verbatim.
pub open spec fn decrypt_one(p: Seq<char>) -> Seq<char> {
    if is_code_part(p) {
        match decode_of(p) {
            Some(c) => seq![c],
            None => p,
        }
    } else {
        p
    }
}

/// The plaintext recovered from a parts sequence.
pub open spec fn decrypt_parts(parts: Seq<Seq<char>>) -> Seq<char>
    decreases parts.len(),
{
    if parts.len() == 0 {
        Seq::empty()
    } else {
        decrypt_one(parts[0]) + decrypt_parts(parts.drop_first())
    }
}

/// THE CODEC ROUND TRIP. Encodes one character through the oracle and
/// decodes the code again: the result is always the original character.
/// Verus derives this from the oracle's contract; the oracle itself is
/// outside the library and is exercised by the tests.
pub fn codec_round_trip(c: char) -> (r: Option<char>)
    ensures
        r == Some(c),
{
    let oracle = uniaz::UniAz::new();
    let code = encrypt_char(&oracle, c);
    decrypt_code(&oracle, code.as_str())
}

/// Encrypts a text: optionally converts it to traditional script, encodes
/// every Chinese character, and renders the parts under the given layout.
///
/// Returns the formatted cipher text, the raw parts, and the text that was
/// actually encrypted. It never fails.
pub fn encrypt_text(plain: &str, use_traditional: bool, format: &str) -> (r: Result<
    (String, Vec<String>, String),
    String,
>)
    ensures
        ({
            let text = if use_traditional {
                s2t_of(plain@)
            } else {
                plain@
            };
            r matches Ok(t) && t.0@ == format_spec(encode_parts(text), fmt_of(format@))
                && t.1.deep_view() == encode_parts(text) && t.2@ == text
        }),
{
    let oracle = uniaz::UniAz::new();
    let text: String = if use_traditional {
        s2t_string(plain)
    } else {
        plain.to_owned()
    };
    let ghost tv = text@;
    let n = text.as_str().unicode_len();
    let mut parts: Vec<String> = Vec::new();
    let mut i: usize = 0;
    proof {
        assert(tv.skip(0) =~= tv);
        assert(parts.deep_view() + encode_parts(tv) =~= encode_parts(tv));
    }
    while i < n
        invariant
            0 <= i <= n == tv.len(),
            text@ == tv,
            encode_parts(tv) == parts.deep_view() + encode_parts(tv.skip(i as int)),
        decreases n - i,
    {
        let ghost rem = tv.skip(i as int);
        let c = text.as_str().get_char(i);
        proof {
            assert(rem[0] == tv[i as int]);
        }
        if is_chinese(c) {
            let ghost pdv = parts.deep_view();
            proof {
                assert(rem.drop_first() =~= tv.skip(i as int + 1));
                assert(pdv + (seq![encode_of(c)] + encode_parts(tv.skip(i as int + 1))) =~= (pdv
                    + seq![encode_of(c)]) + encode_parts(tv.skip(i as int + 1)));
            }
            let code = encrypt_char(&oracle, c);
            parts.push(code);
            proof {
                assert(parts.deep_view() =~= pdv + seq![encode_of(c)]);
            }
            i += 1;
        } else {
            let mut j: usize = i + 1;
            while j < n && !is_chinese(text.as_str().get_char(j))
                invariant
                    i < j <= n == tv.len(),
                    text@ == tv,
                    forall|t: int| i <= t < j ==> !is_chinese_char(#[trigger] tv[t]),
                decreases n - j,
            {
                j += 1;
            }
            let ghost seg_view = tv.subrange(i as int, j as int);
            let ghost pdv = parts.deep_view();
            proof {
                assert forall|t: int| 0 <= t < j - i implies !is_chinese_char(
                    #[trigger] rem[t],
                ) by {
                    assert(rem[t] == tv[i + t]);
                }
                if j < n {
                    assert(rem[j - i] == tv[j as int]);
                }
                lemma_non_han_len_exact(rem, j - i);
                assert(rem.take(j - i) =~= seg_view);
                assert(rem.skip(j - i) =~= tv.skip(j as int));
                assert(pdv + (seq![seg_view] + encode_parts(tv.skip(j as int))) =~= (pdv
                    + seq![seg_view]) + encode_parts(tv.skip(j as int)));
            }
            let seg = text.as_str().substring_char(i, j);
            parts.push(seg.to_owned());
            proof {
                assert(parts.deep_view() =~= pdv + seq![seg_view]);
            }
            i = j;
        }
    }
    proof {
        assert(encode_parts(tv.skip(n as int)) =~= Seq::<Seq<char>>::empty());
        assert(parts.deep_view() + Seq::<Seq<char>>::empty() =~= parts.deep_view());
    }
    let formatted = format_cipher(&parts, format);
    Ok((formatted, parts, text))
}

/// Decrypts a formatted cipher string: recovers the parts and decodes each
/// four-letter code, keeping codes the oracle does not recognise, and all
/// literals, verbatim. It never fails.
pub fn decrypt_text(cipher: &str) -> (r: Result<String, String>)
    ensures
        r matches Ok(s) && s@ == decrypt_parts(deformat_spec(cipher@)),
{
    let oracle = uniaz::UniAz::new();
    let parts = preprocess_cipher(cipher);
    let ghost pdv = parts.deep_view();
    let mut result = String::new();
    let mut idx: usize = 0;
    proof {
        assert(pdv.skip(0) =~= pdv);
        assert(result@ + decrypt_parts(pdv) =~= decrypt_parts(pdv));
    }
    while idx < parts.len()
        invariant
            0 <= idx <= parts.len(),
            pdv == parts.deep_view(),
            decrypt_parts(pdv) == result@ + decrypt_parts(pdv.skip(idx as int)),
        decreases parts.len() - idx,
    {
        let ghost rem = pdv.skip(idx as int);
        proof {
            assert(rem[0] == pdv[idx as int]);
            assert(rem.drop_first() =~= pdv.skip(idx as int + 1));
        }
        let part: &String = &parts[idx];
        let ghost rv = result@;
        if is_code(part.as_str()) {
            match decrypt_code(&oracle, part.as_str()) {
                Some(c) => {
                    proof {
                        assert(rv + (seq![c] + decrypt_parts(rem.drop_first())) =~= (rv
                            + seq![c]) + decrypt_parts(rem.drop_first()));
                    }
                    push_char(&mut result, c);
                    proof {
                        assert(result@ =~= rv + seq![c]);
                    }
                },
                None => {
                    proof {
                        assert(rv + (rem[0] + decrypt_parts(rem.drop_first())) =~= (rv + rem[0])
                            + decrypt_parts(rem.drop_first()));
                    }
                    result.append(part.as_str());
                },
            }
        } else {
            proof {
                assert(rv + (rem[0] + decrypt_parts(rem.drop_first())) =~= (rv + rem[0])
                    + decrypt_parts(rem.drop_first()));
            }
            result.append(part.as_str());
        }
        idx += 1;
    }
    proof {
        assert(decrypt_parts(pdv.skip(parts.len() as int)) =~= Seq::<char>::empty());
        assert(result@ + Seq::<char>::empty() =~= result@);
    }
    Ok(result)
}

} // verus!
