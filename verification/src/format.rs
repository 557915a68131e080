//! Rendering a parts sequence into one display string.

use vstd::prelude::*;
use vstd::string::{StrSliceExecFns, StringExecFns};

use crate::chars::{char_is_low, char_is_space, is_low, is_space, push_char, to_upper_char};
use crate::model::{
    cap_first, fmt_of, format_from, format_spec, has_space, is_code_part, render_code, FmtKind,
};

verus! {

/// Whether two string slices hold the same characters.
fn str_eq(a: &str, b: &str) -> (r: bool)
    ensures
        r == (a@ == b@),
{
    let sa: String = a.to_owned();
    let sb: String = b.to_owned();
    sa == sb
}

/// The layout named by a selector string; anything unrecognised degrades to
/// the raw concatenation.
pub fn parse_format(format: &str) -> (f: FmtKind)
    ensures
        f == fmt_of(format@),
{
    if str_eq(format, "space") {
        FmtKind::Space
    } else if str_eq(format, "first-upper") {
        FmtKind::FirstUpper
    } else if str_eq(format, "pascal") {
        FmtKind::Pascal
    } else if str_eq(format, "camel") {
        FmtKind::Camel
    } else {
        FmtKind::FourLetter
    }
}

/// Whether a part is a code: exactly four ASCII lowercase letters.
pub fn is_code(s: &str) -> (b: bool)
    ensures
        b == is_code_part(s@),
{
    let n = s.unicode_len();
    if n != 4 {
        return false;
    }
    let mut i: usize = 0;
    while i < 4
        invariant
            s@.len() == 4,
            0 <= i <= 4,
            forall|t: int| 0 <= t < i ==> is_low(#[trigger] s@[t]),
        decreases 4 - i,
    {
        if !char_is_low(s.get_char(i)) {
            return false;
        }
        i += 1;
    }
    true
}

/// Whether the string holds any whitespace character.
fn contains_space(s: &str) -> (b: bool)
    ensures
        b == has_space(s@),
{
    let n = s.unicode_len();
    let mut i: usize = 0;
    while i < n
        invariant
            0 <= i <= n == s@.len(),
            forall|t: int| 0 <= t < i ==> !is_space(#[trigger] s@[t]),
        decreases n - i,
    {
        if char_is_space(s.get_char(i)) {
            return true;
        }
        i += 1;
    }
    false
}

/// The string with its first character uppercased (ASCII only) and the rest
/// untouched.
pub fn capitalize_first(s: &str) -> (r: String)
    ensures
        r@ == cap_first(s@),
{
    let n = s.unicode_len();
    if n == 0 {
        let r = String::new();
        proof {
            assert(r@ =~= cap_first(s@));
        }
        return r;
    }
    let c = s.get_char(0);
    let mut r = String::new();
    push_char(&mut r, to_upper_char(c));
    let rest = s.substring_char(1, n);
    r.append(rest);
    proof {
        assert(r@ =~= cap_first(s@));
    }
    r
}

/// Joins the cipher parts into one string under the given layout.
///
/// Codes are case-transformed as the layout asks; literals pass through
/// untouched, and a literal holding whitespace opens a new word for the
/// `first-upper` and `camel` layouts. No separator is ever inserted.
pub fn format_cipher(parts: &Vec<String>, format: &str) -> (r: String)
    ensures
        r@ == format_spec(parts.deep_view(), fmt_of(format@)),
{
    let f = parse_format(format);
    let ghost ps = parts.deep_view();
    let ghost fs = fmt_of(format@);
    let mut result = String::new();
    let mut is_new_word = true;
    let mut idx: usize = 0;
    proof {
        assert(ps.skip(0) =~= ps);
        assert(Seq::<char>::empty() + format_from(ps, fs, true) =~= format_from(ps, fs, true));
    }
    while idx < parts.len()
        invariant
            0 <= idx <= parts.len(),
            ps == parts.deep_view(),
            f == fs,
            format_spec(ps, fs) == result@ + format_from(ps.skip(idx as int), fs, is_new_word),
        decreases parts.len() - idx,
    {
        let ghost rem = ps.skip(idx as int);
        proof {
            assert(rem[0] == ps[idx as int]);
            assert(rem.drop_first() =~= ps.skip(idx as int + 1));
        }
        let part: &String = &parts[idx];
        if is_code(part.as_str()) {
            let rendered: String = match f {
                FmtKind::FirstUpper => if is_new_word {
                    capitalize_first(part.as_str())
                } else {
                    part.clone()
                },
                FmtKind::Pascal => capitalize_first(part.as_str()),
                FmtKind::Camel => if !is_new_word {
                    capitalize_first(part.as_str())
                } else {
                    part.clone()
                },
                _ => part.clone(),
            };
            proof {
                assert(rendered@ == render_code(rem[0], fs, is_new_word));
                assert(result@ + format_from(rem, fs, is_new_word) == (result@ + rendered@)
                    + format_from(rem.drop_first(), fs, false)) by {
                    assert(result@ + (rendered@ + format_from(rem.drop_first(), fs, false)) =~= (
                    result@ + rendered@) + format_from(rem.drop_first(), fs, false));
                }
            }
            result.append(rendered.as_str());
            is_new_word = false;
        } else {
            proof {
                assert(result@ + format_from(rem, fs, is_new_word) == (result@ + rem[0])
                    + format_from(
                    rem.drop_first(),
                    fs,
                    if has_space(rem[0]) {
                        true
                    } else {
                        is_new_word
                    },
                )) by {
                    let nw = if has_space(rem[0]) {
                        true
                    } else {
                        is_new_word
                    };
                    assert(result@ + (rem[0] + format_from(rem.drop_first(), fs, nw)) =~= (result@
                        + rem[0]) + format_from(rem.drop_first(), fs, nw));
                }
            }
            result.append(part.as_str());
            if contains_space(part.as_str()) {
                is_new_word = true;
            }
        }
        idx += 1;
    }
    proof {
        assert(ps.skip(parts.len() as int) =~= Seq::<Seq<char>>::empty());
        assert(result@ + Seq::<char>::empty() =~= result@);
    }
    result
}

} // verus!
