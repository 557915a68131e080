//! Mathematical model of the cipher formats.
//!
//! A parts sequence is modelled as a `Seq<Seq<char>>`; a part whose shape is
//! exactly four ASCII lowercase letters is a code, everything else is a
//! literal. `format_from` renders such a sequence under one of the five
//! layouts, and `deformat_spec` segments an arbitrary string back into parts.

use vstd::prelude::*;

use crate::chars::{is_alpha, is_low, is_space, is_up, spec_to_lower, spec_to_upper};

verus! {

/// The five output layouts. Any unrecognised selector degrades to
/// `FourLetter`, the raw concatenation.
pub enum FmtKind {
    Space,
    FourLetter,
    FirstUpper,
    Pascal,
    Camel,
}

/// The layout a selector string names.
pub open spec fn fmt_of(s: Seq<char>) -> FmtKind {
    if s == "space"@ {
        FmtKind::Space
    } else if s == "first-upper"@ {
        FmtKind::FirstUpper
    } else if s == "pascal"@ {
        FmtKind::Pascal
    } else if s == "camel"@ {
        FmtKind::Camel
    } else {
        FmtKind::FourLetter
    }
}

/// A code part: exactly four ASCII lowercase letters.
pub open spec fn is_code_part(p: Seq<char>) -> bool {
    p.len() == 4 && forall|i: int| 0 <= i < 4 ==> is_low(#[trigger] p[i])
}

/// Whether a part contains any whitespace character.
pub open spec fn has_space(p: Seq<char>) -> bool {
    exists|i: int| 0 <= i < p.len() && is_space(#[trigger] p[i])
}

/// Every character of the sequence is an ASCII letter.
pub open spec fn all_alpha(p: Seq<char>) -> bool {
    forall|i: int| 0 <= i < p.len() ==> is_alpha(#[trigger] p[i])
}

/// No character of the sequence is an ASCII letter.
pub open spec fn no_alpha(p: Seq<char>) -> bool {
    forall|i: int| 0 <= i < p.len() ==> !is_alpha(#[trigger] p[i])
}

/// The first character uppercased, the rest untouched.
pub open spec fn cap_first(p: Seq<char>) -> Seq<char> {
    Seq::new(p.len(), |i: int| if i == 0 { spec_to_upper(p[i]) } else { p[i] })
}

/// Every character lowercased.
pub open spec fn lower_all(p: Seq<char>) -> Seq<char> {
    Seq::new(p.len(), |i: int| spec_to_lower(p[i]))
}

/// How one code part is rendered under a layout, given whether a new word
/// starts here.
pub open spec fn render_code(p: Seq<char>, f: FmtKind, new_word: bool) -> Seq<char> {
    match f {
        FmtKind::Pascal => cap_first(p),
        FmtKind::FirstUpper => if new_word {
            cap_first(p)
        } else {
            p
        },
        FmtKind::Camel => if new_word {
            p
        } else {
            cap_first(p)
        },
        _ => p,
    }
}

/// The rendering of a parts sequence, carrying the word-boundary flag: a
/// literal containing whitespace starts a new word, a code ends one.
pub open spec fn format_from(parts: Seq<Seq<char>>, f: FmtKind, new_word: bool) -> Seq<char>
    decreases parts.len(),
{
    if parts.len() == 0 {
        Seq::empty()
    } else if is_code_part(parts[0]) {
        render_code(parts[0], f, new_word) + format_from(parts.drop_first(), f, false)
    } else {
        parts[0] + format_from(
            parts.drop_first(),
            f,
            if has_space(parts[0]) {
                true
            } else {
                new_word
            },
        )
    }
}

/// The rendering of a parts sequence under a layout. The flag starts true:
/// the first code opens a word.
pub open spec fn format_spec(parts: Seq<Seq<char>>, f: FmtKind) -> Seq<char> {
    format_from(parts, f, true)
}

/// All parts joined with nothing between them.
pub open spec fn concat_parts(parts: Seq<Seq<char>>) -> Seq<char>
    decreases parts.len(),
{
    if parts.len() == 0 {
        Seq::empty()
    } else {
        parts[0] + concat_parts(parts.drop_first())
    }
}

/// The length of the maximal prefix whose characters are all letters (if
/// `cls` is true) or all non-letters (if `cls` is false).
pub open spec fn run_len(s: Seq<char>, cls: bool) -> nat
    decreases s.len(),
{
    if s.len() == 0 || is_alpha(s[0]) != cls {
        0
    } else {
        1 + run_len(s.drop_first(), cls)
    }
}

/// A purely alphabetic sequence of length `4 * k` cut into its `k`
/// four-letter chunks, each lowercased. A trailing remainder shorter than
/// four characters is never produced; the sequence is only chunked whole.
pub open spec fn chunks4_low(s: Seq<char>) -> Seq<Seq<char>>
    decreases s.len(),
{
    if s.len() < 4 {
        Seq::empty()
    } else {
        seq![lower_all(s.take(4))] + chunks4_low(s.skip(4))
    }
}

/// A window of four letters in the pascal shape: one uppercase letter
/// followed by three lowercase ones.
pub open spec fn has_pascal(s: Seq<char>) -> bool {
    exists|t: int|
        0 <= t && t + 4 <= s.len() && is_up(#[trigger] s[t]) && is_low(s[t + 1]) && is_low(
            s[t + 2],
        ) && is_low(s[t + 3])
}

/// What one maximal run becomes: a purely alphabetic run whose length is a
/// positive multiple of four is cut into lowercase codes, anything else is
/// one literal. The pascal-window heuristic admits further runs to the
/// chunking attempt, but their trailing remainder always makes the attempt
/// fail, so it never changes this outcome.
pub open spec fn classify_run(r: Seq<char>) -> Seq<Seq<char>> {
    if r.len() > 0 && r.len() % 4 == 0 && all_alpha(r) {
        chunks4_low(r)
    } else {
        seq![r]
    }
}

/// The parts recovered from an arbitrary formatted string: the string is
/// split into maximal runs of letters and non-letters, and each run is
/// classified on its own.
pub open spec fn deformat_spec(s: Seq<char>) -> Seq<Seq<char>>
    decreases s.len(),
    via deformat_spec_decreases
{
    if s.len() == 0 {
        Seq::empty()
    } else {
        let k = run_len(s, is_alpha(s[0])) as int;
        classify_run(s.take(k)) + deformat_spec(s.skip(k))
    }
}

#[via_fn]
proof fn deformat_spec_decreases(s: Seq<char>) {
    if s.len() > 0 {
        lemma_run_len_le(s, is_alpha(s[0]));
        assert(run_len(s, is_alpha(s[0])) >= 1) by {
            assert(is_alpha(s[0]) == is_alpha(s[0]));
        }
    }
}

/// A run never reaches past the end of the sequence.
pub proof fn lemma_run_len_le(s: Seq<char>, cls: bool)
    ensures
        run_len(s, cls) <= s.len(),
    decreases s.len(),
{
    if s.len() > 0 && is_alpha(s[0]) == cls {
        lemma_run_len_le(s.drop_first(), cls);
    }
}

/// The characters of a run all have the run's class, and the run is maximal.
pub proof fn lemma_run_len_chars(s: Seq<char>, cls: bool)
    ensures
        forall|i: int| 0 <= i < run_len(s, cls) ==> is_alpha(#[trigger] s[i]) == cls,
        run_len(s, cls) < s.len() ==> is_alpha(s[run_len(s, cls) as int]) != cls,
    decreases s.len(),
{
    lemma_run_len_le(s, cls);
    if s.len() > 0 && is_alpha(s[0]) == cls {
        lemma_run_len_chars(s.drop_first(), cls);
        assert forall|i: int| 0 <= i < run_len(s, cls) implies is_alpha(#[trigger] s[i])
            == cls by {
            if i > 0 {
                assert(s.drop_first()[i - 1] == s[i]);
            }
        }
        if run_len(s, cls) < s.len() {
            assert(s.drop_first()[run_len(s, cls) as int - 1] == s[run_len(s, cls) as int]);
        }
    }
}

/// A run of known class and extent: if the characters up to `k` all have
/// class `cls` and the run cannot be extended, the run length is exactly `k`.
pub proof fn lemma_run_len_exact(s: Seq<char>, cls: bool, k: int)
    requires
        0 <= k <= s.len(),
        forall|i: int| 0 <= i < k ==> is_alpha(#[trigger] s[i]) == cls,
        k == s.len() || is_alpha(s[k]) != cls,
    ensures
        run_len(s, cls) == k,
    decreases s.len(),
{
    if k == 0 {
    } else {
        lemma_run_len_exact(s.drop_first(), cls, k - 1);
    }
}

/// Prepending a block that is wholly of one class extends the run over it.
pub proof fn lemma_run_len_concat(a: Seq<char>, b: Seq<char>, cls: bool)
    requires
        forall|i: int| 0 <= i < a.len() ==> is_alpha(#[trigger] a[i]) == cls,
    ensures
        run_len(a + b, cls) == a.len() + run_len(b, cls),
    decreases a.len(),
{
    if a.len() == 0 {
        assert(a + b =~= b);
    } else {
        lemma_run_len_concat(a.drop_first(), b, cls);
        assert((a + b).drop_first() =~= a.drop_first() + b);
    }
}

} // verus!
