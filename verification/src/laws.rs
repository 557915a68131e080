//! The general laws of the formats, proved once and for all.

use vstd::prelude::*;

use crate::chars::{is_alpha, is_up, spec_to_lower};
use crate::model::{
    all_alpha, chunks4_low, classify_run, concat_parts, deformat_spec, format_from, format_spec,
    has_space, is_code_part, lemma_run_len_chars, lemma_run_len_concat, lemma_run_len_le,
    lower_all, no_alpha, run_len, FmtKind,
};

verus! {

/// Lowercasing never changes whether a character is a letter, and its
/// result is never uppercase; on anything but an uppercase letter it is the
/// identity, so it is idempotent.
pub proof fn lemma_lower_char(c: char)
    ensures
        is_alpha(spec_to_lower(c)) == is_alpha(c),
        !is_up(spec_to_lower(c)),
        !is_up(c) ==> spec_to_lower(c) == c,
        spec_to_lower(spec_to_lower(c)) == spec_to_lower(c),
{
}

/// Concatenation splits over an append of parts sequences.
pub proof fn lemma_concat_parts_app(a: Seq<Seq<char>>, b: Seq<Seq<char>>)
    ensures
        concat_parts(a + b) == concat_parts(a) + concat_parts(b),
    decreases a.len(),
{
    if a.len() == 0 {
        assert(a + b =~= b);
        assert(concat_parts(a) + concat_parts(b) =~= concat_parts(b));
    } else {
        lemma_concat_parts_app(a.drop_first(), b);
        assert((a + b).drop_first() =~= a.drop_first() + b);
        assert(a[0] + (concat_parts(a.drop_first()) + concat_parts(b)) =~= (a[0] + concat_parts(
            a.drop_first(),
        )) + concat_parts(b));
    }
}

/// One part alone concatenates to itself.
proof fn lemma_concat_singleton(p: Seq<char>)
    ensures
        concat_parts(seq![p]) == p,
{
    assert(seq![p].drop_first() =~= Seq::<Seq<char>>::empty());
    assert(concat_parts(seq![p]) == p + concat_parts(seq![p].drop_first()));
    assert(p + Seq::<char>::empty() =~= p);
}

/// Under the `space` and `4-letter` layouts every part passes through
/// untouched, whatever the word flag holds.
pub proof fn lemma_format_plain(parts: Seq<Seq<char>>, f: FmtKind, new_word: bool)
    requires
        f == FmtKind::Space || f == FmtKind::FourLetter,
    ensures
        format_from(parts, f, new_word) == concat_parts(parts),
    decreases parts.len(),
{
    if parts.len() > 0 {
        lemma_format_plain(parts.drop_first(), f, false);
        lemma_format_plain(
            parts.drop_first(),
            f,
            if has_space(parts[0]) {
                true
            } else {
                new_word
            },
        );
    }
}

/// The `4-letter` layout is the plain concatenation of the parts.
pub proof fn lemma_format_four_letter_is_concat(parts: Seq<Seq<char>>)
    ensures
        format_spec(parts, FmtKind::FourLetter) == concat_parts(parts),
{
    lemma_format_plain(parts, FmtKind::FourLetter, true);
}

/// The `space` layout inserts no separator and transforms nothing: it too
/// is the plain concatenation of the parts.
pub proof fn lemma_format_space_is_concat(parts: Seq<Seq<char>>)
    ensures
        format_spec(parts, FmtKind::Space) == concat_parts(parts),
{
    lemma_format_plain(parts, FmtKind::Space, true);
}

/// A sequence of length a positive multiple of four concatenates its
/// four-letter chunks back into its own lowercasing.
pub proof fn lemma_chunks4_concat(r: Seq<char>)
    requires
        r.len() % 4 == 0,
    ensures
        concat_parts(chunks4_low(r)) == lower_all(r),
    decreases r.len(),
{
    if r.len() == 0 {
        assert(concat_parts(chunks4_low(r)) =~= lower_all(r));
    } else {
        lemma_chunks4_concat(r.skip(4));
        assert(chunks4_low(r).drop_first() =~= chunks4_low(r.skip(4)));
        assert(lower_all(r.skip(4)) =~= lower_all(r).skip(4));
        assert(lower_all(r.take(4)) + lower_all(r).skip(4) =~= lower_all(r));
    }
}

/// Chunking ignores case: a lowercased sequence cuts into the same chunks.
pub proof fn lemma_chunks4_lower(r: Seq<char>)
    ensures
        chunks4_low(lower_all(r)) == chunks4_low(r),
    decreases r.len(),
{
    if r.len() >= 4 {
        lemma_chunks4_lower(r.skip(4));
        assert(lower_all(r).skip(4) =~= lower_all(r.skip(4)));
        assert forall|i: int| 0 <= i < 4 implies lower_all(lower_all(r).take(4))[i] == lower_all(
            r.take(4),
        )[i] by {
            lemma_lower_char(r[i]);
        }
        assert(lower_all(lower_all(r).take(4)) =~= lower_all(r.take(4)));
        assert(chunks4_low(lower_all(r)) =~= chunks4_low(r));
    } else {
        assert(lower_all(r).len() < 4);
    }
}

/// A maximal run that classifies as one literal, prepended to text of the
/// other class, comes back out as that one literal part.
pub proof fn lemma_deformat_prepend_literal_run(r: Seq<char>, t: Seq<char>, cls: bool)
    requires
        r.len() > 0,
        forall|i: int| 0 <= i < r.len() ==> is_alpha(#[trigger] r[i]) == cls,
        cls ==> r.len() % 4 != 0,
        t.len() > 0 ==> is_alpha(t[0]) != cls,
    ensures
        deformat_spec(r + t) == seq![r] + deformat_spec(t),
{
    let s = r + t;
    assert(s[0] == r[0]);
    lemma_run_len_concat(r, t, cls);
    assert(run_len(s, cls) == r.len());
    assert(s.take(r.len() as int) =~= r);
    assert(s.skip(r.len() as int) =~= t);
    if !cls {
        assert(!all_alpha(r)) by {
            assert(!is_alpha(r[0]));
        }
    }
    assert(classify_run(r) =~= seq![r]);
}

/// A maximal run of whole four-letter chunks, prepended to text that does
/// not extend it, comes back out as exactly those chunks, lowercased.
pub proof fn lemma_deformat_prepend_code_run(r: Seq<char>, t: Seq<char>)
    requires
        r.len() > 0,
        r.len() % 4 == 0,
        all_alpha(r),
        t.len() > 0 ==> !is_alpha(t[0]),
    ensures
        deformat_spec(r + t) == chunks4_low(r) + deformat_spec(t),
{
    let s = r + t;
    assert(s[0] == r[0]);
    assert(is_alpha(s[0]));
    lemma_run_len_concat(r, t, true);
    assert(run_len(s, true) == r.len());
    assert(s.take(r.len() as int) =~= r);
    assert(s.skip(r.len() as int) =~= t);
    assert(classify_run(r) == chunks4_low(r));
}

/// One code part, prepended to text whose leading run of letters holds
/// whole four-letter chunks, comes back out as itself.
pub proof fn lemma_deformat_prepend_code(c: Seq<char>, t: Seq<char>)
    requires
        is_code_part(c),
        t.len() > 0 && is_alpha(t[0]) ==> run_len(t, true) % 4 == 0,
    ensures
        deformat_spec(c + t) == seq![c] + deformat_spec(t),
{
    assert(all_alpha(c));
    assert forall|i: int| 0 <= i < 4 implies lower_all(c)[i] == c[i] by {
        lemma_lower_char(c[i]);
    }
    assert(lower_all(c) =~= c);
    if t.len() == 0 || !is_alpha(t[0]) {
        lemma_deformat_prepend_code_run(c, t);
        assert(chunks4_low(c.skip(4)) =~= Seq::<Seq<char>>::empty());
        assert(c.take(4) =~= c);
        assert(chunks4_low(c) =~= seq![c]);
    } else {
        let m = run_len(t, true) as int;
        assert(m >= 1);
        lemma_run_len_le(t, true);
        lemma_run_len_chars(t, true);
        let u = t.take(m);
        let s = c + t;
        assert(s[0] == c[0]);
        lemma_run_len_concat(c, t, true);
        assert(run_len(s, true) == 4 + m);
        assert(s.take(4 + m) =~= c + u);
        assert(s.skip(4 + m) =~= t.skip(m));
        assert(all_alpha(c + u)) by {
            assert forall|i: int| 0 <= i < 4 + m implies is_alpha(#[trigger] (c + u)[i]) by {
                if i >= 4 {
                    assert((c + u)[i] == t[i - 4]);
                }
            }
        }
        assert(classify_run(c + u) == chunks4_low(c + u));
        assert((c + u).take(4) =~= c);
        assert((c + u).skip(4) =~= u);
        assert(chunks4_low(c + u) == seq![c] + chunks4_low(u));
        // the leading run of t classifies as chunks on its own
        assert(deformat_spec(t) == classify_run(u) + deformat_spec(t.skip(m)));
        assert(all_alpha(u));
        assert(classify_run(u) == chunks4_low(u));
        assert(seq![c] + (chunks4_low(u) + deformat_spec(t.skip(m))) =~= (seq![c] + chunks4_low(
            u,
        )) + deformat_spec(t.skip(m)));
    }
}

/// The leading run of letters of the concatenation of well-shaped parts
/// holds whole four-letter chunks.
proof fn lemma_concat_front_run(parts: Seq<Seq<char>>)
    requires
        forall|i: int|
            0 <= i < parts.len() ==> is_code_part(#[trigger] parts[i]) || (parts[i].len() > 0
                && no_alpha(parts[i])),
        forall|i: int|
            0 <= i < parts.len() - 1 ==> is_code_part(#[trigger] parts[i]) || is_code_part(
                parts[i + 1],
            ),
    ensures
        concat_parts(parts).len() > 0 && is_alpha(concat_parts(parts)[0]) ==> run_len(
            concat_parts(parts),
            true,
        ) % 4 == 0,
    decreases parts.len(),
{
    if parts.len() == 0 {
    } else {
        let p0 = parts[0];
        let rest = parts.drop_first();
        let t = concat_parts(rest);
        assert(concat_parts(parts) == p0 + t);
        assert(forall|i: int|
            0 <= i < rest.len() ==> is_code_part(#[trigger] rest[i]) || (rest[i].len() > 0
                && no_alpha(rest[i])));
        assert forall|i: int|
            0 <= i < rest.len() - 1 implies is_code_part(#[trigger] rest[i]) || is_code_part(
            rest[i + 1],
        ) by {
            assert(rest[i] == parts[i + 1]);
            assert(rest[i + 1] == parts[i + 2]);
        }
        lemma_concat_front_run(rest);
        if is_code_part(p0) {
            assert(all_alpha(p0));
            lemma_run_len_concat(p0, t, true);
            if t.len() > 0 && is_alpha(t[0]) {
            } else {
                assert(run_len(t, true) == 0);
            }
        } else {
            assert(p0.len() > 0 && no_alpha(p0));
            assert((p0 + t)[0] == p0[0]);
            assert(!is_alpha((p0 + t)[0]));
        }
    }
}

/// THE SPACE ROUND TRIP. Rendering a parts sequence under the `space`
/// layout and segmenting the result recovers every part exactly, provided
/// each literal holds no letters, is non-empty, and stands between codes.
/// A literal holding letters may merge with a neighbouring code into one
/// ambiguous run; that ambiguity is inherent to the separator-free layouts.
pub proof fn lemma_space_round_trip(parts: Seq<Seq<char>>)
    requires
        forall|i: int|
            0 <= i < parts.len() ==> is_code_part(#[trigger] parts[i]) || (parts[i].len() > 0
                && no_alpha(parts[i])),
        forall|i: int|
            0 <= i < parts.len() - 1 ==> is_code_part(#[trigger] parts[i]) || is_code_part(
                parts[i + 1],
            ),
    ensures
        deformat_spec(format_spec(parts, FmtKind::Space)) == parts,
    decreases parts.len(),
{
    lemma_format_space_is_concat(parts);
    if parts.len() == 0 {
        assert(concat_parts(parts) =~= Seq::<char>::empty());
        assert(deformat_spec(concat_parts(parts)) =~= parts);
    } else {
        let p0 = parts[0];
        let rest = parts.drop_first();
        let t = concat_parts(rest);
        assert(concat_parts(parts) == p0 + t);
        assert(forall|i: int|
            0 <= i < rest.len() ==> is_code_part(#[trigger] rest[i]) || (rest[i].len() > 0
                && no_alpha(rest[i])));
        assert forall|i: int|
            0 <= i < rest.len() - 1 implies is_code_part(#[trigger] rest[i]) || is_code_part(
            rest[i + 1],
        ) by {
            assert(rest[i] == parts[i + 1]);
            assert(rest[i + 1] == parts[i + 2]);
        }
        lemma_space_round_trip(rest);
        lemma_format_space_is_concat(rest);
        if is_code_part(p0) {
            lemma_concat_front_run(rest);
            lemma_deformat_prepend_code(p0, t);
        } else {
            if rest.len() > 0 {
                assert(is_code_part(rest[0])) by {
                    assert(parts[0] == p0);
                    assert(rest[0] == parts[1]);
                }
                assert(t[0] == rest[0][0]) by {
                    assert(concat_parts(rest) == rest[0] + concat_parts(rest.drop_first()));
                }
                assert(is_alpha(t[0]));
            } else {
                assert(t =~= Seq::<char>::empty());
            }
            lemma_deformat_prepend_literal_run(p0, t, false);
        }
        assert(seq![p0] + rest =~= parts);
    }
}

/// Joining the recovered parts of a non-empty string yields a non-empty
/// string whose first character is a letter exactly when the original's is.
proof fn lemma_deformat_first_char(x: Seq<char>)
    requires
        x.len() > 0,
    ensures
        concat_parts(deformat_spec(x)).len() > 0,
        is_alpha(concat_parts(deformat_spec(x))[0]) == is_alpha(x[0]),
{
    let cls = is_alpha(x[0]);
    let k = run_len(x, cls) as int;
    lemma_run_len_le(x, cls);
    lemma_run_len_chars(x, cls);
    assert(k >= 1);
    let run = x.take(k);
    let rest = x.skip(k);
    assert(deformat_spec(x) == classify_run(run) + deformat_spec(rest));
    lemma_concat_parts_app(classify_run(run), deformat_spec(rest));
    assert(run[0] == x[0]);
    if run.len() % 4 == 0 && cls {
        assert(all_alpha(run));
        lemma_chunks4_concat(run);
        assert(concat_parts(classify_run(run)) == lower_all(run));
        assert(lower_all(run)[0] == spec_to_lower(run[0]));
        lemma_lower_char(run[0]);
        assert((lower_all(run) + concat_parts(deformat_spec(rest)))[0] == lower_all(run)[0]);
    } else {
        if !cls {
            assert(!all_alpha(run)) by {
                assert(!is_alpha(run[0]));
            }
        }
        assert(classify_run(run) =~= seq![run]);
        lemma_concat_singleton(run);
        assert(concat_parts(classify_run(run)) == run);
        assert((run + concat_parts(deformat_spec(rest)))[0] == run[0]);
    }
}

/// Segmenting, joining the parts back together and segmenting again gives
/// the same parts: segmentation only lowercases the code runs, and that
/// leaves every run boundary and every classification where it was.
proof fn lemma_deformat_canon(s: Seq<char>)
    ensures
        deformat_spec(concat_parts(deformat_spec(s))) == deformat_spec(s),
    decreases s.len(),
{
    if s.len() == 0 {
        assert(deformat_spec(s) =~= Seq::<Seq<char>>::empty());
        assert(concat_parts(deformat_spec(s)) =~= Seq::<char>::empty());
    } else {
        let cls = is_alpha(s[0]);
        let k = run_len(s, cls) as int;
        lemma_run_len_le(s, cls);
        lemma_run_len_chars(s, cls);
        assert(k >= 1);
        let run = s.take(k);
        let rest = s.skip(k);
        assert(deformat_spec(s) == classify_run(run) + deformat_spec(rest));
        lemma_deformat_canon(rest);
        let t = concat_parts(deformat_spec(rest));
        lemma_concat_parts_app(classify_run(run), deformat_spec(rest));
        if rest.len() > 0 {
            lemma_deformat_first_char(rest);
            assert(rest[0] == s[k]);
            assert(is_alpha(t[0]) != cls);
        } else {
            assert(deformat_spec(rest) =~= Seq::<Seq<char>>::empty());
            assert(t =~= Seq::<char>::empty());
        }
        assert forall|i: int| 0 <= i < k implies is_alpha(#[trigger] run[i]) == cls by {
            assert(run[i] == s[i]);
        }
        if run.len() % 4 == 0 && cls {
            assert(all_alpha(run));
            assert(classify_run(run) == chunks4_low(run));
            lemma_chunks4_concat(run);
            assert(concat_parts(deformat_spec(s)) == lower_all(run) + t);
            assert forall|i: int| 0 <= i < k implies is_alpha(#[trigger] lower_all(run)[i]) by {
                lemma_lower_char(run[i]);
            }
            assert(all_alpha(lower_all(run)));
            lemma_deformat_prepend_code_run(lower_all(run), t);
            lemma_chunks4_lower(run);
        } else {
            if !cls {
                assert(!all_alpha(run)) by {
                    assert(run[0] == s[0]);
                    assert(!is_alpha(run[0]));
                }
            }
            assert(classify_run(run) =~= seq![run]);
            lemma_concat_singleton(run);
            assert(concat_parts(classify_run(run)) == run);
            assert(concat_parts(deformat_spec(s)) == run + t);
            lemma_deformat_prepend_literal_run(run, t, cls);
        }
    }
}

/// THE IDEMPOTENCE LAW. Segmenting a string, rendering the parts under the
/// `space` layout and segmenting again recovers the same parts, for every
/// string.
pub proof fn lemma_deformat_idempotent(s: Seq<char>)
    ensures
        deformat_spec(format_spec(deformat_spec(s), FmtKind::Space)) == deformat_spec(s),
{
    lemma_format_space_is_concat(deformat_spec(s));
    lemma_deformat_canon(s);
}

} // verus!
