//! The laws of the tokenizer, proved over the model in `scan`: the spans of
//! the emitted tokens partition the non-whitespace text exactly, tokenizing is
//! deterministic, every digit and name run is maximal, and exhaustion, once
//! signalled, persists.

use vstd::prelude::*;

use crate::chars::is_digit_char;
use crate::chars::is_name_cont_char;
use crate::chars::is_ws_char;
use crate::chars::lemma_char_classes;
use crate::scan::at_end;
use crate::scan::digit_run_end;
use crate::scan::lemma_digit_run_end;
use crate::scan::lemma_name_run_end;
use crate::scan::lemma_skip_ws_idx;
use crate::scan::name_run_end;
use crate::scan::skip_ws_idx;
use crate::scan::spec_items;
use crate::scan::spec_tokens;
use crate::scan::token_end;
use crate::scan::token_model_at;
use crate::scan::ScannedToken;
use crate::scan::TokenModel;

verus! {

/// Position `k` of the text lies inside the span of some item of `its`.
pub open spec fn covered(its: Seq<ScannedToken>, k: int) -> bool {
    exists|n: int| 0 <= n < its.len() && (#[trigger] its[n]).start <= k <= its[n].end - 1
}

/// Coverage by a non-empty item sequence is coverage by its head's span or by
/// the rest.
proof fn lemma_covered_cons(it: ScannedToken, rest: Seq<ScannedToken>, k: int)
    ensures
        covered(seq![it] + rest, k) <==> ((it.start <= k < it.end) || covered(rest, k)),
{
    let its = seq![it] + rest;
    if covered(its, k) {
        let n = choose|n: int| 0 <= n < its.len() && (#[trigger] its[n]).start <= k <= its[n].end
            - 1;
        if n == 0 {
            assert(its[0] == it);
        } else {
            assert(its[n] == rest[n - 1]);
            assert(covered(rest, k));
        }
    }
    if it.start <= k < it.end {
        assert(its[0] == it);
        assert(covered(its, k));
    }
    if covered(rest, k) {
        let n = choose|n: int| 0 <= n < rest.len() && (#[trigger] rest[n]).start <= k <= rest[n].end
            - 1;
        assert(its[n + 1] == rest[n]);
        assert(covered(its, k));
    }
}

/// Completeness: the spans of the emitted tokens partition the text exactly.
/// Every span lies within the text, spans come in order without overlapping,
/// each token is the one its span's text produces, and a position is inside
/// some span if and only if it holds a non-whitespace character — so
/// concatenating the spans' text, re-inserting only whitespace in the gaps,
/// reconstructs the text.
pub proof fn lemma_token_partition(s: Seq<char>, i: int)
    requires
        0 <= i <= s.len(),
    ensures
        ({
            let its = spec_items(s, i);
            &&& forall|n: int|
                0 <= n < its.len() ==> i <= (#[trigger] its[n]).start < its[n].end <= s.len()
            &&& forall|n: int|
                0 <= n < its.len() - 1 ==> (#[trigger] its[n]).end <= its[n + 1].start
            &&& forall|n: int|
                0 <= n < its.len() ==> (#[trigger] its[n]).token == token_model_at(s, its[n].start)
                    && its[n].end == token_end(s, its[n].start)
            &&& forall|k: int|
                i <= k < s.len() ==> (is_ws_char(#[trigger] s[k]) <==> !covered(its, k))
        }),
    decreases s.len() - i,
{
    lemma_skip_ws_idx(s, i);
    let its = spec_items(s, i);
    let j = skip_ws_idx(s, i);
    if j >= s.len() {
        assert(its =~= Seq::<ScannedToken>::empty());
        assert forall|k: int| i <= k < s.len() implies (is_ws_char(#[trigger] s[k]) <==> !covered(
            its,
            k,
        )) by {
            assert(is_ws_char(s[k]));
            assert(!covered(its, k));
        }
    } else {
        let e = token_end(s, j);
        lemma_digit_run_end(s, j);
        lemma_name_run_end(s, j + 1);
        assert(i <= j < e <= s.len());
        let it = ScannedToken { start: j, end: e, token: token_model_at(s, j) };
        let rest = spec_items(s, e);
        assert(its == seq![it] + rest);
        lemma_token_partition(s, e);
        assert forall|n: int| 0 <= n < its.len() implies i <= (#[trigger] its[n]).start
            < its[n].end <= s.len() by {
            if n > 0 {
                assert(its[n] == rest[n - 1]);
            }
        }
        assert forall|n: int| 0 <= n < its.len() - 1 implies (#[trigger] its[n]).end <= its[n
            + 1].start by {
            if n == 0 {
                assert(its[1] == rest[0]);
                lemma_skip_ws_idx(s, e);
                assert(rest[0].start == skip_ws_idx(s, e));
            } else {
                assert(its[n] == rest[n - 1]);
                assert(its[n + 1] == rest[n]);
            }
        }
        assert forall|n: int| 0 <= n < its.len() implies (#[trigger] its[n]).token
            == token_model_at(s, its[n].start) && its[n].end == token_end(s, its[n].start) by {
            if n > 0 {
                assert(its[n] == rest[n - 1]);
            }
        }
        assert forall|k: int| i <= k < s.len() implies (is_ws_char(#[trigger] s[k]) <==> !covered(
            its,
            k,
        )) by {
            lemma_covered_cons(it, rest, k);
            lemma_char_classes(s[k]);
            if k < j {
                assert(is_ws_char(s[k]));
                assert(!(it.start <= k < it.end));
                if covered(rest, k) {
                    let n = choose|n: int|
                        0 <= n < rest.len() && (#[trigger] rest[n]).start <= k <= rest[n].end - 1;
                    assert(e <= rest[n].start);
                }
            } else if k < e {
                assert(covered(its, k));
                if is_digit_char(s[j]) {
                    assert(is_digit_char(s[k]));
                } else if k > j {
                    assert(is_name_cont_char(s[k]));
                }
                assert(!is_ws_char(s[k]));
            } else {
                assert((it.start <= k < it.end) == false);
            }
        }
    }
}

/// Determinism: any two token sequences that both satisfy the tokenizer's
/// contract for the same text are equal; scanning a text twice with fresh
/// lexers cannot differ.
pub proof fn lemma_determinism(a: Seq<TokenModel>, b: Seq<TokenModel>, s: Seq<char>)
    requires
        a == spec_tokens(s),
        b == spec_tokens(s),
    ensures
        a == b,
{
}

/// Maximal munch: no emitted `Integer` token is immediately followed by a
/// digit, and no emitted `Name` token is immediately followed by a letter,
/// digit or underscore — every run extends as far as it can.
pub proof fn lemma_maximal_munch(s: Seq<char>, i: int, n: int)
    requires
        0 <= i <= s.len(),
        0 <= n < spec_items(s, i).len(),
    ensures
        ({
            let it = spec_items(s, i)[n];
            &&& (it.token matches TokenModel::Integer(_) && it.end < s.len() ==> !is_digit_char(
                s[it.end],
            ))
            &&& (it.token matches TokenModel::Name(_) && it.end < s.len() ==> !is_name_cont_char(
                s[it.end],
            ))
        }),
    decreases s.len() - i,
{
    lemma_skip_ws_idx(s, i);
    let j = skip_ws_idx(s, i);
    let e = token_end(s, j);
    lemma_digit_run_end(s, j);
    lemma_name_run_end(s, j + 1);
    let its = spec_items(s, i);
    let rest = spec_items(s, e);
    if n == 0 {
        assert(its[0] == ScannedToken { start: j, end: e, token: token_model_at(s, j) });
    } else {
        lemma_maximal_munch(s, e, n - 1);
        assert(its[n] == rest[n - 1]);
    }
}

/// The text `s` with the characters of `w` inserted before position `p`.
pub open spec fn insert_at(s: Seq<char>, p: int, w: Seq<char>) -> Seq<char> {
    s.take(p) + w + s.skip(p)
}

/// Every character of `w` is whitespace.
pub open spec fn all_ws(w: Seq<char>) -> bool {
    forall|k: int| 0 <= k < w.len() ==> is_ws_char(#[trigger] w[k])
}

/// Position `p` does not fall strictly inside any token span of `s` scanned
/// from `i`: it lies between tokens, inside whitespace, or at a token's edge.
pub open spec fn between_tokens(s: Seq<char>, i: int, p: int) -> bool {
    forall|n: int|
        0 <= n < spec_items(s, i).len() ==> !((#[trigger] spec_items(s, i)[n]).start < p
            < spec_items(s, i)[n].end)
}

/// Whitespace skipping from `i` and from `m` agree when only whitespace
/// stands between them.
proof fn lemma_skip_ws_bridge(s: Seq<char>, i: int, m: int)
    requires
        0 <= i <= m <= s.len(),
        forall|k: int| i <= k < m ==> is_ws_char(#[trigger] s[k]),
    ensures
        skip_ws_idx(s, i) == skip_ws_idx(s, m),
    decreases m - i,
{
    if i < m {
        lemma_skip_ws_bridge(s, i + 1, m);
    }
}

/// Past the insertion point, whitespace skipping shifts by the length of the
/// inserted run.
proof fn lemma_shift_skip(s: Seq<char>, p: int, w: Seq<char>, i: int)
    requires
        0 <= p <= i <= s.len(),
    ensures
        skip_ws_idx(insert_at(s, p, w), i + w.len()) == skip_ws_idx(s, i) + w.len(),
    decreases s.len() - i,
{
    let t = insert_at(s, p, w);
    let d = w.len() as int;
    if i < s.len() {
        assert(t[i + d] == s[i]);
        if is_ws_char(s[i]) {
            lemma_shift_skip(s, p, w, i + 1);
        }
    }
}

/// Past the insertion point, the end of a digit run shifts by the length of
/// the inserted run.
proof fn lemma_shift_digit_run(s: Seq<char>, p: int, w: Seq<char>, i: int)
    requires
        0 <= p <= i <= s.len(),
    ensures
        digit_run_end(insert_at(s, p, w), i + w.len()) == digit_run_end(s, i) + w.len(),
    decreases s.len() - i,
{
    let t = insert_at(s, p, w);
    let d = w.len() as int;
    if i < s.len() {
        assert(t[i + d] == s[i]);
        if is_digit_char(s[i]) {
            lemma_shift_digit_run(s, p, w, i + 1);
        }
    }
}

/// Past the insertion point, the end of a name run shifts by the length of
/// the inserted run.
proof fn lemma_shift_name_run(s: Seq<char>, p: int, w: Seq<char>, i: int)
    requires
        0 <= p <= i <= s.len(),
    ensures
        name_run_end(insert_at(s, p, w), i + w.len()) == name_run_end(s, i) + w.len(),
    decreases s.len() - i,
{
    let t = insert_at(s, p, w);
    let d = w.len() as int;
    if i < s.len() {
        assert(t[i + d] == s[i]);
        if is_name_cont_char(s[i]) {
            lemma_shift_name_run(s, p, w, i + 1);
        }
    }
}

/// Past the insertion point, digit accumulation reads the same digits.
proof fn lemma_shift_run_value(s: Seq<char>, p: int, w: Seq<char>, i: int, e: int, acc: u64)
    requires
        0 <= p <= i,
        e <= s.len(),
    ensures
        crate::scan::run_value(insert_at(s, p, w), i + w.len(), e + w.len(), acc)
            == crate::scan::run_value(s, i, e, acc),
    decreases e - i,
{
    let t = insert_at(s, p, w);
    let d = w.len() as int;
    if i < e {
        assert(t[i + d] == s[i]);
        lemma_shift_run_value(s, p, w, i + 1, e, crate::scan::wrap10(acc, s[i]));
    }
}

/// Past the insertion point, a span reads the same text.
proof fn lemma_shift_subrange(s: Seq<char>, p: int, w: Seq<char>, a: int, b: int)
    requires
        0 <= p <= a <= b <= s.len(),
    ensures
        insert_at(s, p, w).subrange(a + w.len(), b + w.len()) == s.subrange(a, b),
{
    let t = insert_at(s, p, w);
    let d = w.len() as int;
    assert forall|k: int| 0 <= k < b - a implies t.subrange(a + d, b + d)[k] == s.subrange(
        a,
        b,
    )[k] by {
        assert(t[a + d + k] == s[a + k]);
    }
    assert(t.subrange(a + d, b + d) =~= s.subrange(a, b));
}

/// Past the insertion point, the whole token sequence is unchanged: every
/// span shifts by the length of the inserted run, and the tokens it produces
/// read the same characters.
proof fn lemma_shift_tokens(s: Seq<char>, p: int, w: Seq<char>, i: int)
    requires
        0 <= p <= i <= s.len(),
    ensures
        crate::scan::spec_tokens_from(insert_at(s, p, w), i + w.len())
            == crate::scan::spec_tokens_from(s, i),
    decreases s.len() - i,
{
    let t = insert_at(s, p, w);
    let d = w.len() as int;
    lemma_skip_ws_idx(s, i);
    lemma_shift_skip(s, p, w, i);
    let j = skip_ws_idx(s, i);
    if j >= s.len() {
        assert(spec_items(s, i) =~= Seq::<ScannedToken>::empty());
        assert(spec_items(t, i + d) =~= Seq::<ScannedToken>::empty());
        assert(crate::scan::spec_tokens_from(t, i + d) =~= crate::scan::spec_tokens_from(s, i));
    } else {
        assert(t[j + d] == s[j]);
        lemma_digit_run_end(s, j);
        lemma_name_run_end(s, j + 1);
        let e = token_end(s, j);
        lemma_shift_digit_run(s, p, w, j);
        lemma_shift_name_run(s, p, w, j + 1);
        assert(token_end(t, j + d) == e + d);
        if is_digit_char(s[j]) {
            lemma_shift_run_value(s, p, w, j, digit_run_end(s, j), 0);
        } else if crate::chars::is_name_start_char(s[j]) {
            lemma_shift_subrange(s, p, w, j, name_run_end(s, j + 1));
        }
        assert(token_model_at(t, j + d) == token_model_at(s, j));
        lemma_shift_tokens(s, p, w, e);
        crate::scan::lemma_tokens_from_step(s, i);
        crate::scan::lemma_tokens_from_step(t, i + d);
    }
}

/// Before the insertion point, whitespace skipping is unchanged when it stops
/// before that point.
proof fn lemma_prefix_skip(s: Seq<char>, p: int, w: Seq<char>, i: int)
    requires
        0 <= i <= p <= s.len(),
        skip_ws_idx(s, i) < p,
    ensures
        skip_ws_idx(insert_at(s, p, w), i) == skip_ws_idx(s, i),
    decreases p - i,
{
    let t = insert_at(s, p, w);
    lemma_skip_ws_idx(s, i);
    assert(t[i] == s[i]);
    if is_ws_char(s[i]) {
        lemma_prefix_skip(s, p, w, i + 1);
    }
}

/// A digit run that ends at or before the insertion point is unchanged: the
/// inserted run begins with whitespace, which cannot extend it.
proof fn lemma_prefix_digit_run(s: Seq<char>, p: int, w: Seq<char>, j: int)
    requires
        0 <= j <= p <= s.len(),
        w.len() > 0,
        is_ws_char(w[0]),
        digit_run_end(s, j) <= p,
    ensures
        digit_run_end(insert_at(s, p, w), j) == digit_run_end(s, j),
    decreases p - j,
{
    let t = insert_at(s, p, w);
    if j < s.len() && is_digit_char(s[j]) {
        lemma_digit_run_end(s, j + 1);
        assert(t[j] == s[j]);
        lemma_prefix_digit_run(s, p, w, j + 1);
    } else {
        if j < p {
            assert(t[j] == s[j]);
        } else {
            assert(t[j] == w[0]);
            lemma_char_classes(w[0]);
        }
    }
}

/// A name run that ends at or before the insertion point is unchanged, for
/// the same reason.
proof fn lemma_prefix_name_run(s: Seq<char>, p: int, w: Seq<char>, j: int)
    requires
        0 <= j <= p <= s.len(),
        w.len() > 0,
        is_ws_char(w[0]),
        name_run_end(s, j) <= p,
    ensures
        name_run_end(insert_at(s, p, w), j) == name_run_end(s, j),
    decreases p - j,
{
    let t = insert_at(s, p, w);
    if j < s.len() && is_name_cont_char(s[j]) {
        lemma_name_run_end(s, j + 1);
        assert(t[j] == s[j]);
        lemma_prefix_name_run(s, p, w, j + 1);
    } else {
        if j < p {
            assert(t[j] == s[j]);
        } else {
            assert(t[j] == w[0]);
            lemma_char_classes(w[0]);
        }
    }
}

/// Before the insertion point, digit accumulation reads the same digits.
proof fn lemma_prefix_run_value(s: Seq<char>, p: int, w: Seq<char>, i: int, e: int, acc: u64)
    requires
        0 <= i,
        e <= p <= s.len(),
    ensures
        crate::scan::run_value(insert_at(s, p, w), i, e, acc) == crate::scan::run_value(
            s,
            i,
            e,
            acc,
        ),
    decreases e - i,
{
    let t = insert_at(s, p, w);
    if i < e {
        assert(t[i] == s[i]);
        lemma_prefix_run_value(s, p, w, i + 1, e, crate::scan::wrap10(acc, s[i]));
    }
}

/// Before the insertion point, a span reads the same text.
proof fn lemma_prefix_subrange(s: Seq<char>, p: int, w: Seq<char>, a: int, b: int)
    requires
        0 <= a <= b <= p <= s.len(),
    ensures
        insert_at(s, p, w).subrange(a, b) == s.subrange(a, b),
{
    let t = insert_at(s, p, w);
    assert forall|k: int| 0 <= k < b - a implies t.subrange(a, b)[k] == s.subrange(a, b)[k] by {
        assert(t[a + k] == s[a + k]);
    }
    assert(t.subrange(a, b) =~= s.subrange(a, b));
}

/// Inserting a whitespace run at a position between tokens leaves the token
/// sequence of the rest of the scan unchanged.
proof fn lemma_insert_tokens(s: Seq<char>, p: int, w: Seq<char>, i: int)
    requires
        0 <= i <= p <= s.len(),
        all_ws(w),
        between_tokens(s, i, p),
    ensures
        crate::scan::spec_tokens_from(insert_at(s, p, w), i) == crate::scan::spec_tokens_from(
            s,
            i,
        ),
    decreases s.len() - i,
{
    let t = insert_at(s, p, w);
    let d = w.len() as int;
    if d == 0 {
        assert(t =~= s);
    } else {
        lemma_skip_ws_idx(s, i);
        let j = skip_ws_idx(s, i);
        if j >= s.len() {
            assert forall|k: int| i <= k < t.len() implies is_ws_char(t[k]) by {
                if k < p {
                    assert(t[k] == s[k]);
                } else if k < p + d {
                    assert(t[k] == w[k - p]);
                } else {
                    assert(t[k] == s[k - d]);
                }
            }
            lemma_skip_ws_bridge(t, i, t.len() as int);
            assert(spec_items(s, i) =~= Seq::<ScannedToken>::empty());
            assert(spec_items(t, i) =~= Seq::<ScannedToken>::empty());
            assert(crate::scan::spec_tokens_from(t, i) =~= crate::scan::spec_tokens_from(s, i));
        } else if j >= p {
            assert forall|k: int| i <= k < p + d implies is_ws_char(t[k]) by {
                if k < p {
                    assert(t[k] == s[k]);
                } else {
                    assert(t[k] == w[k - p]);
                }
            }
            lemma_skip_ws_bridge(t, i, p + d);
            lemma_shift_skip(s, p, w, p);
            lemma_skip_ws_bridge(s, p, j);
            assert(skip_ws_idx(t, i) == j + d);
            assert(t[j + d] == s[j]);
            assert(spec_items(t, i) == spec_items(t, j + d));
            assert(spec_items(s, i) == spec_items(s, j));
            lemma_shift_tokens(s, p, w, j);
        } else {
            let e = token_end(s, j);
            lemma_digit_run_end(s, j);
            lemma_name_run_end(s, j + 1);
            let its = spec_items(s, i);
            let it = ScannedToken { start: j, end: e, token: token_model_at(s, j) };
            let rest = spec_items(s, e);
            assert(its == seq![it] + rest);
            assert(its[0] == it);
            assert(!(its[0].start < p < its[0].end));
            assert(e <= p);
            lemma_prefix_skip(s, p, w, i);
            assert(t[j] == s[j]);
            if is_digit_char(s[j]) {
                lemma_prefix_digit_run(s, p, w, j);
                lemma_prefix_run_value(s, p, w, j, e, 0);
            } else if crate::chars::is_name_start_char(s[j]) {
                lemma_prefix_name_run(s, p, w, j + 1);
                lemma_prefix_subrange(s, p, w, j, e);
            }
            assert(token_end(t, j) == e);
            assert(token_model_at(t, j) == token_model_at(s, j));
            assert forall|n: int| 0 <= n < rest.len() implies !((#[trigger] rest[n]).start < p
                < rest[n].end) by {
                assert(rest[n] == its[n + 1]);
            }
            lemma_insert_tokens(s, p, w, e);
            crate::scan::lemma_tokens_from_step(s, i);
            crate::scan::lemma_tokens_from_step(t, i);
        }
    }
}

/// Whitespace transparency: inserting a run of whitespace at any position
/// that is not strictly inside a token leaves the emitted token sequence
/// unchanged — and, read the other way, removing such a run does too.
/// Positions strictly inside a digit or name run are excluded: splitting a
/// run there would change the tokens, which is the adjacency caveat the
/// scenario tests cover.
pub proof fn lemma_ws_transparency(s: Seq<char>, p: int, w: Seq<char>)
    requires
        0 <= p <= s.len(),
        all_ws(w),
        between_tokens(s, 0, p),
    ensures
        spec_tokens(insert_at(s, p, w)) == spec_tokens(s),
{
    lemma_insert_tokens(s, p, w, 0);
}

/// Idempotent exhaustion: `next_token` leaves the cursor at the end of the
/// text when it signals exhaustion, and at that cursor the scanner is
/// exhausted for good — every further call signals exhaustion again.
pub proof fn lemma_idempotent_exhaustion(s: Seq<char>)
    ensures
        at_end(s, s.len() as int),
        spec_items(s, s.len() as int) == Seq::<ScannedToken>::empty(),
{
    assert(spec_items(s, s.len() as int) =~= Seq::<ScannedToken>::empty());
}

} // verus!
