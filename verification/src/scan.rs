//! The mathematical model of the scanner: where a token starts and ends in a
//! character sequence, what value it carries, and the full sequence of tokens
//! that a text denotes.

use vstd::prelude::*;

use crate::chars::digit_value;
use crate::chars::is_digit_char;
use crate::chars::is_name_cont_char;
use crate::chars::is_name_start_char;
use crate::chars::is_ws_char;

verus! {

/// The index of the first non-whitespace character at or after `i`, or
/// `s.len()` if whitespace runs to the end.
pub open spec fn skip_ws_idx(s: Seq<char>, i: int) -> int
    decreases s.len() - i,
{
    if i < s.len() && is_ws_char(s[i]) {
        skip_ws_idx(s, i + 1)
    } else {
        i
    }
}

/// The index just past the maximal run of decimal digits starting at `i`.
pub open spec fn digit_run_end(s: Seq<char>, i: int) -> int
    decreases s.len() - i,
{
    if 0 <= i < s.len() && is_digit_char(s[i]) {
        digit_run_end(s, i + 1)
    } else {
        i
    }
}

/// The index just past the maximal run of name-continuation characters
/// starting at `i`.
pub open spec fn name_run_end(s: Seq<char>, i: int) -> int
    decreases s.len() - i,
{
    if 0 <= i < s.len() && is_name_cont_char(s[i]) {
        name_run_end(s, i + 1)
    } else {
        i
    }
}

/// One step of decimal accumulation, wrapping modulo 2^64: digit runs whose
/// value exceeds `u64::MAX` wrap around, which is this library's documented
/// overflow policy.
pub open spec fn wrap10(acc: u64, c: char) -> u64 {
    (((acc * 10 + digit_value(c)) % 0x1_0000_0000_0000_0000) as u64)
}

/// The value accumulated by folding `wrap10` over the digits `s[i..end)`,
/// most significant digit first, starting from `acc`.
pub open spec fn run_value(s: Seq<char>, i: int, end: int, acc: u64) -> u64
    decreases end - i,
{
    if i < end {
        run_value(s, i + 1, end, wrap10(acc, s[i]))
    } else {
        acc
    }
}

/// What a token carries, independent of where in the text it was found: the
/// wrapped value of a digit run, the text of a name run, or a single literal
/// character.
pub ghost enum TokenModel {
    Integer(u64),
    Name(Seq<char>),
    Literal(char),
}

/// A token together with the half-open span of the text that produced it.
pub ghost struct ScannedToken {
    pub start: int,
    pub end: int,
    pub token: TokenModel,
}

/// The scanner is exhausted at cursor `i`: only whitespace remains.
pub open spec fn at_end(s: Seq<char>, i: int) -> bool {
    skip_ws_idx(s, i) >= s.len()
}

/// The end of the token whose first character stands at `j`.
pub open spec fn token_end(s: Seq<char>, j: int) -> int {
    if is_digit_char(s[j]) {
        digit_run_end(s, j)
    } else if is_name_start_char(s[j]) {
        name_run_end(s, j + 1)
    } else {
        j + 1
    }
}

/// The token whose first character stands at `j`.
pub open spec fn token_model_at(s: Seq<char>, j: int) -> TokenModel {
    if is_digit_char(s[j]) {
        TokenModel::Integer(run_value(s, j, digit_run_end(s, j), 0))
    } else if is_name_start_char(s[j]) {
        TokenModel::Name(s.subrange(j, name_run_end(s, j + 1)))
    } else {
        TokenModel::Literal(s[j])
    }
}

/// All tokens of `s` from cursor `i` on, each with its span.
pub open spec fn spec_items(s: Seq<char>, i: int) -> Seq<ScannedToken>
    decreases s.len() - i,
        when 0 <= i <= s.len()
        via spec_items_decreases
{
    let j = skip_ws_idx(s, i);
    if j >= s.len() {
        Seq::empty()
    } else {
        let e = token_end(s, j);
        seq![ScannedToken { start: j, end: e, token: token_model_at(s, j) }] + spec_items(s, e)
    }
}

#[via_fn]
proof fn spec_items_decreases(s: Seq<char>, i: int) {
    lemma_skip_ws_idx(s, i);
    let j = skip_ws_idx(s, i);
    if j < s.len() {
        lemma_digit_run_end(s, j);
        lemma_name_run_end(s, j + 1);
    }
}

/// All token models of `s` from cursor `i` on.
pub open spec fn spec_tokens_from(s: Seq<char>, i: int) -> Seq<TokenModel> {
    spec_items(s, i).map(|k: int, it: ScannedToken| it.token)
}

/// The token sequence that the text `s` denotes.
pub open spec fn spec_tokens(s: Seq<char>) -> Seq<TokenModel> {
    spec_tokens_from(s, 0)
}

/// Whitespace skipping lands between `i` and the end of the text, skips only
/// whitespace, and stops at a non-whitespace character when one remains.
pub proof fn lemma_skip_ws_idx(s: Seq<char>, i: int)
    requires
        0 <= i <= s.len(),
    ensures
        i <= skip_ws_idx(s, i) <= s.len(),
        forall|k: int| i <= k < skip_ws_idx(s, i) ==> is_ws_char(s[k]),
        skip_ws_idx(s, i) < s.len() ==> !is_ws_char(s[skip_ws_idx(s, i)]),
    decreases s.len() - i,
{
    if i < s.len() && is_ws_char(s[i]) {
        lemma_skip_ws_idx(s, i + 1);
    }
}

/// A digit run ends within the text, contains only digits, and is maximal.
pub proof fn lemma_digit_run_end(s: Seq<char>, i: int)
    requires
        0 <= i <= s.len(),
    ensures
        i <= digit_run_end(s, i) <= s.len(),
        forall|k: int| i <= k < digit_run_end(s, i) ==> is_digit_char(s[k]),
        digit_run_end(s, i) < s.len() ==> !is_digit_char(s[digit_run_end(s, i)]),
    decreases s.len() - i,
{
    if i < s.len() && is_digit_char(s[i]) {
        lemma_digit_run_end(s, i + 1);
    }
}

/// Taking the first token off the model sequence leaves the model sequence of
/// the rest of the text.
pub proof fn lemma_tokens_from_step(s: Seq<char>, i: int)
    requires
        0 <= i <= s.len(),
        !at_end(s, i),
    ensures
        ({
            let j = skip_ws_idx(s, i);
            let e = token_end(s, j);
            spec_tokens_from(s, i) =~= seq![token_model_at(s, j)] + spec_tokens_from(s, e)
        }),
{
    lemma_skip_ws_idx(s, i);
    let j = skip_ws_idx(s, i);
    let e = token_end(s, j);
    lemma_digit_run_end(s, j);
    lemma_name_run_end(s, j + 1);
    assert(j < e <= s.len());
    let its0 = spec_items(s, i);
    let its1 = spec_items(s, e);
    assert(its0 == seq![ScannedToken { start: j, end: e, token: token_model_at(s, j) }] + its1);
    assert forall|k: int| 0 <= k < its0.len() implies spec_tokens_from(s, i)[k] == (seq![
        token_model_at(s, j),
    ] + spec_tokens_from(s, e))[k] by {
        if k > 0 {
            assert(its0[k] == its1[k - 1]);
        }
    }
}

/// A name run ends within the text, contains only name-continuation
/// characters, and is maximal.
pub proof fn lemma_name_run_end(s: Seq<char>, i: int)
    requires
        0 <= i <= s.len(),
    ensures
        i <= name_run_end(s, i) <= s.len(),
        forall|k: int| i <= k < name_run_end(s, i) ==> is_name_cont_char(s[k]),
        name_run_end(s, i) < s.len() ==> !is_name_cont_char(s[name_run_end(s, i)]),
    decreases s.len() - i,
{
    if i < s.len() && is_name_cont_char(s[i]) {
        lemma_name_run_end(s, i + 1);
    }
}

} // verus!
