//! The executable tokenizer: a cursor over a borrowed text buffer that hands
//! out one token per call, as `scan` models it.

use vstd::prelude::*;

use crate::chars::digit_value;
use crate::chars::is_digit;
use crate::chars::is_digit_char;
use crate::chars::is_name_cont;
use crate::chars::is_name_start;
use crate::chars::is_ws;
use crate::scan::at_end;
use crate::scan::digit_run_end;
use crate::scan::name_run_end;
use crate::scan::run_value;
use crate::scan::skip_ws_idx;
use crate::scan::spec_items;
use crate::scan::spec_tokens;
use crate::scan::token_end;
use crate::scan::token_model_at;
use crate::scan::wrap10;
use crate::scan::ScannedToken;
use crate::scan::TokenModel;
use vstd::arithmetic::div_mod::lemma_fundamental_div_mod;
use vstd::arithmetic::div_mod::lemma_fundamental_div_mod_converse_mod;
use vstd::string::StrSliceExecFns;

verus! {

/// One lexical token. A `Name` borrows its text from the buffer the `Lexer`
/// was constructed over; nothing is copied.
#[derive(Debug, Clone, Copy, PartialEq, Eq)]
pub enum Token<'a> {
    Integer(u64),
    Name(&'a str),
    Literal(char),
}

impl<'a> Token<'a> {
    /// What this token says, with a `Name`'s text read out of the buffer.
    pub open spec fn model(self) -> TokenModel {
        match self {
            Token::Integer(v) => TokenModel::Integer(v),
            Token::Name(n) => TokenModel::Name(n@),
            Token::Literal(c) => TokenModel::Literal(c),
        }
    }
}

/// A forward-only cursor over a borrowed text buffer. Each `next_token` call
/// either produces the next token or signals exhaustion; the cursor never
/// moves backwards and a fresh `Lexer` must be built to scan again.
pub struct Lexer<'a> {
    source: &'a str,
    pos: usize,
}

impl<'a> Lexer<'a> {
    /// The characters of the buffer this lexer scans.
    pub closed spec fn src(self) -> Seq<char> {
        self.source@
    }

    /// The cursor: the index of the next character to look at.
    pub closed spec fn cursor(self) -> int {
        self.pos as int
    }

    /// The cursor stays within the buffer.
    pub open spec fn wf(self) -> bool {
        0 <= self.cursor() <= self.src().len()
    }

    pub fn new(source: &'a str) -> (l: Lexer<'a>)
        ensures
            l.wf(),
            l.src() == source@,
            l.cursor() == 0,
    {
        Lexer { source, pos: 0 }
    }

    /// Skip whitespace, then scan one token: a maximal digit run as an
    /// `Integer` (wrapping modulo 2^64), a maximal name run as a `Name`
    /// borrowed from the buffer, or any other character as a `Literal`.
    /// Signals `None` exactly when only whitespace remains, and then leaves
    /// the cursor at the end, so every later call signals `None` again.
    pub fn next_token(&mut self) -> (t: Option<Token<'a>>)
        requires
            old(self).wf(),
        ensures
            final(self).wf(),
            final(self).src() == old(self).src(),
            old(self).cursor() <= final(self).cursor(),
            t matches Option::None ==> {
                &&& at_end(old(self).src(), old(self).cursor())
                &&& final(self).cursor() == old(self).src().len()
            },
            t matches Option::Some(tok) ==> {
                let s = old(self).src();
                let j = skip_ws_idx(s, old(self).cursor());
                &&& !at_end(s, old(self).cursor())
                &&& final(self).cursor() == token_end(s, j)
                &&& tok.model() == token_model_at(s, j)
                &&& spec_items(s, old(self).cursor()) == seq![
                    ScannedToken { start: j, end: token_end(s, j), token: tok.model() },
                ] + spec_items(s, final(self).cursor())
            },
    {
        let src = self.source;
        let n = src.unicode_len();
        proof {
            crate::scan::lemma_skip_ws_idx(self.src(), self.cursor());
        }
        let start = skip_ws(src, self.pos);
        if start >= n {
            self.pos = start;
            return None;
        }
        let c = src.get_char(start);
        if is_digit(c) {
            let (val, end) = scan_digits(src, start);
            self.pos = end;
            proof {
                crate::scan::lemma_digit_run_end(src@, start as int);
            }
            Some(Token::Integer(val))
        } else if is_name_start(c) {
            let end = scan_name_end(src, start + 1);
            self.pos = end;
            proof {
                crate::scan::lemma_name_run_end(src@, start as int + 1);
            }
            let name = src.substring_char(start, end);
            Some(Token::Name(name))
        } else {
            self.pos = start + 1;
            Some(Token::Literal(c))
        }
    }
}

/// The whitespace-skipping pass: walk forward from `from` while the current
/// character is whitespace.
fn skip_ws(src: &str, from: usize) -> (r: usize)
    requires
        from <= src@.len(),
    ensures
        r == skip_ws_idx(src@, from as int),
        from <= r <= src@.len(),
{
    let n = src.unicode_len();
    let mut i = from;
    while i < n && is_ws(src.get_char(i))
        invariant
            from <= i <= n,
            n == src@.len(),
            skip_ws_idx(src@, from as int) == skip_ws_idx(src@, i as int),
        decreases n - i,
    {
        i = i + 1;
    }
    proof {
        crate::scan::lemma_skip_ws_idx(src@, from as int);
    }
    i
}

/// The digit-run pass: accumulate `value * 10 + digit` with wraparound while
/// the current character is a decimal digit.
fn scan_digits(src: &str, from: usize) -> (r: (u64, usize))
    requires
        from <= src@.len(),
    ensures
        r.1 == digit_run_end(src@, from as int),
        from <= r.1 <= src@.len(),
        r.0 == run_value(src@, from as int, digit_run_end(src@, from as int), 0),
{
    let ghost s = src@;
    let ghost e = digit_run_end(s, from as int);
    proof {
        crate::scan::lemma_digit_run_end(s, from as int);
    }
    let n = src.unicode_len();
    let mut i = from;
    let mut val: u64 = 0;
    while i < n && is_digit(src.get_char(i))
        invariant
            from <= i <= n,
            n == s.len(),
            s == src@,
            e == digit_run_end(s, from as int),
            e == digit_run_end(s, i as int),
            i <= e,
            run_value(s, from as int, e, 0) == run_value(s, i as int, e, val),
        decreases n - i,
    {
        let c = src.get_char(i);
        let d: u64 = (c as u32 - '0' as u32) as u64;
        proof {
            crate::scan::lemma_digit_run_end(s, i as int + 1);
            assert(digit_run_end(s, i as int) == digit_run_end(s, i as int + 1));
            lemma_wrap_step(val, c);
            assert(run_value(s, i as int, e, val) == run_value(s, i + 1, e, wrap10(val, c)));
        }
        val = val.wrapping_mul(10).wrapping_add(d);
        i = i + 1;
    }
    (val, i)
}

/// The name-run pass: walk forward from `from` while the current character is
/// an ASCII letter, digit or underscore.
fn scan_name_end(src: &str, from: usize) -> (r: usize)
    requires
        from <= src@.len(),
    ensures
        r == name_run_end(src@, from as int),
        from <= r <= src@.len(),
{
    let n = src.unicode_len();
    let mut i = from;
    while i < n && is_name_cont(src.get_char(i))
        invariant
            from <= i <= n,
            n == src@.len(),
            name_run_end(src@, from as int) == name_run_end(src@, i as int),
        decreases n - i,
    {
        i = i + 1;
    }
    proof {
        crate::scan::lemma_name_run_end(src@, from as int);
    }
    i
}

/// The wrapping multiply-and-add step of the digit loop computes exactly the
/// modulo-2^64 accumulation that `wrap10` states.
proof fn lemma_wrap_step(acc: u64, c: char)
    requires
        is_digit_char(c),
    ensures
        vstd::wrapping::u64_specs::wrapping_add(
            vstd::wrapping::u64_specs::wrapping_mul(acc, 10),
            ((c as u32 - '0' as u32) as u64),
        ) == wrap10(acc, c),
        c as u32 >= '0' as u32,
        (c as u32 - '0' as u32) as u64 == digit_value(c),
{
    let m: int = 0x1_0000_0000_0000_0000;
    let d: int = digit_value(c);
    let w: int = (acc * 10) % m;
    lemma_fundamental_div_mod(acc * 10, m);
    let q: int = (acc * 10) / m;
    if w + d < m {
        lemma_fundamental_div_mod_converse_mod(acc * 10 + d, m, q, w + d);
    } else {
        lemma_fundamental_div_mod_converse_mod(acc * 10 + d, m, q + 1, w + d - m);
    }
}

/// The token models of a sequence of tokens, in order.
pub open spec fn models<'a>(ts: Seq<Token<'a>>) -> Seq<TokenModel> {
    ts.map(|k: int, t: Token<'a>| t.model())
}

/// Appending a token to a sequence appends its model.
proof fn lemma_models_push<'a>(ts: Seq<Token<'a>>, t: Token<'a>)
    ensures
        models(ts.push(t)) =~= models(ts).push(t.model()),
{
    assert forall|k: int| 0 <= k < ts.len() + 1 implies models(ts.push(t))[k] == models(
        ts,
    ).push(t.model())[k] by {
        if k < ts.len() {
            assert(ts.push(t)[k] == ts[k]);
        }
    }
}

/// Scan the whole of `input` in one call: the tokens, in order, that
/// `next_token` would produce one at a time.
pub fn tokenize<'a>(input: &'a str) -> (toks: Vec<Token<'a>>)
    ensures
        models(toks@) == spec_tokens(input@),
{
    let ghost s = input@;
    let mut lx = Lexer::new(input);
    let mut toks: Vec<Token<'a>> = Vec::new();
    loop
        invariant
            lx.wf(),
            lx.src() == s,
            s == input@,
            models(toks@) + crate::scan::spec_tokens_from(s, lx.cursor()) =~= spec_tokens(s),
        decreases s.len() - lx.cursor() + 1,
    {
        let ghost i0 = lx.cursor();
        let ghost toks0 = toks@;
        let t = lx.next_token();
        match t {
            Option::Some(tok) => {
                proof {
                    crate::scan::lemma_tokens_from_step(s, i0);
                    lemma_models_push(toks0, tok);
                    crate::scan::lemma_skip_ws_idx(s, i0);
                }
                toks.push(tok);
            },
            Option::None => {
                proof {
                    assert(crate::scan::spec_tokens_from(s, lx.cursor()) =~= Seq::<
                        TokenModel,
                    >::empty());
                }
                return toks;
            },
        }
    }
}

} // verus!
