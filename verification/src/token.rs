//! Lexing of raw source bytes into the tokens the adapter consumes.
//!
//! `lex_from` is the mathematical definition of the token stream; the
//! executable `tokenize` is proved to return exactly that stream, so lexing
//! is a function of the input bytes alone.  Comments, string literals and
//! whitespace are skipped; an unterminated string or block comment is a
//! lexical failure, reported with its byte position.

use vstd::prelude::*;
use crate::span::Span;

verus! {

/// The token shapes the adapter distinguishes.
#[derive(Clone, Copy, PartialEq, Eq, Structural, Debug)]
pub enum TokKind {
    Ident,
    KwStruct,
    KwTrait,
    KwImpl,
    KwFn,
    KwFor,
    KwLet,
    LBrace,
    RBrace,
    LParen,
    RParen,
    Colon,
    PathSep,
    Lt,
    Gt,
    Semi,
    Comma,
    Arrow,
}

#[derive(Clone, Copy, PartialEq, Eq, Structural, Debug)]
pub struct Token {
    pub kind: TokKind,
    pub span: Span,
}

pub open spec fn is_ident_start(b: u8) -> bool {
    (97 <= b && b <= 122) || (65 <= b && b <= 90) || b == 95
}

pub open spec fn is_ident_byte(b: u8) -> bool {
    is_ident_start(b) || (48 <= b && b <= 57)
}

/// First position at or after `i` that is not an identifier byte.
pub open spec fn ident_end(text: Seq<u8>, i: int) -> int
    decreases text.len() - i when 0 <= i
{
    if i < text.len() && is_ident_byte(text[i]) {
        ident_end(text, i + 1)
    } else {
        i
    }
}

/// First position at or after `i` holding a newline, else the text length.
pub open spec fn line_end(text: Seq<u8>, i: int) -> int
    decreases text.len() - i when 0 <= i
{
    if i < text.len() && text[i] != 10 {
        line_end(text, i + 1)
    } else {
        i
    }
}

/// Position just after the `*/` that closes a block comment whose body
/// starts at `i`; `None` when the comment never closes.
pub open spec fn block_end(text: Seq<u8>, i: int) -> Option<int>
    decreases text.len() - i when 0 <= i
{
    if i >= text.len() {
        Option::None
    } else if i + 1 < text.len() && text[i] == 42 && text[i + 1] == 47 {
        Option::Some(i + 2)
    } else {
        block_end(text, i + 1)
    }
}

/// Position just after the quote that closes a string literal whose body
/// starts at `i`, honouring backslash escapes; `None` when unterminated.
pub open spec fn str_end(text: Seq<u8>, i: int) -> Option<int>
    decreases text.len() - i when 0 <= i
{
    if i >= text.len() {
        Option::None
    } else if text[i] == 34 {
        Option::Some(i + 1)
    } else if text[i] == 92 {
        if i + 1 >= text.len() {
            Option::None
        } else {
            str_end(text, i + 2)
        }
    } else {
        str_end(text, i + 1)
    }
}

pub proof fn lemma_ident_end(text: Seq<u8>, i: int)
    requires
        0 <= i <= text.len(),
    ensures
        i <= ident_end(text, i) <= text.len(),
    decreases text.len() - i,
{
    if i < text.len() && is_ident_byte(text[i]) {
        lemma_ident_end(text, i + 1);
    }
}

pub proof fn lemma_line_end(text: Seq<u8>, i: int)
    requires
        0 <= i <= text.len(),
    ensures
        i <= line_end(text, i) <= text.len(),
    decreases text.len() - i,
{
    if i < text.len() && text[i] != 10 {
        lemma_line_end(text, i + 1);
    }
}

pub proof fn lemma_block_end(text: Seq<u8>, i: int)
    requires
        0 <= i,
    ensures
        block_end(text, i) matches Option::Some(j) ==> i + 2 <= j <= text.len(),
    decreases text.len() - i,
{
    if i >= text.len() {
    } else if i + 1 < text.len() && text[i] == 42 && text[i + 1] == 47 {
    } else {
        lemma_block_end(text, i + 1);
    }
}

pub proof fn lemma_str_end(text: Seq<u8>, i: int)
    requires
        0 <= i,
    ensures
        str_end(text, i) matches Option::Some(j) ==> i + 1 <= j <= text.len(),
    decreases text.len() - i,
{
    if i >= text.len() {
    } else if text[i] == 34 {
    } else if text[i] == 92 {
        if i + 1 < text.len() {
            lemma_str_end(text, i + 2);
        }
    } else {
        lemma_str_end(text, i + 1);
    }
}

/// Spelling of each keyword the adapter knows.
pub open spec fn kw_struct_bytes() -> Seq<u8> {
    seq![115, 116, 114, 117, 99, 116]
}

pub open spec fn kw_trait_bytes() -> Seq<u8> {
    seq![116, 114, 97, 105, 116]
}

pub open spec fn kw_impl_bytes() -> Seq<u8> {
    seq![105, 109, 112, 108]
}

pub open spec fn kw_fn_bytes() -> Seq<u8> {
    seq![102, 110]
}

pub open spec fn kw_for_bytes() -> Seq<u8> {
    seq![102, 111, 114]
}

pub open spec fn kw_let_bytes() -> Seq<u8> {
    seq![108, 101, 116]
}

pub open spec fn classify_ident(s: Seq<u8>) -> TokKind {
    if s == kw_struct_bytes() {
        TokKind::KwStruct
    } else if s == kw_trait_bytes() {
        TokKind::KwTrait
    } else if s == kw_impl_bytes() {
        TokKind::KwImpl
    } else if s == kw_fn_bytes() {
        TokKind::KwFn
    } else if s == kw_for_bytes() {
        TokKind::KwFor
    } else if s == kw_let_bytes() {
        TokKind::KwLet
    } else {
        TokKind::Ident
    }
}

/// One lexical step at position `i`.
#[verifier::ext_equal]
pub ghost enum LexStep {
    Eof,
    Skip(int),
    Tok(Token, int),
    Fail(int),
}

pub open spec fn next_tok(text: Seq<u8>, i: int) -> LexStep {
    if i >= text.len() {
        LexStep::Eof
    } else {
        let b = text[i];
        if b == 32 || b == 9 || b == 13 || b == 10 {
            LexStep::Skip(i + 1)
        } else if b == 47 && i + 1 < text.len() && text[i + 1] == 47 {
            LexStep::Skip(line_end(text, i + 2))
        } else if b == 47 && i + 1 < text.len() && text[i + 1] == 42 {
            match block_end(text, i + 2) {
                Option::Some(j) => LexStep::Skip(j),
                Option::None => LexStep::Fail(i),
            }
        } else if b == 34 {
            match str_end(text, i + 1) {
                Option::Some(j) => LexStep::Skip(j),
                Option::None => LexStep::Fail(i),
            }
        } else if is_ident_start(b) {
            let e = ident_end(text, i);
            let kind = classify_ident(text.subrange(i, e));
            LexStep::Tok(Token { kind, span: Span { start: i as usize, end: e as usize } }, e)
        } else if b == 58 && i + 1 < text.len() && text[i + 1] == 58 {
            LexStep::Tok(
                Token { kind: TokKind::PathSep, span: Span { start: i as usize, end: (i + 2) as usize } },
                i + 2,
            )
        } else if b == 58 {
            LexStep::Tok(
                Token { kind: TokKind::Colon, span: Span { start: i as usize, end: (i + 1) as usize } },
                i + 1,
            )
        } else if b == 45 && i + 1 < text.len() && text[i + 1] == 62 {
            LexStep::Tok(
                Token { kind: TokKind::Arrow, span: Span { start: i as usize, end: (i + 2) as usize } },
                i + 2,
            )
        } else if b == 123 {
            LexStep::Tok(
                Token { kind: TokKind::LBrace, span: Span { start: i as usize, end: (i + 1) as usize } },
                i + 1,
            )
        } else if b == 125 {
            LexStep::Tok(
                Token { kind: TokKind::RBrace, span: Span { start: i as usize, end: (i + 1) as usize } },
                i + 1,
            )
        } else if b == 40 {
            LexStep::Tok(
                Token { kind: TokKind::LParen, span: Span { start: i as usize, end: (i + 1) as usize } },
                i + 1,
            )
        } else if b == 41 {
            LexStep::Tok(
                Token { kind: TokKind::RParen, span: Span { start: i as usize, end: (i + 1) as usize } },
                i + 1,
            )
        } else if b == 60 {
            LexStep::Tok(
                Token { kind: TokKind::Lt, span: Span { start: i as usize, end: (i + 1) as usize } },
                i + 1,
            )
        } else if b == 62 {
            LexStep::Tok(
                Token { kind: TokKind::Gt, span: Span { start: i as usize, end: (i + 1) as usize } },
                i + 1,
            )
        } else if b == 59 {
            LexStep::Tok(
                Token { kind: TokKind::Semi, span: Span { start: i as usize, end: (i + 1) as usize } },
                i + 1,
            )
        } else if b == 44 {
            LexStep::Tok(
                Token { kind: TokKind::Comma, span: Span { start: i as usize, end: (i + 1) as usize } },
                i + 1,
            )
        } else {
            LexStep::Skip(i + 1)
        }
    }
}

/// The full token stream from position `i` on; on a lexical failure the
/// result is the byte position of the offending construct.
pub open spec fn lex_from(text: Seq<u8>, i: int) -> Result<Seq<Token>, int>
    decreases text.len() - i when 0 <= i <= text.len() via lex_from_dec
{
    match next_tok(text, i) {
        LexStep::Eof => Result::Ok(Seq::empty()),
        LexStep::Fail(p) => Result::Err(p),
        LexStep::Skip(j) => lex_from(text, j),
        LexStep::Tok(t, j) => match lex_from(text, j) {
            Result::Err(p) => Result::Err(p),
            Result::Ok(rest) => Result::Ok(seq![t] + rest),
        },
    }
}

#[via_fn]
proof fn lex_from_dec(text: Seq<u8>, i: int) {
    if i < text.len() {
        if i + 2 <= text.len() {
            lemma_line_end(text, i + 2);
            lemma_block_end(text, i + 2);
        }
        lemma_str_end(text, i + 1);
        lemma_ident_end(text, i);
        if is_ident_byte(text[i]) {
            assert(ident_end(text, i) == ident_end(text, i + 1));
            lemma_ident_end(text, i + 1);
        }
    }
}

/// The lexical result for a whole text.
pub open spec fn lex_spec(text: Seq<u8>) -> Result<Seq<Token>, int> {
    lex_from(text, 0)
}

/// Prefix a produced token sequence onto a pending lexical result.
pub open spec fn lex_acc(done: Seq<Token>, rest: Result<Seq<Token>, int>) -> Result<
    Seq<Token>,
    int,
> {
    match rest {
        Result::Err(p) => Result::Err(p),
        Result::Ok(r) => Result::Ok(done + r),
    }
}

fn find_ident_end(text: &[u8], i: usize) -> (r: usize)
    requires
        i <= text@.len(),
    ensures
        r == ident_end(text@, i as int),
        i <= r <= text@.len(),
{
    let mut cur: usize = i;
    while cur < text.len() && is_ident_byte_x(text[cur as usize])
        invariant
            i <= cur <= text@.len(),
            ident_end(text@, i as int) == ident_end(text@, cur as int),
        decreases text@.len() - cur,
    {
        assert(ident_end(text@, cur as int) == ident_end(text@, cur + 1));
        cur = cur + 1;
    }
    assert(ident_end(text@, cur as int) == cur);
    cur
}

fn find_line_end(text: &[u8], i: usize) -> (r: usize)
    requires
        i <= text@.len(),
    ensures
        r == line_end(text@, i as int),
        i <= r <= text@.len(),
{
    let mut cur: usize = i;
    while cur < text.len() && text[cur as usize] != 10
        invariant
            i <= cur <= text@.len(),
            line_end(text@, i as int) == line_end(text@, cur as int),
        decreases text@.len() - cur,
    {
        assert(line_end(text@, cur as int) == line_end(text@, cur + 1));
        cur = cur + 1;
    }
    assert(line_end(text@, cur as int) == cur);
    cur
}

fn find_block_end(text: &[u8], i: usize) -> (r: Option<usize>)
    requires
        i <= text@.len(),
    ensures
        match r {
            Option::Some(j) => block_end(text@, i as int) == Option::Some(j as int) && j
                <= text@.len(),
            Option::None => block_end(text@, i as int) == Option::None::<int>,
        },
{
    let mut cur: usize = i;
    loop
        invariant
            i <= cur <= text@.len(),
            block_end(text@, i as int) == block_end(text@, cur as int),
        decreases text@.len() - cur,
    {
        if cur >= text.len() {
            assert(block_end(text@, cur as int) == Option::None::<int>);
            return Option::None;
        }
        if cur + 1 < text.len() && text[cur] == 42 && text[cur + 1] == 47 {
            assert(block_end(text@, cur as int) == Option::Some(cur + 2 as int));
            return Option::Some(cur + 2);
        }
        assert(block_end(text@, cur as int) == block_end(text@, cur + 1));
        cur = cur + 1;
    }
}

fn find_str_end(text: &[u8], i: usize) -> (r: Option<usize>)
    requires
        i <= text@.len(),
    ensures
        match r {
            Option::Some(j) => str_end(text@, i as int) == Option::Some(j as int) && i < j
                <= text@.len(),
            Option::None => str_end(text@, i as int) == Option::None::<int>,
        },
{
    let mut cur: usize = i;
    loop
        invariant
            i <= cur <= text@.len(),
            str_end(text@, i as int) == str_end(text@, cur as int),
        decreases text@.len() - cur,
    {
        if cur >= text.len() {
            assert(str_end(text@, cur as int) == Option::None::<int>);
            return Option::None;
        }
        if text[cur] == 34 {
            assert(str_end(text@, cur as int) == Option::Some(cur + 1 as int));
            proof {
                lemma_str_end(text@, i as int);
            }
            return Option::Some(cur + 1);
        }
        if text[cur] == 92 {
            if cur + 1 >= text.len() {
                assert(str_end(text@, cur as int) == Option::None::<int>);
                return Option::None;
            }
            assert(str_end(text@, cur as int) == str_end(text@, cur + 2));
            cur = cur + 2;
        } else {
            assert(str_end(text@, cur as int) == str_end(text@, cur + 1));
            cur = cur + 1;
        }
    }
}

fn is_ident_start_x(b: u8) -> (r: bool)
    ensures
        r == is_ident_start(b),
{
    (97 <= b && b <= 122) || (65 <= b && b <= 90) || b == 95
}

fn is_ident_byte_x(b: u8) -> (r: bool)
    ensures
        r == is_ident_byte(b),
{
    is_ident_start_x(b) || (48 <= b && b <= 57)
}

fn kw_struct_vec() -> (r: Vec<u8>)
    ensures
        r@ == kw_struct_bytes(),
{
    let mut v: Vec<u8> = Vec::new();
    v.push(115);
    v.push(116);
    v.push(114);
    v.push(117);
    v.push(99);
    v.push(116);
    assert(v@ =~= kw_struct_bytes());
    v
}

fn kw_trait_vec() -> (r: Vec<u8>)
    ensures
        r@ == kw_trait_bytes(),
{
    let mut v: Vec<u8> = Vec::new();
    v.push(116);
    v.push(114);
    v.push(97);
    v.push(105);
    v.push(116);
    assert(v@ =~= kw_trait_bytes());
    v
}

fn kw_impl_vec() -> (r: Vec<u8>)
    ensures
        r@ == kw_impl_bytes(),
{
    let mut v: Vec<u8> = Vec::new();
    v.push(105);
    v.push(109);
    v.push(112);
    v.push(108);
    assert(v@ =~= kw_impl_bytes());
    v
}

fn kw_fn_vec() -> (r: Vec<u8>)
    ensures
        r@ == kw_fn_bytes(),
{
    let mut v: Vec<u8> = Vec::new();
    v.push(102);
    v.push(110);
    assert(v@ =~= kw_fn_bytes());
    v
}

fn kw_for_vec() -> (r: Vec<u8>)
    ensures
        r@ == kw_for_bytes(),
{
    let mut v: Vec<u8> = Vec::new();
    v.push(102);
    v.push(111);
    v.push(114);
    assert(v@ =~= kw_for_bytes());
    v
}

fn kw_let_vec() -> (r: Vec<u8>)
    ensures
        r@ == kw_let_bytes(),
{
    let mut v: Vec<u8> = Vec::new();
    v.push(108);
    v.push(101);
    v.push(116);
    assert(v@ =~= kw_let_bytes());
    v
}

/// The bytes of `text` in `[i, e)` spell exactly `kw`.
fn range_is(text: &[u8], i: usize, e: usize, kw: &[u8]) -> (r: bool)
    requires
        i <= e <= text@.len(),
    ensures
        r == (text@.subrange(i as int, e as int) == kw@),
{
    if e - i != kw.len() {
        assert(text@.subrange(i as int, e as int).len() != kw@.len());
        return false;
    }
    let mut k: usize = 0;
    while k < kw.len()
        invariant
            k <= kw@.len(),
            i <= e <= text@.len(),
            e - i == kw@.len(),
            forall|j: int| 0 <= j < k ==> text@[i + j] == kw@[j],
        decreases kw@.len() - k,
    {
        if text[i + k] != kw[k] {
            assert(text@.subrange(i as int, e as int)[k as int] != kw@[k as int]);
            return false;
        }
        k = k + 1;
    }
    assert(text@.subrange(i as int, e as int) =~= kw@);
    true
}

fn classify(text: &[u8], i: usize, e: usize) -> (r: TokKind)
    requires
        i <= e <= text@.len(),
    ensures
        r == classify_ident(text@.subrange(i as int, e as int)),
{
    let kws = kw_struct_vec();
    let kwt = kw_trait_vec();
    let kwi = kw_impl_vec();
    let kwf = kw_fn_vec();
    let kwo = kw_for_vec();
    let kwl = kw_let_vec();
    if range_is(text, i, e, kws.as_slice()) {
        TokKind::KwStruct
    } else if range_is(text, i, e, kwt.as_slice()) {
        TokKind::KwTrait
    } else if range_is(text, i, e, kwi.as_slice()) {
        TokKind::KwImpl
    } else if range_is(text, i, e, kwf.as_slice()) {
        TokKind::KwFn
    } else if range_is(text, i, e, kwo.as_slice()) {
        TokKind::KwFor
    } else if range_is(text, i, e, kwl.as_slice()) {
        TokKind::KwLet
    } else {
        TokKind::Ident
    }
}

proof fn lemma_lex_acc_tok(done: Seq<Token>, t: Token, rest: Result<Seq<Token>, int>)
    ensures
        lex_acc(done, match rest {
            Result::Err(p) => Result::Err(p),
            Result::Ok(r) => Result::Ok(seq![t] + r),
        }) == lex_acc(done.push(t), rest),
{
    match rest {
        Result::Err(_) => {
        },
        Result::Ok(r) => {
            assert(done + (seq![t] + r) =~= done.push(t) + r);
        },
    }
}

/// Turn the whole text into tokens; on a lexical failure the result is the
/// byte position of the offending construct.
pub fn tokenize(text: &[u8]) -> (r: Result<Vec<Token>, usize>)
    ensures
        match r {
            Result::Ok(v) => lex_spec(text@) == Result::Ok::<Seq<Token>, int>(v@),
            Result::Err(p) => lex_spec(text@) == Result::Err::<Seq<Token>, int>(p as int) && p
                <= text@.len(),
        },
{
    let mut out: Vec<Token> = Vec::new();
    let mut pos: usize = 0;
    loop
        invariant
            pos <= text@.len(),
            lex_spec(text@) == lex_acc(out@, lex_from(text@, pos as int)),
        decreases text@.len() - pos,
    {
        if pos >= text.len() {
            assert(next_tok(text@, pos as int) == LexStep::Eof);
            assert(lex_from(text@, pos as int) == Result::Ok::<Seq<Token>, int>(Seq::empty()));
            assert(out@ + Seq::<Token>::empty() =~= out@);
            return Result::Ok(out);
        }
        let b = text[pos];
        let ghost iprev: int = pos as int;
        if b == 32 || b == 9 || b == 13 || b == 10 {
            assert(next_tok(text@, iprev) == LexStep::Skip(iprev + 1));
            assert(lex_from(text@, iprev) == lex_from(text@, iprev + 1));
            pos = pos + 1;
        } else if b == 47 && pos + 1 < text.len() && text[pos + 1] == 47 {
            let j = find_line_end(text, pos + 2);
            assert(next_tok(text@, iprev) == LexStep::Skip(j as int));
            assert(lex_from(text@, iprev) == lex_from(text@, j as int));
            pos = j;
        } else if b == 47 && pos + 1 < text.len() && text[pos + 1] == 42 {
            match find_block_end(text, pos + 2) {
                Option::Some(j) => {
                    proof {
                        lemma_block_end(text@, iprev + 2);
                    }
                    assert(next_tok(text@, iprev) == LexStep::Skip(j as int));
                    assert(lex_from(text@, iprev) == lex_from(text@, j as int));
                    pos = j;
                },
                Option::None => {
                    assert(next_tok(text@, iprev) == LexStep::Fail(iprev));
                    assert(lex_from(text@, iprev) == Result::Err::<Seq<Token>, int>(iprev));
                    return Result::Err(pos);
                },
            }
        } else if b == 34 {
            match find_str_end(text, pos + 1) {
                Option::Some(j) => {
                    assert(next_tok(text@, iprev) == LexStep::Skip(j as int));
                    assert(lex_from(text@, iprev) == lex_from(text@, j as int));
                    pos = j;
                },
                Option::None => {
                    assert(next_tok(text@, iprev) == LexStep::Fail(iprev));
                    assert(lex_from(text@, iprev) == Result::Err::<Seq<Token>, int>(iprev));
                    return Result::Err(pos);
                },
            }
        } else if is_ident_start_x(b) {
            let e = find_ident_end(text, pos);
            let kind = classify(text, pos, e);
            let t = Token { kind, span: Span { start: pos, end: e } };
            assert(next_tok(text@, iprev) == LexStep::Tok(t, e as int));
            proof {
                lemma_lex_acc_tok(out@, t, lex_from(text@, e as int));
            }
            out.push(t);
            assert(e > pos) by {
                assert(ident_end(text@, iprev) == ident_end(text@, iprev + 1));
                lemma_ident_end(text@, iprev + 1);
            };
            pos = e;
        } else {
            let (kind_opt, next): (Option<TokKind>, usize) = if b == 58 && pos + 1 < text.len()
                && text[pos + 1] == 58 {
                (Option::Some(TokKind::PathSep), pos + 2)
            } else if b == 58 {
                (Option::Some(TokKind::Colon), pos + 1)
            } else if b == 45 && pos + 1 < text.len() && text[pos + 1] == 62 {
                (Option::Some(TokKind::Arrow), pos + 2)
            } else if b == 123 {
                (Option::Some(TokKind::LBrace), pos + 1)
            } else if b == 125 {
                (Option::Some(TokKind::RBrace), pos + 1)
            } else if b == 40 {
                (Option::Some(TokKind::LParen), pos + 1)
            } else if b == 41 {
                (Option::Some(TokKind::RParen), pos + 1)
            } else if b == 60 {
                (Option::Some(TokKind::Lt), pos + 1)
            } else if b == 62 {
                (Option::Some(TokKind::Gt), pos + 1)
            } else if b == 59 {
                (Option::Some(TokKind::Semi), pos + 1)
            } else if b == 44 {
                (Option::Some(TokKind::Comma), pos + 1)
            } else {
                (Option::None, pos + 1)
            };
            match kind_opt {
                Option::Some(kind) => {
                    let t = Token { kind, span: Span { start: pos, end: next } };
                    assert(next_tok(text@, iprev) == LexStep::Tok(t, next as int));
                    proof {
                        lemma_lex_acc_tok(out@, t, lex_from(text@, next as int));
                    }
                    out.push(t);
                },
                Option::None => {
                    assert(next_tok(text@, iprev) == LexStep::Skip(iprev + 1));
                    assert(lex_from(text@, iprev) == lex_from(text@, iprev + 1));
                },
            }
            pos = next;
        }
    }
}

/// Every token of a well-lexed stream covers a non-empty, in-bounds byte
/// range, and an `Ident` token's bytes are a slice of the text.
pub open spec fn tokens_wf(text: Seq<u8>, toks: Seq<Token>) -> bool {
    forall|k: int|
        0 <= k < toks.len() ==> {
            let t = #[trigger] toks[k];
            t.span.start < t.span.end <= text.len()
        }
}

/// Tokens appear in byte order and do not overlap.
pub open spec fn tokens_ordered(toks: Seq<Token>) -> bool {
    forall|k: int, l: int|
        0 <= k < l < toks.len() ==> (#[trigger] toks[k]).span.end <= (#[trigger] toks[l]).span.start
}

pub proof fn lemma_lex_from_wf(text: Seq<u8>, i: int)
    requires
        0 <= i <= text.len(),
        text.len() <= usize::MAX,
    ensures
        lex_from(text, i) matches Result::Ok(v) ==> tokens_wf(text, v) && tokens_ordered(v)
            && v.len() + i <= text.len() && (forall|k: int|
            0 <= k < v.len() ==> i <= #[trigger] v[k].span.start),
    decreases text.len() - i,
{
    match next_tok(text, i) {
        LexStep::Eof => {
        },
        LexStep::Fail(_) => {
        },
        LexStep::Skip(j) => {
            if i < text.len() {
                lemma_line_end(text, if i + 2 <= text.len() { i + 2 } else { i });
                if i + 2 <= text.len() {
                    lemma_block_end(text, i + 2);
                }
                lemma_str_end(text, i + 1);
            }
            lemma_lex_from_wf(text, j);
        },
        LexStep::Tok(t, j) => {
            if i < text.len() && is_ident_start(text[i]) {
                assert(ident_end(text, i) == ident_end(text, i + 1));
                lemma_ident_end(text, i + 1);
            }
            lemma_lex_from_wf(text, j);
            match lex_from(text, j) {
                Result::Err(_) => {
                },
                Result::Ok(rest) => {
                    assert forall|k: int|
                        0 <= k < (seq![t] + rest).len() implies {
                        let tk = #[trigger] (seq![t] + rest)[k];
                        tk.span.start < tk.span.end <= text.len() && i <= tk.span.start
                    } by {
                        if k > 0 {
                            assert((seq![t] + rest)[k] == rest[k - 1]);
                        }
                    }
                    assert forall|k: int, l: int|
                        0 <= k < l < (seq![t] + rest).len() implies (#[trigger] (seq![t]
                        + rest)[k]).span.end <= (#[trigger] (seq![t] + rest)[l]).span.start by {
                        assert((seq![t] + rest)[l] == rest[l - 1]);
                        if k > 0 {
                            assert((seq![t] + rest)[k] == rest[k - 1]);
                        } else {
                            assert(t.span.end <= rest[l - 1].span.start);
                        }
                    }
                },
            }
        },
    }
}

} // verus!
