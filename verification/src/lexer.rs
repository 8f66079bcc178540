//! Lexer for the chasm language.
//!
//! The scanner walks the source bytes with maximal munch: at every
//! position the longest recognizable token wins, and a full-word
//! keyword beats an identifier of the same length.  Whitespace is
//! skipped and never emitted; any unrecognizable byte becomes an
//! `Error` token of one byte, so every input byte is accounted for.
//! The stream always ends with a single synthetic `EOF` token located
//! at the end of the source.

use vstd::prelude::*;

verus! {

/// A terminal symbol of the chasm grammar.
#[derive(Clone, Copy, Debug, PartialEq, Eq, Structural)]
pub enum Token {
    Number,
    Print,
    Var,
    While,
    EndWhile,
    If,
    EndIf,
    Else,
    Proc,
    EndProc,
    Comma,
    Operator,
    Identifier,
    Assignment,
    LeftParen,
    RightParen,
    Error,
    EOF,
}

impl Token {
    /// Return a reference to a static value with the same variant as self.
    pub fn to_static(self) -> (r: &'static Token)
        ensures
            *r == self,
    {
        match self {
            Token::Number => &Token::Number,
            Token::Print => &Token::Print,
            Token::Var => &Token::Var,
            Token::While => &Token::While,
            Token::EndWhile => &Token::EndWhile,
            Token::If => &Token::If,
            Token::EndIf => &Token::EndIf,
            Token::Else => &Token::Else,
            Token::Proc => &Token::Proc,
            Token::EndProc => &Token::EndProc,
            Token::Comma => &Token::Comma,
            Token::Operator => &Token::Operator,
            Token::Identifier => &Token::Identifier,
            Token::Assignment => &Token::Assignment,
            Token::LeftParen => &Token::LeftParen,
            Token::RightParen => &Token::RightParen,
            Token::Error => &Token::Error,
            Token::EOF => &Token::EOF,
        }
    }
}

/// A half-open byte range into the source text.
#[derive(Clone, Copy, Debug, PartialEq, Eq, Structural)]
pub struct Span {
    pub start: usize,
    pub end: usize,
}

/// A token together with the source bytes it was read from.
#[derive(Clone, Copy, Debug, PartialEq, Eq, Structural)]
pub struct TokenSpan {
    pub token: Token,
    pub span: Span,
}

/// ASCII whitespace, the only bytes the scanner skips.
pub open spec fn is_ws(b: u8) -> bool {
    b == 9 || b == 10 || b == 11 || b == 12 || b == 13 || b == 32
}

/// An ASCII decimal digit.
pub open spec fn is_digit(b: u8) -> bool {
    ('0' as u8) <= b && b <= ('9' as u8)
}

/// A byte that may appear in the digit part of a number: a digit or a dot.
pub open spec fn is_num_byte(b: u8) -> bool {
    is_digit(b) || b == ('.' as u8)
}

/// An ASCII letter, the only bytes identifiers are made of.
pub open spec fn is_letter(b: u8) -> bool {
    (('a' as u8) <= b && b <= ('z' as u8)) || (('A' as u8) <= b && b <= ('Z' as u8))
}

/// Length of the run of digit-or-dot bytes starting at `i`.
pub open spec fn num_run(src: Seq<u8>, i: int) -> nat
    decreases src.len() - i,
{
    if 0 <= i && i < src.len() && is_num_byte(src[i]) {
        1 + num_run(src, i + 1)
    } else {
        0
    }
}

/// Length of the run of letter bytes starting at `i`.
pub open spec fn letter_run(src: Seq<u8>, i: int) -> nat
    decreases src.len() - i,
{
    if 0 <= i && i < src.len() && is_letter(src[i]) {
        1 + letter_run(src, i + 1)
    } else {
        0
    }
}

/// Length of the exponent marker starting at `j`, if one is present
/// there: `e` or `E`, an optional `-`, and exactly two digits.
/// Anything else contributes no exponent and the number ends before `j`.
pub open spec fn exp_extra(src: Seq<u8>, j: int) -> nat {
    if 0 <= j && j < src.len() && (src[j] == ('e' as u8) || src[j] == ('E' as u8)) {
        let k = if j + 1 < src.len() && src[j + 1] == ('-' as u8) {
            j + 2
        } else {
            j + 1
        };
        if k + 1 < src.len() && is_digit(src[k]) && is_digit(src[k + 1]) {
            (k + 2 - j) as nat
        } else {
            0
        }
    } else {
        0
    }
}

/// Bytes a number token occupies beyond its first byte, when its first
/// digit-or-dot byte stands at `i`: the rest of the digit run, then an
/// optional exponent.
pub open spec fn num_extra(src: Seq<u8>, i: int) -> nat {
    let run = num_run(src, i + 1);
    run + exp_extra(src, i + 1 + run)
}

/// A digit-or-dot run never reaches past the end of the source.
pub proof fn lemma_num_run_le(src: Seq<u8>, i: int)
    requires
        0 <= i <= src.len(),
    ensures
        i + num_run(src, i) <= src.len(),
    decreases src.len() - i,
{
    if i < src.len() && is_num_byte(src[i]) {
        lemma_num_run_le(src, i + 1);
    }
}

/// A letter run never reaches past the end of the source.
pub proof fn lemma_letter_run_le(src: Seq<u8>, i: int)
    requires
        0 <= i <= src.len(),
    ensures
        i + letter_run(src, i) <= src.len(),
    decreases src.len() - i,
{
    if i < src.len() && is_letter(src[i]) {
        lemma_letter_run_le(src, i + 1);
    }
}

/// A token never reaches past the end of the source.
pub proof fn lemma_classify_le(src: Seq<u8>, i: int)
    requires
        0 <= i < src.len(),
    ensures
        i + 1 + classify(src, i).1 <= src.len(),
{
    lemma_letter_run_le(src, i + 1);
    lemma_num_run_le(src, i + 1);
    if i + 2 <= src.len() {
        lemma_num_run_le(src, i + 2);
    }
}

pub open spec fn kw_print() -> Seq<u8> {
    seq!['p' as u8, 'r' as u8, 'i' as u8, 'n' as u8, 't' as u8]
}

pub open spec fn kw_var() -> Seq<u8> {
    seq!['v' as u8, 'a' as u8, 'r' as u8]
}

pub open spec fn kw_while() -> Seq<u8> {
    seq!['w' as u8, 'h' as u8, 'i' as u8, 'l' as u8, 'e' as u8]
}

pub open spec fn kw_endwhile() -> Seq<u8> {
    seq!['e' as u8, 'n' as u8, 'd' as u8, 'w' as u8, 'h' as u8, 'i' as u8, 'l' as u8, 'e' as u8]
}

pub open spec fn kw_if() -> Seq<u8> {
    seq!['i' as u8, 'f' as u8]
}

pub open spec fn kw_endif() -> Seq<u8> {
    seq!['e' as u8, 'n' as u8, 'd' as u8, 'i' as u8, 'f' as u8]
}

pub open spec fn kw_else() -> Seq<u8> {
    seq!['e' as u8, 'l' as u8, 's' as u8, 'e' as u8]
}

pub open spec fn kw_proc() -> Seq<u8> {
    seq!['p' as u8, 'r' as u8, 'o' as u8, 'c' as u8]
}

pub open spec fn kw_endproc() -> Seq<u8> {
    seq!['e' as u8, 'n' as u8, 'd' as u8, 'p' as u8, 'r' as u8, 'o' as u8, 'c' as u8]
}

/// The token a full letter word denotes: one of the nine keywords, or
/// an identifier.
pub open spec fn keyword_token(w: Seq<u8>) -> Token {
    if w == kw_print() {
        Token::Print
    } else if w == kw_var() {
        Token::Var
    } else if w == kw_while() {
        Token::While
    } else if w == kw_endwhile() {
        Token::EndWhile
    } else if w == kw_if() {
        Token::If
    } else if w == kw_endif() {
        Token::EndIf
    } else if w == kw_else() {
        Token::Else
    } else if w == kw_proc() {
        Token::Proc
    } else if w == kw_endproc() {
        Token::EndProc
    } else {
        Token::Identifier
    }
}

/// The token starting at position `i`, which must hold a non-whitespace
/// byte, together with the number of bytes it occupies beyond the first.
pub open spec fn classify(src: Seq<u8>, i: int) -> (Token, nat) {
    let b = src[i];
    if is_letter(b) {
        let extra = letter_run(src, i + 1);
        (keyword_token(src.subrange(i, i + 1 + extra)), extra)
    } else if is_num_byte(b) {
        (Token::Number, num_extra(src, i))
    } else if b == ('-' as u8) {
        if i + 1 < src.len() && is_num_byte(src[i + 1]) {
            (Token::Number, 1 + num_extra(src, i + 1))
        } else {
            (Token::Operator, 0)
        }
    } else if b == ('=' as u8) {
        if i + 1 < src.len() && src[i + 1] == ('=' as u8) {
            (Token::Operator, 1)
        } else {
            (Token::Assignment, 0)
        }
    } else if b == ('&' as u8) {
        if i + 1 < src.len() && src[i + 1] == ('&' as u8) {
            (Token::Operator, 1)
        } else {
            (Token::Error, 0)
        }
    } else if b == ('+' as u8) || b == ('*' as u8) || b == ('/' as u8) || b == ('<' as u8) || b
        == ('>' as u8) {
        (Token::Operator, 0)
    } else if b == (',' as u8) {
        (Token::Comma, 0)
    } else if b == ('(' as u8) {
        (Token::LeftParen, 0)
    } else if b == (')' as u8) {
        (Token::RightParen, 0)
    } else {
        (Token::Error, 0)
    }
}

/// The token stream of the source from position `i` on: whitespace is
/// skipped, every other byte starts a token, and a final `EOF` token
/// stands at the end of the source.
pub open spec fn lex_from(src: Seq<u8>, i: int) -> Seq<TokenSpan>
    decreases src.len() - i,
    via lex_from_decreases
{
    if i < 0 || i >= src.len() {
        seq![
            TokenSpan {
                token: Token::EOF,
                span: Span { start: src.len() as usize, end: src.len() as usize },
            },
        ]
    } else if is_ws(src[i]) {
        lex_from(src, i + 1)
    } else {
        let (t, extra) = classify(src, i);
        seq![TokenSpan { token: t, span: Span { start: i as usize, end: (i + 1 + extra) as usize } }]
            + lex_from(src, i + 1 + extra)
    }
}

#[via_fn]
proof fn lex_from_decreases(src: Seq<u8>, i: int) {
    if 0 <= i && i < src.len() && !is_ws(src[i]) {
        lemma_classify_le(src, i);
    }
}

/// There are never more tokens than source bytes, beyond the final
/// `EOF` token.
pub proof fn lemma_lex_from_len(src: Seq<u8>, i: int)
    requires
        0 <= i <= src.len(),
    ensures
        lex_from(src, i).len() <= src.len() - i + 1,
    decreases src.len() - i,
{
    if i >= src.len() {
    } else if is_ws(src[i]) {
        lemma_lex_from_len(src, i + 1);
    } else {
        lemma_classify_le(src, i);
        lemma_lex_from_len(src, i + 1 + classify(src, i).1);
    }
}

/// The full token stream of a source text.
pub open spec fn lex_spec(src: Seq<u8>) -> Seq<TokenSpan> {
    lex_from(src, 0)
}

fn is_ws_exec(b: u8) -> (r: bool)
    ensures
        r == is_ws(b),
{
    b == 9 || b == 10 || b == 11 || b == 12 || b == 13 || b == 32
}

pub(crate) fn is_digit_exec(b: u8) -> (r: bool)
    ensures
        r == is_digit(b),
{
    ('0' as u8) <= b && b <= ('9' as u8)
}

pub(crate) fn is_num_byte_exec(b: u8) -> (r: bool)
    ensures
        r == is_num_byte(b),
{
    is_digit_exec(b) || b == ('.' as u8)
}

fn is_letter_exec(b: u8) -> (r: bool)
    ensures
        r == is_letter(b),
{
    (('a' as u8) <= b && b <= ('z' as u8)) || (('A' as u8) <= b && b <= ('Z' as u8))
}

/// Scan the letter run starting at `i`.
fn scan_letters(src: &[u8], i: usize) -> (j: usize)
    requires
        i <= src@.len(),
    ensures
        j == i + letter_run(src@, i as int),
        i <= j <= src@.len(),
{
    let mut j = i;
    while j < src.len() && is_letter_exec(src[j])
        invariant
            i <= j <= src@.len(),
            letter_run(src@, i as int) == j - i + letter_run(src@, j as int),
        decreases src@.len() - j,
    {
        j = j + 1;
    }
    j
}

/// Scan the digit-or-dot run starting at `i`.
pub(crate) fn scan_num_bytes(src: &[u8], i: usize) -> (j: usize)
    requires
        i <= src@.len(),
    ensures
        j == i + num_run(src@, i as int),
        i <= j <= src@.len(),
{
    let mut j = i;
    while j < src.len() && is_num_byte_exec(src[j])
        invariant
            i <= j <= src@.len(),
            num_run(src@, i as int) == j - i + num_run(src@, j as int),
        decreases src@.len() - j,
    {
        j = j + 1;
    }
    j
}

/// Scan past a number's digit run end `j`: return the end of the
/// exponent part if a complete one starts at `j`, and `j` itself otherwise.
fn scan_exponent(src: &[u8], j: usize) -> (e: usize)
    requires
        j <= src@.len(),
    ensures
        e == j + exp_extra(src@, j as int),
        j <= e <= src@.len(),
{
    if j < src.len() && (src[j] == ('e' as u8) || src[j] == ('E' as u8)) {
        let mut k = j + 1;
        if k < src.len() && src[k] == ('-' as u8) {
            k = k + 1;
        }
        if k < src.len() && is_digit_exec(src[k]) {
            if k + 1 < src.len() && is_digit_exec(src[k + 1]) {
                return k + 2;
            }
        }
        j
    } else {
        j
    }
}

/// Decide which keyword the word `src[i..j]` is, if it is one.
fn word_token(src: &[u8], i: usize, j: usize) -> (t: Token)
    requires
        i <= j <= src@.len(),
    ensures
        t == keyword_token(src@.subrange(i as int, j as int)),
{
    let ghost w = src@.subrange(i as int, j as int);
    let n = j - i;
    if n == 5 && src[i] == ('p' as u8) && src[i + 1] == ('r' as u8) && src[i + 2] == ('i' as u8)
        && src[i + 3] == ('n' as u8) && src[i + 4] == ('t' as u8) {
        proof {
            assert(w =~= kw_print());
        }
        Token::Print
    } else if n == 3 && src[i] == ('v' as u8) && src[i + 1] == ('a' as u8) && src[i + 2] == ('r'
        as u8) {
        proof {
            assert(w =~= kw_var());
        }
        Token::Var
    } else if n == 5 && src[i] == ('w' as u8) && src[i + 1] == ('h' as u8) && src[i + 2] == ('i'
        as u8) && src[i + 3] == ('l' as u8) && src[i + 4] == ('e' as u8) {
        proof {
            assert(w =~= kw_while());
        }
        Token::While
    } else if n == 8 && src[i] == ('e' as u8) && src[i + 1] == ('n' as u8) && src[i + 2] == ('d'
        as u8) && src[i + 3] == ('w' as u8) && src[i + 4] == ('h' as u8) && src[i + 5] == ('i'
        as u8) && src[i + 6] == ('l' as u8) && src[i + 7] == ('e' as u8) {
        proof {
            assert(w =~= kw_endwhile());
        }
        Token::EndWhile
    } else if n == 2 && src[i] == ('i' as u8) && src[i + 1] == ('f' as u8) {
        proof {
            assert(w =~= kw_if());
        }
        Token::If
    } else if n == 5 && src[i] == ('e' as u8) && src[i + 1] == ('n' as u8) && src[i + 2] == ('d'
        as u8) && src[i + 3] == ('i' as u8) && src[i + 4] == ('f' as u8) {
        proof {
            assert(w =~= kw_endif());
        }
        Token::EndIf
    } else if n == 4 && src[i] == ('e' as u8) && src[i + 1] == ('l' as u8) && src[i + 2] == ('s'
        as u8) && src[i + 3] == ('e' as u8) {
        proof {
            assert(w =~= kw_else());
        }
        Token::Else
    } else if n == 4 && src[i] == ('p' as u8) && src[i + 1] == ('r' as u8) && src[i + 2] == ('o'
        as u8) && src[i + 3] == ('c' as u8) {
        proof {
            assert(w =~= kw_proc());
        }
        Token::Proc
    } else if n == 7 && src[i] == ('e' as u8) && src[i + 1] == ('n' as u8) && src[i + 2] == ('d'
        as u8) && src[i + 3] == ('p' as u8) && src[i + 4] == ('r' as u8) && src[i + 5] == ('o'
        as u8) && src[i + 6] == ('c' as u8) {
        proof {
            assert(w =~= kw_endproc());
        }
        Token::EndProc
    } else {
        proof {
            assert(w != kw_print());
            assert(w != kw_var());
            assert(w != kw_while());
            assert(w != kw_endwhile());
            assert(w != kw_if());
            assert(w != kw_endif());
            assert(w != kw_else());
            assert(kw_proc().len() == 4);
            assert(w.len() == j - i);
            assert(w != kw_proc());
            assert(w != kw_endproc());
        }
        Token::Identifier
    }
}

/// Read the token starting at the non-whitespace position `i`; return
/// it with the position just past it.
fn classify_at(src: &[u8], i: usize) -> (r: (Token, usize))
    requires
        i < src@.len(),
        !is_ws(src@[i as int]),
    ensures
        r.0 == classify(src@, i as int).0,
        r.1 == i + 1 + classify(src@, i as int).1,
        i < r.1 <= src@.len(),
{
    let b = src[i];
    if is_letter_exec(b) {
        let j = scan_letters(src, i + 1);
        (word_token(src, i, j), j)
    } else if is_num_byte_exec(b) {
        let j = scan_num_bytes(src, i + 1);
        let e = scan_exponent(src, j);
        (Token::Number, e)
    } else if b == ('-' as u8) {
        if i + 1 < src.len() && is_num_byte_exec(src[i + 1]) {
            let j = scan_num_bytes(src, i + 2);
            let e = scan_exponent(src, j);
            (Token::Number, e)
        } else {
            (Token::Operator, i + 1)
        }
    } else if b == ('=' as u8) {
        if i + 1 < src.len() && src[i + 1] == ('=' as u8) {
            (Token::Operator, i + 2)
        } else {
            (Token::Assignment, i + 1)
        }
    } else if b == ('&' as u8) {
        if i + 1 < src.len() && src[i + 1] == ('&' as u8) {
            (Token::Operator, i + 2)
        } else {
            (Token::Error, i + 1)
        }
    } else if b == ('+' as u8) || b == ('*' as u8) || b == ('/' as u8) || b == ('<' as u8) || b
        == ('>' as u8) {
        (Token::Operator, i + 1)
    } else if b == (',' as u8) {
        (Token::Comma, i + 1)
    } else if b == ('(' as u8) {
        (Token::LeftParen, i + 1)
    } else if b == (')' as u8) {
        (Token::RightParen, i + 1)
    } else {
        (Token::Error, i + 1)
    }
}

/// Turn a source text into its token stream.
pub fn lex(src: &[u8]) -> (toks: Vec<TokenSpan>)
    ensures
        toks@ == lex_spec(src@),
{
    let mut toks: Vec<TokenSpan> = Vec::new();
    let mut i: usize = 0;
    while i < src.len()
        invariant
            i <= src@.len(),
            lex_spec(src@) == toks@ + lex_from(src@, i as int),
        decreases src@.len() - i,
    {
        let b = src[i];
        if is_ws_exec(b) {
            i = i + 1;
        } else {
            let (t, next) = classify_at(src, i);
            toks.push(TokenSpan { token: t, span: Span { start: i, end: next } });
            i = next;
        }
    }
    toks.push(
        TokenSpan { token: Token::EOF, span: Span { start: src.len(), end: src.len() } },
    );
    proof {
        assert(toks@ =~= lex_spec(src@));
    }
    toks
}

} // verus!
