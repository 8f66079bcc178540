//! The functional model of the compiler.
//!
//! Every step of the single-pass parser, type checker and code
//! generator is defined here as a total spec function over the token
//! stream, a procedure table and a code-generation context.  The
//! executable compiler is proved to return exactly what `compile_spec`
//! names, so compilation is a mathematical function of the source
//! text alone.

use vstd::prelude::*;

use crate::emit::uleb;
use crate::lexer::{lex_spec, Token, TokenSpan};
use crate::number::num_bits;

verus! {

/// The two value types of the language: the numeric default and the
/// result of comparison and boolean operators.
#[derive(Clone, Copy, Debug, PartialEq, Eq, Structural)]
pub enum Type {
    I32,
    F32,
}

/// Model of a code-generation context: the instruction bytes emitted
/// so far for one procedure, and its local symbols in slot order.
pub struct CtxM {
    pub code: Seq<u8>,
    pub syms: Seq<Seq<u8>>,
}

/// Model of one procedure table entry.
pub struct ProcM {
    pub name: Seq<u8>,
    pub idx: int,
    pub num_param: int,
    pub code: Seq<u8>,
}

/// Model of an error kind.
pub enum KindM {
    UnexpectedToken { expected: Seq<Token>, received: Token },
    ParseFloat,
    ArgumentNumberMismatch { expected: int, received: int },
    UnexpectedType { expected: Seq<Type>, received: Seq<Type> },
    UndeclaredProc { name: Seq<u8> },
}

/// Model of an error: a kind and the byte span it points at.
pub struct ErrM {
    pub start: int,
    pub end: int,
    pub kind: KindM,
}

/// A well-formed token stream: one final `EOF` token, and every span
/// inside the source.
pub open spec fn wf_toks(src: Seq<u8>, toks: Seq<TokenSpan>) -> bool {
    &&& toks.len() >= 1
    &&& toks[toks.len() - 1].token == Token::EOF
    &&& (forall|j: int| 0 <= j < toks.len() - 1 ==> (#[trigger] toks[j]).token != Token::EOF)
    &&& (forall|j: int|
        0 <= j < toks.len() ==> (#[trigger] toks[j]).span.start <= toks[j].span.end <= src.len())
}

/// The spans and order `lex_from` produces are always well formed.
proof fn lemma_lex_from_wf(src: Seq<u8>, i: int)
    requires
        0 <= i,
        src.len() <= usize::MAX,
    ensures
        wf_toks(src, crate::lexer::lex_from(src, i)),
        crate::lexer::lex_from(src, i).len() >= 1,
    decreases src.len() - i,
{
    let res = crate::lexer::lex_from(src, i);
    if i >= src.len() {
    } else if crate::lexer::is_ws(src[i]) {
        lemma_lex_from_wf(src, i + 1);
    } else {
        crate::lexer::lemma_classify_le(src, i);
        let (t, extra) = crate::lexer::classify(src, i);
        let rest = crate::lexer::lex_from(src, i + 1 + extra);
        lemma_lex_from_wf(src, i + 1 + extra);
        assert(res.len() == 1 + rest.len());
        assert(res[res.len() - 1] == rest[rest.len() - 1]);
        assert(t != Token::EOF);
        assert forall|j: int| 0 <= j < res.len() - 1 implies (#[trigger] res[j]).token
            != Token::EOF by {
            if j > 0 {
                assert(res[j] == rest[j - 1]);
            }
        }
        assert forall|j: int|
            0 <= j < res.len() implies (#[trigger] res[j]).span.start <= res[j].span.end
            <= src.len() by {
            if j > 0 {
                assert(res[j] == rest[j - 1]);
            }
        }
    }
}

/// The token stream of any source text is well formed.
pub proof fn lemma_lex_wf(src: Seq<u8>)
    requires
        src.len() <= usize::MAX,
    ensures
        wf_toks(src, lex_spec(src)),
{
    lemma_lex_from_wf(src, 0);
}

/// The name of the top-level procedure.
pub open spec fn main_name() -> Seq<u8> {
    seq!['m' as u8, 'a' as u8, 'i' as u8, 'n' as u8]
}

/// The name of the pixel-store intrinsic.
pub open spec fn setpixel_name() -> Seq<u8> {
    seq!['s' as u8, 'e' as u8, 't' as u8, 'p' as u8, 'i' as u8, 'x' as u8, 'e' as u8, 'l' as u8]
}

/// The x, y and color locals the intrinsic writes in the caller.
pub open spec fn x_name() -> Seq<u8> {
    seq!['x' as u8]
}

pub open spec fn y_name() -> Seq<u8> {
    seq!['y' as u8]
}

pub open spec fn color_name() -> Seq<u8> {
    seq!['c' as u8, 'o' as u8, 'l' as u8, 'o' as u8, 'r' as u8]
}

/// The bytes of the source a token covers.
pub open spec fn tok_text(src: Seq<u8>, t: TokenSpan) -> Seq<u8> {
    src.subrange(t.span.start as int, t.span.end as int)
}

/// An `UnexpectedToken` error at a token.
pub open spec fn err_unexpected(t: TokenSpan, expected: Seq<Token>, received: Token) -> ErrM {
    ErrM {
        start: t.span.start as int,
        end: t.span.end as int,
        kind: KindM::UnexpectedToken { expected, received },
    }
}

/// Demand one token and step past it.
pub open spec fn match_token_m(toks: Seq<TokenSpan>, pos: int, t: Token) -> Result<int, ErrM> {
    if toks[pos].token == t {
        Ok(pos + 1)
    } else {
        Err(err_unexpected(toks[pos], seq![t], toks[pos].token))
    }
}

/// Demand that a sub-expression spanning `start` up to the end of the
/// token before `pos` had the expected type.
pub open spec fn expect_type_m(
    toks: Seq<TokenSpan>,
    pos: int,
    rec: Type,
    expec: Type,
    start: int,
) -> Result<(), ErrM> {
    if rec != expec {
        Err(
            ErrM {
                start,
                end: toks[pos - 1].span.end as int,
                kind: KindM::UnexpectedType { expected: seq![expec], received: seq![rec] },
            },
        )
    } else {
        Ok(())
    }
}

/// First slot holding `name`, scanning up from `i`.
pub open spec fn sym_find(syms: Seq<Seq<u8>>, name: Seq<u8>, i: int) -> Option<int>
    decreases syms.len() - i,
{
    if 0 <= i && i < syms.len() {
        if syms[i] == name {
            Some(i)
        } else {
            sym_find(syms, name, i + 1)
        }
    } else {
        None
    }
}

/// The slot of `name`, assigning the next free slot on first use.
pub open spec fn sym_index_m(syms: Seq<Seq<u8>>, name: Seq<u8>) -> (int, Seq<Seq<u8>>) {
    match sym_find(syms, name, 0) {
        Some(i) => (i, syms),
        None => (syms.len() as int, syms.push(name)),
    }
}

/// First procedure table entry named `name`, scanning up from `i`.
pub open spec fn proc_find(procs: Seq<ProcM>, name: Seq<u8>, i: int) -> Option<int>
    decreases procs.len() - i,
{
    if 0 <= i && i < procs.len() {
        if procs[i].name == name {
            Some(i)
        } else {
            proc_find(procs, name, i + 1)
        }
    } else {
        None
    }
}

/// Look a callee up by name, creating an empty stub at the next unused
/// function index when the name is new, and checking the argument
/// count against the recorded parameter count when it is not.
pub open spec fn proc_from_symbol_m(
    procs: Seq<ProcM>,
    name: Seq<u8>,
    num_param: int,
    at: TokenSpan,
) -> Result<(Seq<ProcM>, int), ErrM> {
    match proc_find(procs, name, 0) {
        Some(i) => {
            if procs[i].num_param != num_param {
                Err(
                    ErrM {
                        start: at.span.start as int,
                        end: at.span.end as int,
                        kind: KindM::ArgumentNumberMismatch {
                            expected: procs[i].num_param,
                            received: num_param,
                        },
                    },
                )
            } else {
                Ok((procs, procs[i].idx))
            }
        },
        None => {
            let idx = procs.len() as int + 1;
            Ok((procs.push(ProcM { name, idx, num_param, code: Seq::empty() }), idx))
        },
    }
}

/// Store finished code into the first entry named `name`.
pub open spec fn proc_set_code_m(procs: Seq<ProcM>, name: Seq<u8>, code: Seq<u8>) -> Seq<ProcM> {
    match proc_find(procs, name, 0) {
        Some(i) => procs.update(
            i,
            ProcM { name: procs[i].name, idx: procs[i].idx, num_param: procs[i].num_param, code },
        ),
        None => procs,
    }
}

/// The locals header and end marker wrapped around a finished body:
/// one group of `nsyms - num_param` locals of the numeric type,
/// spliced in front of the already-emitted instructions.
pub open spec fn finalize_code_m(code: Seq<u8>, nsyms: int, num_param: int) -> Seq<u8> {
    let locals = if nsyms >= num_param {
        (nsyms - num_param) as nat
    } else {
        0nat
    };
    uleb(1) + uleb(locals) + seq![0x7Du8] + code + seq![0x0Bu8]
}

/// The little-endian bytes of a 32-bit constant.
pub open spec fn le4(bits: u32) -> Seq<u8> {
    seq![
        (bits % 256) as u8,
        ((bits / 256) % 256) as u8,
        ((bits / 65536) % 256) as u8,
        ((bits / 16777216) % 256) as u8,
    ]
}

/// The `local.get` instruction.
pub open spec fn op_local_get(idx: int) -> Seq<u8> {
    seq![0x20u8] + uleb(idx as nat)
}

/// The `local.set` instruction.
pub open spec fn op_local_set(idx: int) -> Seq<u8> {
    seq![0x21u8] + uleb(idx as nat)
}

/// The `call` instruction.
pub open spec fn op_call(idx: int) -> Seq<u8> {
    seq![0x10u8] + uleb(idx as nat)
}

/// The body the pixel-store intrinsic emits after its three operands
/// have been stored: compute `y * 100 + x`, truncate it and the color,
/// and store the byte.
pub open spec fn setpixel_tail(x_idx: int, y_idx: int, color_idx: int) -> Seq<u8> {
    op_local_get(y_idx) + seq![0x43u8, 0x00u8, 0x00u8, 0xC8u8, 0x42u8] + seq![0x94u8]
        + op_local_get(x_idx) + seq![0x92u8] + seq![0xA8u8] + op_local_get(color_idx)
        + seq![0xA8u8] + seq![0x3Au8, 0x00u8, 0x00u8]
}

/// Operator classes, told apart by their source text.
pub open spec fn op_is_arith(op: Seq<u8>) -> bool {
    ||| op == seq!['+' as u8]
    ||| op == seq!['-' as u8]
    ||| op == seq!['*' as u8]
    ||| op == seq!['/' as u8]
}

pub open spec fn op_is_cmp(op: Seq<u8>) -> bool {
    ||| op == seq!['=' as u8, '=' as u8]
    ||| op == seq!['<' as u8]
    ||| op == seq!['>' as u8]
}

pub open spec fn op_is_and(op: Seq<u8>) -> bool {
    op == seq!['&' as u8, '&' as u8]
}

/// The instruction byte of a binary operator.
pub open spec fn op_opcode(op: Seq<u8>) -> u8 {
    if op == seq!['+' as u8] {
        0x92u8
    } else if op == seq!['-' as u8] {
        0x93u8
    } else if op == seq!['*' as u8] {
        0x94u8
    } else if op == seq!['/' as u8] {
        0x95u8
    } else if op == seq!['=' as u8, '=' as u8] {
        0x5Bu8
    } else if op == seq!['<' as u8] {
        0x5Du8
    } else {
        0x5Eu8
    }
}

/// Positions step forward and stay inside the token stream.
pub open spec fn step_ok(prev: int, next: int, len: int) -> bool {
    prev < next && next < len
}

/// Parse one expression: a number, an identifier, or a parenthesized
/// binary operation; emit its code and give its type.
pub open spec fn expr_m(
    src: Seq<u8>,
    toks: Seq<TokenSpan>,
    pos: int,
    ctx: CtxM,
) -> Result<(int, CtxM, Type), ErrM>
    decreases toks.len() - pos, 0int,
        when 0 <= pos < toks.len()
{
    let cur = toks[pos];
    if cur.token == Token::Number {
        match num_bits(tok_text(src, cur)) {
            Some(bits) => Ok(
                (
                    pos + 1,
                    CtxM { code: ctx.code + seq![0x43u8] + le4(bits), syms: ctx.syms },
                    Type::F32,
                ),
            ),
            None => Err(
                ErrM {
                    start: cur.span.start as int,
                    end: cur.span.end as int,
                    kind: KindM::ParseFloat,
                },
            ),
        }
    } else if cur.token == Token::Identifier {
        let (idx, syms2) = sym_index_m(ctx.syms, tok_text(src, cur));
        Ok((pos + 1, CtxM { code: ctx.code + op_local_get(idx), syms: syms2 }, Type::F32))
    } else if cur.token == Token::LeftParen {
        match expr_m(src, toks, pos + 1, ctx) {
            Err(e) => Err(e),
            Ok((p2, ctx2, ta)) => {
                if !step_ok(pos + 1, p2, toks.len() as int) {
                    arbitrary()
                } else {
                    let op_tok = toks[p2];
                    if op_tok.token != Token::Operator {
                        Err(err_unexpected(op_tok, seq![Token::Operator], op_tok.token))
                    } else {
                        let op = tok_text(src, op_tok);
                        match expr_m(src, toks, p2 + 1, ctx2) {
                            Err(e) => Err(e),
                            Ok((p3, ctx3, tb)) => {
                                if !step_ok(p2 + 1, p3, toks.len() as int) {
                                    arbitrary()
                                } else {
                                    if op_is_arith(op) || op_is_cmp(op) {
                                        if ta != Type::F32 || tb != Type::F32 {
                                            Err(
                                                ErrM {
                                                    start: cur.span.start as int,
                                                    end: toks[p3 - 1].span.end as int,
                                                    kind: KindM::UnexpectedType {
                                                        expected: seq![Type::F32, Type::F32],
                                                        received: seq![ta, tb],
                                                    },
                                                },
                                            )
                                        } else {
                                            match match_token_m(toks, p3, Token::RightParen) {
                                                Err(e) => Err(e),
                                                Ok(p4) => Ok(
                                                    (
                                                        p4,
                                                        CtxM {
                                                            code: ctx3.code + seq![op_opcode(op)],
                                                            syms: ctx3.syms,
                                                        },
                                                        if op_is_arith(op) {
                                                            Type::F32
                                                        } else {
                                                            Type::I32
                                                        },
                                                    ),
                                                ),
                                            }
                                        }
                                    } else if op_is_and(op) {
                                        if ta != Type::I32 || tb != Type::I32 {
                                            Err(
                                                ErrM {
                                                    start: cur.span.start as int,
                                                    end: toks[p3 - 1].span.end as int,
                                                    kind: KindM::UnexpectedType {
                                                        expected: seq![Type::I32, Type::I32],
                                                        received: seq![ta, tb],
                                                    },
                                                },
                                            )
                                        } else {
                                            match match_token_m(toks, p3, Token::RightParen) {
                                                Err(e) => Err(e),
                                                Ok(p4) => Ok(
                                                    (
                                                        p4,
                                                        CtxM {
                                                            code: ctx3.code + seq![0x71u8],
                                                            syms: ctx3.syms,
                                                        },
                                                        Type::I32,
                                                    ),
                                                ),
                                            }
                                        }
                                    } else {
                                        Err(
                                            err_unexpected(
                                                op_tok,
                                                seq![Token::Operator],
                                                op_tok.token,
                                            ),
                                        )
                                    }
                                }
                            },
                        }
                    }
                }
            },
        }
    } else {
        Err(err_unexpected(cur, seq![Token::Number, Token::LeftParen], cur.token))
    }
}

/// Parse the argument list of a call, after the opening parenthesis:
/// expressions of the numeric type separated by commas, counted in `n`.
pub open spec fn call_args_m(
    src: Seq<u8>,
    toks: Seq<TokenSpan>,
    pos: int,
    ctx: CtxM,
    n: int,
) -> Result<(int, CtxM, int), ErrM>
    decreases toks.len() - pos, 1int,
        when 0 <= pos < toks.len()
{
    if toks[pos].token == Token::RightParen {
        Ok((pos, ctx, n))
    } else {
        let start = toks[pos].span.start as int;
        match expr_m(src, toks, pos, ctx) {
            Err(e) => Err(e),
            Ok((p2, ctx2, t)) => {
                if !step_ok(pos, p2, toks.len() as int) {
                    arbitrary()
                } else {
                    match expect_type_m(toks, p2, t, Type::F32, start) {
                        Err(e) => Err(e),
                        Ok(()) => {
                            if toks[p2].token != Token::RightParen {
                                match match_token_m(toks, p2, Token::Comma) {
                                    Err(e) => Err(e),
                                    Ok(p3) => call_args_m(src, toks, p3, ctx2, n + 1),
                                }
                            } else {
                                Ok((p2, ctx2, n + 1))
                            }
                        },
                    }
                }
            },
        }
    }
}

/// Parse `print <expr>` and emit a call of the host print import.
pub open spec fn print_m(
    src: Seq<u8>,
    toks: Seq<TokenSpan>,
    pos: int,
    procs: Seq<ProcM>,
    ctx: CtxM,
) -> Result<(int, Seq<ProcM>, CtxM), ErrM>
    decreases toks.len() - pos, 2int,
        when 0 <= pos < toks.len() - 1
{
    match match_token_m(toks, pos, Token::Print) {
        Err(e) => Err(e),
        Ok(p1) => {
            let start = toks[p1].span.start as int;
            match expr_m(src, toks, p1, ctx) {
                Err(e) => Err(e),
                Ok((p2, ctx2, t)) => {
                    match expect_type_m(toks, p2, t, Type::F32, start) {
                        Err(e) => Err(e),
                        Ok(()) => Ok(
                            (p2, procs, CtxM { code: ctx2.code + op_call(0), syms: ctx2.syms }),
                        ),
                    }
                },
            }
        },
    }
}

/// Parse `<ident> = <expr>` and emit a store into the identifier's slot.
pub open spec fn assign_m(
    src: Seq<u8>,
    toks: Seq<TokenSpan>,
    pos: int,
    procs: Seq<ProcM>,
    ctx: CtxM,
) -> Result<(int, Seq<ProcM>, CtxM), ErrM>
    decreases toks.len() - pos, 2int,
        when 0 <= pos < toks.len()
{
    let ident = toks[pos];
    match match_token_m(toks, pos, Token::Identifier) {
        Err(e) => Err(e),
        Ok(p1) => {
            let (idx, syms2) = sym_index_m(ctx.syms, tok_text(src, ident));
            let ctx1 = CtxM { code: ctx.code, syms: syms2 };
            match match_token_m(toks, p1, Token::Assignment) {
                Err(e) => Err(e),
                Ok(p2) => {
                    if !(p2 < toks.len()) {
                        arbitrary()
                    } else {
                        let start = toks[p2].span.start as int;
                        match expr_m(src, toks, p2, ctx1) {
                            Err(e) => Err(e),
                            Ok((p3, ctx2, t)) => {
                                match expect_type_m(toks, p3, t, Type::F32, start) {
                                    Err(e) => Err(e),
                                    Ok(()) => Ok(
                                        (
                                            p3,
                                            procs,
                                            CtxM {
                                                code: ctx2.code + op_local_set(idx),
                                                syms: ctx2.syms,
                                            },
                                        ),
                                    ),
                                }
                            },
                        }
                    }
                },
            }
        },
    }
}

/// Parse `var <ident> = <expr>`: the keyword adds no meaning.
pub open spec fn var_m(
    src: Seq<u8>,
    toks: Seq<TokenSpan>,
    pos: int,
    procs: Seq<ProcM>,
    ctx: CtxM,
) -> Result<(int, Seq<ProcM>, CtxM), ErrM>
    decreases toks.len() - pos, 2int,
        when 0 <= pos < toks.len() - 1
{
    match match_token_m(toks, pos, Token::Var) {
        Err(e) => Err(e),
        Ok(p1) => assign_m(src, toks, p1, procs, ctx),
    }
}

/// Parse one operand of the pixel-store intrinsic and store it into
/// the named caller-visible local.
pub open spec fn setpixel_arg_m(
    src: Seq<u8>,
    toks: Seq<TokenSpan>,
    pos: int,
    ctx: CtxM,
    name: Seq<u8>,
) -> Result<(int, CtxM, int), ErrM>
    decreases toks.len() - pos, 1int,
        when 0 <= pos < toks.len()
{
    let start = toks[pos].span.start as int;
    match expr_m(src, toks, pos, ctx) {
        Err(e) => Err(e),
        Ok((p2, ctx2, t)) => {
            match expect_type_m(toks, p2, t, Type::F32, start) {
                Err(e) => Err(e),
                Ok(()) => {
                    let (idx, syms2) = sym_index_m(ctx2.syms, name);
                    Ok((p2, CtxM { code: ctx2.code + op_local_set(idx), syms: syms2 }, idx))
                },
            }
        },
    }
}

/// Parse a call statement: the hardwired pixel-store intrinsic, or a
/// user procedure call that may create a forward stub.
pub open spec fn call_m(
    src: Seq<u8>,
    toks: Seq<TokenSpan>,
    pos: int,
    procs: Seq<ProcM>,
    ctx: CtxM,
) -> Result<(int, Seq<ProcM>, CtxM), ErrM>
    decreases toks.len() - pos, 3int,
        when 0 <= pos < toks.len() - 1
{
    let symbol = toks[pos];
    match match_token_m(toks, pos, Token::Identifier) {
        Err(e) => Err(e),
        Ok(p1) => {
            let name = tok_text(src, symbol);
            if name == setpixel_name() {
                match match_token_m(toks, p1, Token::LeftParen) {
                    Err(e) => Err(e),
                    Ok(p2) => {
                        if !(p2 < toks.len()) {
                            arbitrary()
                        } else {
                            match setpixel_arg_m(src, toks, p2, ctx, x_name()) {
                                Err(e) => Err(e),
                                Ok((p3, ctx3, x_idx)) => {
                                    if !step_ok(p2 - 1, p3, toks.len() as int) {
                                        arbitrary()
                                    } else {
                                        match match_token_m(toks, p3, Token::Comma) {
                                            Err(e) => Err(e),
                                            Ok(p4) => {
                                                if !(p4 < toks.len()) {
                                                    arbitrary()
                                                } else {
                                                    match setpixel_arg_m(
                                                        src,
                                                        toks,
                                                        p4,
                                                        ctx3,
                                                        y_name(),
                                                    ) {
                                                        Err(e) => Err(e),
                                                        Ok((p5, ctx5, y_idx)) => {
                                                            if !step_ok(
                                                                p4 - 1,
                                                                p5,
                                                                toks.len() as int,
                                                            ) {
                                                                arbitrary()
                                                            } else {
                                                                match match_token_m(
                                                                    toks,
                                                                    p5,
                                                                    Token::Comma,
                                                                ) {
                                                                    Err(e) => Err(e),
                                                                    Ok(p6) => {
                                                                        if !(p6 < toks.len()) {
                                                                            arbitrary()
                                                                        } else {
                                                                            call_setpixel_tail_m(
                                                                                src,
                                                                                toks,
                                                                                p6,
                                                                                procs,
                                                                                ctx5,
                                                                                x_idx,
                                                                                y_idx,
                                                                            )
                                                                        }
                                                                    },
                                                                }
                                                            }
                                                        },
                                                    }
                                                }
                                            },
                                        }
                                    }
                                },
                            }
                        }
                    },
                }
            } else {
                match match_token_m(toks, p1, Token::LeftParen) {
                    Err(e) => Err(e),
                    Ok(p2) => {
                        if !(p2 < toks.len()) {
                            arbitrary()
                        } else {
                            match call_args_m(src, toks, p2, ctx, 0) {
                                Err(e) => Err(e),
                                Ok((p3, ctx3, n)) => {
                                    if !(p2 - 1 < p3 && p3 < toks.len()) {
                                        arbitrary()
                                    } else {
                                        match match_token_m(toks, p3, Token::RightParen) {
                                            Err(e) => Err(e),
                                            Ok(p4) => {
                                                match proc_from_symbol_m(
                                                    procs,
                                                    name,
                                                    n,
                                                    toks[p4],
                                                ) {
                                                    Err(e) => Err(e),
                                                    Ok((procs2, idx)) => Ok(
                                                        (
                                                            p4,
                                                            procs2,
                                                            CtxM {
                                                                code: ctx3.code + op_call(idx),
                                                                syms: ctx3.syms,
                                                            },
                                                        ),
                                                    ),
                                                }
                                            },
                                        }
                                    }
                                },
                            }
                        }
                    },
                }
            }
        },
    }
}

/// The third intrinsic operand and the byte-store tail.
pub open spec fn call_setpixel_tail_m(
    src: Seq<u8>,
    toks: Seq<TokenSpan>,
    pos: int,
    procs: Seq<ProcM>,
    ctx: CtxM,
    x_idx: int,
    y_idx: int,
) -> Result<(int, Seq<ProcM>, CtxM), ErrM>
    decreases toks.len() - pos, 2int,
        when 0 <= pos < toks.len()
{
    match setpixel_arg_m(src, toks, pos, ctx, color_name()) {
        Err(e) => Err(e),
        Ok((p7, ctx7, color_idx)) => {
            if !(p7 < toks.len()) {
                arbitrary()
            } else {
                let ctx8 = CtxM {
                    code: ctx7.code + setpixel_tail(x_idx, y_idx, color_idx),
                    syms: ctx7.syms,
                };
                match match_token_m(toks, p7, Token::RightParen) {
                    Err(e) => Err(e),
                    Ok(p8) => Ok((p8, procs, ctx8)),
                }
            }
        },
    }
}

/// Parse `while <expr> <statement>* endwhile`: a block wrapping a
/// loop, leaving both when the negated condition branches out.
pub open spec fn while_m(
    src: Seq<u8>,
    toks: Seq<TokenSpan>,
    pos: int,
    procs: Seq<ProcM>,
    ctx: CtxM,
) -> Result<(int, Seq<ProcM>, CtxM), ErrM>
    decreases toks.len() - pos, 3int,
        when 0 <= pos < toks.len() - 1
{
    match match_token_m(toks, pos, Token::While) {
        Err(e) => Err(e),
        Ok(p1) => {
            let ctx1 = CtxM {
                code: ctx.code + seq![0x02u8, 0x40u8, 0x03u8, 0x40u8],
                syms: ctx.syms,
            };
            let start = toks[p1].span.start as int;
            match expr_m(src, toks, p1, ctx1) {
                Err(e) => Err(e),
                Ok((p2, ctx2, t)) => {
                    if !step_ok(p1, p2, toks.len() as int) {
                        arbitrary()
                    } else {
                        match expect_type_m(toks, p2, t, Type::I32, start) {
                            Err(e) => Err(e),
                            Ok(()) => {
                                let ctx3 = CtxM {
                                    code: ctx2.code + seq![0x45u8] + seq![0x0Du8] + uleb(1),
                                    syms: ctx2.syms,
                                };
                                match stmts_until_m(
                                    src,
                                    toks,
                                    p2,
                                    procs,
                                    ctx3,
                                    Token::EndWhile,
                                    Token::EndWhile,
                                ) {
                                    Err(e) => Err(e),
                                    Ok((p3, procs3, ctx4)) => {
                                        match match_token_m(toks, p3, Token::EndWhile) {
                                            Err(e) => Err(e),
                                            Ok(p4) => Ok(
                                                (
                                                    p4,
                                                    procs3,
                                                    CtxM {
                                                        code: ctx4.code + seq![0x0Cu8] + uleb(0)
                                                            + seq![0x0Bu8, 0x0Bu8],
                                                        syms: ctx4.syms,
                                                    },
                                                ),
                                            ),
                                        }
                                    },
                                }
                            },
                        }
                    }
                },
            }
        },
    }
}

/// Parse `if <expr> <statement>* (else <statement>*)? endif`: one
/// structured if-construct with an optional else arm and one end marker.
pub open spec fn if_m(
    src: Seq<u8>,
    toks: Seq<TokenSpan>,
    pos: int,
    procs: Seq<ProcM>,
    ctx: CtxM,
) -> Result<(int, Seq<ProcM>, CtxM), ErrM>
    decreases toks.len() - pos, 3int,
        when 0 <= pos < toks.len() - 1
{
    match match_token_m(toks, pos, Token::If) {
        Err(e) => Err(e),
        Ok(p1) => {
            let start = toks[p1].span.start as int;
            match expr_m(src, toks, p1, ctx) {
                Err(e) => Err(e),
                Ok((p2, ctx2, t)) => {
                    if !step_ok(p1, p2, toks.len() as int) {
                        arbitrary()
                    } else {
                        match expect_type_m(toks, p2, t, Type::I32, start) {
                            Err(e) => Err(e),
                            Ok(()) => {
                                let ctx3 = CtxM {
                                    code: ctx2.code + seq![0x04u8, 0x40u8],
                                    syms: ctx2.syms,
                                };
                                match stmts_until_m(
                                    src,
                                    toks,
                                    p2,
                                    procs,
                                    ctx3,
                                    Token::EndIf,
                                    Token::Else,
                                ) {
                                    Err(e) => Err(e),
                                    Ok((p3, procs3, ctx4)) => {
                                        if toks[p3].token == Token::Else {
                                            let p4 = p3 + 1;
                                            let ctx5 = CtxM {
                                                code: ctx4.code + seq![0x05u8],
                                                syms: ctx4.syms,
                                            };
                                            if !step_ok(pos, p4, toks.len() as int) {
                                                arbitrary()
                                            } else {
                                                match stmts_until_m(
                                                    src,
                                                    toks,
                                                    p4,
                                                    procs3,
                                                    ctx5,
                                                    Token::EndIf,
                                                    Token::EndIf,
                                                ) {
                                                    Err(e) => Err(e),
                                                    Ok((p5, procs5, ctx6)) => {
                                                        match match_token_m(
                                                            toks,
                                                            p5,
                                                            Token::EndIf,
                                                        ) {
                                                            Err(e) => Err(e),
                                                            Ok(p6) => Ok(
                                                                (
                                                                    p6,
                                                                    procs5,
                                                                    CtxM {
                                                                        code: ctx6.code
                                                                            + seq![0x0Bu8],
                                                                        syms: ctx6.syms,
                                                                    },
                                                                ),
                                                            ),
                                                        }
                                                    },
                                                }
                                            }
                                        } else {
                                            match match_token_m(toks, p3, Token::EndIf) {
                                                Err(e) => Err(e),
                                                Ok(p6) => Ok(
                                                    (
                                                        p6,
                                                        procs3,
                                                        CtxM {
                                                            code: ctx4.code + seq![0x0Bu8],
                                                            syms: ctx4.syms,
                                                        },
                                                    ),
                                                ),
                                            }
                                        }
                                    },
                                }
                            },
                        }
                    }
                },
            }
        },
    }
}

/// Parse the parameter names of a procedure heading.
pub open spec fn proc_params_m(
    src: Seq<u8>,
    toks: Seq<TokenSpan>,
    pos: int,
    args: Seq<Seq<u8>>,
) -> Result<(int, Seq<Seq<u8>>), ErrM>
    decreases toks.len() - pos,
        when 0 <= pos < toks.len()
{
    if toks[pos].token == Token::RightParen {
        Ok((pos, args))
    } else {
        let arg = toks[pos];
        match match_token_m(toks, pos, Token::Identifier) {
            Err(e) => Err(e),
            Ok(p1) => {
                let args2 = args.push(tok_text(src, arg));
                if !(p1 < toks.len()) {
                    arbitrary()
                } else {
                    if toks[p1].token != Token::RightParen {
                        match match_token_m(toks, p1, Token::Comma) {
                            Err(e) => Err(e),
                            Ok(p2) => {
                                if !(p2 < toks.len()) {
                                    arbitrary()
                                } else {
                                    proc_params_m(src, toks, p2, args2)
                                }
                            },
                        }
                    } else {
                        Ok((p1, args2))
                    }
                }
            },
        }
    }
}

/// Parse `proc <ident> ( <params> ) <statement>* endproc`: compile the
/// body in a fresh context seeded with the parameters, then splice the
/// locals header in front and record the code under the name.
pub open spec fn proc_m(
    src: Seq<u8>,
    toks: Seq<TokenSpan>,
    pos: int,
    procs: Seq<ProcM>,
    ctx: CtxM,
) -> Result<(int, Seq<ProcM>, CtxM), ErrM>
    decreases toks.len() - pos, 3int,
        when 0 <= pos < toks.len() - 1
{
    match match_token_m(toks, pos, Token::Proc) {
        Err(e) => Err(e),
        Ok(p1) => {
            let name_tok = toks[p1];
            match match_token_m(toks, p1, Token::Identifier) {
                Err(e) => Err(e),
                Ok(p2) => {
                    let name = tok_text(src, name_tok);
                    match match_token_m(toks, p2, Token::LeftParen) {
                        Err(e) => Err(e),
                        Ok(p3) => {
                            if !(p3 < toks.len()) {
                                arbitrary()
                            } else {
                                match proc_params_m(src, toks, p3, Seq::empty()) {
                                    Err(e) => Err(e),
                                    Ok((p4, args)) => {
                                        if !(p3 - 1 < p4 && p4 < toks.len()) {
                                            arbitrary()
                                        } else {
                                            match match_token_m(toks, p4, Token::RightParen) {
                                                Err(e) => Err(e),
                                                Ok(p5) => {
                                                    let num_param = args.len() as int;
                                                    match proc_from_symbol_m(
                                                        procs,
                                                        name,
                                                        num_param,
                                                        toks[p5],
                                                    ) {
                                                        Err(e) => Err(e),
                                                        Ok((procs2, _idx)) => {
                                                            if !step_ok(
                                                                pos,
                                                                p5,
                                                                toks.len() as int,
                                                            ) {
                                                                arbitrary()
                                                            } else {
                                                                let body_ctx = CtxM {
                                                                    code: Seq::empty(),
                                                                    syms: args,
                                                                };
                                                                match stmts_until_m(
                                                                    src,
                                                                    toks,
                                                                    p5,
                                                                    procs2,
                                                                    body_ctx,
                                                                    Token::EndProc,
                                                                    Token::EndProc,
                                                                ) {
                                                                    Err(e) => Err(e),
                                                                    Ok(
                                                                        (p6, procs6, bctx),
                                                                    ) => {
                                                                        match match_token_m(
                                                                            toks,
                                                                            p6,
                                                                            Token::EndProc,
                                                                        ) {
                                                                            Err(e) => Err(e),
                                                                            Ok(p7) => {
                                                                                let fin =
                                                                                    finalize_code_m(
                                                                                    bctx.code,
                                                                                    bctx.syms.len()
                                                                                        as int,
                                                                                    num_param,
                                                                                );
                                                                                Ok(
                                                                                    (
                                                                                        p7,
                                                                                        proc_set_code_m(
                                                                                            procs6,
                                                                                            name,
                                                                                            fin,
                                                                                        ),
                                                                                        ctx,
                                                                                    ),
                                                                                )
                                                                            },
                                                                        }
                                                                    },
                                                                }
                                                            }
                                                        },
                                                    }
                                                },
                                            }
                                        }
                                    },
                                }
                            }
                        },
                    }
                },
            }
        },
    }
}

/// Parse one statement, dispatching on the current token.
pub open spec fn statement_m(
    src: Seq<u8>,
    toks: Seq<TokenSpan>,
    pos: int,
    procs: Seq<ProcM>,
    ctx: CtxM,
) -> Result<(int, Seq<ProcM>, CtxM), ErrM>
    decreases toks.len() - pos, 4int,
        when 0 <= pos < toks.len()
{
    let cur = toks[pos];
    if cur.token == Token::Print {
        print_m(src, toks, pos, procs, ctx)
    } else if cur.token == Token::Var {
        var_m(src, toks, pos, procs, ctx)
    } else if cur.token == Token::Identifier {
        if !(pos + 1 < toks.len()) {
            arbitrary()
        } else if toks[pos + 1].token == Token::Assignment {
            assign_m(src, toks, pos, procs, ctx)
        } else if toks[pos + 1].token == Token::LeftParen {
            call_m(src, toks, pos, procs, ctx)
        } else {
            Err(
                err_unexpected(
                    cur,
                    seq![Token::Assignment, Token::LeftParen],
                    toks[pos + 1].token,
                ),
            )
        }
    } else if cur.token == Token::While {
        while_m(src, toks, pos, procs, ctx)
    } else if cur.token == Token::If {
        if_m(src, toks, pos, procs, ctx)
    } else if cur.token == Token::Proc {
        proc_m(src, toks, pos, procs, ctx)
    } else {
        Err(
            err_unexpected(
                cur,
                seq![Token::Print, Token::Var, Token::Identifier, Token::While],
                cur.token,
            ),
        )
    }
}

/// Parse statements until one of two stop tokens stands at the front.
pub open spec fn stmts_until_m(
    src: Seq<u8>,
    toks: Seq<TokenSpan>,
    pos: int,
    procs: Seq<ProcM>,
    ctx: CtxM,
    stop_a: Token,
    stop_b: Token,
) -> Result<(int, Seq<ProcM>, CtxM), ErrM>
    decreases toks.len() - pos, 5int,
        when 0 <= pos < toks.len()
{
    if toks[pos].token == stop_a || toks[pos].token == stop_b {
        Ok((pos, procs, ctx))
    } else {
        match statement_m(src, toks, pos, procs, ctx) {
            Err(e) => Err(e),
            Ok((p2, procs2, ctx2)) => {
                if !step_ok(pos, p2, toks.len() as int) {
                    arbitrary()
                } else {
                    stmts_until_m(src, toks, p2, procs2, ctx2, stop_a, stop_b)
                }
            },
        }
    }
}

/// The initial procedure table: the top-level program at index 1.
pub open spec fn initial_procs() -> Seq<ProcM> {
    seq![ProcM { name: main_name(), idx: 1, num_param: 0, code: Seq::empty() }]
}

/// Scan the finished table for a stub that never received a body.
pub open spec fn find_empty(procs: Seq<ProcM>, i: int) -> Option<int>
    decreases procs.len() - i,
{
    if 0 <= i && i < procs.len() {
        if procs[i].code.len() == 0 {
            Some(i)
        } else {
            find_empty(procs, i + 1)
        }
    } else {
        None
    }
}

/// The bytes of an identifier, read as characters.
pub open spec fn name_chars(name: Seq<u8>) -> Seq<char> {
    name.map(|_i: int, b: u8| b as char)
}

/// Parse a whole program into its finished procedure table.
pub open spec fn parse_spec(src: Seq<u8>) -> Result<Seq<ProcM>, ErrM> {
    let toks = lex_spec(src);
    let ctx0 = CtxM { code: Seq::empty(), syms: Seq::empty() };
    if !(toks.len() >= 1) {
        arbitrary()
    } else {
        match stmts_until_m(src, toks, 0, initial_procs(), ctx0, Token::EOF, Token::EOF) {
            Err(e) => Err(e),
            Ok((p, procs, ctx)) => {
                match match_token_m(toks, p, Token::EOF) {
                    Err(e) => Err(e),
                    Ok(_p2) => {
                        let fin = finalize_code_m(ctx.code, ctx.syms.len() as int, 0);
                        let procs2 = proc_set_code_m(procs, main_name(), fin);
                        match find_empty(procs2, 0) {
                            Some(i) => Err(
                                ErrM {
                                    start: src.len() as int,
                                    end: src.len() as int,
                                    kind: KindM::UndeclaredProc { name: procs2[i].name },
                                },
                            ),
                            None => Ok(procs2),
                        }
                    },
                }
            },
        }
    }
}

/// Repeated bytes, for the parameter lists of function types.
pub open spec fn repeat_byte(b: u8, n: int) -> Seq<u8> {
    Seq::new(n as nat, |_i: int| b)
}

/// The type-section entry of one procedure: all parameters numeric,
/// no results.
pub open spec fn functype_m(p: ProcM) -> Seq<u8> {
    seq![0x60u8] + uleb(p.num_param as nat) + repeat_byte(0x7Du8, p.num_param) + seq![0x00u8]
}

/// The type-section entries of the procedures from `i` on.
pub open spec fn functypes_m(procs: Seq<ProcM>, i: int) -> Seq<u8>
    decreases procs.len() - i,
{
    if 0 <= i && i < procs.len() {
        functype_m(procs[i]) + functypes_m(procs, i + 1)
    } else {
        Seq::empty()
    }
}

/// The function-section entries: each procedure's type index.
pub open spec fn funcidxs_m(procs: Seq<ProcM>, i: int) -> Seq<u8>
    decreases procs.len() - i,
{
    if 0 <= i && i < procs.len() {
        uleb(procs[i].idx as nat) + funcidxs_m(procs, i + 1)
    } else {
        Seq::empty()
    }
}

/// The code-section entries: each procedure's length-prefixed code.
pub open spec fn codes_m(procs: Seq<ProcM>, i: int) -> Seq<u8>
    decreases procs.len() - i,
{
    if 0 <= i && i < procs.len() {
        uleb(procs[i].code.len()) + procs[i].code + codes_m(procs, i + 1)
    } else {
        Seq::empty()
    }
}

/// A section: its id byte, the length of its content, the content.
pub open spec fn section_m(id: u8, content: Seq<u8>) -> Seq<u8> {
    seq![id] + uleb(content.len()) + content
}

/// The module header: magic bytes and version.
pub open spec fn magic_version() -> Seq<u8> {
    seq![0x00u8, 0x61u8, 0x73u8, 0x6Du8, 0x01u8, 0x00u8, 0x00u8, 0x00u8]
}

/// The import section: the host print function and the linear memory,
/// both from the `env` module.
pub open spec fn import_section() -> Seq<u8> {
    seq![
        0x02u8,
        0x1Bu8,
        0x02u8,
        0x03u8,
        'e' as u8,
        'n' as u8,
        'v' as u8,
        0x05u8,
        'p' as u8,
        'r' as u8,
        'i' as u8,
        'n' as u8,
        't' as u8,
        0x00u8,
        0x00u8,
        0x03u8,
        'e' as u8,
        'n' as u8,
        'v' as u8,
        0x06u8,
        'm' as u8,
        'e' as u8,
        'm' as u8,
        'o' as u8,
        'r' as u8,
        'y' as u8,
        0x02u8,
        0x00u8,
        0x01u8,
    ]
}

/// The export section: the entry point, function index 1, as `main`.
pub open spec fn export_section() -> Seq<u8> {
    seq![
        0x07u8,
        0x08u8,
        0x01u8,
        0x04u8,
        'm' as u8,
        'a' as u8,
        'i' as u8,
        'n' as u8,
        0x00u8,
        0x01u8,
    ]
}

/// Assemble the finished procedures into one complete module.
pub open spec fn assemble_m(procs: Seq<ProcM>) -> Seq<u8> {
    let type_content = uleb((1 + procs.len()) as nat) + seq![0x60u8, 0x01u8, 0x7Du8, 0x00u8]
        + functypes_m(procs, 0);
    let func_content = uleb(procs.len()) + funcidxs_m(procs, 0);
    let code_content = uleb(procs.len()) + codes_m(procs, 0);
    magic_version() + section_m(0x01u8, type_content) + import_section() + section_m(
        0x03u8,
        func_content,
    ) + export_section() + section_m(0x0Au8, code_content)
}

/// Compile a source text: parse it and assemble the module.
pub open spec fn compile_spec(src: Seq<u8>) -> Result<Seq<u8>, ErrM> {
    match parse_spec(src) {
        Err(e) => Err(e),
        Ok(procs) => Ok(assemble_m(procs)),
    }
}

} // verus!
