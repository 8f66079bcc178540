//! General laws of the compiler, stated and proved over the model.

use vstd::prelude::*;

use crate::lexer::{Token, TokenSpan};
use crate::model::{
    assemble_m, compile_spec, expr_m, find_empty, magic_version, op_is_and, op_is_arith,
    op_is_cmp, parse_spec, proc_find, proc_from_symbol_m, proc_set_code_m, step_ok, tok_text,
    CtxM, ErrM, KindM, ProcM, Type,
};

verus! {

/// Compiling the same source twice yields byte-identical output: the
/// compiler's contract names `compile_spec`, a function of the source
/// text alone, so any two results it allows for one source are equal.
pub proof fn lemma_compile_deterministic(src: Seq<u8>, b1: Seq<u8>, b2: Seq<u8>)
    requires
        compile_spec(src) is Ok,
        b1 == compile_spec(src)->Ok_0,
        b2 == compile_spec(src)->Ok_0,
    ensures
        b1 == b2,
{
}

/// A call with the wrong argument count against an already-declared
/// procedure fails with `ArgumentNumberMismatch`, carrying the
/// declared and the supplied count.
pub proof fn lemma_call_arity_mismatch(
    procs: Seq<ProcM>,
    name: Seq<u8>,
    n: int,
    at: TokenSpan,
    i: int,
)
    requires
        proc_find(procs, name, 0) == Some(i),
        0 <= i < procs.len(),
        procs[i].num_param != n,
    ensures
        proc_from_symbol_m(procs, name, n, at) == Err::<(Seq<ProcM>, int), ErrM>(
            ErrM {
                start: at.span.start as int,
                end: at.span.end as int,
                kind: KindM::ArgumentNumberMismatch {
                    expected: procs[i].num_param,
                    received: n,
                },
            },
        ),
{
}

/// Draining the finished table reports the first procedure that was
/// referenced but never given a body: scanning finds exactly the first
/// entry whose code is still empty.
pub proof fn lemma_undeclared_proc_found(procs: Seq<ProcM>, i: int)
    requires
        0 <= i < procs.len(),
        procs[i].code.len() == 0,
        forall|j: int| 0 <= j < i ==> (#[trigger] procs[j].code).len() > 0,
    ensures
        find_empty(procs, 0) == Some(i),
{
    lemma_find_empty_from(procs, 0, i);
}

proof fn lemma_find_empty_from(procs: Seq<ProcM>, k: int, i: int)
    requires
        0 <= k <= i < procs.len(),
        procs[i].code.len() == 0,
        forall|j: int| k <= j < i ==> (#[trigger] procs[j].code).len() > 0,
    ensures
        find_empty(procs, k) == Some(i),
    decreases i - k,
{
    if k < i {
        lemma_find_empty_from(procs, k + 1, i);
    }
}

/// A comparison or arithmetic operator applied to operands that are
/// not both numeric fails with `UnexpectedType`, naming the two
/// expected types and the two received types; the span covers the
/// whole sub-expression, from its first token through its last
/// consumed token.
pub proof fn lemma_operator_type_mismatch(
    src: Seq<u8>,
    toks: Seq<TokenSpan>,
    pos: int,
    ctx: CtxM,
    p2: int,
    ctx2: CtxM,
    ta: Type,
    p3: int,
    ctx3: CtxM,
    tb: Type,
)
    requires
        0 <= pos < toks.len(),
        toks[pos].token == Token::LeftParen,
        expr_m(src, toks, pos + 1, ctx) == Ok::<(int, CtxM, Type), ErrM>((p2, ctx2, ta)),
        step_ok(pos + 1, p2, toks.len() as int),
        toks[p2].token == Token::Operator,
        op_is_arith(tok_text(src, toks[p2])) || op_is_cmp(tok_text(src, toks[p2])),
        expr_m(src, toks, p2 + 1, ctx2) == Ok::<(int, CtxM, Type), ErrM>((p3, ctx3, tb)),
        step_ok(p2 + 1, p3, toks.len() as int),
        ta != Type::F32 || tb != Type::F32,
    ensures
        expr_m(src, toks, pos, ctx) == Err::<(int, CtxM, Type), ErrM>(
            ErrM {
                start: toks[pos].span.start as int,
                end: toks[p3 - 1].span.end as int,
                kind: KindM::UnexpectedType {
                    expected: seq![Type::F32, Type::F32],
                    received: seq![ta, tb],
                },
            },
        ),
{
    assert(!op_is_and(tok_text(src, toks[p2])));
}

/// The boolean operator applied to operands that are not both boolean
/// fails the same way, naming the boolean type twice.
pub proof fn lemma_boolean_operator_type_mismatch(
    src: Seq<u8>,
    toks: Seq<TokenSpan>,
    pos: int,
    ctx: CtxM,
    p2: int,
    ctx2: CtxM,
    ta: Type,
    p3: int,
    ctx3: CtxM,
    tb: Type,
)
    requires
        0 <= pos < toks.len(),
        toks[pos].token == Token::LeftParen,
        expr_m(src, toks, pos + 1, ctx) == Ok::<(int, CtxM, Type), ErrM>((p2, ctx2, ta)),
        step_ok(pos + 1, p2, toks.len() as int),
        toks[p2].token == Token::Operator,
        op_is_and(tok_text(src, toks[p2])),
        expr_m(src, toks, p2 + 1, ctx2) == Ok::<(int, CtxM, Type), ErrM>((p3, ctx3, tb)),
        step_ok(p2 + 1, p3, toks.len() as int),
        ta != Type::I32 || tb != Type::I32,
    ensures
        expr_m(src, toks, pos, ctx) == Err::<(int, CtxM, Type), ErrM>(
            ErrM {
                start: toks[pos].span.start as int,
                end: toks[p3 - 1].span.end as int,
                kind: KindM::UnexpectedType {
                    expected: seq![Type::I32, Type::I32],
                    received: seq![ta, tb],
                },
            },
        ),
{
    assert(!op_is_arith(tok_text(src, toks[p2])));
    assert(!op_is_cmp(tok_text(src, toks[p2])));
}


/// The procedure table's layout is stable: every entry's function
/// index is its position plus one, the host print import standing at
/// index zero and the program at index one.
pub open spec fn indices_dense(procs: Seq<ProcM>) -> bool {
    forall|j: int| 0 <= j < procs.len() ==> (#[trigger] procs[j]).idx == j + 1
}

/// Looking a callee up keeps the table layout stable: a known name
/// leaves the table unchanged, and a new name takes the next index.
pub proof fn lemma_lookup_keeps_layout(
    procs: Seq<ProcM>,
    name: Seq<u8>,
    num_param: int,
    at: crate::lexer::TokenSpan,
)
    requires
        indices_dense(procs),
        proc_from_symbol_m(procs, name, num_param, at) is Ok,
    ensures
        indices_dense(proc_from_symbol_m(procs, name, num_param, at)->Ok_0.0),
{
}

/// A found table entry lies inside the table.
proof fn lemma_proc_find_bounds(procs: Seq<ProcM>, name: Seq<u8>, k: int)
    requires
        0 <= k,
    ensures
        proc_find(procs, name, k) matches Some(i) ==> k <= i < procs.len(),
    decreases procs.len() - k,
{
    if k < procs.len() && procs[k].name != name {
        lemma_proc_find_bounds(procs, name, k + 1);
    }
}

/// Storing finished code changes no name, index or parameter count.
pub proof fn lemma_set_code_keeps_layout(procs: Seq<ProcM>, name: Seq<u8>, code: Seq<u8>)
    requires
        indices_dense(procs),
    ensures
        indices_dense(proc_set_code_m(procs, name, code)),
        proc_set_code_m(procs, name, code).len() == procs.len(),
{
    lemma_proc_find_bounds(procs, name, 0);
    let r = proc_set_code_m(procs, name, code);
    assert(r.len() == procs.len());
    assert forall|j: int| 0 <= j < r.len() implies (#[trigger] r[j]).idx == j + 1 by {
        assert(0 <= j < procs.len());
        assert(procs[j].idx == j + 1);
        match proc_find(procs, name, 0) {
            Some(i) => {
                if j != i {
                    assert(r[j] == procs[j]);
                }
            },
            None => {
                assert(r[j] == procs[j]);
            },
        }
    }
}


/// Every successful compilation yields a module that begins with the
/// WebAssembly magic bytes and version.
pub proof fn lemma_module_header(src: Seq<u8>)
    requires
        compile_spec(src) is Ok,
    ensures
        compile_spec(src)->Ok_0.len() >= 8,
        compile_spec(src)->Ok_0.subrange(0, 8) == magic_version(),
{
    let out = assemble_m(parse_spec(src)->Ok_0);
    assert(magic_version().len() == 8);
    assert(out.subrange(0, 8) =~= magic_version());
}

} // verus!
