//! The single-pass parser, type checker and code generator.
//!
//! Every routine is proved to return exactly what the corresponding
//! spec function of the model names, so `Parser::parse` is a
//! mathematical function of the source text.

use vstd::prelude::*;
use vstd::slice::slice_to_vec;
use vstd::std_specs::vec::vec_index_mut;

use crate::error::{Error, ErrorKind};
use vstd::string::StringSliceAdditionalSpecFns;
use crate::lexer::{lex, lex_spec, Span, Token, TokenSpan};
use crate::model::{
    assign_m, call_args_m, call_m, call_setpixel_tail_m, expect_type_m, expr_m, finalize_code_m,
    if_m, initial_procs, le4, main_name, match_token_m, op_local_get, op_opcode, parse_spec,
    print_m, proc_find, proc_from_symbol_m, proc_m, proc_params_m, proc_set_code_m,
    setpixel_arg_m, setpixel_name, statement_m, stmts_until_m, sym_find, sym_index_m, var_m,
    wf_toks, while_m, x_name, y_name, color_name, CtxM, ErrM, ProcM, Type,
};
use crate::number::number_bits;

verus! {

broadcast use vstd::std_specs::vec::group_vec_axioms;

/// Append one byte.
fn push_byte(code: &mut Vec<u8>, b: u8)
    ensures
        final(code)@ == old(code)@ + seq![b],
{
    code.push(b);
    proof {
        assert(code@ =~= old(code)@ + seq![b]);
    }
}

/// Whether two byte strings hold the same bytes.
fn bytes_eq(a: &[u8], b: &[u8]) -> (r: bool)
    ensures
        r == (a@ == b@),
{
    if a.len() != b.len() {
        return false;
    }
    let mut i: usize = 0;
    while i < a.len()
        invariant
            i <= a@.len(),
            a@.len() == b@.len(),
            forall|j: int| 0 <= j < i ==> a@[j] == b@[j],
        decreases a@.len() - i,
    {
        if a[i] != b[i] {
            return false;
        }
        i = i + 1;
    }
    proof {
        assert(a@ =~= b@);
    }
    true
}

/// Copy a byte range of the source.
fn bytes_of_range(src: &[u8], a: usize, b: usize) -> (v: Vec<u8>)
    requires
        a <= b <= src@.len(),
    ensures
        v@ == src@.subrange(a as int, b as int),
{
    let mut v: Vec<u8> = Vec::new();
    let mut i = a;
    while i < b
        invariant
            a <= i <= b <= src@.len(),
            v@ == src@.subrange(a as int, i as int),
        decreases b - i,
    {
        v.push(src[i]);
        i = i + 1;
        proof {
            assert(v@ =~= src@.subrange(a as int, i as int));
        }
    }
    v
}

/// A finished procedure: its function index, parameter count and
/// finished code, including the locals header and end marker.
pub struct Procedure {
    pub idx: usize,
    pub num_param: usize,
    pub code: Vec<u8>,
}

/// Whether a procedure agrees with a model entry on everything but
/// the name, which only the table keeps.
pub open spec fn proc_matches(p: Procedure, m: ProcM) -> bool {
    &&& p.idx as int == m.idx
    &&& p.num_param as int == m.num_param
    &&& p.code@ == m.code
}

/// A procedure table entry: the procedure and its name.
pub struct ProcEntry {
    pub name: Vec<u8>,
    pub procedure: Procedure,
}

impl View for ProcEntry {
    type V = ProcM;

    open spec fn view(&self) -> ProcM {
        ProcM {
            name: self.name@,
            idx: self.procedure.idx as int,
            num_param: self.procedure.num_param as int,
            code: self.procedure.code@,
        }
    }
}

/// The view of a whole procedure table.
pub open spec fn table_view(procs: Seq<ProcEntry>) -> Seq<ProcM> {
    procs.map_values(|e: ProcEntry| e@)
}

/// The code and local symbols of the procedure being compiled.
pub struct Context {
    pub code: Vec<u8>,
    pub symbols: Vec<Vec<u8>>,
}

impl View for Context {
    type V = CtxM;

    open spec fn view(&self) -> CtxM {
        CtxM { code: self.code@, syms: self.symbols@.map_values(|v: Vec<u8>| v@) }
    }
}

impl Context {
    /// The slot of `symbol`, assigned at first use in dense order.
    pub fn local_index_for_symbol(&mut self, symbol: &[u8]) -> (idx: usize)
        ensures
            ({
                let (i, syms2) = sym_index_m(old(self)@.syms, symbol@);
                &&& idx as int == i
                &&& final(self)@.syms == syms2
                &&& final(self)@.code == old(self)@.code
            }),
    {
        let ghost syms = self@.syms;
        let mut i: usize = 0;
        while i < self.symbols.len()
            invariant
                i <= self.symbols@.len(),
                self@.syms == syms,
                self@.code == old(self)@.code,
                self.symbols == old(self).symbols,
                self.code == old(self).code,
                sym_find(syms, symbol@, 0) == sym_find(syms, symbol@, i as int),
            decreases self.symbols@.len() - i,
        {
            if bytes_eq(self.symbols[i].as_slice(), symbol) {
                proof {
                    assert(syms[i as int] == self.symbols@[i as int]@);
                    assert(sym_find(syms, symbol@, i as int) == Some(i as int));
                }
                return i;
            }
            proof {
                assert(syms[i as int] == self.symbols@[i as int]@);
            }
            i = i + 1;
        }
        proof {
            assert(sym_find(syms, symbol@, i as int) is None);
        }
        let n = self.symbols.len();
        self.symbols.push(slice_to_vec(symbol));
        proof {
            assert(self@.syms =~= syms.push(symbol@));
        }
        n
    }
}

/// The parser: the source, its token stream, the cursor, and the
/// procedure table grown while parsing.
pub struct Parser<'s> {
    source: &'s [u8],
    toks: Vec<TokenSpan>,
    pos: usize,
    procs: Vec<ProcEntry>,
}

impl<'s> Parser<'s> {
    /// The source bytes.
    pub closed spec fn src(&self) -> Seq<u8> {
        self.source@
    }

    /// The token stream.
    pub closed spec fn tv(&self) -> Seq<TokenSpan> {
        self.toks@
    }

    /// The model view of the procedure table.
    pub closed spec fn pv(&self) -> Seq<ProcM> {
        table_view(self.procs@)
    }

    /// The parser's invariant: a well-formed token stream with the
    /// cursor inside it.
    pub closed spec fn inv(&self) -> bool {
        &&& wf_toks(self.src(), self.tv())
        &&& self.pos < self.tv().len()
        &&& self.procs@.len() <= self.pos + 1
        &&& self.procs@.len() <= self.tv().len()
    }

    /// The stream fields never change.
    pub closed spec fn same_stream(&self, other: &Parser<'s>) -> bool {
        &&& self.src() == other.src()
        &&& self.tv() == other.tv()
    }

    /// Build an error at a span, carrying a copy of the source.
    fn err_at(&self, span: Span, kind: ErrorKind) -> (e: Error)
        ensures
            e@ == (ErrM { start: span.start as int, end: span.end as int, kind: kind@ }),
            e.source@ == self.src(),
    {
        Error { span, kind, source: slice_to_vec(self.source) }
    }

    /// Demand one token and step past it.
    fn match_token(&mut self, token: Token) -> (r: Result<(), Error>)
        requires
            old(self).inv(),
        ensures
            old(self).same_stream(final(self)),
            final(self).procs == old(self).procs,
            match r {
                Ok(()) => {
                    &&& match_token_m(old(self).tv(), old(self).pos as int, token) == Ok::<int, ErrM>(
                        final(self).pos as int,
                    )
                    &&& final(self).pos == old(self).pos + 1
                    &&& old(self).tv()[old(self).pos as int].token == token
                },
                Err(e) => {
                    &&& match_token_m(old(self).tv(), old(self).pos as int, token) == Err::<
                        int,
                        ErrM,
                    >(e@)
                    &&& e.source@ == old(self).src()
                    &&& *final(self) == *old(self)
                },
            },
            r is Ok && token != Token::EOF ==> final(self).inv(),
    {
        let n = self.toks.len();
        let cur = self.toks[self.pos];
        if cur.token == token {
            self.pos = self.pos + 1;
            proof {
                if token != Token::EOF {
                    assert(old(self).pos < old(self).tv().len() - 1);
                }
            }
            Ok(())
        } else {
            let mut expected: Vec<Token> = Vec::new();
            expected.push(token);
            proof {
                assert(expected@ =~= seq![token]);
            }
            Err(
                self.err_at(
                    cur.span,
                    ErrorKind::UnexpectedToken { expected, received: cur.token },
                ),
            )
        }
    }

    /// Demand that a sub-expression had the expected type.
    fn expect_type(&self, rec: Type, expec: Type, start: usize) -> (r: Result<(), Error>)
        requires
            self.inv(),
            1 <= self.pos,
        ensures
            match r {
                Ok(()) => {
                    &&& expect_type_m(self.tv(), self.pos as int, rec, expec, start as int)
                        == Ok::<(), ErrM>(())
                    &&& rec == expec
                },
                Err(e) => {
                    &&& expect_type_m(self.tv(), self.pos as int, rec, expec, start as int)
                        == Err::<(), ErrM>(e@)
                    &&& e.source@ == self.src()
                },
            },
    {
        if rec != expec {
            let mut ev: Vec<Type> = Vec::new();
            ev.push(expec);
            let mut rv: Vec<Type> = Vec::new();
            rv.push(rec);
            proof {
                assert(ev@ =~= seq![expec]);
                assert(rv@ =~= seq![rec]);
            }
            let end = self.toks[self.pos - 1].span.end;
            Err(
                self.err_at(
                    Span { start, end },
                    ErrorKind::UnexpectedType { expected: ev, received: rv },
                ),
            )
        } else {
            Ok(())
        }
    }

    /// Find the procedure table entry holding `name`.
    fn find_proc(&self, name: &[u8]) -> (r: Option<usize>)
        ensures
            match r {
                Some(i) => proc_find(self.pv(), name@, 0) == Some(i as int) && i
                    < self.procs@.len(),
                None => proc_find(self.pv(), name@, 0) is None,
            },
    {
        let ghost pv = self.pv();
        let mut i: usize = 0;
        while i < self.procs.len()
            invariant
                i <= self.procs@.len(),
                pv == self.pv(),
                proc_find(pv, name@, 0) == proc_find(pv, name@, i as int),
            decreases self.procs@.len() - i,
        {
            if bytes_eq(self.procs[i].name.as_slice(), name) {
                proof {
                    assert(pv[i as int].name == self.procs@[i as int].name@);
                }
                return Some(i);
            }
            proof {
                assert(pv[i as int].name == self.procs@[i as int].name@);
            }
            i = i + 1;
        }
        None
    }

    /// Look a callee up by name, creating an empty stub at the next
    /// unused function index when the name is new, and checking the
    /// argument count when it is not.  Returns the function index.
    fn procedure_from_symbol(&mut self, symbol: &[u8], num_param: usize) -> (r: Result<
        usize,
        Error,
    >)
        requires
            old(self).inv(),
            old(self).procs@.len() < old(self).tv().len(),
        ensures
            old(self).same_stream(final(self)),
            final(self).pos == old(self).pos,
            final(self).procs@.len() <= old(self).procs@.len() + 1,
            match r {
                Ok(idx) => proc_from_symbol_m(
                    old(self).pv(),
                    symbol@,
                    num_param as int,
                    old(self).tv()[old(self).pos as int],
                ) == Ok::<(Seq<ProcM>, int), ErrM>((final(self).pv(), idx as int)),
                Err(e) => {
                    &&& proc_from_symbol_m(
                        old(self).pv(),
                        symbol@,
                        num_param as int,
                        old(self).tv()[old(self).pos as int],
                    ) == Err::<(Seq<ProcM>, int), ErrM>(e@)
                    &&& e.source@ == old(self).src()
                    &&& final(self).procs == old(self).procs
                },
            },
    {
        let at = self.toks[self.pos];
        match self.find_proc(symbol) {
            Some(i) => {
                let p = &self.procs[i].procedure;
                if p.num_param != num_param {
                    Err(
                        self.err_at(
                            at.span,
                            ErrorKind::ArgumentNumberMismatch {
                                expected: p.num_param,
                                received: num_param,
                            },
                        ),
                    )
                } else {
                    proof {
                        assert(self.pv()[i as int] == self.procs@[i as int]@);
                    }
                    Ok(p.idx)
                }
            },
            None => {
                let tl = self.toks.len();
                let idx = self.procs.len() + 1;
                let code: Vec<u8> = Vec::new();
                proof {
                    assert(code@ =~= Seq::<u8>::empty());
                }
                self.procs.push(
                    ProcEntry {
                        name: slice_to_vec(symbol),
                        procedure: Procedure { idx, num_param, code },
                    },
                );
                proof {
                    assert(self.pv() =~= old(self).pv().push(
                        ProcM {
                            name: symbol@,
                            idx: old(self).pv().len() as int + 1,
                            num_param: num_param as int,
                            code: Seq::empty(),
                        },
                    ));
                }
                Ok(idx)
            },
        }
    }

    /// Parse one expression, emit its code, and give its type.
    fn expression(&mut self, ctx: &mut Context) -> (r: Result<Type, Error>)
        requires
            old(self).inv(),
        ensures
            old(self).same_stream(final(self)),
            final(self).procs == old(self).procs,
            match r {
                Ok(t) => {
                    &&& expr_m(old(self).src(), old(self).tv(), old(self).pos as int, old(ctx)@)
                        == Ok::<(int, CtxM, Type), ErrM>((final(self).pos as int, final(ctx)@, t))
                    &&& old(self).pos < final(self).pos
                    &&& final(self).inv()
                },
                Err(e) => {
                    &&& expr_m(old(self).src(), old(self).tv(), old(self).pos as int, old(ctx)@)
                        == Err::<(int, CtxM, Type), ErrM>(e@)
                    &&& e.source@ == old(self).src()
                },
            },
        decreases old(self).tv().len() - old(self).pos,
    {
        let cur = self.toks[self.pos];
        if cur.token == Token::Number {
            let text = bytes_of_range(self.source, cur.span.start, cur.span.end);
            match number_bits(text.as_slice()) {
                Some(bits) => {
                    match self.match_token(Token::Number) {
                        Ok(()) => {},
                        Err(e) => {
                            return Err(e);
                        },
                    }
                    push_byte(&mut ctx.code, 0x43);
                    push_byte(&mut ctx.code, (bits % 256) as u8);
                    push_byte(&mut ctx.code, ((bits / 256) % 256) as u8);
                    push_byte(&mut ctx.code, ((bits / 65536) % 256) as u8);
                    push_byte(&mut ctx.code, ((bits / 16777216) % 256) as u8);
                    proof {
                        assert(ctx@.code =~= old(ctx)@.code + seq![0x43u8] + le4(bits));
                    }
                    Ok(Type::F32)
                },
                None => Err(self.err_at(cur.span, ErrorKind::ParseFloatError)),
            }
        } else if cur.token == Token::Identifier {
            match self.match_token(Token::Identifier) {
                Ok(()) => {},
                Err(e) => {
                    return Err(e);
                },
            }
            let text = bytes_of_range(self.source, cur.span.start, cur.span.end);
            let idx = ctx.local_index_for_symbol(text.as_slice());
            push_byte(&mut ctx.code, 0x20);
            leb_u64(&mut ctx.code, idx as u64);
            proof {
                assert(ctx@.code =~= old(ctx)@.code + op_local_get(idx as int));
            }
            Ok(Type::F32)
        } else if cur.token == Token::LeftParen {
            match self.match_token(Token::LeftParen) {
                Ok(()) => {},
                Err(e) => {
                    return Err(e);
                },
            }
            let ta = match self.expression(ctx) {
                Ok(t) => t,
                Err(e) => {
                    return Err(e);
                },
            };
            let op_tok = self.toks[self.pos];
            if op_tok.token != Token::Operator {
                let mut expected: Vec<Token> = Vec::new();
                expected.push(Token::Operator);
                proof {
                    assert(expected@ =~= seq![Token::Operator]);
                }
                return Err(
                    self.err_at(
                        op_tok.span,
                        ErrorKind::UnexpectedToken { expected, received: op_tok.token },
                    ),
                );
            }
            let op = bytes_of_range(self.source, op_tok.span.start, op_tok.span.end);
            match self.match_token(Token::Operator) {
                Ok(()) => {},
                Err(e) => {
                    return Err(e);
                },
            }
            let tb = match self.expression(ctx) {
                Ok(t) => t,
                Err(e) => {
                    return Err(e);
                },
            };
            let is_arith = vec_is1(&op, '+' as u8) || vec_is1(&op, '-' as u8) || vec_is1(
                &op,
                '*' as u8,
            ) || vec_is1(&op, '/' as u8);
            let is_cmp = vec_is2(&op, '=' as u8, '=' as u8) || vec_is1(&op, '<' as u8)
                || vec_is1(&op, '>' as u8);
            let is_and = vec_is2(&op, '&' as u8, '&' as u8);
            if is_arith || is_cmp {
                if ta != Type::F32 || tb != Type::F32 {
                    let mut ev: Vec<Type> = Vec::new();
                    ev.push(Type::F32);
                    ev.push(Type::F32);
                    let mut rv: Vec<Type> = Vec::new();
                    rv.push(ta);
                    rv.push(tb);
                    proof {
                        assert(ev@ =~= seq![Type::F32, Type::F32]);
                        assert(rv@ =~= seq![ta, tb]);
                    }
                    let end = self.toks[self.pos - 1].span.end;
                    return Err(
                        self.err_at(
                            Span { start: cur.span.start, end },
                            ErrorKind::UnexpectedType { expected: ev, received: rv },
                        ),
                    );
                }
                match self.match_token(Token::RightParen) {
                    Ok(()) => {},
                    Err(e) => {
                        return Err(e);
                    },
                }
                let opcode: u8 = if is_arith {
                    if vec_is1(&op, '+' as u8) {
                        0x92
                    } else if vec_is1(&op, '-' as u8) {
                        0x93
                    } else if vec_is1(&op, '*' as u8) {
                        0x94
                    } else {
                        0x95
                    }
                } else {
                    if vec_is2(&op, '=' as u8, '=' as u8) {
                        0x5B
                    } else if vec_is1(&op, '<' as u8) {
                        0x5D
                    } else {
                        0x5E
                    }
                };
                push_byte(&mut ctx.code, opcode);
                proof {
                    assert(opcode == op_opcode(op@));
                }
                Ok(
                    if is_arith {
                        Type::F32
                    } else {
                        Type::I32
                    },
                )
            } else if is_and {
                if ta != Type::I32 || tb != Type::I32 {
                    let mut ev: Vec<Type> = Vec::new();
                    ev.push(Type::I32);
                    ev.push(Type::I32);
                    let mut rv: Vec<Type> = Vec::new();
                    rv.push(ta);
                    rv.push(tb);
                    proof {
                        assert(ev@ =~= seq![Type::I32, Type::I32]);
                        assert(rv@ =~= seq![ta, tb]);
                    }
                    let end = self.toks[self.pos - 1].span.end;
                    return Err(
                        self.err_at(
                            Span { start: cur.span.start, end },
                            ErrorKind::UnexpectedType { expected: ev, received: rv },
                        ),
                    );
                }
                match self.match_token(Token::RightParen) {
                    Ok(()) => {},
                    Err(e) => {
                        return Err(e);
                    },
                }
                push_byte(&mut ctx.code, 0x71);
                Ok(Type::I32)
            } else {
                let mut expected: Vec<Token> = Vec::new();
                expected.push(Token::Operator);
                proof {
                    assert(expected@ =~= seq![Token::Operator]);
                }
                Err(
                    self.err_at(
                        op_tok.span,
                        ErrorKind::UnexpectedToken { expected, received: op_tok.token },
                    ),
                )
            }
        } else {
            let mut expected: Vec<Token> = Vec::new();
            expected.push(Token::Number);
            expected.push(Token::LeftParen);
            proof {
                assert(expected@ =~= seq![Token::Number, Token::LeftParen]);
            }
            Err(
                self.err_at(
                    cur.span,
                    ErrorKind::UnexpectedToken { expected, received: cur.token },
                ),
            )
        }
    }

    /// Parse `print <expression>` and emit the host print call.
    fn print_statement(&mut self, ctx: &mut Context) -> (r: Result<(), Error>)
        requires
            old(self).inv(),
            old(self).pos < old(self).tv().len() - 1,
        ensures
            old(self).same_stream(final(self)),
            match r {
                Ok(()) => {
                    &&& print_m(
                        old(self).src(),
                        old(self).tv(),
                        old(self).pos as int,
                        old(self).pv(),
                        old(ctx)@,
                    ) == Ok::<(int, Seq<ProcM>, CtxM), ErrM>(
                        (final(self).pos as int, final(self).pv(), final(ctx)@),
                    )
                    &&& old(self).pos < final(self).pos
                    &&& final(self).inv()
                },
                Err(e) => {
                    &&& print_m(
                        old(self).src(),
                        old(self).tv(),
                        old(self).pos as int,
                        old(self).pv(),
                        old(ctx)@,
                    ) == Err::<(int, Seq<ProcM>, CtxM), ErrM>(e@)
                    &&& e.source@ == old(self).src()
                },
            },
    {
        match self.match_token(Token::Print) {
            Ok(()) => {},
            Err(e) => {
                return Err(e);
            },
        }
        let start = self.toks[self.pos].span.start;
        let t = match self.expression(ctx) {
            Ok(t) => t,
            Err(e) => {
                return Err(e);
            },
        };
        match self.expect_type(t, Type::F32, start) {
            Ok(()) => {},
            Err(e) => {
                return Err(e);
            },
        }
        let ghost cpre = ctx@;
        push_byte(&mut ctx.code, 0x10);
        leb_u64(&mut ctx.code, 0);
        proof {
            assert(ctx@.code =~= cpre.code + crate::model::op_call(0));
        }
        Ok(())
    }

    /// Parse `<ident> = <expression>` and emit a store to its slot.
    fn variable_assignment(&mut self, ctx: &mut Context) -> (r: Result<(), Error>)
        requires
            old(self).inv(),
        ensures
            old(self).same_stream(final(self)),
            match r {
                Ok(()) => {
                    &&& assign_m(
                        old(self).src(),
                        old(self).tv(),
                        old(self).pos as int,
                        old(self).pv(),
                        old(ctx)@,
                    ) == Ok::<(int, Seq<ProcM>, CtxM), ErrM>(
                        (final(self).pos as int, final(self).pv(), final(ctx)@),
                    )
                    &&& old(self).pos < final(self).pos
                    &&& final(self).inv()
                },
                Err(e) => {
                    &&& assign_m(
                        old(self).src(),
                        old(self).tv(),
                        old(self).pos as int,
                        old(self).pv(),
                        old(ctx)@,
                    ) == Err::<(int, Seq<ProcM>, CtxM), ErrM>(e@)
                    &&& e.source@ == old(self).src()
                },
            },
    {
        let ident = self.toks[self.pos];
        match self.match_token(Token::Identifier) {
            Ok(()) => {},
            Err(e) => {
                return Err(e);
            },
        }
        let text = bytes_of_range(self.source, ident.span.start, ident.span.end);
        let idx = ctx.local_index_for_symbol(text.as_slice());
        match self.match_token(Token::Assignment) {
            Ok(()) => {},
            Err(e) => {
                return Err(e);
            },
        }
        let start = self.toks[self.pos].span.start;
        let t = match self.expression(ctx) {
            Ok(t) => t,
            Err(e) => {
                return Err(e);
            },
        };
        match self.expect_type(t, Type::F32, start) {
            Ok(()) => {},
            Err(e) => {
                return Err(e);
            },
        }
        let ghost cpre = ctx@;
        push_byte(&mut ctx.code, 0x21);
        leb_u64(&mut ctx.code, idx as u64);
        proof {
            assert(ctx@.code =~= cpre.code + crate::model::op_local_set(idx as int));
        }
        Ok(())
    }

    /// Parse `var <ident> = <expression>`: the keyword adds no meaning.
    fn variable_declaration(&mut self, ctx: &mut Context) -> (r: Result<(), Error>)
        requires
            old(self).inv(),
            old(self).pos < old(self).tv().len() - 1,
        ensures
            old(self).same_stream(final(self)),
            match r {
                Ok(()) => {
                    &&& var_m(
                        old(self).src(),
                        old(self).tv(),
                        old(self).pos as int,
                        old(self).pv(),
                        old(ctx)@,
                    ) == Ok::<(int, Seq<ProcM>, CtxM), ErrM>(
                        (final(self).pos as int, final(self).pv(), final(ctx)@),
                    )
                    &&& old(self).pos < final(self).pos
                    &&& final(self).inv()
                },
                Err(e) => {
                    &&& var_m(
                        old(self).src(),
                        old(self).tv(),
                        old(self).pos as int,
                        old(self).pv(),
                        old(ctx)@,
                    ) == Err::<(int, Seq<ProcM>, CtxM), ErrM>(e@)
                    &&& e.source@ == old(self).src()
                },
            },
    {
        match self.match_token(Token::Var) {
            Ok(()) => {},
            Err(e) => {
                return Err(e);
            },
        }
        self.variable_assignment(ctx)
    }

    /// Parse one operand of the pixel-store intrinsic and store it in
    /// the named caller-visible local.
    fn setpixel_arg(&mut self, ctx: &mut Context, name: &[u8]) -> (r: Result<usize, Error>)
        requires
            old(self).inv(),
        ensures
            old(self).same_stream(final(self)),
            final(self).procs == old(self).procs,
            match r {
                Ok(idx) => {
                    &&& setpixel_arg_m(
                        old(self).src(),
                        old(self).tv(),
                        old(self).pos as int,
                        old(ctx)@,
                        name@,
                    ) == Ok::<(int, CtxM, int), ErrM>(
                        (final(self).pos as int, final(ctx)@, idx as int),
                    )
                    &&& old(self).pos < final(self).pos
                    &&& final(self).inv()
                },
                Err(e) => {
                    &&& setpixel_arg_m(
                        old(self).src(),
                        old(self).tv(),
                        old(self).pos as int,
                        old(ctx)@,
                        name@,
                    ) == Err::<(int, CtxM, int), ErrM>(e@)
                    &&& e.source@ == old(self).src()
                },
            },
    {
        let start = self.toks[self.pos].span.start;
        let t = match self.expression(ctx) {
            Ok(t) => t,
            Err(e) => {
                return Err(e);
            },
        };
        match self.expect_type(t, Type::F32, start) {
            Ok(()) => {},
            Err(e) => {
                return Err(e);
            },
        }
        let idx = ctx.local_index_for_symbol(name);
        let ghost cpre = ctx@;
        push_byte(&mut ctx.code, 0x21);
        leb_u64(&mut ctx.code, idx as u64);
        proof {
            assert(ctx@.code =~= cpre.code + crate::model::op_local_set(idx as int));
        }
        Ok(idx)
    }

    /// Parse a call statement: the pixel-store intrinsic, or a user
    /// procedure call that may create a forward stub.
    #[verifier::rlimit(100)]
    #[verifier::spinoff_prover]
    #[verifier::loop_isolation(false)]
    fn proc_call(&mut self, ctx: &mut Context) -> (r: Result<(), Error>)
        requires
            old(self).inv(),
            old(self).pos < old(self).tv().len() - 1,
        ensures
            old(self).same_stream(final(self)),
            match r {
                Ok(()) => {
                    &&& call_m(
                        old(self).src(),
                        old(self).tv(),
                        old(self).pos as int,
                        old(self).pv(),
                        old(ctx)@,
                    ) == Ok::<(int, Seq<ProcM>, CtxM), ErrM>(
                        (final(self).pos as int, final(self).pv(), final(ctx)@),
                    )
                    &&& old(self).pos < final(self).pos
                    &&& final(self).pv().len() <= old(self).pv().len() + 1
                    &&& final(self).inv()
                },
                Err(e) => {
                    &&& call_m(
                        old(self).src(),
                        old(self).tv(),
                        old(self).pos as int,
                        old(self).pv(),
                        old(ctx)@,
                    ) == Err::<(int, Seq<ProcM>, CtxM), ErrM>(e@)
                    &&& e.source@ == old(self).src()
                },
            },
        decreases old(self).tv().len() - old(self).pos, 0int,
    {
        let symbol = self.toks[self.pos];
        match self.match_token(Token::Identifier) {
            Ok(()) => {},
            Err(e) => {
                return Err(e);
            },
        }
        let name = bytes_of_range(self.source, symbol.span.start, symbol.span.end);
        let sp = setpixel_vec();
        if bytes_eq(name.as_slice(), sp.as_slice()) {
            match self.match_token(Token::LeftParen) {
                Ok(()) => {},
                Err(e) => {
                    return Err(e);
                },
            }
            let xn = x_vec();
            let x_idx = match self.setpixel_arg(ctx, xn.as_slice()) {
                Ok(i) => i,
                Err(e) => {
                    return Err(e);
                },
            };
            match self.match_token(Token::Comma) {
                Ok(()) => {},
                Err(e) => {
                    return Err(e);
                },
            }
            let yn = y_vec();
            let y_idx = match self.setpixel_arg(ctx, yn.as_slice()) {
                Ok(i) => i,
                Err(e) => {
                    return Err(e);
                },
            };
            match self.match_token(Token::Comma) {
                Ok(()) => {},
                Err(e) => {
                    return Err(e);
                },
            }
            let cn = color_vec();
            let color_idx = match self.setpixel_arg(ctx, cn.as_slice()) {
                Ok(i) => i,
                Err(e) => {
                    return Err(e);
                },
            };
            let ghost cpre = ctx@;
            push_byte(&mut ctx.code, 0x20);
            leb_u64(&mut ctx.code, y_idx as u64);
            push_byte(&mut ctx.code, 0x43);
            push_byte(&mut ctx.code, 0x00);
            push_byte(&mut ctx.code, 0x00);
            push_byte(&mut ctx.code, 0xC8);
            push_byte(&mut ctx.code, 0x42);
            push_byte(&mut ctx.code, 0x94);
            push_byte(&mut ctx.code, 0x20);
            leb_u64(&mut ctx.code, x_idx as u64);
            push_byte(&mut ctx.code, 0x92);
            push_byte(&mut ctx.code, 0xA8);
            push_byte(&mut ctx.code, 0x20);
            leb_u64(&mut ctx.code, color_idx as u64);
            push_byte(&mut ctx.code, 0xA8);
            push_byte(&mut ctx.code, 0x3A);
            push_byte(&mut ctx.code, 0x00);
            push_byte(&mut ctx.code, 0x00);
            proof {
                assert(ctx@.code =~= cpre.code + crate::model::setpixel_tail(
                    x_idx as int,
                    y_idx as int,
                    color_idx as int,
                ));
            }
            match self.match_token(Token::RightParen) {
                Ok(()) => {},
                Err(e) => {
                    return Err(e);
                },
            }
            Ok(())
        } else {
            match self.match_token(Token::LeftParen) {
                Ok(()) => {},
                Err(e) => {
                    return Err(e);
                },
            }
            let mut n: usize = 0;
            let ghost args_pos = self.pos as int;
            let ghost args_ctx = ctx@;
            while self.toks[self.pos].token != Token::RightParen
                invariant
                    self.inv(),
                    old(self).same_stream(self),
                    self.procs == old(self).procs,
                    n <= self.pos,
                    args_pos <= self.pos as int,
                    call_args_m(self.src(), self.tv(), args_pos, args_ctx, 0) == call_args_m(
                        self.src(),
                        self.tv(),
                        self.pos as int,
                        ctx@,
                        n as int,
                    ),
                decreases self.tv().len() - self.pos,
            {
                let start = self.toks[self.pos].span.start;
                let t = match self.expression(ctx) {
                    Ok(t) => t,
                    Err(e) => {
                        return Err(e);
                    },
                };
                match self.expect_type(t, Type::F32, start) {
                    Ok(()) => {},
                    Err(e) => {
                        return Err(e);
                    },
                }
                n = n + 1;
                if self.toks[self.pos].token != Token::RightParen {
                    match self.match_token(Token::Comma) {
                        Ok(()) => {},
                        Err(e) => {
                            return Err(e);
                        },
                    }
                }
            }
            proof {
                assert(call_args_m(self.src(), self.tv(), args_pos, args_ctx, 0) == Ok::<
                    (int, CtxM, int),
                    ErrM,
                >((self.pos as int, ctx@, n as int)));
            }
            match self.match_token(Token::RightParen) {
                Ok(()) => {},
                Err(e) => {
                    return Err(e);
                },
            }
            let idx = match self.procedure_from_symbol(name.as_slice(), n) {
                Ok(i) => i,
                Err(e) => {
                    return Err(e);
                },
            };
            let ghost cpre = ctx@;
            push_byte(&mut ctx.code, 0x10);
            leb_u64(&mut ctx.code, idx as u64);
            proof {
                assert(ctx@.code =~= cpre.code + crate::model::op_call(idx as int));
            }
            Ok(())
        }
    }

    /// Parse `while <expression> <statement>* endwhile`.
    #[verifier::rlimit(100)]
    fn while_statement(&mut self, ctx: &mut Context) -> (r: Result<(), Error>)
        requires
            old(self).inv(),
            old(self).pos < old(self).tv().len() - 1,
        ensures
            old(self).same_stream(final(self)),
            match r {
                Ok(()) => {
                    &&& while_m(
                        old(self).src(),
                        old(self).tv(),
                        old(self).pos as int,
                        old(self).pv(),
                        old(ctx)@,
                    ) == Ok::<(int, Seq<ProcM>, CtxM), ErrM>(
                        (final(self).pos as int, final(self).pv(), final(ctx)@),
                    )
                    &&& old(self).pos < final(self).pos
                    &&& final(self).inv()
                },
                Err(e) => {
                    &&& while_m(
                        old(self).src(),
                        old(self).tv(),
                        old(self).pos as int,
                        old(self).pv(),
                        old(ctx)@,
                    ) == Err::<(int, Seq<ProcM>, CtxM), ErrM>(e@)
                    &&& e.source@ == old(self).src()
                },
            },
        decreases old(self).tv().len() - old(self).pos, 0int,
    {
        match self.match_token(Token::While) {
            Ok(()) => {},
            Err(e) => {
                return Err(e);
            },
        }
        let ghost c0 = ctx@;
        push_byte(&mut ctx.code, 0x02);
        push_byte(&mut ctx.code, 0x40);
        push_byte(&mut ctx.code, 0x03);
        push_byte(&mut ctx.code, 0x40);
        proof {
            assert(ctx@.code =~= c0.code + seq![0x02u8, 0x40u8, 0x03u8, 0x40u8]);
        }
        let start = self.toks[self.pos].span.start;
        let t = match self.expression(ctx) {
            Ok(t) => t,
            Err(e) => {
                return Err(e);
            },
        };
        match self.expect_type(t, Type::I32, start) {
            Ok(()) => {},
            Err(e) => {
                return Err(e);
            },
        }
        let ghost c2 = ctx@;
        push_byte(&mut ctx.code, 0x45);
        push_byte(&mut ctx.code, 0x0D);
        leb_u64(&mut ctx.code, 1);
        proof {
            assert(ctx@.code =~= c2.code + seq![0x45u8] + seq![0x0Du8] + crate::emit::uleb(1));
        }
        match self.statement_seq(ctx, Token::EndWhile, Token::EndWhile) {
            Ok(()) => {},
            Err(e) => {
                return Err(e);
            },
        }
        match self.match_token(Token::EndWhile) {
            Ok(()) => {},
            Err(e) => {
                return Err(e);
            },
        }
        let ghost c4 = ctx@;
        push_byte(&mut ctx.code, 0x0C);
        leb_u64(&mut ctx.code, 0);
        push_byte(&mut ctx.code, 0x0B);
        push_byte(&mut ctx.code, 0x0B);
        proof {
            assert(ctx@.code =~= c4.code + seq![0x0Cu8] + crate::emit::uleb(0) + seq![
                0x0Bu8,
                0x0Bu8,
            ]);
        }
        Ok(())
    }

    /// Parse `if <expression> <statement>* (else <statement>*)? endif`.
    #[verifier::rlimit(100)]
    fn if_statement(&mut self, ctx: &mut Context) -> (r: Result<(), Error>)
        requires
            old(self).inv(),
            old(self).pos < old(self).tv().len() - 1,
        ensures
            old(self).same_stream(final(self)),
            match r {
                Ok(()) => {
                    &&& if_m(
                        old(self).src(),
                        old(self).tv(),
                        old(self).pos as int,
                        old(self).pv(),
                        old(ctx)@,
                    ) == Ok::<(int, Seq<ProcM>, CtxM), ErrM>(
                        (final(self).pos as int, final(self).pv(), final(ctx)@),
                    )
                    &&& old(self).pos < final(self).pos
                    &&& final(self).inv()
                },
                Err(e) => {
                    &&& if_m(
                        old(self).src(),
                        old(self).tv(),
                        old(self).pos as int,
                        old(self).pv(),
                        old(ctx)@,
                    ) == Err::<(int, Seq<ProcM>, CtxM), ErrM>(e@)
                    &&& e.source@ == old(self).src()
                },
            },
        decreases old(self).tv().len() - old(self).pos, 0int,
    {
        match self.match_token(Token::If) {
            Ok(()) => {},
            Err(e) => {
                return Err(e);
            },
        }
        let start = self.toks[self.pos].span.start;
        let t = match self.expression(ctx) {
            Ok(t) => t,
            Err(e) => {
                return Err(e);
            },
        };
        match self.expect_type(t, Type::I32, start) {
            Ok(()) => {},
            Err(e) => {
                return Err(e);
            },
        }
        let ghost c2 = ctx@;
        push_byte(&mut ctx.code, 0x04);
        push_byte(&mut ctx.code, 0x40);
        proof {
            assert(ctx@.code =~= c2.code + seq![0x04u8, 0x40u8]);
        }
        match self.statement_seq(ctx, Token::EndIf, Token::Else) {
            Ok(()) => {},
            Err(e) => {
                return Err(e);
            },
        }
        if self.toks[self.pos].token == Token::Else {
            match self.match_token(Token::Else) {
                Ok(()) => {},
                Err(e) => {
                    return Err(e);
                },
            }
            let ghost c4 = ctx@;
            push_byte(&mut ctx.code, 0x05);
            proof {
                assert(ctx@.code =~= c4.code + seq![0x05u8]);
            }
            match self.statement_seq(ctx, Token::EndIf, Token::EndIf) {
                Ok(()) => {},
                Err(e) => {
                    return Err(e);
                },
            }
        }
        match self.match_token(Token::EndIf) {
            Ok(()) => {},
            Err(e) => {
                return Err(e);
            },
        }
        let ghost c6 = ctx@;
        push_byte(&mut ctx.code, 0x0B);
        proof {
            assert(ctx@.code =~= c6.code + seq![0x0Bu8]);
        }
        Ok(())
    }

    /// Store finished code into the first entry named `name`.
    fn set_proc_code(&mut self, name: &[u8], code: Vec<u8>)
        ensures
            old(self).same_stream(final(self)),
            final(self).pos == old(self).pos,
            final(self).procs@.len() == old(self).procs@.len(),
            final(self).pv() == proc_set_code_m(old(self).pv(), name@, code@),
    {
        let ghost pv0 = self.pv();
        match self.find_proc(name) {
            Some(i) => {
                let entry = vec_index_mut(&mut self.procs, i);
                entry.procedure.code = code;
                proof {
                    assert(self.pv() =~= proc_set_code_m(pv0, name@, code@));
                }
            },
            None => {},
        }
    }

    /// Parse `proc <ident> ( <params> ) <statement>* endproc`.
    #[verifier::rlimit(100)]
    #[verifier::loop_isolation(false)]
    fn proc_statement(&mut self, ctx: &mut Context) -> (r: Result<(), Error>)
        requires
            old(self).inv(),
            old(self).pos < old(self).tv().len() - 1,
        ensures
            old(self).same_stream(final(self)),
            match r {
                Ok(()) => {
                    &&& proc_m(
                        old(self).src(),
                        old(self).tv(),
                        old(self).pos as int,
                        old(self).pv(),
                        old(ctx)@,
                    ) == Ok::<(int, Seq<ProcM>, CtxM), ErrM>(
                        (final(self).pos as int, final(self).pv(), final(ctx)@),
                    )
                    &&& old(self).pos < final(self).pos
                    &&& final(self).inv()
                },
                Err(e) => {
                    &&& proc_m(
                        old(self).src(),
                        old(self).tv(),
                        old(self).pos as int,
                        old(self).pv(),
                        old(ctx)@,
                    ) == Err::<(int, Seq<ProcM>, CtxM), ErrM>(e@)
                    &&& e.source@ == old(self).src()
                },
            },
        decreases old(self).tv().len() - old(self).pos, 0int,
    {
        match self.match_token(Token::Proc) {
            Ok(()) => {},
            Err(e) => {
                return Err(e);
            },
        }
        let name_tok = self.toks[self.pos];
        match self.match_token(Token::Identifier) {
            Ok(()) => {},
            Err(e) => {
                return Err(e);
            },
        }
        let name = bytes_of_range(self.source, name_tok.span.start, name_tok.span.end);
        match self.match_token(Token::LeftParen) {
            Ok(()) => {},
            Err(e) => {
                return Err(e);
            },
        }
        let mut args: Vec<Vec<u8>> = Vec::new();
        let ghost params_pos = self.pos as int;
        proof {
            assert(args@.map_values(|v: Vec<u8>| v@) =~= Seq::<Seq<u8>>::empty());
        }
        while self.toks[self.pos].token != Token::RightParen
            invariant
                self.inv(),
                old(self).same_stream(self),
                self.procs == old(self).procs,
                params_pos <= self.pos as int,
                proc_params_m(self.src(), self.tv(), params_pos, Seq::empty()) == proc_params_m(
                    self.src(),
                    self.tv(),
                    self.pos as int,
                    args@.map_values(|v: Vec<u8>| v@),
                ),
            decreases self.tv().len() - self.pos,
        {
            let arg = self.toks[self.pos];
            match self.match_token(Token::Identifier) {
                Ok(()) => {},
                Err(e) => {
                    return Err(e);
                },
            }
            let ghost args_before = args@.map_values(|v: Vec<u8>| v@);
            args.push(bytes_of_range(self.source, arg.span.start, arg.span.end));
            proof {
                assert(args@.map_values(|v: Vec<u8>| v@) =~= args_before.push(
                    crate::model::tok_text(self.src(), arg),
                ));
            }
            if self.toks[self.pos].token != Token::RightParen {
                match self.match_token(Token::Comma) {
                    Ok(()) => {},
                    Err(e) => {
                        return Err(e);
                    },
                }
            }
        }
        proof {
            assert(proc_params_m(self.src(), self.tv(), params_pos, Seq::empty()) == Ok::<
                (int, Seq<Seq<u8>>),
                ErrM,
            >((self.pos as int, args@.map_values(|v: Vec<u8>| v@))));
        }
        match self.match_token(Token::RightParen) {
            Ok(()) => {},
            Err(e) => {
                return Err(e);
            },
        }
        let num_param = args.len();
        match self.procedure_from_symbol(name.as_slice(), num_param) {
            Ok(_idx) => {},
            Err(e) => {
                return Err(e);
            },
        }
        let mut bctx = Context { code: Vec::new(), symbols: args };
        proof {
            assert(bctx@.code =~= Seq::<u8>::empty());
        }
        match self.statement_seq(&mut bctx, Token::EndProc, Token::EndProc) {
            Ok(()) => {},
            Err(e) => {
                return Err(e);
            },
        }
        match self.match_token(Token::EndProc) {
            Ok(()) => {},
            Err(e) => {
                return Err(e);
            },
        }
        let Context { code: bcode, symbols: bsyms } = bctx;
        let nsyms = bsyms.len();
        let fin = finalize_code(bcode, nsyms, num_param);
        self.set_proc_code(name.as_slice(), fin);
        Ok(())
    }

    /// Parse a statement that begins with an identifier: an assignment
    /// or a procedure call, told apart by one token of lookahead.
    #[verifier::rlimit(100)]
    #[verifier::spinoff_prover]
    fn ident_statement(&mut self, ctx: &mut Context) -> (r: Result<(), Error>)
        requires
            old(self).inv(),
            old(self).tv()[old(self).pos as int].token == Token::Identifier,
        ensures
            old(self).same_stream(final(self)),
            match r {
                Ok(()) => {
                    &&& statement_m(
                        old(self).src(),
                        old(self).tv(),
                        old(self).pos as int,
                        old(self).pv(),
                        old(ctx)@,
                    ) == Ok::<(int, Seq<ProcM>, CtxM), ErrM>(
                        (final(self).pos as int, final(self).pv(), final(ctx)@),
                    )
                    &&& old(self).pos < final(self).pos
                    &&& final(self).inv()
                },
                Err(e) => {
                    &&& statement_m(
                        old(self).src(),
                        old(self).tv(),
                        old(self).pos as int,
                        old(self).pv(),
                        old(ctx)@,
                    ) == Err::<(int, Seq<ProcM>, CtxM), ErrM>(e@)
                    &&& e.source@ == old(self).src()
                },
            },
        decreases old(self).tv().len() - old(self).pos, 0int,
    {
        let cur = self.toks[self.pos];
        let n = self.toks.len();
        let next = self.toks[self.pos + 1];
        if next.token == Token::Assignment {
            proof {
                assert(statement_m(
                    old(self).src(),
                    old(self).tv(),
                    old(self).pos as int,
                    old(self).pv(),
                    old(ctx)@,
                ) == assign_m(
                    old(self).src(),
                    old(self).tv(),
                    old(self).pos as int,
                    old(self).pv(),
                    old(ctx)@,
                ));
            }
            self.variable_assignment(ctx)
        } else if next.token == Token::LeftParen {
            proof {
                assert(statement_m(
                    old(self).src(),
                    old(self).tv(),
                    old(self).pos as int,
                    old(self).pv(),
                    old(ctx)@,
                ) == call_m(
                    old(self).src(),
                    old(self).tv(),
                    old(self).pos as int,
                    old(self).pv(),
                    old(ctx)@,
                ));
            }
            self.proc_call(ctx)
        } else {
            let mut expected: Vec<Token> = Vec::new();
            expected.push(Token::Assignment);
            expected.push(Token::LeftParen);
            proof {
                assert(expected@ =~= seq![Token::Assignment, Token::LeftParen]);
            }
            Err(
                self.err_at(
                    cur.span,
                    ErrorKind::UnexpectedToken { expected, received: next.token },
                ),
            )
        }
    }

    /// Parse one statement, dispatching on the current token.
    #[verifier::rlimit(100)]
    #[verifier::spinoff_prover]
    fn statement(&mut self, ctx: &mut Context) -> (r: Result<(), Error>)
        requires
            old(self).inv(),
        ensures
            old(self).same_stream(final(self)),
            match r {
                Ok(()) => {
                    &&& statement_m(
                        old(self).src(),
                        old(self).tv(),
                        old(self).pos as int,
                        old(self).pv(),
                        old(ctx)@,
                    ) == Ok::<(int, Seq<ProcM>, CtxM), ErrM>(
                        (final(self).pos as int, final(self).pv(), final(ctx)@),
                    )
                    &&& old(self).pos < final(self).pos
                    &&& final(self).inv()
                },
                Err(e) => {
                    &&& statement_m(
                        old(self).src(),
                        old(self).tv(),
                        old(self).pos as int,
                        old(self).pv(),
                        old(ctx)@,
                    ) == Err::<(int, Seq<ProcM>, CtxM), ErrM>(e@)
                    &&& e.source@ == old(self).src()
                },
            },
        decreases old(self).tv().len() - old(self).pos, 1int,
    {
        let cur = self.toks[self.pos];
        if cur.token == Token::Print {
            proof {
                assert(statement_m(
                    old(self).src(),
                    old(self).tv(),
                    old(self).pos as int,
                    old(self).pv(),
                    old(ctx)@,
                ) == print_m(
                    old(self).src(),
                    old(self).tv(),
                    old(self).pos as int,
                    old(self).pv(),
                    old(ctx)@,
                ));
            }
            self.print_statement(ctx)
        } else if cur.token == Token::Var {
            proof {
                assert(statement_m(
                    old(self).src(),
                    old(self).tv(),
                    old(self).pos as int,
                    old(self).pv(),
                    old(ctx)@,
                ) == var_m(
                    old(self).src(),
                    old(self).tv(),
                    old(self).pos as int,
                    old(self).pv(),
                    old(ctx)@,
                ));
            }
            self.variable_declaration(ctx)
        } else if cur.token == Token::Identifier {
            self.ident_statement(ctx)
        } else if cur.token == Token::While {
            proof {
                assert(statement_m(
                    old(self).src(),
                    old(self).tv(),
                    old(self).pos as int,
                    old(self).pv(),
                    old(ctx)@,
                ) == while_m(
                    old(self).src(),
                    old(self).tv(),
                    old(self).pos as int,
                    old(self).pv(),
                    old(ctx)@,
                ));
            }
            self.while_statement(ctx)
        } else if cur.token == Token::If {
            proof {
                assert(statement_m(
                    old(self).src(),
                    old(self).tv(),
                    old(self).pos as int,
                    old(self).pv(),
                    old(ctx)@,
                ) == if_m(
                    old(self).src(),
                    old(self).tv(),
                    old(self).pos as int,
                    old(self).pv(),
                    old(ctx)@,
                ));
            }
            self.if_statement(ctx)
        } else if cur.token == Token::Proc {
            proof {
                assert(statement_m(
                    old(self).src(),
                    old(self).tv(),
                    old(self).pos as int,
                    old(self).pv(),
                    old(ctx)@,
                ) == proc_m(
                    old(self).src(),
                    old(self).tv(),
                    old(self).pos as int,
                    old(self).pv(),
                    old(ctx)@,
                ));
            }
            self.proc_statement(ctx)
        } else {
            let mut expected: Vec<Token> = Vec::new();
            expected.push(Token::Print);
            expected.push(Token::Var);
            expected.push(Token::Identifier);
            expected.push(Token::While);
            proof {
                assert(expected@ =~= seq![
                    Token::Print,
                    Token::Var,
                    Token::Identifier,
                    Token::While,
                ]);
            }
            Err(
                self.err_at(
                    cur.span,
                    ErrorKind::UnexpectedToken { expected, received: cur.token },
                ),
            )
        }
    }

    /// Parse statements until one of two stop tokens stands in front.
    #[verifier::loop_isolation(false)]
    fn statement_seq(&mut self, ctx: &mut Context, stop_a: Token, stop_b: Token) -> (r: Result<
        (),
        Error,
    >)
        requires
            old(self).inv(),
        ensures
            old(self).same_stream(final(self)),
            match r {
                Ok(()) => {
                    &&& stmts_until_m(
                        old(self).src(),
                        old(self).tv(),
                        old(self).pos as int,
                        old(self).pv(),
                        old(ctx)@,
                        stop_a,
                        stop_b,
                    ) == Ok::<(int, Seq<ProcM>, CtxM), ErrM>(
                        (final(self).pos as int, final(self).pv(), final(ctx)@),
                    )
                    &&& old(self).pos <= final(self).pos
                    &&& final(self).inv()
                    &&& (final(self).tv()[final(self).pos as int].token == stop_a
                        || final(self).tv()[final(self).pos as int].token == stop_b)
                },
                Err(e) => {
                    &&& stmts_until_m(
                        old(self).src(),
                        old(self).tv(),
                        old(self).pos as int,
                        old(self).pv(),
                        old(ctx)@,
                        stop_a,
                        stop_b,
                    ) == Err::<(int, Seq<ProcM>, CtxM), ErrM>(e@)
                    &&& e.source@ == old(self).src()
                },
            },
        decreases old(self).tv().len() - old(self).pos, 2int,
    {
        while !(self.toks[self.pos].token == stop_a || self.toks[self.pos].token == stop_b)
            invariant
                self.inv(),
                old(self).same_stream(self),
                old(self).pos <= self.pos,
                stmts_until_m(
                    old(self).src(),
                    old(self).tv(),
                    old(self).pos as int,
                    old(self).pv(),
                    old(ctx)@,
                    stop_a,
                    stop_b,
                ) == stmts_until_m(
                    self.src(),
                    self.tv(),
                    self.pos as int,
                    self.pv(),
                    ctx@,
                    stop_a,
                    stop_b,
                ),
            decreases self.tv().len() - self.pos,
        {
            let ghost lp = self.pos as int;
            let ghost lpv = self.pv();
            let ghost lctx = ctx@;
            match self.statement(ctx) {
                Ok(()) => {
                    proof {
                        assert(statement_m(self.src(), self.tv(), lp, lpv, lctx) == Ok::<
                            (int, Seq<ProcM>, CtxM),
                            ErrM,
                        >((self.pos as int, self.pv(), ctx@)));
                        assert(crate::model::step_ok(
                            lp,
                            self.pos as int,
                            self.tv().len() as int,
                        ));
                        assert(!(self.tv()[lp].token == stop_a || self.tv()[lp].token
                            == stop_b));
                        assert(stmts_until_m(
                            self.src(),
                            self.tv(),
                            lp,
                            lpv,
                            lctx,
                            stop_a,
                            stop_b,
                        ) == stmts_until_m(
                            self.src(),
                            self.tv(),
                            self.pos as int,
                            self.pv(),
                            ctx@,
                            stop_a,
                            stop_b,
                        ));
                    }
                },
                Err(e) => {
                    proof {
                        assert(stmts_until_m(
                            self.src(),
                            self.tv(),
                            lp,
                            lpv,
                            lctx,
                            stop_a,
                            stop_b,
                        ) == Err::<(int, Seq<ProcM>, CtxM), ErrM>(e@));
                    }
                    return Err(e);
                },
            }
        }
        Ok(())
    }

    /// Parse a whole program into its finished procedure list, sorted
    /// by ascending function index.
    pub fn parse(source: &str) -> (r: Result<Vec<Procedure>, Error>)
        ensures
            match r {
                Ok(v) => {
                    &&& parse_spec(source.spec_bytes()) is Ok
                    &&& v@.len() == parse_spec(source.spec_bytes())->Ok_0.len()
                    &&& (forall|j: int|
                        0 <= j < v@.len() ==> proc_matches(
                            v@[j],
                            #[trigger] parse_spec(source.spec_bytes())->Ok_0[j],
                        ))
                },
                Err(e) => {
                    &&& parse_spec(source.spec_bytes()) is Err
                    &&& e@ == parse_spec(source.spec_bytes())->Err_0
                    &&& e.source@ == source.spec_bytes()
                },
            },
    {
        let src = source.as_bytes();
        Self::parse_bytes(src)
    }

    /// Parse a whole program given as bytes.
    #[verifier::rlimit(80)]
    #[verifier::loop_isolation(false)]
    pub fn parse_bytes(src: &[u8]) -> (r: Result<Vec<Procedure>, Error>)
        ensures
            match r {
                Ok(v) => {
                    &&& parse_spec(src@) is Ok
                    &&& v@.len() == parse_spec(src@)->Ok_0.len()
                    &&& v@.len() <= src@.len() + 1
                    &&& (forall|j: int|
                        0 <= j < v@.len() ==> proc_matches(
                            v@[j],
                            #[trigger] parse_spec(src@)->Ok_0[j],
                        ))
                },
                Err(e) => {
                    &&& parse_spec(src@) is Err
                    &&& e@ == parse_spec(src@)->Err_0
                    &&& e.source@ == src@
                },
            },
    {
        let srclen = src.len();
        let toks = lex(src);
        proof {
            crate::model::lemma_lex_wf(src@);
            crate::lexer::lemma_lex_from_len(src@, 0);
        }
        let mut procs: Vec<ProcEntry> = Vec::new();
        let main_code: Vec<u8> = Vec::new();
        proof {
            assert(main_code@ =~= Seq::<u8>::empty());
        }
        procs.push(
            ProcEntry {
                name: main_vec(),
                procedure: Procedure { idx: 1, num_param: 0, code: main_code },
            },
        );
        let mut parser = Parser { source: src, toks, pos: 0, procs };
        proof {
            assert(parser.pv() =~= initial_procs());
        }
        let mut ctx = Context { code: Vec::new(), symbols: Vec::new() };
        proof {
            assert(ctx@.code =~= Seq::<u8>::empty());
            assert(ctx@.syms =~= Seq::<Seq<u8>>::empty());
        }
        match parser.statement_seq(&mut ctx, Token::EOF, Token::EOF) {
            Ok(()) => {},
            Err(e) => {
                return Err(e);
            },
        }
        match parser.match_token(Token::EOF) {
            Ok(()) => {},
            Err(e) => {
                return Err(e);
            },
        }
        let Context { code, symbols } = ctx;
        let nsyms = symbols.len();
        let fin = finalize_code(code, nsyms, 0);
        let mn = main_vec();
        parser.set_proc_code(mn.as_slice(), fin);
        let ghost pm = parser.pv();
        let mut out: Vec<Procedure> = Vec::new();
        let mut i: usize = 0;
        while i < parser.procs.len()
            invariant
                i <= parser.procs@.len(),
                pm == parser.pv(),
                pm.len() == parser.procs@.len(),
                pm.len() <= src@.len() + 1,
                srclen == parser.src().len(),
                parser.src() == src@,
                crate::model::find_empty(pm, 0) == crate::model::find_empty(pm, i as int),
                out@.len() == i,
                forall|j: int| 0 <= j < i ==> proc_matches(out@[j], #[trigger] pm[j]),
            decreases parser.procs@.len() - i,
        {
            proof {
                assert(pm[i as int] == parser.procs@[i as int]@);
            }
            if parser.procs[i].procedure.code.len() == 0 {
                let nm = copy_bytes(&parser.procs[i].name);
                return Err(
                    Error {
                        span: Span { start: srclen, end: srclen },
                        kind: ErrorKind::UndeclaredProc { name: nm },
                        source: slice_to_vec(src),
                    },
                );
            }
            let e = &parser.procs[i];
            out.push(
                Procedure {
                    idx: e.procedure.idx,
                    num_param: e.procedure.num_param,
                    code: copy_bytes(&e.procedure.code),
                },
            );
            i = i + 1;
        }
        proof {
            assert(crate::model::find_empty(pm, i as int) is None);
        }
        Ok(out)
    }
}


/// The bytes of the top-level procedure's name.
fn main_vec() -> (v: Vec<u8>)
    ensures
        v@ == main_name(),
{
    let mut v: Vec<u8> = Vec::new();
    v.push('m' as u8);
    v.push('a' as u8);
    v.push('i' as u8);
    v.push('n' as u8);
    proof {
        assert(v@ =~= main_name());
    }
    v
}

/// The bytes of the pixel-store intrinsic's name.
fn setpixel_vec() -> (v: Vec<u8>)
    ensures
        v@ == setpixel_name(),
{
    let mut v: Vec<u8> = Vec::new();
    v.push('s' as u8);
    v.push('e' as u8);
    v.push('t' as u8);
    v.push('p' as u8);
    v.push('i' as u8);
    v.push('x' as u8);
    v.push('e' as u8);
    v.push('l' as u8);
    proof {
        assert(v@ =~= setpixel_name());
    }
    v
}

/// The caller-visible local names the intrinsic writes.
fn x_vec() -> (v: Vec<u8>)
    ensures
        v@ == x_name(),
{
    let mut v: Vec<u8> = Vec::new();
    v.push('x' as u8);
    proof {
        assert(v@ =~= x_name());
    }
    v
}

fn y_vec() -> (v: Vec<u8>)
    ensures
        v@ == y_name(),
{
    let mut v: Vec<u8> = Vec::new();
    v.push('y' as u8);
    proof {
        assert(v@ =~= y_name());
    }
    v
}

fn color_vec() -> (v: Vec<u8>)
    ensures
        v@ == color_name(),
{
    let mut v: Vec<u8> = Vec::new();
    v.push('c' as u8);
    v.push('o' as u8);
    v.push('l' as u8);
    v.push('o' as u8);
    v.push('r' as u8);
    proof {
        assert(v@ =~= color_name());
    }
    v
}

/// Copy a byte vector.
fn copy_bytes(v: &Vec<u8>) -> (r: Vec<u8>)
    ensures
        r@ == v@,
{
    let r = bytes_of_range(v.as_slice(), 0, v.len());
    proof {
        assert(v@.subrange(0, v@.len() as int) =~= v@);
    }
    r
}

/// Wrap a finished body in its locals header and end marker.
fn finalize_code(body: Vec<u8>, nsyms: usize, num_param: usize) -> (r: Vec<u8>)
    ensures
        r@ == finalize_code_m(body@, nsyms as int, num_param as int),
{
    let locals: usize = if nsyms >= num_param {
        nsyms - num_param
    } else {
        0
    };
    let mut out: Vec<u8> = Vec::new();
    proof {
        assert(out@ =~= Seq::<u8>::empty());
    }
    leb_u64(&mut out, 1);
    leb_u64(&mut out, locals as u64);
    push_byte(&mut out, 0x7D);
    let mut b = body;
    out.append(&mut b);
    push_byte(&mut out, 0x0B);
    proof {
        assert(out@ =~= finalize_code_m(body@, nsyms as int, num_param as int));
    }
    out
}

/// Append the unsigned LEB128 encoding of `v`.
fn leb_u64(code: &mut Vec<u8>, v: u64)
    ensures
        final(code)@ == old(code)@ + crate::emit::uleb(v as nat),
{
    crate::emit::leb_write(code, v);
}

/// Whether a byte string is the single byte `c`.
fn vec_is1(v: &Vec<u8>, c: u8) -> (r: bool)
    ensures
        r == (v@ == seq![c]),
{
    if v.len() == 1 && v[0] == c {
        proof {
            assert(v@ =~= seq![c]);
        }
        true
    } else {
        proof {
            if v@ == seq![c] {
                assert(v@.len() == 1);
                assert(v@[0] == c);
            }
        }
        false
    }
}

/// Whether a byte string is the two bytes `c1 c2`.
fn vec_is2(v: &Vec<u8>, c1: u8, c2: u8) -> (r: bool)
    ensures
        r == (v@ == seq![c1, c2]),
{
    if v.len() == 2 && v[0] == c1 && v[1] == c2 {
        proof {
            assert(v@ =~= seq![c1, c2]);
        }
        true
    } else {
        proof {
            if v@ == seq![c1, c2] {
                assert(v@.len() == 2);
                assert(v@[0] == c1);
                assert(v@[1] == c2);
            }
        }
        false
    }
}

} // verus!
