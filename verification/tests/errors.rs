//! Tests of the error paths: each error kind, its span, and the
//! rendered diagnostics.

use chasm_rs::compile;
use chasm_rs::compiler::{Context, Parser};
use chasm_rs::error::ErrorKind;
use chasm_rs::lexer::{lex, Token};
use chasm_rs::model::Type;

#[test]
fn print_print() {
    let err = compile("print print").unwrap_err();
    assert_eq!(err.span.start, 6);
    assert_eq!(err.span.end, 11);
    match err.kind {
        ErrorKind::UnexpectedToken { expected, received } => {
            assert_eq!(expected, vec![Token::Number, Token::LeftParen]);
            assert_eq!(received, Token::Print);
        },
        other => panic!("wrong kind: {:?}", kind_name(&other)),
    }
}

fn kind_name(k: &ErrorKind) -> &'static str {
    match k {
        ErrorKind::UnexpectedToken { .. } => "UnexpectedToken",
        ErrorKind::ParseFloatError => "ParseFloatError",
        ErrorKind::ArgumentNumberMismatch { .. } => "ArgumentNumberMismatch",
        ErrorKind::UnexpectedType { .. } => "UnexpectedType",
        ErrorKind::UndeclaredProc { .. } => "UndeclaredProc",
    }
}

#[test]
fn argument_number_mismatch() {
    let err = compile("proc a(x) print x endproc a(1,2)").unwrap_err();
    match err.kind {
        ErrorKind::ArgumentNumberMismatch { expected, received } => {
            assert_eq!(expected, 1);
            assert_eq!(received, 2);
        },
        other => panic!("wrong kind: {:?}", kind_name(&other)),
    }
}

#[test]
fn argument_number_mismatch_forward() {
    // the call comes first and records two arguments; the declaration
    // then clashes with the stub
    let err = compile("a(1,2) proc a(x) print x endproc").unwrap_err();
    match err.kind {
        ErrorKind::ArgumentNumberMismatch { expected, received } => {
            assert_eq!(expected, 2);
            assert_eq!(received, 1);
        },
        other => panic!("wrong kind: {:?}", kind_name(&other)),
    }
}

#[test]
fn undeclared_proc() {
    let err = compile("proc A() B() endproc A()").unwrap_err();
    match err.kind {
        ErrorKind::UndeclaredProc { name } => {
            assert_eq!(name, b"B".to_vec());
        },
        other => panic!("wrong kind: {:?}", kind_name(&other)),
    }
}

#[test]
fn type_mismatch_comparison() {
    // the right operand of the comparison is boolean, not numeric;
    // the span covers the whole sub-expression, from its opening
    // parenthesis through the last consumed token
    let err = compile("print (1 == (1==1))").unwrap_err();
    assert_eq!(err.span.start, 6);
    assert_eq!(err.span.end, 18);
    match err.kind {
        ErrorKind::UnexpectedType { expected, received } => {
            assert_eq!(expected, vec![Type::F32, Type::F32]);
            assert_eq!(received, vec![Type::F32, Type::I32]);
        },
        other => panic!("wrong kind: {:?}", kind_name(&other)),
    }
}

#[test]
fn type_mismatch_boolean() {
    // the boolean operator demands boolean operands; the span covers
    // the whole sub-expression
    let err = compile("if (1 && 2) print 1 endif").unwrap_err();
    assert_eq!(err.span.start, 3);
    assert_eq!(err.span.end, 10);
    match err.kind {
        ErrorKind::UnexpectedType { expected, received } => {
            assert_eq!(expected, vec![Type::I32, Type::I32]);
            assert_eq!(received, vec![Type::F32, Type::F32]);
        },
        other => panic!("wrong kind: {:?}", kind_name(&other)),
    }
}

#[test]
fn type_mismatch_condition() {
    // a while condition must be boolean
    let err = compile("while 1 print 1 endwhile").unwrap_err();
    match err.kind {
        ErrorKind::UnexpectedType { expected, received } => {
            assert_eq!(expected, vec![Type::I32]);
            assert_eq!(received, vec![Type::F32]);
        },
        other => panic!("wrong kind: {:?}", kind_name(&other)),
    }
}

#[test]
fn parse_float_error() {
    let err = compile("print 1.2.3").unwrap_err();
    match err.kind {
        ErrorKind::ParseFloatError => {},
        other => panic!("wrong kind: {:?}", kind_name(&other)),
    }
}

#[test]
fn error_line_column() {
    let err = compile("print 1\nprint print").unwrap_err();
    assert_eq!(err.get_line_column(), (2, 7));
}

#[test]
fn error_line_column_outside() {
    // the missing body is reported at the very end of the source,
    // which lies on no line
    let err = compile("B()").unwrap_err();
    assert_eq!(err.get_line_column(), (0, 0));
}

#[test]
fn error_message_unexpected_token() {
    let err = compile("print print").unwrap_err();
    assert_eq!(
        err.to_message(),
        "error at 1:7: unexpected token value, expected <number> or \"(\", received \"print\""
    );
}

#[test]
fn error_message_type_mismatch() {
    let err = compile("print (1 == (1==1))").unwrap_err();
    assert_eq!(
        err.to_message(),
        "error at 1:7: unexpected number type, expected [F32, F32], received [F32, I32]"
    );
}

#[test]
fn error_message_undeclared() {
    let err = compile("B()").unwrap_err();
    assert_eq!(err.to_message(), "error at 0:0: Undeclared procedural \"B\"");
}

#[test]
fn error_message_arity() {
    let err = compile("proc a(x) print x endproc a(1,2)").unwrap_err();
    assert_eq!(
        err.to_message(),
        "error at 0:0: number of arguments mismatch, expected 1, received 2"
    );
}

#[test]
fn lexer_tokens() {
    let toks = lex(b"var a = -1.5e-02 while(a<x)endwhile &");
    let kinds: Vec<Token> = toks.iter().map(|t| t.token).collect();
    assert_eq!(
        kinds,
        vec![
            Token::Var,
            Token::Identifier,
            Token::Assignment,
            Token::Number,
            Token::While,
            Token::LeftParen,
            Token::Identifier,
            Token::Operator,
            Token::Identifier,
            Token::RightParen,
            Token::EndWhile,
            Token::Error,
            Token::EOF,
        ]
    );
    assert_eq!(toks[3].span.start, 8);
    assert_eq!(toks[3].span.end, 16);
}

#[test]
fn to_static_keeps_variant() {
    assert_eq!(*Token::While.to_static(), Token::While);
    assert_eq!(*Token::EOF.to_static(), Token::EOF);
}

#[test]
fn local_index_first_use_order() {
    let mut ctx = Context { code: Vec::new(), symbols: Vec::new() };
    assert_eq!(ctx.local_index_for_symbol(b"a"), 0);
    assert_eq!(ctx.local_index_for_symbol(b"b"), 1);
    assert_eq!(ctx.local_index_for_symbol(b"a"), 0);
    assert_eq!(ctx.local_index_for_symbol(b"c"), 2);
    assert_eq!(ctx.local_index_for_symbol(b"b"), 1);
}

#[test]
fn parse_assigns_indices_in_first_reference_order() {
    let procs = Parser::parse("proc b() c() endproc proc c() print 1 endproc b()").unwrap();
    // the import is index 0, the program is index 1, then first-reference order
    let idxs: Vec<usize> = procs.iter().map(|p| p.idx).collect();
    assert_eq!(idxs, vec![1, 2, 3]);
    assert_eq!(procs[0].num_param, 0);
}
