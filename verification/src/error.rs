//! Compilation errors: structured kinds with byte spans into the source.

use vstd::prelude::*;

use crate::lexer::{Span, Token};
use crate::model::{name_chars, ErrM, KindM, Type};
use vstd::string::StringExecFns;

verus! {

/// What went wrong.
#[derive(Debug)]
pub enum ErrorKind {
    UnexpectedToken { expected: Vec<Token>, received: Token },
    ParseFloatError,
    ArgumentNumberMismatch { expected: usize, received: usize },
    UnexpectedType { expected: Vec<Type>, received: Vec<Type> },
    UndeclaredProc { name: Vec<u8> },
}

impl View for ErrorKind {
    type V = KindM;

    open spec fn view(&self) -> KindM {
        match self {
            ErrorKind::UnexpectedToken { expected, received } => KindM::UnexpectedToken {
                expected: expected@,
                received: *received,
            },
            ErrorKind::ParseFloatError => KindM::ParseFloat,
            ErrorKind::ArgumentNumberMismatch { expected, received } => {
                KindM::ArgumentNumberMismatch {
                    expected: *expected as int,
                    received: *received as int,
                }
            },
            ErrorKind::UnexpectedType { expected, received } => KindM::UnexpectedType {
                expected: expected@,
                received: received@,
            },
            ErrorKind::UndeclaredProc { name } => KindM::UndeclaredProc { name: name@ },
        }
    }
}

/// A compilation error: a kind, the byte span it points at, and a copy
/// of the source it refers to.
#[derive(Debug)]
pub struct Error {
    pub span: Span,
    pub kind: ErrorKind,
    pub source: Vec<u8>,
}

impl View for Error {
    type V = ErrM;

    open spec fn view(&self) -> ErrM {
        ErrM { start: self.span.start as int, end: self.span.end as int, kind: self.kind@ }
    }
}


/// Length of the line starting at `i`: the bytes up to the next line
/// feed or the end of the source.
pub open spec fn to_eol(src: Seq<u8>, i: int) -> nat
    decreases src.len() - i,
{
    if 0 <= i && i < src.len() && src[i] != ('\n' as u8) {
        1 + to_eol(src, i + 1)
    } else {
        0
    }
}

/// Scan the source line by line for the line whose bytes contain the
/// offset `start`; give its one-based line and column, or zero-zero
/// when no line contains the offset.  A carriage return before a line
/// feed does not belong to its line.
pub open spec fn line_col_from(src: Seq<u8>, ls: int, line: int, start: int) -> (int, int)
    decreases src.len() - ls,
{
    if 0 <= ls <= src.len() {
        let le = ls + to_eol(src, ls);
        let ce = if le < src.len() && le > ls && src[le - 1] == ('\r' as u8) {
            le - 1
        } else {
            le
        };
        if ls <= start < ce {
            (line, start - ls + 1)
        } else if le >= src.len() {
            (0int, 0int)
        } else {
            line_col_from(src, le + 1, line + 1, start)
        }
    } else {
        (0int, 0int)
    }
}

/// The one-based line and column of a byte offset, or zero-zero when
/// the offset lies on no line.
pub open spec fn line_col_m(src: Seq<u8>, start: int) -> (int, int) {
    line_col_from(src, 0, 1, start)
}

impl Error {
    /// The one-based line and column of this error's span start, or
    /// zero-zero when the span lies outside every source line.
    #[verifier::loop_isolation(false)]
    pub fn get_line_column(&self) -> (r: (usize, usize))
        requires
            self.source@.len() < usize::MAX,
        ensures
            (r.0 as int, r.1 as int) == line_col_m(self.source@, self.span.start as int),
    {
        let src = &self.source;
        let n = src.len();
        let start = self.span.start;
        let mut ls: usize = 0;
        let mut line: usize = 1;
        loop
            invariant
                ls <= n == src@.len(),
                1 <= line <= ls + 1,
                line_col_m(src@, start as int) == line_col_from(
                    src@,
                    ls as int,
                    line as int,
                    start as int,
                ),
            decreases src@.len() - ls,
        {
            // find the end of this line
            let mut le = ls;
            while le < n && src[le] != ('\n' as u8)
                invariant
                    ls <= le <= n,
                    to_eol(src@, ls as int) == le - ls + to_eol(src@, le as int),
                decreases src@.len() - le,
            {
                le = le + 1;
            }
            let ce = if le < n && le > ls && src[le - 1] == ('\r' as u8) {
                le - 1
            } else {
                le
            };
            if ls <= start && start < ce {
                return (line, start - ls + 1);
            }
            if le >= n {
                return (0, 0);
            }
            ls = le + 1;
            line = line + 1;
        }
    }
}


/// The display name of a token, as it appears in diagnostics.
pub open spec fn token_name(t: Token) -> Seq<char> {
    match t {
        Token::Number => "<number>"@,
        Token::Print => "\"print\""@,
        Token::Var => "\"var\""@,
        Token::While => "\"while\""@,
        Token::EndWhile => "\"endwhile\""@,
        Token::If => "\"if\""@,
        Token::EndIf => "\"endif\""@,
        Token::Else => "\"else\""@,
        Token::Proc => "\"proc\""@,
        Token::EndProc => "\"endproc\""@,
        Token::Comma => "\",\""@,
        Token::Operator => "<operator>"@,
        Token::Identifier => "<identifier>"@,
        Token::Assignment => "\"=\""@,
        Token::LeftParen => "\"(\""@,
        Token::RightParen => "\")\""@,
        Token::Error => "<error>"@,
        Token::EOF => "<eof>"@,
    }
}

/// The display name of a value type.
pub open spec fn ty_name(t: Type) -> Seq<char> {
    match t {
        Type::I32 => "I32"@,
        Type::F32 => "F32"@,
    }
}

/// The middle entries of a natural token list: each preceded by a
/// comma.
pub open spec fn or_list_mid(ts: Seq<Token>, i: int) -> Seq<char>
    decreases ts.len() - i,
{
    if 1 <= i && i < ts.len() - 1 {
        ", "@ + token_name(ts[i]) + or_list_mid(ts, i + 1)
    } else {
        Seq::empty()
    }
}

/// A token list rendered as natural language: `A, B or C`.
pub open spec fn or_list(ts: Seq<Token>) -> Seq<char> {
    if ts.len() == 0 {
        "nothing"@
    } else if ts.len() == 1 {
        token_name(ts[0])
    } else {
        token_name(ts[0]) + or_list_mid(ts, 1) + " or "@ + token_name(ts[ts.len() - 1])
    }
}

/// The entries of a bracketed type list, comma separated.
pub open spec fn type_items(ts: Seq<Type>, i: int) -> Seq<char>
    decreases ts.len() - i,
{
    if 0 <= i && i < ts.len() {
        (if i > 0 {
            ", "@
        } else {
            Seq::empty()
        }) + ty_name(ts[i]) + type_items(ts, i + 1)
    } else {
        Seq::empty()
    }
}

/// A type list rendered in brackets: `[F32, F32]`.
pub open spec fn type_list(ts: Seq<Type>) -> Seq<char> {
    "["@ + type_items(ts, 0) + "]"@
}

/// A decimal digit as a character.
pub open spec fn digit_char(d: int) -> char {
    if d == 0 {
        '0'
    } else if d == 1 {
        '1'
    } else if d == 2 {
        '2'
    } else if d == 3 {
        '3'
    } else if d == 4 {
        '4'
    } else if d == 5 {
        '5'
    } else if d == 6 {
        '6'
    } else if d == 7 {
        '7'
    } else if d == 8 {
        '8'
    } else {
        '9'
    }
}

/// A number rendered in decimal.
pub open spec fn dec_str(n: nat) -> Seq<char>
    decreases n,
{
    if n < 10 {
        seq![digit_char(n as int)]
    } else {
        dec_str(n / 10) + seq![digit_char((n % 10) as int)]
    }
}

/// The message text of an error kind.
pub open spec fn kind_msg(k: KindM) -> Seq<char> {
    match k {
        KindM::UnexpectedToken { expected, received } => "unexpected token value, expected "@
            + or_list(expected) + ", received "@ + token_name(received),
        KindM::ParseFloat => "failed to parse float number (invalid float literal)"@,
        KindM::ArgumentNumberMismatch { expected, received } => {
            if expected >= 0 && received >= 0 {
                "number of arguments mismatch, expected "@ + dec_str(expected as nat)
                    + ", received "@ + dec_str(received as nat)
            } else {
                Seq::empty()
            }
        },
        KindM::UnexpectedType { expected, received } => "unexpected number type, expected "@
            + type_list(expected) + ", received "@ + type_list(received),
        KindM::UndeclaredProc { name } => "Undeclared procedural \""@ + name_chars(name)
            + "\""@,
    }
}

/// The whole diagnostic line for an error.
pub open spec fn error_msg(e: ErrM, src: Seq<u8>) -> Seq<char> {
    let (line, col) = line_col_m(src, e.start);
    if line >= 0 && col >= 0 {
        "error at "@ + dec_str(line as nat) + ":"@ + dec_str(col as nat) + ": "@ + kind_msg(
            e.kind,
        )
    } else {
        Seq::empty()
    }
}

/// Append a token's display name.
fn push_token_name(s: &mut String, t: Token)
    ensures
        final(s)@ == old(s)@ + token_name(t),
{
    match t {
        Token::Number => s.append("<number>"),
        Token::Print => s.append("\"print\""),
        Token::Var => s.append("\"var\""),
        Token::While => s.append("\"while\""),
        Token::EndWhile => s.append("\"endwhile\""),
        Token::If => s.append("\"if\""),
        Token::EndIf => s.append("\"endif\""),
        Token::Else => s.append("\"else\""),
        Token::Proc => s.append("\"proc\""),
        Token::EndProc => s.append("\"endproc\""),
        Token::Comma => s.append("\",\""),
        Token::Operator => s.append("<operator>"),
        Token::Identifier => s.append("<identifier>"),
        Token::Assignment => s.append("\"=\""),
        Token::LeftParen => s.append("\"(\""),
        Token::RightParen => s.append("\")\""),
        Token::Error => s.append("<error>"),
        Token::EOF => s.append("<eof>"),
    }
}

/// Append a type's display name.
fn push_ty_name(s: &mut String, t: Type)
    ensures
        final(s)@ == old(s)@ + ty_name(t),
{
    match t {
        Type::I32 => s.append("I32"),
        Type::F32 => s.append("F32"),
    }
}

/// Append a number in decimal.
fn push_dec(s: &mut String, n: u64)
    ensures
        final(s)@ == old(s)@ + dec_str(n as nat),
    decreases n,
{
    if n >= 10 {
        push_dec(s, n / 10);
    }
    let d = n % 10;
    if d == 0 {
        s.append("0");
    } else if d == 1 {
        s.append("1");
    } else if d == 2 {
        s.append("2");
    } else if d == 3 {
        s.append("3");
    } else if d == 4 {
        s.append("4");
    } else if d == 5 {
        s.append("5");
    } else if d == 6 {
        s.append("6");
    } else if d == 7 {
        s.append("7");
    } else if d == 8 {
        s.append("8");
    } else {
        s.append("9");
    }
    proof {
        reveal_strlit("0");
        reveal_strlit("1");
        reveal_strlit("2");
        reveal_strlit("3");
        reveal_strlit("4");
        reveal_strlit("5");
        reveal_strlit("6");
        reveal_strlit("7");
        reveal_strlit("8");
        reveal_strlit("9");
        assert(final(s)@ =~= old(s)@ + dec_str(n as nat));
    }
}

/// Append the natural list of a few tokens.
#[verifier::loop_isolation(false)]
fn push_or_list(s: &mut String, ts: &Vec<Token>)
    ensures
        final(s)@ == old(s)@ + or_list(ts@),
{
    let n = ts.len();
    if n == 0 {
        s.append("nothing");
        return ;
    }
    push_token_name(s, ts[0]);
    if n == 1 {
        return ;
    }
    let ghost base = s@;
    let mut i: usize = 1;
    while i < n - 1
        invariant
            1 <= i <= n - 1,
            or_list_mid(ts@, 1) == s@.subrange(base.len() as int, s@.len() as int)
                + or_list_mid(ts@, i as int),
            s@.len() >= base.len(),
            s@.subrange(0, base.len() as int) == base,
        decreases n - i,
    {
        let ghost pre = s@;
        s.append(", ");
        push_token_name(s, ts[i]);
        i = i + 1;
        proof {
            assert(s@.subrange(base.len() as int, s@.len() as int) =~= pre.subrange(
                base.len() as int,
                pre.len() as int,
            ) + ", "@ + token_name(ts@[i - 1]));
            assert(or_list_mid(ts@, 1) =~= s@.subrange(base.len() as int, s@.len() as int)
                + or_list_mid(ts@, i as int));
            assert(s@.subrange(0, base.len() as int) =~= base);
        }
    }
    proof {
        assert(or_list_mid(ts@, i as int) =~= Seq::<char>::empty());
        assert(s@ =~= base + or_list_mid(ts@, 1));
    }
    s.append(" or ");
    push_token_name(s, ts[n - 1]);
    proof {
        assert(final(s)@ =~= old(s)@ + or_list(ts@));
    }
}

/// Append a bracketed type list.
#[verifier::loop_isolation(false)]
fn push_type_list(s: &mut String, ts: &Vec<Type>)
    ensures
        final(s)@ == old(s)@ + type_list(ts@),
{
    s.append("[");
    let ghost base = s@;
    let mut i: usize = 0;
    while i < ts.len()
        invariant
            i <= ts@.len(),
            type_items(ts@, 0) == s@.subrange(base.len() as int, s@.len() as int) + type_items(
                ts@,
                i as int,
            ),
            s@.len() >= base.len(),
            s@.subrange(0, base.len() as int) == base,
        decreases ts@.len() - i,
    {
        let ghost pre = s@;
        if i > 0 {
            s.append(", ");
        }
        push_ty_name(s, ts[i]);
        i = i + 1;
        proof {
            if i - 1 > 0 {
                assert(s@.subrange(base.len() as int, s@.len() as int) =~= pre.subrange(
                    base.len() as int,
                    pre.len() as int,
                ) + ", "@ + ty_name(ts@[i - 1]));
            } else {
                assert(s@.subrange(base.len() as int, s@.len() as int) =~= pre.subrange(
                    base.len() as int,
                    pre.len() as int,
                ) + ty_name(ts@[i - 1]));
            }
            assert(type_items(ts@, 0) =~= s@.subrange(base.len() as int, s@.len() as int)
                + type_items(ts@, i as int));
            assert(s@.subrange(0, base.len() as int) =~= base);
        }
    }
    proof {
        assert(type_items(ts@, i as int) =~= Seq::<char>::empty());
        assert(s@ =~= base + type_items(ts@, 0));
    }
    s.append("]");
}

/// Relies on the char conversion of bytes and String collection: the
/// result holds, in order, the character whose code is each byte.
#[verifier::external_body]
fn latin1_string(bytes: &Vec<u8>) -> (r: String)
    ensures
        r@ == bytes@.map(|_i: int, b: u8| b as char),
{
    bytes.iter().map(|b| *b as char).collect()
}

impl Error {
    /// Render this error as one diagnostic line:
    /// `error at LINE:COL: MESSAGE`.
    pub fn to_message(&self) -> (r: String)
        requires
            self.source@.len() < usize::MAX,
        ensures
            r@ == error_msg(self@, self.source@),
    {
        let (line, col) = self.get_line_column();
        let mut s = String::new();
        s.append("error at ");
        push_dec(&mut s, line as u64);
        s.append(":");
        push_dec(&mut s, col as u64);
        s.append(": ");
        let ghost head = s@;
        match &self.kind {
            ErrorKind::UnexpectedToken { expected, received } => {
                s.append("unexpected token value, expected ");
                push_or_list(&mut s, expected);
                s.append(", received ");
                push_token_name(&mut s, *received);
            },
            ErrorKind::ParseFloatError => {
                s.append("failed to parse float number (invalid float literal)");
            },
            ErrorKind::ArgumentNumberMismatch { expected, received } => {
                s.append("number of arguments mismatch, expected ");
                push_dec(&mut s, *expected as u64);
                s.append(", received ");
                push_dec(&mut s, *received as u64);
            },
            ErrorKind::UnexpectedType { expected, received } => {
                s.append("unexpected number type, expected ");
                push_type_list(&mut s, expected);
                s.append(", received ");
                push_type_list(&mut s, received);
            },
            ErrorKind::UndeclaredProc { name } => {
                s.append("Undeclared procedural \"");
                let nm = latin1_string(name);
                s.append(nm.as_str());
                s.append("\"");
            },
        }
        proof {
            assert(s@ =~= head + kind_msg(self@.kind));
            assert(s@ =~= error_msg(self@, self.source@));
        }
        s
    }
}

} // verus!
