//! Recursive descent over tokens, one token of lookahead, no backtracking.
//!
//! ```text
//! program   := item*
//! item      := "fn" IDENT "(" [IDENT ":" TYPE ("," IDENT ":" TYPE)*] ")" ["->" TYPE] block
//!            | "extern" "fn" IDENT "(" [TYPE ("," TYPE)*] ")" ["->" TYPE] ";"
//! block     := "{" stmt* "}"
//! stmt      := "let" IDENT [":" TYPE] "=" expr ";" | IDENT "=" expr ";" | IDENT "(" args ")" ";"
//!            | "return" [expr] ";" | "if" expr block ["else" block] | "while" expr block
//! expr      := comp [("==" | "!=") expr]
//! comp      := term [("<" | "<=" | ">" | ">=") comp]
//! term      := factor [("+" | "-") term]
//! factor    := unary [("*" | "/") factor]
//! unary     := "-" unary | primary
//! primary   := INT | FLOAT | STRING | "true" | "false" | IDENT ["(" args ")"] | "(" expr ")"
//! ```
//!
//! The right operand of a binary operator is parsed at the operator's own
//! level, so `a - b - c` is `a - (b - c)`.

use crate::lexer::tokens_view;
use crate::nodes::{
    exprs_view, expr_view, names_view, stmts_view, stmt_view, top_view, tops_view, BinOp, ExprV, Expression, FunctionCall,
    Literal, Statement, StmtV, TopLevel, TopV, UnOp,
};
use crate::token::{KindView, Token, TokenKind, TokenView};
use crate::types::{params_view, FunctionType, Type, TypeView};
use vstd::prelude::*;

verus! {

/// A token where the grammar allows none of its kind, at its line and column;
/// or the end of the tokens where more were needed.
#[derive(Debug, Clone, Copy, PartialEq, Eq, Structural)]
pub enum ParseFault {
    UnexpectedToken(u32, u32),
    UnexpectedEnd,
}

pub open spec fn fault_at(toks: Seq<TokenView>, i: int) -> ParseFault {
    if 0 <= i < toks.len() {
        ParseFault::UnexpectedToken(toks[i].line as u32, toks[i].col as u32)
    } else {
        ParseFault::UnexpectedEnd
    }
}

pub open spec fn kind_is(toks: Seq<TokenView>, i: int, k: KindView) -> bool {
    0 <= i < toks.len() && toks[i].kind == k
}

/// Kinds that carry no value.
pub open spec fn is_simple(k: KindView) -> bool {
    !(k is Type || k is Identifier || k is IntLiteral || k is FloatLiteral || k is StringLiteral)
}

/// The operator of precedence `level` at `i`, if any: 6 equality, 5
/// comparison, 4 additive, 3 multiplicative.
pub open spec fn binop_at(toks: Seq<TokenView>, i: int, level: int) -> Option<BinOp> {
    if !(0 <= i < toks.len()) {
        None
    } else {
        let k = toks[i].kind;
        if level == 6 && k == KindView::EqualTo {
            Some(BinOp::Equal)
        } else if level == 6 && k == KindView::NotEqualTo {
            Some(BinOp::NEqual)
        } else if level == 5 && k == KindView::LessThan {
            Some(BinOp::Lesser)
        } else if level == 5 && k == KindView::LessThanEqualTo {
            Some(BinOp::LEq)
        } else if level == 5 && k == KindView::GreaterThan {
            Some(BinOp::Greater)
        } else if level == 5 && k == KindView::GreaterThanEqualTo {
            Some(BinOp::GEq)
        } else if level == 4 && k == KindView::Plus {
            Some(BinOp::Add)
        } else if level == 4 && k == KindView::Minus {
            Some(BinOp::Sub)
        } else if level == 3 && k == KindView::Asterisk {
            Some(BinOp::Mul)
        } else if level == 3 && k == KindView::FSlash {
            Some(BinOp::Div)
        } else {
            None
        }
    }
}

/// An expression of precedence `level` or higher starting at `i`, and the
/// position after it. Levels 6 to 3 are the binary operators (see
/// `binop_at`); an operator's right operand is parsed at its own level again,
/// so chains of one level group to the right. Level 2 is negation, level 1 a
/// primary: a literal, a variable, a call, or an expression in parentheses.
pub open spec fn p_level(toks: Seq<TokenView>, i: int, level: int) -> Result<(ExprV, int), ParseFault>
    decreases toks.len() - i, level,
{
    if i < 0 || i >= toks.len() {
        Err(ParseFault::UnexpectedEnd)
    } else if level >= 3 {
        match p_level(toks, i, level - 1) {
            Ok((lhs, j)) => match binop_at(toks, j, level) {
                Some(op) => if i <= j {
                    match p_level(toks, j + 1, level) {
                        Ok((rhs, k)) => Ok((ExprV::Bin(op, Box::new(lhs), Box::new(rhs), TypeView::Unknown), k)),
                        Err(f) => Err(f),
                    }
                } else {
                    Err(ParseFault::UnexpectedEnd)
                },
                None => Ok((lhs, j)),
            },
            Err(f) => Err(f),
        }
    } else if level == 2 {
        if toks[i].kind == KindView::Minus {
            match p_level(toks, i + 1, 2) {
                Ok((x, k)) => Ok((ExprV::Unary(UnOp::ArithmeticNeg, Box::new(x), TypeView::Unknown), k)),
                Err(f) => Err(f),
            }
        } else {
            p_level(toks, i, 1)
        }
    } else {
        match toks[i].kind {
            KindView::IntLiteral(v) => Ok((ExprV::Int(v), i + 1)),
            KindView::FloatLiteral(s) => Ok((ExprV::Float(s), i + 1)),
            KindView::StringLiteral(s) => Ok((ExprV::Str(s), i + 1)),
            KindView::True => Ok((ExprV::Bool(true), i + 1)),
            KindView::False => Ok((ExprV::Bool(false), i + 1)),
            KindView::Identifier(name) => if kind_is(toks, i + 1, KindView::ParenOpen) {
                match p_args(toks, i + 2) {
                    Ok((args, k)) => Ok((ExprV::Call(name, args), k)),
                    Err(f) => Err(f),
                }
            } else {
                Ok((ExprV::Var(name, TypeView::Unknown), i + 1))
            },
            KindView::ParenOpen => match p_level(toks, i + 1, 6) {
                Ok((e, k)) => if kind_is(toks, k, KindView::ParenClose) {
                    Ok((e, k + 1))
                } else {
                    Err(fault_at(toks, k))
                },
                Err(f) => Err(f),
            },
            _ => Err(fault_at(toks, i)),
        }
    }
}

/// The arguments of a call, after its opening parenthesis.
pub open spec fn p_args(toks: Seq<TokenView>, i: int) -> Result<(Seq<ExprV>, int), ParseFault>
    decreases toks.len() - i, 8int,
{
    if kind_is(toks, i, KindView::ParenClose) {
        Ok((seq![], i + 1))
    } else {
        p_args_rest(toks, i)
    }
}

/// At least one argument, separated by commas and closed by a parenthesis.
pub open spec fn p_args_rest(toks: Seq<TokenView>, i: int) -> Result<(Seq<ExprV>, int), ParseFault>
    decreases toks.len() - i, 7int,
{
    if i < 0 || i >= toks.len() {
        Err(ParseFault::UnexpectedEnd)
    } else {
        match p_level(toks, i, 6) {
            Ok((e, j)) => if kind_is(toks, j, KindView::Comma) && i <= j {
                match p_args_rest(toks, j + 1) {
                    Ok((rest, k)) => Ok((seq![e] + rest, k)),
                    Err(f) => Err(f),
                }
            } else if kind_is(toks, j, KindView::ParenClose) {
                Ok((seq![e], j + 1))
            } else {
                Err(fault_at(toks, j))
            },
            Err(f) => Err(f),
        }
    }
}

/// A primitive type name at `i`.
pub open spec fn p_type(toks: Seq<TokenView>, i: int) -> Result<TypeView, ParseFault> {
    if 0 <= i < toks.len() && toks[i].kind is Type {
        Ok(toks[i].kind->Type_0)
    } else {
        Err(fault_at(toks, i))
    }
}

/// A statement at `i` and the position after it.
pub open spec fn p_stmt(toks: Seq<TokenView>, i: int) -> Result<(StmtV, int), ParseFault>
    decreases toks.len() - i, 0int,
{
    if i < 0 || i >= toks.len() {
        Err(ParseFault::UnexpectedEnd)
    } else {
        match toks[i].kind {
            KindView::Let => if 0 <= i + 1 < toks.len() && toks[i + 1].kind is Identifier {
                let name = toks[i + 1].kind->Identifier_0;
                let declared = if kind_is(toks, i + 2, KindView::Colon) {
                    match p_type(toks, i + 3) {
                        Ok(t) => Ok((t, i + 4)),
                        Err(f) => Err(f),
                    }
                } else {
                    Ok((TypeView::Unknown, i + 2))
                };
                match declared {
                    Ok((t, j)) => if kind_is(toks, j, KindView::Assign) {
                        match p_level(toks, j + 1, 6) {
                            Ok((e, k)) => if kind_is(toks, k, KindView::Semicolon) {
                                Ok((StmtV::Assign(name, t, e), k + 1))
                            } else {
                                Err(fault_at(toks, k))
                            },
                            Err(f) => Err(f),
                        }
                    } else {
                        Err(fault_at(toks, j))
                    },
                    Err(f) => Err(f),
                }
            } else {
                Err(fault_at(toks, i + 1))
            },
            KindView::Return => if kind_is(toks, i + 1, KindView::Semicolon) {
                Ok((StmtV::Return(None), i + 2))
            } else {
                match p_level(toks, i + 1, 6) {
                    Ok((e, k)) => if kind_is(toks, k, KindView::Semicolon) {
                        Ok((StmtV::Return(Some(e)), k + 1))
                    } else {
                        Err(fault_at(toks, k))
                    },
                    Err(f) => Err(f),
                }
            },
            KindView::If => match p_level(toks, i + 1, 6) {
                Ok((c, j)) => if i < j <= toks.len() {
                    match p_block(toks, j) {
                        Ok((a, k)) => if kind_is(toks, k, KindView::Else) && i < k {
                            match p_block(toks, k + 1) {
                                Ok((b, m)) => Ok((StmtV::If(c, a, b), m)),
                                Err(f) => Err(f),
                            }
                        } else {
                            Ok((StmtV::If(c, a, seq![]), k))
                        },
                        Err(f) => Err(f),
                    }
                } else {
                    Err(ParseFault::UnexpectedEnd)
                },
                Err(f) => Err(f),
            },
            KindView::While => match p_level(toks, i + 1, 6) {
                Ok((c, j)) => if i < j <= toks.len() {
                    match p_block(toks, j) {
                        Ok((b, k)) => Ok((StmtV::While(c, b), k)),
                        Err(f) => Err(f),
                    }
                } else {
                    Err(ParseFault::UnexpectedEnd)
                },
                Err(f) => Err(f),
            },
            KindView::Identifier(name) => if kind_is(toks, i + 1, KindView::Assign) {
                match p_level(toks, i + 2, 6) {
                    Ok((e, k)) => if kind_is(toks, k, KindView::Semicolon) {
                        Ok((StmtV::Mutate(name, e), k + 1))
                    } else {
                        Err(fault_at(toks, k))
                    },
                    Err(f) => Err(f),
                }
            } else if kind_is(toks, i + 1, KindView::ParenOpen) {
                match p_args(toks, i + 2) {
                    Ok((args, k)) => if kind_is(toks, k, KindView::Semicolon) {
                        Ok((StmtV::Call(name, args), k + 1))
                    } else {
                        Err(fault_at(toks, k))
                    },
                    Err(f) => Err(f),
                }
            } else {
                Err(fault_at(toks, i + 1))
            },
            _ => Err(fault_at(toks, i)),
        }
    }
}

/// A block `{ ... }` at `i`.
pub open spec fn p_block(toks: Seq<TokenView>, i: int) -> Result<(Seq<StmtV>, int), ParseFault>
    decreases toks.len() - i, 2int,
{
    if kind_is(toks, i, KindView::BraceOpen) {
        p_stmts(toks, i + 1)
    } else {
        Err(fault_at(toks, i))
    }
}

/// Statements up to and including the closing brace.
pub open spec fn p_stmts(toks: Seq<TokenView>, i: int) -> Result<(Seq<StmtV>, int), ParseFault>
    decreases toks.len() - i, 1int,
{
    if kind_is(toks, i, KindView::BraceClose) {
        Ok((seq![], i + 1))
    } else if i < 0 || i >= toks.len() {
        Err(ParseFault::UnexpectedEnd)
    } else {
        match p_stmt(toks, i) {
            Ok((st, j)) => if i < j <= toks.len() {
                match p_stmts(toks, j) {
                    Ok((rest, k)) => Ok((seq![st] + rest, k)),
                    Err(f) => Err(f),
                }
            } else {
                Err(ParseFault::UnexpectedEnd)
            },
            Err(f) => Err(f),
        }
    }
}

/// Parameters `name: Type`, comma separated, after the opening parenthesis.
pub open spec fn p_params(toks: Seq<TokenView>, i: int) -> Result<(Seq<Seq<char>>, Seq<TypeView>, int), ParseFault>
    decreases toks.len() - i,
{
    if kind_is(toks, i, KindView::ParenClose) {
        Ok((seq![], seq![], i + 1))
    } else if !(0 <= i < toks.len() && toks[i].kind is Identifier) {
        Err(fault_at(toks, i))
    } else if !kind_is(toks, i + 1, KindView::Colon) {
        Err(fault_at(toks, i + 1))
    } else {
        match p_type(toks, i + 2) {
            Ok(t) => {
                let name = toks[i].kind->Identifier_0;
                if kind_is(toks, i + 3, KindView::Comma) {
                    match p_params(toks, i + 4) {
                        Ok((ns, ts, k)) => Ok((seq![name] + ns, seq![t] + ts, k)),
                        Err(f) => Err(f),
                    }
                } else if kind_is(toks, i + 3, KindView::ParenClose) {
                    Ok((seq![name], seq![t], i + 4))
                } else {
                    Err(fault_at(toks, i + 3))
                }
            },
            Err(f) => Err(f),
        }
    }
}

/// Parameter types, comma separated, after the opening parenthesis.
pub open spec fn p_types(toks: Seq<TokenView>, i: int) -> Result<(Seq<TypeView>, int), ParseFault>
    decreases toks.len() - i,
{
    if kind_is(toks, i, KindView::ParenClose) {
        Ok((seq![], i + 1))
    } else {
        match p_type(toks, i) {
            Ok(t) => if kind_is(toks, i + 1, KindView::Comma) {
                match p_types(toks, i + 2) {
                    Ok((ts, k)) => Ok((seq![t] + ts, k)),
                    Err(f) => Err(f),
                }
            } else if kind_is(toks, i + 1, KindView::ParenClose) {
                Ok((seq![t], i + 2))
            } else {
                Err(fault_at(toks, i + 1))
            },
            Err(f) => Err(f),
        }
    }
}

/// An optional `-> Type`.
pub open spec fn p_ret(toks: Seq<TokenView>, i: int) -> Result<(Option<TypeView>, int), ParseFault> {
    if kind_is(toks, i, KindView::MapsTo) {
        match p_type(toks, i + 1) {
            Ok(t) => Ok((Some(t), i + 2)),
            Err(f) => Err(f),
        }
    } else {
        Ok((None, i))
    }
}

pub open spec fn sig_view(params: Seq<TypeView>, ret: Option<TypeView>) -> TypeView {
    TypeView::Func(
        params,
        match ret {
            Some(t) => Some(Box::new(t)),
            None => None,
        },
    )
}

/// A function `fn name(params) [-> Type] { body }`, or a declaration
/// `extern fn name(types) [-> Type];`, at `i`.
pub open spec fn p_item(toks: Seq<TokenView>, i: int) -> Result<(TopV, int), ParseFault> {
    if kind_is(toks, i, KindView::FunctionDec) {
        if !(0 <= i + 1 < toks.len() && toks[i + 1].kind is Identifier) {
            Err(fault_at(toks, i + 1))
        } else if !kind_is(toks, i + 2, KindView::ParenOpen) {
            Err(fault_at(toks, i + 2))
        } else {
            match p_params(toks, i + 3) {
                Ok((names, types, j)) => match p_ret(toks, j) {
                    Ok((ret, k)) => match p_block(toks, k) {
                        Ok((body, m)) => Ok(
                            (TopV::FnDecl(toks[i + 1].kind->Identifier_0, sig_view(types, ret), names, body), m),
                        ),
                        Err(f) => Err(f),
                    },
                    Err(f) => Err(f),
                },
                Err(f) => Err(f),
            }
        }
    } else if kind_is(toks, i, KindView::Extern) {
        if !kind_is(toks, i + 1, KindView::FunctionDec) {
            Err(fault_at(toks, i + 1))
        } else if !(0 <= i + 2 < toks.len() && toks[i + 2].kind is Identifier) {
            Err(fault_at(toks, i + 2))
        } else if !kind_is(toks, i + 3, KindView::ParenOpen) {
            Err(fault_at(toks, i + 3))
        } else {
            match p_types(toks, i + 4) {
                Ok((types, j)) => match p_ret(toks, j) {
                    Ok((ret, k)) => if kind_is(toks, k, KindView::Semicolon) {
                        Ok((TopV::Extern(toks[i + 2].kind->Identifier_0, sig_view(types, ret)), k + 1))
                    } else {
                        Err(fault_at(toks, k))
                    },
                    Err(f) => Err(f),
                },
                Err(f) => Err(f),
            }
        }
    } else {
        Err(fault_at(toks, i))
    }
}

/// The items from `i` to the end of the tokens.
pub open spec fn p_program(toks: Seq<TokenView>, i: int) -> Result<Seq<TopV>, ParseFault>
    decreases toks.len() - i,
{
    if i < 0 || i >= toks.len() {
        Ok(seq![])
    } else {
        match p_item(toks, i) {
            Ok((t, j)) => if i < j <= toks.len() {
                match p_program(toks, j) {
                    Ok(rest) => Ok(seq![t] + rest),
                    Err(f) => Err(f),
                }
            } else {
                Err(ParseFault::UnexpectedEnd)
            },
            Err(f) => Err(f),
        }
    }
}

/// Whether a token has the given kind, for kinds that carry no value.
fn same_simple(a: &TokenKind, b: &TokenKind) -> (r: bool)
    ensures
        is_simple(b@) ==> r == (a@ == b@),
{
    match (a, b) {
        (TokenKind::BraceOpen, TokenKind::BraceOpen) => true,
        (TokenKind::BraceClose, TokenKind::BraceClose) => true,
        (TokenKind::ParenOpen, TokenKind::ParenOpen) => true,
        (TokenKind::ParenClose, TokenKind::ParenClose) => true,
        (TokenKind::Semicolon, TokenKind::Semicolon) => true,
        (TokenKind::Comma, TokenKind::Comma) => true,
        (TokenKind::Colon, TokenKind::Colon) => true,
        (TokenKind::Plus, TokenKind::Plus) => true,
        (TokenKind::Minus, TokenKind::Minus) => true,
        (TokenKind::FSlash, TokenKind::FSlash) => true,
        (TokenKind::Asterisk, TokenKind::Asterisk) => true,
        (TokenKind::Assign, TokenKind::Assign) => true,
        (TokenKind::EqualTo, TokenKind::EqualTo) => true,
        (TokenKind::NotEqualTo, TokenKind::NotEqualTo) => true,
        (TokenKind::LessThan, TokenKind::LessThan) => true,
        (TokenKind::LessThanEqualTo, TokenKind::LessThanEqualTo) => true,
        (TokenKind::GreaterThan, TokenKind::GreaterThan) => true,
        (TokenKind::GreaterThanEqualTo, TokenKind::GreaterThanEqualTo) => true,
        (TokenKind::Bang, TokenKind::Bang) => true,
        (TokenKind::MapsTo, TokenKind::MapsTo) => true,
        (TokenKind::Let, TokenKind::Let) => true,
        (TokenKind::If, TokenKind::If) => true,
        (TokenKind::Else, TokenKind::Else) => true,
        (TokenKind::Return, TokenKind::Return) => true,
        (TokenKind::While, TokenKind::While) => true,
        (TokenKind::FunctionDec, TokenKind::FunctionDec) => true,
        (TokenKind::Extern, TokenKind::Extern) => true,
        (TokenKind::True, TokenKind::True) => true,
        (TokenKind::False, TokenKind::False) => true,
        _ => false,
    }
}

/// Parses a token sequence into top-level items.
pub struct Parser {
    pub tokens: Vec<Token>,
    pub current: usize,
}

impl Parser {
    pub open spec fn toks(&self) -> Seq<TokenView> {
        tokens_view(self.tokens@)
    }

    fn at(&self, i: usize, k: TokenKind) -> (r: bool)
        requires
            is_simple(k@),
        ensures
            r == kind_is(self.toks(), i as int, k@),
            r ==> i < self.tokens.len(),
            self.toks().len() == self.tokens.len(),
    {
        i < self.tokens.len() && same_simple(&self.tokens[i].kind, &k)
    }

    fn fault(&self, i: usize) -> (r: ParseFault)
        ensures
            r == fault_at(self.toks(), i as int),
    {
        if i < self.tokens.len() {
            ParseFault::UnexpectedToken(self.tokens[i].line, self.tokens[i].col)
        } else {
            ParseFault::UnexpectedEnd
        }
    }

    fn binop(&self, i: usize, level: u8) -> (r: Option<BinOp>)
        ensures
            r == binop_at(self.toks(), i as int, level as int),
    {
        if i >= self.tokens.len() {
            return None;
        }
        match (&self.tokens[i].kind, level) {
            (TokenKind::EqualTo, 6) => Some(BinOp::Equal),
            (TokenKind::NotEqualTo, 6) => Some(BinOp::NEqual),
            (TokenKind::LessThan, 5) => Some(BinOp::Lesser),
            (TokenKind::LessThanEqualTo, 5) => Some(BinOp::LEq),
            (TokenKind::GreaterThan, 5) => Some(BinOp::Greater),
            (TokenKind::GreaterThanEqualTo, 5) => Some(BinOp::GEq),
            (TokenKind::Plus, 4) => Some(BinOp::Add),
            (TokenKind::Minus, 4) => Some(BinOp::Sub),
            (TokenKind::Asterisk, 3) => Some(BinOp::Mul),
            (TokenKind::FSlash, 3) => Some(BinOp::Div),
            _ => None,
        }
    }

    /// A full expression at `i`.
    pub fn parse_expr(&self, i: usize) -> (r: Result<(Expression, usize), ParseFault>)
        ensures
            match p_level(self.toks(), i as int, 6) {
                Ok((e, j)) => r is Ok && expr_view(r->Ok_0.0) == e && r->Ok_0.1 as int == j && i < j <= self.tokens.len(),
                Err(f) => r == Err::<(Expression, usize), ParseFault>(f),
            },
    {
        self.parse_binary(i, 6)
    }

    /// A binary chain of precedence `level` (3 to 6).
    fn parse_binary(&self, i: usize, level: u8) -> (r: Result<(Expression, usize), ParseFault>)
        requires
            3 <= level <= 6,
        ensures
            match p_level(self.toks(), i as int, level as int) {
                Ok((e, j)) => r is Ok && expr_view(r->Ok_0.0) == e && r->Ok_0.1 as int == j && i < j <= self.tokens.len(),
                Err(f) => r == Err::<(Expression, usize), ParseFault>(f),
            },
        decreases self.tokens.len() - i, level,
    {
        if i >= self.tokens.len() {
            return Err(ParseFault::UnexpectedEnd);
        }
        let lhs = if level == 3 {
            self.parse_unary(i)
        } else {
            self.parse_binary(i, level - 1)
        };
        let (lhs, j) = match lhs {
            Ok(p) => p,
            Err(f) => return Err(f),
        };
        match self.binop(j, level) {
            Some(op) => match self.parse_binary(j + 1, level) {
                Ok((rhs, k)) => Ok((Expression::BinExpr(op, Box::new(lhs), Box::new(rhs), Type::Unknown), k)),
                Err(f) => Err(f),
            },
            None => Ok((lhs, j)),
        }
    }

    /// A negation or a primary expression.
    fn parse_unary(&self, i: usize) -> (r: Result<(Expression, usize), ParseFault>)
        ensures
            match p_level(self.toks(), i as int, 2) {
                Ok((e, j)) => r is Ok && expr_view(r->Ok_0.0) == e && r->Ok_0.1 as int == j && i < j <= self.tokens.len(),
                Err(f) => r == Err::<(Expression, usize), ParseFault>(f),
            },
        decreases self.tokens.len() - i, 2int,
    {
        if i >= self.tokens.len() {
            return Err(ParseFault::UnexpectedEnd);
        }
        if self.at(i, TokenKind::Minus) {
            match self.parse_unary(i + 1) {
                Ok((x, k)) => Ok((Expression::UnaryExpr(UnOp::ArithmeticNeg, Box::new(x), Type::Unknown), k)),
                Err(f) => Err(f),
            }
        } else {
            self.parse_primary(i)
        }
    }

    /// A literal, a variable, a call, or an expression in parentheses.
    fn parse_primary(&self, i: usize) -> (r: Result<(Expression, usize), ParseFault>)
        ensures
            match p_level(self.toks(), i as int, 1) {
                Ok((e, j)) => r is Ok && expr_view(r->Ok_0.0) == e && r->Ok_0.1 as int == j && i < j <= self.tokens.len(),
                Err(f) => r == Err::<(Expression, usize), ParseFault>(f),
            },
        decreases self.tokens.len() - i, 1int,
    {
        if i >= self.tokens.len() {
            return Err(ParseFault::UnexpectedEnd);
        }
        match &self.tokens[i].kind {
            TokenKind::IntLiteral(v) => Ok((Expression::Literal(Literal::Int(*v)), i + 1)),
            TokenKind::FloatLiteral(s) => Ok((Expression::Literal(Literal::Float(s.clone())), i + 1)),
            TokenKind::StringLiteral(s) => Ok((Expression::Literal(Literal::String(s.clone())), i + 1)),
            TokenKind::True => Ok((Expression::Literal(Literal::Bool(true)), i + 1)),
            TokenKind::False => Ok((Expression::Literal(Literal::Bool(false)), i + 1)),
            TokenKind::Identifier(name) => {
                if self.at(i + 1, TokenKind::ParenOpen) {
                    let mut args: Vec<Expression> = Vec::new();
                    match self.parse_args(i + 2, &mut args) {
                        Ok(k) => {
                            assert(exprs_view(args@) =~= seq![] + p_args(self.toks(), i + 2)->Ok_0.0);
                            Ok((Expression::FnCall(FunctionCall { name: name.clone(), args }), k))
                        },
                        Err(f) => Err(f),
                    }
                } else {
                    Ok((Expression::Variable(name.clone(), Type::Unknown), i + 1))
                }
            },
            TokenKind::ParenOpen => match self.parse_binary(i + 1, 6) {
                Ok((e, k)) => if self.at(k, TokenKind::ParenClose) {
                    Ok((e, k + 1))
                } else {
                    Err(self.fault(k))
                },
                Err(f) => Err(f),
            },
            _ => Err(self.fault(i)),
        }
    }

    /// The arguments of a call after its opening parenthesis, appended to `out`;
    /// returns the position after the closing parenthesis.
    fn parse_args(&self, i: usize, out: &mut Vec<Expression>) -> (r: Result<usize, ParseFault>)
        ensures
            match p_args(self.toks(), i as int) {
                Ok((es, j)) => r == Ok::<usize, ParseFault>(j as usize) && exprs_view(final(out)@) == exprs_view(old(out)@) + es
                    && i < j <= self.tokens.len(),
                Err(f) => r == Err::<usize, ParseFault>(f),
            },
        decreases self.tokens.len() - i, 8int,
    {
        if self.at(i, TokenKind::ParenClose) {
            assert(exprs_view(out@) + seq![] =~= exprs_view(out@));
            return Ok(i + 1);
        }
        self.parse_args_rest(i, out)
    }

    fn parse_args_rest(&self, i: usize, out: &mut Vec<Expression>) -> (r: Result<usize, ParseFault>)
        ensures
            match p_args_rest(self.toks(), i as int) {
                Ok((es, j)) => r == Ok::<usize, ParseFault>(j as usize) && exprs_view(final(out)@) == exprs_view(old(out)@) + es
                    && i < j <= self.tokens.len(),
                Err(f) => r == Err::<usize, ParseFault>(f),
            },
        decreases self.tokens.len() - i, 7int,
    {
        if i >= self.tokens.len() {
            return Err(ParseFault::UnexpectedEnd);
        }
        let (e, j) = match self.parse_binary(i, 6) {
            Ok(p) => p,
            Err(f) => return Err(f),
        };
        let ghost ev = expr_view(e);
        let ghost prev = out@;
        out.push(e);
        assert(out@.drop_last() =~= prev);
        assert(exprs_view(out@) == exprs_view(prev).push(ev));
        if self.at(j, TokenKind::Comma) {
            let res = self.parse_args_rest(j + 1, out);
            proof {
                match p_args_rest(self.toks(), j + 1) {
                    Ok((rest, k)) => {
                        assert(exprs_view(prev).push(ev) + rest =~= exprs_view(prev) + (seq![ev] + rest));
                    },
                    Err(_) => {},
                }
            }
            res
        } else if self.at(j, TokenKind::ParenClose) {
            assert(exprs_view(prev).push(ev) =~= exprs_view(prev) + seq![ev]);
            Ok(j + 1)
        } else {
            Err(self.fault(j))
        }
    }
    /// A primitive type name at `i`.
    fn parse_type(&self, i: usize) -> (r: Result<Type, ParseFault>)
        ensures
            match p_type(self.toks(), i as int) {
                Ok(t) => r is Ok && r->Ok_0@ == t && i < self.tokens.len(),
                Err(f) => r == Err::<Type, ParseFault>(f),
            },
    {
        if i < self.tokens.len() {
            if let TokenKind::Type(p) = &self.tokens[i].kind {
                return Ok(Type::Primitive(p.clone()));
            }
        }
        Err(self.fault(i))
    }

    /// The name of an identifier token at `i`.
    fn expect_id(&self, i: usize) -> (r: Option<String>)
        ensures
            match r {
                Some(n) => 0 <= i < self.toks().len() && i < self.tokens.len() && self.toks()[i as int].kind == KindView::Identifier(n@),
                None => !(0 <= i < self.toks().len() && self.toks()[i as int].kind is Identifier),
            },
    {
        if i < self.tokens.len() {
            if let TokenKind::Identifier(n) = &self.tokens[i].kind {
                return Some(n.clone());
            }
        }
        None
    }

    /// A statement at `i`.
    pub fn parse_stmt(&self, i: usize) -> (r: Result<(Statement, usize), ParseFault>)
        ensures
            match p_stmt(self.toks(), i as int) {
                Ok((st, j)) => r is Ok && stmt_view(r->Ok_0.0) == st && r->Ok_0.1 as int == j && i < j <= self.tokens.len(),
                Err(f) => r == Err::<(Statement, usize), ParseFault>(f),
            },
        decreases self.tokens.len() - i, 1int,
    {
        if i >= self.tokens.len() {
            return Err(ParseFault::UnexpectedEnd);
        }
        match &self.tokens[i].kind {
            TokenKind::Let => self.parse_let(i),
            TokenKind::Return => self.parse_ret(i),
            TokenKind::If => self.parse_if(i),
            TokenKind::While => self.parse_while(i),
            TokenKind::Identifier(name) => {
                if self.at(i + 1, TokenKind::Assign) {
                    match self.parse_expr(i + 2) {
                        Ok((e, k)) => if self.at(k, TokenKind::Semicolon) {
                            Ok((Statement::Mutate(name.clone(), e), k + 1))
                        } else {
                            Err(self.fault(k))
                        },
                        Err(f) => Err(f),
                    }
                } else if self.at(i + 1, TokenKind::ParenOpen) {
                    let mut args: Vec<Expression> = Vec::new();
                    match self.parse_args(i + 2, &mut args) {
                        Ok(k) => {
                            assert(exprs_view(args@) =~= seq![] + p_args(self.toks(), i + 2)->Ok_0.0);
                            if self.at(k, TokenKind::Semicolon) {
                                Ok((Statement::FnCall(FunctionCall { name: name.clone(), args }), k + 1))
                            } else {
                                Err(self.fault(k))
                            }
                        },
                        Err(f) => Err(f),
                    }
                } else {
                    Err(self.fault(i + 1))
                }
            },
            _ => Err(self.fault(i)),
        }
    }

    /// `let name [: Type] = expr ;` at `i`.
    fn parse_let(&self, i: usize) -> (r: Result<(Statement, usize), ParseFault>)
        requires
            i < self.tokens.len(),
            self.toks()[i as int].kind == KindView::Let,
        ensures
            match p_stmt(self.toks(), i as int) {
                Ok((st, j)) => r is Ok && stmt_view(r->Ok_0.0) == st && r->Ok_0.1 as int == j && i < j <= self.tokens.len(),
                Err(f) => r == Err::<(Statement, usize), ParseFault>(f),
            },
    {
        let name = match self.expect_id(i + 1) {
            Some(n) => n,
            None => return Err(self.fault(i + 1)),
        };
        let (ty, j) = if self.at(i + 2, TokenKind::Colon) {
            match self.parse_type(i + 3) {
                Ok(t) => (t, i + 4),
                Err(f) => return Err(f),
            }
        } else {
            (Type::Unknown, i + 2)
        };
        if !self.at(j, TokenKind::Assign) {
            return Err(self.fault(j));
        }
        match self.parse_expr(j + 1) {
            Ok((e, k)) => if self.at(k, TokenKind::Semicolon) {
                Ok((Statement::Assignment(name, ty, e), k + 1))
            } else {
                Err(self.fault(k))
            },
            Err(f) => Err(f),
        }
    }

    /// `return [expr] ;` at `i`.
    fn parse_ret(&self, i: usize) -> (r: Result<(Statement, usize), ParseFault>)
        requires
            i < self.tokens.len(),
            self.toks()[i as int].kind == KindView::Return,
        ensures
            match p_stmt(self.toks(), i as int) {
                Ok((st, j)) => r is Ok && stmt_view(r->Ok_0.0) == st && r->Ok_0.1 as int == j && i < j <= self.tokens.len(),
                Err(f) => r == Err::<(Statement, usize), ParseFault>(f),
            },
    {
        if self.at(i + 1, TokenKind::Semicolon) {
            return Ok((Statement::Return(None), i + 2));
        }
        match self.parse_expr(i + 1) {
            Ok((e, k)) => if self.at(k, TokenKind::Semicolon) {
                Ok((Statement::Return(Some(e)), k + 1))
            } else {
                Err(self.fault(k))
            },
            Err(f) => Err(f),
        }
    }

    /// `if expr { ... } [else { ... }]` at `i`; a missing else gives an empty block.
    fn parse_if(&self, i: usize) -> (r: Result<(Statement, usize), ParseFault>)
        requires
            i < self.tokens.len(),
            self.toks()[i as int].kind == KindView::If,
        ensures
            match p_stmt(self.toks(), i as int) {
                Ok((st, j)) => r is Ok && stmt_view(r->Ok_0.0) == st && r->Ok_0.1 as int == j && i < j <= self.tokens.len(),
                Err(f) => r == Err::<(Statement, usize), ParseFault>(f),
            },
        decreases self.tokens.len() - i, 0int,
    {
        let (c, j) = match self.parse_expr(i + 1) {
            Ok(p) => p,
            Err(f) => return Err(f),
        };
        let (a, k) = match self.parse_block(j) {
            Ok(p) => p,
            Err(f) => return Err(f),
        };
        if self.at(k, TokenKind::Else) {
            match self.parse_block(k + 1) {
                Ok((b, m)) => Ok((Statement::If(c, a, b), m)),
                Err(f) => Err(f),
            }
        } else {
            let b: Vec<Statement> = Vec::new();
            assert(stmts_view(b@) =~= seq![]);
            Ok((Statement::If(c, a, b), k))
        }
    }

    /// `while expr { ... }` at `i`.
    fn parse_while(&self, i: usize) -> (r: Result<(Statement, usize), ParseFault>)
        requires
            i < self.tokens.len(),
            self.toks()[i as int].kind == KindView::While,
        ensures
            match p_stmt(self.toks(), i as int) {
                Ok((st, j)) => r is Ok && stmt_view(r->Ok_0.0) == st && r->Ok_0.1 as int == j && i < j <= self.tokens.len(),
                Err(f) => r == Err::<(Statement, usize), ParseFault>(f),
            },
        decreases self.tokens.len() - i, 0int,
    {
        let (c, j) = match self.parse_expr(i + 1) {
            Ok(p) => p,
            Err(f) => return Err(f),
        };
        match self.parse_block(j) {
            Ok((b, k)) => Ok((Statement::While(c, b), k)),
            Err(f) => Err(f),
        }
    }

    /// A block `{ ... }` at `i`.
    pub fn parse_block(&self, i: usize) -> (r: Result<(Vec<Statement>, usize), ParseFault>)
        ensures
            match p_block(self.toks(), i as int) {
                Ok((ss, j)) => r is Ok && stmts_view(r->Ok_0.0@) == ss && r->Ok_0.1 as int == j && i < j <= self.tokens.len(),
                Err(f) => r == Err::<(Vec<Statement>, usize), ParseFault>(f),
            },
        decreases self.tokens.len() - i, 3int,
    {
        if !self.at(i, TokenKind::BraceOpen) {
            return Err(self.fault(i));
        }
        let mut out: Vec<Statement> = Vec::new();
        match self.parse_stmts(i + 1, &mut out) {
            Ok(k) => {
                assert(stmts_view(out@) =~= seq![] + p_stmts(self.toks(), i + 1)->Ok_0.0);
                Ok((out, k))
            },
            Err(f) => Err(f),
        }
    }

    fn parse_stmts(&self, i: usize, out: &mut Vec<Statement>) -> (r: Result<usize, ParseFault>)
        ensures
            match p_stmts(self.toks(), i as int) {
                Ok((ss, j)) => r == Ok::<usize, ParseFault>(j as usize) && stmts_view(final(out)@) == stmts_view(old(out)@) + ss
                    && i < j <= self.tokens.len(),
                Err(f) => r == Err::<usize, ParseFault>(f),
            },
        decreases self.tokens.len() - i, 2int,
    {
        if self.at(i, TokenKind::BraceClose) {
            assert(stmts_view(out@) + seq![] =~= stmts_view(out@));
            return Ok(i + 1);
        }
        if i >= self.tokens.len() {
            return Err(ParseFault::UnexpectedEnd);
        }
        let (st, j) = match self.parse_stmt(i) {
            Ok(p) => p,
            Err(f) => return Err(f),
        };
        let ghost sv = stmt_view(st);
        let ghost prev = out@;
        out.push(st);
        assert(out@.drop_last() =~= prev);
        assert(stmts_view(out@) == stmts_view(prev).push(sv));
        let res = self.parse_stmts(j, out);
        proof {
            match p_stmts(self.toks(), j as int) {
                Ok((rest, k)) => {
                    assert(stmts_view(prev).push(sv) + rest =~= stmts_view(prev) + (seq![sv] + rest));
                },
                Err(_) => {},
            }
        }
        res
    }

    /// Parameters after the opening parenthesis, appended to `names` and `types`.
    fn parse_params(&self, i: usize, names: &mut Vec<String>, types: &mut Vec<Box<Type>>) -> (r: Result<usize, ParseFault>)
        ensures
            match p_params(self.toks(), i as int) {
                Ok((ns, ts, j)) => r == Ok::<usize, ParseFault>(j as usize) && names_view(final(names)@) == names_view(old(names)@) + ns
                    && params_view(final(types)@) == params_view(old(types)@) + ts && i < j <= self.tokens.len(),
                Err(f) => r == Err::<usize, ParseFault>(f),
            },
        decreases self.tokens.len() - i,
    {
        if self.at(i, TokenKind::ParenClose) {
            assert(names_view(names@) + seq![] =~= names_view(names@));
            assert(params_view(types@) + seq![] =~= params_view(types@));
            return Ok(i + 1);
        }
        let name = match self.expect_id(i) {
            Some(n) => n,
            None => return Err(self.fault(i)),
        };
        if !self.at(i + 1, TokenKind::Colon) {
            return Err(self.fault(i + 1));
        }
        let t = match self.parse_type(i + 2) {
            Ok(t) => t,
            Err(f) => return Err(f),
        };
        let ghost nv = name@;
        let ghost tv = t@;
        let ghost pn = names@;
        let ghost pt = types@;
        names.push(name);
        types.push(Box::new(t));
        assert(names_view(names@) =~= names_view(pn).push(nv));
        assert(types@.drop_last() =~= pt);
        assert(params_view(types@) == params_view(pt).push(tv));
        if self.at(i + 3, TokenKind::Comma) {
            let res = self.parse_params(i + 4, names, types);
            proof {
                match p_params(self.toks(), i + 4) {
                    Ok((ns, ts, k)) => {
                        assert(names_view(pn).push(nv) + ns =~= names_view(pn) + (seq![nv] + ns));
                        assert(params_view(pt).push(tv) + ts =~= params_view(pt) + (seq![tv] + ts));
                    },
                    Err(_) => {},
                }
            }
            res
        } else if self.at(i + 3, TokenKind::ParenClose) {
            assert(names_view(pn).push(nv) =~= names_view(pn) + seq![nv]);
            assert(params_view(pt).push(tv) =~= params_view(pt) + seq![tv]);
            Ok(i + 4)
        } else {
            Err(self.fault(i + 3))
        }
    }

    /// Parameter types after the opening parenthesis, appended to `types`.
    fn parse_types(&self, i: usize, types: &mut Vec<Box<Type>>) -> (r: Result<usize, ParseFault>)
        ensures
            match p_types(self.toks(), i as int) {
                Ok((ts, j)) => r == Ok::<usize, ParseFault>(j as usize) && params_view(final(types)@) == params_view(old(types)@) + ts
                    && i < j <= self.tokens.len(),
                Err(f) => r == Err::<usize, ParseFault>(f),
            },
        decreases self.tokens.len() - i,
    {
        if self.at(i, TokenKind::ParenClose) {
            assert(params_view(types@) + seq![] =~= params_view(types@));
            return Ok(i + 1);
        }
        let t = match self.parse_type(i) {
            Ok(t) => t,
            Err(f) => return Err(f),
        };
        let ghost tv = t@;
        let ghost pt = types@;
        types.push(Box::new(t));
        assert(types@.drop_last() =~= pt);
        assert(params_view(types@) == params_view(pt).push(tv));
        if self.at(i + 1, TokenKind::Comma) {
            let res = self.parse_types(i + 2, types);
            proof {
                match p_types(self.toks(), i + 2) {
                    Ok((ts, k)) => {
                        assert(params_view(pt).push(tv) + ts =~= params_view(pt) + (seq![tv] + ts));
                    },
                    Err(_) => {},
                }
            }
            res
        } else if self.at(i + 1, TokenKind::ParenClose) {
            assert(params_view(pt).push(tv) =~= params_view(pt) + seq![tv]);
            Ok(i + 2)
        } else {
            Err(self.fault(i + 1))
        }
    }

    /// An optional `-> Type` at `i`.
    fn parse_ret_type(&self, i: usize) -> (r: Result<(Option<Box<Type>>, usize), ParseFault>)
        ensures
            match p_ret(self.toks(), i as int) {
                Ok((t, j)) => r is Ok && r->Ok_0.1 as int == j && i <= j && match (t, r->Ok_0.0) {
                    (Some(a), Some(b)) => b@ == a,
                    (None, None) => true,
                    _ => false,
                },
                Err(f) => r == Err::<(Option<Box<Type>>, usize), ParseFault>(f),
            },
    {
        if self.at(i, TokenKind::MapsTo) {
            match self.parse_type(i + 1) {
                Ok(t) => Ok((Some(Box::new(t)), i + 2)),
                Err(f) => Err(f),
            }
        } else {
            Ok((None, i))
        }
    }

    /// A function or an extern declaration at `i`.
    fn parse_top(&self, i: usize) -> (r: Result<(TopLevel, usize), ParseFault>)
        ensures
            match p_item(self.toks(), i as int) {
                Ok((t, j)) => r is Ok && top_view(r->Ok_0.0) == t && r->Ok_0.1 as int == j && i < j <= self.tokens.len(),
                Err(f) => r == Err::<(TopLevel, usize), ParseFault>(f),
            },
    {
        if self.at(i, TokenKind::FunctionDec) {
            let name = match self.expect_id(i + 1) {
                Some(n) => n,
                None => return Err(self.fault(i + 1)),
            };
            if !self.at(i + 2, TokenKind::ParenOpen) {
                return Err(self.fault(i + 2));
            }
            let mut names: Vec<String> = Vec::new();
            let mut types: Vec<Box<Type>> = Vec::new();
            let j = match self.parse_params(i + 3, &mut names, &mut types) {
                Ok(j) => j,
                Err(f) => return Err(f),
            };
            assert(names_view(names@) =~= seq![] + p_params(self.toks(), i + 3)->Ok_0.0);
            assert(params_view(types@) =~= seq![] + p_params(self.toks(), i + 3)->Ok_0.1);
            let (ret, k) = match self.parse_ret_type(j) {
                Ok(p) => p,
                Err(f) => return Err(f),
            };
            match self.parse_block(k) {
                Ok((body, m)) => Ok((TopLevel::FnDecl(name, FunctionType { ret, params: types }, names, body), m)),
                Err(f) => Err(f),
            }
        } else if self.at(i, TokenKind::Extern) {
            if !self.at(i + 1, TokenKind::FunctionDec) {
                return Err(self.fault(i + 1));
            }
            let name = match self.expect_id(i + 2) {
                Some(n) => n,
                None => return Err(self.fault(i + 2)),
            };
            if !self.at(i + 3, TokenKind::ParenOpen) {
                return Err(self.fault(i + 3));
            }
            let mut types: Vec<Box<Type>> = Vec::new();
            let j = match self.parse_types(i + 4, &mut types) {
                Ok(j) => j,
                Err(f) => return Err(f),
            };
            assert(params_view(types@) =~= seq![] + p_types(self.toks(), i + 4)->Ok_0.0);
            let (ret, k) = match self.parse_ret_type(j) {
                Ok(p) => p,
                Err(f) => return Err(f),
            };
            if self.at(k, TokenKind::Semicolon) {
                Ok((TopLevel::Extern(name, FunctionType { ret, params: types }), k + 1))
            } else {
                Err(self.fault(k))
            }
        } else {
            Err(self.fault(i))
        }
    }
}

impl Parser {
    pub fn new(tokens: Vec<Token>) -> (r: Parser)
        ensures
            r.tokens == tokens,
            r.current == 0,
    {
        Parser { tokens, current: 0 }
    }

    /// The items of the token sequence from the current position to its end;
    /// the first token out of place stops it.
    pub fn parse(self) -> (r: Result<Vec<TopLevel>, ParseFault>)
        ensures
            match p_program(self.toks(), self.current as int) {
                Ok(items) => r is Ok && tops_view(r->Ok_0@) == items,
                Err(f) => r == Err::<Vec<TopLevel>, ParseFault>(f),
            },
    {
        let ghost toks = self.toks();
        let ghost whole = p_program(toks, self.current as int);
        let mut items: Vec<TopLevel> = Vec::new();
        let mut i = self.current;
        assert(tops_view(items@) =~= seq![]);
        if i > self.tokens.len() {
            i = self.tokens.len();
        }
        while i < self.tokens.len()
            invariant
                toks == self.toks(),
                whole == p_program(toks, self.current as int),
                i <= self.tokens.len(),
                whole == match p_program(toks, i as int) {
                    Ok(rest) => Ok::<Seq<TopV>, ParseFault>(tops_view(items@) + rest),
                    Err(f) => Err(f),
                },
            decreases self.tokens.len() - i,
        {
            let (t, j) = match self.parse_top(i) {
                Ok(p) => p,
                Err(f) => return Err(f),
            };
            let ghost tv = top_view(t);
            let ghost prev = items@;
            items.push(t);
            assert(tops_view(items@) =~= tops_view(prev).push(tv));
            proof {
                match p_program(toks, j as int) {
                    Ok(rest) => {
                        assert(tops_view(prev) + (seq![tv] + rest) =~= tops_view(items@) + rest);
                    },
                    Err(_) => {},
                }
            }
            i = j;
        }
        assert(tops_view(items@) + seq![] =~= tops_view(items@));
        Ok(items)
    }
}

} // verus!
