//! The parser: turns the token sequence into an abstract syntax tree.
//!
//! The grammar is given by the `spec_parse_*` functions, a deterministic
//! recursive descent with single-token lookahead over `SpecToken` sequences:
//! each takes the position it starts at and yields the node it derives
//! together with the position just past it, or `None` on the first unmet
//! expectation. The executable `Parser` methods are proved to return exactly
//! what the corresponding specification function derives, and to fail with a
//! `SyntaxError` exactly when it derives nothing.
//!
//! Expressions use precedence climbing: `term` binds `+`/`-` around factors,
//! `factor` binds `*`/`/` around primaries, both left-associatively, so
//! multiplication binds tighter than addition.

use vstd::prelude::*;

use crate::ast::BinOp;
use crate::ast::Expr;
use crate::ast::SpecExpr;
use crate::ast::SpecStatement;
use crate::ast::Statement;
use crate::ast::deep_view_exprs;
use crate::ast::deep_view_stmts;
use crate::ast::lemma_deep_view_exprs;
use crate::ast::lemma_deep_view_exprs_push;
use crate::ast::lemma_deep_view_stmts;
use crate::ast::lemma_deep_view_stmts_push;
use crate::errors::VentiError;
use crate::lexer::is_digit_char;
use crate::token::SpecToken;
use crate::token::Token;
use crate::token::token_text;

verus! {

// ---------------------------------------------------------------------------
// Number-literal conversion
// ---------------------------------------------------------------------------
/// The value of a digit string, most significant digit first.
pub open spec fn spec_digits_val(s: Seq<char>) -> int
    decreases s.len(),
{
    if s.len() == 0 {
        0
    } else {
        spec_digits_val(s.take(s.len() - 1)) * 10 + (s[s.len() - 1] as u32 - 48)
    }
}

/// Every character is a decimal digit.
pub open spec fn all_digit_chars(s: Seq<char>) -> bool {
    forall|i: int| 0 <= i < s.len() ==> is_digit_char(#[trigger] s[i])
}

/// The `i64` a number-literal payload denotes: its digits' value, provided
/// the payload is a non-empty digit string whose value fits.
pub open spec fn spec_parse_i64(s: Seq<char>) -> Option<i64> {
    if s.len() > 0 && all_digit_chars(s) && spec_digits_val(s) <= i64::MAX {
        Some(spec_digits_val(s) as i64)
    } else {
        None
    }
}

proof fn lemma_digits_val_nonneg(s: Seq<char>)
    requires
        all_digit_chars(s),
    ensures
        spec_digits_val(s) >= 0,
    decreases s.len(),
{
    if s.len() > 0 {
        let head = s.take(s.len() - 1);
        assert forall|i: int| 0 <= i < head.len() implies is_digit_char(#[trigger] head[i]) by {
            assert(head[i] == s[i]);
        }
        lemma_digits_val_nonneg(head);
        assert(is_digit_char(s[s.len() - 1]));
    }
}

proof fn lemma_digits_val_take_mono(s: Seq<char>, k: int)
    requires
        all_digit_chars(s),
        0 <= k <= s.len(),
    ensures
        spec_digits_val(s.take(k)) <= spec_digits_val(s),
    decreases s.len(),
{
    if k < s.len() {
        let head = s.take(s.len() - 1);
        assert forall|i: int| 0 <= i < head.len() implies is_digit_char(#[trigger] head[i]) by {
            assert(head[i] == s[i]);
        }
        assert(s.take(k) =~= head.take(k));
        lemma_digits_val_take_mono(head, k);
        lemma_digits_val_nonneg(head);
        assert(is_digit_char(s[s.len() - 1]));
    } else {
        assert(s.take(k) =~= s);
    }
}

/// Converts a number-literal payload to its value: exactly
/// `spec_parse_i64`, so `None` on an empty or non-digit payload and on one
/// whose value exceeds `i64::MAX`.
fn parse_i64_text(s: &str) -> (r: Option<i64>)
    ensures
        r == spec_parse_i64(s@),
{
    let n = s.unicode_len();
    if n == 0 {
        return None;
    }
    let mut acc: u64 = 0;
    let mut i: usize = 0;
    while i < n
        invariant
            0 <= i <= n,
            n == s@.len(),
            all_digit_chars(s@.take(i as int)),
            acc == spec_digits_val(s@.take(i as int)),
            acc <= i64::MAX,
        decreases n - i,
    {
        let c = s.get_char(i);
        let u: u32 = c as u32;
        if !(48 <= u && u <= 57) {
            assert(!is_digit_char(s@[i as int]));
            return None;
        }
        let d: u64 = (u - 48) as u64;
        proof {
            assert(s@.take(i + 1).take(i as int) =~= s@.take(i as int));
            assert(s@.take(i + 1)[i as int] == s@[i as int]);
            assert(spec_digits_val(s@.take(i + 1)) == spec_digits_val(s@.take(i as int)) * 10 + (
            s@[i as int] as u32 - 48));
            assert forall|j: int| 0 <= j < i + 1 implies is_digit_char(#[trigger] s@.take(i + 1)[j]) by {
                assert(s@.take(i + 1)[j] == s@[j]);
            }
        }
        let limit: u64 = (9223372036854775807u64 - d) / 10;
        if acc > limit {
            proof {
                assert(acc * 10 + d > 9223372036854775807) by (nonlinear_arith)
                    requires
                        acc > (9223372036854775807u64 - d) / 10,
                        d <= 9,
                ;
                if all_digit_chars(s@) {
                    lemma_digits_val_take_mono(s@, i + 1);
                    assert(spec_digits_val(s@) > i64::MAX);
                }
            }
            return None;
        }
        proof {
            assert(acc * 10 + d <= 9223372036854775807) by (nonlinear_arith)
                requires
                    acc <= (9223372036854775807u64 - d) / 10,
                    d <= 9,
            ;
        }
        acc = acc * 10 + d;
        i = i + 1;
    }
    proof {
        assert(s@.take(n as int) =~= s@);
    }
    Some(acc as i64)
}

// ---------------------------------------------------------------------------
// The specification grammar
// ---------------------------------------------------------------------------
/// `primary := number | string | boolean | identifier | '(' expression ')'
///           | '[' array-elements ']' | 'await' expression`
pub open spec fn spec_parse_primary(toks: Seq<SpecToken>, i: int) -> Option<(SpecExpr, int)>
    decreases toks.len() - i, 1int,
{
    if !(0 <= i < toks.len()) {
        None
    } else {
        match toks[i] {
            SpecToken::NumberLiteral(text) => match spec_parse_i64(text) {
                Some(n) => Some((SpecExpr::Number(n), i + 1)),
                None => None,
            },
            SpecToken::StringLiteral(s) => Some((SpecExpr::String(s), i + 1)),
            SpecToken::BooleanLiteral(b) => Some((SpecExpr::Boolean(b), i + 1)),
            SpecToken::Identifier(id) => Some((SpecExpr::Identifier(id), i + 1)),
            SpecToken::LParen => match spec_parse_expression(toks, i + 1) {
                Some((e, j)) => {
                    if j < toks.len() && toks[j] is RParen {
                        Some((e, j + 1))
                    } else {
                        None
                    }
                },
                None => None,
            },
            SpecToken::LBracket => spec_parse_array(toks, i),
            SpecToken::Await => match spec_parse_expression(toks, i + 1) {
                Some((e, j)) => Some((SpecExpr::Await(Box::new(e)), j)),
                None => None,
            },
            _ => None,
        }
    }
}

/// `'[' array-elements ']'`, entered at the opening bracket.
pub open spec fn spec_parse_array(toks: Seq<SpecToken>, i: int) -> Option<(SpecExpr, int)>
    decreases toks.len() - i, 0int,
{
    if !(0 <= i < toks.len()) || !(toks[i] is LBracket) {
        None
    } else {
        match spec_parse_array_elements(toks, i + 1) {
            Some((es, j)) => Some((SpecExpr::Array(es), j)),
            None => None,
        }
    }
}

/// Comma-separated expressions up to and including a closing bracket; a
/// trailing comma before the bracket is tolerated.
pub open spec fn spec_parse_array_elements(toks: Seq<SpecToken>, i: int) -> Option<
    (Seq<SpecExpr>, int),
>
    decreases toks.len() - i, 5int,
{
    if !(0 <= i < toks.len()) {
        None
    } else if toks[i] is RBracket {
        Some((Seq::empty(), i + 1))
    } else {
        match spec_parse_expression(toks, i) {
            Some((e, j)) => {
                if i < j && j < toks.len() {
                    if toks[j] is Comma {
                        match spec_parse_array_elements(toks, j + 1) {
                            Some((rest, k)) => Some((seq![e] + rest, k)),
                            None => None,
                        }
                    } else if toks[j] is RBracket {
                        Some((seq![e], j + 1))
                    } else {
                        None
                    }
                } else {
                    None
                }
            },
            None => None,
        }
    }
}

/// Comma-separated call arguments up to and including a closing parenthesis;
/// a trailing comma before it is tolerated.
pub open spec fn spec_parse_call_args(toks: Seq<SpecToken>, i: int) -> Option<
    (Seq<SpecExpr>, int),
>
    decreases toks.len() - i, 5int,
{
    if !(0 <= i < toks.len()) {
        None
    } else if toks[i] is RParen {
        Some((Seq::empty(), i + 1))
    } else {
        match spec_parse_expression(toks, i) {
            Some((e, j)) => {
                if i < j && j < toks.len() {
                    if toks[j] is Comma {
                        match spec_parse_call_args(toks, j + 1) {
                            Some((rest, k)) => Some((seq![e] + rest, k)),
                            None => None,
                        }
                    } else if toks[j] is RParen {
                        Some((seq![e], j + 1))
                    } else {
                        None
                    }
                } else {
                    None
                }
            },
            None => None,
        }
    }
}

/// The `*` and `/` continuation of a factor, left-associative.
pub open spec fn spec_parse_factor_rest(toks: Seq<SpecToken>, i: int, acc: SpecExpr) -> Option<
    (SpecExpr, int),
>
    decreases toks.len() - i, 2int,
{
    if !(0 <= i < toks.len()) {
        Some((acc, i))
    } else if toks[i] is Star || toks[i] is Slash {
        let op = if toks[i] is Star {
            BinOp::Multiply
        } else {
            BinOp::Divide
        };
        match spec_parse_primary(toks, i + 1) {
            Some((r, j)) => {
                if i < j && j <= toks.len() {
                    spec_parse_factor_rest(
                        toks,
                        j,
                        SpecExpr::BinaryOp(Box::new(acc), op, Box::new(r)),
                    )
                } else {
                    None
                }
            },
            None => None,
        }
    } else {
        Some((acc, i))
    }
}

/// `factor := primary ( ('*' | '/') primary )*`
pub open spec fn spec_parse_factor(toks: Seq<SpecToken>, i: int) -> Option<(SpecExpr, int)>
    decreases toks.len() - i, 2int,
{
    match spec_parse_primary(toks, i) {
        Some((e, j)) => {
            if i < j && j <= toks.len() {
                spec_parse_factor_rest(toks, j, e)
            } else {
                None
            }
        },
        None => None,
    }
}

/// The `+` and `-` continuation of a term, left-associative.
pub open spec fn spec_parse_term_rest(toks: Seq<SpecToken>, i: int, acc: SpecExpr) -> Option<
    (SpecExpr, int),
>
    decreases toks.len() - i, 3int,
{
    if !(0 <= i < toks.len()) {
        Some((acc, i))
    } else if toks[i] is Plus || toks[i] is Minus {
        let op = if toks[i] is Plus {
            BinOp::Add
        } else {
            BinOp::Subtract
        };
        match spec_parse_factor(toks, i + 1) {
            Some((r, j)) => {
                if i < j && j <= toks.len() {
                    spec_parse_term_rest(toks, j, SpecExpr::BinaryOp(Box::new(acc), op, Box::new(r)))
                } else {
                    None
                }
            },
            None => None,
        }
    } else {
        Some((acc, i))
    }
}

/// `term := factor ( ('+' | '-') factor )*`
pub open spec fn spec_parse_term(toks: Seq<SpecToken>, i: int) -> Option<(SpecExpr, int)>
    decreases toks.len() - i, 3int,
{
    match spec_parse_factor(toks, i) {
        Some((e, j)) => {
            if i < j && j <= toks.len() {
                spec_parse_term_rest(toks, j, e)
            } else {
                None
            }
        },
        None => None,
    }
}

/// `expression := term`
pub open spec fn spec_parse_expression(toks: Seq<SpecToken>, i: int) -> Option<(SpecExpr, int)>
    decreases toks.len() - i, 4int,
{
    spec_parse_term(toks, i)
}

/// `variable-declaration := identifier '=' expression ';'`, entered just
/// after the `venti` keyword.
pub open spec fn spec_parse_var_decl(toks: Seq<SpecToken>, i: int) -> Option<(SpecStatement, int)>
    decreases toks.len() - i, 5int,
{
    if !(0 <= i < toks.len()) {
        None
    } else {
        match toks[i] {
            SpecToken::Identifier(id) => {
                if i + 1 < toks.len() && toks[i + 1] is Equals {
                    match spec_parse_expression(toks, i + 2) {
                        Some((e, j)) => {
                            if j < toks.len() && toks[j] is Semicolon {
                                Some(
                                    (
                                        SpecStatement::VariableDeclaration {
                                            identifier: id,
                                            value: e,
                                        },
                                        j + 1,
                                    ),
                                )
                            } else {
                                None
                            }
                        },
                        None => None,
                    }
                } else {
                    None
                }
            },
            _ => None,
        }
    }
}

/// `print := expression ';'`, entered just after the `printventi` keyword.
pub open spec fn spec_parse_print(toks: Seq<SpecToken>, i: int) -> Option<(SpecStatement, int)>
    decreases toks.len() - i, 5int,
{
    match spec_parse_expression(toks, i) {
        Some((e, j)) => {
            if 0 <= j < toks.len() && toks[j] is Semicolon {
                Some((SpecStatement::Print(e), j + 1))
            } else {
                None
            }
        },
        None => None,
    }
}

/// A statement that starts with a bare identifier: a function call
/// `identifier '(' arguments ')'`, or a variable assignment
/// `identifier expression ';'`.
pub open spec fn spec_parse_func_or_var(toks: Seq<SpecToken>, i: int) -> Option<
    (SpecStatement, int),
>
    decreases toks.len() - i, 5int,
{
    if !(0 <= i < toks.len()) {
        None
    } else {
        match toks[i] {
            SpecToken::Identifier(id) => {
                if i + 1 < toks.len() && toks[i + 1] is LParen {
                    match spec_parse_call_args(toks, i + 2) {
                        Some((args, j)) => Some(
                            (SpecStatement::FunctionCall { identifier: id, args }, j),
                        ),
                        None => None,
                    }
                } else {
                    match spec_parse_expression(toks, i + 1) {
                        Some((e, j)) => {
                            if j < toks.len() && toks[j] is Semicolon {
                                Some(
                                    (
                                        SpecStatement::VariableAssignment {
                                            identifier: id,
                                            value: e,
                                        },
                                        j + 1,
                                    ),
                                )
                            } else {
                                None
                            }
                        },
                        None => None,
                    }
                }
            },
            _ => None,
        }
    }
}

/// Statement dispatch by leading token.
pub open spec fn spec_parse_statement(toks: Seq<SpecToken>, i: int) -> Option<(SpecStatement, int)>
    decreases toks.len() - i, 6int,
{
    if !(0 <= i < toks.len()) {
        None
    } else {
        match toks[i] {
            SpecToken::Venti => spec_parse_var_decl(toks, i + 1),
            SpecToken::Print => spec_parse_print(toks, i + 1),
            SpecToken::Identifier(_) => spec_parse_func_or_var(toks, i),
            SpecToken::Async => {
                if i + 2 < toks.len() {
                    match (toks[i + 1], toks[i + 2]) {
                        (SpecToken::Identifier(id), SpecToken::LBrace) => {
                            match spec_parse_block(toks, i + 3) {
                                Some((body, j)) => Some(
                                    (SpecStatement::AsyncFunction { identifier: id, body }, j),
                                ),
                                None => None,
                            }
                        },
                        _ => None,
                    }
                } else {
                    None
                }
            },
            _ => None,
        }
    }
}

/// Statements up to and including a closing brace.
pub open spec fn spec_parse_block(toks: Seq<SpecToken>, i: int) -> Option<
    (Seq<SpecStatement>, int),
>
    decreases toks.len() - i, 7int,
{
    if !(0 <= i < toks.len()) {
        None
    } else if toks[i] is RBrace {
        Some((Seq::empty(), i + 1))
    } else {
        match spec_parse_statement(toks, i) {
            Some((s, j)) => {
                if i < j && j <= toks.len() {
                    match spec_parse_block(toks, j) {
                        Some((rest, k)) => Some((seq![s] + rest, k)),
                        None => None,
                    }
                } else {
                    None
                }
            },
            None => None,
        }
    }
}

/// Statements up to the end of the input.
pub open spec fn spec_parse_stmts(toks: Seq<SpecToken>, i: int) -> Option<
    (Seq<SpecStatement>, int),
>
    decreases toks.len() - i, 7int,
{
    if !(0 <= i < toks.len()) {
        Some((Seq::empty(), i))
    } else {
        match spec_parse_statement(toks, i) {
            Some((s, j)) => {
                if i < j && j <= toks.len() {
                    match spec_parse_stmts(toks, j) {
                        Some((rest, k)) => Some((seq![s] + rest, k)),
                        None => None,
                    }
                } else {
                    None
                }
            },
            None => None,
        }
    }
}

/// The whole program a token sequence derives, if it is grammatical.
pub open spec fn spec_parse_program(toks: Seq<SpecToken>) -> Option<Seq<SpecStatement>> {
    match spec_parse_stmts(toks, 0) {
        Some((ss, _)) => Some(ss),
        None => None,
    }
}

// ---------------------------------------------------------------------------
// The executable parser
// ---------------------------------------------------------------------------
/// A parser over one token sequence: a cursor that derives one construct per
/// call of its parsing methods.
pub struct Parser {
    tokens: Vec<Token>,
    pos: usize,
}

impl Parser {
    /// The models of the tokens being parsed.
    pub closed spec fn spec_tokens(self) -> Seq<SpecToken> {
        self.tokens.deep_view()
    }

    /// The cursor position.
    pub closed spec fn spec_pos(self) -> int {
        self.pos as int
    }

    /// The cursor sits inside the token sequence.
    pub closed spec fn wf(self) -> bool {
        self.pos <= self.tokens.len()
    }

    /// The tokens are unchanged and the cursor has not moved backward.
    pub open spec fn advanced_from(self, pre: Parser) -> bool {
        &&& self.wf()
        &&& self.spec_tokens() == pre.spec_tokens()
        &&& pre.spec_pos() <= self.spec_pos()
    }

    /// A parser at the start of `tokens`.
    pub fn new(tokens: Vec<Token>) -> (r: Parser)
        ensures
            r.wf(),
            r.spec_tokens() == tokens.deep_view(),
            r.spec_pos() == 0,
    {
        Parser { tokens, pos: 0 }
    }

    /// The current token, without consuming it; `None` past the last one.
    pub fn current_token(&self) -> (r: Option<&Token>)
        requires
            self.wf(),
        ensures
            match r {
                Some(t) => self.spec_pos() < self.spec_tokens().len() && t.deep_view()
                    == self.spec_tokens()[self.spec_pos()],
                None => self.spec_pos() == self.spec_tokens().len(),
            },
    {
        if self.pos < self.tokens.len() {
            Some(&self.tokens[self.pos])
        } else {
            None
        }
    }

    /// Consumes the current token, if any.
    pub fn advance(&mut self)
        requires
            old(self).wf(),
        ensures
            final(self).wf(),
            final(self).spec_tokens() == old(self).spec_tokens(),
            final(self).spec_pos() == if old(self).spec_pos() < old(self).spec_tokens().len() {
                old(self).spec_pos() + 1
            } else {
                old(self).spec_pos()
            },
    {
        if self.pos < self.tokens.len() {
            self.pos = self.pos + 1;
        }
    }

    /// A primary expression: exactly what `spec_parse_primary` derives at the
    /// cursor, or a `SyntaxError` exactly when it derives nothing.
    pub fn primary(&mut self) -> (r: Result<Expr, VentiError>)
        requires
            old(self).wf(),
        ensures
            final(self).advanced_from(*old(self)),
            match r {
                Ok(e) => old(self).spec_pos() < final(self).spec_pos() && spec_parse_primary(
                    old(self).spec_tokens(),
                    old(self).spec_pos(),
                ) == Some((e.deep_view(), final(self).spec_pos())),
                Err(err) => spec_parse_primary(old(self).spec_tokens(), old(self).spec_pos())
                    is None && err is SyntaxError && ({
                    let toks = old(self).spec_tokens();
                    let i0 = old(self).spec_pos();
                    &&& (i0 >= toks.len()) ==> err.spec_message()
                        == "Unexpected end of input in expression"@
                    &&& i0 < toks.len() ==> (match toks[i0] {
                        SpecToken::NumberLiteral(_) => err.spec_message()
                            == "Invalid number literal"@,
                        SpecToken::StringLiteral(_) => true,
                        SpecToken::BooleanLiteral(_) => true,
                        SpecToken::Identifier(_) => true,
                        SpecToken::LParen => (match spec_parse_expression(toks, i0 + 1) {
                            Some(_) => err.spec_message() == "Expected ')'"@,
                            None => true,
                        }),
                        SpecToken::LBracket => true,
                        SpecToken::Await => true,
                        _ => err.spec_message() == "Unexpected token in expression: "@
                            + token_text(toks[i0]),
                    })
                }),
            },
        decreases old(self).spec_tokens().len() - old(self).spec_pos(), 1int,
    {
        match self.current_token() {
            None => Err(VentiError::SyntaxError("Unexpected end of input in expression".to_owned())),
            Some(t) => match t {
                Token::NumberLiteral(text) => match parse_i64_text(text.as_str()) {
                    Some(n) => {
                        self.advance();
                        Ok(Expr::Number(n))
                    },
                    None => Err(VentiError::SyntaxError("Invalid number literal".to_owned())),
                },
                Token::StringLiteral(s) => {
                    let v = s.clone();
                    self.advance();
                    Ok(Expr::String(v))
                },
                Token::BooleanLiteral(b) => {
                    let v = *b;
                    self.advance();
                    Ok(Expr::Boolean(v))
                },
                Token::Identifier(id) => {
                    let v = id.clone();
                    self.advance();
                    Ok(Expr::Identifier(v))
                },
                Token::LParen => {
                    self.advance();
                    let e = self.expression()?;
                    if matches!(self.current_token(), Some(Token::RParen)) {
                        self.advance();
                        Ok(e)
                    } else {
                        Err(VentiError::SyntaxError("Expected ')'".to_owned()))
                    }
                },
                Token::LBracket => self.parse_array(),
                Token::Await => {
                    self.advance();
                    let e = self.expression()?;
                    Ok(Expr::Await(Box::new(e)))
                },
                other => {
                    let mut msg = "Unexpected token in expression: ".to_owned();
                    msg.append(other.text().as_str());
                    Err(VentiError::SyntaxError(msg))
                },
            },
        }
    }

    /// An array literal, entered at the opening bracket: exactly what
    /// `spec_parse_array` derives at the cursor.
    #[verifier::loop_isolation(false)]
    pub fn parse_array(&mut self) -> (r: Result<Expr, VentiError>)
        requires
            old(self).wf(),
        ensures
            final(self).advanced_from(*old(self)),
            match r {
                Ok(e) => old(self).spec_pos() < final(self).spec_pos() && spec_parse_array(
                    old(self).spec_tokens(),
                    old(self).spec_pos(),
                ) == Some((e.deep_view(), final(self).spec_pos())),
                Err(err) => spec_parse_array(old(self).spec_tokens(), old(self).spec_pos()) is None
                    && err is SyntaxError,
            },
        decreases old(self).spec_tokens().len() - old(self).spec_pos(), 0int,
    {
        let ghost toks = self.spec_tokens();
        let ghost i0 = self.spec_pos();
        if !matches!(self.current_token(), Some(Token::LBracket)) {
            return Err(VentiError::SyntaxError("Expected '['".to_owned()));
        }
        self.advance();
        let mut elements: Vec<Expr> = Vec::new();
        proof {
            lemma_deep_view_exprs(elements@);
        }
        loop
            invariant
                self.wf(),
                self.spec_tokens() == toks,
                i0 < self.spec_pos() <= toks.len(),
                spec_parse_array(toks, i0) == (match spec_parse_array_elements(
                    toks,
                    self.spec_pos(),
                ) {
                    Some((rest, k)) => Some(
                        (SpecExpr::Array(deep_view_exprs(elements@) + rest), k),
                    ),
                    None => None::<(SpecExpr, int)>,
                }),
            decreases toks.len() - self.spec_pos(),
        {
            if matches!(self.current_token(), Some(Token::RBracket)) {
                self.advance();
                proof {
                    assert(deep_view_exprs(elements@) + Seq::<SpecExpr>::empty() =~= deep_view_exprs(
                        elements@,
                    ));
                }
                return Ok(Expr::Array(elements));
            }
            if matches!(self.current_token(), None) {
                return Err(VentiError::SyntaxError("Expected ']' in array literal".to_owned()));
            }
            let ghost p = self.spec_pos();
            let e = self.expression()?;
            let ghost q = self.spec_pos();
            let comma = matches!(self.current_token(), Some(Token::Comma));
            let close = matches!(self.current_token(), Some(Token::RBracket));
            if comma {
                self.advance();
                let ghost pre = elements@;
                elements.push(e);
                proof {
                    lemma_deep_view_exprs_push(pre, e);
                    if spec_parse_array_elements(toks, q + 1) is Some {
                        let (rest, k) = spec_parse_array_elements(toks, q + 1).unwrap();
                        assert((deep_view_exprs(pre) + (seq![e.deep_view()] + rest)) =~= (
                        deep_view_exprs(pre) + seq![e.deep_view()]) + rest);
                    }
                }
            } else if close {
                self.advance();
                let ghost pre = elements@;
                elements.push(e);
                proof {
                    lemma_deep_view_exprs_push(pre, e);
                    assert((deep_view_exprs(pre) + seq![e.deep_view()]) =~= deep_view_exprs(pre) + (
                    seq![e.deep_view()] + Seq::<SpecExpr>::empty()));
                    assert(deep_view_exprs(pre) + (seq![e.deep_view()]
                        + Seq::<SpecExpr>::empty()) =~= deep_view_exprs(pre) + seq![e.deep_view()]);
                }
                return Ok(Expr::Array(elements));
            } else {
                return Err(
                    VentiError::SyntaxError("Expected ',' or ']' in array literal".to_owned()),
                );
            }
        }
    }

    /// A factor: exactly what `spec_parse_factor` derives at the cursor.
    #[verifier::loop_isolation(false)]
    pub fn factor(&mut self) -> (r: Result<Expr, VentiError>)
        requires
            old(self).wf(),
        ensures
            final(self).advanced_from(*old(self)),
            match r {
                Ok(e) => old(self).spec_pos() < final(self).spec_pos() && spec_parse_factor(
                    old(self).spec_tokens(),
                    old(self).spec_pos(),
                ) == Some((e.deep_view(), final(self).spec_pos())),
                Err(err) => spec_parse_factor(old(self).spec_tokens(), old(self).spec_pos())
                    is None && err is SyntaxError,
            },
        decreases old(self).spec_tokens().len() - old(self).spec_pos(), 2int,
    {
        let ghost toks = self.spec_tokens();
        let ghost i0 = self.spec_pos();
        let mut left = self.primary()?;
        loop
            invariant
                self.wf(),
                self.spec_tokens() == toks,
                i0 < self.spec_pos() <= toks.len(),
                spec_parse_factor(toks, i0) == spec_parse_factor_rest(
                    toks,
                    self.spec_pos(),
                    left.deep_view(),
                ),
            decreases toks.len() - self.spec_pos(),
        {
            let star = matches!(self.current_token(), Some(Token::Star));
            let slash = matches!(self.current_token(), Some(Token::Slash));
            if star || slash {
                self.advance();
                let right = self.primary()?;
                let op = if star {
                    BinOp::Multiply
                } else {
                    BinOp::Divide
                };
                left = Expr::BinaryOp(Box::new(left), op, Box::new(right));
            } else {
                return Ok(left);
            }
        }
    }

    /// A term: exactly what `spec_parse_term` derives at the cursor.
    #[verifier::loop_isolation(false)]
    pub fn term(&mut self) -> (r: Result<Expr, VentiError>)
        requires
            old(self).wf(),
        ensures
            final(self).advanced_from(*old(self)),
            match r {
                Ok(e) => old(self).spec_pos() < final(self).spec_pos() && spec_parse_term(
                    old(self).spec_tokens(),
                    old(self).spec_pos(),
                ) == Some((e.deep_view(), final(self).spec_pos())),
                Err(err) => spec_parse_term(old(self).spec_tokens(), old(self).spec_pos()) is None
                    && err is SyntaxError,
            },
        decreases old(self).spec_tokens().len() - old(self).spec_pos(), 3int,
    {
        let ghost toks = self.spec_tokens();
        let ghost i0 = self.spec_pos();
        let mut left = self.factor()?;
        loop
            invariant
                self.wf(),
                self.spec_tokens() == toks,
                i0 < self.spec_pos() <= toks.len(),
                spec_parse_term(toks, i0) == spec_parse_term_rest(
                    toks,
                    self.spec_pos(),
                    left.deep_view(),
                ),
            decreases toks.len() - self.spec_pos(),
        {
            let plus = matches!(self.current_token(), Some(Token::Plus));
            let minus = matches!(self.current_token(), Some(Token::Minus));
            if plus || minus {
                self.advance();
                let right = self.factor()?;
                let op = if plus {
                    BinOp::Add
                } else {
                    BinOp::Subtract
                };
                left = Expr::BinaryOp(Box::new(left), op, Box::new(right));
            } else {
                return Ok(left);
            }
        }
    }

    /// An expression: exactly what `spec_parse_expression` derives at the
    /// cursor (an expression is a term).
    pub fn expression(&mut self) -> (r: Result<Expr, VentiError>)
        requires
            old(self).wf(),
        ensures
            final(self).advanced_from(*old(self)),
            match r {
                Ok(e) => old(self).spec_pos() < final(self).spec_pos() && spec_parse_expression(
                    old(self).spec_tokens(),
                    old(self).spec_pos(),
                ) == Some((e.deep_view(), final(self).spec_pos())),
                Err(err) => spec_parse_expression(old(self).spec_tokens(), old(self).spec_pos())
                    is None && err is SyntaxError,
            },
        decreases old(self).spec_tokens().len() - old(self).spec_pos(), 4int,
    {
        self.term()
    }

    /// A variable declaration, entered just after the `venti` keyword:
    /// exactly what `spec_parse_var_decl` derives at the cursor.
    pub fn variable_declaration(&mut self) -> (r: Result<Statement, VentiError>)
        requires
            old(self).wf(),
        ensures
            final(self).advanced_from(*old(self)),
            match r {
                Ok(s) => old(self).spec_pos() < final(self).spec_pos() && spec_parse_var_decl(
                    old(self).spec_tokens(),
                    old(self).spec_pos(),
                ) == Some((s.deep_view(), final(self).spec_pos())),
                Err(err) => spec_parse_var_decl(old(self).spec_tokens(), old(self).spec_pos())
                    is None && err is SyntaxError && ({
                    let toks = old(self).spec_tokens();
                    let i0 = old(self).spec_pos();
                    &&& (i0 >= toks.len() || !(toks[i0] is Identifier)) ==> err.spec_message()
                        == "Expected identifier in variable declaration."@
                    &&& (i0 < toks.len() && toks[i0] is Identifier && (i0 + 1 >= toks.len() || !(
                    toks[i0 + 1] is Equals))) ==> err.spec_message()
                        == "Expected '=' in variable declaration."@
                    &&& (i0 + 1 < toks.len() && toks[i0] is Identifier && toks[i0 + 1] is Equals)
                        ==> (match spec_parse_expression(toks, i0 + 2) {
                        Some(_) => err.spec_message()
                            == "Expected ';' at the end of variable declaration."@,
                        None => true,
                    })
                }),
            },
        decreases old(self).spec_tokens().len() - old(self).spec_pos(), 5int,
    {
        let name = match self.current_token() {
            Some(t) => match t {
                Token::Identifier(id) => id.clone(),
                _ => {
                    return Err(
                        VentiError::SyntaxError(
                            "Expected identifier in variable declaration.".to_owned(),
                        ),
                    );
                },
            },
            None => {
                return Err(
                    VentiError::SyntaxError(
                        "Expected identifier in variable declaration.".to_owned(),
                    ),
                );
            },
        };
        self.advance();
        if !matches!(self.current_token(), Some(Token::Equals)) {
            return Err(VentiError::SyntaxError("Expected '=' in variable declaration.".to_owned()));
        }
        self.advance();
        let value = self.expression()?;
        if matches!(self.current_token(), Some(Token::Semicolon)) {
            self.advance();
            Ok(Statement::VariableDeclaration { identifier: name, value })
        } else {
            Err(
                VentiError::SyntaxError(
                    "Expected ';' at the end of variable declaration.".to_owned(),
                ),
            )
        }
    }

    /// A print statement, entered just after the `printventi` keyword:
    /// exactly what `spec_parse_print` derives at the cursor.
    pub fn print_statement(&mut self) -> (r: Result<Statement, VentiError>)
        requires
            old(self).wf(),
        ensures
            final(self).advanced_from(*old(self)),
            match r {
                Ok(s) => old(self).spec_pos() < final(self).spec_pos() && spec_parse_print(
                    old(self).spec_tokens(),
                    old(self).spec_pos(),
                ) == Some((s.deep_view(), final(self).spec_pos())),
                Err(err) => spec_parse_print(old(self).spec_tokens(), old(self).spec_pos())
                    is None && err is SyntaxError && (match spec_parse_expression(
                    old(self).spec_tokens(),
                    old(self).spec_pos(),
                ) {
                    Some(_) => err.spec_message()
                        == "Expected ';' at the end of print statement."@,
                    None => true,
                }),
            },
        decreases old(self).spec_tokens().len() - old(self).spec_pos(), 5int,
    {
        let value = self.expression()?;
        if matches!(self.current_token(), Some(Token::Semicolon)) {
            self.advance();
            Ok(Statement::Print(value))
        } else {
            Err(VentiError::SyntaxError("Expected ';' at the end of print statement.".to_owned()))
        }
    }

    /// A statement that starts with a bare identifier — a function call or a
    /// variable assignment: exactly what `spec_parse_func_or_var` derives.
    #[verifier::loop_isolation(false)]
    pub fn function_or_variable(&mut self) -> (r: Result<Statement, VentiError>)
        requires
            old(self).wf(),
        ensures
            final(self).advanced_from(*old(self)),
            match r {
                Ok(s) => old(self).spec_pos() < final(self).spec_pos() && spec_parse_func_or_var(
                    old(self).spec_tokens(),
                    old(self).spec_pos(),
                ) == Some((s.deep_view(), final(self).spec_pos())),
                Err(err) => spec_parse_func_or_var(old(self).spec_tokens(), old(self).spec_pos())
                    is None && err is SyntaxError && ({
                    let toks = old(self).spec_tokens();
                    let i0 = old(self).spec_pos();
                    (i0 < toks.len() && toks[i0] is Identifier && !(i0 + 1 < toks.len() && toks[i0
                        + 1] is LParen)) ==> (match spec_parse_expression(toks, i0 + 1) {
                        Some(_) => err.spec_message()
                            == "Expected ';' after variable assignment."@,
                        None => true,
                    })
                }),
            },
        decreases old(self).spec_tokens().len() - old(self).spec_pos(), 5int,
    {
        let ghost toks = self.spec_tokens();
        let ghost i0 = self.spec_pos();
        let name = match self.current_token() {
            Some(t) => match t {
                Token::Identifier(id) => id.clone(),
                _ => {
                    return Err(VentiError::SyntaxError("Expected identifier".to_owned()));
                },
            },
            None => {
                return Err(VentiError::SyntaxError("Expected identifier".to_owned()));
            },
        };
        self.advance();
        if matches!(self.current_token(), Some(Token::LParen)) {
            self.advance();
            let mut args: Vec<Expr> = Vec::new();
            proof {
                lemma_deep_view_exprs(args@);
            }
            loop
                invariant
                    self.wf(),
                    self.spec_tokens() == toks,
                    i0 + 2 <= self.spec_pos() <= toks.len(),
                    name@ == toks[i0]->Identifier_0,
                    spec_parse_func_or_var(toks, i0) == (match spec_parse_call_args(
                        toks,
                        self.spec_pos(),
                    ) {
                        Some((rest, k)) => Some(
                            (
                                SpecStatement::FunctionCall {
                                    identifier: name@,
                                    args: deep_view_exprs(args@) + rest,
                                },
                                k,
                            ),
                        ),
                        None => None::<(SpecStatement, int)>,
                    }),
                decreases toks.len() - self.spec_pos(),
            {
                if matches!(self.current_token(), Some(Token::RParen)) {
                    self.advance();
                    proof {
                        assert(deep_view_exprs(args@) + Seq::<SpecExpr>::empty() =~= deep_view_exprs(
                            args@,
                        ));
                    }
                    return Ok(Statement::FunctionCall { identifier: name, args });
                }
                if matches!(self.current_token(), None) {
                    return Err(VentiError::SyntaxError("Expected ')' in function call".to_owned()));
                }
                let ghost q0 = self.spec_pos();
                let e = self.expression()?;
                let ghost q = self.spec_pos();
                let comma = matches!(self.current_token(), Some(Token::Comma));
                let close = matches!(self.current_token(), Some(Token::RParen));
                if comma {
                    self.advance();
                    let ghost pre = args@;
                    args.push(e);
                    proof {
                        lemma_deep_view_exprs_push(pre, e);
                        if spec_parse_call_args(toks, q + 1) is Some {
                            let (rest, k) = spec_parse_call_args(toks, q + 1).unwrap();
                            assert((deep_view_exprs(pre) + (seq![e.deep_view()] + rest)) =~= (
                            deep_view_exprs(pre) + seq![e.deep_view()]) + rest);
                        }
                    }
                } else if close {
                    self.advance();
                    let ghost pre = args@;
                    args.push(e);
                    proof {
                        lemma_deep_view_exprs_push(pre, e);
                        assert(deep_view_exprs(pre) + (seq![e.deep_view()]
                            + Seq::<SpecExpr>::empty()) =~= deep_view_exprs(pre) + seq![
                            e.deep_view(),
                        ]);
                    }
                    return Ok(Statement::FunctionCall { identifier: name, args });
                } else {
                    return Err(
                        VentiError::SyntaxError(
                            "Expected ',' or ')' in function call".to_owned(),
                        ),
                    );
                }
            }
        } else {
            let value = self.expression()?;
            if matches!(self.current_token(), Some(Token::Semicolon)) {
                self.advance();
                Ok(Statement::VariableAssignment { identifier: name, value })
            } else {
                Err(
                    VentiError::SyntaxError("Expected ';' after variable assignment.".to_owned()),
                )
            }
        }
    }

    /// One statement, dispatched by its leading token: exactly what
    /// `spec_parse_statement` derives at the cursor.
    pub fn statement(&mut self) -> (r: Result<Statement, VentiError>)
        requires
            old(self).wf(),
        ensures
            final(self).advanced_from(*old(self)),
            match r {
                Ok(s) => old(self).spec_pos() < final(self).spec_pos() && spec_parse_statement(
                    old(self).spec_tokens(),
                    old(self).spec_pos(),
                ) == Some((s.deep_view(), final(self).spec_pos())),
                Err(err) => spec_parse_statement(old(self).spec_tokens(), old(self).spec_pos())
                    is None && err is SyntaxError && ({
                    let toks = old(self).spec_tokens();
                    let i0 = old(self).spec_pos();
                    &&& (i0 >= toks.len()) ==> err.spec_message()
                        == "Unexpected token at start of statement: "@ + "end of input"@
                    &&& i0 < toks.len() ==> (match toks[i0] {
                        SpecToken::Venti => true,
                        SpecToken::Print => true,
                        SpecToken::Identifier(_) => true,
                        SpecToken::Async => true,
                        _ => err.spec_message() == "Unexpected token at start of statement: "@
                            + token_text(toks[i0]),
                    })
                }),
            },
        decreases old(self).spec_tokens().len() - old(self).spec_pos(), 6int,
    {
        if matches!(self.current_token(), Some(Token::Venti)) {
            self.advance();
            return self.variable_declaration();
        }
        if matches!(self.current_token(), Some(Token::Print)) {
            self.advance();
            return self.print_statement();
        }
        if matches!(self.current_token(), Some(Token::Identifier(_))) {
            return self.function_or_variable();
        }
        if matches!(self.current_token(), Some(Token::Async)) {
            self.advance();
            let name = match self.current_token() {
                Some(t) => match t {
                    Token::Identifier(id) => id.clone(),
                    _ => {
                        return Err(
                            VentiError::SyntaxError(
                                "Expected function name after 'async'".to_owned(),
                            ),
                        );
                    },
                },
                None => {
                    return Err(
                        VentiError::SyntaxError("Expected function name after 'async'".to_owned()),
                    );
                },
            };
            self.advance();
            if !matches!(self.current_token(), Some(Token::LBrace)) {
                return Err(
                    VentiError::SyntaxError(
                        "Expected '{' to open async function body".to_owned(),
                    ),
                );
            }
            self.advance();
            let body = self.block()?;
            return Ok(Statement::AsyncFunction { identifier: name, body });
        }
        let mut msg = "Unexpected token at start of statement: ".to_owned();
        match self.current_token() {
            Some(t) => msg.append(t.text().as_str()),
            None => msg.append("end of input"),
        }
        Err(VentiError::SyntaxError(msg))
    }

    /// Statements up to and including a closing brace: exactly what
    /// `spec_parse_block` derives at the cursor.
    #[verifier::loop_isolation(false)]
    pub fn block(&mut self) -> (r: Result<Vec<Statement>, VentiError>)
        requires
            old(self).wf(),
        ensures
            final(self).advanced_from(*old(self)),
            match r {
                Ok(ss) => old(self).spec_pos() < final(self).spec_pos() && spec_parse_block(
                    old(self).spec_tokens(),
                    old(self).spec_pos(),
                ) == Some((deep_view_stmts(ss@), final(self).spec_pos())),
                Err(err) => spec_parse_block(old(self).spec_tokens(), old(self).spec_pos())
                    is None && err is SyntaxError,
            },
        decreases old(self).spec_tokens().len() - old(self).spec_pos(), 7int,
    {
        let ghost toks = self.spec_tokens();
        let ghost i0 = self.spec_pos();
        let mut body: Vec<Statement> = Vec::new();
        proof {
            lemma_deep_view_stmts(body@);
        }
        loop
            invariant
                self.wf(),
                self.spec_tokens() == toks,
                i0 <= self.spec_pos() <= toks.len(),
                spec_parse_block(toks, i0) == (match spec_parse_block(toks, self.spec_pos()) {
                    Some((rest, k)) => Some((deep_view_stmts(body@) + rest, k)),
                    None => None::<(Seq<SpecStatement>, int)>,
                }),
            decreases toks.len() - self.spec_pos(),
        {
            if matches!(self.current_token(), Some(Token::RBrace)) {
                self.advance();
                proof {
                    assert(deep_view_stmts(body@) + Seq::<SpecStatement>::empty() =~= deep_view_stmts(
                        body@,
                    ));
                }
                return Ok(body);
            }
            let ghost p = self.spec_pos();
            let s = self.statement()?;
            let ghost q = self.spec_pos();
            let ghost pre = body@;
            body.push(s);
            proof {
                lemma_deep_view_stmts_push(pre, body@[pre.len() as int]);
                if spec_parse_block(toks, q) is Some {
                    let (rest, k) = spec_parse_block(toks, q).unwrap();
                    assert((deep_view_stmts(pre) + (seq![body@[pre.len() as int].deep_view()]
                        + rest)) =~= (deep_view_stmts(pre) + seq![
                        body@[pre.len() as int].deep_view(),
                    ]) + rest);
                }
            }
        }
    }

    /// The whole program: exactly what `spec_parse_stmts` derives from the
    /// cursor to the end of the input, or the first `SyntaxError`.
    #[verifier::loop_isolation(false)]
    pub fn parse(&mut self) -> (r: Result<Vec<Statement>, VentiError>)
        requires
            old(self).wf(),
        ensures
            final(self).advanced_from(*old(self)),
            match r {
                Ok(ss) => spec_parse_stmts(old(self).spec_tokens(), old(self).spec_pos()) == Some(
                    (deep_view_stmts(ss@), final(self).spec_pos()),
                ) && final(self).spec_pos() == old(self).spec_tokens().len(),
                Err(err) => spec_parse_stmts(old(self).spec_tokens(), old(self).spec_pos())
                    is None && err is SyntaxError,
            },
        decreases old(self).spec_tokens().len() - old(self).spec_pos(), 7int,
    {
        let ghost toks = self.spec_tokens();
        let ghost i0 = self.spec_pos();
        let mut statements: Vec<Statement> = Vec::new();
        proof {
            lemma_deep_view_stmts(statements@);
        }
        loop
            invariant
                self.wf(),
                self.spec_tokens() == toks,
                i0 <= self.spec_pos() <= toks.len(),
                spec_parse_stmts(toks, i0) == (match spec_parse_stmts(toks, self.spec_pos()) {
                    Some((rest, k)) => Some((deep_view_stmts(statements@) + rest, k)),
                    None => None::<(Seq<SpecStatement>, int)>,
                }),
            decreases toks.len() - self.spec_pos(),
        {
            if matches!(self.current_token(), None) {
                proof {
                    assert(deep_view_stmts(statements@) + Seq::<SpecStatement>::empty()
                        =~= deep_view_stmts(statements@));
                }
                return Ok(statements);
            }
            let ghost p = self.spec_pos();
            let s = self.statement()?;
            let ghost q = self.spec_pos();
            let ghost pre = statements@;
            statements.push(s);
            proof {
                lemma_deep_view_stmts_push(pre, statements@[pre.len() as int]);
                if spec_parse_stmts(toks, q) is Some {
                    let (rest, k) = spec_parse_stmts(toks, q).unwrap();
                    assert((deep_view_stmts(pre) + (seq![statements@[pre.len() as int].deep_view()]
                        + rest)) =~= (deep_view_stmts(pre) + seq![
                        statements@[pre.len() as int].deep_view(),
                    ]) + rest);
                }
            }
        }
    }
}

} // verus!
