//! The lexer: turns Venti source text into a sequence of tokens.
//!
//! `spec_lex` is the mathematical definition of tokenization: it skips
//! whitespace, matches the longest token at the front of the input (a word
//! that spells a keyword is the keyword, never an identifier), and fails on
//! any text that matches no token rule. The executable `Lexer` produces one
//! token per `next_token` call and is proved to agree with `spec_lex`;
//! `lex` drives it over a whole input.

use vstd::prelude::*;

use crate::errors::VentiError;
use crate::token::Token;
use crate::token::SpecToken;
use crate::token::token_text;

verus! {

// ---------------------------------------------------------------------------
// Character classes
// ---------------------------------------------------------------------------
/// Whitespace that the lexer skips: space, tab, newline, form feed.
pub open spec fn is_skip_char(c: char) -> bool {
    c == ' ' || c == '\t' || c == '\n' || c == '\u{0C}'
}

/// A decimal digit.
pub open spec fn is_digit_char(c: char) -> bool {
    48 <= c as u32 && c as u32 <= 57
}

/// A character that may start an identifier: a letter or an underscore.
pub open spec fn is_ident_start_char(c: char) -> bool {
    (65 <= c as u32 && c as u32 <= 90) || (97 <= c as u32 && c as u32 <= 122) || c as u32 == 95
}

/// A character that may continue an identifier.
pub open spec fn is_ident_char(c: char) -> bool {
    is_ident_start_char(c) || is_digit_char(c)
}

fn skip_char(c: char) -> (r: bool)
    ensures
        r == is_skip_char(c),
{
    c == ' ' || c == '\t' || c == '\n' || c == '\u{0C}'
}

fn digit_char(c: char) -> (r: bool)
    ensures
        r == is_digit_char(c),
{
    let u: u32 = c as u32;
    48 <= u && u <= 57
}

fn ident_start_char(c: char) -> (r: bool)
    ensures
        r == is_ident_start_char(c),
{
    let u: u32 = c as u32;
    (65 <= u && u <= 90) || (97 <= u && u <= 122) || u == 95
}

fn ident_char(c: char) -> (r: bool)
    ensures
        r == is_ident_char(c),
{
    ident_start_char(c) || digit_char(c)
}

// ---------------------------------------------------------------------------
// Longest-match scan lengths
// ---------------------------------------------------------------------------
/// Length of the longest identifier-shaped prefix of `s`.
pub open spec fn ident_prefix_len(s: Seq<char>) -> nat
    decreases s.len(),
{
    if s.len() == 0 || !is_ident_char(s[0]) {
        0
    } else {
        1 + ident_prefix_len(s.skip(1))
    }
}

/// Length of the longest digit prefix of `s`.
pub open spec fn digit_prefix_len(s: Seq<char>) -> nat
    decreases s.len(),
{
    if s.len() == 0 || !is_digit_char(s[0]) {
        0
    } else {
        1 + digit_prefix_len(s.skip(1))
    }
}

/// Length of the longest prefix of `s` that contains no double quote.
pub open spec fn nonquote_prefix_len(s: Seq<char>) -> nat
    decreases s.len(),
{
    if s.len() == 0 || s[0] == '"' {
        0
    } else {
        1 + nonquote_prefix_len(s.skip(1))
    }
}

proof fn lemma_ident_prefix_len(s: Seq<char>, n: nat)
    requires
        n <= s.len(),
        forall|i: int| 0 <= i < n ==> is_ident_char(s[i]),
        n == s.len() || !is_ident_char(s[n as int]),
    ensures
        ident_prefix_len(s) == n,
    decreases n,
{
    if n == 0 {
    } else {
        assert(is_ident_char(s[0]));
        assert forall|i: int| 0 <= i < n - 1 implies is_ident_char(s.skip(1)[i]) by {
            assert(s.skip(1)[i] == s[i + 1]);
        }
        if n < s.len() {
            assert(s.skip(1)[n - 1] == s[n as int]);
        }
        lemma_ident_prefix_len(s.skip(1), (n - 1) as nat);
    }
}

proof fn lemma_digit_prefix_len(s: Seq<char>, n: nat)
    requires
        n <= s.len(),
        forall|i: int| 0 <= i < n ==> is_digit_char(s[i]),
        n == s.len() || !is_digit_char(s[n as int]),
    ensures
        digit_prefix_len(s) == n,
    decreases n,
{
    if n == 0 {
    } else {
        assert(is_digit_char(s[0]));
        assert forall|i: int| 0 <= i < n - 1 implies is_digit_char(s.skip(1)[i]) by {
            assert(s.skip(1)[i] == s[i + 1]);
        }
        if n < s.len() {
            assert(s.skip(1)[n - 1] == s[n as int]);
        }
        lemma_digit_prefix_len(s.skip(1), (n - 1) as nat);
    }
}

proof fn lemma_nonquote_prefix_len(s: Seq<char>, n: nat)
    requires
        n <= s.len(),
        forall|i: int| 0 <= i < n ==> s[i] != '"',
        n == s.len() || s[n as int] == '"',
    ensures
        nonquote_prefix_len(s) == n,
    decreases n,
{
    if n == 0 {
    } else {
        assert(s[0] != '"');
        assert forall|i: int| 0 <= i < n - 1 implies s.skip(1)[i] != '"' by {
            assert(s.skip(1)[i] == s[i + 1]);
        }
        if n < s.len() {
            assert(s.skip(1)[n - 1] == s[n as int]);
        }
        lemma_nonquote_prefix_len(s.skip(1), (n - 1) as nat);
    }
}

proof fn lemma_ident_prefix_len_bound(s: Seq<char>)
    ensures
        ident_prefix_len(s) <= s.len(),
    decreases s.len(),
{
    if s.len() == 0 || !is_ident_char(s[0]) {
    } else {
        lemma_ident_prefix_len_bound(s.skip(1));
    }
}

proof fn lemma_digit_prefix_len_bound(s: Seq<char>)
    ensures
        digit_prefix_len(s) <= s.len(),
    decreases s.len(),
{
    if s.len() == 0 || !is_digit_char(s[0]) {
    } else {
        lemma_digit_prefix_len_bound(s.skip(1));
    }
}

proof fn lemma_nonquote_prefix_props(s: Seq<char>)
    ensures
        nonquote_prefix_len(s) <= s.len(),
        nonquote_prefix_len(s) < s.len() ==> s[nonquote_prefix_len(s) as int] == '"',
    decreases s.len(),
{
    if s.len() == 0 || s[0] == '"' {
    } else {
        lemma_nonquote_prefix_props(s.skip(1));
        if nonquote_prefix_len(s) < s.len() {
            assert(s.skip(1)[nonquote_prefix_len(s.skip(1)) as int] == s[nonquote_prefix_len(
                s,
            ) as int]);
        }
    }
}

// ---------------------------------------------------------------------------
// The specification lexer
// ---------------------------------------------------------------------------
/// Classifies an identifier-shaped word: a keyword spelling is the keyword,
/// `true` and `false` are boolean literals, anything else is an identifier.
pub open spec fn spec_classify_word(w: Seq<char>) -> SpecToken {
    if w == "venti"@ {
        SpecToken::Venti
    } else if w == "printventi"@ {
        SpecToken::Print
    } else if w == "async"@ {
        SpecToken::Async
    } else if w == "await"@ {
        SpecToken::Await
    } else if w == "if_venti"@ {
        SpecToken::If
    } else if w == "else_venti"@ {
        SpecToken::Else
    } else if w == "for_venti"@ {
        SpecToken::For
    } else if w == "while_venti"@ {
        SpecToken::While
    } else if w == "int"@ {
        SpecToken::Int
    } else if w == "float"@ {
        SpecToken::Float
    } else if w == "bool"@ {
        SpecToken::Bool
    } else if w == "true"@ {
        SpecToken::BooleanLiteral(true)
    } else if w == "false"@ {
        SpecToken::BooleanLiteral(false)
    } else {
        SpecToken::Identifier(w)
    }
}

/// The token rule that matches at the front of `s` (not empty, not
/// whitespace), together with the length of the span it consumes.
/// `None` is a lex failure: an unterminated string literal or a character
/// that starts no token.
pub open spec fn spec_next_token(s: Seq<char>) -> Option<(SpecToken, nat)> {
    if s.len() == 0 {
        None
    } else {
        let c = s[0];
        if is_ident_start_char(c) {
            Some((spec_classify_word(s.take(ident_prefix_len(s) as int)), ident_prefix_len(s)))
        } else if is_digit_char(c) {
            Some((SpecToken::NumberLiteral(s.take(digit_prefix_len(s) as int)), digit_prefix_len(s)))
        } else if c == '"' {
            let k = nonquote_prefix_len(s.skip(1));
            if 1 + k < s.len() {
                Some((SpecToken::StringLiteral(s.subrange(1, 1 + k as int)), (k + 2) as nat))
            } else {
                None
            }
        } else if c == '+' {
            Some((SpecToken::Plus, 1))
        } else if c == '-' {
            Some((SpecToken::Minus, 1))
        } else if c == '*' {
            Some((SpecToken::Star, 1))
        } else if c == '/' {
            Some((SpecToken::Slash, 1))
        } else if c == '(' {
            Some((SpecToken::LParen, 1))
        } else if c == ')' {
            Some((SpecToken::RParen, 1))
        } else if c == '{' {
            Some((SpecToken::LBrace, 1))
        } else if c == '}' {
            Some((SpecToken::RBrace, 1))
        } else if c == '[' {
            Some((SpecToken::LBracket, 1))
        } else if c == ']' {
            Some((SpecToken::RBracket, 1))
        } else if c == ',' {
            Some((SpecToken::Comma, 1))
        } else if c == ';' {
            Some((SpecToken::Semicolon, 1))
        } else if c == '=' {
            Some((SpecToken::Equals, 1))
        } else {
            None
        }
    }
}

/// Prepends a token to the result of lexing the rest of the input.
pub open spec fn spec_lex_prepend(t: SpecToken, rest: Option<Seq<SpecToken>>) -> Option<
    Seq<SpecToken>,
> {
    match rest {
        Some(ts) => Some(seq![t] + ts),
        None => None,
    }
}

/// Tokenization of a whole input: the finite token sequence, or `None` when
/// some suffix matches no token rule. The sequence is not restartable past a
/// failure, so a failure anywhere fails the whole input.
pub open spec fn spec_lex(s: Seq<char>) -> Option<Seq<SpecToken>>
    decreases s.len(),
{
    if s.len() == 0 {
        Some(Seq::empty())
    } else if is_skip_char(s[0]) {
        spec_lex(s.skip(1))
    } else {
        match spec_next_token(s) {
            Some((t, n)) => {
                if 0 < n && n <= s.len() {
                    spec_lex_prepend(t, spec_lex(s.skip(n as int)))
                } else {
                    None
                }
            },
            None => None,
        }
    }
}

/// The message of the failure when `spec_lex` fails, carrying the offending
/// slice: for an unterminated string literal the text from its opening quote
/// to the end of the input, otherwise the character that starts no token.
pub open spec fn spec_lex_error_message(s: Seq<char>) -> Seq<char>
    decreases s.len(),
{
    if s.len() == 0 {
        Seq::empty()
    } else if is_skip_char(s[0]) {
        spec_lex_error_message(s.skip(1))
    } else {
        match spec_next_token(s) {
            Some((t, n)) => {
                if 0 < n && n <= s.len() {
                    spec_lex_error_message(s.skip(n as int))
                } else {
                    Seq::empty()
                }
            },
            None => {
                if s[0] == '"' {
                    "Unterminated string literal: "@ + s
                } else {
                    "Unexpected character: "@ + s.take(1)
                }
            },
        }
    }
}

// ---------------------------------------------------------------------------
// The executable lexer
// ---------------------------------------------------------------------------
/// Compares two string slices by their character sequences.
pub(crate) fn str_eq(a: &str, b: &str) -> (r: bool)
    ensures
        r == (a@ == b@),
{
    let sa: String = a.to_owned();
    let sb: String = b.to_owned();
    sa == sb
}

/// Classifies an identifier-shaped word, as `spec_classify_word` does.
fn classify_word(w: &str) -> (t: Token)
    ensures
        t@ == spec_classify_word(w@),
{
    if str_eq(w, "venti") {
        Token::Venti
    } else if str_eq(w, "printventi") {
        Token::Print
    } else if str_eq(w, "async") {
        Token::Async
    } else if str_eq(w, "await") {
        Token::Await
    } else if str_eq(w, "if_venti") {
        Token::If
    } else if str_eq(w, "else_venti") {
        Token::Else
    } else if str_eq(w, "for_venti") {
        Token::For
    } else if str_eq(w, "while_venti") {
        Token::While
    } else if str_eq(w, "int") {
        Token::Int
    } else if str_eq(w, "float") {
        Token::Float
    } else if str_eq(w, "bool") {
        Token::Bool
    } else if str_eq(w, "true") {
        Token::BooleanLiteral(true)
    } else if str_eq(w, "false") {
        Token::BooleanLiteral(false)
    } else {
        Token::Identifier(w.to_owned())
    }
}

/// A lexer over one source text: a cursor that yields one token per call.
pub struct Lexer<'a> {
    input: &'a str,
    pos: usize,
}

impl<'a> Lexer<'a> {
    /// The cursor sits inside the input.
    pub closed spec fn wf(self) -> bool {
        self.pos <= self.input@.len()
    }

    /// The input text not yet consumed.
    pub closed spec fn remaining(self) -> Seq<char> {
        self.input@.skip(self.pos as int)
    }

    /// A lexer at the start of `input`.
    pub fn new(input: &'a str) -> (r: Self)
        ensures
            r.wf(),
            r.remaining() == input@,
    {
        let r = Lexer { input, pos: 0 };
        proof {
            assert(input@.skip(0) =~= input@);
        }
        r
    }

    /// Yields the next token, `None` at the end of the input, or the lex
    /// failure that aborts the compile. Agrees with `spec_lex` on the text
    /// not yet consumed: a token is what `spec_lex` would put first, the end
    /// is an input whose rest lexes to nothing, and an error is an input on
    /// which `spec_lex` fails.
    pub fn next_token(&mut self) -> (r: Option<Result<Token, VentiError>>)
        requires
            old(self).wf(),
        ensures
            final(self).wf(),
            match r {
                None => final(self).remaining().len() == 0 && spec_lex(old(self).remaining())
                    == Some(Seq::<SpecToken>::empty()),
                Some(res) => match res {
                    Ok(t) => final(self).remaining().len() < old(self).remaining().len()
                        && spec_lex(old(self).remaining()) == spec_lex_prepend(
                        t@,
                        spec_lex(final(self).remaining()),
                    ) && spec_lex_error_message(old(self).remaining()) == spec_lex_error_message(
                        final(self).remaining(),
                    ),
                    Err(e) => spec_lex(old(self).remaining()) is None && e is SyntaxError
                        && e.spec_message() == spec_lex_error_message(old(self).remaining()),
                },
            },
    {
        let ghost input0 = self.input@;
        let ghost rem0 = self.remaining();
        let ghost pos0 = self.pos;
        let len = self.input.unicode_len();
        while self.pos < len && skip_char(self.input.get_char(self.pos))
            invariant
                self.input@ == input0,
                pos0 <= self.pos,
                self.pos <= len,
                len == input0.len(),
                spec_lex(rem0) == spec_lex(self.remaining()),
                spec_lex_error_message(rem0) == spec_lex_error_message(self.remaining()),
            decreases len - self.pos,
        {
            proof {
                let rem = self.input@.skip(self.pos as int);
                assert(rem[0] == self.input@[self.pos as int]);
                assert(rem.skip(1) =~= self.input@.skip(self.pos as int + 1));
            }
            self.pos = self.pos + 1;
        }
        if self.pos == len {
            proof {
                assert(self.remaining() =~= Seq::<char>::empty());
            }
            return None;
        }
        let ghost rem = self.input@.skip(self.pos as int);
        let c = self.input.get_char(self.pos);
        proof {
            assert(rem[0] == c);
            assert(rem.len() == len - self.pos);
        }
        if ident_start_char(c) {
            let start = self.pos;
            let mut end = self.pos + 1;
            while end < len && ident_char(self.input.get_char(end))
                invariant
                    self.input@ == input0,
                    len == input0.len(),
                    start < end <= len,
                    start == self.pos,
                    forall|i: int| start <= i < end ==> is_ident_char(input0[i]),
                decreases len - end,
            {
                end = end + 1;
            }
            proof {
                assert forall|i: int| 0 <= i < end - start implies is_ident_char(rem[i]) by {
                    assert(rem[i] == input0[start + i]);
                }
                if end < len {
                    assert(rem[end - start] == input0[end as int]);
                }
                lemma_ident_prefix_len(rem, (end - start) as nat);
            }
            let w = self.input.substring_char(start, end);
            proof {
                assert(w@ =~= rem.take((end - start) as int));
            }
            let t = classify_word(w);
            self.pos = end;
            proof {
                assert(spec_next_token(rem) == Some((t@, (end - start) as nat)));
                assert(rem.skip(end - start) =~= self.input@.skip(end as int));
            }
            Some(Ok(t))
        } else if digit_char(c) {
            let start = self.pos;
            let mut end = self.pos + 1;
            while end < len && digit_char(self.input.get_char(end))
                invariant
                    self.input@ == input0,
                    len == input0.len(),
                    start < end <= len,
                    start == self.pos,
                    forall|i: int| start <= i < end ==> is_digit_char(input0[i]),
                decreases len - end,
            {
                end = end + 1;
            }
            proof {
                assert forall|i: int| 0 <= i < end - start implies is_digit_char(rem[i]) by {
                    assert(rem[i] == input0[start + i]);
                }
                if end < len {
                    assert(rem[end - start] == input0[end as int]);
                }
                lemma_digit_prefix_len(rem, (end - start) as nat);
            }
            let w = self.input.substring_char(start, end);
            proof {
                assert(w@ =~= rem.take((end - start) as int));
            }
            let t = Token::NumberLiteral(w.to_owned());
            self.pos = end;
            proof {
                assert(spec_next_token(rem) == Some((t@, (end - start) as nat)));
                assert(rem.skip(end - start) =~= self.input@.skip(end as int));
            }
            Some(Ok(t))
        } else if c == '"' {
            let start = self.pos;
            let mut end = self.pos + 1;
            while end < len && !(self.input.get_char(end) == '"')
                invariant
                    self.input@ == input0,
                    len == input0.len(),
                    start < end <= len,
                    start == self.pos,
                    forall|i: int| start + 1 <= i < end ==> input0[i] != '"',
                decreases len - end,
            {
                end = end + 1;
            }
            proof {
                assert forall|i: int| 0 <= i < end - start - 1 implies rem.skip(1)[i] != '"' by {
                    assert(rem.skip(1)[i] == input0[start + 1 + i]);
                }
                assert(rem.skip(1).len() == len - start - 1);
                if end < len {
                    assert(rem.skip(1)[end - start - 1] == input0[end as int]);
                }
                lemma_nonquote_prefix_len(rem.skip(1), (end - start - 1) as nat);
            }
            if end == len {
                let slice = self.input.substring_char(start, len);
                let mut msg = "Unterminated string literal: ".to_owned();
                msg.append(slice);
                proof {
                    assert(spec_next_token(rem) is None);
                    assert(msg@ =~= "Unterminated string literal: "@ + rem);
                }
                return Some(Err(VentiError::SyntaxError(msg)));
            }
            let body = self.input.substring_char(start + 1, end);
            let t = Token::StringLiteral(body.to_owned());
            self.pos = end + 1;
            proof {
                assert(body@ =~= rem.subrange(1, 1 + (end - start - 1)));
                assert(spec_next_token(rem) == Some((t@, (end + 1 - start) as nat)));
                assert(rem.skip(end + 1 - start) =~= self.input@.skip(end as int + 1));
            }
            Some(Ok(t))
        } else {
            let t_opt: Option<Token> = if c == '+' {
                Some(Token::Plus)
            } else if c == '-' {
                Some(Token::Minus)
            } else if c == '*' {
                Some(Token::Star)
            } else if c == '/' {
                Some(Token::Slash)
            } else if c == '(' {
                Some(Token::LParen)
            } else if c == ')' {
                Some(Token::RParen)
            } else if c == '{' {
                Some(Token::LBrace)
            } else if c == '}' {
                Some(Token::RBrace)
            } else if c == '[' {
                Some(Token::LBracket)
            } else if c == ']' {
                Some(Token::RBracket)
            } else if c == ',' {
                Some(Token::Comma)
            } else if c == ';' {
                Some(Token::Semicolon)
            } else if c == '=' {
                Some(Token::Equals)
            } else {
                None
            };
            match t_opt {
                Some(t) => {
                    self.pos = self.pos + 1;
                    proof {
                        assert(spec_next_token(rem) == Some((t@, 1nat)));
                        assert(rem.skip(1) =~= self.input@.skip(self.pos as int));
                    }
                    Some(Ok(t))
                },
                None => {
                    let slice = self.input.substring_char(self.pos, self.pos + 1);
                    let mut msg = "Unexpected character: ".to_owned();
                    msg.append(slice);
                    proof {
                        assert(spec_next_token(rem) is None);
                        assert(msg@ =~= "Unexpected character: "@ + rem.take(1));
                    }
                    Some(Err(VentiError::SyntaxError(msg)))
                },
            }
        }
    }
}

/// Tokenizes a whole source text: the token sequence that `spec_lex` defines,
/// or the lex failure exactly when `spec_lex` fails.
pub fn lex(input: &str) -> (r: Result<Vec<Token>, VentiError>)
    ensures
        match r {
            Ok(toks) => spec_lex(input@) == Some(toks.deep_view()),
            Err(e) => spec_lex(input@) is None && e is SyntaxError && e.spec_message()
                == spec_lex_error_message(input@),
        },
{
    let mut lexer = Lexer::new(input);
    let mut tokens: Vec<Token> = Vec::new();
    proof {
        assert(tokens.deep_view() =~= Seq::<SpecToken>::empty());
    }
    loop
        invariant
            lexer.wf(),
            spec_lex(input@) == (match spec_lex(lexer.remaining()) {
                Some(rest) => Some(tokens.deep_view() + rest),
                None => None::<Seq<SpecToken>>,
            }),
            spec_lex_error_message(input@) == spec_lex_error_message(lexer.remaining()),
        decreases lexer.remaining().len(),
    {
        match lexer.next_token() {
            None => {
                proof {
                    assert(tokens.deep_view() + Seq::<SpecToken>::empty() =~= tokens.deep_view());
                }
                return Ok(tokens);
            },
            Some(res) => match res {
                Ok(t) => {
                    let ghost pre = tokens.deep_view();
                    let ghost t_view = t@;
                    tokens.push(t);
                    proof {
                        assert(tokens.deep_view() =~= pre + seq![t_view]);
                        if spec_lex(lexer.remaining()) is Some {
                            let rest = spec_lex(lexer.remaining()).unwrap();
                            assert((pre + seq![t_view]) + rest =~= pre + (seq![t_view] + rest));
                        }
                    }
                },
                Err(e) => {
                    return Err(e);
                },
            },
        }
    }
}

// ---------------------------------------------------------------------------
// Reconstruction: token spans cover the non-whitespace input
// ---------------------------------------------------------------------------
/// The concatenation of the source texts of a token sequence.
pub open spec fn concat_token_texts(ts: Seq<SpecToken>) -> Seq<char>
    decreases ts.len(),
{
    if ts.len() == 0 {
        Seq::empty()
    } else {
        token_text(ts[0]) + concat_token_texts(ts.skip(1))
    }
}

/// The input with every whitespace character removed.
pub open spec fn strip_whitespace(s: Seq<char>) -> Seq<char>
    decreases s.len(),
{
    if s.len() == 0 {
        Seq::empty()
    } else if is_skip_char(s[0]) {
        strip_whitespace(s.skip(1))
    } else {
        seq![s[0]] + strip_whitespace(s.skip(1))
    }
}

/// No token's source text contains a whitespace character. Every token but a
/// string literal satisfies this by construction; a string literal does
/// unless whitespace stands between its quotes.
pub open spec fn whitespace_free_tokens(ts: Seq<SpecToken>) -> bool {
    forall|i: int, j: int|
        0 <= i < ts.len() && 0 <= j < token_text(ts[i]).len() ==> !is_skip_char(
            #[trigger] token_text(ts[i])[j],
        )
}

/// A successful match at the front of the input consumes exactly the text of
/// the token it yields.
proof fn lemma_next_token_text(s: Seq<char>, t: SpecToken, n: nat)
    requires
        spec_next_token(s) == Some((t, n)),
    ensures
        1 <= n <= s.len(),
        token_text(t) == s.take(n as int),
{
    let c = s[0];
    if is_ident_start_char(c) {
        lemma_ident_prefix_len_bound(s);
        assert(ident_prefix_len(s) >= 1);
        let w = s.take(ident_prefix_len(s) as int);
        assert(token_text(spec_classify_word(w)) == w);
    } else if is_digit_char(c) {
        lemma_digit_prefix_len_bound(s);
        assert(digit_prefix_len(s) >= 1);
    } else if c == '"' {
        let k = nonquote_prefix_len(s.skip(1));
        lemma_nonquote_prefix_props(s.skip(1));
        assert(s.skip(1)[k as int] == s[1 + k as int]);
        assert(token_text(t) == seq!['"'] + s.subrange(1, 1 + k as int) + seq!['"']);
        assert(token_text(t) =~= s.take(n as int));
    } else {
        reveal_strlit("+");
        reveal_strlit("-");
        reveal_strlit("*");
        reveal_strlit("/");
        reveal_strlit("(");
        reveal_strlit(")");
        reveal_strlit("{");
        reveal_strlit("}");
        reveal_strlit("[");
        reveal_strlit("]");
        reveal_strlit(",");
        reveal_strlit(";");
        reveal_strlit("=");
        assert(token_text(t) =~= s.take(1));
    }
}

/// Dropping whitespace distributes over a whitespace-free prefix.
proof fn lemma_strip_prefix(s: Seq<char>, n: int)
    requires
        0 <= n <= s.len(),
        forall|i: int| 0 <= i < n ==> !is_skip_char(s[i]),
    ensures
        strip_whitespace(s) == s.take(n) + strip_whitespace(s.skip(n)),
    decreases n,
{
    if n == 0 {
        assert(s.skip(0) =~= s);
        assert(s.take(0) + strip_whitespace(s) =~= strip_whitespace(s));
    } else {
        assert(!is_skip_char(s[0]));
        assert forall|i: int| 0 <= i < n - 1 implies !is_skip_char(s.skip(1)[i]) by {
            assert(s.skip(1)[i] == s[i + 1]);
        }
        lemma_strip_prefix(s.skip(1), n - 1);
        assert(s.skip(1).skip(n - 1) =~= s.skip(n));
        assert(seq![s[0]] + (s.skip(1).take(n - 1) + strip_whitespace(s.skip(n))) =~= s.take(n)
            + strip_whitespace(s.skip(n)));
    }
}

/// Dropping whitespace distributes over concatenation.
proof fn lemma_strip_concat(a: Seq<char>, b: Seq<char>)
    ensures
        strip_whitespace(a + b) == strip_whitespace(a) + strip_whitespace(b),
    decreases a.len(),
{
    if a.len() == 0 {
        assert(a + b =~= b);
        assert(strip_whitespace(a) + strip_whitespace(b) =~= strip_whitespace(b));
    } else {
        assert((a + b)[0] == a[0]);
        assert((a + b).skip(1) =~= a.skip(1) + b);
        lemma_strip_concat(a.skip(1), b);
        if !is_skip_char(a[0]) {
            assert(seq![a[0]] + (strip_whitespace(a.skip(1)) + strip_whitespace(b)) =~= (seq![
                a[0],
            ] + strip_whitespace(a.skip(1))) + strip_whitespace(b));
        }
    }
}

/// Concatenating the source texts of the tokens of a successful lex covers
/// the input: up to whitespace, the concatenation and the input hold the same
/// content, whatever the input was.
pub proof fn lemma_lex_covers_input(s: Seq<char>, toks: Seq<SpecToken>)
    requires
        spec_lex(s) == Some(toks),
    ensures
        strip_whitespace(concat_token_texts(toks)) == strip_whitespace(s),
    decreases s.len(),
{
    if s.len() == 0 {
        assert(toks =~= Seq::<SpecToken>::empty());
    } else if is_skip_char(s[0]) {
        lemma_lex_covers_input(s.skip(1), toks);
    } else {
        match spec_next_token(s) {
            Some((t, n)) => {
                match spec_lex(s.skip(n as int)) {
                    Some(rest) => {
                        assert(toks == seq![t] + rest);
                        assert(toks[0] == t);
                        assert(toks.skip(1) =~= rest);
                        lemma_next_token_text(s, t, n);
                        lemma_lex_covers_input(s.skip(n as int), rest);
                        assert(concat_token_texts(toks) == token_text(t) + concat_token_texts(
                            rest,
                        ));
                        lemma_strip_concat(token_text(t), concat_token_texts(rest));
                        assert(s.take(n as int) + s.skip(n as int) =~= s);
                        lemma_strip_concat(s.take(n as int), s.skip(n as int));
                    },
                    None => {
                        assert(false);
                    },
                }
            },
            None => {
                assert(false);
            },
        }
    }
}

/// Concatenating the source texts of the tokens of a successful lex
/// reconstructs the input's non-whitespace content exactly, provided no
/// string-literal token carries whitespace between its quotes (such a
/// token's span keeps its inner whitespace, which `strip_whitespace` drops).
pub proof fn lemma_lex_reconstructs_input(s: Seq<char>, toks: Seq<SpecToken>)
    requires
        spec_lex(s) == Some(toks),
        whitespace_free_tokens(toks),
    ensures
        concat_token_texts(toks) == strip_whitespace(s),
    decreases s.len(),
{
    if s.len() == 0 {
        assert(toks =~= Seq::<SpecToken>::empty());
    } else if is_skip_char(s[0]) {
        lemma_lex_reconstructs_input(s.skip(1), toks);
    } else {
        match spec_next_token(s) {
            Some((t, n)) => {
                assert(0 < n && n <= s.len());
                match spec_lex(s.skip(n as int)) {
                    Some(rest) => {
                        assert(toks == seq![t] + rest);
                        assert(toks[0] == t);
                        assert(toks.skip(1) =~= rest);
                        lemma_next_token_text(s, t, n);
                        assert forall|i: int| 0 <= i < n implies !is_skip_char(s[i]) by {
                            assert(token_text(toks[0])[i] == s.take(n as int)[i]);
                            assert(s.take(n as int)[i] == s[i]);
                        }
                        lemma_strip_prefix(s, n as int);
                        assert forall|i: int, j: int|
                            0 <= i < rest.len() && 0 <= j < token_text(rest[i]).len() implies
                            !is_skip_char(token_text(rest[i])[j]) by {
                            assert(rest[i] == toks[i + 1]);
                            assert(!is_skip_char(token_text(toks[i + 1])[j]));
                        }
                        lemma_lex_reconstructs_input(s.skip(n as int), rest);
                        assert(concat_token_texts(toks) == token_text(t) + concat_token_texts(
                            rest,
                        ));
                    },
                    None => {
                        assert(false);
                    },
                }
            },
            None => {
                assert(false);
            },
        }
    }
}

} // verus!
