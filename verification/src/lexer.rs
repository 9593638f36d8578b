//! The lexer: scans raw source text into a stream of tokens, one call at a
//! time, with one character of lookahead.
//!
//! The specification side models the whole scan: [`token_at`] says which token
//! starts at a given character index and where the next one begins, and
//! [`tokens_from`] folds that into the full token stream of an input.

use vstd::prelude::*;
use vstd::string::StrSliceExecFns;

use crate::token::{Token, TokenType, TokenView, eof_view};

verus! {

/// Whether the scanner skips this character between tokens.
pub open spec fn is_whitespace_char(c: char) -> bool {
    c == ' ' || c == '\t' || c == '\n' || c == '\r'
}

/// Whether this character is an ASCII decimal digit.
pub open spec fn is_digit_char(c: char) -> bool {
    48 <= (c as u32) && (c as u32) <= 57
}

/// Whether `char::is_alphabetic` holds of this character. The result is a
/// function of the character alone.
pub uninterp spec fn char_is_alphabetic(c: char) -> bool;

/// Relies on char::is_alphabetic: deterministic per character, and on ASCII
/// characters it holds exactly of the letters `A`-`Z` and `a`-`z`.
#[verifier::external_body]
fn exec_char_is_alphabetic(c: char) -> (res: bool)
    ensures
        res == char_is_alphabetic(c),
        (c as u32) < 128 ==> res == ((65 <= (c as u32) && (c as u32) <= 90) || (97 <= (c as u32)
            && (c as u32) <= 122)),
{
    c.is_alphabetic()
}

/// Relies on String::from for char: the string of exactly that character.
#[verifier::external_body]
fn char_to_string(c: char) -> (res: String)
    ensures
        res@ == seq![c],
{
    String::from(c)
}

/// Whether this character may appear in an identifier: alphabetic or an
/// underscore.
pub open spec fn is_letter_char(c: char) -> bool {
    char_is_alphabetic(c) || c == '_'
}

/// The index of the first non-whitespace character at or after `i`.
pub open spec fn skip_ws(s: Seq<char>, i: int) -> int
    decreases s.len() - i
        when 0 <= i <= s.len()
{
    if i < s.len() && is_whitespace_char(s[i]) {
        skip_ws(s, i + 1)
    } else {
        i
    }
}

/// The index of the first non-letter character at or after `i`.
pub open spec fn scan_letters(s: Seq<char>, i: int) -> int
    decreases s.len() - i
        when 0 <= i <= s.len()
{
    if i < s.len() && is_letter_char(s[i]) {
        scan_letters(s, i + 1)
    } else {
        i
    }
}

/// The index of the first non-digit character at or after `i`.
pub open spec fn scan_digits(s: Seq<char>, i: int) -> int
    decreases s.len() - i
        when 0 <= i <= s.len()
{
    if i < s.len() && is_digit_char(s[i]) {
        scan_digits(s, i + 1)
    } else {
        i
    }
}

pub proof fn lemma_skip_ws_bounds(s: Seq<char>, i: int)
    requires
        0 <= i <= s.len(),
    ensures
        i <= skip_ws(s, i) <= s.len(),
        skip_ws(s, i) < s.len() ==> !is_whitespace_char(s[skip_ws(s, i)]),
    decreases s.len() - i,
{
    if i < s.len() && is_whitespace_char(s[i]) {
        lemma_skip_ws_bounds(s, i + 1);
    }
}

pub proof fn lemma_scan_letters_bounds(s: Seq<char>, i: int)
    requires
        0 <= i <= s.len(),
    ensures
        i <= scan_letters(s, i) <= s.len(),
    decreases s.len() - i,
{
    if i < s.len() && is_letter_char(s[i]) {
        lemma_scan_letters_bounds(s, i + 1);
    }
}

pub proof fn lemma_scan_digits_bounds(s: Seq<char>, i: int)
    requires
        0 <= i <= s.len(),
    ensures
        i <= scan_digits(s, i) <= s.len(),
    decreases s.len() - i,
{
    if i < s.len() && is_digit_char(s[i]) {
        lemma_scan_digits_bounds(s, i + 1);
    }
}

/// The token kind an identifier's text classifies as: one of the fixed
/// keywords, or `Ident` for anything else.
pub open spec fn spec_lookup_ident(lit: Seq<char>) -> TokenType {
    if lit == "fn"@ {
        TokenType::Function
    } else if lit == "let"@ {
        TokenType::Let
    } else if lit == "true"@ {
        TokenType::True
    } else if lit == "false"@ {
        TokenType::False
    } else if lit == "if"@ {
        TokenType::If
    } else if lit == "else"@ {
        TokenType::Else
    } else if lit == "return"@ {
        TokenType::Return
    } else {
        TokenType::Ident
    }
}

/// The token that starts at non-whitespace index `i` of `s`, paired with the
/// index of the first character after it. At or past the end of the input the
/// token is end-of-input and the index stays put.
pub open spec fn token_at(s: Seq<char>, i: int) -> (TokenView, int) {
    if i < 0 || i >= s.len() {
        (eof_view(), i)
    } else {
        let c = s[i];
        if c == '=' {
            if i + 1 < s.len() && s[i + 1] == '=' {
                (TokenView { kind: TokenType::Equal, literal: "=="@ }, i + 2)
            } else {
                (TokenView { kind: TokenType::Assign, literal: "="@ }, i + 1)
            }
        } else if c == '+' {
            (TokenView { kind: TokenType::Plus, literal: "+"@ }, i + 1)
        } else if c == '-' {
            (TokenView { kind: TokenType::Minus, literal: "-"@ }, i + 1)
        } else if c == '!' {
            if i + 1 < s.len() && s[i + 1] == '=' {
                (TokenView { kind: TokenType::NotEqual, literal: "!="@ }, i + 2)
            } else {
                (TokenView { kind: TokenType::Bang, literal: "!"@ }, i + 1)
            }
        } else if c == '/' {
            (TokenView { kind: TokenType::Slash, literal: "/"@ }, i + 1)
        } else if c == '*' {
            (TokenView { kind: TokenType::Asterisk, literal: "*"@ }, i + 1)
        } else if c == '<' {
            (TokenView { kind: TokenType::LessThan, literal: "<"@ }, i + 1)
        } else if c == '>' {
            (TokenView { kind: TokenType::GreaterThan, literal: ">"@ }, i + 1)
        } else if c == ',' {
            (TokenView { kind: TokenType::Comma, literal: ","@ }, i + 1)
        } else if c == ';' {
            (TokenView { kind: TokenType::Semicolon, literal: ";"@ }, i + 1)
        } else if c == '(' {
            (TokenView { kind: TokenType::LeftParen, literal: "("@ }, i + 1)
        } else if c == ')' {
            (TokenView { kind: TokenType::RightParen, literal: ")"@ }, i + 1)
        } else if c == '{' {
            (TokenView { kind: TokenType::LeftBrace, literal: "{"@ }, i + 1)
        } else if c == '}' {
            (TokenView { kind: TokenType::RightBrace, literal: "}"@ }, i + 1)
        } else if is_letter_char(c) {
            let j = scan_letters(s, i);
            let lit = s.subrange(i, j);
            (TokenView { kind: spec_lookup_ident(lit), literal: lit }, j)
        } else if is_digit_char(c) {
            let j = scan_digits(s, i);
            (TokenView { kind: TokenType::Int, literal: s.subrange(i, j) }, j)
        } else {
            (TokenView { kind: TokenType::Illegal, literal: seq![c] }, i + 1)
        }
    }
}

pub proof fn lemma_token_at_bounds(s: Seq<char>, i: int)
    requires
        0 <= i <= s.len(),
    ensures
        i <= token_at(s, i).1 <= s.len(),
        token_at(s, i).0.kind != TokenType::Eof ==> token_at(s, i).1 > i,
        token_at(s, i).0.kind == TokenType::Eof <==> i == s.len(),
{
    if i < s.len() {
        lemma_scan_letters_bounds(s, i + 1);
        lemma_scan_digits_bounds(s, i + 1);
        assert(is_letter_char(s[i]) ==> scan_letters(s, i) == scan_letters(s, i + 1));
        assert(is_digit_char(s[i]) ==> scan_digits(s, i) == scan_digits(s, i + 1));
    }
}

/// The token stream of `s` from character index `i` on, in source order,
/// without the trailing end-of-input token.
pub open spec fn tokens_from(s: Seq<char>, i: int) -> Seq<TokenView>
    decreases s.len() - i
        when 0 <= i <= s.len()
{
    let j = skip_ws(s, i);
    let t = token_at(s, j);
    if t.0.kind == TokenType::Eof {
        Seq::empty()
    } else {
        proof {
            lemma_skip_ws_bounds(s, i);
            lemma_token_at_bounds(s, j);
        }
        seq![t.0] + tokens_from(s, t.1)
    }
}

/// The whole token stream of `s`, without the trailing end-of-input token.
pub open spec fn spec_tokens(s: Seq<char>) -> Seq<TokenView> {
    tokens_from(s, 0)
}

pub proof fn lemma_skip_ws_idempotent(s: Seq<char>, i: int)
    requires
        0 <= i <= s.len(),
    ensures
        skip_ws(s, skip_ws(s, i)) == skip_ws(s, i),
{
    lemma_skip_ws_bounds(s, i);
}

/// One step of the token stream: scanning at `i` either ends the stream
/// (end-of-input) or peels off exactly the stream's first token.
pub proof fn lemma_tokens_from_unfold(s: Seq<char>, i: int)
    requires
        0 <= i <= s.len(),
    ensures
        ({
            let j = skip_ws(s, i);
            let t = token_at(s, j);
            &&& 0 <= j <= s.len()
            &&& 0 <= t.1 <= s.len()
            &&& (t.0.kind == TokenType::Eof ==> t.0 == eof_view() && t.1 == j && j == s.len()
                && tokens_from(s, i) == Seq::<TokenView>::empty() && tokens_from(s, t.1)
                == Seq::<TokenView>::empty())
            &&& (t.0.kind != TokenType::Eof ==> tokens_from(s, i) == seq![t.0] + tokens_from(
                s,
                t.1,
            ))
        }),
{
    lemma_skip_ws_bounds(s, i);
    let j = skip_ws(s, i);
    lemma_token_at_bounds(s, j);
    let t = token_at(s, j);
    if t.0.kind == TokenType::Eof {
        lemma_skip_ws_idempotent(s, i);
        assert(skip_ws(s, j) == j);
        assert(tokens_from(s, j) =~= Seq::<TokenView>::empty());
    }
}

/// Whether this character is one of the single-character punctuation and
/// operator lexemes (the two-character-capable `=` and `!` are not included).
pub open spec fn is_punct_char(c: char) -> bool {
    c == '+' || c == '-' || c == '*' || c == '/' || c == '<' || c == '>' || c == ',' || c == ';'
        || c == '(' || c == ')' || c == '{' || c == '}'
}

/// The token a single-character punctuation lexeme scans to.
pub open spec fn punct_token(c: char) -> TokenView {
    if c == '+' {
        TokenView { kind: TokenType::Plus, literal: "+"@ }
    } else if c == '-' {
        TokenView { kind: TokenType::Minus, literal: "-"@ }
    } else if c == '*' {
        TokenView { kind: TokenType::Asterisk, literal: "*"@ }
    } else if c == '/' {
        TokenView { kind: TokenType::Slash, literal: "/"@ }
    } else if c == '<' {
        TokenView { kind: TokenType::LessThan, literal: "<"@ }
    } else if c == '>' {
        TokenView { kind: TokenType::GreaterThan, literal: ">"@ }
    } else if c == ',' {
        TokenView { kind: TokenType::Comma, literal: ","@ }
    } else if c == ';' {
        TokenView { kind: TokenType::Semicolon, literal: ";"@ }
    } else if c == '(' {
        TokenView { kind: TokenType::LeftParen, literal: "("@ }
    } else if c == ')' {
        TokenView { kind: TokenType::RightParen, literal: ")"@ }
    } else if c == '{' {
        TokenView { kind: TokenType::LeftBrace, literal: "{"@ }
    } else {
        TokenView { kind: TokenType::RightBrace, literal: "}"@ }
    }
}

proof fn lemma_punct_tokens_from(s: Seq<char>, i: int)
    requires
        0 <= i <= s.len(),
        forall|k: int| 0 <= k < s.len() ==> is_punct_char(#[trigger] s[k]),
    ensures
        tokens_from(s, i).len() == s.len() - i,
        forall|k: int|
            0 <= k < s.len() - i ==> tokens_from(s, i)[k] == punct_token(s[i + k]),
    decreases s.len() - i,
{
    if i < s.len() {
        assert(!is_whitespace_char(s[i]));
        assert(skip_ws(s, i) == i);
        assert(token_at(s, i) == (punct_token(s[i]), i + 1));
        lemma_punct_tokens_from(s, i + 1);
        assert forall|k: int| 0 <= k < s.len() - i implies tokens_from(s, i)[k] == punct_token(
            s[i + k],
        ) by {
            if k > 0 {
                assert(tokens_from(s, i)[k] == tokens_from(s, i + 1)[k - 1]);
            }
        }
    } else {
        assert(skip_ws(s, i) == i);
    }
}

/// Law: for an input that consists only of the single-character punctuation
/// set, the token stream holds exactly one token per character, in input
/// order, each with that character's kind and literal; and at the end of the
/// input (of any input) the scanner yields the end-of-input token and does
/// not advance, so repeated scans there keep yielding end-of-input.
pub proof fn lemma_punctuation_only_tokens(s: Seq<char>)
    requires
        forall|k: int| 0 <= k < s.len() ==> is_punct_char(#[trigger] s[k]),
    ensures
        spec_tokens(s).len() == s.len(),
        forall|k: int| 0 <= k < s.len() ==> spec_tokens(s)[k] == punct_token(s[k]),
        token_at(s, s.len() as int) == (eof_view(), s.len() as int),
        skip_ws(s, s.len() as int) == s.len() as int,
{
    lemma_punct_tokens_from(s, 0);
}

/// The lexer's cursor state over the input text: the index of the current
/// character, the index of the next one, and the current character itself
/// (`None` once the end of the input is reached).
pub struct Lexer<'a> {
    input: &'a str,
    position: usize,
    read_position: usize,
    ch: Option<char>,
}

impl<'a> Lexer<'a> {
    /// The scanned text, as a sequence of characters.
    pub closed spec fn text(self) -> Seq<char> {
        self.input@
    }

    /// The character index of the cursor.
    pub closed spec fn pos(self) -> int {
        self.position as int
    }

    /// Cursor well-formedness: the current character is the one at
    /// `position`, the read cursor is one past it, and past the end of the
    /// input both cursors rest at the length with no current character.
    pub closed spec fn wf(self) -> bool {
        if self.position < self.input@.len() {
            &&& self.read_position == self.position + 1
            &&& self.ch == Some(self.input@[self.position as int])
        } else {
            &&& self.position == self.input@.len()
            &&& self.read_position == self.position
            &&& self.ch is None
        }
    }

    pub proof fn lemma_wf_pos(self)
        requires
            self.wf(),
        ensures
            0 <= self.pos() <= self.text().len(),
    {
    }

    /// A fresh lexer over `input`, primed on the first character.
    pub fn new(input: &'a str) -> (res: Self)
        ensures
            res.wf(),
            res.text() == input@,
            res.pos() == 0,
    {
        let n = input.unicode_len();
        if n == 0 {
            Lexer { input, position: 0, read_position: 0, ch: None }
        } else {
            Lexer { input, position: 0, read_position: 1, ch: Some(input.get_char(0)) }
        }
    }

    /// Advance the cursor one character; at the end of the input the cursor
    /// stays put with no current character.
    pub fn read_char(&mut self)
        requires
            old(self).wf(),
        ensures
            final(self).wf(),
            final(self).text() == old(self).text(),
            final(self).pos() == if old(self).pos() + 1 <= old(self).text().len() {
                old(self).pos() + 1
            } else {
                old(self).text().len() as int
            },
    {
        let n = self.input.unicode_len();
        if self.read_position >= n {
            self.ch = None;
            self.position = n;
            self.read_position = n;
        } else {
            self.ch = Some(self.input.get_char(self.read_position));
            self.position = self.read_position;
            self.read_position = self.read_position + 1;
        }
    }

    /// The character after the current one, if any, without consuming it.
    fn peek_char(&self) -> (res: Option<char>)
        requires
            self.wf(),
        ensures
            res == if self.pos() + 1 < self.text().len() {
                Some(self.text()[self.pos() + 1])
            } else {
                None::<char>
            },
    {
        let n = self.input.unicode_len();
        if self.read_position >= n {
            None
        } else {
            Some(self.input.get_char(self.read_position))
        }
    }

    /// Advance past consecutive whitespace.
    fn skip_whitespace(&mut self)
        requires
            old(self).wf(),
        ensures
            final(self).wf(),
            final(self).text() == old(self).text(),
            final(self).pos() == skip_ws(old(self).text(), old(self).pos()),
    {
        let ghost s0 = *old(self);
        loop
            invariant
                self.wf(),
                self.text() == s0.text(),
                0 <= self.pos() <= self.text().len(),
                skip_ws(self.text(), self.pos()) == skip_ws(s0.text(), s0.pos()),
            ensures
                self.wf(),
                self.text() == s0.text(),
                self.pos() == skip_ws(s0.text(), s0.pos()),
            decreases self.text().len() - self.pos(),
        {
            let cont = match self.ch {
                Some(c) => c == ' ' || c == '\t' || c == '\n' || c == '\r',
                None => false,
            };
            if !cont {
                break ;
            }
            self.read_char();
        }
    }

    /// Consume the maximal run of identifier characters starting at the
    /// cursor and return its text.
    fn read_identifier(&mut self) -> (res: String)
        requires
            old(self).wf(),
            old(self).pos() < old(self).text().len(),
            is_letter_char(old(self).text()[old(self).pos()]),
        ensures
            final(self).wf(),
            final(self).text() == old(self).text(),
            final(self).pos() == scan_letters(old(self).text(), old(self).pos()),
            res@ == old(self).text().subrange(
                old(self).pos(),
                scan_letters(old(self).text(), old(self).pos()),
            ),
    {
        let ghost s0 = *old(self);
        let position = self.position;
        loop
            invariant
                self.wf(),
                self.text() == s0.text(),
                position == s0.pos(),
                position <= self.pos() <= self.text().len(),
                scan_letters(self.text(), self.pos()) == scan_letters(s0.text(), s0.pos()),
            ensures
                self.wf(),
                self.text() == s0.text(),
                self.pos() == scan_letters(s0.text(), s0.pos()),
            decreases self.text().len() - self.pos(),
        {
            let cont = match self.ch {
                Some(c) => Self::is_letter(&c),
                None => false,
            };
            if !cont {
                break ;
            }
            self.read_char();
        }
        let lit = self.input.substring_char(position, self.position);
        lit.to_owned()
    }

    /// Consume the maximal run of digits starting at the cursor and return
    /// its text.
    fn read_number(&mut self) -> (res: String)
        requires
            old(self).wf(),
            old(self).pos() < old(self).text().len(),
            is_digit_char(old(self).text()[old(self).pos()]),
        ensures
            final(self).wf(),
            final(self).text() == old(self).text(),
            final(self).pos() == scan_digits(old(self).text(), old(self).pos()),
            res@ == old(self).text().subrange(
                old(self).pos(),
                scan_digits(old(self).text(), old(self).pos()),
            ),
    {
        let ghost s0 = *old(self);
        let position = self.position;
        loop
            invariant
                self.wf(),
                self.text() == s0.text(),
                position == s0.pos(),
                position <= self.pos() <= self.text().len(),
                scan_digits(self.text(), self.pos()) == scan_digits(s0.text(), s0.pos()),
            ensures
                self.wf(),
                self.text() == s0.text(),
                self.pos() == scan_digits(s0.text(), s0.pos()),
            decreases self.text().len() - self.pos(),
        {
            let cont = match self.ch {
                Some(c) => Self::is_digit(&c),
                None => false,
            };
            if !cont {
                break ;
            }
            self.read_char();
        }
        let lit = self.input.substring_char(position, self.position);
        lit.to_owned()
    }

    /// Whether this character may appear in an identifier.
    fn is_letter(ch: &char) -> (res: bool)
        ensures
            res == is_letter_char(*ch),
    {
        exec_char_is_alphabetic(*ch) || *ch == '_'
    }

    /// Whether this character is an ASCII decimal digit.
    fn is_digit(ch: &char) -> (res: bool)
        ensures
            res == is_digit_char(*ch),
    {
        let u = *ch as u32;
        48 <= u && u <= 57
    }

    /// Classify identifier text against the fixed keyword set.
    fn lookup_ident(ident: &str) -> (res: TokenType)
        ensures
            res == spec_lookup_ident(ident@),
    {
        if str_eq(ident, "fn") {
            TokenType::Function
        } else if str_eq(ident, "let") {
            TokenType::Let
        } else if str_eq(ident, "true") {
            TokenType::True
        } else if str_eq(ident, "false") {
            TokenType::False
        } else if str_eq(ident, "if") {
            TokenType::If
        } else if str_eq(ident, "else") {
            TokenType::Else
        } else if str_eq(ident, "return") {
            TokenType::Return
        } else {
            TokenType::Ident
        }
    }

    /// Scan and return the next token, advancing past it. Repeated calls at
    /// the end of the input keep returning the end-of-input token.
    pub fn next_token(&mut self) -> (res: Token)
        requires
            old(self).wf(),
        ensures
            final(self).wf(),
            final(self).text() == old(self).text(),
            res@ == token_at(
                old(self).text(),
                skip_ws(old(self).text(), old(self).pos()),
            ).0,
            final(self).pos() == token_at(
                old(self).text(),
                skip_ws(old(self).text(), old(self).pos()),
            ).1,
    {
        proof {
            lemma_skip_ws_bounds(old(self).text(), old(self).pos());
        }
        self.skip_whitespace();
        let token: Token = match self.ch {
            None => {
                let token = Token::new(TokenType::Eof, String::new());
                self.read_char();
                return token;
            },
            Some(c) => {
                if c == '=' {
                    if matches!(self.peek_char(), Some('=')) {
                        self.read_char();
                        Token::new(TokenType::Equal, "==".to_owned())
                    } else {
                        Token::new(TokenType::Assign, "=".to_owned())
                    }
                } else if c == '+' {
                    Token::new(TokenType::Plus, "+".to_owned())
                } else if c == '-' {
                    Token::new(TokenType::Minus, "-".to_owned())
                } else if c == '!' {
                    if matches!(self.peek_char(), Some('=')) {
                        self.read_char();
                        Token::new(TokenType::NotEqual, "!=".to_owned())
                    } else {
                        Token::new(TokenType::Bang, "!".to_owned())
                    }
                } else if c == '/' {
                    Token::new(TokenType::Slash, "/".to_owned())
                } else if c == '*' {
                    Token::new(TokenType::Asterisk, "*".to_owned())
                } else if c == '<' {
                    Token::new(TokenType::LessThan, "<".to_owned())
                } else if c == '>' {
                    Token::new(TokenType::GreaterThan, ">".to_owned())
                } else if c == ',' {
                    Token::new(TokenType::Comma, ",".to_owned())
                } else if c == ';' {
                    Token::new(TokenType::Semicolon, ";".to_owned())
                } else if c == '(' {
                    Token::new(TokenType::LeftParen, "(".to_owned())
                } else if c == ')' {
                    Token::new(TokenType::RightParen, ")".to_owned())
                } else if c == '{' {
                    Token::new(TokenType::LeftBrace, "{".to_owned())
                } else if c == '}' {
                    Token::new(TokenType::RightBrace, "}".to_owned())
                } else if Self::is_letter(&c) {
                    let literal = self.read_identifier();
                    return Token::new(Self::lookup_ident(literal.as_str()), literal);
                } else if Self::is_digit(&c) {
                    let literal = self.read_number();
                    return Token::new(TokenType::Int, literal);
                } else {
                    Token::new(TokenType::Illegal, char_to_string(c))
                }
            },
        };
        self.read_char();
        token
    }
}

/// Character-by-character string equality, decided against the views.
fn str_eq(a: &str, b: &str) -> (res: bool)
    ensures
        res == (a@ == b@),
{
    let n = a.unicode_len();
    let m = b.unicode_len();
    if n != m {
        return false;
    }
    let mut i: usize = 0;
    while i < n
        invariant
            n == a@.len(),
            n == b@.len(),
            0 <= i <= n,
            forall|k: int| 0 <= k < i ==> a@[k] == b@[k],
        decreases n - i,
    {
        if a.get_char(i) != b.get_char(i) {
            return false;
        }
        i = i + 1;
    }
    proof {
        assert(a@ =~= b@);
    }
    true
}

} // verus!
