//! The parser: consumes a live lexer through a two-token sliding window and
//! builds a [`crate::ast::Program`], collecting diagnostics instead of
//! aborting on the first error.

use vstd::prelude::*;

use crate::ast::{
    Expression, ExpressionStatement, ExpressionStatementView, ExpressionView, IdentExpression,
    IdentExpressionView, InfixExpression, InfixExpressionView, IntegerLiteral, IntegerLiteralView,
    LetStatement, LetStatementView, PrefixExpression, PrefixExpressionView, Program,
    ReturnStatement, ReturnStatementView, Statement, StatementView,
};
use crate::lexer::{is_digit_char, skip_ws, token_at, tokens_from, Lexer};
use crate::token::{
    eof_view, spec_is_infix, spec_kind_literal, spec_kind_precedence, Token, TokenType, TokenView,
};

verus! {

/// Enum containing the operators in the language, so we can assign
/// them to a precedence level.
#[derive(Debug, PartialEq, Eq, Clone, Copy, Structural)]
pub enum Precedence {
    /// The lowest level of precedence
    Lowest,
    /// For `==` operators
    Equals,
    /// For `>` or `<` operators
    LessGreater,
    /// For `+` operators
    Sum,
    /// For `*` operators
    Product,
    /// For `-x` or `!x` operators
    Prefix,
    /// For function calls like `my_function()`
    Call,
}

/// The numeric rank of a precedence level, lowest first.
pub open spec fn spec_precedence_value(p: Precedence) -> int {
    match p {
        Precedence::Lowest => 1,
        Precedence::Equals => 2,
        Precedence::LessGreater => 3,
        Precedence::Sum => 4,
        Precedence::Product => 5,
        Precedence::Prefix => 6,
        Precedence::Call => 7,
    }
}

impl Precedence {
    /// Returns the precedence value of each variant
    pub fn value(&self) -> (res: usize)
        ensures
            res == spec_precedence_value(*self),
    {
        match self {
            Precedence::Lowest => 1,
            Precedence::Equals => 2,
            Precedence::LessGreater => 3,
            Precedence::Sum => 4,
            Precedence::Product => 5,
            Precedence::Prefix => 6,
            Precedence::Call => 7,
        }
    }
}

/// The numeric binding power of a token kind in infix position.
pub open spec fn spec_kind_prec_value(k: TokenType) -> int {
    spec_precedence_value(spec_kind_precedence(k))
}

/// The token at index `i` of a stream; past either end it is end-of-input,
/// which is what the lexer keeps yielding there.
pub open spec fn tok(ts: Seq<TokenView>, i: int) -> TokenView {
    if 0 <= i < ts.len() {
        ts[i]
    } else {
        eof_view()
    }
}

/// The tokens from index `j` on; empty past the end.
pub open spec fn rest_of(ts: Seq<TokenView>, j: int) -> Seq<TokenView> {
    if 0 <= j <= ts.len() {
        ts.skip(j)
    } else {
        Seq::empty()
    }
}

/// `i` clamped into the interval from `lo` to the stream length.
pub open spec fn clamp_idx(ts: Seq<TokenView>, lo: int, i: int) -> int {
    if i < lo {
        lo
    } else if i > ts.len() {
        ts.len() as int
    } else {
        i
    }
}

/// The diagnostic recorded when the next token is not the expected one.
pub open spec fn spec_peek_error_message(expected: TokenType, got: TokenType) -> Seq<char> {
    "expected next token to be \""@ + spec_kind_literal(expected) + "\", got \""@
        + spec_kind_literal(got) + "\" instead"@
}

/// The diagnostic recorded when an integer literal cannot be converted.
pub open spec fn spec_int_error_message(lit: Seq<char>) -> Seq<char> {
    "Could not parse "@ + lit + " as integer"@
}

/// Whether every character of `s` is an ASCII decimal digit.
pub open spec fn all_digits(s: Seq<char>) -> bool {
    forall|k: int| 0 <= k < s.len() ==> is_digit_char(#[trigger] s[k])
}

/// The numeric value of a decimal digit character.
pub open spec fn digit_val(c: char) -> int {
    c as u32 - 48
}

/// The value of a digit string, most significant digit first.
pub open spec fn spec_digits_value(s: Seq<char>) -> int
    decreases s.len(),
{
    if s.len() == 0 {
        0
    } else {
        spec_digits_value(s.drop_last()) * 10 + digit_val(s.last())
    }
}

/// The 64-bit signed value an integer literal converts to: defined exactly
/// when the text is a nonempty run of digits whose value fits.
pub open spec fn spec_parse_i64(s: Seq<char>) -> Option<i64> {
    if s.len() > 0 && all_digits(s) && spec_digits_value(s) <= i64::MAX {
        Some(spec_digits_value(s) as i64)
    } else {
        None
    }
}

/// The index of the first token at or after `i` whose kind is `Semicolon`,
/// or of the end of the stream (where the lexer reports end-of-input),
/// whichever comes first.
pub open spec fn semi_scan(ts: Seq<TokenView>, i: int) -> int
    decreases ts.len() - i
        when 0 <= i <= ts.len()
{
    if tok(ts, i).kind == TokenType::Semicolon || tok(ts, i).kind == TokenType::Eof {
        i
    } else {
        semi_scan(ts, i + 1)
    }
}

pub proof fn lemma_semi_scan_bounds(ts: Seq<TokenView>, i: int)
    requires
        0 <= i <= ts.len(),
    ensures
        i <= semi_scan(ts, i) <= ts.len(),
    decreases ts.len() - i,
{
    if !(tok(ts, i).kind == TokenType::Semicolon || tok(ts, i).kind == TokenType::Eof) {
        lemma_semi_scan_bounds(ts, i + 1);
    }
}

/// What parsing an integer literal at `i` yields: the expression or a
/// diagnostic. The cursor does not move.
pub open spec fn sp_parse_integer_literal(ts: Seq<TokenView>, i: int) -> (Option<ExpressionView>,
    Seq<Seq<char>>) {
    let t = tok(ts, i);
    match spec_parse_i64(t.literal) {
        Some(v) => (
            Some(ExpressionView::Integer(IntegerLiteralView { token: t, value: v })),
            Seq::empty(),
        ),
        None => (None, seq![spec_int_error_message(t.literal)]),
    }
}

/// What parsing a prefix expression at `i` (a `-` or `!` operator) yields,
/// with the cursor index after it and the diagnostics emitted.
pub open spec fn sp_parse_prefix_expression(ts: Seq<TokenView>, i: int) -> (
    Option<ExpressionView>,
    int,
    Seq<Seq<char>>,
)
    decreases ts.len() - i, 0int,
        when 0 <= i <= ts.len()
{
    let t = tok(ts, i);
    if t.kind == TokenType::Minus || t.kind == TokenType::Bang {
        let r = sp_parse_expression(ts, i + 1, 6);
        match r.0 {
            None => (None, r.1, r.2),
            Some(rv) => (
                Some(
                    ExpressionView::Prefix(
                        PrefixExpressionView {
                            token: t,
                            operator: t.literal,
                            right: Box::new(rv),
                        },
                    ),
                ),
                r.1,
                r.2,
            ),
        }
    } else {
        (None, i, Seq::empty())
    }
}

/// What the prefix rule for the token at `i` yields: an identifier, an
/// integer literal, a prefix expression, or — for a kind with no prefix
/// rule — nothing, with no diagnostic recorded.
pub open spec fn sp_prefix_parse(ts: Seq<TokenView>, i: int) -> (
    Option<ExpressionView>,
    int,
    Seq<Seq<char>>,
)
    decreases ts.len() - i, 1int,
        when 0 <= i <= ts.len()
{
    let t = tok(ts, i);
    match t.kind {
        TokenType::Ident => (
            Some(ExpressionView::Ident(IdentExpressionView { token: t, value: t.literal })),
            i,
            Seq::empty(),
        ),
        TokenType::Int => {
            let r = sp_parse_integer_literal(ts, i);
            (r.0, i, r.1)
        },
        TokenType::Minus => sp_parse_prefix_expression(ts, i),
        TokenType::Bang => sp_parse_prefix_expression(ts, i),
        _ => (None, i, Seq::empty()),
    }
}

/// What parsing an infix expression yields, with the cursor on the operator
/// at `j` and `leftv` as the finished left operand.
pub open spec fn sp_parse_infix(ts: Seq<TokenView>, j: int, leftv: ExpressionView) -> (
    Option<ExpressionView>,
    int,
    Seq<Seq<char>>,
)
    decreases ts.len() - j, 0int,
        when 0 <= j <= ts.len()
{
    if j + 1 > ts.len() {
        (None, j, Seq::empty())
    } else {
        let opr = tok(ts, j);
        let r = sp_parse_expression(ts, j + 1, spec_kind_prec_value(opr.kind));
        match r.0 {
            None => (None, r.1, r.2),
            Some(rv) => (
                Some(
                    ExpressionView::Infix(
                        InfixExpressionView {
                            token: opr,
                            operator: opr.literal,
                            left: Box::new(leftv),
                            right: Box::new(rv),
                        },
                    ),
                ),
                r.1,
                r.2,
            ),
        }
    }
}

/// One round of precedence climbing with the cursor at `i` and `left` built
/// so far: stop before a semicolon or a weaker operator, or consume one
/// infix operator and its right operand and go round again.
pub open spec fn sp_climb(ts: Seq<TokenView>, i: int, prec: int, left: Option<ExpressionView>) -> (
    Option<ExpressionView>,
    int,
    Seq<Seq<char>>,
)
    decreases ts.len() - i, 2int,
        when 0 <= i <= ts.len()
{
    let pk = tok(ts, i + 1);
    if pk.kind == TokenType::Semicolon || !(prec < spec_kind_prec_value(pk.kind)) {
        (left, i, Seq::empty())
    } else if !spec_is_infix(pk.kind) {
        (left, i, Seq::empty())
    } else {
        match left {
            None => (None, i + 1, Seq::empty()),
            Some(lv) => {
                let inf = sp_parse_infix(ts, i + 1, lv);
                let i2 = clamp_idx(ts, i + 1, inf.1);
                let c = sp_climb(ts, i2, prec, inf.0);
                (c.0, c.1, inf.2 + c.2)
            },
        }
    }
}

/// What parsing one expression at `i` with minimum binding power `prec`
/// yields: the prefix rule's result, extended by precedence climbing.
pub open spec fn sp_parse_expression(ts: Seq<TokenView>, i: int, prec: int) -> (
    Option<ExpressionView>,
    int,
    Seq<Seq<char>>,
)
    decreases ts.len() - i, 3int,
        when 0 <= i <= ts.len()
{
    let p = sp_prefix_parse(ts, i);
    let i1 = clamp_idx(ts, i, p.1);
    let c = sp_climb(ts, i1, prec, p.0);
    (c.0, c.1, p.2 + c.2)
}

proof fn lemma_sp_parse_prefix_expression_bounds(ts: Seq<TokenView>, i: int)
    requires
        0 <= i <= ts.len(),
    ensures
        i <= sp_parse_prefix_expression(ts, i).1 <= ts.len(),
    decreases ts.len() - i, 0int,
{
    let t = tok(ts, i);
    if t.kind == TokenType::Minus || t.kind == TokenType::Bang {
        lemma_sp_parse_expression_bounds(ts, i + 1, 6);
    }
}

proof fn lemma_sp_prefix_parse_bounds(ts: Seq<TokenView>, i: int)
    requires
        0 <= i <= ts.len(),
    ensures
        i <= sp_prefix_parse(ts, i).1 <= ts.len(),
    decreases ts.len() - i, 1int,
{
    let t = tok(ts, i);
    if t.kind == TokenType::Minus || t.kind == TokenType::Bang {
        lemma_sp_parse_prefix_expression_bounds(ts, i);
    }
}

proof fn lemma_sp_parse_infix_bounds(ts: Seq<TokenView>, j: int, leftv: ExpressionView)
    requires
        0 <= j <= ts.len(),
    ensures
        j <= sp_parse_infix(ts, j, leftv).1 <= ts.len(),
    decreases ts.len() - j, 0int,
{
    if j + 1 <= ts.len() {
        lemma_sp_parse_expression_bounds(ts, j + 1, spec_kind_prec_value(tok(ts, j).kind));
    }
}

proof fn lemma_sp_climb_bounds(ts: Seq<TokenView>, i: int, prec: int, left: Option<ExpressionView>)
    requires
        0 <= i <= ts.len(),
    ensures
        i <= sp_climb(ts, i, prec, left).1 <= ts.len(),
    decreases ts.len() - i, 2int,
{
    let pk = tok(ts, i + 1);
    if pk.kind == TokenType::Semicolon || !(prec < spec_kind_prec_value(pk.kind)) {
    } else if !spec_is_infix(pk.kind) {
    } else {
        match left {
            None => {},
            Some(lv) => {
                lemma_sp_parse_infix_bounds(ts, i + 1, lv);
                let inf = sp_parse_infix(ts, i + 1, lv);
                let i2 = clamp_idx(ts, i + 1, inf.1);
                lemma_sp_climb_bounds(ts, i2, prec, inf.0);
            },
        }
    }
}

proof fn lemma_sp_parse_expression_bounds(ts: Seq<TokenView>, i: int, prec: int)
    requires
        0 <= i <= ts.len(),
    ensures
        i <= sp_parse_expression(ts, i, prec).1 <= ts.len(),
    decreases ts.len() - i, 3int,
{
    lemma_sp_prefix_parse_bounds(ts, i);
    let p = sp_prefix_parse(ts, i);
    let i1 = clamp_idx(ts, i, p.1);
    lemma_sp_climb_bounds(ts, i1, prec, p.0);
}

/// What parsing a let statement yields with the cursor on the `let` at `i`:
/// the name must follow, then `=`; the value is skipped up to the next
/// semicolon (or the end of the input) and a placeholder identifier made of
/// the last-seen token stands in for it.
pub open spec fn sp_parse_let_statement(ts: Seq<TokenView>, i: int) -> (
    Option<StatementView>,
    int,
    Seq<Seq<char>>,
) {
    if tok(ts, i + 1).kind != TokenType::Ident {
        (None, i, seq![spec_peek_error_message(TokenType::Ident, tok(ts, i + 1).kind)])
    } else {
        let name = IdentExpressionView { token: tok(ts, i + 1), value: tok(ts, i + 1).literal };
        if tok(ts, i + 2).kind != TokenType::Assign {
            (None, i + 1, seq![spec_peek_error_message(TokenType::Assign, tok(ts, i + 2).kind)])
        } else {
            let j = semi_scan(ts, i + 2);
            let endt = tok(ts, j);
            let dummy = IdentExpressionView { token: endt, value: endt.literal };
            (
                Some(
                    StatementView::Let(
                        LetStatementView {
                            token: endt,
                            name,
                            value: ExpressionView::Ident(dummy),
                        },
                    ),
                ),
                j,
                Seq::empty(),
            )
        }
    }
}

/// What parsing a return statement yields with the cursor on the `return`
/// at `i`: always a statement whose value is the fixed placeholder
/// identifier `foo`; tokens are skipped up to the next semicolon (or the
/// end of the input).
pub open spec fn sp_parse_return_statement(ts: Seq<TokenView>, i: int) -> (
    Option<StatementView>,
    int,
    Seq<Seq<char>>,
) {
    let dummy = IdentExpressionView {
        token: TokenView { kind: TokenType::Ident, literal: "foo"@ },
        value: "foo"@,
    };
    let stmt = ReturnStatementView { token: tok(ts, i), value: ExpressionView::Ident(dummy) };
    let j = semi_scan(ts, i + 1);
    (Some(StatementView::Return(stmt)), j, Seq::empty())
}

/// What parsing an expression statement at `i` yields: one expression at the
/// lowest binding power, with an optional trailing semicolon consumed.
pub open spec fn sp_parse_expression_statement(ts: Seq<TokenView>, i: int) -> (
    Option<StatementView>,
    int,
    Seq<Seq<char>>,
) {
    let r = sp_parse_expression(ts, i, 1);
    match r.0 {
        None => (None, r.1, r.2),
        Some(e) => {
            let st = ExpressionStatementView { token: tok(ts, r.1), expression: e };
            if tok(ts, r.1 + 1).kind == TokenType::Semicolon {
                (Some(StatementView::Expression(st)), r.1 + 1, r.2)
            } else {
                (Some(StatementView::Expression(st)), r.1, r.2)
            }
        },
    }
}

/// What parsing one statement at `i` yields, dispatching on the current
/// token's kind.
pub open spec fn sp_parse_statement(ts: Seq<TokenView>, i: int) -> (
    Option<StatementView>,
    int,
    Seq<Seq<char>>,
) {
    match tok(ts, i).kind {
        TokenType::Let => sp_parse_let_statement(ts, i),
        TokenType::Return => sp_parse_return_statement(ts, i),
        _ => sp_parse_expression_statement(ts, i),
    }
}

pub proof fn lemma_sp_parse_statement_bounds(ts: Seq<TokenView>, i: int)
    requires
        0 <= i <= ts.len(),
    ensures
        i <= sp_parse_statement(ts, i).1 <= ts.len(),
{
    match tok(ts, i).kind {
        TokenType::Let => {
            if tok(ts, i + 1).kind == TokenType::Ident && tok(ts, i + 2).kind
                == TokenType::Assign {
                assert(i + 2 <= ts.len());
                lemma_semi_scan_bounds(ts, i + 2);
            }
        },
        TokenType::Return => {
            assert(i + 1 <= ts.len());
            lemma_semi_scan_bounds(ts, i + 1);
        },
        _ => {
            lemma_sp_parse_expression_bounds(ts, i, 1);
        },
    }
}

/// The statements and diagnostics that parsing yields from token index `i`
/// to the end of the input.
pub open spec fn sp_program_rest(ts: Seq<TokenView>, i: int) -> (Seq<StatementView>, Seq<
    Seq<char>,
>)
    decreases ts.len() + 1 - i
        when 0 <= i <= ts.len() + 1
{
    if tok(ts, i).kind == TokenType::Eof {
        (Seq::empty(), Seq::empty())
    } else {
        let r = sp_parse_statement(ts, i);
        let i2 = clamp_idx(ts, i, r.1);
        let rest = sp_program_rest(ts, i2 + 1);
        (
            match r.0 {
                Some(st) => seq![st] + rest.0,
                None => rest.0,
            },
            r.2 + rest.1,
        )
    }
}

/// What parsing a whole token stream yields: the program's statements and
/// the diagnostics, in order.
pub open spec fn sp_parse_program(ts: Seq<TokenView>) -> (Seq<StatementView>, Seq<Seq<char>>) {
    sp_program_rest(ts, 0)
}

/// Law: a let statement whose header is malformed — the token after `let`
/// is not an identifier, or the token after the name is not `=` — yields no
/// statement and appends exactly one diagnostic. (That no parse can panic
/// or run forever is part of each parsing function's own verification.)
pub proof fn lemma_malformed_let_reports_error(ts: Seq<TokenView>, i: int)
    requires
        tok(ts, i).kind == TokenType::Let,
        tok(ts, i + 1).kind != TokenType::Ident || tok(ts, i + 2).kind != TokenType::Assign,
    ensures
        sp_parse_statement(ts, i).0 is None,
        sp_parse_statement(ts, i).2.len() == 1,
{
}

/// Law: a whole parse that meets a malformed let statement ends with at
/// least one diagnostic recorded.
pub proof fn lemma_malformed_let_program_reports(ts: Seq<TokenView>, i: int)
    requires
        0 <= i <= ts.len(),
        tok(ts, i).kind == TokenType::Let,
        tok(ts, i + 1).kind != TokenType::Ident || tok(ts, i + 2).kind != TokenType::Assign,
    ensures
        sp_program_rest(ts, i).1.len() >= 1,
{
    lemma_malformed_let_reports_error(ts, i);
}

/// The view of a possibly absent expression.
pub open spec fn opt_expr_view(o: Option<Expression>) -> Option<ExpressionView> {
    match o {
        Some(e) => Some(e@),
        None => None,
    }
}

/// The view of a possibly absent statement.
pub open spec fn opt_stmt_view(o: Option<Statement>) -> Option<StatementView> {
    match o {
        Some(s) => Some(s@),
        None => None,
    }
}

proof fn lemma_digits_value_nonneg(s: Seq<char>)
    requires
        all_digits(s),
    ensures
        spec_digits_value(s) >= 0,
    decreases s.len(),
{
    if s.len() > 0 {
        assert(all_digits(s.drop_last())) by {
            assert forall|k: int| 0 <= k < s.drop_last().len() implies is_digit_char(
                #[trigger] s.drop_last()[k],
            ) by {
                assert(s.drop_last()[k] == s[k]);
            }
        }
        lemma_digits_value_nonneg(s.drop_last());
        assert(s.last() == s[s.len() - 1]);
        assert(spec_digits_value(s.drop_last()) * 10 >= 0) by (nonlinear_arith)
            requires
                spec_digits_value(s.drop_last()) >= 0,
        ;
    }
}

proof fn lemma_digits_value_step(s: Seq<char>, i: int)
    requires
        0 <= i < s.len(),
    ensures
        spec_digits_value(s.take(i + 1)) == spec_digits_value(s.take(i)) * 10 + digit_val(s[i]),
{
    assert(s.take(i + 1).drop_last() =~= s.take(i));
    assert(s.take(i + 1).last() == s[i]);
}

proof fn lemma_digits_value_mono(s: Seq<char>, i: int)
    requires
        all_digits(s),
        0 <= i <= s.len(),
    ensures
        spec_digits_value(s.take(i)) <= spec_digits_value(s),
    decreases s.len() - i,
{
    if i < s.len() {
        lemma_digits_value_step(s, i);
        assert(all_digits(s.take(i))) by {
            assert forall|k: int| 0 <= k < s.take(i).len() implies is_digit_char(
                #[trigger] s.take(i)[k],
            ) by {
                assert(s.take(i)[k] == s[k]);
            }
        }
        lemma_digits_value_nonneg(s.take(i));
        let v = spec_digits_value(s.take(i));
        assert(v * 10 >= v) by (nonlinear_arith)
            requires
                v >= 0,
        ;
        assert(digit_val(s[i]) >= 0);
        lemma_digits_value_mono(s, i + 1);
    } else {
        assert(s.take(i) =~= s);
    }
}

/// Convert a maximal-run-of-digits literal to a 64-bit signed value;
/// nothing for text that is empty, not all digits, or too large to fit.
fn parse_i64_digits(s: &str) -> (res: Option<i64>)
    ensures
        res == spec_parse_i64(s@),
{
    let n = s.unicode_len();
    if n == 0 {
        return None;
    }
    let mut acc: i64 = 0;
    let mut i: usize = 0;
    while i < n
        invariant
            n == s@.len(),
            0 <= i <= n,
            all_digits(s@.take(i as int)),
            acc == spec_digits_value(s@.take(i as int)),
            0 <= acc,
        decreases n - i,
    {
        let c = s.get_char(i);
        let u = c as u32;
        if u < 48 || u > 57 {
            assert(!all_digits(s@)) by {
                assert(!is_digit_char(s@[i as int]));
            }
            return None;
        }
        let d = (u - 48) as i64;
        proof {
            assert(is_digit_char(s@[i as int]));
            assert(all_digits(s@.take(i as int + 1))) by {
                assert forall|k: int| 0 <= k < s@.take(i as int + 1).len() implies is_digit_char(
                    #[trigger] s@.take(i as int + 1)[k],
                ) by {
                    assert(s@.take(i as int + 1)[k] == s@[k]);
                    if k < i as int {
                        assert(is_digit_char(s@.take(i as int)[k]));
                    }
                }
            }
            lemma_digits_value_step(s@, i as int);
            vstd::arithmetic::div_mod::lemma_fundamental_div_mod(i64::MAX - d, 10);
            vstd::arithmetic::div_mod::lemma_mod_division_less_than_divisor(i64::MAX - d, 10);
        }
        if acc > (i64::MAX - d) / 10 {
            proof {
                assert(acc * 10 + d > i64::MAX);
                if all_digits(s@) {
                    lemma_digits_value_mono(s@, i as int + 1);
                }
            }
            return None;
        }
        proof {
            assert(acc * 10 + d <= i64::MAX);
        }
        acc = acc * 10 + d;
        i = i + 1;
    }
    proof {
        assert(s@.take(n as int) =~= s@);
    }
    Some(acc)
}

/// If a lexer's remaining stream equals `ts` from index `k` on, its next
/// scan yields exactly the token at index `k` (end-of-input past the end),
/// and leaves a lexer whose remaining stream is `ts` from `k + 1` on.
proof fn lemma_pull_token(text: Seq<char>, p: int, ts: Seq<TokenView>, k: int)
    requires
        0 <= p <= text.len(),
        0 <= k,
        tokens_from(text, p) == rest_of(ts, k),
    ensures
        ({
            let j = skip_ws(text, p);
            let t = token_at(text, j);
            &&& t.0 == tok(ts, k)
            &&& 0 <= t.1 <= text.len()
            &&& tokens_from(text, t.1) == rest_of(ts, k + 1)
        }),
{
    crate::lexer::lemma_tokens_from_unfold(text, p);
    let j = skip_ws(text, p);
    let t = token_at(text, j);
    if t.0.kind == TokenType::Eof {
        assert(rest_of(ts, k).len() == 0);
        if k < ts.len() {
            assert(rest_of(ts, k) == ts.skip(k));
            assert(ts.skip(k).len() == ts.len() - k);
        }
        assert(k >= ts.len());
        assert(tok(ts, k) == eof_view());
        assert(rest_of(ts, k + 1) =~= Seq::<TokenView>::empty());
    } else {
        let rest = tokens_from(text, t.1);
        assert(seq![t.0] + rest == rest_of(ts, k));
        assert(rest_of(ts, k).len() == 1 + rest.len());
        if k >= ts.len() {
            assert(rest_of(ts, k).len() == 0);
        }
        assert(k < ts.len());
        assert(rest_of(ts, k) == ts.skip(k));
        assert((seq![t.0] + rest)[0] == t.0);
        assert(ts.skip(k)[0] == ts[k]);
        assert(t.0 == tok(ts, k));
        assert(rest =~= rest_of(ts, k + 1)) by {
            assert(rest.len() == ts.len() - (k + 1));
            assert(rest_of(ts, k + 1) == ts.skip(k + 1));
            assert forall|m: int| 0 <= m < rest.len() implies rest[m] == ts.skip(k + 1)[m] by {
                assert(rest[m] == (seq![t.0] + rest)[m + 1]);
                assert(ts.skip(k)[m + 1] == ts[k + 1 + m]);
                assert(ts.skip(k + 1)[m] == ts[k + 1 + m]);
            }
        }
    }
}

/// The parser: the lexer it drains, the two-token window (`cur_token`,
/// `peek_token`), and the diagnostics gathered so far. The ghost fields hold
/// the token stream being parsed and the index of the current token in it.
pub struct Parser<'a> {
    lexer: Lexer<'a>,
    cur_token: Token,
    peek_token: Token,
    errors: Vec<String>,
    toks: Ghost<Seq<TokenView>>,
    cursor: Ghost<int>,
}

impl<'a> Parser<'a> {
    /// The token stream this parser consumes.
    pub closed spec fn toks(self) -> Seq<TokenView> {
        self.toks@
    }

    /// The index of the current token in the stream.
    pub closed spec fn cursor(self) -> int {
        self.cursor@
    }

    /// The diagnostics gathered so far, as character sequences.
    pub closed spec fn errors_seq(self) -> Seq<Seq<char>> {
        Seq::new(self.errors@.len(), |i: int| self.errors@[i]@)
    }

    /// Well-formedness: the two-token window holds the stream's tokens at
    /// the cursor and one past it, and the lexer still holds exactly the
    /// tokens after those.
    pub closed spec fn wf(self) -> bool {
        &&& self.lexer.wf()
        &&& 0 <= self.cursor@ <= self.toks@.len() + 1
        &&& self.cur_token@ == tok(self.toks@, self.cursor@)
        &&& self.peek_token@ == tok(self.toks@, self.cursor@ + 1)
        &&& tokens_from(self.lexer.text(), self.lexer.pos()) == rest_of(
            self.toks@,
            self.cursor@ + 2,
        )
    }

    /// A parser over `lexer`, primed by pulling the first two tokens.
    pub fn new(lexer: Lexer<'a>) -> (res: Parser<'a>)
        requires
            lexer.wf(),
        ensures
            res.wf(),
            res.toks() == tokens_from(lexer.text(), lexer.pos()),
            res.cursor() == 0,
            res.errors_seq() == Seq::<Seq<char>>::empty(),
    {
        let ghost toks0 = tokens_from(lexer.text(), lexer.pos());
        let mut lexer = lexer;
        proof {
            lexer.lemma_wf_pos();
            assert(rest_of(toks0, 0) =~= toks0);
            lemma_pull_token(lexer.text(), lexer.pos(), toks0, 0);
        }
        let cur_token = lexer.next_token();
        proof {
            lexer.lemma_wf_pos();
            lemma_pull_token(lexer.text(), lexer.pos(), toks0, 1);
        }
        let peek_token = lexer.next_token();
        let res = Parser {
            lexer,
            cur_token,
            peek_token,
            errors: Vec::new(),
            toks: Ghost(toks0),
            cursor: Ghost(0),
        };
        proof {
            assert(res.errors_seq() =~= Seq::<Seq<char>>::empty());
        }
        res
    }

    /// Returns the list of parsing errors
    pub fn errors(&self) -> (res: &Vec<String>)
        ensures
            res@.len() == self.errors_seq().len(),
            forall|k: int| 0 <= k < res@.len() ==> res@[k]@ == self.errors_seq()[k],
    {
        &self.errors
    }

    /// Advance the window: the peek token becomes current, and the lexer
    /// supplies a new peek token.
    fn next_token(&mut self)
        requires
            old(self).wf(),
            old(self).cursor() <= old(self).toks().len(),
        ensures
            final(self).wf(),
            final(self).toks() == old(self).toks(),
            final(self).cursor() == old(self).cursor() + 1,
            final(self).errors_seq() == old(self).errors_seq(),
    {
        proof {
            self.lexer.lemma_wf_pos();
            lemma_pull_token(
                self.lexer.text(),
                self.lexer.pos(),
                self.toks@,
                self.cursor@ + 2,
            );
        }
        self.cur_token = self.peek_token.clone();
        self.peek_token = self.lexer.next_token();
        self.cursor = Ghost(self.cursor@ + 1);
        proof {
            assert(final(self).errors_seq() =~= old(self).errors_seq());
        }
    }

    /// Whether the current token has the given kind.
    fn cur_token_is(&self, token_type: &TokenType) -> (res: bool)
        requires
            self.wf(),
        ensures
            res == (tok(self.toks(), self.cursor()).kind == *token_type),
    {
        self.cur_token.token_type == *token_type
    }

    /// The current token's infix binding power.
    fn cur_precedence(&self) -> (res: Precedence)
        requires
            self.wf(),
        ensures
            res == spec_kind_precedence(tok(self.toks(), self.cursor()).kind),
    {
        self.cur_token.token_type.precedence()
    }

    /// Whether the peek token has the given kind.
    fn peek_token_is(&self, token_type: &TokenType) -> (res: bool)
        requires
            self.wf(),
        ensures
            res == (tok(self.toks(), self.cursor() + 1).kind == *token_type),
    {
        self.peek_token.token_type == *token_type
    }

    /// The peek token's infix binding power.
    fn peek_precedence(&self) -> (res: Precedence)
        requires
            self.wf(),
        ensures
            res == spec_kind_precedence(tok(self.toks(), self.cursor() + 1).kind),
    {
        self.peek_token.token_type.precedence()
    }

    /// Record a diagnostic: the peek token is not the one expected.
    fn peek_error(&mut self, token_type: &TokenType)
        requires
            old(self).wf(),
        ensures
            final(self).wf(),
            final(self).toks() == old(self).toks(),
            final(self).cursor() == old(self).cursor(),
            final(self).errors_seq() == old(self).errors_seq().push(
                spec_peek_error_message(
                    *token_type,
                    tok(old(self).toks(), old(self).cursor() + 1).kind,
                ),
            ),
    {
        let error_msg = "expected next token to be \"".to_owned().concat(
            token_type.get_literal(),
        ).concat("\", got \"").concat(self.peek_token.token_type.get_literal()).concat(
            "\" instead",
        );
        self.errors.push(error_msg);
        proof {
            assert(final(self).errors_seq() =~= old(self).errors_seq().push(
                spec_peek_error_message(
                    *token_type,
                    tok(old(self).toks(), old(self).cursor() + 1).kind,
                ),
            ));
        }
    }

    /// Parse the current token as an identifier expression. The cursor does
    /// not move.
    fn parse_identifier(&self) -> (res: Option<Expression>)
        requires
            self.wf(),
        ensures
            opt_expr_view(res) == Some(
                ExpressionView::Ident(
                    IdentExpressionView {
                        token: tok(self.toks(), self.cursor()),
                        value: tok(self.toks(), self.cursor()).literal,
                    },
                ),
            ),
    {
        let ident = IdentExpression {
            token: self.cur_token.clone(),
            value: self.cur_token.literal.clone(),
        };
        Some(Expression::Ident(ident))
    }

    /// Parse the current token as an integer literal; a value that does not
    /// fit records a diagnostic and yields nothing. The cursor does not
    /// move.
    fn parse_integer_literal(&mut self) -> (res: Option<Expression>)
        requires
            old(self).wf(),
        ensures
            final(self).wf(),
            final(self).toks() == old(self).toks(),
            final(self).cursor() == old(self).cursor(),
            opt_expr_view(res) == sp_parse_integer_literal(
                old(self).toks(),
                old(self).cursor(),
            ).0,
            final(self).errors_seq() == old(self).errors_seq() + sp_parse_integer_literal(
                old(self).toks(),
                old(self).cursor(),
            ).1,
    {
        match parse_i64_digits(self.cur_token.literal.as_str()) {
            Some(v) => {
                let lit = IntegerLiteral { token: self.cur_token.clone(), value: v };
                proof {
                    assert(final(self).errors_seq() =~= old(self).errors_seq()
                        + sp_parse_integer_literal(old(self).toks(), old(self).cursor()).1);
                }
                Some(Expression::Integer(lit))
            },
            None => {
                let msg = "Could not parse ".to_owned().concat(
                    self.cur_token.literal.as_str(),
                ).concat(" as integer");
                self.errors.push(msg);
                proof {
                    assert(final(self).errors_seq() =~= old(self).errors_seq()
                        + sp_parse_integer_literal(old(self).toks(), old(self).cursor()).1);
                }
                None
            },
        }
    }

    /// Parse a let statement with the cursor on `let`: the name and `=` must
    /// follow; the value is skipped up to the next semicolon (or the end of
    /// the input, so that a missing semicolon cannot make this loop
    /// forever), with a placeholder identifier standing in for it.
    fn parse_let_statement(&mut self) -> (res: Option<Statement>)
        requires
            old(self).wf(),
            tok(old(self).toks(), old(self).cursor()).kind == TokenType::Let,
        ensures
            final(self).wf(),
            final(self).toks() == old(self).toks(),
            opt_stmt_view(res) == sp_parse_let_statement(old(self).toks(), old(self).cursor()).0,
            final(self).cursor() == sp_parse_let_statement(old(self).toks(), old(self).cursor()).1,
            final(self).errors_seq() == old(self).errors_seq() + sp_parse_let_statement(
                old(self).toks(),
                old(self).cursor(),
            ).2,
    {
        let ghost ts = old(self).toks();
        let ghost c0 = old(self).cursor();
        if !self.expect_peek(&TokenType::Ident) {
            proof {
                assert(final(self).errors_seq() =~= old(self).errors_seq()
                    + sp_parse_let_statement(ts, c0).2);
            }
            return None;
        }
        let name = IdentExpression {
            token: self.cur_token.clone(),
            value: self.cur_token.literal.clone(),
        };
        if !self.expect_peek(&TokenType::Assign) {
            proof {
                assert(final(self).errors_seq() =~= old(self).errors_seq()
                    + sp_parse_let_statement(ts, c0).2);
            }
            return None;
        }
        while !self.cur_token_is(&TokenType::Semicolon) && !self.cur_token_is(&TokenType::Eof)
            invariant
                self.wf(),
                self.toks() == ts,
                self.errors_seq() == old(self).errors_seq(),
                c0 + 2 <= self.cursor() <= ts.len(),
                semi_scan(ts, self.cursor()) == semi_scan(ts, c0 + 2),
            decreases ts.len() - self.cursor(),
        {
            self.next_token();
        }
        let dummy_value = IdentExpression {
            token: self.cur_token.clone(),
            value: self.cur_token.literal.clone(),
        };
        let let_stmt = LetStatement {
            token: self.cur_token.clone(),
            name,
            value: Expression::Ident(dummy_value),
        };
        proof {
            assert(final(self).errors_seq() =~= old(self).errors_seq() + sp_parse_let_statement(
                ts,
                c0,
            ).2);
        }
        Some(Statement::Let(let_stmt))
    }

    /// Parse a return statement with the cursor on `return`: the statement
    /// always carries the fixed placeholder identifier `foo` as its value;
    /// tokens are skipped up to the next semicolon (or the end of the
    /// input, so that a missing semicolon cannot make this loop forever).
    fn parse_return_statement(&mut self) -> (res: Option<Statement>)
        requires
            old(self).wf(),
            tok(old(self).toks(), old(self).cursor()).kind == TokenType::Return,
        ensures
            final(self).wf(),
            final(self).toks() == old(self).toks(),
            opt_stmt_view(res) == sp_parse_return_statement(
                old(self).toks(),
                old(self).cursor(),
            ).0,
            final(self).cursor() == sp_parse_return_statement(
                old(self).toks(),
                old(self).cursor(),
            ).1,
            final(self).errors_seq() == old(self).errors_seq() + sp_parse_return_statement(
                old(self).toks(),
                old(self).cursor(),
            ).2,
    {
        let ghost ts = old(self).toks();
        let ghost c0 = old(self).cursor();
        let dummy_value = IdentExpression {
            token: Token { token_type: TokenType::Ident, literal: "foo".to_owned() },
            value: "foo".to_owned(),
        };
        let stmt = ReturnStatement {
            token: self.cur_token.clone(),
            value: Expression::Ident(dummy_value),
        };
        self.next_token();
        while !self.cur_token_is(&TokenType::Semicolon) && !self.cur_token_is(&TokenType::Eof)
            invariant
                self.wf(),
                self.toks() == ts,
                self.errors_seq() == old(self).errors_seq(),
                c0 + 1 <= self.cursor() <= ts.len(),
                semi_scan(ts, self.cursor()) == semi_scan(ts, c0 + 1),
            decreases ts.len() - self.cursor(),
        {
            self.next_token();
        }
        proof {
            assert(final(self).errors_seq() =~= old(self).errors_seq()
                + sp_parse_return_statement(ts, c0).2);
        }
        Some(Statement::Return(stmt))
    }

    /// Parse a prefix expression with the cursor on its `-` or `!` operator:
    /// advance past the operator, parse the operand at prefix binding power,
    /// and wrap it.
    fn parse_prefix_expression(&mut self) -> (res: Option<Expression>)
        requires
            old(self).wf(),
            tok(old(self).toks(), old(self).cursor()).kind == TokenType::Minus || tok(
                old(self).toks(),
                old(self).cursor(),
            ).kind == TokenType::Bang,
        ensures
            final(self).wf(),
            final(self).toks() == old(self).toks(),
            opt_expr_view(res) == sp_parse_prefix_expression(
                old(self).toks(),
                old(self).cursor(),
            ).0,
            final(self).cursor() == sp_parse_prefix_expression(
                old(self).toks(),
                old(self).cursor(),
            ).1,
            final(self).errors_seq() == old(self).errors_seq() + sp_parse_prefix_expression(
                old(self).toks(),
                old(self).cursor(),
            ).2,
        decreases old(self).toks().len() - old(self).cursor(), 0int,
    {
        let ghost ts = old(self).toks();
        let ghost c0 = old(self).cursor();
        let token = self.cur_token.clone();
        let operator = token.literal.clone();
        self.next_token();
        let right = match self.parse_expression(Precedence::Prefix.value()) {
            Some(r) => r,
            None => {
                return None;
            },
        };
        let prefix = PrefixExpression { token, operator, right: Box::new(right) };
        Some(Expression::Prefix(prefix))
    }

    /// The prefix rule for the current token: an identifier, an integer
    /// literal, a prefix expression, or nothing for any other kind.
    fn prefix_parse(&mut self) -> (res: Option<Expression>)
        requires
            old(self).wf(),
            old(self).cursor() <= old(self).toks().len(),
        ensures
            final(self).wf(),
            final(self).toks() == old(self).toks(),
            opt_expr_view(res) == sp_prefix_parse(old(self).toks(), old(self).cursor()).0,
            final(self).cursor() == sp_prefix_parse(old(self).toks(), old(self).cursor()).1,
            final(self).errors_seq() == old(self).errors_seq() + sp_prefix_parse(
                old(self).toks(),
                old(self).cursor(),
            ).2,
        decreases old(self).toks().len() - old(self).cursor(), 1int,
    {
        let ghost ts = old(self).toks();
        let ghost c0 = old(self).cursor();
        match self.cur_token.token_type {
            TokenType::Ident => {
                let r = self.parse_identifier();
                proof {
                    assert(final(self).errors_seq() =~= old(self).errors_seq() + sp_prefix_parse(
                        ts,
                        c0,
                    ).2);
                }
                r
            },
            TokenType::Int => self.parse_integer_literal(),
            TokenType::Minus => self.parse_prefix_expression(),
            TokenType::Bang => self.parse_prefix_expression(),
            _ => {
                proof {
                    assert(final(self).errors_seq() =~= old(self).errors_seq() + sp_prefix_parse(
                        ts,
                        c0,
                    ).2);
                }
                None
            },
        }
    }

    /// Parse an infix expression with the cursor on the operator and `left`
    /// as the finished left operand: advance past the operator and parse the
    /// right operand at the operator's binding power.
    fn parse_infix_expression(&mut self, left: Expression) -> (res: Option<Expression>)
        requires
            old(self).wf(),
            old(self).cursor() < old(self).toks().len(),
        ensures
            final(self).wf(),
            final(self).toks() == old(self).toks(),
            opt_expr_view(res) == sp_parse_infix(old(self).toks(), old(self).cursor(), left@).0,
            final(self).cursor() == sp_parse_infix(old(self).toks(), old(self).cursor(), left@).1,
            final(self).errors_seq() == old(self).errors_seq() + sp_parse_infix(
                old(self).toks(),
                old(self).cursor(),
                left@,
            ).2,
        decreases old(self).toks().len() - old(self).cursor(), 0int,
    {
        let ghost ts = old(self).toks();
        let ghost c0 = old(self).cursor();
        let token = self.cur_token.clone();
        let operator = token.literal.clone();
        let precedence = self.cur_precedence();
        self.next_token();
        let right = match self.parse_expression(precedence.value()) {
            Some(r) => r,
            None => {
                return None;
            },
        };
        let infix = InfixExpression {
            token,
            operator,
            left: Box::new(left),
            right: Box::new(right),
        };
        Some(Expression::Infix(infix))
    }

    /// Parse one expression with minimum binding power `precedence`: obtain
    /// a left-hand side from the prefix rule, then climb while the peek
    /// token is a strictly stronger infix operator, folding each operator
    /// and its right operand into the left-hand side.
    #[verifier::loop_isolation(false)]
    fn parse_expression(&mut self, precedence: usize) -> (res: Option<Expression>)
        requires
            old(self).wf(),
            old(self).cursor() <= old(self).toks().len(),
        ensures
            final(self).wf(),
            final(self).toks() == old(self).toks(),
            opt_expr_view(res) == sp_parse_expression(
                old(self).toks(),
                old(self).cursor(),
                precedence as int,
            ).0,
            final(self).cursor() == sp_parse_expression(
                old(self).toks(),
                old(self).cursor(),
                precedence as int,
            ).1,
            final(self).errors_seq() == old(self).errors_seq() + sp_parse_expression(
                old(self).toks(),
                old(self).cursor(),
                precedence as int,
            ).2,
        decreases old(self).toks().len() - old(self).cursor(), 3int,
    {
        let ghost ts = old(self).toks();
        let ghost c0 = old(self).cursor();
        let ghost prec = precedence as int;
        let ghost target = sp_parse_expression(ts, c0, prec);
        proof {
            lemma_sp_prefix_parse_bounds(ts, c0);
        }
        let mut left_expression = self.prefix_parse();
        proof {
            let p = sp_prefix_parse(ts, c0);
            assert(clamp_idx(ts, c0, p.1) == p.1);
            assert((old(self).errors_seq() + p.2) + sp_climb(
                ts,
                self.cursor(),
                prec,
                opt_expr_view(left_expression),
            ).2 =~= old(self).errors_seq() + (p.2 + sp_climb(
                ts,
                self.cursor(),
                prec,
                opt_expr_view(left_expression),
            ).2));
        }
        while !self.peek_token_is(&TokenType::Semicolon) && precedence
            < self.peek_precedence().value()
            invariant
                self.wf(),
                self.toks() == ts,
                c0 <= self.cursor() <= ts.len(),
                prec == precedence as int,
                target == sp_parse_expression(ts, c0, prec),
                sp_climb(ts, self.cursor(), prec, opt_expr_view(left_expression)).0 == target.0,
                sp_climb(ts, self.cursor(), prec, opt_expr_view(left_expression)).1 == target.1,
                old(self).errors_seq() + target.2 == self.errors_seq() + sp_climb(
                    ts,
                    self.cursor(),
                    prec,
                    opt_expr_view(left_expression),
                ).2,
            decreases ts.len() - self.cursor(),
        {
            let ghost c_it = self.cursor();
            let ghost left_it = opt_expr_view(left_expression);
            if !self.peek_token.token_type.is_infix() {
                proof {
                    assert(sp_climb(ts, c_it, prec, left_it) == (left_it, c_it, Seq::<Seq<
                        char,
                    >>::empty()));
                    assert(self.errors_seq() + Seq::<Seq<char>>::empty() =~= self.errors_seq());
                }
                return left_expression;
            }
            self.next_token();
            let le = match left_expression {
                Some(l) => l,
                None => {
                    proof {
                        assert(sp_climb(ts, c_it, prec, left_it) == (
                            None::<ExpressionView>,
                            c_it + 1,
                            Seq::<Seq<char>>::empty(),
                        ));
                        assert(self.errors_seq() + Seq::<Seq<char>>::empty()
                            =~= self.errors_seq());
                    }
                    return None;
                },
            };
            proof {
                lemma_sp_parse_infix_bounds(ts, c_it + 1, le@);
            }
            let ghost errs_before = self.errors_seq();
            left_expression = self.parse_infix_expression(le);
            proof {
                let inf = sp_parse_infix(ts, c_it + 1, le@);
                assert(clamp_idx(ts, c_it + 1, inf.1) == inf.1);
                let c = sp_climb(ts, inf.1, prec, inf.0);
                assert(sp_climb(ts, c_it, prec, Some(le@)) == (c.0, c.1, inf.2 + c.2));
                assert((errs_before + inf.2) + c.2 =~= errs_before + (inf.2 + c.2));
            }
        }
        proof {
            let c_it = self.cursor();
            let left_it = opt_expr_view(left_expression);
            assert(sp_climb(ts, c_it, prec, left_it) == (left_it, c_it, Seq::<Seq<
                char,
            >>::empty()));
            assert(self.errors_seq() + Seq::<Seq<char>>::empty() =~= self.errors_seq());
        }
        left_expression
    }

    /// Parse an expression statement: one expression at the lowest binding
    /// power, consuming an optional trailing semicolon.
    fn parse_expression_statement(&mut self) -> (res: Option<Statement>)
        requires
            old(self).wf(),
            old(self).cursor() <= old(self).toks().len(),
        ensures
            final(self).wf(),
            final(self).toks() == old(self).toks(),
            opt_stmt_view(res) == sp_parse_expression_statement(
                old(self).toks(),
                old(self).cursor(),
            ).0,
            final(self).cursor() == sp_parse_expression_statement(
                old(self).toks(),
                old(self).cursor(),
            ).1,
            final(self).errors_seq() == old(self).errors_seq() + sp_parse_expression_statement(
                old(self).toks(),
                old(self).cursor(),
            ).2,
    {
        let ghost ts = old(self).toks();
        let ghost c0 = old(self).cursor();
        proof {
            lemma_sp_parse_expression_bounds(ts, c0, 1);
        }
        let expression = match self.parse_expression(Precedence::Lowest.value()) {
            Some(e) => e,
            None => {
                return None;
            },
        };
        let stmt = ExpressionStatement { token: self.cur_token.clone(), expression };
        if self.peek_token_is(&TokenType::Semicolon) {
            self.next_token();
        }
        Some(Statement::Expression(stmt))
    }

    /// Parse one statement, dispatching on the current token's kind.
    fn parse_statement(&mut self) -> (res: Option<Statement>)
        requires
            old(self).wf(),
            old(self).cursor() <= old(self).toks().len(),
        ensures
            final(self).wf(),
            final(self).toks() == old(self).toks(),
            opt_stmt_view(res) == sp_parse_statement(old(self).toks(), old(self).cursor()).0,
            final(self).cursor() == sp_parse_statement(old(self).toks(), old(self).cursor()).1,
            final(self).errors_seq() == old(self).errors_seq() + sp_parse_statement(
                old(self).toks(),
                old(self).cursor(),
            ).2,
    {
        match self.cur_token.token_type {
            TokenType::Let => self.parse_let_statement(),
            TokenType::Return => self.parse_return_statement(),
            _ => self.parse_expression_statement(),
        }
    }

    /// Parse the whole input: statements are gathered until end-of-input,
    /// and every statement attempt advances the cursor, so parsing a
    /// bounded input always terminates.
    #[verifier::loop_isolation(false)]
    pub fn parse_program(&mut self) -> (res: Program)
        requires
            old(self).wf(),
        ensures
            final(self).wf(),
            final(self).toks() == old(self).toks(),
            res@ == sp_program_rest(old(self).toks(), old(self).cursor()).0,
            final(self).errors_seq() == old(self).errors_seq() + sp_program_rest(
                old(self).toks(),
                old(self).cursor(),
            ).1,
    {
        let ghost ts = old(self).toks();
        let ghost c0 = old(self).cursor();
        let ghost target = sp_program_rest(ts, c0);
        let mut program = Program::new();
        while !self.cur_token_is(&TokenType::Eof)
            invariant
                self.wf(),
                self.toks() == ts,
                0 <= self.cursor() <= ts.len() + 1,
                target == sp_program_rest(ts, c0),
                target.0 == program@ + sp_program_rest(ts, self.cursor()).0,
                old(self).errors_seq() + target.1 == self.errors_seq() + sp_program_rest(
                    ts,
                    self.cursor(),
                ).1,
            decreases ts.len() + 1 - self.cursor(),
        {
            let ghost c_it = self.cursor();
            proof {
                lemma_sp_parse_statement_bounds(ts, c_it);
            }
            let ghost prog_before = program@;
            let ghost errs_before = self.errors_seq();
            let stmt = self.parse_statement();
            match stmt {
                Some(s) => {
                    let ghost sv = s@;
                    program.statements.push(s);
                    proof {
                        assert(program@ =~= prog_before.push(sv));
                    }
                },
                None => {},
            }
            self.next_token();
            proof {
                let r = sp_parse_statement(ts, c_it);
                assert(clamp_idx(ts, c_it, r.1) == r.1);
                let rest = sp_program_rest(ts, r.1 + 1);
                assert(sp_program_rest(ts, c_it).0 == (match r.0 {
                    Some(st) => seq![st] + rest.0,
                    None => rest.0,
                }));
                assert(sp_program_rest(ts, c_it).1 == r.2 + rest.1);
                match r.0 {
                    Some(st) => {
                        assert(program@ =~= prog_before.push(st));
                        assert(prog_before.push(st) + rest.0 =~= prog_before + (seq![st]
                            + rest.0));
                    },
                    None => {},
                }
                assert((errs_before + r.2) + rest.1 =~= errs_before + (r.2 + rest.1));
            }
        }
        proof {
            assert(sp_program_rest(ts, self.cursor()).0 =~= Seq::<StatementView>::empty());
            assert(sp_program_rest(ts, self.cursor()).1 =~= Seq::<Seq<char>>::empty());
            assert(program@ + Seq::<StatementView>::empty() =~= program@);
            assert(self.errors_seq() + Seq::<Seq<char>>::empty() =~= self.errors_seq());
        }
        program
    }

    /// If the peek token has the expected kind, advance onto it; otherwise
    /// record a diagnostic and stay put.
    fn expect_peek(&mut self, token_type: &TokenType) -> (res: bool)
        requires
            old(self).wf(),
            *token_type != TokenType::Eof,
        ensures
            final(self).wf(),
            final(self).toks() == old(self).toks(),
            res == (tok(old(self).toks(), old(self).cursor() + 1).kind == *token_type),
            res ==> final(self).cursor() == old(self).cursor() + 1 && final(self).errors_seq()
                == old(self).errors_seq(),
            !res ==> final(self).cursor() == old(self).cursor() && final(self).errors_seq()
                == old(self).errors_seq().push(
                spec_peek_error_message(
                    *token_type,
                    tok(old(self).toks(), old(self).cursor() + 1).kind,
                ),
            ),
    {
        if self.peek_token_is(token_type) {
            self.next_token();
            true
        } else {
            self.peek_error(token_type);
            false
        }
    }
}

} // verus!
