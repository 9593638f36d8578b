//! Abstract syntax tree for programs, statements and expressions, with a
//! mathematical view for every node and a verified rendering back to fully
//! parenthesized source text.

use vstd::prelude::*;
use vstd::string::StringExecFns;

use crate::token::{Token, TokenView};

verus! {

/// The mathematical value of an identifier expression.
pub struct IdentExpressionView {
    pub token: TokenView,
    pub value: Seq<char>,
}

/// The mathematical value of an integer literal expression.
pub struct IntegerLiteralView {
    pub token: TokenView,
    pub value: i64,
}

/// The mathematical value of a prefix expression.
pub struct PrefixExpressionView {
    pub token: TokenView,
    pub operator: Seq<char>,
    pub right: Box<ExpressionView>,
}

/// The mathematical value of an infix expression.
pub struct InfixExpressionView {
    pub token: TokenView,
    pub operator: Seq<char>,
    pub left: Box<ExpressionView>,
    pub right: Box<ExpressionView>,
}

/// The mathematical value of an expression tree.
pub enum ExpressionView {
    Ident(IdentExpressionView),
    Integer(IntegerLiteralView),
    Prefix(PrefixExpressionView),
    Infix(InfixExpressionView),
}

/// The mathematical value of a let statement.
pub struct LetStatementView {
    pub token: TokenView,
    pub name: IdentExpressionView,
    pub value: ExpressionView,
}

/// The mathematical value of a return statement.
pub struct ReturnStatementView {
    pub token: TokenView,
    pub value: ExpressionView,
}

/// The mathematical value of an expression statement.
pub struct ExpressionStatementView {
    pub token: TokenView,
    pub expression: ExpressionView,
}

/// The mathematical value of a statement.
pub enum StatementView {
    Let(LetStatementView),
    Return(ReturnStatementView),
    Expression(ExpressionStatementView),
}

/// An identifier used as an expression; `value` repeats the token's literal.
pub struct IdentExpression {
    pub token: Token,
    pub value: String,
}

/// An integer literal; `value` is the parsed 64-bit signed value.
pub struct IntegerLiteral {
    pub token: Token,
    pub value: i64,
}

/// A prefix operator applied to an operand.
pub struct PrefixExpression {
    pub token: Token,
    pub operator: String,
    pub right: Box<Expression>,
}

/// An infix operator applied to two operands.
pub struct InfixExpression {
    pub token: Token,
    pub operator: String,
    pub left: Box<Expression>,
    pub right: Box<Expression>,
}

/// An expression tree: a closed variant, singly owned, acyclic.
pub enum Expression {
    Ident(IdentExpression),
    Integer(IntegerLiteral),
    Prefix(PrefixExpression),
    Infix(InfixExpression),
}

/// A let statement binding a name to a value.
pub struct LetStatement {
    pub token: Token,
    pub name: IdentExpression,
    pub value: Expression,
}

/// A return statement carrying its value.
pub struct ReturnStatement {
    pub token: Token,
    pub value: Expression,
}

/// A bare expression used as a statement.
pub struct ExpressionStatement {
    pub token: Token,
    pub expression: Expression,
}

/// A statement: a closed variant with three cases.
pub enum Statement {
    Let(LetStatement),
    Return(ReturnStatement),
    Expression(ExpressionStatement),
}

/// The root node: an ordered sequence of statements in source order.
pub struct Program {
    pub statements: Vec<Statement>,
}

/// The view of an expression tree, node by node.
pub open spec fn spec_expression_view(e: Expression) -> ExpressionView
    decreases e,
{
    match e {
        Expression::Ident(v) => ExpressionView::Ident(
            IdentExpressionView { token: v.token@, value: v.value@ },
        ),
        Expression::Integer(v) => ExpressionView::Integer(
            IntegerLiteralView { token: v.token@, value: v.value },
        ),
        Expression::Prefix(v) => ExpressionView::Prefix(
            PrefixExpressionView {
                token: v.token@,
                operator: v.operator@,
                right: Box::new(spec_expression_view(*v.right)),
            },
        ),
        Expression::Infix(v) => ExpressionView::Infix(
            InfixExpressionView {
                token: v.token@,
                operator: v.operator@,
                left: Box::new(spec_expression_view(*v.left)),
                right: Box::new(spec_expression_view(*v.right)),
            },
        ),
    }
}

impl View for IdentExpression {
    type V = IdentExpressionView;

    open spec fn view(&self) -> IdentExpressionView {
        IdentExpressionView { token: self.token@, value: self.value@ }
    }
}

impl View for IntegerLiteral {
    type V = IntegerLiteralView;

    open spec fn view(&self) -> IntegerLiteralView {
        IntegerLiteralView { token: self.token@, value: self.value }
    }
}

impl View for PrefixExpression {
    type V = PrefixExpressionView;

    open spec fn view(&self) -> PrefixExpressionView {
        PrefixExpressionView {
            token: self.token@,
            operator: self.operator@,
            right: Box::new(spec_expression_view(*self.right)),
        }
    }
}

impl View for InfixExpression {
    type V = InfixExpressionView;

    open spec fn view(&self) -> InfixExpressionView {
        InfixExpressionView {
            token: self.token@,
            operator: self.operator@,
            left: Box::new(spec_expression_view(*self.left)),
            right: Box::new(spec_expression_view(*self.right)),
        }
    }
}

impl View for Expression {
    type V = ExpressionView;

    open spec fn view(&self) -> ExpressionView {
        spec_expression_view(*self)
    }
}

impl View for LetStatement {
    type V = LetStatementView;

    open spec fn view(&self) -> LetStatementView {
        LetStatementView { token: self.token@, name: self.name@, value: self.value@ }
    }
}

impl View for ReturnStatement {
    type V = ReturnStatementView;

    open spec fn view(&self) -> ReturnStatementView {
        ReturnStatementView { token: self.token@, value: self.value@ }
    }
}

impl View for ExpressionStatement {
    type V = ExpressionStatementView;

    open spec fn view(&self) -> ExpressionStatementView {
        ExpressionStatementView { token: self.token@, expression: self.expression@ }
    }
}

impl View for Statement {
    type V = StatementView;

    open spec fn view(&self) -> StatementView {
        match *self {
            Statement::Let(s) => StatementView::Let(s@),
            Statement::Return(s) => StatementView::Return(s@),
            Statement::Expression(s) => StatementView::Expression(s@),
        }
    }
}

impl View for Program {
    type V = Seq<StatementView>;

    open spec fn view(&self) -> Seq<StatementView> {
        Seq::new(self.statements@.len(), |i: int| self.statements@[i]@)
    }
}

/// Every node can report the literal text of its originating token.
pub trait NodeTrait {
    fn token_literal(&self) -> &str;
}

/// Marker operations of statement nodes.
pub trait StatementTrait: NodeTrait {
    fn statement_node(&self);
}

/// Marker operations of expression nodes.
pub trait ExpressionTrait: NodeTrait {
    fn expression_node(&self);
}

/// The token literal a statement reports: its own token's text.
pub open spec fn spec_statement_token_literal(s: StatementView) -> Seq<char> {
    match s {
        StatementView::Let(v) => v.token.literal,
        StatementView::Return(v) => v.token.literal,
        StatementView::Expression(v) => v.token.literal,
    }
}

impl Statement {
    /// The literal text of the statement's own token.
    pub fn token_literal(&self) -> (res: &str)
        ensures
            res@ == spec_statement_token_literal(self@),
    {
        match self {
            Statement::Let(s) => s.token.literal.as_str(),
            Statement::Return(s) => s.token.literal.as_str(),
            Statement::Expression(s) => s.token.literal.as_str(),
        }
    }
}

impl NodeTrait for IdentExpression {
    fn token_literal(&self) -> &str {
        self.token.literal.as_str()
    }
}

impl ExpressionTrait for IdentExpression {
    fn expression_node(&self) {
    }
}

impl NodeTrait for IntegerLiteral {
    fn token_literal(&self) -> &str {
        self.token.literal.as_str()
    }
}

impl ExpressionTrait for IntegerLiteral {
    fn expression_node(&self) {
    }
}

impl NodeTrait for PrefixExpression {
    fn token_literal(&self) -> &str {
        self.token.literal.as_str()
    }
}

impl ExpressionTrait for PrefixExpression {
    fn expression_node(&self) {
    }
}

impl NodeTrait for InfixExpression {
    fn token_literal(&self) -> &str {
        self.token.literal.as_str()
    }
}

impl ExpressionTrait for InfixExpression {
    fn expression_node(&self) {
    }
}

impl NodeTrait for LetStatement {
    fn token_literal(&self) -> &str {
        self.token.literal.as_str()
    }
}

impl StatementTrait for LetStatement {
    fn statement_node(&self) {
    }
}

impl NodeTrait for ReturnStatement {
    fn token_literal(&self) -> &str {
        self.token.literal.as_str()
    }
}

impl StatementTrait for ReturnStatement {
    fn statement_node(&self) {
    }
}

impl NodeTrait for ExpressionStatement {
    fn token_literal(&self) -> &str {
        self.token.literal.as_str()
    }
}

impl StatementTrait for ExpressionStatement {
    fn statement_node(&self) {
    }
}

impl NodeTrait for Program {
    /// The first statement's token literal, or empty for an empty program.
    fn token_literal(&self) -> &str {
        if self.statements.len() > 0 {
            self.statements[0].token_literal()
        } else {
            ""
        }
    }
}

impl Program {
    /// A program with no statements.
    pub fn new() -> (res: Self)
        ensures
            res@ == Seq::<StatementView>::empty(),
    {
        let statements: Vec<Statement> = Vec::new();
        proof {
            assert(Seq::new(0, |i: int| statements@[i]@) =~= Seq::<StatementView>::empty());
        }
        Program { statements }
    }
}

/// The decimal digit character for `d`, 0 through 9.
pub open spec fn spec_digit_char(d: int) -> char {
    if d == 0 {
        '0'
    } else if d == 1 {
        '1'
    } else if d == 2 {
        '2'
    } else if d == 3 {
        '3'
    } else if d == 4 {
        '4'
    } else if d == 5 {
        '5'
    } else if d == 6 {
        '6'
    } else if d == 7 {
        '7'
    } else if d == 8 {
        '8'
    } else {
        '9'
    }
}

/// The decimal digits of a nonnegative integer, most significant first.
pub open spec fn spec_nat_digits(n: int) -> Seq<char>
    decreases n
        when n >= 0
{
    if n < 10 {
        seq![spec_digit_char(n)]
    } else {
        proof {
            assert(n / 10 < n) by (nonlinear_arith)
                requires
                    n >= 10,
            ;
        }
        spec_nat_digits(n / 10).push(spec_digit_char(n % 10))
    }
}

/// The decimal rendering of a 64-bit signed value, with a leading minus sign
/// when negative.
pub open spec fn spec_i64_string(v: int) -> Seq<char> {
    if v < 0 {
        "-"@ + spec_nat_digits(-v)
    } else {
        spec_nat_digits(v)
    }
}

/// The fully parenthesized rendering of an expression.
pub open spec fn render_expression(e: ExpressionView) -> Seq<char>
    decreases e,
{
    match e {
        ExpressionView::Ident(v) => v.value,
        ExpressionView::Integer(v) => spec_i64_string(v.value as int),
        ExpressionView::Prefix(v) => "("@ + v.operator + render_expression(*v.right) + ")"@,
        ExpressionView::Infix(v) => "("@ + render_expression(*v.left) + " "@ + v.operator + " "@
            + render_expression(*v.right) + ")"@,
    }
}

/// The rendering of a statement.
pub open spec fn render_statement(s: StatementView) -> Seq<char> {
    match s {
        StatementView::Let(v) => v.token.literal + " "@ + v.name.value + " = "@
            + render_expression(v.value) + ";"@,
        StatementView::Return(v) => v.token.literal + " "@ + render_expression(v.value) + ";"@,
        StatementView::Expression(v) => render_expression(v.expression),
    }
}

/// The concatenated rendering of the first `i` statements.
pub open spec fn render_statements_prefix(ss: Seq<StatementView>, i: int) -> Seq<char>
    decreases i
        when 0 <= i <= ss.len()
{
    if i <= 0 {
        Seq::empty()
    } else {
        render_statements_prefix(ss, i - 1) + render_statement(ss[i - 1])
    }
}

/// The rendering of a whole program: its statements back to back.
pub open spec fn render_program(ss: Seq<StatementView>) -> Seq<char> {
    render_statements_prefix(ss, ss.len() as int)
}

/// The string literal for a single decimal digit.
fn digit_str(d: u64) -> (res: &'static str)
    requires
        d <= 9,
    ensures
        res@ == seq![spec_digit_char(d as int)],
{
    proof {
        reveal_strlit("0");
        reveal_strlit("1");
        reveal_strlit("2");
        reveal_strlit("3");
        reveal_strlit("4");
        reveal_strlit("5");
        reveal_strlit("6");
        reveal_strlit("7");
        reveal_strlit("8");
        reveal_strlit("9");
    }
    if d == 0 {
        "0"
    } else if d == 1 {
        "1"
    } else if d == 2 {
        "2"
    } else if d == 3 {
        "3"
    } else if d == 4 {
        "4"
    } else if d == 5 {
        "5"
    } else if d == 6 {
        "6"
    } else if d == 7 {
        "7"
    } else if d == 8 {
        "8"
    } else {
        "9"
    }
}

/// The decimal digits of a nonnegative 64-bit value.
fn nat_to_string(n: u64) -> (res: String)
    ensures
        res@ == spec_nat_digits(n as int),
    decreases n,
{
    if n < 10 {
        digit_str(n).to_owned()
    } else {
        let q = n / 10;
        let r = n % 10;
        proof {
            assert(n as int / 10 < n as int) by (nonlinear_arith)
                requires
                    n >= 10,
            ;
        }
        let s = nat_to_string(q);
        let res = s.concat(digit_str(r));
        proof {
            assert(spec_nat_digits(n as int) =~= spec_nat_digits(q as int) + seq![
                spec_digit_char(r as int),
            ]);
        }
        res
    }
}

/// The decimal rendering of a 64-bit signed value.
pub fn i64_to_string(v: i64) -> (res: String)
    ensures
        res@ == spec_i64_string(v as int),
{
    if v >= 0 {
        nat_to_string(v as u64)
    } else {
        let mag: u64 = if v == i64::MIN {
            9223372036854775808
        } else {
            (-v) as u64
        };
        let digits = nat_to_string(mag);
        "-".to_owned().concat(digits.as_str())
    }
}

impl Expression {
    /// Render this expression back to fully parenthesized source text.
    pub fn to_string(&self) -> (res: String)
        ensures
            res@ == render_expression(self@),
        decreases *self,
    {
        match self {
            Expression::Ident(v) => v.value.clone(),
            Expression::Integer(v) => i64_to_string(v.value),
            Expression::Prefix(v) => {
                let r = v.right.to_string();
                let res = "(".to_owned().concat(v.operator.as_str()).concat(r.as_str()).concat(
                    ")",
                );
                proof {
                    assert(res@ =~= render_expression(self@));
                }
                res
            },
            Expression::Infix(v) => {
                let l = v.left.to_string();
                let r = v.right.to_string();
                let res = "(".to_owned().concat(l.as_str()).concat(" ").concat(
                    v.operator.as_str(),
                ).concat(" ").concat(r.as_str()).concat(")");
                proof {
                    assert(res@ =~= render_expression(self@));
                }
                res
            },
        }
    }
}

impl IdentExpression {
    /// Render this identifier: its value text.
    pub fn to_string(&self) -> (res: String)
        ensures
            res@ == render_expression(ExpressionView::Ident(self@)),
    {
        self.value.clone()
    }
}

impl IntegerLiteral {
    /// Render this literal: its value in decimal.
    pub fn to_string(&self) -> (res: String)
        ensures
            res@ == render_expression(ExpressionView::Integer(self@)),
    {
        i64_to_string(self.value)
    }
}

impl PrefixExpression {
    /// Render this prefix expression, parenthesized.
    pub fn to_string(&self) -> (res: String)
        ensures
            res@ == render_expression(ExpressionView::Prefix(self@)),
    {
        let r = self.right.to_string();
        let res = "(".to_owned().concat(self.operator.as_str()).concat(r.as_str()).concat(")");
        proof {
            assert(res@ =~= render_expression(ExpressionView::Prefix(self@)));
        }
        res
    }
}

impl InfixExpression {
    /// Render this infix expression, parenthesized, operands spaced around
    /// the operator.
    pub fn to_string(&self) -> (res: String)
        ensures
            res@ == render_expression(ExpressionView::Infix(self@)),
    {
        let l = self.left.to_string();
        let r = self.right.to_string();
        let res = "(".to_owned().concat(l.as_str()).concat(" ").concat(self.operator.as_str())
            .concat(" ").concat(r.as_str()).concat(")");
        proof {
            assert(res@ =~= render_expression(ExpressionView::Infix(self@)));
        }
        res
    }
}

impl LetStatement {
    /// Render this let statement as `let <name> = <value>;`.
    pub fn to_string(&self) -> (res: String)
        ensures
            res@ == render_statement(StatementView::Let(self@)),
    {
        let v = self.value.to_string();
        let res = self.token.literal.clone().concat(" ").concat(self.name.value.as_str()).concat(
            " = ",
        ).concat(v.as_str()).concat(";");
        proof {
            assert(res@ =~= render_statement(StatementView::Let(self@)));
        }
        res
    }
}

impl ReturnStatement {
    /// Render this return statement as `return <value>;`.
    pub fn to_string(&self) -> (res: String)
        ensures
            res@ == render_statement(StatementView::Return(self@)),
    {
        let v = self.value.to_string();
        let res = self.token.literal.clone().concat(" ").concat(v.as_str()).concat(";");
        proof {
            assert(res@ =~= render_statement(StatementView::Return(self@)));
        }
        res
    }
}

impl ExpressionStatement {
    /// Render this expression statement: its expression.
    pub fn to_string(&self) -> (res: String)
        ensures
            res@ == render_statement(StatementView::Expression(self@)),
    {
        self.expression.to_string()
    }
}

impl Statement {
    /// Render this statement.
    pub fn to_string(&self) -> (res: String)
        ensures
            res@ == render_statement(self@),
    {
        match self {
            Statement::Let(s) => s.to_string(),
            Statement::Return(s) => s.to_string(),
            Statement::Expression(s) => s.to_string(),
        }
    }
}

impl Program {
    /// Render the whole program: its statements back to back.
    pub fn to_string(&self) -> (res: String)
        ensures
            res@ == render_program(self@),
    {
        let mut acc = String::new();
        let mut i: usize = 0;
        let n = self.statements.len();
        while i < n
            invariant
                n == self.statements.len(),
                0 <= i <= n,
                acc@ == render_statements_prefix(self@, i as int),
            decreases n - i,
        {
            let stmt = &self.statements[i];
            let s = stmt.to_string();
            acc = acc.concat(s.as_str());
            i = i + 1;
        }
        acc
    }
}

} // verus!
