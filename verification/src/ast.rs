//! The abstract syntax tree: names, operators, operands, expressions,
//! statements and programs, each with its mathematical view.

use vstd::prelude::*;

verus! {

/// An identifier of a variable or of a function. The two namespaces are
/// independent: one name may denote a variable and a function at once.
#[derive(Debug, PartialEq, Eq, Hash)]
pub struct Name(pub String);

impl View for Name {
    type V = Seq<char>;

    open spec fn view(&self) -> Seq<char> {
        self.0@
    }
}

impl Name {
    pub fn new(s: &str) -> (name: Name)
        ensures
            name@ == s@,
    {
        Name(s.to_owned())
    }

    /// Whether two names are spelled alike.
    pub fn equals(&self, other: &Name) -> (same: bool)
        ensures
            same == (self@ == other@),
    {
        self.0 == other.0
    }
}

impl Clone for Name {
    fn clone(&self) -> (copy: Name)
        ensures
            copy@ == self@,
    {
        Name(self.0.clone())
    }
}

/// A binary operator. The declaration order is the parsing precedence, from
/// the loosest to the tightest binding; it plays no part in evaluation.
#[derive(Debug, Clone, Copy, PartialEq, Eq, PartialOrd, Ord, Structural)]
pub enum Operator {
    Subtract,
    Add,
    Divide,
    Multiply,
}

impl Operator {
    /// The binding strength as a number: a greater one binds tighter.
    pub open spec fn rank(self) -> nat {
        match self {
            Operator::Subtract => 0,
            Operator::Add => 1,
            Operator::Divide => 2,
            Operator::Multiply => 3,
        }
    }

    pub fn precedence(self) -> (p: u8)
        ensures
            p == self.rank(),
    {
        match self {
            Operator::Subtract => 0,
            Operator::Add => 1,
            Operator::Divide => 2,
            Operator::Multiply => 3,
        }
    }
}

/// A leaf of an expression.
#[derive(Debug, PartialEq, Eq)]
pub enum Operand {
    I64(i64),
    Group(Box<Expression>),
    VarSubstitution(Name),
    FnApplication(Name, Vec<Expression>),
    Match(Match),
}

/// A value dispatch: the result of the first clause whose matcher equals the
/// scrutinee, or the default where none does.
#[derive(Debug, PartialEq, Eq)]
pub struct Match {
    pub with: Box<Expression>,
    pub clauses: Vec<(Matcher, Expression)>,
    pub default: Box<Expression>,
}

/// What a clause of a match compares the scrutinee with.
#[derive(Debug, PartialEq, Eq)]
pub enum Matcher {
    Value(Expression),
}

/// A binary tree of operations over operands.
#[derive(Debug, PartialEq, Eq)]
pub enum Expression {
    Operand(Operand),
    Operation(Operator, Box<Expression>, Box<Expression>),
}

/// The view of an [`Operand`].
pub enum OperandView {
    I64(i64),
    Group(Box<ExpressionView>),
    VarSubstitution(Seq<char>),
    FnApplication(Seq<char>, Seq<ExpressionView>),
    Match(Box<ExpressionView>, Seq<(ExpressionView, ExpressionView)>, Box<ExpressionView>),
}

/// The view of an [`Expression`].
pub enum ExpressionView {
    Operand(OperandView),
    Operation(Operator, Box<ExpressionView>, Box<ExpressionView>),
}

/// The views of a sequence of names, in order.
pub open spec fn names_view(names: Seq<Name>) -> Seq<Seq<char>> {
    Seq::new(names.len(), |i: int| names[i]@)
}

pub open spec fn operand_view(operand: Operand) -> OperandView
    decreases operand,
{
    match operand {
        Operand::I64(n) => OperandView::I64(n),
        Operand::Group(e) => OperandView::Group(Box::new(expression_view(*e))),
        Operand::VarSubstitution(name) => OperandView::VarSubstitution(name@),
        Operand::FnApplication(name, args) => OperandView::FnApplication(
            name@,
            expressions_view(args@),
        ),
        Operand::Match(m) => OperandView::Match(
            Box::new(expression_view(*m.with)),
            clauses_view(m.clauses@),
            Box::new(expression_view(*m.default)),
        ),
    }
}

/// The views of a sequence of expressions, in order.
pub open spec fn expressions_view(expressions: Seq<Expression>) -> Seq<ExpressionView>
    decreases expressions,
{
    Seq::new(
        expressions.len(),
        |i: int|
            if 0 <= i < expressions.len() {
                expression_view(expressions[i])
            } else {
                arbitrary()
            },
    )
}

/// The views of the clauses of a match: each a matcher's value and a result.
pub open spec fn clauses_view(clauses: Seq<(Matcher, Expression)>) -> Seq<
    (ExpressionView, ExpressionView),
>
    decreases clauses,
{
    Seq::new(
        clauses.len(),
        |i: int|
            if 0 <= i < clauses.len() {
                (matcher_view(clauses[i].0), expression_view(clauses[i].1))
            } else {
                arbitrary()
            },
    )
}

pub open spec fn matcher_view(matcher: Matcher) -> ExpressionView
    decreases matcher,
{
    match matcher {
        Matcher::Value(e) => expression_view(e),
    }
}

pub open spec fn expression_view(expression: Expression) -> ExpressionView
    decreases expression,
{
    match expression {
        Expression::Operand(operand) => ExpressionView::Operand(operand_view(operand)),
        Expression::Operation(operator, lhs, rhs) => ExpressionView::Operation(
            operator,
            Box::new(expression_view(*lhs)),
            Box::new(expression_view(*rhs)),
        ),
    }
}

impl View for Operand {
    type V = OperandView;

    open spec fn view(&self) -> OperandView {
        operand_view(*self)
    }
}

impl View for Expression {
    type V = ExpressionView;

    open spec fn view(&self) -> ExpressionView {
        expression_view(*self)
    }
}

impl View for Matcher {
    type V = ExpressionView;

    open spec fn view(&self) -> ExpressionView {
        matcher_view(*self)
    }
}

/// Copies a sequence of names.
pub fn clone_names(names: &Vec<Name>) -> (copy: Vec<Name>)
    ensures
        names_view(copy@) == names_view(names@),
{
    let mut copy: Vec<Name> = Vec::new();
    let mut i: usize = 0;
    while i < names.len()
        invariant
            i <= names.len(),
            copy.len() == i,
            forall|j: int| 0 <= j < i ==> copy[j]@ == names[j]@,
        decreases names.len() - i,
    {
        copy.push(names[i].clone());
        i += 1;
    }
    assert(names_view(copy@) =~= names_view(names@));
    copy
}

fn clone_operand(operand: &Operand) -> (copy: Operand)
    ensures
        copy@ == operand@,
    decreases operand,
{
    match operand {
        Operand::I64(n) => Operand::I64(*n),
        Operand::Group(e) => Operand::Group(Box::new(clone_expression(e))),
        Operand::VarSubstitution(name) => Operand::VarSubstitution(name.clone()),
        Operand::FnApplication(name, args) => Operand::FnApplication(
            name.clone(),
            clone_expressions(args),
        ),
        Operand::Match(m) => Operand::Match(
            Match {
                with: Box::new(clone_expression(&m.with)),
                clauses: clone_clauses(&m.clauses),
                default: Box::new(clone_expression(&m.default)),
            },
        ),
    }
}

fn clone_expressions(expressions: &Vec<Expression>) -> (copy: Vec<Expression>)
    ensures
        expressions_view(copy@) == expressions_view(expressions@),
    decreases expressions,
{
    let mut copy: Vec<Expression> = Vec::new();
    let mut i: usize = 0;
    while i < expressions.len()
        invariant
            i <= expressions.len(),
            copy.len() == i,
            forall|j: int| 0 <= j < i ==> copy[j]@ == expressions[j]@,
        decreases expressions.len() - i,
    {
        copy.push(clone_expression(&expressions[i]));
        i += 1;
    }
    assert(expressions_view(copy@) =~= expressions_view(expressions@));
    copy
}

fn clone_clauses(clauses: &Vec<(Matcher, Expression)>) -> (copy: Vec<(Matcher, Expression)>)
    ensures
        clauses_view(copy@) == clauses_view(clauses@),
    decreases clauses,
{
    let mut copy: Vec<(Matcher, Expression)> = Vec::new();
    let mut i: usize = 0;
    while i < clauses.len()
        invariant
            i <= clauses.len(),
            copy.len() == i,
            forall|j: int|
                0 <= j < i ==> copy[j].0@ == clauses[j].0@ && copy[j].1@ == clauses[j].1@,
        decreases clauses.len() - i,
    {
        let value = match &clauses[i].0 {
            Matcher::Value(e) => Matcher::Value(clone_expression(e)),
        };
        copy.push((value, clone_expression(&clauses[i].1)));
        i += 1;
    }
    assert(clauses_view(copy@) =~= clauses_view(clauses@));
    copy
}

fn clone_expression(expression: &Expression) -> (copy: Expression)
    ensures
        copy@ == expression@,
    decreases expression,
{
    match expression {
        Expression::Operand(operand) => Expression::Operand(clone_operand(operand)),
        Expression::Operation(operator, lhs, rhs) => Expression::Operation(
            *operator,
            Box::new(clone_expression(lhs)),
            Box::new(clone_expression(rhs)),
        ),
    }
}

impl Clone for Operand {
    fn clone(&self) -> (copy: Operand)
        ensures
            copy@ == self@,
    {
        clone_operand(self)
    }
}

impl Clone for Expression {
    fn clone(&self) -> (copy: Expression)
        ensures
            copy@ == self@,
    {
        clone_expression(self)
    }
}

impl Clone for Matcher {
    fn clone(&self) -> (copy: Matcher)
        ensures
            copy@ == self@,
    {
        match self {
            Matcher::Value(e) => Matcher::Value(clone_expression(e)),
        }
    }
}

impl Clone for Match {
    fn clone(&self) -> (copy: Match)
        ensures
            Operand::Match(copy)@ == Operand::Match(*self)@,
    {
        Match {
            with: Box::new(clone_expression(&self.with)),
            clauses: clone_clauses(&self.clauses),
            default: Box::new(clone_expression(&self.default)),
        }
    }
}

/// One item of an expression read left to right.
#[derive(Debug, PartialEq, Eq)]
pub enum Token {
    Operand(Operand),
    Operator(Operator),
}

/// The view of a [`Token`].
pub enum TokenView {
    Operand(OperandView),
    Operator(Operator),
}

impl View for Token {
    type V = TokenView;

    open spec fn view(&self) -> TokenView {
        match *self {
            Token::Operand(operand) => TokenView::Operand(operand@),
            Token::Operator(operator) => TokenView::Operator(operator),
        }
    }
}

impl Clone for Token {
    fn clone(&self) -> (copy: Token)
        ensures
            copy@ == self@,
    {
        match self {
            Token::Operand(operand) => Token::Operand(operand.clone()),
            Token::Operator(operator) => Token::Operator(*operator),
        }
    }
}

/// The views of a sequence of tokens, in order.
pub open spec fn tokens_view(tokens: Seq<Token>) -> Seq<TokenView> {
    Seq::new(tokens.len(), |i: int| tokens[i]@)
}

impl ExpressionView {
    /// The operands and operators of the tree from left to right. Groups
    /// are operands: what they enclose is not listed.
    pub open spec fn tokens(self) -> Seq<TokenView>
        decreases self,
    {
        match self {
            ExpressionView::Operand(operand) => seq![TokenView::Operand(operand)],
            ExpressionView::Operation(operator, lhs, rhs) => lhs.tokens() + seq![
                TokenView::Operator(operator),
            ] + rhs.tokens(),
        }
    }
}

impl Expression {
    /// The operands and operators of the tree from left to right.
    pub fn tokens(&self) -> (tokens: Vec<Token>)
        ensures
            tokens_view(tokens@) == self@.tokens(),
        decreases self,
    {
        match self {
            Expression::Operand(operand) => {
                let tokens = vec![Token::Operand(operand.clone())];
                assert(tokens_view(tokens@) =~= self@.tokens());
                tokens
            },
            Expression::Operation(operator, lhs, rhs) => {
                let mut tokens = lhs.tokens();
                let ghost left = tokens@;
                tokens.push(Token::Operator(*operator));
                let mut right = rhs.tokens();
                let ghost right_tokens = right@;
                tokens.append(&mut right);
                assert(tokens_view(tokens@) =~= tokens_view(left) + seq![
                    TokenView::Operator(*operator),
                ] + tokens_view(right_tokens));
                tokens
            },
        }
    }
}

/// One step of a program: it binds a variable or defines a function.
#[derive(Debug, PartialEq, Eq)]
pub enum Statement {
    VarAssignment(Name, Expression),
    FnDefinition(Name, Vec<Name>, Expression),
}

/// The view of a [`Statement`].
pub enum StatementView {
    VarAssignment(Seq<char>, ExpressionView),
    FnDefinition(Seq<char>, Seq<Seq<char>>, ExpressionView),
}

impl View for Statement {
    type V = StatementView;

    open spec fn view(&self) -> StatementView {
        match *self {
            Statement::VarAssignment(name, expression) => StatementView::VarAssignment(
                name@,
                expression@,
            ),
            Statement::FnDefinition(name, params, body) => StatementView::FnDefinition(
                name@,
                names_view(params@),
                body@,
            ),
        }
    }
}

impl Clone for Statement {
    fn clone(&self) -> (copy: Statement)
        ensures
            copy@ == self@,
    {
        match self {
            Statement::VarAssignment(name, expression) => Statement::VarAssignment(
                name.clone(),
                expression.clone(),
            ),
            Statement::FnDefinition(name, params, body) => Statement::FnDefinition(
                name.clone(),
                clone_names(params),
                body.clone(),
            ),
        }
    }
}

/// Statements in the order in which they execute.
#[derive(Debug, PartialEq, Eq)]
pub struct Statements(pub Vec<Statement>);

impl View for Statements {
    type V = Seq<StatementView>;

    open spec fn view(&self) -> Seq<StatementView> {
        Seq::new(self.0@.len(), |i: int| self.0@[i]@)
    }
}

impl Clone for Statements {
    fn clone(&self) -> (copy: Statements)
        ensures
            copy@ == self@,
    {
        let mut copy: Vec<Statement> = Vec::new();
        let mut i: usize = 0;
        while i < self.0.len()
            invariant
                i <= self.0.len(),
                copy.len() == i,
                forall|j: int| 0 <= j < i ==> copy[j]@ == self.0[j]@,
            decreases self.0.len() - i,
        {
            copy.push(self.0[i].clone());
            i += 1;
        }
        let copy = Statements(copy);
        assert(copy@ =~= self@);
        copy
    }
}

/// A whole program: the names bound to the inputs before the first
/// statement runs, the statements, and the names whose values are the
/// outputs after the last one.
#[derive(Debug, PartialEq, Eq)]
pub struct Program {
    pub inputs: Vec<Name>,
    pub statements: Statements,
    pub outputs: Vec<Name>,
}

/// The view of a [`Program`].
pub struct ProgramView {
    pub inputs: Seq<Seq<char>>,
    pub statements: Seq<StatementView>,
    pub outputs: Seq<Seq<char>>,
}

impl View for Program {
    type V = ProgramView;

    open spec fn view(&self) -> ProgramView {
        ProgramView {
            inputs: names_view(self.inputs@),
            statements: self.statements@,
            outputs: names_view(self.outputs@),
        }
    }
}

impl Program {
    pub fn new(inputs: Vec<Name>, statements: Statements, outputs: Vec<Name>) -> (program: Program)
        ensures
            program.inputs == inputs,
            program.statements == statements,
            program.outputs == outputs,
    {
        Program { inputs, statements, outputs }
    }
}

impl Clone for Program {
    fn clone(&self) -> (copy: Program)
        ensures
            copy@ == self@,
    {
        Program {
            inputs: clone_names(&self.inputs),
            statements: self.statements.clone(),
            outputs: clone_names(&self.outputs),
        }
    }
}

} // verus!
