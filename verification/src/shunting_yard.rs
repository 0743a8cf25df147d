//! The shunting-yard reducer: it folds a flat run of operands and operators
//! into a binary tree with two stacks.
//!
//! An incoming operator first folds every operator on the stack that binds
//! at least as tightly as it does, so operators of one precedence group to
//! the left; then it is pushed with its right operand. At the end of input
//! the stack is folded until one expression is left.

use vstd::prelude::*;
use crate::ast::{expressions_view, Expression, ExpressionView, Operand, OperandView, Operator, TokenView};

verus! {

/// The two stacks as mathematical sequences, the top of each at the end.
pub struct Yard {
    pub operators: Seq<Operator>,
    pub expressions: Seq<ExpressionView>,
}

impl Yard {
    /// One expression more than operators: every operator has its operands.
    pub open spec fn balanced(self) -> bool {
        self.expressions.len() == self.operators.len() + 1
    }

    /// The yard that holds one operand and nothing else.
    pub open spec fn start(first: OperandView) -> Yard {
        Yard { operators: seq![], expressions: seq![ExpressionView::Operand(first)] }
    }

    /// The top operator folded with the top two expressions.
    pub open spec fn reduced(self) -> Yard
        recommends
            self.balanced(),
            self.operators.len() > 0,
    {
        let n = self.expressions.len() as int;
        Yard {
            operators: self.operators.drop_last(),
            expressions: self.expressions.take(n - 2).push(
                ExpressionView::Operation(
                    self.operators.last(),
                    Box::new(self.expressions[n - 2]),
                    Box::new(self.expressions[n - 1]),
                ),
            ),
        }
    }

    /// Folded for as long as the top operator binds at least as tightly as
    /// `incoming`.
    pub open spec fn reduced_for(self, incoming: Operator) -> Yard
        decreases self.operators.len(),
    {
        if self.operators.len() > 0 && self.operators.last().rank() >= incoming.rank() {
            self.reduced().reduced_for(incoming)
        } else {
            self
        }
    }

    /// The yard after an operator and its right operand have come in.
    pub open spec fn pushed(self, operator: Operator, operand: OperandView) -> Yard {
        let folded = self.reduced_for(operator);
        Yard {
            operators: folded.operators.push(operator),
            expressions: folded.expressions.push(ExpressionView::Operand(operand)),
        }
    }

    /// The one expression that is left when every operator has been folded.
    pub open spec fn drained(self) -> ExpressionView
        decreases self.operators.len(),
    {
        if self.operators.len() > 0 {
            self.reduced().drained()
        } else {
            self.expressions.last()
        }
    }

    /// What the yard holds, read from left to right.
    pub open spec fn tokens(self) -> Seq<TokenView>
        decreases self.operators.len(),
    {
        if self.operators.len() > 0 {
            Yard {
                operators: self.operators.drop_last(),
                expressions: self.expressions.drop_last(),
            }.tokens() + seq![TokenView::Operator(self.operators.last())]
                + self.expressions.last().tokens()
        } else {
            self.expressions.last().tokens()
        }
    }
}

/// The tokens of a flat expression: an operand, then operators each with
/// its right operand.
pub open spec fn flat_tokens(first: OperandView, rest: Seq<(Operator, OperandView)>) -> Seq<
    TokenView,
>
    decreases rest.len(),
{
    if rest.len() == 0 {
        seq![TokenView::Operand(first)]
    } else {
        flat_tokens(first, rest.drop_last()) + seq![
            TokenView::Operator(rest.last().0),
            TokenView::Operand(rest.last().1),
        ]
    }
}

/// The yard after a whole flat expression has come in.
pub open spec fn yard_of(first: OperandView, rest: Seq<(Operator, OperandView)>) -> Yard
    decreases rest.len(),
{
    if rest.len() == 0 {
        Yard::start(first)
    } else {
        yard_of(first, rest.drop_last()).pushed(rest.last().0, rest.last().1)
    }
}

/// The tree that the reducer makes of a flat expression.
pub open spec fn shunt(first: OperandView, rest: Seq<(Operator, OperandView)>) -> ExpressionView {
    yard_of(first, rest).drained()
}

/// The reducer: a stack of operators that wait for their right operand and
/// a stack of the expressions folded so far.
#[derive(Debug)]
pub struct ShuntingYard {
    operator_stack: Vec<Operator>,
    expr_stack: Vec<Expression>,
}

impl View for ShuntingYard {
    type V = Yard;

    closed spec fn view(&self) -> Yard {
        Yard { operators: self.operator_stack@, expressions: expressions_view(self.expr_stack@) }
    }
}

impl Clone for ShuntingYard {
    fn clone(&self) -> (copy: ShuntingYard)
        ensures
            copy@ == self@,
    {
        let mut operator_stack: Vec<Operator> = Vec::new();
        let mut i: usize = 0;
        while i < self.operator_stack.len()
            invariant
                i <= self.operator_stack.len(),
                operator_stack@ == self.operator_stack@.take(i as int),
            decreases self.operator_stack.len() - i,
        {
            operator_stack.push(self.operator_stack[i]);
            assert(self.operator_stack@.take(i + 1) =~= self.operator_stack@.take(i as int).push(
                self.operator_stack[i as int],
            ));
            i += 1;
        }
        assert(operator_stack@ =~= self.operator_stack@);
        let mut expr_stack: Vec<Expression> = Vec::new();
        let mut j: usize = 0;
        while j < self.expr_stack.len()
            invariant
                j <= self.expr_stack.len(),
                expr_stack.len() == j,
                forall|k: int| 0 <= k < j ==> expr_stack[k]@ == self.expr_stack[k]@,
            decreases self.expr_stack.len() - j,
        {
            expr_stack.push(self.expr_stack[j].clone());
            j += 1;
        }
        assert(expressions_view(expr_stack@) =~= expressions_view(self.expr_stack@));
        ShuntingYard { operator_stack, expr_stack }
    }
}

impl ShuntingYard {
    /// A yard that holds the first operand of an expression.
    pub fn new(first_operand: Operand) -> (yard: ShuntingYard)
        ensures
            yard@ == Yard::start(first_operand@),
            yard@.balanced(),
    {
        let yard = ShuntingYard {
            operator_stack: Vec::new(),
            expr_stack: vec![Expression::Operand(first_operand)],
        };
        assert(yard@.operators =~= Yard::start(first_operand@).operators);
        assert(yard@.expressions =~= Yard::start(first_operand@).expressions);
        yard
    }

    /// The operators that wait for their right operand, the latest last.
    pub fn operator_stack(&self) -> (stack: &Vec<Operator>)
        ensures
            stack@ == self@.operators,
    {
        &self.operator_stack
    }

    /// The expressions folded so far, the latest last.
    pub fn expr_stack(&self) -> (stack: &Vec<Expression>)
        ensures
            expressions_view(stack@) == self@.expressions,
    {
        &self.expr_stack
    }

    /// Takes in an operator and its right operand.
    pub fn push(&mut self, operator: Operator, operand: Operand)
        requires
            old(self)@.balanced(),
        ensures
            final(self)@ == old(self)@.pushed(operator, operand@),
            final(self)@.balanced(),
    {
        Self::reduce_for(&mut self.operator_stack, &mut self.expr_stack, operator);
        let ghost folded = self@;
        self.operator_stack.push(operator);
        Self::push_operand(&mut self.expr_stack, operand);
        assert(self@.operators =~= folded.operators.push(operator));
    }

    fn push_operand(expr_stack: &mut Vec<Expression>, operand: Operand)
        ensures
            expressions_view(final(expr_stack)@) == expressions_view(old(expr_stack)@).push(
                ExpressionView::Operand(operand@),
            ),
            final(expr_stack).len() == old(expr_stack).len() + 1,
    {
        expr_stack.push(Expression::Operand(operand));
        assert(expressions_view(expr_stack@) =~= expressions_view(old(expr_stack)@).push(
            ExpressionView::Operand(operand@),
        ));
    }

    fn reduce_for(
        operator_stack: &mut Vec<Operator>,
        expr_stack: &mut Vec<Expression>,
        incoming: Operator,
    )
        requires
            old(expr_stack).len() == old(operator_stack).len() + 1,
        ensures
            final(expr_stack).len() == final(operator_stack).len() + 1,
            (Yard {
                operators: final(operator_stack)@,
                expressions: expressions_view(final(expr_stack)@),
            }) == (Yard {
                operators: old(operator_stack)@,
                expressions: expressions_view(old(expr_stack)@),
            }).reduced_for(incoming),
    {
        let ghost before = Yard {
            operators: operator_stack@,
            expressions: expressions_view(expr_stack@),
        };
        loop
            invariant
                expr_stack.len() == operator_stack.len() + 1,
                before.reduced_for(incoming) == (Yard {
                    operators: operator_stack@,
                    expressions: expressions_view(expr_stack@),
                }).reduced_for(incoming),
            ensures
                expr_stack.len() == operator_stack.len() + 1,
                before.reduced_for(incoming) == (Yard {
                    operators: operator_stack@,
                    expressions: expressions_view(expr_stack@),
                }),
            decreases operator_stack.len(),
        {
            let n: usize = operator_stack.len();
            if n == 0 || operator_stack[n - 1].precedence() < incoming.precedence() {
                break ;
            }
            Self::make_a_tree(operator_stack, expr_stack);
        }
    }

    /// Folds the top operator with the top two expressions.
    fn make_a_tree(operator_stack: &mut Vec<Operator>, expr_stack: &mut Vec<Expression>)
        requires
            old(operator_stack).len() > 0,
            old(expr_stack).len() == old(operator_stack).len() + 1,
        ensures
            final(expr_stack).len() == final(operator_stack).len() + 1,
            final(operator_stack).len() == old(operator_stack).len() - 1,
            (Yard {
                operators: final(operator_stack)@,
                expressions: expressions_view(final(expr_stack)@),
            }) == (Yard {
                operators: old(operator_stack)@,
                expressions: expressions_view(old(expr_stack)@),
            }).reduced(),
    {
        let ghost before = Yard {
            operators: operator_stack@,
            expressions: expressions_view(expr_stack@),
        };
        let operator = operator_stack.pop().unwrap();
        let arg_b = expr_stack.pop().unwrap();
        let arg_a = expr_stack.pop().unwrap();
        let expr = Expression::Operation(operator, Box::new(arg_a), Box::new(arg_b));
        expr_stack.push(expr);
        assert(expressions_view(expr_stack@) =~= before.reduced().expressions);
        assert(operator_stack@ =~= before.reduced().operators);
    }

    /// Folds what is left into the one expression that the input stands for.
    pub fn into_expression(self) -> (expression: Expression)
        requires
            self@.balanced(),
        ensures
            expression@ == self@.drained(),
    {
        let mut operator_stack = self.operator_stack;
        let mut expr_stack = self.expr_stack;
        while operator_stack.len() > 0
            invariant
                expr_stack.len() == operator_stack.len() + 1,
                self@.drained() == (Yard {
                    operators: operator_stack@,
                    expressions: expressions_view(expr_stack@),
                }).drained(),
            decreases operator_stack.len(),
        {
            Self::make_a_tree(&mut operator_stack, &mut expr_stack);
        }
        expr_stack.pop().unwrap()
    }
}

impl ExpressionView {
    /// An operand, or an operation whose operator has at least this rank.
    pub open spec fn binds_at_least(self, rank: nat) -> bool {
        match self {
            ExpressionView::Operand(_) => true,
            ExpressionView::Operation(operator, _, _) => operator.rank() >= rank,
        }
    }

    /// An operand, or an operation whose operator has more than this rank.
    pub open spec fn binds_tighter_than(self, rank: nat) -> bool {
        match self {
            ExpressionView::Operand(_) => true,
            ExpressionView::Operation(operator, _, _) => operator.rank() > rank,
        }
    }

    /// Grouped by precedence, to the left among equals: below an operation,
    /// the left side binds at least as tightly as it does and the right side
    /// binds tighter.
    pub open spec fn shaped(self) -> bool
        decreases self,
    {
        match self {
            ExpressionView::Operand(_) => true,
            ExpressionView::Operation(operator, lhs, rhs) => {
                &&& lhs.shaped()
                &&& rhs.shaped()
                &&& lhs.binds_at_least(operator.rank())
                &&& rhs.binds_tighter_than(operator.rank())
            },
        }
    }
}

impl Yard {
    /// What the reducer keeps true of its stacks while it folds: operators
    /// climb strictly in rank toward the top, every expression is shaped,
    /// and each operator's neighbours bind as its operands must.
    pub open spec fn ordered(self) -> bool {
        &&& self.balanced()
        &&& forall|i: int, j: int|
            0 <= i < j < self.operators.len() ==> (#[trigger] self.operators[i]).rank() < (
            #[trigger] self.operators[j]).rank()
        &&& forall|i: int| 0 <= i < self.expressions.len() ==> (#[trigger] self.expressions[i]).shaped()
        &&& forall|i: int|
            0 <= i < self.operators.len() ==> self.expressions[i].binds_at_least(
                (#[trigger] self.operators[i]).rank(),
            ) && self.expressions[i + 1].binds_tighter_than(self.operators[i].rank())
    }

    /// Ordered, with a bare operand on top: the state between two pushes.
    pub open spec fn settled(self) -> bool {
        &&& self.ordered()
        &&& self.expressions.last() is Operand
    }
}

/// Folding once keeps the yard balanced and changes nothing of what it
/// holds from left to right.
pub proof fn lemma_reduced_tokens(yard: Yard)
    requires
        yard.balanced(),
        yard.operators.len() > 0,
    ensures
        yard.reduced().balanced(),
        yard.reduced().operators.len() == yard.operators.len() - 1,
        yard.reduced().tokens() == yard.tokens(),
{
    let n = yard.expressions.len() as int;
    let a = yard.expressions[n - 2];
    let b = yard.expressions[n - 1];
    let o = yard.operators.last();
    let r = yard.reduced();
    let below = Yard {
        operators: yard.operators.drop_last(),
        expressions: yard.expressions.drop_last(),
    };
    let r_below = Yard { operators: r.operators.drop_last(), expressions: r.expressions.drop_last() };
    assert(yard.expressions.take(n - 2).len() == n - 2);
    assert(r.expressions.len() == n - 1);
    assert(below.expressions.last() == a);
    assert(r.expressions.last() == ExpressionView::Operation(o, Box::new(a), Box::new(b)));
    assert(r.expressions.last().tokens() == a.tokens() + seq![TokenView::Operator(o)] + b.tokens());
    assert(yard.tokens() == below.tokens() + seq![TokenView::Operator(o)] + b.tokens());
    if yard.operators.len() == 1 {
        assert(below.tokens() == a.tokens());
        assert(r.tokens() == r.expressions.last().tokens());
    } else {
        let lower = Yard {
            operators: below.operators.drop_last(),
            expressions: below.expressions.drop_last(),
        };
        assert(r_below.operators =~= lower.operators);
        assert(r_below.expressions =~= lower.expressions);
        assert(r.operators.last() == below.operators.last());
        assert(below.tokens() == lower.tokens() + seq![TokenView::Operator(below.operators.last())]
            + a.tokens());
        assert(r.tokens() == r_below.tokens() + seq![TokenView::Operator(r.operators.last())]
            + r.expressions.last().tokens());
        assert(r.tokens() =~= yard.tokens());
    }
}

/// Folding for an incoming operator keeps the yard balanced and changes
/// nothing of what it holds from left to right.
pub proof fn lemma_reduced_for_tokens(yard: Yard, incoming: Operator)
    requires
        yard.balanced(),
    ensures
        yard.reduced_for(incoming).balanced(),
        yard.reduced_for(incoming).tokens() == yard.tokens(),
    decreases yard.operators.len(),
{
    if yard.operators.len() > 0 && yard.operators.last().rank() >= incoming.rank() {
        lemma_reduced_tokens(yard);
        lemma_reduced_for_tokens(yard.reduced(), incoming);
    }
}

/// A push appends the operator and the operand to what the yard holds.
pub proof fn lemma_pushed_tokens(yard: Yard, operator: Operator, operand: OperandView)
    requires
        yard.balanced(),
    ensures
        yard.pushed(operator, operand).balanced(),
        yard.pushed(operator, operand).tokens() == yard.tokens() + seq![
            TokenView::Operator(operator),
            TokenView::Operand(operand),
        ],
{
    lemma_reduced_for_tokens(yard, operator);
    let folded = yard.reduced_for(operator);
    let p = yard.pushed(operator, operand);
    assert(p.operators.drop_last() =~= folded.operators);
    assert(p.expressions.drop_last() =~= folded.expressions);
    assert(p.tokens() =~= yard.tokens() + seq![
        TokenView::Operator(operator),
        TokenView::Operand(operand),
    ]);
}

/// The expression that is left holds what the yard held, in the same order.
pub proof fn lemma_drained_tokens(yard: Yard)
    requires
        yard.balanced(),
    ensures
        yard.drained().tokens() == yard.tokens(),
    decreases yard.operators.len(),
{
    if yard.operators.len() > 0 {
        lemma_reduced_tokens(yard);
        lemma_drained_tokens(yard.reduced());
    }
}

/// The yard of a flat expression is balanced and holds its tokens.
pub proof fn lemma_yard_of_tokens(first: OperandView, rest: Seq<(Operator, OperandView)>)
    ensures
        yard_of(first, rest).balanced(),
        yard_of(first, rest).tokens() == flat_tokens(first, rest),
    decreases rest.len(),
{
    if rest.len() > 0 {
        lemma_yard_of_tokens(first, rest.drop_last());
        lemma_pushed_tokens(yard_of(first, rest.drop_last()), rest.last().0, rest.last().1);
    }
}

/// The reducer neither drops, adds nor reorders anything: read from left to
/// right, the tree holds exactly the operands and operators that came in.
pub proof fn lemma_shunt_keeps_tokens(first: OperandView, rest: Seq<(Operator, OperandView)>)
    ensures
        shunt(first, rest).tokens() == flat_tokens(first, rest),
{
    lemma_yard_of_tokens(first, rest);
    lemma_drained_tokens(yard_of(first, rest));
}

/// Round trip: a tree that the reducer made, written out flat and reduced
/// again, is the same tree. Two flat expressions with the same tokens are
/// the same expression, so this is all that re-reading can give.
pub proof fn lemma_shunt_round_trip(
    first: OperandView,
    rest: Seq<(Operator, OperandView)>,
    again_first: OperandView,
    again_rest: Seq<(Operator, OperandView)>,
)
    requires
        flat_tokens(again_first, again_rest) == shunt(first, rest).tokens(),
    ensures
        shunt(again_first, again_rest) == shunt(first, rest),
{
    lemma_shunt_keeps_tokens(first, rest);
    lemma_flat_tokens_injective(first, rest, again_first, again_rest);
}

/// The length of the tokens of a flat expression.
pub proof fn lemma_flat_tokens_len(first: OperandView, rest: Seq<(Operator, OperandView)>)
    ensures
        flat_tokens(first, rest).len() == 2 * rest.len() + 1,
    decreases rest.len(),
{
    if rest.len() > 0 {
        lemma_flat_tokens_len(first, rest.drop_last());
    }
}

/// Flat expressions with the same tokens are the same.
pub proof fn lemma_flat_tokens_injective(
    first: OperandView,
    rest: Seq<(Operator, OperandView)>,
    other_first: OperandView,
    other_rest: Seq<(Operator, OperandView)>,
)
    requires
        flat_tokens(first, rest) == flat_tokens(other_first, other_rest),
    ensures
        first == other_first,
        rest == other_rest,
    decreases rest.len(),
{
    lemma_flat_tokens_len(first, rest);
    lemma_flat_tokens_len(other_first, other_rest);
    assert(rest.len() == other_rest.len());
    let whole = flat_tokens(first, rest);
    if rest.len() == 0 {
        assert(whole == seq![TokenView::Operand(first)]);
        assert(whole == seq![TokenView::Operand(other_first)]);
        assert(whole[0] == TokenView::Operand(first));
        assert(whole[0] == TokenView::Operand(other_first));
        assert(rest =~= other_rest);
    } else {
        let shorter = rest.drop_last();
        let other_shorter = other_rest.drop_last();
        lemma_flat_tokens_len(first, shorter);
        lemma_flat_tokens_len(other_first, other_shorter);
        let n = whole.len() as int;
        let end = seq![TokenView::Operator(rest.last().0), TokenView::Operand(rest.last().1)];
        let other_end = seq![
            TokenView::Operator(other_rest.last().0),
            TokenView::Operand(other_rest.last().1),
        ];
        assert(whole == flat_tokens(first, shorter) + end);
        assert(whole == flat_tokens(other_first, other_shorter) + other_end);
        assert(flat_tokens(first, shorter) =~= whole.take(n - 2));
        assert(flat_tokens(other_first, other_shorter) =~= whole.take(n - 2));
        assert(whole[n - 2] == end[0]);
        assert(whole[n - 1] == end[1]);
        assert(whole[n - 2] == other_end[0]);
        assert(whole[n - 1] == other_end[1]);
        lemma_flat_tokens_injective(first, shorter, other_first, other_shorter);
        assert(rest.last() == other_rest.last());
        assert(rest =~= shorter.push(rest.last()));
        assert(other_rest =~= other_shorter.push(other_rest.last()));
    }
}

/// Folding once keeps an ordered yard ordered, and leaves on top an
/// operation of the operator that was folded.
pub proof fn lemma_reduced_ordered(yard: Yard)
    requires
        yard.ordered(),
        yard.operators.len() > 0,
    ensures
        yard.reduced().ordered(),
        yard.reduced().expressions.last().binds_at_least(yard.operators.last().rank()),
{
    let r = yard.reduced();
    let n = yard.expressions.len() as int;
    assert(yard.expressions.take(n - 2).len() == n - 2);
    assert(yard.operators[n - 2] == yard.operators.last());
    assert(yard.expressions[n - 2].shaped());
    assert(yard.expressions[n - 1].shaped());
    assert(r.expressions.last() == ExpressionView::Operation(
        yard.operators.last(),
        Box::new(yard.expressions[n - 2]),
        Box::new(yard.expressions[n - 1]),
    ));
    assert(r.expressions.last().shaped());
    assert forall|i: int| 0 <= i < r.expressions.len() implies (#[trigger] r.expressions[i]).shaped() by {
        if i < n - 2 {
            assert(r.expressions[i] == yard.expressions[i]);
        }
    }
    assert forall|i: int, j: int| 0 <= i < j < r.operators.len() implies (#[trigger] r.operators[i]).rank()
        < (#[trigger] r.operators[j]).rank() by {
        assert(r.operators[i] == yard.operators[i]);
        assert(r.operators[j] == yard.operators[j]);
    }
    assert forall|i: int| 0 <= i < r.operators.len() implies r.expressions[i].binds_at_least(
        (#[trigger] r.operators[i]).rank(),
    ) && r.expressions[i + 1].binds_tighter_than(r.operators[i].rank()) by {
        assert(r.operators[i] == yard.operators[i]);
        assert(r.expressions[i] == yard.expressions[i]);
        if i + 1 < n - 2 {
            assert(r.expressions[i + 1] == yard.expressions[i + 1]);
        } else {
            assert(yard.operators[i].rank() < yard.operators[n - 2].rank());
        }
    }
}

/// Folding for an incoming operator keeps an ordered yard ordered. What is
/// then on top binds at least as tightly as the incoming operator, and the
/// operator below it, if any, binds more loosely.
pub proof fn lemma_reduced_for_ordered(yard: Yard, incoming: Operator)
    requires
        yard.ordered(),
        yard.expressions.last().binds_at_least(incoming.rank()),
    ensures
        yard.reduced_for(incoming).ordered(),
        yard.reduced_for(incoming).expressions.last().binds_at_least(incoming.rank()),
        yard.reduced_for(incoming).operators.len() > 0 ==> yard.reduced_for(
            incoming,
        ).operators.last().rank() < incoming.rank(),
    decreases yard.operators.len(),
{
    if yard.operators.len() > 0 && yard.operators.last().rank() >= incoming.rank() {
        lemma_reduced_ordered(yard);
        lemma_reduced_for_ordered(yard.reduced(), incoming);
    }
}

/// A push takes a settled yard to a settled yard.
pub proof fn lemma_pushed_settled(yard: Yard, operator: Operator, operand: OperandView)
    requires
        yard.settled(),
    ensures
        yard.pushed(operator, operand).settled(),
{
    lemma_reduced_for_ordered(yard, operator);
    let folded = yard.reduced_for(operator);
    let p = yard.pushed(operator, operand);
    let m = folded.operators.len() as int;
    assert(p.operators.len() == m + 1);
    assert(p.expressions.len() == m + 2);
    assert(p.expressions.last() == ExpressionView::Operand(operand));
    assert forall|i: int| 0 <= i < p.expressions.len() implies (#[trigger] p.expressions[i]).shaped() by {
        if i <= m {
            assert(p.expressions[i] == folded.expressions[i]);
        }
    }
    assert forall|i: int, j: int| 0 <= i < j < p.operators.len() implies (#[trigger] p.operators[i]).rank()
        < (#[trigger] p.operators[j]).rank() by {
        assert(p.operators[i] == folded.operators[i]);
        if j < m {
            assert(p.operators[j] == folded.operators[j]);
        } else {
            assert(p.operators[j] == operator);
            assert(folded.operators[m - 1] == folded.operators.last());
            if i < m - 1 {
                assert(folded.operators[i].rank() < folded.operators[m - 1].rank());
            }
        }
    }
    assert forall|i: int| 0 <= i < p.operators.len() implies p.expressions[i].binds_at_least(
        (#[trigger] p.operators[i]).rank(),
    ) && p.expressions[i + 1].binds_tighter_than(p.operators[i].rank()) by {
        assert(p.expressions[i] == folded.expressions[i]);
        if i < m {
            assert(p.operators[i] == folded.operators[i]);
            assert(p.expressions[i + 1] == folded.expressions[i + 1]);
        } else {
            assert(p.operators[i] == operator);
            assert(folded.expressions[m] == folded.expressions.last());
        }
    }
}

/// What is left of an ordered yard is shaped.
pub proof fn lemma_drained_shaped(yard: Yard)
    requires
        yard.ordered(),
    ensures
        yard.drained().shaped(),
    decreases yard.operators.len(),
{
    if yard.operators.len() > 0 {
        lemma_reduced_ordered(yard);
        lemma_drained_shaped(yard.reduced());
    }
}

/// The yard of a flat expression is settled.
pub proof fn lemma_yard_of_settled(first: OperandView, rest: Seq<(Operator, OperandView)>)
    ensures
        yard_of(first, rest).settled(),
    decreases rest.len(),
{
    if rest.len() > 0 {
        lemma_yard_of_settled(first, rest.drop_last());
        lemma_pushed_settled(yard_of(first, rest.drop_last()), rest.last().0, rest.last().1);
    }
}

/// The tree that the reducer makes is grouped by precedence, and to the
/// left among operators of one precedence.
pub proof fn lemma_shunt_shaped(first: OperandView, rest: Seq<(Operator, OperandView)>)
    ensures
        shunt(first, rest).shaped(),
{
    lemma_yard_of_settled(first, rest);
    lemma_drained_shaped(yard_of(first, rest));
}

/// Whether every operator among the tokens has at least this rank.
pub open spec fn operators_at_least(tokens: Seq<TokenView>, rank: nat) -> bool {
    forall|i: int|
        0 <= i < tokens.len() ==> (#[trigger] tokens[i] matches TokenView::Operator(operator)
            ==> operator.rank() >= rank)
}

/// A tree holds an odd number of tokens, and an operation at least three.
pub proof fn lemma_tokens_len(expression: ExpressionView)
    ensures
        expression.tokens().len() >= 1,
        expression is Operation ==> expression.tokens().len() >= 3,
    decreases expression,
{
    match expression {
        ExpressionView::Operand(_) => {},
        ExpressionView::Operation(_, lhs, rhs) => {
            lemma_tokens_len(*lhs);
            lemma_tokens_len(*rhs);
        },
    }
}

/// In a shaped tree no operator binds more loosely than the one at the
/// root does.
pub proof fn lemma_token_ranks(expression: ExpressionView, rank: nat)
    requires
        expression.shaped(),
        expression.binds_at_least(rank),
    ensures
        operators_at_least(expression.tokens(), rank),
    decreases expression,
{
    match expression {
        ExpressionView::Operand(_) => {},
        ExpressionView::Operation(operator, lhs, rhs) => {
            lemma_token_ranks(*lhs, operator.rank());
            lemma_token_ranks(*rhs, operator.rank() + 1);
            let left = lhs.tokens();
            let right = rhs.tokens();
            let tokens = expression.tokens();
            assert forall|i: int| 0 <= i < tokens.len() implies (
            #[trigger] tokens[i] matches TokenView::Operator(o) ==> o.rank() >= rank) by {
                if i < left.len() {
                    assert(tokens[i] == left[i]);
                } else if i > left.len() {
                    assert(tokens[i] == right[i - left.len() - 1]);
                }
            }
        },
    }
}

/// Two shaped trees that hold the same tokens are the same tree.
pub proof fn lemma_shaped_unique(a: ExpressionView, b: ExpressionView)
    requires
        a.shaped(),
        b.shaped(),
        a.tokens() == b.tokens(),
    ensures
        a == b,
    decreases a,
{
    lemma_tokens_len(a);
    lemma_tokens_len(b);
    match a {
        ExpressionView::Operand(operand) => {
            assert(a.tokens()[0] == TokenView::Operand(operand));
            match b {
                ExpressionView::Operand(other) => {
                    assert(b.tokens()[0] == TokenView::Operand(other));
                },
                ExpressionView::Operation(_, _, _) => {},
            }
        },
        ExpressionView::Operation(operator, lhs, rhs) => {
            match b {
                ExpressionView::Operand(_) => {},
                ExpressionView::Operation(other, other_lhs, other_rhs) => {
                    let left = lhs.tokens();
                    let right = rhs.tokens();
                    let other_left = other_lhs.tokens();
                    let other_right = other_rhs.tokens();
                    let tokens = a.tokens();
                    let n = left.len() as int;
                    let m = other_left.len() as int;
                    assert(tokens[n] == TokenView::Operator(operator));
                    assert(b.tokens()[m] == TokenView::Operator(other));
                    lemma_token_ranks(*lhs, operator.rank());
                    lemma_token_ranks(*rhs, operator.rank() + 1);
                    lemma_token_ranks(*other_lhs, other.rank());
                    lemma_token_ranks(*other_rhs, other.rank() + 1);
                    if n < m {
                        assert(b.tokens()[n] == other_left[n]);
                        assert(tokens[m] == right[m - n - 1]);
                        assert(false);
                    }
                    if m < n {
                        assert(tokens[m] == left[m]);
                        assert(b.tokens()[n] == other_right[n - m - 1]);
                        assert(false);
                    }
                    assert(left =~= tokens.take(n));
                    assert(other_left =~= b.tokens().take(m));
                    assert(right =~= tokens.skip(n + 1));
                    assert(other_right =~= b.tokens().skip(m + 1));
                    lemma_shaped_unique(*lhs, *other_lhs);
                    lemma_shaped_unique(*rhs, *other_rhs);
                },
            }
        },
    }
}

/// The operand at the left end of a tree, and the operators, each with its
/// right operand, that follow it from left to right.
pub open spec fn flatten(expression: ExpressionView) -> (OperandView, Seq<(Operator, OperandView)>)
    decreases expression,
{
    match expression {
        ExpressionView::Operand(operand) => (operand, seq![]),
        ExpressionView::Operation(operator, lhs, rhs) => {
            let (first, before) = flatten(*lhs);
            let (middle, after) = flatten(*rhs);
            (first, before + seq![(operator, middle)] + after)
        },
    }
}

/// The tokens of a flat expression that goes on are those of its beginning
/// and then, for each further operator, the operator and its operand.
pub proof fn lemma_flat_tokens_concat(
    first: OperandView,
    before: Seq<(Operator, OperandView)>,
    operator: Operator,
    middle: OperandView,
    after: Seq<(Operator, OperandView)>,
)
    ensures
        flat_tokens(first, before + seq![(operator, middle)] + after) == flat_tokens(first, before)
            + seq![TokenView::Operator(operator)] + flat_tokens(middle, after),
    decreases after.len(),
{
    let whole = before + seq![(operator, middle)] + after;
    if after.len() == 0 {
        assert(whole.drop_last() =~= before);
        assert(flat_tokens(first, whole) =~= flat_tokens(first, before) + seq![
            TokenView::Operator(operator),
        ] + flat_tokens(middle, after));
    } else {
        lemma_flat_tokens_concat(first, before, operator, middle, after.drop_last());
        assert(whole.drop_last() =~= before + seq![(operator, middle)] + after.drop_last());
        assert(whole.last() == after.last());
        assert(flat_tokens(first, whole) =~= flat_tokens(first, before) + seq![
            TokenView::Operator(operator),
        ] + flat_tokens(middle, after));
    }
}

/// A tree made flat holds the tokens of the tree.
pub proof fn lemma_flatten_tokens(expression: ExpressionView)
    ensures
        flat_tokens(flatten(expression).0, flatten(expression).1) == expression.tokens(),
    decreases expression,
{
    match expression {
        ExpressionView::Operand(_) => {},
        ExpressionView::Operation(operator, lhs, rhs) => {
            lemma_flatten_tokens(*lhs);
            lemma_flatten_tokens(*rhs);
            lemma_flat_tokens_concat(
                flatten(*lhs).0,
                flatten(*lhs).1,
                operator,
                flatten(*rhs).0,
                flatten(*rhs).1,
            );
        },
    }
}

/// A shaped tree is the one that the reducer makes of it when it is made
/// flat: the reducer is the inverse of reading a shaped tree from left to
/// right.
pub proof fn lemma_shunt_inverts_flatten(expression: ExpressionView)
    requires
        expression.shaped(),
    ensures
        shunt(flatten(expression).0, flatten(expression).1) == expression,
{
    let (first, rest) = flatten(expression);
    lemma_flatten_tokens(expression);
    lemma_shunt_keeps_tokens(first, rest);
    lemma_shunt_shaped(first, rest);
    lemma_shaped_unique(shunt(first, rest), expression);
}

} // verus!
