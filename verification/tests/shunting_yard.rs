use langs::ast::{Expression, Operand, Operator, Token};
use langs::shunting_yard::ShuntingYard;

#[test]
fn it_works() {
    assert_eq!(2 + 2, 4);
}

#[test]
fn lone_operand_test() {
    let first_operand = Operand::I64(-3);

    let shunting_yard = ShuntingYard::new(first_operand.clone());
    assert_eq!(
        shunting_yard.expr_stack(),
        &vec![Expression::Operand(first_operand.clone())]
    );
    assert_eq!(shunting_yard.operator_stack(), &vec![]);

    let expr = shunting_yard.into_expression();
    assert_eq!(expr, Expression::Operand(first_operand));
}

#[test]
fn single_operation_test() {
    let operator = Operator::Multiply;
    let operands = (Operand::I64(1), Operand::I64(2));

    let mut shunting_yard = ShuntingYard::new(operands.0.clone());
    assert_eq!(
        shunting_yard.expr_stack(),
        &vec![Expression::Operand(operands.0.clone())]
    );
    assert_eq!(shunting_yard.operator_stack(), &vec![]);

    shunting_yard.push(operator, operands.1.clone());
    assert_eq!(
        shunting_yard.expr_stack(),
        &vec![
            Expression::Operand(operands.0.clone()),
            Expression::Operand(operands.1.clone()),
        ]
    );
    assert_eq!(shunting_yard.operator_stack(), &vec![operator]);

    assert_eq!(
        shunting_yard.into_expression(),
        Expression::Operation(
            operator,
            Box::new(Expression::Operand(operands.0)),
            Box::new(Expression::Operand(operands.1))
        )
    );
}

#[test]
fn operator_priority_test() {
    let tokens = (
        Operand::I64(-3),
        Operator::Divide,
        Operand::I64(7),
        Operator::Add,
        Operand::I64(11),
    );

    let mut shunting_yard = ShuntingYard::new(tokens.0.clone());
    assert_eq!(
        shunting_yard.expr_stack(),
        &vec![Expression::Operand(tokens.0.clone())]
    );
    assert_eq!(shunting_yard.operator_stack(), &vec![]);

    shunting_yard.push(tokens.1, tokens.2.clone());
    assert_eq!(
        shunting_yard.expr_stack(),
        &vec![
            Expression::Operand(tokens.0.clone()),
            Expression::Operand(tokens.2.clone()),
        ]
    );
    assert_eq!(shunting_yard.operator_stack(), &vec![tokens.1]);

    shunting_yard.push(tokens.3, tokens.4.clone());
    assert_eq!(
        shunting_yard.expr_stack(),
        &vec![
            Expression::Operation(
                tokens.1,
                Box::new(Expression::Operand(tokens.0.clone())),
                Box::new(Expression::Operand(tokens.2.clone())),
            ),
            Expression::Operand(tokens.4.clone()),
        ]
    );
    assert_eq!(shunting_yard.operator_stack(), &vec![tokens.3]);

    assert_eq!(
        shunting_yard.into_expression(),
        Expression::Operation(
            tokens.3,
            Box::new(Expression::Operation(
                tokens.1,
                Box::new(Expression::Operand(tokens.0)),
                Box::new(Expression::Operand(tokens.2))
            )),
            Box::new(Expression::Operand(tokens.4))
        )
    );
}

#[test]
fn equal_precedence_groups_to_the_left() {
    let mut yard = ShuntingYard::new(Operand::I64(1));
    yard.push(Operator::Subtract, Operand::I64(2));
    yard.push(Operator::Subtract, Operand::I64(3));
    assert_eq!(
        yard.into_expression(),
        Expression::Operation(
            Operator::Subtract,
            Box::new(Expression::Operation(
                Operator::Subtract,
                Box::new(Expression::Operand(Operand::I64(1))),
                Box::new(Expression::Operand(Operand::I64(2)))
            )),
            Box::new(Expression::Operand(Operand::I64(3)))
        )
    );
}

#[test]
fn multiply_binds_tighter_than_divide() {
    // 8 / 2 * 3 groups as 8 / (2 * 3).
    let mut yard = ShuntingYard::new(Operand::I64(8));
    yard.push(Operator::Divide, Operand::I64(2));
    yard.push(Operator::Multiply, Operand::I64(3));
    assert_eq!(
        yard.into_expression(),
        Expression::Operation(
            Operator::Divide,
            Box::new(Expression::Operand(Operand::I64(8))),
            Box::new(Expression::Operation(
                Operator::Multiply,
                Box::new(Expression::Operand(Operand::I64(2))),
                Box::new(Expression::Operand(Operand::I64(3)))
            ))
        )
    );
}

#[test]
fn tokens_of_a_reduced_tree_are_what_came_in() {
    let mut yard = ShuntingYard::new(Operand::I64(1));
    yard.push(Operator::Add, Operand::I64(2));
    yard.push(Operator::Multiply, Operand::I64(3));
    yard.push(Operator::Subtract, Operand::I64(4));
    let tree = yard.into_expression();
    assert_eq!(
        tree.tokens(),
        vec![
            Token::Operand(Operand::I64(1)),
            Token::Operator(Operator::Add),
            Token::Operand(Operand::I64(2)),
            Token::Operator(Operator::Multiply),
            Token::Operand(Operand::I64(3)),
            Token::Operator(Operator::Subtract),
            Token::Operand(Operand::I64(4)),
        ]
    );
}
