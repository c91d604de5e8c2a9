use domain::expression::operator::Operator;
use domain::expression::operator_weights::OperatorWeights;
use domain::expression::options::{AllowedOperators, ConstantOption, ExpressionOption, TermCount};
use domain::expression::term::{Constant, Term};
use domain::expression::{Expression, OperatorNode};

#[test]
fn mod_get_random_equations() {
    for _ in 0..20 {
        let weights = OperatorWeights::new(Vec::new());
        let options = ExpressionOption {
            constant: ConstantOption::new(1, 7).unwrap(),
            allowed_operators: AllowedOperators::new(vec![
                Operator::Addition,
                Operator::Subtraction,
                Operator::Multiplication,
                Operator::Division,
            ])
            .unwrap(),
            term_count: TermCount::new(3).unwrap(),
        };

        let expression = Expression::generate(&options, weights).unwrap();

        println!(
            "{:?} = {:?}",
            expression.formatted_vec().join(" "),
            expression.get_answer()
        )
    }
}

#[test]
fn mod_expression_format_vec() {
    // 1+2*(3-4)+6/(4/(3-1))
    let expression: Expression = Expression::create(
        &Operator::Addition,
        vec![
            Constant::new(1).into(),
            Expression::create(
                &Operator::Multiplication,
                vec![
                    Constant::new(2).into(),
                    Expression::create(
                        &Operator::Subtraction,
                        vec![
                            Constant::new(3).into(),
                            Constant::new(4).into(),
                        ],
                    )
                    .unwrap(),
                ],
            )
            .unwrap(),
            Expression::create(
                &Operator::Division,
                vec![
                    Constant::new(6).into(),
                    Expression::create(
                        &Operator::Division,
                        vec![
                            Constant::new(4).into(),
                            Expression::create(
                                &Operator::Subtraction,
                                vec![
                                    Constant::new(3).into(),
                                    Constant::new(1).into(),
                                ],
                            )
                            .unwrap(),
                        ],
                    )
                    .unwrap(),
                ],
            )
            .unwrap(),
        ],
    )
    .unwrap();

    assert_eq!(expression.formatted_vec().join(""), "1+2*(3-4)+6/(4/(3-1))")
}

#[test]
fn mod_expression_get_answer() {
    // 1+3*-2*(2-4)+10/5/2
    let expression: Expression = Expression::create(
        &Operator::Addition,
        vec![
            Constant::new(1).into(),
            Expression::create(
                &Operator::Multiplication,
                vec![
                    Constant::new(3).into(),
                    Constant::new(-2).into(),
                    Expression::create(
                        &Operator::Subtraction,
                        vec![
                            Constant::new(2).into(),
                            Constant::new(4).into(),
                        ],
                    )
                    .unwrap(),
                ],
            )
            .unwrap(),
            Expression::create(
                &Operator::Division,
                vec![
                    Constant::new(10).into(),
                    Constant::new(5).into(),
                    Constant::new(2).into(),
                ],
            )
            .unwrap(),
        ],
    )
    .unwrap();

    println!("{:?}", expression.formatted_vec().join(""));

    assert_eq!(expression.get_answer().unwrap() as f32, 14.0)
}

#[test]
fn mod_multiple() {
    // division
    {
        let expression: Expression = Expression::create(
            &Operator::Division,
            vec![
                Constant::new(12).into(),
                Constant::new(3).into(),
                Constant::new(2).into(),
            ],
        )
        .unwrap();

        assert_eq!(2.0, expression.get_answer().unwrap() as f32);
        let str_value = expression.formatted_vec().join("");
        assert_eq!("12/3/2", str_value);
    }
    // multiplication
    {
        let expression: Expression = Expression::create(
            &Operator::Multiplication,
            vec![
                Constant::new(12).into(),
                Constant::new(3).into(),
                Constant::new(2).into(),
            ],
        )
        .unwrap();

        assert_eq!(72.0, expression.get_answer().unwrap() as f32);
        let str_value = expression.formatted_vec().join("");
        assert_eq!("12*3*2", str_value);
    }
    // sum
    {
        let expression: Expression = Expression::create(
            &Operator::Addition,
            vec![
                Constant::new(12).into(),
                Constant::new(3).into(),
                Constant::new(2).into(),
            ],
        )
        .unwrap();

        assert_eq!(17.0, expression.get_answer().unwrap() as f32);
        let str_value = expression.formatted_vec().join("");
        assert_eq!("12+3+2", str_value);
    }
    // subtract
    {
        let expression: Expression = Expression::create(
            &Operator::Subtraction,
            vec![
                Constant::new(12).into(),
                Constant::new(3).into(),
                Constant::new(2).into(),
            ],
        )
        .unwrap();

        assert_eq!(7.0, expression.get_answer().unwrap() as f32);
        let str_value = expression.formatted_vec().join("");
        assert_eq!("12-3-2", str_value);
    }
    // addition
    {
        let expression: Expression = Expression::create(
            &Operator::Addition,
            vec![
                Constant::new(12).into(),
                Constant::new(3).into(),
                Constant::new(2).into(),
            ],
        )
        .unwrap();

        assert_eq!(17.0, expression.get_answer().unwrap() as f32);
        let str_value = expression.formatted_vec().join("");
        assert_eq!("12+3+2", str_value);
    }
}

#[test]
fn mod_nested() {
    // division
    {
        let expression: Expression = Expression::create(
            &Operator::Division,
            vec![
                Constant::new(30).into(),
                Expression::create(
                    &Operator::Division,
                    vec![
                        Constant::new(6).into(),
                        Constant::new(2).into(),
                    ],
                )
                .unwrap(),
            ],
        )
        .unwrap();

        assert_eq!(10.0, expression.get_answer().unwrap() as f32);
        let str_value = expression.formatted_vec().join("");
        assert_eq!("30/(6/2)", str_value);
    }
    // multiplication
    {
        let expression: Expression = Expression::create(
            &Operator::Multiplication,
            vec![
                Constant::new(30).into(),
                Expression::create(
                    &Operator::Multiplication,
                    vec![
                        Constant::new(6).into(),
                        Constant::new(2).into(),
                    ],
                )
                .unwrap(),
            ],
        )
        .unwrap();

        assert_eq!(360.0, expression.get_answer().unwrap() as f32);
        let str_value = expression.formatted_vec().join("");
        assert_eq!("30*6*2", str_value);
    }
    // sum
    {
        let expression: Expression = Expression::create(
            &Operator::Addition,
            vec![
                Constant::new(30).into(),
                Expression::create(
                    &Operator::Addition,
                    vec![
                        Constant::new(6).into(),
                        Constant::new(2).into(),
                    ],
                )
                .unwrap(),
            ],
        )
        .unwrap();

        assert_eq!(38.0, expression.get_answer().unwrap() as f32);
        let str_value = expression.formatted_vec().join("");
        assert_eq!("30+6+2", str_value);
    }
    // subtract
    {
        let expression: Expression = Expression::create(
            &Operator::Subtraction,
            vec![
                Constant::new(30).into(),
                Expression::create(
                    &Operator::Subtraction,
                    vec![
                        Constant::new(6).into(),
                        Constant::new(2).into(),
                    ],
                )
                .unwrap(),
            ],
        )
        .unwrap();

        assert_eq!(26.0, expression.get_answer().unwrap() as f32);
        let str_value = expression.formatted_vec().join("");
        assert_eq!("30-(6-2)", str_value);
    }
    // addition
    {
        let expression: Expression = Expression::create(
            &Operator::Addition,
            vec![
                Constant::new(30).into(),
                Expression::create(
                    &Operator::Addition,
                    vec![
                        Constant::new(6).into(),
                        Constant::new(2).into(),
                    ],
                )
                .unwrap(),
            ],
        )
        .unwrap();

        assert_eq!(38.0, expression.get_answer().unwrap() as f32);
        let str_value = expression.formatted_vec().join("");
        assert_eq!("30+6+2", str_value);
    }
}

#[test]
fn mod_nested_sum() {
    // multiplication: 4*(5+1)
    {
        let expression: Expression = Expression::create(
            &Operator::Multiplication,
            vec![
                Constant::new(4).into(),
                Expression::create(
                    &Operator::Addition,
                    vec![
                        Constant::new(5).into(),
                        Constant::new(1).into(),
                    ],
                )
                .unwrap(),
            ],
        )
        .unwrap();

        assert_eq!(24.0, expression.get_answer().unwrap() as f32);
        let str_value = expression.formatted_vec().join("");
        assert_eq!("4*(5+1)", str_value);
    }
    // subtract
    {
        let expression: Expression = Expression::create(
            &Operator::Subtraction,
            vec![
                Constant::new(30).into(),
                Expression::create(
                    &Operator::Addition,
                    vec![
                        Constant::new(6).into(),
                        Constant::new(2).into(),
                    ],
                )
                .unwrap(),
            ],
        )
        .unwrap();

        assert_eq!(22.0, expression.get_answer().unwrap() as f32);
        let str_value = expression.formatted_vec().join("");
        assert_eq!("30-(6+2)", str_value);
    }
}

#[test]
fn mod_nested_subtract() {
    {
        let expression: Expression = Expression::create(
            &Operator::Addition,
            vec![
                Constant::new(30).into(),
                Expression::create(
                    &Operator::Subtraction,
                    vec![
                        Constant::new(6).into(),
                        Constant::new(2).into(),
                    ],
                )
                .unwrap(),
            ],
        )
        .unwrap();

        assert_eq!(34.0, expression.get_answer().unwrap() as f32);
        let str_value = expression.formatted_vec().join("");
        assert_eq!("30+(6-2)", str_value);
    }
}

#[test]
fn mod_expression_get_answer1() {
    // 5 + 6 / 6
    {
        let expression: Expression = Expression::create(
            &Operator::Addition,
            vec![
                Constant::new(5).into(),
                Expression::create(
                    &Operator::Division,
                    vec![
                        Constant::new(6).into(),
                        Constant::new(6).into(),
                    ],
                )
                .unwrap(),
            ],
        )
        .unwrap();

        assert_eq!(6.0, expression.get_answer().unwrap() as f32);
        let str_value = expression.formatted_vec().join("");
        assert_eq!("5+6/6", str_value);
    }
}

#[test]
fn mod_expression_get_answer2() {
    // 6 - 6 * 7
    {
        let expression: Expression = Expression::create(
            &Operator::Subtraction,
            vec![
                Constant::new(6).into(),
                Expression::create(
                    &Operator::Multiplication,
                    vec![
                        Constant::new(6).into(),
                        Constant::new(7).into(),
                    ],
                )
                .unwrap(),
            ],
        )
        .unwrap();

        assert_eq!(-36.0, expression.get_answer().unwrap() as f32);
        let str_value = expression.formatted_vec().join("");
        assert_eq!("6-6*7", str_value);
    }
}

#[test]
fn mod_expression_get_answer_nested_multiplication() {
    let expression1: Expression = Expression::create(
        &Operator::Multiplication,
        vec![
            Constant::new(10).into(),
            Constant::new(5).into(),
            Constant::new(2).into(),
        ],
    )
    .unwrap();

    let expression2: Expression = Expression::create(
        &Operator::Multiplication,
        vec![
            Constant::new(10).into(),
            Expression::create(
                &Operator::Multiplication,
                vec![
                    Constant::new(5).into(),
                    Constant::new(2).into(),
                ],
            )
            .unwrap(),
        ],
    )
    .unwrap();

    assert_eq!(
        expression1.get_answer().unwrap() as f32,
        expression2.get_answer().unwrap() as f32
    );
    assert_eq!(expression1.get_answer().unwrap() as f32, 100.0)
}

#[test]
fn test() {
    let value = OperatorNode::new(
        Operator::Subtraction,
        vec![
            Expression::Term(Term::Constant(Constant::new(111))),
            Expression::Term(Term::Constant(Constant::new(222))),
            Expression::Term(Term::Constant(Constant::new(333))),
        ],
    )
    .unwrap();

    println!("{:?}", value.formatted_vec());
    println!("{:?}", value.get_answer());
    assert_eq!(value.formatted_vec().join(""), "111-222-333");
    assert_eq!(value.get_answer(), Some(-444));
}

#[test]
fn operator_weights_get_random_operator() {
    let weights = OperatorWeights::new(Vec::new());
    let operators = AllowedOperators::new(vec![Operator::Addition]).unwrap();
    let operator = weights.get_random_operator(&operators).unwrap();

    assert!(Operator::list_options().contains(&operator));
    assert_eq!(operator, Operator::Addition);
}
