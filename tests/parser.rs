use calculator::{
    next_step, parse_buffer, LineError, Step, process_expression, shunting_yard_algorithm, Expression, Factor, Operator,
    ParseError,
};

fn lit(s: &str) -> Factor<f64> {
    Factor::Literal(String::from(s))
}

fn bin(l: Factor<f64>, op: Operator, r: Factor<f64>) -> Factor<f64> {
    Factor::Expression(Box::new(Expression::new((l, r), op)))
}

fn parse_line(line: &str, res: Option<f64>) -> Result<Factor<f64>, ParseError> {
    let (tokens, _) = parse_buffer(&String::from(line)).unwrap();
    shunting_yard_algorithm(&tokens, res)
}

fn toks(v: &[&str]) -> Vec<String> {
    v.iter().map(|s| String::from(*s)).collect()
}

#[test]
fn parse_result_factor() {
    let res = Some(5.0);

    let fact: Result<Factor<f64>, ParseError> =
        Expression::parse_factor(Some(String::from("ANS")).as_ref(), res);
    let fact = match fact.unwrap() {
        Factor::Value(val) => val,
        Factor::Literal(_) => 0.0,
        Factor::Expression(_) => 0.0,
    };

    assert_eq!(fact, res.unwrap());
}

#[test]
fn parse_any_factor() {
    let fact: Result<Factor<f64>, ParseError> =
        Expression::parse_factor(Some(String::from("10")).as_ref(), None);
    let fact = match fact.unwrap() {
        Factor::Value(val) => val,
        Factor::Literal(text) => text.parse::<f64>().unwrap(),
        Factor::Expression(_) => 0.0,
    };

    assert_eq!(fact, 10.0);
}

#[test]
fn parse_factor_without_prior_result_fails() {
    let fact = Expression::<f64>::parse_factor(Some(String::from("ans")).as_ref(), None);
    assert_eq!(fact, Err(ParseError::NoPriorResult));
}

#[test]
fn parse_factor_errors() {
    assert_eq!(Expression::<f64>::parse_factor(None, None), Err(ParseError::MissingFactor));
    assert_eq!(
        Expression::<f64>::parse_factor(Some(String::from("x1")).as_ref(), Some(1.0)),
        Err(ParseError::InvalidNumber)
    );
    assert_eq!(
        Expression::<f64>::parse_factor(Some(String::from("1e3")).as_ref(), None),
        Ok(lit("1e3"))
    );
    assert_eq!(
        Expression::<f64>::parse_factor(Some(String::from("12abc")).as_ref(), None),
        Err(ParseError::InvalidNumber)
    );
}

#[test]
fn equal_precedence_groups_left() {
    let expected = bin(bin(lit("8"), Operator::Subtraction, lit("3")), Operator::Subtraction, lit("2"));
    assert_eq!(parse_line("8 - 3 - 2", None), Ok(expected));
    let expected = bin(bin(lit("8"), Operator::Division, lit("4")), Operator::Multiplication, lit("2"));
    assert_eq!(parse_line("8 / 4 * 2", None), Ok(expected));
    let expected = bin(bin(lit("1"), Operator::Subtraction, lit("2")), Operator::Sum, lit("3"));
    assert_eq!(parse_line("1 - 2 + 3", None), Ok(expected));
}

#[test]
fn multiplication_binds_tighter() {
    let expected = bin(lit("3"), Operator::Sum, bin(lit("4"), Operator::Multiplication, lit("2")));
    assert_eq!(parse_line("3 + 4 * 2", None), Ok(expected));
}

#[test]
fn brackets_group_first() {
    let expected = bin(bin(lit("3"), Operator::Sum, lit("4")), Operator::Multiplication, lit("2"));
    assert_eq!(parse_line("(3 + 4) * 2", None), Ok(expected));
}

#[test]
fn nested_brackets() {
    let inner = bin(lit("55"), Operator::Subtraction, lit("2"));
    let right = bin(lit("82"), Operator::Multiplication, inner);
    let left = bin(
        lit("3"),
        Operator::Sum,
        bin(bin(lit("4"), Operator::Multiplication, bin(lit("2"), Operator::Subtraction, lit("5"))), Operator::Division, lit("77")),
    );
    let expected = bin(left, Operator::Subtraction, right);
    assert_eq!(parse_line("3+4*(2-5)/77-(82*(55-2))", None), Ok(expected));
}

#[test]
fn answer_carries_previous_result() {
    let first = parse_line("2 + 3", None);
    assert_eq!(first, Ok(bin(lit("2"), Operator::Sum, lit("3"))));
    let second = parse_line("ans * 2", Some(5.0));
    assert_eq!(second, Ok(bin(Factor::Value(5.0), Operator::Multiplication, lit("2"))));
}

#[test]
fn answer_without_prior_result_fails() {
    assert_eq!(parse_line("ans + 1", None), Err(ParseError::NoPriorResult));
}

#[test]
fn mismatched_parentheses_fail() {
    assert_eq!(parse_line("(1 + 2", None), Err(ParseError::MismatchedParentheses));
    assert_eq!(parse_line("1 + 2)", None), Err(ParseError::MismatchedParentheses));
    assert_eq!(parse_line(")", None), Err(ParseError::MismatchedParentheses));
}

#[test]
fn division_by_zero_parses() {
    let expected = bin(lit("6"), Operator::Division, lit("0"));
    assert_eq!(parse_line("6 / 0", None), Ok(expected));
}

#[test]
fn reparse_gives_same_tree() {
    let a = parse_line("1.5 * (2 - ans) / 4", Some(3.0));
    let b = parse_line("1.5 * (2 - ans) / 4", Some(3.0));
    assert!(a.is_ok());
    assert_eq!(a, b);
}

#[test]
fn parse_error_variants() {
    assert_eq!(shunting_yard_algorithm::<f64>(&toks(&["3", "%", "4"]), None), Err(ParseError::UnknownOperator));
    assert_eq!(shunting_yard_algorithm::<f64>(&toks(&["abc"]), None), Err(ParseError::UnknownOperator));
    assert_eq!(shunting_yard_algorithm::<f64>(&toks(&["x1", "+", "2"]), None), Err(ParseError::InvalidNumber));
    assert_eq!(shunting_yard_algorithm::<f64>(&toks(&["1", "+"]), None), Err(ParseError::MissingFactor));
    assert_eq!(shunting_yard_algorithm::<f64>(&toks(&["1", "2"]), None), Err(ParseError::MalformedExpression));
    assert_eq!(shunting_yard_algorithm::<f64>(&toks(&[]), None), Err(ParseError::MalformedExpression));
}

#[test]
fn operator_build_and_precedence() {
    assert_eq!(Operator::build("+"), Ok(Operator::Sum));
    assert_eq!(Operator::build("-"), Ok(Operator::Subtraction));
    assert_eq!(Operator::build("*"), Ok(Operator::Multiplication));
    assert_eq!(Operator::build("/"), Ok(Operator::Division));
    assert_eq!(Operator::build("("), Ok(Operator::OpenBracket));
    assert_eq!(Operator::build(")"), Ok(Operator::ClosedBracket));
    assert_eq!(Operator::build("%"), Err(ParseError::UnknownOperator));
    assert_eq!(Operator::build("++"), Err(ParseError::UnknownOperator));
    assert!(Operator::Sum.greater_prec(&Operator::Subtraction));
    assert!(Operator::Subtraction.greater_prec(&Operator::Sum));
    assert!(!Operator::Sum.greater_prec(&Operator::Multiplication));
    assert!(Operator::Division.greater_prec(&Operator::Sum));
    assert!(Operator::Multiplication.greater_prec(&Operator::Division));
    assert!(!Operator::Multiplication.greater_prec(&Operator::OpenBracket));
    assert!(!Operator::OpenBracket.greater_prec(&Operator::Sum));
}

#[test]
fn single_operand_becomes_a_node() {
    let (tokens, _) = parse_buffer(&String::from("5")).unwrap();
    let exp = process_expression::<f64>(&tokens, None).unwrap();
    assert_eq!(exp, Expression::new((lit("5"), lit("1")), Operator::Multiplication));
    let (tokens, _) = parse_buffer(&String::from("5 - 1")).unwrap();
    let exp = process_expression::<f64>(&tokens, None).unwrap();
    assert_eq!(exp, Expression::new((lit("5"), lit("1")), Operator::Subtraction));
}

#[test]
fn session_steps() {
    assert_eq!(next_step::<f64>(&String::from("exit"), None), Step::Stop);
    assert_eq!(next_step::<f64>(&String::from("1 + Quit"), Some(2.0)), Step::Stop);
    assert_eq!(
        next_step(&String::from("ans + 1"), None::<f64>),
        Step::Report(LineError::Parse(ParseError::NoPriorResult))
    );
    assert_eq!(
        next_step(&String::from("(1 + 2"), Some(4.0)),
        Step::Report(LineError::Parse(ParseError::MismatchedParentheses))
    );
    assert_eq!(
        next_step(&String::from("ans - 1"), Some(4.0)),
        Step::Evaluate(
            Expression::new((Factor::Value(4.0), lit("1")), Operator::Subtraction),
            toks(&["ans", "-", "1"])
        )
    );
    assert_eq!(
        next_step::<f64>(&String::from("7"), None),
        Step::Evaluate(Expression::new((lit("7"), lit("1")), Operator::Multiplication), toks(&["7"]))
    );
}

#[test]
fn parse_factor_accepts_number_words() {
    for word in ["inf", "-inf", "+Infinity", "INFINITY", "NaN", "-nan"] {
        let fact = Expression::<f64>::parse_factor(Some(String::from(word)).as_ref(), None);
        assert_eq!(fact, Ok(lit(word)));
        assert!(word.parse::<f64>().is_ok());
    }
    assert_eq!(
        Expression::<f64>::parse_factor(Some(String::from("infinit")).as_ref(), None),
        Err(ParseError::InvalidNumber)
    );
}
