use tiny_lang::{Expression, Number, Operation};

#[test]
fn lib_parse_number() {
    assert_eq!(Number::new("123"), Ok(("", Number(123))));
}

#[test]
fn lib_parse_add_operator() {
    assert_eq!(Operation::new("+"), Ok(("", Operation::Addition)));
}

#[test]
fn lib_parse_sub_operator() {
    assert_eq!(Operation::new("-"), Ok(("", Operation::Subtraction)));
}

#[test]
fn lib_parse_mul_operator() {
    assert_eq!(Operation::new("*"), Ok(("", Operation::Multiplication)));
}

#[test]
fn lib_parse_div_operator() {
    assert_eq!(Operation::new("/"), Ok(("", Operation::Division)));
}

#[test]
fn lib_parse_one_plus_two() {
    assert_eq!(
        Expression::new("1+2"),
        Ok((
            "",
            Expression::Operation {
                lhs: Number(1),
                rhs: Number(2),
                op: Operation::Addition
            }
        ))
    );
}

#[test]
fn lib_parse_exprestion_with_whitespace() {
    assert_eq!(
        Expression::new("2 * 2"),
        Ok((
            "",
            Expression::Operation {
                lhs: Number(2),
                rhs: Number(2),
                op: Operation::Multiplication
            }
        ))
    );
}
