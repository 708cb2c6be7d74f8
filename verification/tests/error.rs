use tiny_lang::error::Error;

#[test]
fn each_error_has_its_message() {
    assert_eq!(
        Error::UnexpectedToken {
            expected: "let".to_string()
        }
        .message(),
        "expected let"
    );
    assert_eq!(Error::ExpectedDigits.message(), "expected digits");
    assert_eq!(Error::ExpectedIdentifier.message(), "expected identifier");
    assert_eq!(Error::ExpectedSpace.message(), "expected a space");
    assert_eq!(Error::ExpectedOperator.message(), "expected an operator");
    assert_eq!(
        Error::UnknownBinding {
            name: "x".to_string()
        }
        .message(),
        "binding with name 'x' does not exist"
    );
    assert_eq!(Error::DivisionByZero.message(), "division by zero");
    assert_eq!(Error::ArithmeticOverflow.message(), "arithmetic overflow");
}

#[test]
fn message_of_an_empty_name_or_literal() {
    assert_eq!(
        Error::UnexpectedToken {
            expected: String::new()
        }
        .message(),
        "expected "
    );
    assert_eq!(
        Error::UnknownBinding {
            name: String::new()
        }
        .message(),
        "binding with name '' does not exist"
    );
}

#[test]
fn a_clone_equals_the_error() {
    let errors = [
        Error::UnexpectedToken {
            expected: "=".to_string(),
        },
        Error::ExpectedDigits,
        Error::ExpectedIdentifier,
        Error::ExpectedSpace,
        Error::ExpectedOperator,
        Error::UnknownBinding {
            name: "abc".to_string(),
        },
        Error::DivisionByZero,
        Error::ArithmeticOverflow,
    ];
    for (i, e) in errors.iter().enumerate() {
        assert_eq!(&e.clone(), e);
        for (j, other) in errors.iter().enumerate() {
            assert_eq!(e == other, i == j);
        }
    }
}
