use tiny_lang::error::Error;
use tiny_lang::utils::{
    extract_digits, extract_identifier, extract_whitespace, extract_whitespace1, is_ascii_digit,
    tag, take_while, take_while1,
};

fn message<T>(r: Result<T, Error>) -> Result<T, String> {
    r.map_err(|e| e.message())
}

#[test]
fn extract_one_digit() {
    assert_eq!(message(extract_digits("1+2")), Ok(("+2", "1")));
}

#[test]
fn extract_multiple_digits() {
    assert_eq!(message(extract_digits("10-20")), Ok(("-20", "10")));
}

#[test]
fn do_not_extract_digits_when_input_is_invalid() {
    assert_eq!(
        message(extract_digits("abcd")),
        Err("expected digits".to_string())
    );
    assert_eq!(extract_digits("abcd"), Err(Error::ExpectedDigits));
}

#[test]
fn extract_digits_with_no_remainder() {
    assert_eq!(message(extract_digits("100")), Ok(("", "100")));
}

#[test]
fn extract_spaces() {
    assert_eq!(extract_whitespace("    1"), ("1", "    "));
}

#[test]
fn extract_alphbetic_identifier() {
    assert_eq!(
        message(extract_identifier("abcdEFG stop")),
        Ok((" stop", "abcdEFG"))
    );
}

#[test]
fn extract_alphanumaric_identifier() {
    assert_eq!(
        message(extract_identifier("foobar1()")),
        Ok(("()", "foobar1"))
    );
}

#[test]
fn cannot_extract_identifier_beginning_with_number() {
    assert_eq!(
        message(extract_identifier("123abc")),
        Err("expected identifier".to_string())
    );
    assert_eq!(extract_identifier("123abc"), Err(Error::ExpectedIdentifier));
}

#[test]
fn tag_word() {
    assert_eq!(message(tag("let", "let a")), Ok(" a"));
}

#[test]
fn do_not_extract_spaces1_when_input_does_not_start_with_them() {
    assert_eq!(
        message(extract_whitespace1("blah")),
        Err("expected a space".to_string())
    );
    assert_eq!(extract_whitespace1("blah"), Err(Error::ExpectedSpace));
}

#[test]
fn take_while_stops_at_the_first_refusal() {
    assert_eq!(take_while(|c| c == 'a', "aaba"), ("ba", "aa"));
    assert_eq!(take_while(is_ascii_digit, "2024-10"), ("-10", "2024"));
}

#[test]
fn take_while_may_take_nothing_or_everything() {
    assert_eq!(take_while(|c| c == 'a', "baa"), ("baa", ""));
    assert_eq!(take_while(|c| c == 'a', "aaa"), ("", "aaa"));
    assert_eq!(take_while(|c| c == 'a', ""), ("", ""));
    assert_eq!(take_while(|_| true, "anything at all"), ("", "anything at all"));
    assert_eq!(take_while(|_| false, "anything at all"), ("anything at all", ""));
}

#[test]
fn take_while_counts_characters_not_bytes() {
    assert_eq!(take_while(|c| !c.is_ascii(), "äöü-abc"), ("-abc", "äöü"));
    assert_eq!(take_while(|c| c.is_ascii(), "ab€cd"), ("€cd", "ab"));
    assert_eq!(take_while(is_ascii_digit, "12→34"), ("→34", "12"));
}

#[test]
fn take_while1_fails_with_the_given_error_on_an_empty_match() {
    assert_eq!(
        take_while1(|c| c == 'a', "baa", Error::ExpectedSpace),
        Err(Error::ExpectedSpace)
    );
    assert_eq!(
        take_while1(|c| c == 'a', "", Error::DivisionByZero),
        Err(Error::DivisionByZero)
    );
    assert_eq!(
        take_while1(|c| c == 'a', "aab", Error::ExpectedSpace),
        Ok(("b", "aa"))
    );
}

#[test]
fn tag_fails_when_the_literal_is_missing() {
    assert_eq!(
        tag("let", "lat a"),
        Err(Error::UnexpectedToken {
            expected: "let".to_string()
        })
    );
    assert_eq!(message(tag("let", "lat a")), Err("expected let".to_string()));
    assert_eq!(message(tag("let", "le")), Err("expected let".to_string()));
    assert_eq!(message(tag("let", "")), Err("expected let".to_string()));
    assert_eq!(message(tag("=", " =")), Err("expected =".to_string()));
}

#[test]
fn tag_takes_exactly_the_literal() {
    assert_eq!(tag("let", "let"), Ok(""));
    assert_eq!(tag("let", "letter"), Ok("ter"));
    assert_eq!(tag("", "abc"), Ok("abc"));
    assert_eq!(tag("", ""), Ok(""));
    assert_eq!(tag("λx", "λx.x"), Ok(".x"));
    assert_eq!(tag("abc", "abc"), Ok(""));
}

#[test]
fn extract_digits_takes_the_whole_run_and_leaves_the_rest() {
    for run in ["0", "7", "42", "007", "1234567890", "99999999999999999999"] {
        for rest in ["", " ", "+1", "a9", "-", "\t1", "٣"] {
            let input = format!("{run}{rest}");
            assert_eq!(extract_digits(&input), Ok((rest, run)));
        }
    }
    for rest in ["", " 1", "+1", "a9", "-", "\t1", "٣"] {
        assert_eq!(extract_digits(rest), Err(Error::ExpectedDigits));
    }
}

#[test]
fn digits_are_the_ten_ascii_digits_only() {
    assert_eq!(extract_digits("0123456789:"), Ok((":", "0123456789")));
    assert_eq!(extract_digits("/0"), Err(Error::ExpectedDigits));
    assert_eq!(extract_digits("１２"), Err(Error::ExpectedDigits));
}

#[test]
fn whitespace_is_the_space_character_only() {
    assert_eq!(extract_whitespace("  \t x"), ("\t x", "  "));
    assert_eq!(extract_whitespace("\n"), ("\n", ""));
    assert_eq!(extract_whitespace(""), ("", ""));
    assert_eq!(extract_whitespace("x "), ("x ", ""));
    assert_eq!(extract_whitespace1("\t"), Err(Error::ExpectedSpace));
    assert_eq!(extract_whitespace1(""), Err(Error::ExpectedSpace));
    assert_eq!(extract_whitespace1(" x"), Ok(("x", " ")));
    assert_eq!(extract_whitespace1("   "), Ok(("", "   ")));
}

#[test]
fn identifier_starts_with_a_letter() {
    for input in ["1abc", "0", "9z", "_a", " a", "", "-x", "éa"] {
        assert_eq!(extract_identifier(input), Err(Error::ExpectedIdentifier));
    }
    assert_eq!(extract_identifier("a"), Ok(("", "a")));
    assert_eq!(extract_identifier("Z9z9_"), Ok(("_", "Z9z9")));
    assert_eq!(extract_identifier("x1y2 z"), Ok((" z", "x1y2")));
    assert_eq!(extract_identifier("abcé"), Ok(("é", "abc")));
    assert_eq!(extract_identifier("a{"), Ok(("{", "a")));
    assert_eq!(extract_identifier("A["), Ok(("[", "A")));
    assert_eq!(extract_identifier("z@"), Ok(("@", "z")));
    assert_eq!(extract_identifier("`a"), Err(Error::ExpectedIdentifier));
}

#[test]
fn what_is_extracted_and_what_is_left_make_up_the_input() {
    for input in ["", "12ab", "ab12", "   x", "let a = 1", "äö 1"] {
        let (remainder, extracted) = extract_whitespace(input);
        assert_eq!(format!("{extracted}{remainder}"), input);
        if let Ok((remainder, extracted)) = extract_digits(input) {
            assert_eq!(format!("{extracted}{remainder}"), input);
        }
        if let Ok((remainder, extracted)) = extract_identifier(input) {
            assert_eq!(format!("{extracted}{remainder}"), input);
        }
        if let Ok(remainder) = tag("le", input) {
            assert_eq!(format!("le{remainder}"), input);
        }
    }
}
