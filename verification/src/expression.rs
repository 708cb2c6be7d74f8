//! Number literals, the four operators, and expressions of one operator
//! application or one literal.

use crate::error::{eval_view, Error, ErrorView};
use crate::utils::{
    digits, extract_digits, extract_whitespace, is_digit, is_digits, is_padding,
    law_scan_leaves_a_suffix,
    lemma_run_before_rest, lemma_run_len_is_longest, lemma_suffix_of_suffix, parse_view, spaces,
    spec_extract_digits, spec_extract_whitespace, tag,
};
use crate::value::Value;
use std::str::Chars;
use vstd::prelude::*;
use vstd::std_specs::iter::IteratorSpec;
use vstd::string::*;

verus! {

/// A number literal.
#[derive(Debug, Clone, Copy, PartialEq, Eq)]
pub struct Number(pub i32);

/// One of the four binary operators.
#[derive(Debug, Clone, Copy, PartialEq, Eq)]
pub enum Operation {
    /// Written `+`.
    Addition,
    /// Written `-`.
    Subtraction,
    /// Written `*`.
    Multiplication,
    /// Written `/`.
    Division,
}

/// A number literal, or one operator applied to two number literals.
#[derive(Debug, Clone, Copy, PartialEq, Eq)]
pub enum Expression {
    /// A literal alone.
    Number(Number),
    /// `lhs op rhs`.
    Operation { lhs: Number, rhs: Number, op: Operation },
}

/// The digit that `c` stands for.
pub open spec fn digit_value(c: char) -> nat
    recommends
        is_digit(c),
{
    (c as int - '0' as int) as nat
}

/// The number that a run of decimal digits denotes, leading zeros allowed.
pub open spec fn decimal_value(run: Seq<char>) -> nat
    decreases run.len(),
{
    if run.len() == 0 {
        0
    } else {
        10 * decimal_value(run.drop_last()) + digit_value(run.last())
    }
}

/// A prefix of a run of digits denotes no more than the run.
pub proof fn lemma_decimal_value_of_prefix(run: Seq<char>, n: int)
    requires
        0 <= n <= run.len(),
    ensures
        decimal_value(run.take(n)) <= decimal_value(run),
    decreases run.len() - n,
{
    if n == run.len() {
        assert(run.take(n) =~= run);
    } else {
        lemma_decimal_value_of_prefix(run, n + 1);
        assert(run.take(n + 1).drop_last() =~= run.take(n));
    }
}

/// The grammar of a number literal: a run of digits whose value fits in 32
/// bits, signed.
pub open spec fn spec_number(s: Seq<char>) -> Result<(Seq<char>, Number), ErrorView> {
    match spec_extract_digits(s) {
        Ok((remainder, run)) => if decimal_value(run) <= i32::MAX {
            Ok((remainder, Number(decimal_value(run) as i32)))
        } else {
            Err(ErrorView::ArithmeticOverflow)
        },
        Err(e) => Err(e),
    }
}

impl Number {
    /// Parses the leading run of digits of `string` as a number literal.
    ///
    /// Fails where `string` starts with no digit, and where the run denotes a
    /// number above `i32::MAX`.
    pub fn new(string: &str) -> (r: Result<(&str, Self), Error>)
        ensures
            parse_view(r) == spec_number(string@),
    {
        let (remainder, run) = match extract_digits(string) {
            Ok(found) => found,
            Err(e) => {
                return Err(e);
            },
        };
        let total: usize = run.unicode_len();
        let mut chars: Chars<'_> = run.chars();
        let mut value: i32 = 0;
        let mut read: usize = 0;
        proof {
            lemma_run_len_is_longest(string@, digits());
        }
        loop
            invariant_except_break
                chars.remaining() == run@.skip(read as int),
            invariant
                read <= total == run@.len(),
                spec_extract_digits(string@) == Ok::<_, ErrorView>((remainder@, run@)),
                forall|i: int| 0 <= i < run@.len() ==> is_digit(#[trigger] run@[i]),
                value == decimal_value(run@.take(read as int)),
            ensures
                read == total,
            decreases total - read,
        {
            match chars.next() {
                None => {
                    break ;
                },
                Some(c) => {
                    assert(c == run@[read as int]);
                    let digit: i32 = (c as u32 - '0' as u32) as i32;
                    proof {
                        assert(run@.take(read + 1).drop_last() =~= run@.take(read as int));
                        lemma_decimal_value_of_prefix(run@, read + 1);
                    }
                    let scaled: i32 = match value.checked_mul(10) {
                        Some(scaled) => scaled,
                        None => {
                            return Err(Error::ArithmeticOverflow);
                        },
                    };
                    value = match scaled.checked_add(digit) {
                        Some(sum) => sum,
                        None => {
                            return Err(Error::ArithmeticOverflow);
                        },
                    };
                    read = read + 1;
                },
            }
        }
        assert(run@.take(read as int) =~= run@);
        Ok((remainder, Number(value)))
    }
}

impl Operation {
    /// The character that the operation is written with.
    pub open spec fn symbol(self) -> char {
        match self {
            Operation::Addition => '+',
            Operation::Subtraction => '-',
            Operation::Multiplication => '*',
            Operation::Division => '/',
        }
    }

    /// The operation on the integers, before any bound of the machine:
    /// division rounds towards zero.
    pub open spec fn apply(self, lhs: int, rhs: int) -> int
        recommends
            self == Operation::Division ==> rhs != 0,
    {
        match self {
            Operation::Addition => lhs + rhs,
            Operation::Subtraction => lhs - rhs,
            Operation::Multiplication => lhs * rhs,
            Operation::Division => truncated_quotient(lhs, rhs),
        }
    }
}

/// The quotient of `lhs` by `rhs`, rounded towards zero.
pub open spec fn truncated_quotient(lhs: int, rhs: int) -> int
    recommends
        rhs != 0,
{
    if lhs >= 0 && rhs > 0 {
        lhs / rhs
    } else if lhs < 0 && rhs < 0 {
        (-lhs) / (-rhs)
    } else if lhs < 0 {
        -((-lhs) / rhs)
    } else {
        -(lhs / (-rhs))
    }
}

/// The operation that `c` is the symbol of, if it is one of the four.
pub open spec fn operation_of(c: char) -> Option<Operation> {
    if c == '+' {
        Some(Operation::Addition)
    } else if c == '-' {
        Some(Operation::Subtraction)
    } else if c == '*' {
        Some(Operation::Multiplication)
    } else if c == '/' {
        Some(Operation::Division)
    } else {
        None
    }
}

/// The grammar of an operator: one of the four symbols.
pub open spec fn spec_operation(s: Seq<char>) -> Result<(Seq<char>, Operation), ErrorView> {
    if s.len() > 0 && operation_of(s[0]) is Some {
        Ok((s.skip(1), operation_of(s[0])->0))
    } else {
        Err(ErrorView::ExpectedOperator)
    }
}

/// A literal of one character is what the input starts with exactly where
/// the input's first character is that one.
proof fn lemma_tag_of_one_char(literal: Seq<char>, s: Seq<char>)
    requires
        literal.len() == 1,
    ensures
        literal.is_prefix_of(s) <==> s.len() > 0 && s[0] == literal[0],
{
    if s.len() > 0 && s[0] == literal[0] {
        assert(literal =~= s.subrange(0, 1));
    }
    if literal.is_prefix_of(s) {
        assert(literal[0] == s.subrange(0, 1)[0]);
    }
}

impl Operation {
    /// Parses the operator that `string` starts with.
    ///
    /// Fails where `string` starts with none of the four symbols.
    pub fn new(string: &str) -> (r: Result<(&str, Self), Error>)
        ensures
            parse_view(r) == spec_operation(string@),
    {
        proof {
            reveal_strlit("+");
            reveal_strlit("-");
            reveal_strlit("*");
            reveal_strlit("/");
            lemma_tag_of_one_char("+"@, string@);
            lemma_tag_of_one_char("-"@, string@);
            lemma_tag_of_one_char("*"@, string@);
            lemma_tag_of_one_char("/"@, string@);
        }
        if let Ok(remainder) = tag("+", string) {
            return Ok((remainder, Operation::Addition));
        }
        if let Ok(remainder) = tag("-", string) {
            return Ok((remainder, Operation::Subtraction));
        }
        if let Ok(remainder) = tag("*", string) {
            return Ok((remainder, Operation::Multiplication));
        }
        if let Ok(remainder) = tag("/", string) {
            return Ok((remainder, Operation::Division));
        }
        Err(Error::ExpectedOperator)
    }
}

/// The grammar of the binary form: a number, an operator and a number, with
/// any number of spaces on either side of the operator.
pub open spec fn spec_binary(s: Seq<char>) -> Result<(Seq<char>, Expression), ErrorView> {
    match spec_number(s) {
        Err(e) => Err(e),
        Ok((after_lhs, lhs)) => match spec_operation(spec_extract_whitespace(after_lhs).0) {
            Err(e) => Err(e),
            Ok((after_op, op)) => match spec_number(spec_extract_whitespace(after_op).0) {
                Err(e) => Err(e),
                Ok((remainder, rhs)) => Ok((remainder, Expression::Operation { lhs, rhs, op })),
            },
        },
    }
}

/// The grammar of the bare form: a number alone.
pub open spec fn spec_bare_number(s: Seq<char>) -> Result<(Seq<char>, Expression), ErrorView> {
    match spec_number(s) {
        Err(e) => Err(e),
        Ok((remainder, number)) => Ok((remainder, Expression::Number(number))),
    }
}

/// The grammar of an expression: the binary form where the input has it,
/// else the bare form, read from the start of the input again.
pub open spec fn spec_expression(s: Seq<char>) -> Result<(Seq<char>, Expression), ErrorView> {
    match spec_binary(s) {
        Ok(found) => Ok(found),
        Err(_) => spec_bare_number(s),
    }
}

/// What an expression evaluates to: the literal itself, or the result of the
/// operation where it is defined and fits in 32 bits, signed.
pub open spec fn spec_evaluate(e: Expression) -> Result<Value, ErrorView> {
    match e {
        Expression::Number(Number(n)) => Ok(Value::Number(n)),
        Expression::Operation { lhs, rhs, op } => if op == Operation::Division && rhs.0 == 0 {
            Err(ErrorView::DivisionByZero)
        } else if i32::MIN <= op.apply(lhs.0 as int, rhs.0 as int) <= i32::MAX {
            Ok(Value::Number(op.apply(lhs.0 as int, rhs.0 as int) as i32))
        } else {
            Err(ErrorView::ArithmeticOverflow)
        },
    }
}

impl Expression {
    /// Parses an expression: the binary form is tried first, and where it
    /// fails the bare number, from the start of `string`.
    ///
    /// Fails where `string` starts with no number literal, with the failure
    /// of the bare form.
    pub fn new(string: &str) -> (r: Result<(&str, Self), Error>)
        ensures
            parse_view(r) == spec_expression(string@),
    {
        match Self::new_operation(string) {
            Ok(found) => Ok(found),
            Err(_) => Self::new_number(string),
        }
    }

    /// Parses the binary form: a number, an operator and a number, with any
    /// number of spaces on either side of the operator.
    pub fn new_operation(string: &str) -> (r: Result<(&str, Self), Error>)
        ensures
            parse_view(r) == spec_binary(string@),
    {
        let (string, lhs) = Number::new(string)?;
        let (string, _) = extract_whitespace(string);

        let (string, op) = Operation::new(string)?;
        let (string, _) = extract_whitespace(string);

        let (string, rhs) = Number::new(string)?;

        Ok((string, Expression::Operation { lhs, rhs, op }))
    }

    /// Parses the bare form: a number alone.
    pub fn new_number(string: &str) -> (r: Result<(&str, Self), Error>)
        ensures
            parse_view(r) == spec_bare_number(string@),
    {
        match Number::new(string) {
            Ok((remainder, number)) => Ok((remainder, Expression::Number(number))),
            Err(e) => Err(e),
        }
    }

    /// Evaluates the expression.
    ///
    /// Fails with `DivisionByZero` where it divides by zero, and with
    /// `ArithmeticOverflow` where the result does not fit in 32 bits.
    pub fn evaluate(&self) -> (r: Result<Value, Error>)
        ensures
            eval_view(r) == spec_evaluate(*self),
    {
        match self {
            Expression::Number(Number(n)) => Ok(Value::Number(*n)),
            Expression::Operation { lhs, rhs, op } => {
                let Number(lhs) = lhs;
                let Number(rhs) = rhs;

                let result = match op {
                    Operation::Addition => lhs.checked_add(*rhs),
                    Operation::Subtraction => lhs.checked_sub(*rhs),
                    Operation::Multiplication => lhs.checked_mul(*rhs),
                    Operation::Division => {
                        if *rhs == 0 {
                            return Err(Error::DivisionByZero);
                        }
                        lhs.checked_div(*rhs)
                    },
                };
                match result {
                    Some(n) => Ok(Value::Number(n)),
                    None => Err(Error::ArithmeticOverflow),
                }
            },
        }
    }
}

/// `run` is a number literal: digits only, at least one, and a value that
/// fits in 32 bits, signed.
pub open spec fn is_number_literal(run: Seq<char>) -> bool {
    &&& run.len() > 0
    &&& is_digits(run)
    &&& decimal_value(run) <= i32::MAX
}

/// A number literal in front of a rest that does not start with a digit is
/// parsed whole, to its decimal value, and leaves that rest.
pub proof fn law_number_takes_the_literal(run: Seq<char>, rest: Seq<char>)
    requires
        is_number_literal(run),
        rest.len() > 0 ==> !is_digit(rest[0]),
    ensures
        spec_number(run + rest) == Ok::<_, ErrorView>(
            (rest, Number(decimal_value(run) as i32)),
        ),
{
    lemma_run_before_rest(run, rest, digits());
}

/// Each operation has one symbol and each symbol one operation, and parsing
/// an operator consumes exactly that one character.
pub proof fn law_operation_is_one_symbol(op: Operation, c: char, rest: Seq<char>)
    ensures
        operation_of(op.symbol()) == Some(op),
        operation_of(c) == Some(op) <==> c == op.symbol(),
        spec_operation(seq![op.symbol()] + rest) == Ok::<_, ErrorView>((rest, op)),
        operation_of(c) is None ==> spec_operation(seq![c] + rest) == Err::<
            (Seq<char>, Operation),
            _,
        >(ErrorView::ExpectedOperator),
{
    assert((seq![op.symbol()] + rest).skip(1) =~= rest);
}

/// Two number literals with an operator between them parse to the same
/// binary expression whatever the number of spaces on either side of the
/// operator, none included, and leave what follows the second literal.
pub proof fn law_expression_ignores_padding(
    lhs: Seq<char>,
    before: Seq<char>,
    op: Operation,
    after: Seq<char>,
    rhs: Seq<char>,
    rest: Seq<char>,
)
    requires
        is_number_literal(lhs),
        is_padding(before),
        is_padding(after),
        is_number_literal(rhs),
        rest.len() > 0 ==> !is_digit(rest[0]),
    ensures
        spec_expression(lhs + before + seq![op.symbol()] + after + rhs + rest) == Ok::<
            _,
            ErrorView,
        >(
            (
                rest,
                Expression::Operation {
                    lhs: Number(decimal_value(lhs) as i32),
                    rhs: Number(decimal_value(rhs) as i32),
                    op,
                },
            ),
        ),
{
    let s = lhs + before + seq![op.symbol()] + after + rhs + rest;
    let at_rhs = rhs + rest;
    let after_op = after + at_rhs;
    let at_op = seq![op.symbol()] + after_op;
    let after_lhs = before + at_op;
    assert(s =~= lhs + after_lhs);
    assert(at_op[0] == op.symbol());
    assert(after_lhs[0] == if before.len() > 0 {
        before[0]
    } else {
        op.symbol()
    });
    law_number_takes_the_literal(lhs, after_lhs);
    lemma_run_before_rest(before, at_op, spaces());
    law_operation_is_one_symbol(op, op.symbol(), after_op);
    assert(at_rhs[0] == rhs[0]);
    lemma_run_before_rest(after, at_rhs, spaces());
    law_number_takes_the_literal(rhs, rest);
}

/// An expression is parsed exactly where a number literal is: the input
/// then has the bare form at least, and else the failure is that of the
/// number.
pub proof fn law_expression_needs_a_number(s: Seq<char>)
    ensures
        spec_expression(s) is Ok <==> spec_number(s) is Ok,
        spec_number(s) matches Err(e) ==> spec_expression(s) == Err::<
            (Seq<char>, Expression),
            _,
        >(e),
{
}

/// What a parser of an expression or of a part of one leaves is a suffix of
/// its input.
pub proof fn law_remainder_is_a_suffix(s: Seq<char>)
    ensures
        spec_number(s) matches Ok((remainder, _)) ==> remainder.is_suffix_of(s),
        spec_operation(s) matches Ok((remainder, _)) ==> remainder.is_suffix_of(s),
        spec_binary(s) matches Ok((remainder, _)) ==> remainder.is_suffix_of(s),
        spec_bare_number(s) matches Ok((remainder, _)) ==> remainder.is_suffix_of(s),
        spec_expression(s) matches Ok((remainder, _)) ==> remainder.is_suffix_of(s),
{
    let none = Seq::<char>::empty();
    law_scan_leaves_a_suffix(s, none);
    if let Ok((after_lhs, _)) = spec_number(s) {
        let at_op = spec_extract_whitespace(after_lhs).0;
        law_scan_leaves_a_suffix(after_lhs, none);
        lemma_suffix_of_suffix(at_op, after_lhs, s);
        if let Ok((after_op, _)) = spec_operation(at_op) {
            lemma_operation_leaves_a_suffix(at_op);
            lemma_suffix_of_suffix(after_op, at_op, s);
            let at_rhs = spec_extract_whitespace(after_op).0;
            law_scan_leaves_a_suffix(after_op, none);
            lemma_suffix_of_suffix(at_rhs, after_op, s);
            if let Ok((remainder, _)) = spec_number(at_rhs) {
                law_scan_leaves_a_suffix(at_rhs, none);
                lemma_suffix_of_suffix(remainder, at_rhs, s);
            }
        }
    }
    lemma_operation_leaves_a_suffix(s);
}

/// Parsing an operator leaves a suffix of the input.
proof fn lemma_operation_leaves_a_suffix(s: Seq<char>)
    ensures
        spec_operation(s) matches Ok((remainder, _)) ==> remainder.is_suffix_of(s),
{
    if s.len() > 0 {
        assert(s.skip(1) =~= s.subrange(s.len() - s.skip(1).len(), s.len() as int));
    }
}

} // verus!
