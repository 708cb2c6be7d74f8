//! The definition of a binding: `let`, a name, `=` and an expression.

use crate::environment::Enviroment;
use crate::error::{eval_view, Error, ErrorView};
use crate::expression::{law_remainder_is_a_suffix, spec_evaluate, spec_expression, Expression};
use crate::utils::{
    extract_identifier, extract_whitespace, extract_whitespace1, is_identifier, is_padding,
    is_space, law_extract_identifier_takes_the_name, law_extract_whitespace_takes_the_padding,
    law_scan_leaves_a_suffix, law_tag_takes_the_literal, lemma_suffix_of_suffix, parse_view_of,
    spec_extract_identifier, spec_extract_whitespace, spec_extract_whitespace1, spec_tag, tag,
};
use vstd::prelude::*;
use vstd::string::*;

verus! {

/// A name and the expression whose value it is to be bound to.
#[derive(Debug, PartialEq, Eq)]
pub struct BindingDef {
    pub name: String,
    pub val: Expression,
}

/// A [`BindingDef`] with its name taken as a sequence of characters.
pub struct BindingDefView {
    pub name: Seq<char>,
    pub val: Expression,
}

impl View for BindingDef {
    type V = BindingDefView;

    open spec fn view(&self) -> BindingDefView {
        BindingDefView { name: self.name@, val: self.val }
    }
}

/// The grammar of a binding definition: `let`, at least one space, an
/// identifier, `=` and an expression, with any number of spaces on either
/// side of `=`.
pub open spec fn spec_binding_def(s: Seq<char>) -> Result<
    (Seq<char>, BindingDefView),
    ErrorView,
> {
    match spec_tag("let"@, s) {
        Err(e) => Err(e),
        Ok(after_let) => match spec_extract_whitespace1(after_let) {
            Err(e) => Err(e),
            Ok((at_name, _)) => match spec_extract_identifier(at_name) {
                Err(e) => Err(e),
                Ok((after_name, name)) => match spec_tag(
                    "="@,
                    spec_extract_whitespace(after_name).0,
                ) {
                    Err(e) => Err(e),
                    Ok(after_equals) => match spec_expression(
                        spec_extract_whitespace(after_equals).0,
                    ) {
                        Err(e) => Err(e),
                        Ok((remainder, val)) => Ok((remainder, BindingDefView { name, val })),
                    },
                },
            },
        },
    }
}

impl BindingDef {
    /// Parses a binding definition. The expression is not evaluated.
    ///
    /// Fails with the failure of the first part of the definition that
    /// `string` does not have.
    pub fn new(string: &str) -> (r: Result<(&str, Self), Error>)
        ensures
            parse_view_of(r) == spec_binding_def(string@),
    {
        let string = tag("let", string)?;
        let (string, _) = extract_whitespace1(string)?;

        let (string, name) = extract_identifier(string)?;
        let (string, _) = extract_whitespace(string);

        let string = tag("=", string)?;
        let (string, _) = extract_whitespace(string);

        let (string, value) = Expression::new(string)?;

        Ok((string, BindingDef { name: name.to_owned(), val: value }))
    }

    /// Evaluates the expression and binds the name to its value in
    /// `environment`, in place of any value the name was bound to.
    ///
    /// Fails as the evaluation of the expression does, and then leaves
    /// `environment` as it was.
    pub fn evaluate(&self, environment: &mut Enviroment) -> (r: Result<(), Error>)
        ensures
            match spec_evaluate(self.val) {
                Ok(value) => r is Ok && final(environment)@ == old(environment)@.insert(
                    self.name@,
                    value,
                ),
                Err(e) => eval_view(r) == Err::<(), ErrorView>(e) && final(environment)@ == old(
                    environment,
                )@,
            },
    {
        let value = self.val.evaluate()?;
        environment.store_binding(self.name.clone(), value);
        Ok(())
    }
}

/// A definition is read part by part: after `let`, at least one space, a
/// name, `=` with any number of spaces on either side, what follows is read
/// as an expression, whose outcome decides that of the definition.
pub proof fn law_binding_def_reads_its_parts(
    gap: Seq<char>,
    name: Seq<char>,
    before: Seq<char>,
    after: Seq<char>,
    text: Seq<char>,
)
    requires
        gap.len() > 0,
        is_padding(gap),
        is_identifier(name),
        is_padding(before),
        is_padding(after),
        text.len() > 0 ==> !is_space(text[0]),
    ensures
        spec_binding_def("let"@ + gap + name + before + "="@ + after + text) == match spec_expression(
            text,
        ) {
            Ok((remainder, val)) => Ok((remainder, BindingDefView { name, val })),
            Err(e) => Err(e),
        },
{
    reveal_strlit("=");
    let s = "let"@ + gap + name + before + "="@ + after + text;
    let after_equals = after + text;
    let at_equals = "="@ + after_equals;
    let after_name = before + at_equals;
    let at_name = name + after_name;
    let after_let = gap + at_name;
    assert(s =~= "let"@ + after_let);
    law_tag_takes_the_literal("let"@, after_let);
    assert(at_name[0] == name[0]);
    law_extract_whitespace_takes_the_padding(gap, at_name);
    assert(at_equals[0] == '=');
    assert(after_name[0] == if before.len() > 0 {
        before[0]
    } else {
        '='
    });
    law_extract_identifier_takes_the_name(name, after_name);
    law_extract_whitespace_takes_the_padding(before, at_equals);
    law_tag_takes_the_literal("="@, after_equals);
    law_extract_whitespace_takes_the_padding(after, text);
}

/// Without a space after `let` there is no definition: the parse fails for
/// want of a space, whatever else follows.
pub proof fn law_let_needs_a_space(rest: Seq<char>)
    requires
        rest.len() > 0 ==> !is_space(rest[0]),
    ensures
        spec_binding_def("let"@ + rest) == Err::<(Seq<char>, BindingDefView), _>(
            ErrorView::ExpectedSpace,
        ),
{
    law_tag_takes_the_literal("let"@, rest);
    law_extract_whitespace_takes_the_padding(Seq::<char>::empty(), rest);
    assert(Seq::<char>::empty() + rest =~= rest);
}

/// What the parser of a binding definition leaves is a suffix of its input.
pub proof fn law_definition_remainder_is_a_suffix(s: Seq<char>)
    ensures
        spec_binding_def(s) matches Ok((remainder, _)) ==> remainder.is_suffix_of(s),
{
    if let Ok((remainder, _)) = spec_binding_def(s) {
        let after_let = spec_tag("let"@, s)->Ok_0;
        let at_name = spec_extract_whitespace1(after_let)->Ok_0.0;
        let after_name = spec_extract_identifier(at_name)->Ok_0.0;
        let at_equals = spec_extract_whitespace(after_name).0;
        let after_equals = spec_tag("="@, at_equals)->Ok_0;
        let at_value = spec_extract_whitespace(after_equals).0;
        law_scan_leaves_a_suffix(s, "let"@);
        law_scan_leaves_a_suffix(after_let, "let"@);
        lemma_suffix_of_suffix(at_name, after_let, s);
        law_scan_leaves_a_suffix(at_name, "let"@);
        lemma_suffix_of_suffix(after_name, at_name, s);
        law_scan_leaves_a_suffix(after_name, "let"@);
        lemma_suffix_of_suffix(at_equals, after_name, s);
        law_scan_leaves_a_suffix(at_equals, "="@);
        lemma_suffix_of_suffix(after_equals, at_equals, s);
        law_scan_leaves_a_suffix(after_equals, "="@);
        lemma_suffix_of_suffix(at_value, after_equals, s);
        law_remainder_is_a_suffix(at_value);
        lemma_suffix_of_suffix(remainder, at_value, s);
    }
}

} // verus!
