//! The use of a binding: a bare name, looked up when it is evaluated.

use crate::environment::{spec_lookup, Enviroment};
use crate::error::{eval_view, Error, ErrorView};
use crate::utils::{
    extract_identifier, is_alphanumeric, is_identifier, law_extract_identifier_takes_the_name,
    law_scan_leaves_a_suffix, parse_view_of, spec_extract_identifier,
};
use crate::value::Value;
use vstd::prelude::*;
use vstd::string::*;

verus! {

/// A reference to a binding by its name.
#[derive(Debug, PartialEq, Eq)]
pub struct BindingUsage {
    pub name: String,
}

/// A [`BindingUsage`] with its name taken as a sequence of characters.
pub struct BindingUsageView {
    pub name: Seq<char>,
}

impl View for BindingUsage {
    type V = BindingUsageView;

    open spec fn view(&self) -> BindingUsageView {
        BindingUsageView { name: self.name@ }
    }
}

/// The grammar of a binding usage: an identifier.
pub open spec fn spec_binding_usage(s: Seq<char>) -> Result<
    (Seq<char>, BindingUsageView),
    ErrorView,
> {
    match spec_extract_identifier(s) {
        Err(e) => Err(e),
        Ok((remainder, name)) => Ok((remainder, BindingUsageView { name })),
    }
}

impl BindingUsage {
    /// Parses the identifier that `string` starts with as the name of a
    /// binding. The name is not looked up.
    ///
    /// Fails where `string` does not start with a letter.
    pub fn new(string: &str) -> (r: Result<(&str, Self), Error>)
        ensures
            parse_view_of(r) == spec_binding_usage(string@),
    {
        let (string, name) = extract_identifier(string)?;

        Ok((string, BindingUsage { name: name.to_owned() }))
    }

    /// Looks up the value that the name is bound to in `enviroment`.
    ///
    /// Fails with `UnknownBinding`, which names the binding, where nothing
    /// is bound to the name.
    pub fn eval(&self, enviroment: &Enviroment) -> (r: Result<Value, Error>)
        ensures
            eval_view(r) == spec_lookup(enviroment@, self.name@),
    {
        enviroment.get_binding_value(self.name.as_str())
    }
}

/// An identifier in front of a rest that does not start with a letter or a
/// digit is parsed as the name of a binding and leaves that rest.
pub proof fn law_binding_usage_takes_the_name(name: Seq<char>, rest: Seq<char>)
    requires
        is_identifier(name),
        rest.len() > 0 ==> !is_alphanumeric(rest[0]),
    ensures
        spec_binding_usage(name + rest) == Ok::<_, ErrorView>(
            (rest, BindingUsageView { name }),
        ),
{
    law_extract_identifier_takes_the_name(name, rest);
}

/// What the parser of a binding usage leaves is a suffix of its input.
pub proof fn law_usage_remainder_is_a_suffix(s: Seq<char>)
    ensures
        spec_binding_usage(s) matches Ok((remainder, _)) ==> remainder.is_suffix_of(s),
{
    law_scan_leaves_a_suffix(s, Seq::<char>::empty());
}

} // verus!
