//! The bindings that evaluation stores and looks up.

use crate::error::{eval_view, Error, ErrorView};
use crate::value::Value;
use vstd::hash_map::StringHashMap;
use vstd::prelude::*;
use vstd::string::*;

verus! {

/// A table from binding names to values. A name has at most one value: the
/// one that was stored last.
pub struct Enviroment {
    bindings: StringHashMap<Value>,
}

impl View for Enviroment {
    type V = Map<Seq<char>, Value>;

    closed spec fn view(&self) -> Map<Seq<char>, Value> {
        self.bindings@
    }
}

/// What a lookup of `name` in `bindings` returns.
pub open spec fn spec_lookup(bindings: Map<Seq<char>, Value>, name: Seq<char>) -> Result<
    Value,
    ErrorView,
> {
    if bindings.contains_key(name) {
        Ok(bindings[name])
    } else {
        Err(ErrorView::UnknownBinding { name })
    }
}

impl Default for Enviroment {
    /// An environment without bindings.
    fn default() -> (environment: Self)
        ensures
            environment@ == Map::<Seq<char>, Value>::empty(),
    {
        Enviroment { bindings: StringHashMap::new() }
    }
}

impl Enviroment {
    /// Binds `name` to `value`, in place of any value it was bound to.
    pub fn store_binding(&mut self, name: String, value: Value)
        ensures
            final(self)@ == old(self)@.insert(name@, value),
    {
        self.bindings.insert(name, value);
    }

    /// Looks up the value that `name` is bound to.
    ///
    /// Fails with `UnknownBinding`, which names `name`, where nothing is
    /// bound to it.
    pub fn get_binding_value(&self, name: &str) -> (r: Result<Value, Error>)
        ensures
            eval_view(r) == spec_lookup(self@, name@),
    {
        match self.bindings.get(name) {
            Some(value) => Ok(*value),
            None => Err(Error::UnknownBinding { name: name.to_owned() }),
        }
    }
}

/// A lookup finds what was stored last under the name, and a store under one
/// name leaves the lookups of all other names as they were.
pub proof fn law_lookup_after_store(
    bindings: Map<Seq<char>, Value>,
    name: Seq<char>,
    value: Value,
    other: Seq<char>,
)
    ensures
        spec_lookup(bindings.insert(name, value), name) == Ok::<Value, ErrorView>(value),
        other != name ==> spec_lookup(bindings.insert(name, value), other) == spec_lookup(
            bindings,
            other,
        ),
{
}

/// A lookup in an environment without bindings fails, whatever the name, and
/// the failure names it.
pub proof fn law_lookup_in_empty(name: Seq<char>)
    ensures
        spec_lookup(Map::<Seq<char>, Value>::empty(), name) == Err::<Value, ErrorView>(
            ErrorView::UnknownBinding { name },
        ),
{
}

} // verus!
