//! Entities that an interactive `select` command can pick by a `key=value`
//! filter.

use vstd::prelude::*;
use crate::repl::Filter;

verus! {

pub trait Filterable {
    /// What it means for this entity to match a filter.
    spec fn spec_matches_filter(&self, filter: Filter) -> bool;

    /// Whether this entity matches the given filter.
    fn inner_filter(&self, filter: &Filter) -> (r: bool)
        ensures
            r == self.spec_matches_filter(*filter),
        ;

    /// Whether this entity passes an optional filter; no filter matches all.
    fn filter(&self, filter: &Option<Filter>) -> (r: bool)
        ensures
            r == match *filter {
                Option::None => true,
                Option::Some(f) => self.spec_matches_filter(f),
            },
    {
        match filter {
            Option::None => true,
            Option::Some(f) => self.inner_filter(f),
        }
    }
}

} // verus!
