//! Source repositories of a pipeline, in draft and validated form.

use vstd::prelude::*;
use vstd::string::*;
use crate::{Value, ValidationError, SelectError};
use crate::filterable::Filterable;
use crate::repl::{Filter, Frame};
use crate::text::string_is;

verus! {

/// A draft repository: a clone URL that may still be unset.
#[derive(Debug, Clone)]
pub struct Repo {
    pub url: Value<String>,
}

/// A repository whose URL is known.
#[derive(Debug, Clone)]
pub struct ValidatedRepo {
    pub url: String,
}

/// The draft collection of repositories.
#[derive(Debug, Clone)]
pub struct Repos {
    pub vec: Vec<Repo>,
}

/// The validated collection of repositories.
#[derive(Debug, Clone)]
pub struct ValidatedRepos {
    pub vec: Vec<ValidatedRepo>,
}

impl Default for Repo {
    /// A fresh draft repository with no URL yet.
    fn default() -> (r: Repo)
        ensures
            r.url is Unset,
    {
        Repo { url: Value::Unset }
    }
}

/// The display name of a draft repository.
pub open spec fn spec_repo_name(r: Repo) -> Seq<char> {
    match r.url {
        Value::Unset => "repo"@,
        Value::Given(v) => "repo("@ + v@ + ")"@,
    }
}

impl Repo {
    /// Checks that the URL is set and freezes the draft.
    pub fn validate(&self) -> (r: Result<ValidatedRepo, ValidationError>)
        ensures
            match r {
                Ok(v) => self.url is Given && v.url@ == self.url->Given_0@,
                Err(e) => self.url is Unset && e == ValidationError::UnsetField,
            },
    {
        match self.url.ensure() {
            Ok(url) => Ok(ValidatedRepo { url: url.clone() }),
            Err(e) => Err(e),
        }
    }

    /// The name shown for this entity in the editor prompt.
    pub fn name(&self) -> (r: String)
        ensures
            r@ == spec_repo_name(*self),
    {
        match &self.url {
            Value::Unset => String::from_str("repo"),
            Value::Given(v) => {
                let mut s = String::from_str("repo(");
                s.append(v.as_str());
                s.append(")");
                s
            }
        }
    }

    /// Sets one attribute of the draft; only `url` is known.
    pub fn set(&mut self, key: String, value: String) -> (r: Result<(), ValidationError>)
        ensures
            match r {
                Ok(()) => key@ == "url"@ && final(self).url == Value::Given(value),
                Err(e) => key@ != "url"@ && e == ValidationError::UnknownAttribute(key)
                    && *final(self) == *old(self),
            },
    {
        if string_is(&key, "url") {
            self.url = Value::Given(value);
            Ok(())
        } else {
            Err(ValidationError::UnknownAttribute(key))
        }
    }
}

impl Filterable for Repo {
    open spec fn spec_matches_filter(&self, filter: Filter) -> bool {
        filter.key@ == "url"@ && self.url is Given && self.url->Given_0@ == filter.value@
    }

    fn inner_filter(&self, filter: &Filter) -> (r: bool) {
        if string_is(&filter.key, "url") {
            match &self.url {
                Value::Given(v) => *v == filter.value,
                Value::Unset => false,
            }
        } else {
            false
        }
    }
}

impl Repos {
    /// An empty draft collection.
    pub fn new() -> (r: Repos)
        ensures
            r.vec@.len() == 0,
    {
        Repos { vec: Vec::new() }
    }

    /// Appends a fresh draft repository and returns a frame addressing it.
    pub fn add_empty(&mut self) -> (r: Frame)
        ensures
            final(self).vec@.len() == old(self).vec@.len() + 1,
            final(self).vec@.subrange(0, old(self).vec@.len() as int) == old(self).vec@,
            final(self).vec@.last().url is Unset,
            r == Frame::Repo(old(self).vec@.len() as usize),
    {
        let idx = self.vec.len();
        self.vec.push(Repo::default());
        proof {
            assert(self.vec@.subrange(0, old(self).vec@.len() as int) =~= old(self).vec@);
        }
        Frame::Repo(idx)
    }

    /// Picks the unique repository matching the filter.
    pub fn select(&self, filter: &Option<Filter>) -> (r: Result<Frame, SelectError>)
        ensures
            match r {
                Ok(f) => match f {
                    Frame::Repo(i) => i < self.vec@.len()
                        && passes_repo(self.vec@[i as int], *filter)
                        && forall|j: int| 0 <= j < self.vec@.len() && j != i
                            ==> !passes_repo(self.vec@[j], *filter),
                    _ => false,
                },
                Err(SelectError::NoMatch) =>
                    forall|j: int| 0 <= j < self.vec@.len() ==> !passes_repo(self.vec@[j], *filter),
                Err(SelectError::AmbiguousMatch) => exists|i: int, j: int|
                    0 <= i < j < self.vec@.len()
                    && passes_repo(self.vec@[i], *filter) && passes_repo(self.vec@[j], *filter),
                Err(_) => false,
            },
    {
        let mut found: Option<usize> = Option::None;
        let mut i: usize = 0;
        while i < self.vec.len()
            invariant
                i <= self.vec@.len(),
                match found {
                    Option::Some(k) => k < i && passes_repo(self.vec@[k as int], *filter)
                        && forall|j: int| 0 <= j < i && j != k
                            ==> !passes_repo(self.vec@[j], *filter),
                    Option::None =>
                        forall|j: int| 0 <= j < i ==> !passes_repo(self.vec@[j], *filter),
                },
            decreases self.vec@.len() - i,
        {
            if self.vec[i].filter(filter) {
                match found {
                    Option::Some(_) => {
                        return Err(SelectError::AmbiguousMatch);
                    }
                    Option::None => {
                        found = Option::Some(i);
                    }
                }
            }
            i = i + 1;
        }
        match found {
            Option::Some(k) => Ok(Frame::Repo(k)),
            Option::None => Err(SelectError::NoMatch),
        }
    }

    /// Freezes every draft repository, or reports the first unset field.
    pub fn validate(&self) -> (r: Result<ValidatedRepos, ValidationError>)
        ensures
            match r {
                Ok(v) => v.vec@.len() == self.vec@.len()
                    && forall|i: int| 0 <= i < self.vec@.len()
                        ==> #[trigger] repo_validated(self.vec@[i], v.vec@[i]),
                Err(e) => e == ValidationError::UnsetField
                    && exists|i: int| 0 <= i < self.vec@.len() && self.vec@[i].url is Unset,
            },
    {
        let mut out: Vec<ValidatedRepo> = Vec::new();
        let mut i: usize = 0;
        while i < self.vec.len()
            invariant
                i <= self.vec@.len(),
                out@.len() == i,
                forall|j: int| 0 <= j < i ==> #[trigger] repo_validated(self.vec@[j], out@[j]),
            decreases self.vec@.len() - i,
        {
            match self.vec[i].validate() {
                Ok(v) => out.push(v),
                Err(e) => {
                    return Err(e);
                }
            }
            i = i + 1;
        }
        Ok(ValidatedRepos { vec: out })
    }
}

/// Whether a frozen repository faithfully reflects its draft.
pub open spec fn repo_validated(d: Repo, v: ValidatedRepo) -> bool {
    d.url is Given && v.url@ == d.url->Given_0@
}

/// Whether a draft repository passes an optional filter.
pub open spec fn passes_repo(r: Repo, filter: Option<Filter>) -> bool {
    match filter {
        Option::None => true,
        Option::Some(f) => r.spec_matches_filter(f),
    }
}

impl ValidatedRepo {
    /// Thaws the repository back into a draft for re-editing.
    pub fn as_repo(&self) -> (r: Repo)
        ensures
            r.url is Given && r.url->Given_0@ == self.url@,
    {
        Repo { url: Value::Given(self.url.clone()) }
    }
}

impl ValidatedRepos {
    /// Thaws the collection back into drafts for re-editing.
    pub fn as_repos(&self) -> (r: Repos)
        ensures
            r.vec@.len() == self.vec@.len(),
            forall|i: int| 0 <= i < self.vec@.len()
                ==> #[trigger] r.vec@[i].url is Given
                    && r.vec@[i].url->Given_0@ == self.vec@[i].url@,
    {
        let mut out: Vec<Repo> = Vec::new();
        let mut i: usize = 0;
        while i < self.vec.len()
            invariant
                i <= self.vec@.len(),
                out@.len() == i,
                forall|j: int| 0 <= j < i
                    ==> #[trigger] out@[j].url is Given
                        && out@[j].url->Given_0@ == self.vec@[j].url@,
            decreases self.vec@.len() - i,
        {
            out.push(self.vec[i].as_repo());
            i = i + 1;
        }
        Repos { vec: out }
    }

    /// The validated repositories, in order.
    pub fn iter(&self) -> (r: &Vec<ValidatedRepo>)
        ensures
            r == &self.vec,
    {
        &self.vec
    }

    /// Refreshing already-cloned repositories is not implemented yet; the
    /// call succeeds without doing work, as its callers expect.
    pub fn pull(&self, _pzone: &crate::zones::PipelineZone) -> (r: Result<(), ValidationError>)
        ensures
            r is Ok,
    {
        Ok(())
    }
}

} // verus!
