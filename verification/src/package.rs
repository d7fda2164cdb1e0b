//! OS packages a pipeline installs into its base container, in draft and
//! validated form.

use vstd::prelude::*;
use vstd::string::*;
use crate::{Value, ValidationError, SelectError};
use crate::filterable::Filterable;
use crate::repl::{Filter, Frame};
use crate::text::string_is;

verus! {

/// A draft package: provider and name may still be unset.
#[derive(Debug, Clone)]
pub struct Package {
    pub provider: Value<String>,
    pub name: Value<String>,
}

/// A package whose provider and name are known.
#[derive(Debug, Clone)]
pub struct ValidatedPackage {
    pub provider: String,
    pub name: String,
}

/// The draft collection of packages.
#[derive(Debug, Clone)]
pub struct Packages {
    pub vec: Vec<Package>,
}

/// The validated collection of packages.
#[derive(Debug, Clone)]
pub struct ValidatedPackages {
    pub vec: Vec<ValidatedPackage>,
}

impl Default for Package {
    /// A fresh draft package with nothing set yet.
    fn default() -> (r: Package)
        ensures
            r.provider is Unset && r.name is Unset,
    {
        Package { provider: Value::Unset, name: Value::Unset }
    }
}

/// The display name of a draft package.
pub open spec fn spec_package_name(p: Package) -> Seq<char> {
    match p.name {
        Value::Unset => "package"@,
        Value::Given(v) => "package("@ + v@ + ")"@,
    }
}

/// Whether a frozen package faithfully reflects its draft.
pub open spec fn package_validated(d: Package, v: ValidatedPackage) -> bool {
    d.name is Given && v.name@ == d.name->Given_0@
    && d.provider is Given && v.provider@ == d.provider->Given_0@
}

/// Whether a draft package passes an optional filter.
pub open spec fn passes_package(p: Package, filter: Option<Filter>) -> bool {
    match filter {
        Option::None => true,
        Option::Some(f) => p.spec_matches_filter(f),
    }
}

impl Package {
    /// Checks that name and provider are set and freezes the draft.
    pub fn validate(&self) -> (r: Result<ValidatedPackage, ValidationError>)
        ensures
            match r {
                Ok(v) => package_validated(*self, v),
                Err(e) => e == ValidationError::UnsetField
                    && (self.name is Unset || self.provider is Unset),
            },
    {
        let name = match self.name.ensure() {
            Ok(v) => v,
            Err(e) => {
                return Err(e);
            }
        };
        let provider = match self.provider.ensure() {
            Ok(v) => v,
            Err(e) => {
                return Err(e);
            }
        };
        Ok(ValidatedPackage { name: name.clone(), provider: provider.clone() })
    }

    /// The name shown for this entity in the editor prompt.
    pub fn name(&self) -> (r: String)
        ensures
            r@ == spec_package_name(*self),
    {
        match &self.name {
            Value::Unset => String::from_str("package"),
            Value::Given(v) => {
                let mut s = String::from_str("package(");
                s.append(v.as_str());
                s.append(")");
                s
            }
        }
    }

    /// Sets one attribute of the draft; `name` and `provider` are known.
    pub fn set(&mut self, key: String, value: String) -> (r: Result<(), ValidationError>)
        ensures
            match r {
                Ok(()) => (key@ == "name"@ && final(self).name == Value::Given(value)
                        && final(self).provider == old(self).provider)
                    || (key@ == "provider"@ && key@ != "name"@
                        && final(self).provider == Value::Given(value)
                        && final(self).name == old(self).name),
                Err(e) => key@ != "name"@ && key@ != "provider"@
                    && e == ValidationError::UnknownAttribute(key)
                    && *final(self) == *old(self),
            },
    {
        if string_is(&key, "name") {
            self.name = Value::Given(value);
            Ok(())
        } else if string_is(&key, "provider") {
            self.provider = Value::Given(value);
            Ok(())
        } else {
            Err(ValidationError::UnknownAttribute(key))
        }
    }
}

impl Filterable for Package {
    open spec fn spec_matches_filter(&self, filter: Filter) -> bool {
        (filter.key@ == "name"@
            && self.name is Given && self.name->Given_0@ == filter.value@)
        || (filter.key@ == "provider"@
            && self.provider is Given && self.provider->Given_0@ == filter.value@)
    }

    fn inner_filter(&self, filter: &Filter) -> (r: bool) {
        proof {
            reveal_strlit("name");
            reveal_strlit("provider");
            assert("name"@.len() == 4);
            assert("provider"@.len() == 8);
            assert("name"@ != "provider"@);
        }
        if string_is(&filter.key, "name") {
            match &self.name {
                Value::Given(v) => *v == filter.value,
                Value::Unset => false,
            }
        } else if string_is(&filter.key, "provider") {
            match &self.provider {
                Value::Given(v) => *v == filter.value,
                Value::Unset => false,
            }
        } else {
            false
        }
    }
}

impl Packages {
    /// An empty draft collection.
    pub fn new() -> (r: Packages)
        ensures
            r.vec@.len() == 0,
    {
        Packages { vec: Vec::new() }
    }

    /// Appends a fresh draft package and returns a frame addressing it.
    pub fn add_empty(&mut self) -> (r: Frame)
        ensures
            final(self).vec@.len() == old(self).vec@.len() + 1,
            final(self).vec@.subrange(0, old(self).vec@.len() as int) == old(self).vec@,
            final(self).vec@.last().provider is Unset,
            final(self).vec@.last().name is Unset,
            r == Frame::Package(old(self).vec@.len() as usize),
    {
        let idx = self.vec.len();
        self.vec.push(Package::default());
        proof {
            assert(self.vec@.subrange(0, old(self).vec@.len() as int) =~= old(self).vec@);
        }
        Frame::Package(idx)
    }

    /// Picks the unique package matching the filter.
    pub fn select(&self, filter: &Option<Filter>) -> (r: Result<Frame, SelectError>)
        ensures
            match r {
                Ok(f) => match f {
                    Frame::Package(i) => i < self.vec@.len()
                        && passes_package(self.vec@[i as int], *filter)
                        && forall|j: int| 0 <= j < self.vec@.len() && j != i
                            ==> !passes_package(self.vec@[j], *filter),
                    _ => false,
                },
                Err(SelectError::NoMatch) => forall|j: int| 0 <= j < self.vec@.len()
                    ==> !passes_package(self.vec@[j], *filter),
                Err(SelectError::AmbiguousMatch) => exists|i: int, j: int|
                    0 <= i < j < self.vec@.len()
                    && passes_package(self.vec@[i], *filter)
                    && passes_package(self.vec@[j], *filter),
                Err(_) => false,
            },
    {
        let mut found: Option<usize> = Option::None;
        let mut i: usize = 0;
        while i < self.vec.len()
            invariant
                i <= self.vec@.len(),
                match found {
                    Option::Some(k) => k < i && passes_package(self.vec@[k as int], *filter)
                        && forall|j: int| 0 <= j < i && j != k
                            ==> !passes_package(self.vec@[j], *filter),
                    Option::None =>
                        forall|j: int| 0 <= j < i ==> !passes_package(self.vec@[j], *filter),
                },
            decreases self.vec@.len() - i,
        {
            if self.vec[i].filter(filter) {
                match found {
                    Option::Some(_) => {
                        return Err(SelectError::AmbiguousMatch);
                    }
                    Option::None => {
                        found = Option::Some(i);
                    }
                }
            }
            i = i + 1;
        }
        match found {
            Option::Some(k) => Ok(Frame::Package(k)),
            Option::None => Err(SelectError::NoMatch),
        }
    }

    /// Freezes every draft package, or reports the first unset field.
    pub fn validate(&self) -> (r: Result<ValidatedPackages, ValidationError>)
        ensures
            match r {
                Ok(v) => v.vec@.len() == self.vec@.len()
                    && forall|i: int| 0 <= i < self.vec@.len()
                        ==> #[trigger] package_validated(self.vec@[i], v.vec@[i]),
                Err(e) => e == ValidationError::UnsetField
                    && exists|i: int| 0 <= i < self.vec@.len()
                        && (self.vec@[i].name is Unset || self.vec@[i].provider is Unset),
            },
    {
        let mut out: Vec<ValidatedPackage> = Vec::new();
        let mut i: usize = 0;
        while i < self.vec.len()
            invariant
                i <= self.vec@.len(),
                out@.len() == i,
                forall|j: int| 0 <= j < i ==> #[trigger] package_validated(self.vec@[j], out@[j]),
            decreases self.vec@.len() - i,
        {
            match self.vec[i].validate() {
                Ok(v) => out.push(v),
                Err(e) => {
                    return Err(e);
                }
            }
            i = i + 1;
        }
        Ok(ValidatedPackages { vec: out })
    }
}

impl ValidatedPackage {
    /// Thaws the package back into a draft for re-editing.
    pub fn as_package(&self) -> (r: Package)
        ensures
            package_validated(r, *self),
    {
        Package {
            provider: Value::Given(self.provider.clone()),
            name: Value::Given(self.name.clone()),
        }
    }
}

impl ValidatedPackages {
    /// Thaws the collection back into drafts for re-editing.
    pub fn as_packages(&self) -> (r: Packages)
        ensures
            r.vec@.len() == self.vec@.len(),
            forall|i: int| 0 <= i < self.vec@.len()
                ==> #[trigger] package_validated(r.vec@[i], self.vec@[i]),
    {
        let mut out: Vec<Package> = Vec::new();
        let mut i: usize = 0;
        while i < self.vec.len()
            invariant
                i <= self.vec@.len(),
                out@.len() == i,
                forall|j: int| 0 <= j < i ==> #[trigger] package_validated(out@[j], self.vec@[j]),
            decreases self.vec@.len() - i,
        {
            out.push(self.vec[i].as_package());
            i = i + 1;
        }
        Packages { vec: out }
    }
}

} // verus!
