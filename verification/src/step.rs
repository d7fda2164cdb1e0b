//! Build steps of a pipeline, in draft and validated form. A step names a
//! script to run and the steps it depends on; dependencies are kept by name so
//! the stored graph stays acyclic by construction.

use vstd::prelude::*;
use vstd::string::*;
use crate::{Value, ValidationError, SelectError};
use crate::filterable::Filterable;
use crate::repl::{Filter, Frame};
use crate::text::string_is;

verus! {

/// A draft dependency: the name of another step.
#[derive(Debug, Clone)]
pub struct Dependency {
    pub name: Value<String>,
}

/// A dependency that is known to name an existing step.
#[derive(Debug, Clone)]
pub struct ValidatedDependency {
    pub name: String,
}

/// A draft step: name and script may still be unset.
#[derive(Debug, Clone)]
pub struct Step {
    pub name: Value<String>,
    pub script: Value<String>,
    pub depends: Vec<Dependency>,
}

/// A step whose name, script and dependencies are known.
#[derive(Debug, Clone)]
pub struct ValidatedStep {
    pub name: String,
    pub script: String,
    pub depends: Vec<ValidatedDependency>,
}

/// The draft collection of steps.
#[derive(Debug, Clone)]
pub struct Steps {
    pub vec: Vec<Step>,
}

/// The validated collection of steps: the input of the DAG validator.
#[derive(Debug, Clone)]
pub struct ValidatedSteps {
    pub vec: Vec<ValidatedStep>,
}

impl Default for Step {
    /// A fresh draft step with nothing set yet.
    fn default() -> (r: Step)
        ensures
            r.name is Unset && r.script is Unset && r.depends@.len() == 0,
    {
        Step { name: Value::Unset, script: Value::Unset, depends: Vec::new() }
    }
}

/// Whether some sequence of names holds the given name.
pub open spec fn contains_name(names: Seq<Seq<char>>, n: Seq<char>) -> bool {
    exists|i: int| 0 <= i < names.len() && names[i] == n
}

/// The names of a sequence of draft steps, each of which must be set.
pub open spec fn draft_names(ss: Seq<Step>) -> Seq<Seq<char>> {
    ss.map_values(|s: Step| s.name->Given_0@)
}

/// The names of a sequence of validated steps.
pub open spec fn step_names(ss: Seq<ValidatedStep>) -> Seq<Seq<char>> {
    ss.map_values(|s: ValidatedStep| s.name@)
}

/// No two drafted steps carry the same name.
pub open spec fn draft_names_unique(ss: Seq<Step>) -> bool {
    forall|i: int, j: int| 0 <= i < j < ss.len()
        ==> draft_names(ss)[i] != draft_names(ss)[j]
}

/// Whether a thawed draft faithfully reflects the validated step it came
/// from: every field set and equal, dependencies included.
pub open spec fn step_thawed(d: Step, v: ValidatedStep) -> bool {
    &&& d.name is Given && d.name->Given_0@ == v.name@
    &&& d.script is Given && d.script->Given_0@ == v.script@
    &&& d.depends@.len() == v.depends@.len()
    &&& forall|k: int| 0 <= k < v.depends@.len()
        ==> (#[trigger] d.depends@[k]).name is Given
            && d.depends@[k].name->Given_0@ == v.depends@[k].name@
}

/// Whether a frozen step faithfully reflects its draft, with every dependency
/// resolving to one of the given step names.
pub open spec fn step_validated(d: Step, v: ValidatedStep, names: Seq<Seq<char>>) -> bool {
    &&& d.name is Given && v.name@ == d.name->Given_0@
    &&& d.script is Given && v.script@ == d.script->Given_0@
    &&& v.depends@.len() == d.depends@.len()
    &&& forall|k: int| 0 <= k < d.depends@.len()
        ==> (#[trigger] d.depends@[k]).name is Given
            && v.depends@[k].name@ == d.depends@[k].name->Given_0@
            && contains_name(names, v.depends@[k].name@)
}

/// Whether every dependency of a validated step is among the given finished
/// step names.
pub open spec fn deps_among(v: ValidatedStep, names: Seq<Seq<char>>) -> bool {
    forall|k: int| 0 <= k < v.depends@.len()
        ==> contains_name(names, (#[trigger] v.depends@[k]).name@)
}

/// The display name of a draft step.
pub open spec fn spec_step_name(s: Step) -> Seq<char> {
    match s.name {
        Value::Unset => "step"@,
        Value::Given(v) => "step("@ + v@ + ")"@,
    }
}

impl Dependency {
    /// Checks that the dependency is set and names a known step. `step` is the
    /// name of the step this dependency belongs to, used in the diagnostic.
    pub fn validate(&self, step: &String, step_names: &Vec<String>)
        -> (r: Result<ValidatedDependency, ValidationError>)
        ensures
            match r {
                Ok(v) => self.name is Given && v.name@ == self.name->Given_0@
                    && contains_name(step_names@.map_values(|n: String| n@), v.name@),
                Err(ValidationError::UnsetField) => self.name is Unset,
                Err(ValidationError::UnknownDependency(s, d)) => self.name is Given
                    && s@ == step@ && d@ == self.name->Given_0@
                    && !contains_name(step_names@.map_values(|n: String| n@),
                        self.name->Given_0@),
                Err(_) => false,
            },
    {
        let name = match self.name.ensure() {
            Ok(v) => v,
            Err(e) => {
                return Err(e);
            }
        };
        let ghost views = step_names@.map_values(|n: String| n@);
        let mut i: usize = 0;
        while i < step_names.len()
            invariant
                i <= step_names@.len(),
                views == step_names@.map_values(|n: String| n@),
                self.name is Given && name == &self.name->Given_0,
                forall|j: int| 0 <= j < i ==> views[j] != name@,
            decreases step_names@.len() - i,
        {
            if *name == step_names[i] {
                proof {
                    assert(views[i as int] == step_names@[i as int]@);
                }
                return Ok(ValidatedDependency { name: name.clone() });
            }
            i = i + 1;
        }
        Err(ValidationError::UnknownDependency(step.clone(), name.clone()))
    }
}

impl ValidatedDependency {
    /// Thaws the dependency back into a draft.
    pub fn as_dependency(&self) -> (r: Dependency)
        ensures
            r.name is Given && r.name->Given_0@ == self.name@,
    {
        Dependency { name: Value::Given(self.name.clone()) }
    }
}

impl Step {
    /// Checks that name, script and every dependency are set and that each
    /// dependency names a known step, and freezes the draft.
    pub fn validate(&self, step_names: &Vec<String>)
        -> (r: Result<ValidatedStep, ValidationError>)
        ensures
            match r {
                Ok(v) => step_validated(*self, v, step_names@.map_values(|n: String| n@)),
                Err(ValidationError::UnsetField) => self.name is Unset
                    || self.script is Unset
                    || exists|k: int| 0 <= k < self.depends@.len()
                        && (#[trigger] self.depends@[k]).name is Unset,
                Err(ValidationError::UnknownDependency(s, d)) => self.name is Given
                    && s@ == self.name->Given_0@
                    && exists|k: int| 0 <= k < self.depends@.len()
                        && (#[trigger] self.depends@[k]).name is Given
                        && self.depends@[k].name->Given_0@ == d@
                        && !contains_name(step_names@.map_values(|n: String| n@), d@),
                Err(_) => false,
            },
    {
        let name = match self.name.ensure() {
            Ok(v) => v,
            Err(e) => {
                return Err(e);
            }
        };
        let script = match self.script.ensure() {
            Ok(v) => v,
            Err(e) => {
                return Err(e);
            }
        };
        let ghost views = step_names@.map_values(|n: String| n@);
        let mut deps: Vec<ValidatedDependency> = Vec::new();
        let mut k: usize = 0;
        while k < self.depends.len()
            invariant
                k <= self.depends@.len(),
                deps@.len() == k,
                views == step_names@.map_values(|n: String| n@),
                self.name is Given && name == &self.name->Given_0,
                forall|j: int| 0 <= j < k
                    ==> (#[trigger] self.depends@[j]).name is Given
                        && deps@[j].name@ == self.depends@[j].name->Given_0@
                        && contains_name(views, deps@[j].name@),
            decreases self.depends@.len() - k,
        {
            match self.depends[k].validate(name, step_names) {
                Ok(v) => deps.push(v),
                Err(e) => {
                    return Err(e);
                }
            }
            k = k + 1;
        }
        Ok(ValidatedStep { name: name.clone(), script: script.clone(), depends: deps })
    }

    /// The name shown for this entity in the editor prompt.
    pub fn name(&self) -> (r: String)
        ensures
            r@ == spec_step_name(*self),
    {
        match &self.name {
            Value::Unset => String::from_str("step"),
            Value::Given(v) => {
                let mut s = String::from_str("step(");
                s.append(v.as_str());
                s.append(")");
                s
            }
        }
    }

    /// Sets one attribute of the draft; `name` and `script` assign, and
    /// `depends` resets the dependency list.
    pub fn set(&mut self, key: String, value: String) -> (r: Result<(), ValidationError>)
        ensures
            match r {
                Ok(()) => (key@ == "name"@ && final(self).name == Value::Given(value)
                        && final(self).script == old(self).script
                        && final(self).depends == old(self).depends)
                    || (key@ == "script"@ && key@ != "name"@
                        && final(self).script == Value::Given(value)
                        && final(self).name == old(self).name
                        && final(self).depends == old(self).depends)
                    || (key@ == "depends"@ && key@ != "name"@ && key@ != "script"@
                        && final(self).depends@.len() == 0
                        && final(self).name == old(self).name
                        && final(self).script == old(self).script),
                Err(e) => key@ != "name"@ && key@ != "script"@ && key@ != "depends"@
                    && e == ValidationError::UnknownAttribute(key)
                    && *final(self) == *old(self),
            },
    {
        proof {
            reveal_strlit("name");
            reveal_strlit("script");
            reveal_strlit("depends");
            assert("name"@.len() == 4);
            assert("script"@.len() == 6);
            assert("depends"@.len() == 7);
            assert("name"@ != "script"@ && "name"@ != "depends"@ && "script"@ != "depends"@);
        }
        if string_is(&key, "name") {
            self.name = Value::Given(value);
            Ok(())
        } else if string_is(&key, "script") {
            self.script = Value::Given(value);
            Ok(())
        } else if string_is(&key, "depends") {
            self.depends = Vec::new();
            Ok(())
        } else {
            Err(ValidationError::UnknownAttribute(key))
        }
    }
}

impl Filterable for Step {
    open spec fn spec_matches_filter(&self, filter: Filter) -> bool {
        (filter.key@ == "name"@
            && self.name is Given && self.name->Given_0@ == filter.value@)
        || (filter.key@ == "script"@
            && self.script is Given && self.script->Given_0@ == filter.value@)
    }

    fn inner_filter(&self, filter: &Filter) -> (r: bool) {
        proof {
            reveal_strlit("name");
            reveal_strlit("script");
            assert("name"@.len() == 4);
            assert("script"@.len() == 6);
            assert("name"@ != "script"@);
        }
        if string_is(&filter.key, "name") {
            match &self.name {
                Value::Given(v) => *v == filter.value,
                Value::Unset => false,
            }
        } else if string_is(&filter.key, "script") {
            match &self.script {
                Value::Given(v) => *v == filter.value,
                Value::Unset => false,
            }
        } else {
            false
        }
    }
}

/// Whether a draft step passes an optional filter.
pub open spec fn passes_step(s: Step, filter: Option<Filter>) -> bool {
    match filter {
        Option::None => true,
        Option::Some(f) => s.spec_matches_filter(f),
    }
}

impl Steps {
    /// An empty draft collection.
    pub fn new() -> (r: Steps)
        ensures
            r.vec@.len() == 0,
    {
        Steps { vec: Vec::new() }
    }

    /// Appends a fresh draft step and returns a frame addressing it.
    pub fn add_empty(&mut self) -> (r: Frame)
        ensures
            final(self).vec@.len() == old(self).vec@.len() + 1,
            final(self).vec@.subrange(0, old(self).vec@.len() as int) == old(self).vec@,
            final(self).vec@.last().name is Unset,
            final(self).vec@.last().script is Unset,
            final(self).vec@.last().depends@.len() == 0,
            r == Frame::Step(old(self).vec@.len() as usize),
    {
        let idx = self.vec.len();
        self.vec.push(Step::default());
        proof {
            assert(self.vec@.subrange(0, old(self).vec@.len() as int) =~= old(self).vec@);
        }
        Frame::Step(idx)
    }

    /// Picks the unique step matching the filter.
    pub fn select(&self, filter: &Option<Filter>) -> (r: Result<Frame, SelectError>)
        ensures
            match r {
                Ok(f) => match f {
                    Frame::Step(i) => i < self.vec@.len()
                        && passes_step(self.vec@[i as int], *filter)
                        && forall|j: int| 0 <= j < self.vec@.len() && j != i
                            ==> !passes_step(self.vec@[j], *filter),
                    _ => false,
                },
                Err(SelectError::NoMatch) => forall|j: int| 0 <= j < self.vec@.len()
                    ==> !passes_step(self.vec@[j], *filter),
                Err(SelectError::AmbiguousMatch) => exists|i: int, j: int|
                    0 <= i < j < self.vec@.len()
                    && passes_step(self.vec@[i], *filter) && passes_step(self.vec@[j], *filter),
                Err(_) => false,
            },
    {
        let mut found: Option<usize> = Option::None;
        let mut i: usize = 0;
        while i < self.vec.len()
            invariant
                i <= self.vec@.len(),
                match found {
                    Option::Some(k) => k < i && passes_step(self.vec@[k as int], *filter)
                        && forall|j: int| 0 <= j < i && j != k
                            ==> !passes_step(self.vec@[j], *filter),
                    Option::None =>
                        forall|j: int| 0 <= j < i ==> !passes_step(self.vec@[j], *filter),
                },
            decreases self.vec@.len() - i,
        {
            if self.vec[i].filter(filter) {
                match found {
                    Option::Some(_) => {
                        return Err(SelectError::AmbiguousMatch);
                    }
                    Option::None => {
                        found = Option::Some(i);
                    }
                }
            }
            i = i + 1;
        }
        match found {
            Option::Some(k) => Ok(Frame::Step(k)),
            Option::None => Err(SelectError::NoMatch),
        }
    }

    /// Freezes every draft step: all fields must be set, step names must be
    /// unique, and every dependency must name some drafted step. Uniqueness
    /// is diagnosed before dependency resolution, so a draft violating both
    /// reports the duplicate first.
    pub fn validate(&self) -> (r: Result<ValidatedSteps, ValidationError>)
        ensures
            match r {
                Ok(v) => v.vec@.len() == self.vec@.len()
                    && draft_names_unique(self.vec@)
                    && forall|i: int| 0 <= i < self.vec@.len()
                        ==> #[trigger] step_validated(self.vec@[i], v.vec@[i],
                            draft_names(self.vec@)),
                Err(ValidationError::UnsetField) =>
                    exists|i: int| 0 <= i < self.vec@.len()
                        && ((#[trigger] self.vec@[i]).name is Unset
                            || self.vec@[i].script is Unset
                            || exists|k: int| 0 <= k < self.vec@[i].depends@.len()
                                && (#[trigger] self.vec@[i].depends@[k]).name is Unset),
                Err(ValidationError::DuplicateStep(n)) =>
                    (forall|i: int| 0 <= i < self.vec@.len()
                        ==> (#[trigger] self.vec@[i]).name is Given)
                    && exists|i: int, j: int| 0 <= i < j < self.vec@.len()
                        && draft_names(self.vec@)[i] == draft_names(self.vec@)[j]
                        && draft_names(self.vec@)[j] == n@,
                Err(ValidationError::UnknownDependency(s, d)) =>
                    draft_names_unique(self.vec@)
                    && exists|i: int| 0 <= i < self.vec@.len()
                        && (#[trigger] self.vec@[i]).name is Given
                        && s@ == self.vec@[i].name->Given_0@
                        && exists|k: int| 0 <= k < self.vec@[i].depends@.len()
                            && (#[trigger] self.vec@[i].depends@[k]).name is Given
                            && self.vec@[i].depends@[k].name->Given_0@ == d@
                            && !contains_name(draft_names(self.vec@), d@),
                Err(_) => false,
            },
    {
        let ghost dnames = draft_names(self.vec@);
        let mut names: Vec<String> = Vec::new();
        let mut i: usize = 0;
        while i < self.vec.len()
            invariant
                i <= self.vec@.len(),
                names@.len() == i,
                dnames == draft_names(self.vec@),
                forall|j: int| 0 <= j < i
                    ==> (#[trigger] self.vec@[j]).name is Given
                        && names@[j]@ == self.vec@[j].name->Given_0@,
            decreases self.vec@.len() - i,
        {
            match self.vec[i].name.ensure() {
                Ok(n) => names.push(n.clone()),
                Err(e) => {
                    return Err(e);
                }
            }
            i = i + 1;
        }
        proof {
            assert(names@.map_values(|n: String| n@) =~= dnames);
        }
        let mut j: usize = 1;
        while j < names.len()
            invariant
                names@.len() == self.vec@.len(),
                dnames == draft_names(self.vec@),
                names@.map_values(|n: String| n@) == dnames,
                forall|t: int| 0 <= t < self.vec@.len()
                    ==> (#[trigger] self.vec@[t]).name is Given,
                forall|a: int, b: int| 0 <= a < b < j && b < dnames.len()
                    ==> dnames[a] != dnames[b],
            decreases names@.len() - j,
        {
            let mut a: usize = 0;
            while a < j
                invariant
                    a <= j < names@.len(),
                    names@.len() == self.vec@.len(),
                    dnames == draft_names(self.vec@),
                    names@.map_values(|n: String| n@) == dnames,
                    forall|t: int| 0 <= t < self.vec@.len()
                        ==> (#[trigger] self.vec@[t]).name is Given,
                    forall|b: int| 0 <= b < a ==> dnames[b] != dnames[j as int],
                decreases j - a,
            {
                if names[a] == names[j] {
                    proof {
                        assert(dnames[a as int] == names@[a as int]@);
                        assert(dnames[j as int] == names@[j as int]@);
                    }
                    return Err(ValidationError::DuplicateStep(names[j].clone()));
                }
                a = a + 1;
            }
            j = j + 1;
        }
        let mut out: Vec<ValidatedStep> = Vec::new();
        let mut i: usize = 0;
        while i < self.vec.len()
            invariant
                i <= self.vec@.len(),
                out@.len() == i,
                dnames == draft_names(self.vec@),
                names@.map_values(|n: String| n@) == dnames,
                draft_names_unique(self.vec@),
                forall|j: int| 0 <= j < i
                    ==> #[trigger] step_validated(self.vec@[j], out@[j], dnames),
            decreases self.vec@.len() - i,
        {
            match self.vec[i].validate(&names) {
                Ok(v) => out.push(v),
                Err(e) => {
                    return Err(e);
                }
            }
            i = i + 1;
        }
        Ok(ValidatedSteps { vec: out })
    }
}

impl ValidatedStep {
    /// Running a single validated step outside a container is a no-op.
    pub fn run(&self) -> (r: Result<(), ValidationError>)
        ensures
            r is Ok,
    {
        Ok(())
    }

    /// Whether every dependency of this step is among the finished step names.
    pub fn is_available(&self, finished_steps: &Vec<String>) -> (r: bool)
        ensures
            r == deps_among(*self, finished_steps@.map_values(|n: String| n@)),
    {
        let ghost views = finished_steps@.map_values(|n: String| n@);
        let mut k: usize = 0;
        while k < self.depends.len()
            invariant
                k <= self.depends@.len(),
                views == finished_steps@.map_values(|n: String| n@),
                forall|j: int| 0 <= j < k
                    ==> contains_name(views, (#[trigger] self.depends@[j]).name@),
            decreases self.depends@.len() - k,
        {
            let dep = &self.depends[k];
            let mut hit = false;
            let mut i: usize = 0;
            while i < finished_steps.len()
                invariant
                    i <= finished_steps@.len(),
                    views == finished_steps@.map_values(|n: String| n@),
                    hit ==> contains_name(views, self.depends@[k as int].name@),
                    !hit ==> forall|j: int| 0 <= j < i ==> views[j] != self.depends@[k as int].name@,
                    k < self.depends@.len(),
                    dep == &self.depends@[k as int],
                decreases finished_steps@.len() - i,
            {
                if dep.name == finished_steps[i] {
                    proof {
                        assert(views[i as int] == finished_steps@[i as int]@);
                    }
                    hit = true;
                }
                i = i + 1;
            }
            if !hit {
                return false;
            }
            k = k + 1;
        }
        true
    }

    /// Thaws the step back into a draft for re-editing.
    pub fn as_step(&self) -> (r: Step)
        ensures
            step_thawed(r, *self),
    {
        let mut deps: Vec<Dependency> = Vec::new();
        let mut k: usize = 0;
        while k < self.depends.len()
            invariant
                k <= self.depends@.len(),
                deps@.len() == k,
                forall|j: int| 0 <= j < k
                    ==> (#[trigger] deps@[j]).name is Given
                        && deps@[j].name->Given_0@ == self.depends@[j].name@,
            decreases self.depends@.len() - k,
        {
            deps.push(self.depends[k].as_dependency());
            k = k + 1;
        }
        Step {
            name: Value::Given(self.name.clone()),
            script: Value::Given(self.script.clone()),
            depends: deps,
        }
    }
}

impl ValidatedSteps {
    /// Thaws the collection back into drafts for re-editing, keeping every
    /// name, script and dependency, so re-validation reproduces the set.
    pub fn as_steps(&self) -> (r: Steps)
        ensures
            r.vec@.len() == self.vec@.len(),
            forall|i: int| 0 <= i < self.vec@.len()
                ==> #[trigger] step_thawed(r.vec@[i], self.vec@[i]),
    {
        let mut out: Vec<Step> = Vec::new();
        let mut i: usize = 0;
        while i < self.vec.len()
            invariant
                i <= self.vec@.len(),
                out@.len() == i,
                forall|j: int| 0 <= j < i ==> #[trigger] step_thawed(out@[j], self.vec@[j]),
            decreases self.vec@.len() - i,
        {
            out.push(self.vec[i].as_step());
            i = i + 1;
        }
        Steps { vec: out }
    }
}

} // verus!
