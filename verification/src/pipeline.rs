//! The pipeline itself, in draft and validated form: a name plus its
//! repositories, packages and steps, and the names the pipeline derives for
//! its dataset, zone and NIC.

use vstd::prelude::*;
use vstd::string::*;
use crate::{Value, ValidationError, SelectError};
use crate::repl::{Filter, Frame};
use crate::repo::{Repos, ValidatedRepos, repo_validated, passes_repo};
use crate::package::{Packages, ValidatedPackages, package_validated, passes_package};
use crate::step::{Steps, ValidatedSteps, step_validated, step_thawed, draft_names,
    draft_names_unique, contains_name, passes_step};
use crate::text::{string_is, push_char};
use crate::zones::{PipelineZone, ZoneType};

verus! {

broadcast use vstd::string::group_string_axioms;

/// A draft pipeline under interactive construction.
#[derive(Debug)]
pub struct Pipeline {
    pub name: Value<String>,
    pub repos: Repos,
    pub packages: Packages,
    pub steps: Steps,
}

/// A pipeline whose name and collections have all been validated.
#[derive(Debug)]
pub struct ValidatedPipeline {
    pub name: String,
    pub repos: ValidatedRepos,
    pub packages: ValidatedPackages,
    pub steps: ValidatedSteps,
}

/// Whether a validated pipeline faithfully reflects its draft.
pub open spec fn pipeline_validated(d: Pipeline, v: ValidatedPipeline) -> bool {
    &&& d.name is Given && v.name@ == d.name->Given_0@
    &&& v.repos.vec@.len() == d.repos.vec@.len()
    &&& forall|i: int| 0 <= i < d.repos.vec@.len()
        ==> #[trigger] repo_validated(d.repos.vec@[i], v.repos.vec@[i])
    &&& v.packages.vec@.len() == d.packages.vec@.len()
    &&& forall|i: int| 0 <= i < d.packages.vec@.len()
        ==> #[trigger] package_validated(d.packages.vec@[i], v.packages.vec@[i])
    &&& v.steps.vec@.len() == d.steps.vec@.len()
    &&& forall|i: int| 0 <= i < d.steps.vec@.len()
        ==> #[trigger] step_validated(d.steps.vec@[i], v.steps.vec@[i],
            draft_names(d.steps.vec@))
}

/// The frame is the one entity of kind `ty` that matches the filter.
pub open spec fn selects(p: Pipeline, ty: Seq<char>, filter: Option<Filter>, f: Frame) -> bool {
    match f {
        Frame::Pipeline => false,
        Frame::Package(i) => ty == "package"@ && i < p.packages.vec@.len()
            && passes_package(p.packages.vec@[i as int], filter)
            && forall|j: int| 0 <= j < p.packages.vec@.len() && j != i
                ==> !passes_package(p.packages.vec@[j], filter),
        Frame::Repo(i) => ty == "repo"@ && i < p.repos.vec@.len()
            && passes_repo(p.repos.vec@[i as int], filter)
            && forall|j: int| 0 <= j < p.repos.vec@.len() && j != i
                ==> !passes_repo(p.repos.vec@[j], filter),
        Frame::Step(i) => ty == "step"@ && i < p.steps.vec@.len()
            && passes_step(p.steps.vec@[i as int], filter)
            && forall|j: int| 0 <= j < p.steps.vec@.len() && j != i
                ==> !passes_step(p.steps.vec@[j], filter),
    }
}

/// No entity of kind `ty` matches the filter.
pub open spec fn no_selection(p: Pipeline, ty: Seq<char>, filter: Option<Filter>) -> bool {
    ||| (ty == "package"@ && forall|j: int| 0 <= j < p.packages.vec@.len()
        ==> !passes_package(p.packages.vec@[j], filter))
    ||| (ty == "repo"@ && forall|j: int| 0 <= j < p.repos.vec@.len()
        ==> !passes_repo(p.repos.vec@[j], filter))
    ||| (ty == "step"@ && forall|j: int| 0 <= j < p.steps.vec@.len()
        ==> !passes_step(p.steps.vec@[j], filter))
}

/// At least two entities of kind `ty` match the filter.
pub open spec fn ambiguous_selection(p: Pipeline, ty: Seq<char>, filter: Option<Filter>)
    -> bool {
    ||| (ty == "package"@ && exists|i: int, j: int| 0 <= i < j < p.packages.vec@.len()
        && passes_package(p.packages.vec@[i], filter)
        && passes_package(p.packages.vec@[j], filter))
    ||| (ty == "repo"@ && exists|i: int, j: int| 0 <= i < j < p.repos.vec@.len()
        && passes_repo(p.repos.vec@[i], filter) && passes_repo(p.repos.vec@[j], filter))
    ||| (ty == "step"@ && exists|i: int, j: int| 0 <= i < j < p.steps.vec@.len()
        && passes_step(p.steps.vec@[i], filter) && passes_step(p.steps.vec@[j], filter))
}

impl Pipeline {
    /// A fresh draft pipeline with the given name and empty collections.
    pub fn new(name: &String) -> (r: Pipeline)
        ensures
            r.name is Given && r.name->Given_0@ == name@,
            r.repos.vec@.len() == 0,
            r.packages.vec@.len() == 0,
            r.steps.vec@.len() == 0,
    {
        Pipeline {
            name: Value::Given(name.clone()),
            repos: Repos::new(),
            packages: Packages::new(),
            steps: Steps::new(),
        }
    }

    /// The name shown for the pipeline frame in the editor prompt.
    pub fn name(&self) -> (r: String)
        ensures
            r@ == "pipeline"@,
    {
        String::from_str("pipeline")
    }

    /// Freezes the draft: the name and every entity must be set, step names
    /// must be unique, and every step dependency must name a drafted step.
    /// Each error carries a defect of the draft that produced it.
    pub fn validate(&self) -> (r: Result<ValidatedPipeline, ValidationError>)
        ensures
            match r {
                Ok(v) => pipeline_validated(*self, v)
                    && draft_names_unique(self.steps.vec@),
                Err(ValidationError::UnsetField) => self.name is Unset
                    || (exists|i: int| 0 <= i < self.repos.vec@.len()
                        && (#[trigger] self.repos.vec@[i]).url is Unset)
                    || (exists|i: int| 0 <= i < self.packages.vec@.len()
                        && ((#[trigger] self.packages.vec@[i]).name is Unset
                            || self.packages.vec@[i].provider is Unset))
                    || (exists|i: int| 0 <= i < self.steps.vec@.len()
                        && ((#[trigger] self.steps.vec@[i]).name is Unset
                            || self.steps.vec@[i].script is Unset
                            || exists|k: int| 0 <= k < self.steps.vec@[i].depends@.len()
                                && (#[trigger] self.steps.vec@[i].depends@[k]).name is Unset)),
                Err(ValidationError::DuplicateStep(n)) =>
                    exists|i: int, j: int| 0 <= i < j < self.steps.vec@.len()
                        && draft_names(self.steps.vec@)[i] == draft_names(self.steps.vec@)[j]
                        && draft_names(self.steps.vec@)[j] == n@,
                Err(ValidationError::UnknownDependency(s, d)) =>
                    exists|i: int| 0 <= i < self.steps.vec@.len()
                        && (#[trigger] self.steps.vec@[i]).name is Given
                        && s@ == self.steps.vec@[i].name->Given_0@
                        && exists|k: int| 0 <= k < self.steps.vec@[i].depends@.len()
                            && (#[trigger] self.steps.vec@[i].depends@[k]).name is Given
                            && self.steps.vec@[i].depends@[k].name->Given_0@ == d@
                            && !contains_name(draft_names(self.steps.vec@), d@),
                Err(_) => false,
            },
    {
        let name = match self.name.ensure() {
            Ok(n) => n.clone(),
            Err(e) => {
                return Err(e);
            }
        };
        let repos = match self.repos.validate() {
            Ok(v) => v,
            Err(e) => {
                return Err(e);
            }
        };
        let packages = match self.packages.validate() {
            Ok(v) => v,
            Err(e) => {
                return Err(e);
            }
        };
        let steps = match self.steps.validate() {
            Ok(v) => v,
            Err(e) => {
                return Err(e);
            }
        };
        Ok(ValidatedPipeline { name, repos, packages, steps })
    }

    /// Sets one attribute of the pipeline itself; only `name` is known.
    pub fn set(&mut self, key: String, value: String) -> (r: Result<(), ValidationError>)
        ensures
            match r {
                Ok(()) => key@ == "name"@ && final(self).name == Value::Given(value)
                    && final(self).repos == old(self).repos
                    && final(self).packages == old(self).packages
                    && final(self).steps == old(self).steps,
                Err(e) => key@ != "name"@ && e == ValidationError::UnknownAttribute(key)
                    && *final(self) == *old(self),
            },
    {
        if string_is(&key, "name") {
            self.name = Value::Given(value);
            Ok(())
        } else {
            Err(ValidationError::UnknownAttribute(key))
        }
    }

    /// Picks the unique entity of the given kind matching the filter.
    pub fn select(&self, ty: String, filter: Option<Filter>) -> (r: Result<Frame, SelectError>)
        ensures
            ty@ != "package"@ && ty@ != "repo"@ && ty@ != "step"@
                ==> r == Err::<Frame, SelectError>(SelectError::UnknownKind(ty)),
            ty@ == "package"@ ==> match r {
                Ok(f) => selects(*self, ty@, filter, f),
                Err(SelectError::NoMatch) => no_selection(*self, ty@, filter),
                Err(SelectError::AmbiguousMatch) => ambiguous_selection(*self, ty@, filter),
                Err(_) => false,
            },
            ty@ == "repo"@ ==> match r {
                Ok(f) => selects(*self, ty@, filter, f),
                Err(SelectError::NoMatch) => no_selection(*self, ty@, filter),
                Err(SelectError::AmbiguousMatch) => ambiguous_selection(*self, ty@, filter),
                Err(_) => false,
            },
            ty@ == "step"@ ==> match r {
                Ok(f) => selects(*self, ty@, filter, f),
                Err(SelectError::NoMatch) => no_selection(*self, ty@, filter),
                Err(SelectError::AmbiguousMatch) => ambiguous_selection(*self, ty@, filter),
                Err(_) => false,
            },
    {
        proof {
            reveal_strlit("package");
            reveal_strlit("repo");
            reveal_strlit("step");
            assert("package"@.len() == 7);
            assert("repo"@.len() == 4);
            assert("step"@.len() == 4);
            assert("package"@ != "repo"@ && "package"@ != "step"@);
            assert("repo"@[0] == 'r');
            assert("step"@[0] == 's');
            assert("repo"@ != "step"@);
        }
        if string_is(&ty, "package") {
            self.packages.select(&filter)
        } else if string_is(&ty, "repo") {
            self.repos.select(&filter)
        } else if string_is(&ty, "step") {
            self.steps.select(&filter)
        } else {
            Err(SelectError::UnknownKind(ty))
        }
    }
}

/// A character a run identifier may consist of.
pub open spec fn is_run_id_char(c: char) -> bool {
    ('a' <= c && c <= 'z') || ('0' <= c && c <= '9')
}

/// Relies on rand::Rng::gen_range over 0..n: a value below `n`, from the
/// thread-local generator. The range is nonempty, so the call cannot panic.
#[verifier::external_body]
fn random_below(n: u32) -> (r: u32)
    requires
        n > 0,
    ensures
        r < n,
{
    rand::Rng::gen_range(&mut rand::thread_rng(), 0..n)
}

impl ValidatedPipeline {
    /// A fresh random identifier for one run: four lowercase alphanumeric
    /// characters. Randomness decides which; every outcome has this shape.
    pub fn generate_run_id(&self) -> (r: String)
        ensures
            r@.len() == 4,
            forall|i: int| 0 <= i < r@.len() ==> is_run_id_char(#[trigger] r@[i]),
    {
        let table = "abcdefghijklmnopqrstuvwxyz0123456789";
        proof {
            reveal_strlit("abcdefghijklmnopqrstuvwxyz0123456789");
            assert(table@.len() == 36);
        }
        let mut s = String::new();
        let mut made: usize = 0;
        while made < 4
            invariant
                made <= 4,
                s@.len() == made,
                table@.len() == 36,
                table@ == "abcdefghijklmnopqrstuvwxyz0123456789"@,
                forall|i: int| 0 <= i < s@.len() ==> is_run_id_char(#[trigger] s@[i]),
            decreases 4 - made,
        {
            let idx = random_below(36);
            let c = table.get_char(idx as usize);
            proof {
                reveal_strlit("abcdefghijklmnopqrstuvwxyz0123456789");
                assert(is_run_id_char(table@[idx as int]));
            }
            push_char(&mut s, c);
            made = made + 1;
        }
        s
    }

    /// The base container of this pipeline.
    pub fn base_pzone(&self) -> (r: PipelineZone)
        ensures
            r.pipeline@ == self.name@,
            r.zone_type is Base,
    {
        PipelineZone {
            pipeline: self.name.clone(),
            zone_type: ZoneType::Base,
        }
    }

    /// Where the pipeline is persisted on disk.
    pub fn file_path(name: &String) -> (r: String)
        ensures
            r@ == "/etc/pipelines/"@ + name@ + ".xml"@,
    {
        let mut s = String::from_str("/etc/pipelines/");
        s.append(name.as_str());
        s.append(".xml");
        s
    }

    /// Thaws the pipeline back into a draft for re-editing.
    pub fn as_pipeline(&self) -> (r: Pipeline)
        ensures
            r.name is Given && r.name->Given_0@ == self.name@,
            r.repos.vec@.len() == self.repos.vec@.len(),
            forall|i: int| 0 <= i < self.repos.vec@.len()
                ==> #[trigger] repo_validated(r.repos.vec@[i], self.repos.vec@[i]),
            r.packages.vec@.len() == self.packages.vec@.len(),
            forall|i: int| 0 <= i < self.packages.vec@.len()
                ==> #[trigger] package_validated(r.packages.vec@[i], self.packages.vec@[i]),
            r.steps.vec@.len() == self.steps.vec@.len(),
            forall|i: int| 0 <= i < self.steps.vec@.len()
                ==> #[trigger] step_thawed(r.steps.vec@[i], self.steps.vec@[i]),
    {
        Pipeline {
            name: Value::Given(self.name.clone()),
            packages: self.packages.as_packages(),
            repos: self.repos.as_repos(),
            steps: self.steps.as_steps(),
        }
    }

    /// The path of the pipeline's base zone.
    pub fn path(&self) -> (r: String)
        ensures
            r@ == "/zones/ci/"@ + self.name@ + "/base"@,
    {
        let mut s = String::from_str("/zones/ci/");
        s.append(self.name.as_str());
        s.append("/base");
        s
    }

    /// The ZFS dataset backing the base zone.
    pub fn dataset(&self) -> (r: String)
        ensures
            r@ == "rpool"@ + "/zones/ci/"@ + self.name@ + "/base"@,
    {
        let mut s = String::from_str("rpool");
        let p = self.path();
        s.append(p.as_str());
        s
    }

    /// The base zone's name.
    pub fn zone_name(&self) -> (r: String)
        ensures
            r@ == "ci_"@ + self.name@ + "_base"@,
    {
        let mut s = String::from_str("ci_");
        s.append(self.name.as_str());
        s.append("_base");
        s
    }

    /// The virtual NIC of the base zone.
    pub fn vnic_name(&self) -> (r: String)
        ensures
            r@ == "ci_"@ + self.name@ + "_base"@ + "_internal0"@,
    {
        let mut s = self.zone_name();
        s.append("_internal0");
        s
    }
}

} // verus!
