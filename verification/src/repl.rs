//! The interactive configuration surface: filters, editor frames and the
//! editor state of the configuration shell. A frame addresses an entity by
//! its position in the owning collection, so the editor owns the pipeline by
//! value and no entity is ever aliased.

use vstd::prelude::*;
use vstd::string::*;
use vstd::pervasive::VecAdditionalExecFns;
use crate::{Value, ValidationError, SelectError};
use crate::filterable::Filterable;
use crate::package::{Package, spec_package_name, passes_package};
use crate::pipeline::{Pipeline, selects, no_selection, ambiguous_selection};
use crate::repo::{Repo, spec_repo_name, passes_repo};
use crate::step::{Step, spec_step_name, passes_step};
use crate::text::{push_char, str_to_chars, string_is};

verus! {

/// A `key=value` constraint used to pick one entity out of a collection.
#[derive(Debug, Clone)]
pub struct Filter {
    pub key: String,
    pub value: String,
}

/// An editor frame: which entity of the pipeline is currently being edited.
/// Entities are addressed by their position in the owning collection.
#[derive(Debug, Clone, Copy, PartialEq, Eq, Structural)]
pub enum Frame {
    Pipeline,
    Step(usize),
    Package(usize),
    Repo(usize),
}

/// One command of the configuration shell.
#[derive(Debug)]
pub enum CfgCommand {
    Select { ty: String, filter: Option<Filter> },
    Assign { key: String, value: String },
    Add { ty: String },
    Print,
    End,
    Commit,
}

/// A frame addresses an entity that exists in the pipeline.
pub open spec fn frame_valid(f: Frame, p: Pipeline) -> bool {
    match f {
        Frame::Pipeline => true,
        Frame::Step(i) => i < p.steps.vec@.len(),
        Frame::Package(i) => i < p.packages.vec@.len(),
        Frame::Repo(i) => i < p.repos.vec@.len(),
    }
}

/// The name a frame shows in the prompt.
pub open spec fn spec_frame_name(f: Frame, p: Pipeline) -> Seq<char> {
    match f {
        Frame::Pipeline => "pipeline"@,
        Frame::Step(i) => spec_step_name(p.steps.vec@[i as int]),
        Frame::Package(i) => spec_package_name(p.packages.vec@[i as int]),
        Frame::Repo(i) => spec_repo_name(p.repos.vec@[i as int]),
    }
}

/// The frame names of the editor stack, each preceded by a colon.
pub open spec fn spec_prompt_frames(stack: Seq<Frame>, p: Pipeline) -> Seq<char>
    decreases stack.len(),
{
    if stack.len() == 0 {
        Seq::empty()
    } else {
        spec_prompt_frames(stack.drop_last(), p) + ":"@ + spec_frame_name(stack.last(), p)
    }
}

/// What setting one attribute does to a draft repository.
pub open spec fn repo_set(a: Repo, b: Repo, key: Seq<char>, value: Seq<char>) -> bool {
    key == "url"@ && b.url is Given && b.url->Given_0@ == value
}

/// What setting one attribute does to a draft package.
pub open spec fn package_set(a: Package, b: Package, key: Seq<char>, value: Seq<char>) -> bool {
    ||| (key == "name"@ && b.name is Given && b.name->Given_0@ == value
        && b.provider == a.provider)
    ||| (key == "provider"@ && key != "name"@ && b.provider is Given
        && b.provider->Given_0@ == value && b.name == a.name)
}

/// What setting one attribute does to a draft step.
pub open spec fn step_set(a: Step, b: Step, key: Seq<char>, value: Seq<char>) -> bool {
    ||| (key == "name"@ && b.name is Given && b.name->Given_0@ == value
        && b.script == a.script && b.depends == a.depends)
    ||| (key == "script"@ && key != "name"@ && b.script is Given
        && b.script->Given_0@ == value && b.name == a.name && b.depends == a.depends)
    ||| (key == "depends"@ && key != "name"@ && key != "script"@
        && b.depends@.len() == 0 && b.name == a.name && b.script == a.script)
}

/// The state of the configuration shell: the pipeline being edited and the
/// stack of frames the editor has descended into.
#[derive(Debug)]
pub struct CfgState {
    pub stack: Vec<Frame>,
    pub pipeline: Pipeline,
}

impl Frame {
    /// The name this frame shows in the prompt.
    pub fn name(&self, pipeline: &Pipeline) -> (r: String)
        requires
            frame_valid(*self, *pipeline),
        ensures
            r@ == spec_frame_name(*self, *pipeline),
    {
        match self {
            Frame::Pipeline => pipeline.name(),
            Frame::Step(i) => pipeline.steps.vec[*i].name(),
            Frame::Package(i) => pipeline.packages.vec[*i].name(),
            Frame::Repo(i) => pipeline.repos.vec[*i].name(),
        }
    }
}

impl CfgState {
    /// The editor's well-formedness: the stack starts at the pipeline frame
    /// and every frame addresses an existing entity.
    pub open spec fn wf(&self) -> bool {
        &&& self.stack@.len() >= 1
        &&& self.stack@[0] == Frame::Pipeline
        &&& forall|i: int| 0 <= i < self.stack@.len()
            ==> frame_valid(#[trigger] self.stack@[i], self.pipeline)
    }

    /// A fresh editor over the given draft pipeline.
    pub fn new(pipeline: Pipeline) -> (r: CfgState)
        ensures
            r.wf(),
            r.pipeline == pipeline,
            r.stack@ =~= seq![Frame::Pipeline],
    {
        let mut stack: Vec<Frame> = Vec::new();
        stack.push(Frame::Pipeline);
        CfgState { stack, pipeline }
    }

    /// The prompt shown before each command: the path of frame names.
    pub fn prompt(&self) -> (r: String)
        requires
            self.wf(),
        ensures
            r@ == "cicfg"@ + spec_prompt_frames(self.stack@, self.pipeline) + "> "@,
    {
        let mut s = String::from_str("cicfg");
        let mut i: usize = 0;
        while i < self.stack.len()
            invariant
                self.wf(),
                i <= self.stack@.len(),
                s@ == "cicfg"@ + spec_prompt_frames(self.stack@.subrange(0, i as int),
                    self.pipeline),
            decreases self.stack@.len() - i,
        {
            s.append(":");
            let nm = self.stack[i].name(&self.pipeline);
            s.append(nm.as_str());
            proof {
                let pre = self.stack@.subrange(0, i + 1 as int);
                assert(pre.drop_last() =~= self.stack@.subrange(0, i as int));
                assert(pre.last() == self.stack@[i as int]);
            }
            i = i + 1;
        }
        proof {
            assert(self.stack@.subrange(0, self.stack@.len() as int) =~= self.stack@);
        }
        s.append("> ");
        s
    }

    /// The frame currently being edited.
    pub fn stack_top(&self) -> (r: Option<&Frame>)
        ensures
            match r {
                Option::Some(f) => self.stack@.len() > 0 && f == &self.stack@.last(),
                Option::None => self.stack@.len() == 0,
            },
    {
        if self.stack.len() == 0 {
            Option::None
        } else {
            Option::Some(&self.stack[self.stack.len() - 1])
        }
    }

    /// Descends into the unique entity of the given kind matching the
    /// filter. Only the pipeline frame supports selection.
    pub fn select(&mut self, ty: String, filter: Option<Filter>) -> (r: Result<(), SelectError>)
        requires
            old(self).wf(),
        ensures
            final(self).wf(),
            final(self).pipeline == old(self).pipeline,
            match r {
                Ok(()) => old(self).stack@.last() == Frame::Pipeline
                    && final(self).stack@.len() == old(self).stack@.len() + 1
                    && final(self).stack@.drop_last() == old(self).stack@
                    && selects(old(self).pipeline, ty@, filter, final(self).stack@.last()),
                Err(e) => *final(self) == *old(self) && match e {
                    SelectError::NotSelectable =>
                        !(old(self).stack@.last() == Frame::Pipeline),
                    SelectError::NoMatch => old(self).stack@.last() == Frame::Pipeline
                        && no_selection(old(self).pipeline, ty@, filter),
                    SelectError::AmbiguousMatch => old(self).stack@.last() == Frame::Pipeline
                        && ambiguous_selection(old(self).pipeline, ty@, filter),
                    SelectError::UnknownKind(k) => old(self).stack@.last() == Frame::Pipeline
                        && k == ty && ty@ != "package"@ && ty@ != "repo"@ && ty@ != "step"@,
                },
            },
    {
        let is_pipeline = match self.stack_top() {
            Option::Some(Frame::Pipeline) => true,
            _ => false,
        };
        if !is_pipeline {
            return Err(SelectError::NotSelectable);
        }
        let ghost tyv = ty@;
        match self.pipeline.select(ty, filter) {
            Ok(f) => {
                self.stack.push(f);
                proof {
                    assert(self.stack@.drop_last() =~= old(self).stack@);
                }
                Ok(())
            }
            Err(e) => Err(e),
        }
    }

    /// Sets one attribute of the entity under the current frame.
    pub fn set(&mut self, key: String, value: String) -> (r: Result<(), ValidationError>)
        requires
            old(self).wf(),
        ensures
            final(self).wf(),
            final(self).stack == old(self).stack,
            match r {
                Ok(()) => match old(self).stack@.last() {
                    Frame::Pipeline => key@ == "name"@
                        && final(self).pipeline.name is Given
                        && final(self).pipeline.name->Given_0@ == value@
                        && final(self).pipeline.repos == old(self).pipeline.repos
                        && final(self).pipeline.packages == old(self).pipeline.packages
                        && final(self).pipeline.steps == old(self).pipeline.steps,
                    Frame::Repo(i) => final(self).pipeline.repos.vec@.len()
                            == old(self).pipeline.repos.vec@.len()
                        && repo_set(old(self).pipeline.repos.vec@[i as int],
                            final(self).pipeline.repos.vec@[i as int], key@, value@)
                        && (forall|j: int| 0 <= j < old(self).pipeline.repos.vec@.len()
                            && j != i ==> final(self).pipeline.repos.vec@[j]
                                == old(self).pipeline.repos.vec@[j])
                        && final(self).pipeline.name == old(self).pipeline.name
                        && final(self).pipeline.packages == old(self).pipeline.packages
                        && final(self).pipeline.steps == old(self).pipeline.steps,
                    Frame::Package(i) => final(self).pipeline.packages.vec@.len()
                            == old(self).pipeline.packages.vec@.len()
                        && package_set(old(self).pipeline.packages.vec@[i as int],
                            final(self).pipeline.packages.vec@[i as int], key@, value@)
                        && (forall|j: int| 0 <= j < old(self).pipeline.packages.vec@.len()
                            && j != i ==> final(self).pipeline.packages.vec@[j]
                                == old(self).pipeline.packages.vec@[j])
                        && final(self).pipeline.name == old(self).pipeline.name
                        && final(self).pipeline.repos == old(self).pipeline.repos
                        && final(self).pipeline.steps == old(self).pipeline.steps,
                    Frame::Step(i) => final(self).pipeline.steps.vec@.len()
                            == old(self).pipeline.steps.vec@.len()
                        && step_set(old(self).pipeline.steps.vec@[i as int],
                            final(self).pipeline.steps.vec@[i as int], key@, value@)
                        && (forall|j: int| 0 <= j < old(self).pipeline.steps.vec@.len()
                            && j != i ==> final(self).pipeline.steps.vec@[j]
                                == old(self).pipeline.steps.vec@[j])
                        && final(self).pipeline.name == old(self).pipeline.name
                        && final(self).pipeline.repos == old(self).pipeline.repos
                        && final(self).pipeline.packages == old(self).pipeline.packages,
                },
                Err(e) => final(self).stack == old(self).stack
                    && final(self).pipeline.name == old(self).pipeline.name
                    && final(self).pipeline.repos.vec@ == old(self).pipeline.repos.vec@
                    && final(self).pipeline.packages.vec@ == old(self).pipeline.packages.vec@
                    && final(self).pipeline.steps.vec@ == old(self).pipeline.steps.vec@
                    && e == ValidationError::UnknownAttribute(key)
                    && match old(self).stack@.last() {
                        Frame::Pipeline => key@ != "name"@,
                        Frame::Repo(_) => key@ != "url"@,
                        Frame::Package(_) => key@ != "name"@ && key@ != "provider"@,
                        Frame::Step(_) => key@ != "name"@ && key@ != "script"@
                            && key@ != "depends"@,
                    },
            },
    {
        let top = self.stack.len() - 1;
        let frame = self.stack[top];
        match frame {
            Frame::Pipeline => {
                let r = self.pipeline.set(key, value);
                match r {
                    Ok(()) => Ok(()),
                    Err(e) => Err(e),
                }
            }
            Frame::Repo(i) => {
                let mut tmp = Repo::default();
                self.pipeline.repos.vec.set_and_swap(i, &mut tmp);
                let r = tmp.set(key, value);
                self.pipeline.repos.vec.set_and_swap(i, &mut tmp);
                proof {
                    if r is Err {
                        assert(self.pipeline.repos.vec@ =~= old(self).pipeline.repos.vec@);
                    }
                }
                r
            }
            Frame::Package(i) => {
                let mut tmp = Package::default();
                self.pipeline.packages.vec.set_and_swap(i, &mut tmp);
                let r = tmp.set(key, value);
                self.pipeline.packages.vec.set_and_swap(i, &mut tmp);
                proof {
                    if r is Err {
                        assert(self.pipeline.packages.vec@ =~= old(self).pipeline.packages.vec@);
                    }
                }
                r
            }
            Frame::Step(i) => {
                let mut tmp = Step::default();
                self.pipeline.steps.vec.set_and_swap(i, &mut tmp);
                let r = tmp.set(key, value);
                self.pipeline.steps.vec.set_and_swap(i, &mut tmp);
                proof {
                    if r is Err {
                        assert(self.pipeline.steps.vec@ =~= old(self).pipeline.steps.vec@);
                    }
                }
                r
            }
        }
    }

    /// Adds a fresh draft entity of the given kind and descends into it.
    /// Only the pipeline frame supports adding.
    pub fn add(&mut self, ty: String) -> (r: Result<(), ValidationError>)
        requires
            old(self).wf(),
        ensures
            final(self).wf(),
            match r {
                Ok(()) => old(self).stack@.last() == Frame::Pipeline
                    && final(self).stack@.len() == old(self).stack@.len() + 1
                    && final(self).stack@.drop_last() == old(self).stack@
                    && final(self).pipeline.name == old(self).pipeline.name
                    && {
                    ||| (ty@ == "package"@
                        && final(self).stack@.last()
                            == Frame::Package(old(self).pipeline.packages.vec@.len() as usize)
                        && final(self).pipeline.packages.vec@.len()
                            == old(self).pipeline.packages.vec@.len() + 1
                        && final(self).pipeline.packages.vec@.subrange(0,
                            old(self).pipeline.packages.vec@.len() as int)
                            == old(self).pipeline.packages.vec@
                        && final(self).pipeline.packages.vec@.last().name is Unset
                        && final(self).pipeline.packages.vec@.last().provider is Unset
                        && final(self).pipeline.repos == old(self).pipeline.repos
                        && final(self).pipeline.steps == old(self).pipeline.steps)
                    ||| (ty@ == "repo"@
                        && final(self).stack@.last()
                            == Frame::Repo(old(self).pipeline.repos.vec@.len() as usize)
                        && final(self).pipeline.repos.vec@.len()
                            == old(self).pipeline.repos.vec@.len() + 1
                        && final(self).pipeline.repos.vec@.subrange(0,
                            old(self).pipeline.repos.vec@.len() as int)
                            == old(self).pipeline.repos.vec@
                        && final(self).pipeline.repos.vec@.last().url is Unset
                        && final(self).pipeline.packages == old(self).pipeline.packages
                        && final(self).pipeline.steps == old(self).pipeline.steps)
                    ||| (ty@ == "step"@
                        && final(self).stack@.last()
                            == Frame::Step(old(self).pipeline.steps.vec@.len() as usize)
                        && final(self).pipeline.steps.vec@.len()
                            == old(self).pipeline.steps.vec@.len() + 1
                        && final(self).pipeline.steps.vec@.subrange(0,
                            old(self).pipeline.steps.vec@.len() as int)
                            == old(self).pipeline.steps.vec@
                        && final(self).pipeline.steps.vec@.last().name is Unset
                        && final(self).pipeline.steps.vec@.last().script is Unset
                        && final(self).pipeline.steps.vec@.last().depends@.len() == 0
                        && final(self).pipeline.packages == old(self).pipeline.packages
                        && final(self).pipeline.repos == old(self).pipeline.repos)
                },
                Err(e) => *final(self) == *old(self) && e == ValidationError::UnknownAttribute(ty)
                    && (!(old(self).stack@.last() == Frame::Pipeline)
                        || (ty@ != "package"@ && ty@ != "repo"@ && ty@ != "step"@)),
            },
    {
        proof {
            reveal_strlit("package");
            reveal_strlit("repo");
            reveal_strlit("step");
            assert("package"@.len() == 7);
            assert("repo"@.len() == 4);
            assert("step"@.len() == 4);
            assert("repo"@[0] == 'r');
            assert("step"@[0] == 's');
            assert("package"@ != "repo"@ && "package"@ != "step"@ && "repo"@ != "step"@);
        }
        let is_pipeline = match self.stack_top() {
            Option::Some(Frame::Pipeline) => true,
            _ => false,
        };
        if !is_pipeline {
            return Err(ValidationError::UnknownAttribute(ty));
        }
        if string_is(&ty, "package") {
            let f = self.pipeline.packages.add_empty();
            self.stack.push(f);
            proof {
                self.lemma_grown_frames_valid(*old(self));
                assert(self.stack@.drop_last() =~= old(self).stack@);
            }
            Ok(())
        } else if string_is(&ty, "repo") {
            let f = self.pipeline.repos.add_empty();
            self.stack.push(f);
            proof {
                self.lemma_grown_frames_valid(*old(self));
                assert(self.stack@.drop_last() =~= old(self).stack@);
            }
            Ok(())
        } else if string_is(&ty, "step") {
            let f = self.pipeline.steps.add_empty();
            self.stack.push(f);
            proof {
                self.lemma_grown_frames_valid(*old(self));
                assert(self.stack@.drop_last() =~= old(self).stack@);
            }
            Ok(())
        } else {
            Err(ValidationError::UnknownAttribute(ty))
        }
    }

    /// Every frame of the grown editor still addresses an existing entity
    /// when the collections only grew and one valid frame was pushed.
    proof fn lemma_grown_frames_valid(&self, prev: CfgState)
        requires
            prev.wf(),
            self.stack@.len() == prev.stack@.len() + 1,
            self.stack@.drop_last() =~= prev.stack@,
            frame_valid(self.stack@.last(), self.pipeline),
            prev.pipeline.repos.vec@.len() <= self.pipeline.repos.vec@.len(),
            prev.pipeline.packages.vec@.len() <= self.pipeline.packages.vec@.len(),
            prev.pipeline.steps.vec@.len() <= self.pipeline.steps.vec@.len(),
        ensures
            self.wf(),
    {
        assert forall|i: int| 0 <= i < self.stack@.len()
            implies frame_valid(#[trigger] self.stack@[i], self.pipeline) by {
            if i < prev.stack@.len() {
                assert(self.stack@[i] == prev.stack@[i]);
                assert(frame_valid(prev.stack@[i], prev.pipeline));
            }
        }
        assert(self.stack@[0] == prev.stack@[0]);
    }

    /// Leaves the current frame; at the root there is nothing to end.
    pub fn end(&mut self) -> (r: bool)
        requires
            old(self).wf(),
        ensures
            final(self).wf(),
            final(self).pipeline == old(self).pipeline,
            r == (old(self).stack@.len() > 1),
            r ==> final(self).stack@ == old(self).stack@.drop_last(),
            !r ==> *final(self) == *old(self),
    {
        if self.stack.len() == 1 {
            false
        } else {
            self.stack.pop();
            proof {
                assert(self.stack@ =~= old(self).stack@.drop_last());
            }
            true
        }
    }
}

/// A whitespace character, as the command grammar sees it.
pub open spec fn is_space(c: char) -> bool {
    c == ' ' || c == '\t' || c == '\n' || c == '\r'
}

/// A character an identifier may consist of.
pub open spec fn is_ident_char(c: char) -> bool {
    ('a' <= c && c <= 'z') || ('A' <= c && c <= 'Z') || ('0' <= c && c <= '9') || c == '_'
}

/// The first position at or after `i` holding no whitespace.
pub open spec fn ws_end(s: Seq<char>, i: int) -> int
    decreases s.len() - i,
{
    if 0 <= i < s.len() && is_space(s[i]) {
        ws_end(s, i + 1)
    } else {
        i
    }
}

/// The first position at or after `i` holding no identifier character.
pub open spec fn ident_end(s: Seq<char>, i: int) -> int
    decreases s.len() - i,
{
    if 0 <= i < s.len() && is_ident_char(s[i]) {
        ident_end(s, i + 1)
    } else {
        i
    }
}

/// The literal occurs in `s` at position `i`.
pub open spec fn lit_at(s: Seq<char>, i: int, lit: Seq<char>) -> bool {
    0 <= i && i + lit.len() <= s.len() && s.subrange(i, i + lit.len()) == lit
}

/// A `select` command parses: the keyword, whitespace, and a kind.
pub open spec fn sel_ok(s: Seq<char>, w0: int) -> bool {
    &&& lit_at(s, w0, "select"@)
    &&& ws_end(s, w0 + 6) > w0 + 6
    &&& ident_end(s, ws_end(s, w0 + 6)) > ws_end(s, w0 + 6)
}

/// The kind named by a parsed `select` command.
pub open spec fn sel_ty(s: Seq<char>, w0: int) -> Seq<char> {
    s.subrange(ws_end(s, w0 + 6), ident_end(s, ws_end(s, w0 + 6)))
}

/// A `select` command carries a `key=value` filter.
pub open spec fn sel_has_filter(s: Seq<char>, w0: int) -> bool {
    let c = ident_end(s, ws_end(s, w0 + 6));
    let d = ws_end(s, c);
    let e = ident_end(s, d);
    d > c && e > d && e < s.len() && s[e] == '='
}

/// The filter key of a parsed `select` command.
pub open spec fn sel_filter_key(s: Seq<char>, w0: int) -> Seq<char> {
    let c = ident_end(s, ws_end(s, w0 + 6));
    let d = ws_end(s, c);
    s.subrange(d, ident_end(s, d))
}

/// The filter value of a parsed `select` command: everything after `=`.
pub open spec fn sel_filter_value(s: Seq<char>, w0: int) -> Seq<char> {
    let c = ident_end(s, ws_end(s, w0 + 6));
    let d = ws_end(s, c);
    let e = ident_end(s, d);
    s.subrange(e + 1, s.len() as int)
}

/// A `set` command parses: the keyword, whitespace, a key, `=`.
pub open spec fn set_ok(s: Seq<char>, w0: int) -> bool {
    let b = ws_end(s, w0 + 3);
    let e = ident_end(s, b);
    lit_at(s, w0, "set"@) && b > w0 + 3 && e > b && e < s.len() && s[e] == '='
}

/// The key assigned by a parsed `set` command.
pub open spec fn set_key(s: Seq<char>, w0: int) -> Seq<char> {
    let b = ws_end(s, w0 + 3);
    s.subrange(b, ident_end(s, b))
}

/// The value assigned by a parsed `set` command: everything after `=`.
pub open spec fn set_value(s: Seq<char>, w0: int) -> Seq<char> {
    let b = ws_end(s, w0 + 3);
    let e = ident_end(s, b);
    s.subrange(e + 1, s.len() as int)
}

/// An `add` command parses: the keyword, whitespace, and a kind.
pub open spec fn add_ok(s: Seq<char>, w0: int) -> bool {
    lit_at(s, w0, "add"@) && ws_end(s, w0 + 3) > w0 + 3
        && ident_end(s, ws_end(s, w0 + 3)) > ws_end(s, w0 + 3)
}

/// The kind named by a parsed `add` command.
pub open spec fn add_ty(s: Seq<char>, w0: int) -> Seq<char> {
    s.subrange(ws_end(s, w0 + 3), ident_end(s, ws_end(s, w0 + 3)))
}

/// What parse_command returns for the given input, after leading whitespace:
/// the first of end, print, select, set, add, commit that parses, else
/// nothing.
pub open spec fn parses_to(s: Seq<char>, r: Option<CfgCommand>) -> bool {
    let w0 = ws_end(s, 0);
    if lit_at(s, w0, "end"@) {
        r matches Some(CfgCommand::End)
    } else if lit_at(s, w0, "print"@) {
        r matches Some(CfgCommand::Print)
    } else if sel_ok(s, w0) {
        r matches Some(CfgCommand::Select { ty, filter })
            && ty@ == sel_ty(s, w0)
            && if sel_has_filter(s, w0) {
                filter matches Some(f) && f.key@ == sel_filter_key(s, w0)
                    && f.value@ == sel_filter_value(s, w0)
            } else {
                filter is None
            }
    } else if set_ok(s, w0) {
        r matches Some(CfgCommand::Assign { key, value })
            && key@ == set_key(s, w0) && value@ == set_value(s, w0)
    } else if add_ok(s, w0) {
        r matches Some(CfgCommand::Add { ty }) && ty@ == add_ty(s, w0)
    } else if lit_at(s, w0, "commit"@) {
        r matches Some(CfgCommand::Commit)
    } else {
        r is None
    }
}

/// Whether the literal occurs in `v` at position `i`.
pub(crate) fn lit_at_exec(v: &Vec<char>, i: usize, lit: &str) -> (r: bool)
    ensures
        r == lit_at(v@, i as int, lit@),
{
    let n = lit.unicode_len();
    let vlen = v.len();
    if n > vlen || i > vlen - n {
        return false;
    }
    let mut k: usize = 0;
    while k < n
        invariant
            n == lit@.len(),
            vlen == v@.len(),
            i + n <= v@.len(),
            k <= n,
            forall|j: int| 0 <= j < k ==> v@[i + j] == lit@[j],
        decreases n - k,
    {
        proof {
            assert(i + k < v@.len());
        }
        let vk = i + k;
        if !(v[vk] == lit.get_char(k)) {
            proof {
                assert(v@.subrange(i as int, i + lit@.len())[k as int] != lit@[k as int]);
            }
            return false;
        }
        k = k + 1;
    }
    proof {
        assert(v@.subrange(i as int, i + lit@.len()) =~= lit@);
    }
    true
}

/// The first position at or after `i` holding no whitespace.
pub(crate) fn ws_end_exec(v: &Vec<char>, i: usize) -> (r: usize)
    requires
        i <= v@.len(),
    ensures
        r == ws_end(v@, i as int),
        i <= r <= v@.len(),
{
    let mut j = i;
    while j < v.len() && is_space_exec(v[j])
        invariant
            i <= j <= v@.len(),
            ws_end(v@, i as int) == ws_end(v@, j as int),
        decreases v@.len() - j,
    {
        j = j + 1;
    }
    j
}

/// The first position at or after `i` holding no identifier character.
fn ident_end_exec(v: &Vec<char>, i: usize) -> (r: usize)
    requires
        i <= v@.len(),
    ensures
        r == ident_end(v@, i as int),
        i <= r <= v@.len(),
{
    let mut j = i;
    while j < v.len() && is_ident_char_exec(v[j])
        invariant
            i <= j <= v@.len(),
            ident_end(v@, i as int) == ident_end(v@, j as int),
        decreases v@.len() - j,
    {
        j = j + 1;
    }
    j
}

fn is_space_exec(c: char) -> (r: bool)
    ensures
        r == is_space(c),
{
    c == ' ' || c == '\t' || c == '\n' || c == '\r'
}

fn is_ident_char_exec(c: char) -> (r: bool)
    ensures
        r == is_ident_char(c),
{
    ('a' <= c && c <= 'z') || ('A' <= c && c <= 'Z') || ('0' <= c && c <= '9') || c == '_'
}

/// The characters of `v` between `a` and `b`, as a string.
fn substring_vec(v: &Vec<char>, a: usize, b: usize) -> (r: String)
    requires
        a <= b <= v@.len(),
    ensures
        r@ == v@.subrange(a as int, b as int),
{
    let mut s = String::new();
    let mut j = a;
    while j < b
        invariant
            a <= j <= b <= v@.len(),
            s@ == v@.subrange(a as int, j as int),
        decreases b - j,
    {
        push_char(&mut s, v[j]);
        proof {
            assert(s@ =~= v@.subrange(a as int, j + 1 as int));
        }
        j = j + 1;
    }
    s
}

/// Parses one shell command: `end`, `print`, `select <kind> [key=value]`,
/// `set key=value`, `add <kind>` or `commit`, tried in that order after
/// leading whitespace. Anything else is no command.
pub fn parse_command(input: &str) -> (r: Option<CfgCommand>)
    ensures
        parses_to(input@, r),
{
    proof {
        reveal_strlit("end");
        reveal_strlit("print");
        reveal_strlit("select");
        reveal_strlit("set");
        reveal_strlit("add");
        reveal_strlit("commit");
        assert("select"@.len() == 6);
        assert("set"@.len() == 3);
        assert("add"@.len() == 3);
    }
    let v = str_to_chars(input);
    let _total = v.len();
    let w0 = ws_end_exec(&v, 0);
    if lit_at_exec(&v, w0, "end") {
        return Option::Some(CfgCommand::End);
    }
    if lit_at_exec(&v, w0, "print") {
        return Option::Some(CfgCommand::Print);
    }
    if lit_at_exec(&v, w0, "select") {
        let b = ws_end_exec(&v, w0 + 6);
        if b > w0 + 6 {
            let c = ident_end_exec(&v, b);
            if c > b {
                let ty = substring_vec(&v, b, c);
                let d = ws_end_exec(&v, c);
                let e = ident_end_exec(&v, d);
                let filter = if d > c && e > d && e < v.len() && v[e] == '=' {
                    Option::Some(Filter {
                        key: substring_vec(&v, d, e),
                        value: substring_vec(&v, e + 1, v.len()),
                    })
                } else {
                    Option::None
                };
                return Option::Some(CfgCommand::Select { ty, filter });
            }
        }
    }
    if lit_at_exec(&v, w0, "set") {
        let b = ws_end_exec(&v, w0 + 3);
        if b > w0 + 3 {
            let e = ident_end_exec(&v, b);
            if e > b && e < v.len() && v[e] == '=' {
                let key = substring_vec(&v, b, e);
                let value = substring_vec(&v, e + 1, v.len());
                return Option::Some(CfgCommand::Assign { key, value });
            }
        }
    }
    if lit_at_exec(&v, w0, "add") {
        let b = ws_end_exec(&v, w0 + 3);
        if b > w0 + 3 {
            let c = ident_end_exec(&v, b);
            if c > b {
                let ty = substring_vec(&v, b, c);
                return Option::Some(CfgCommand::Add { ty });
            }
        }
    }
    if lit_at_exec(&v, w0, "commit") {
        return Option::Some(CfgCommand::Commit);
    }
    Option::None
}

} // verus!
