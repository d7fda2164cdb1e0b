//! The stored form of a validated pipeline:
//!
//!   <pipeline name="N"><repo url="U"/>...<package provider="P" name="M"/>...
//!   <step name="S" script="C"><depend name="D"/>...</step>...</pipeline>
//!
//! Saving emits this text; loading parses it back. For pipelines whose
//! strings hold no double quote the two are inverse: parsing a saved
//! pipeline yields the pipeline back, proved below record by record, list by
//! list, and for the whole document.

use vstd::prelude::*;
use vstd::string::*;
use crate::repo::{ValidatedRepo, repo_validated};
use crate::package::{ValidatedPackage, package_validated};
use crate::step::{ValidatedDependency, ValidatedStep, step_thawed};
use crate::pipeline::{Pipeline, ValidatedPipeline};
use crate::repl::{lit_at, lit_at_exec};
use crate::text::{push_char, str_to_chars};

verus! {

/// A character sequence that holds no double quote, as every escaped
/// attribute value does.
pub open spec fn quote_free(u: Seq<char>) -> bool {
    forall|k: int| 0 <= k < u.len() ==> u[k] != '"'
}

/// How one character is stored inside a quoted attribute: the quote and the
/// ampersand are escaped, everything else is written as it is.
pub open spec fn esc_char(c: char) -> Seq<char> {
    if c == '"' {
        "&quot;"@
    } else if c == '&' {
        "&amp;"@
    } else {
        seq![c]
    }
}

/// The escaped form of an attribute value.
pub open spec fn esc(s: Seq<char>) -> Seq<char>
    decreases s.len(),
{
    if s.len() == 0 {
        Seq::empty()
    } else {
        esc_char(s[0]) + esc(s.drop_first())
    }
}

/// The unescaped reading of a stored attribute value: escape sequences are
/// folded back, anything else is taken verbatim.
pub open spec fn unesc(w: Seq<char>) -> Seq<char>
    decreases w.len(),
{
    if w.len() == 0 {
        Seq::empty()
    } else if w.len() >= 6 && w.subrange(0, 6) == "&quot;"@ {
        seq!['"'] + unesc(w.skip(6))
    } else if w.len() >= 5 && w.subrange(0, 5) == "&amp;"@ {
        seq!['&'] + unesc(w.skip(5))
    } else {
        seq![w[0]] + unesc(w.skip(1))
    }
}

/// Escaping never emits a double quote, so a stored value ends exactly at
/// the closing quote of its attribute.
proof fn lemma_esc_quote_free(s: Seq<char>)
    ensures
        quote_free(esc(s)),
    decreases s.len(),
{
    reveal_strlit("&quot;");
    reveal_strlit("&amp;");
    assert("&quot;"@.len() == 6);
    assert("&amp;"@.len() == 5);
    if s.len() > 0 {
        lemma_esc_quote_free(s.drop_first());
        assert forall|k: int| 0 <= k < esc(s).len() implies esc(s)[k] != '"' by {
            if k < esc_char(s[0]).len() {
                assert(esc(s)[k] == esc_char(s[0])[k]);
            } else {
                assert(esc(s)[k] == esc(s.drop_first())[k - esc_char(s[0]).len()]);
            }
        }
    }
}

/// Unescaping inverts escaping: every attribute value reads back as itself.
proof fn lemma_unesc_esc(s: Seq<char>)
    ensures
        unesc(esc(s)) == s,
    decreases s.len(),
{
    reveal_strlit("&quot;");
    reveal_strlit("&amp;");
    assert("&quot;"@.len() == 6);
    assert("&amp;"@.len() == 5);
    if s.len() == 0 {
        assert(unesc(esc(s)) =~= s);
    } else {
        let c = s[0];
        let rest = s.drop_first();
        lemma_unesc_esc(rest);
        let w = esc(s);
        assert(w == esc_char(c) + esc(rest));
        if c == '"' {
            assert(w.subrange(0, 6) =~= "&quot;"@);
            assert(w.skip(6) =~= esc(rest));
            assert(unesc(w) == seq!['"'] + unesc(w.skip(6)));
            assert(unesc(w) =~= s);
        } else if c == '&' {
            if w.len() >= 6 && w.subrange(0, 6) == "&quot;"@ {
                assert(w.subrange(0, 6)[1] == w[1]);
                assert(w[1] == 'a');
                assert(false);
            }
            assert(w.subrange(0, 5) =~= "&amp;"@);
            assert(w.skip(5) =~= esc(rest));
            assert(unesc(w) == seq!['&'] + unesc(w.skip(5)));
            assert(unesc(w) =~= s);
        } else {
            assert(w[0] == c);
            if w.len() >= 6 && w.subrange(0, 6) == "&quot;"@ {
                assert(w.subrange(0, 6)[0] == w[0]);
                assert(false);
            }
            if w.len() >= 5 && w.subrange(0, 5) == "&amp;"@ {
                assert(w.subrange(0, 5)[0] == w[0]);
                assert(false);
            }
            assert(w.skip(1) =~= esc(rest));
            assert(unesc(w) == seq![c] + unesc(w.skip(1)));
            assert(unesc(w) =~= s);
        }
    }
}

/// The string contents of a pipeline: its name, its repository URLs, its
/// package (provider, name) pairs, and its step (name, script, dependency
/// names) triples.
pub open spec fn repo_urls(rs: Seq<ValidatedRepo>) -> Seq<Seq<char>> {
    rs.map_values(|r: ValidatedRepo| r.url@)
}

pub open spec fn package_views(ps: Seq<ValidatedPackage>) -> Seq<(Seq<char>, Seq<char>)> {
    ps.map_values(|p: ValidatedPackage| (p.provider@, p.name@))
}

pub open spec fn dep_names(ds: Seq<ValidatedDependency>) -> Seq<Seq<char>> {
    ds.map_values(|d: ValidatedDependency| d.name@)
}

pub open spec fn step_views(ss: Seq<ValidatedStep>)
    -> Seq<(Seq<char>, Seq<char>, Seq<Seq<char>>)> {
    ss.map_values(|s: ValidatedStep| (s.name@, s.script@, dep_names(s.depends@)))
}

pub open spec fn pipeline_view(vp: ValidatedPipeline)
    -> (Seq<char>, Seq<Seq<char>>, Seq<(Seq<char>, Seq<char>)>,
        Seq<(Seq<char>, Seq<char>, Seq<Seq<char>>)>) {
    (vp.name@, repo_urls(vp.repos.vec@), package_views(vp.packages.vec@),
        step_views(vp.steps.vec@))
}

/// The stored form of each record and of the whole document.
pub open spec fn spec_save_repo(r: ValidatedRepo) -> Seq<char> {
    "<repo url=\""@ + esc(r.url@) + "\"/>"@
}

pub open spec fn spec_save_repos(rs: Seq<ValidatedRepo>) -> Seq<char>
    decreases rs.len(),
{
    if rs.len() == 0 {
        Seq::empty()
    } else {
        spec_save_repo(rs[0]) + spec_save_repos(rs.drop_first())
    }
}

pub open spec fn spec_save_package(p: ValidatedPackage) -> Seq<char> {
    "<package provider=\""@ + esc(p.provider@) + "\" name=\""@ + esc(p.name@) + "\"/>"@
}

pub open spec fn spec_save_packages(ps: Seq<ValidatedPackage>) -> Seq<char>
    decreases ps.len(),
{
    if ps.len() == 0 {
        Seq::empty()
    } else {
        spec_save_package(ps[0]) + spec_save_packages(ps.drop_first())
    }
}

pub open spec fn spec_save_dep(d: ValidatedDependency) -> Seq<char> {
    "<depend name=\""@ + esc(d.name@) + "\"/>"@
}

pub open spec fn spec_save_deps(ds: Seq<ValidatedDependency>) -> Seq<char>
    decreases ds.len(),
{
    if ds.len() == 0 {
        Seq::empty()
    } else {
        spec_save_dep(ds[0]) + spec_save_deps(ds.drop_first())
    }
}

pub open spec fn spec_save_step(s: ValidatedStep) -> Seq<char> {
    "<step name=\""@ + esc(s.name@) + "\" script=\""@ + esc(s.script@) + "\">"@
        + spec_save_deps(s.depends@) + "</step>"@
}

pub open spec fn spec_save_steps(ss: Seq<ValidatedStep>) -> Seq<char>
    decreases ss.len(),
{
    if ss.len() == 0 {
        Seq::empty()
    } else {
        spec_save_step(ss[0]) + spec_save_steps(ss.drop_first())
    }
}

pub open spec fn spec_save_pipeline(vp: ValidatedPipeline) -> Seq<char> {
    "<pipeline name=\""@ + esc(vp.name@) + "\">"@
        + spec_save_repos(vp.repos.vec@)
        + spec_save_packages(vp.packages.vec@)
        + spec_save_steps(vp.steps.vec@)
        + "</pipeline>"@
}

/// The first position at or after `i` holding a double quote, or the end.
pub open spec fn quote_end(s: Seq<char>, i: int) -> int
    decreases s.len() - i,
{
    if 0 <= i < s.len() && s[i] != '"' {
        quote_end(s, i + 1)
    } else {
        i
    }
}

/// What parsing one repository record at position `i` yields: the URL and
/// the position after the record.
pub open spec fn spec_parse_repo(s: Seq<char>, i: int) -> Option<(Seq<char>, int)> {
    if lit_at(s, i, "<repo url=\""@) {
        let a = i + 11;
        let e = quote_end(s, a);
        if lit_at(s, e, "\"/>"@) {
            Some((unesc(s.subrange(a, e)), e + 3))
        } else {
            None
        }
    } else {
        None
    }
}

/// The repository records at position `i`, read greedily, and the position
/// after the last one.
pub open spec fn spec_parse_repos(s: Seq<char>, i: int) -> (Seq<Seq<char>>, int)
    decreases s.len() - i,
{
    match spec_parse_repo(s, i) {
        Some(p) => if i < p.1 <= s.len() {
            let rest = spec_parse_repos(s, p.1);
            (seq![p.0] + rest.0, rest.1)
        } else {
            (Seq::empty(), i)
        },
        None => (Seq::empty(), i),
    }
}

/// What parsing one package record at position `i` yields.
pub open spec fn spec_parse_package(s: Seq<char>, i: int)
    -> Option<((Seq<char>, Seq<char>), int)> {
    if lit_at(s, i, "<package provider=\""@) {
        let a = i + 19;
        let e1 = quote_end(s, a);
        if lit_at(s, e1, "\" name=\""@) {
            let b = e1 + 8;
            let e2 = quote_end(s, b);
            if lit_at(s, e2, "\"/>"@) {
                Some(((unesc(s.subrange(a, e1)), unesc(s.subrange(b, e2))), e2 + 3))
            } else {
                None
            }
        } else {
            None
        }
    } else {
        None
    }
}

pub open spec fn spec_parse_packages(s: Seq<char>, i: int)
    -> (Seq<(Seq<char>, Seq<char>)>, int)
    decreases s.len() - i,
{
    match spec_parse_package(s, i) {
        Some(p) => if i < p.1 <= s.len() {
            let rest = spec_parse_packages(s, p.1);
            (seq![p.0] + rest.0, rest.1)
        } else {
            (Seq::empty(), i)
        },
        None => (Seq::empty(), i),
    }
}

/// What parsing one dependency record at position `i` yields.
pub open spec fn spec_parse_dep(s: Seq<char>, i: int) -> Option<(Seq<char>, int)> {
    if lit_at(s, i, "<depend name=\""@) {
        let a = i + 14;
        let e = quote_end(s, a);
        if lit_at(s, e, "\"/>"@) {
            Some((unesc(s.subrange(a, e)), e + 3))
        } else {
            None
        }
    } else {
        None
    }
}

pub open spec fn spec_parse_deps(s: Seq<char>, i: int) -> (Seq<Seq<char>>, int)
    decreases s.len() - i,
{
    match spec_parse_dep(s, i) {
        Some(p) => if i < p.1 <= s.len() {
            let rest = spec_parse_deps(s, p.1);
            (seq![p.0] + rest.0, rest.1)
        } else {
            (Seq::empty(), i)
        },
        None => (Seq::empty(), i),
    }
}

/// What parsing one step record at position `i` yields: name, script,
/// dependency names, and the position after `</step>`.
pub open spec fn spec_parse_step(s: Seq<char>, i: int)
    -> Option<((Seq<char>, Seq<char>, Seq<Seq<char>>), int)> {
    if lit_at(s, i, "<step name=\""@) {
        let a = i + 12;
        let e1 = quote_end(s, a);
        if lit_at(s, e1, "\" script=\""@) {
            let b = e1 + 10;
            let e2 = quote_end(s, b);
            if lit_at(s, e2, "\">"@) {
                let dp = spec_parse_deps(s, e2 + 2);
                if lit_at(s, dp.1, "</step>"@) {
                    Some(((unesc(s.subrange(a, e1)), unesc(s.subrange(b, e2)), dp.0),
                        dp.1 + 7))
                } else {
                    None
                }
            } else {
                None
            }
        } else {
            None
        }
    } else {
        None
    }
}

pub open spec fn spec_parse_steps(s: Seq<char>, i: int)
    -> (Seq<(Seq<char>, Seq<char>, Seq<Seq<char>>)>, int)
    decreases s.len() - i,
{
    match spec_parse_step(s, i) {
        Some(p) => if i < p.1 <= s.len() {
            let rest = spec_parse_steps(s, p.1);
            (seq![p.0] + rest.0, rest.1)
        } else {
            (Seq::empty(), i)
        },
        None => (Seq::empty(), i),
    }
}

/// What parsing a whole stored pipeline yields: its name, URLs, packages and
/// steps — provided the text is one well-formed document and nothing else.
pub open spec fn spec_parse_pipeline(s: Seq<char>)
    -> Option<(Seq<char>, Seq<Seq<char>>, Seq<(Seq<char>, Seq<char>)>,
        Seq<(Seq<char>, Seq<char>, Seq<Seq<char>>)>)> {
    if lit_at(s, 0, "<pipeline name=\""@) {
        let e = quote_end(s, 16);
        if lit_at(s, e, "\">"@) {
            let rp = spec_parse_repos(s, e + 2);
            let pp = spec_parse_packages(s, rp.1);
            let sp = spec_parse_steps(s, pp.1);
            if lit_at(s, sp.1, "</pipeline>"@) && sp.1 + 11 == s.len() {
                Some((unesc(s.subrange(16, e)), rp.0, pp.0, sp.0))
            } else {
                None
            }
        } else {
            None
        }
    } else {
        None
    }
}

/// Scanning for a quote skips exactly the quote-free region before one.
proof fn lemma_quote_end_lands(s: Seq<char>, i: int, j: int)
    requires
        0 <= i <= j < s.len(),
        forall|k: int| i <= k < j ==> s[k] != '"',
        s[j] == '"',
    ensures
        quote_end(s, i) == j,
    decreases j - i,
{
    if i < j {
        lemma_quote_end_lands(s, i + 1, j);
    }
}

/// Parsing at the start of a saved repository record yields its URL and
/// consumes exactly the record.
#[verifier::rlimit(100)]
proof fn lemma_parse_repo_at(s: Seq<char>, i: int, r: ValidatedRepo)
    requires
        0 <= i,
        i + spec_save_repo(r).len() <= s.len(),
        s.subrange(i, i + spec_save_repo(r).len() as int) == spec_save_repo(r),
    ensures
        spec_parse_repo(s, i) == Some((r.url@, i + spec_save_repo(r).len() as int)),
        spec_save_repo(r).len() >= 14,
{
    reveal_strlit("<repo url=\"");
    reveal_strlit("\"/>");
    assert("<repo url=\""@.len() == 11);
    assert("\"/>"@.len() == 3);
    lemma_esc_quote_free(r.url@);
    lemma_unesc_esc(r.url@);
    let n = esc(r.url@).len() as int;
    let tot = spec_save_repo(r).len() as int;
    assert(tot == 14 + n);
    assert forall|k: int| i <= k < i + tot implies #[trigger] s[k] == spec_save_repo(r)[k - i] by {
        assert(s.subrange(i, i + tot)[k - i] == s[k]);
    }
    assert(s.subrange(i, i + 11) =~= "<repo url=\""@);
    assert(lit_at(s, i, "<repo url=\""@));
    assert forall|k: int| i + 11 <= k < i + 11 + n implies s[k] != '"' by {
        assert(s[k] == spec_save_repo(r)[k - i]);
        assert(spec_save_repo(r)[k - i] == esc(r.url@)[k - i - 11]);
    }
    assert(s[i + 11 + n] == spec_save_repo(r)[11 + n]);
    assert(spec_save_repo(r)[11 + n] == '"');
    lemma_quote_end_lands(s, i + 11, i + 11 + n);
    assert(s.subrange(i + 11 + n, i + 11 + n + 3) =~= "\"/>"@);
    assert(lit_at(s, i + 11 + n, "\"/>"@));
    assert(s.subrange(i + 11, i + 11 + n) =~= esc(r.url@));
    assert(unesc(s.subrange(i + 11, i + 11 + n)) == r.url@);
}

/// Parsing at the start of a saved dependency record yields its name and
/// consumes exactly the record.
#[verifier::rlimit(100)]
proof fn lemma_parse_dep_at(s: Seq<char>, i: int, d: ValidatedDependency)
    requires
        0 <= i,
        i + spec_save_dep(d).len() <= s.len(),
        s.subrange(i, i + spec_save_dep(d).len() as int) == spec_save_dep(d),
    ensures
        spec_parse_dep(s, i) == Some((d.name@, i + spec_save_dep(d).len() as int)),
        spec_save_dep(d).len() >= 17,
{
    reveal_strlit("<depend name=\"");
    reveal_strlit("\"/>");
    assert("<depend name=\""@.len() == 14);
    assert("\"/>"@.len() == 3);
    lemma_esc_quote_free(d.name@);
    lemma_unesc_esc(d.name@);
    let n = esc(d.name@).len() as int;
    let tot = spec_save_dep(d).len() as int;
    assert(tot == 17 + n);
    assert forall|k: int| i <= k < i + tot implies #[trigger] s[k] == spec_save_dep(d)[k - i] by {
        assert(s.subrange(i, i + tot)[k - i] == s[k]);
    }
    assert(s.subrange(i, i + 14) =~= "<depend name=\""@);
    assert(lit_at(s, i, "<depend name=\""@));
    assert forall|k: int| i + 14 <= k < i + 14 + n implies s[k] != '"' by {
        assert(s[k] == spec_save_dep(d)[k - i]);
        assert(spec_save_dep(d)[k - i] == esc(d.name@)[k - i - 14]);
    }
    assert(s[i + 14 + n] == spec_save_dep(d)[14 + n]);
    assert(spec_save_dep(d)[14 + n] == '"');
    lemma_quote_end_lands(s, i + 14, i + 14 + n);
    assert(s.subrange(i + 14 + n, i + 14 + n + 3) =~= "\"/>"@);
    assert(lit_at(s, i + 14 + n, "\"/>"@));
    assert(s.subrange(i + 14, i + 14 + n) =~= esc(d.name@));
    assert(unesc(s.subrange(i + 14, i + 14 + n)) == d.name@);
}

/// Parsing at the start of a saved package record yields its provider and
/// name and consumes exactly the record.
#[verifier::rlimit(100)]
proof fn lemma_parse_package_at(s: Seq<char>, i: int, p: ValidatedPackage)
    requires
        0 <= i,
        i + spec_save_package(p).len() <= s.len(),
        s.subrange(i, i + spec_save_package(p).len() as int) == spec_save_package(p),
    ensures
        spec_parse_package(s, i) == Some(((p.provider@, p.name@),
            i + spec_save_package(p).len() as int)),
        spec_save_package(p).len() >= 30,
{
    reveal_strlit("<package provider=\"");
    reveal_strlit("\" name=\"");
    reveal_strlit("\"/>");
    assert("<package provider=\""@.len() == 19);
    assert("\" name=\""@.len() == 8);
    assert("\"/>"@.len() == 3);
    lemma_esc_quote_free(p.provider@);
    lemma_unesc_esc(p.provider@);
    lemma_esc_quote_free(p.name@);
    lemma_unesc_esc(p.name@);
    let n1 = esc(p.provider@).len() as int;
    let n2 = esc(p.name@).len() as int;
    let tot = spec_save_package(p).len() as int;
    assert(tot == 30 + n1 + n2);
    assert forall|k: int| i <= k < i + tot
        implies #[trigger] s[k] == spec_save_package(p)[k - i] by {
        assert(s.subrange(i, i + tot)[k - i] == s[k]);
    }
    assert(s.subrange(i, i + 19) =~= "<package provider=\""@);
    assert(lit_at(s, i, "<package provider=\""@));
    assert forall|k: int| i + 19 <= k < i + 19 + n1 implies s[k] != '"' by {
        assert(s[k] == spec_save_package(p)[k - i]);
        assert(spec_save_package(p)[k - i] == esc(p.provider@)[k - i - 19]);
    }
    let e1 = i + 19 + n1;
    assert(s[e1] == spec_save_package(p)[19 + n1]);
    assert(spec_save_package(p)[19 + n1] == '"');
    lemma_quote_end_lands(s, i + 19, e1);
    assert(s.subrange(e1, e1 + 8) =~= "\" name=\""@);
    assert(lit_at(s, e1, "\" name=\""@));
    let b = e1 + 8;
    assert forall|k: int| b <= k < b + n2 implies s[k] != '"' by {
        assert(s[k] == spec_save_package(p)[k - i]);
        assert(spec_save_package(p)[k - i] == esc(p.name@)[k - i - 27 - n1]);
    }
    assert(s[b + n2] == spec_save_package(p)[27 + n1 + n2]);
    assert(spec_save_package(p)[27 + n1 + n2] == '"');
    lemma_quote_end_lands(s, b, b + n2);
    assert(s.subrange(b + n2, b + n2 + 3) =~= "\"/>"@);
    assert(lit_at(s, b + n2, "\"/>"@));
    assert(s.subrange(i + 19, e1) =~= esc(p.provider@));
    assert(unesc(s.subrange(i + 19, e1)) == p.provider@);
    assert(s.subrange(b, b + n2) =~= esc(p.name@));
    assert(unesc(s.subrange(b, b + n2)) == p.name@);
}

/// Parsing the saved dependency list at position `i` yields exactly the
/// dependency names and stops where the list ends, provided the text after
/// the list does not continue with another dependency record.
#[verifier::rlimit(100)]
proof fn lemma_parse_deps_at(s: Seq<char>, i: int, ds: Seq<ValidatedDependency>)
    requires
        0 <= i,
        i + spec_save_deps(ds).len() <= s.len(),
        s.subrange(i, i + spec_save_deps(ds).len() as int) == spec_save_deps(ds),
        i + spec_save_deps(ds).len() + 1 < s.len()
            ==> s[i + spec_save_deps(ds).len() + 1] != 'd',
    ensures
        spec_parse_deps(s, i) == (dep_names(ds), i + spec_save_deps(ds).len() as int),
    decreases ds.len(),
{
    reveal_strlit("<depend name=\"");
    assert("<depend name=\""@.len() == 14);
    if ds.len() == 0 {
        if lit_at(s, i, "<depend name=\""@) {
            assert(s.subrange(i, i + 14)[1] == s[i + 1]);
            assert(s[i + 1] == 'd');
            assert(false);
        }
        assert(dep_names(ds) =~= Seq::<Seq<char>>::empty());
    } else {
        let d0 = ds[0];
        let rest = ds.drop_first();
        let rl = spec_save_dep(d0).len() as int;
        let rtot = spec_save_deps(rest).len() as int;
        let tot = spec_save_deps(ds).len() as int;
        assert(spec_save_deps(ds) == spec_save_dep(d0) + spec_save_deps(rest));
        assert(tot == rl + rtot);
        assert forall|k: int| i <= k < i + tot
            implies #[trigger] s[k] == spec_save_deps(ds)[k - i] by {
            assert(s.subrange(i, i + tot)[k - i] == s[k]);
        }
        assert(s.subrange(i, i + rl) =~= spec_save_dep(d0));
        lemma_parse_dep_at(s, i, d0);
        let j = i + rl;
        assert(s.subrange(j, j + rtot) =~= spec_save_deps(rest));
        lemma_parse_deps_at(s, j, rest);
        assert(spec_parse_dep(s, i) == Some((d0.name@, j)));
        assert(i < j <= s.len());
        assert(spec_parse_deps(s, i).0 =~= dep_names(ds));
        assert(spec_parse_deps(s, i).1 == i + tot);
    }
}

/// Parsing the saved repository list at position `i` yields exactly the
/// URLs, provided the text after the list does not continue with another
/// repository record.
#[verifier::rlimit(100)]
proof fn lemma_parse_repos_at(s: Seq<char>, i: int, rs: Seq<ValidatedRepo>)
    requires
        0 <= i,
        i + spec_save_repos(rs).len() <= s.len(),
        s.subrange(i, i + spec_save_repos(rs).len() as int) == spec_save_repos(rs),
        i + spec_save_repos(rs).len() + 1 < s.len()
            ==> s[i + spec_save_repos(rs).len() + 1] != 'r',
    ensures
        spec_parse_repos(s, i) == (repo_urls(rs), i + spec_save_repos(rs).len() as int),
    decreases rs.len(),
{
    reveal_strlit("<repo url=\"");
    assert("<repo url=\""@.len() == 11);
    if rs.len() == 0 {
        if lit_at(s, i, "<repo url=\""@) {
            assert(s.subrange(i, i + 11)[1] == s[i + 1]);
            assert(s[i + 1] == 'r');
            assert(false);
        }
        assert(repo_urls(rs) =~= Seq::<Seq<char>>::empty());
    } else {
        let r0 = rs[0];
        let rest = rs.drop_first();
        let rl = spec_save_repo(r0).len() as int;
        let rtot = spec_save_repos(rest).len() as int;
        let tot = spec_save_repos(rs).len() as int;
        assert(spec_save_repos(rs) == spec_save_repo(r0) + spec_save_repos(rest));
        assert(tot == rl + rtot);
        assert forall|k: int| i <= k < i + tot
            implies #[trigger] s[k] == spec_save_repos(rs)[k - i] by {
            assert(s.subrange(i, i + tot)[k - i] == s[k]);
        }
        assert(s.subrange(i, i + rl) =~= spec_save_repo(r0));
        lemma_parse_repo_at(s, i, r0);
        let j = i + rl;
        assert(s.subrange(j, j + rtot) =~= spec_save_repos(rest));
        lemma_parse_repos_at(s, j, rest);
        assert(spec_parse_repo(s, i) == Some((r0.url@, j)));
        assert(i < j <= s.len());
        assert(spec_parse_repos(s, i).0 =~= repo_urls(rs));
        assert(spec_parse_repos(s, i).1 == i + tot);
    }
}

/// Parsing the saved package list at position `i` yields exactly the
/// (provider, name) pairs, provided the text after the list does not
/// continue with another package record.
#[verifier::rlimit(100)]
proof fn lemma_parse_packages_at(s: Seq<char>, i: int, ps: Seq<ValidatedPackage>)
    requires
        0 <= i,
        i + spec_save_packages(ps).len() <= s.len(),
        s.subrange(i, i + spec_save_packages(ps).len() as int) == spec_save_packages(ps),
        i + spec_save_packages(ps).len() + 1 < s.len()
            ==> s[i + spec_save_packages(ps).len() + 1] != 'p',
    ensures
        spec_parse_packages(s, i)
            == (package_views(ps), i + spec_save_packages(ps).len() as int),
    decreases ps.len(),
{
    reveal_strlit("<package provider=\"");
    assert("<package provider=\""@.len() == 19);
    if ps.len() == 0 {
        if lit_at(s, i, "<package provider=\""@) {
            assert(s.subrange(i, i + 19)[1] == s[i + 1]);
            assert(s[i + 1] == 'p');
            assert(false);
        }
        assert(package_views(ps) =~= Seq::<(Seq<char>, Seq<char>)>::empty());
    } else {
        let p0 = ps[0];
        let rest = ps.drop_first();
        let rl = spec_save_package(p0).len() as int;
        let rtot = spec_save_packages(rest).len() as int;
        let tot = spec_save_packages(ps).len() as int;
        assert(spec_save_packages(ps) == spec_save_package(p0) + spec_save_packages(rest));
        assert(tot == rl + rtot);
        assert forall|k: int| i <= k < i + tot
            implies #[trigger] s[k] == spec_save_packages(ps)[k - i] by {
            assert(s.subrange(i, i + tot)[k - i] == s[k]);
        }
        assert(s.subrange(i, i + rl) =~= spec_save_package(p0));
        lemma_parse_package_at(s, i, p0);
        let j = i + rl;
        assert(s.subrange(j, j + rtot) =~= spec_save_packages(rest));
        lemma_parse_packages_at(s, j, rest);
        assert(spec_parse_package(s, i) == Some(((p0.provider@, p0.name@), j)));
        assert(i < j <= s.len());
        assert(spec_parse_packages(s, i).0 =~= package_views(ps));
        assert(spec_parse_packages(s, i).1 == i + tot);
    }
}

/// Parsing at the start of a saved step record yields its name, script and
/// dependency names, and consumes exactly the record.
#[verifier::rlimit(100)]
#[verifier::spinoff_prover]
proof fn lemma_parse_step_at(s: Seq<char>, i: int, st: ValidatedStep)
    requires
        0 <= i,
        i + spec_save_step(st).len() <= s.len(),
        s.subrange(i, i + spec_save_step(st).len() as int) == spec_save_step(st),
    ensures
        spec_parse_step(s, i) == Some(((st.name@, st.script@, dep_names(st.depends@)),
            i + spec_save_step(st).len() as int)),
        spec_save_step(st).len() >= 31,
{
    reveal_strlit("<step name=\"");
    reveal_strlit("\" script=\"");
    reveal_strlit("\">");
    reveal_strlit("</step>");
    assert("<step name=\""@.len() == 12);
    assert("\" script=\""@.len() == 10);
    assert("\">"@.len() == 2);
    assert("</step>"@.len() == 7);
    lemma_esc_quote_free(st.name@);
    lemma_unesc_esc(st.name@);
    lemma_esc_quote_free(st.script@);
    lemma_unesc_esc(st.script@);
    let n1 = esc(st.name@).len() as int;
    let n2 = esc(st.script@).len() as int;
    let dl = spec_save_deps(st.depends@).len() as int;
    let tot = spec_save_step(st).len() as int;
    assert(tot == 31 + n1 + n2 + dl);
    assert forall|k: int| i <= k < i + tot
        implies #[trigger] s[k] == spec_save_step(st)[k - i] by {
        assert(s.subrange(i, i + tot)[k - i] == s[k]);
    }
    assert(s.subrange(i, i + 12) =~= "<step name=\""@);
    assert(lit_at(s, i, "<step name=\""@));
    assert forall|k: int| i + 12 <= k < i + 12 + n1 implies s[k] != '"' by {
        assert(s[k] == spec_save_step(st)[k - i]);
        assert(spec_save_step(st)[k - i] == esc(st.name@)[k - i - 12]);
    }
    let e1 = i + 12 + n1;
    assert(s[e1] == spec_save_step(st)[12 + n1]);
    assert(spec_save_step(st)[12 + n1] == '"');
    lemma_quote_end_lands(s, i + 12, e1);
    assert(s.subrange(e1, e1 + 10) =~= "\" script=\""@);
    assert(lit_at(s, e1, "\" script=\""@));
    let b = e1 + 10;
    assert forall|k: int| b <= k < b + n2 implies s[k] != '"' by {
        assert(s[k] == spec_save_step(st)[k - i]);
        assert(spec_save_step(st)[k - i] == esc(st.script@)[k - i - 22 - n1]);
    }
    let e2 = b + n2;
    assert(s[e2] == spec_save_step(st)[22 + n1 + n2]);
    assert(spec_save_step(st)[22 + n1 + n2] == '"');
    lemma_quote_end_lands(s, b, e2);
    assert(s.subrange(e2, e2 + 2) =~= "\">"@);
    assert(lit_at(s, e2, "\">"@));
    let c = e2 + 2;
    assert(s.subrange(c, c + dl) =~= spec_save_deps(st.depends@));
    assert(s[c + dl + 1] == spec_save_step(st)[24 + n1 + n2 + dl + 1]);
    assert(spec_save_step(st)[24 + n1 + n2 + dl + 1] == '/');
    lemma_parse_deps_at(s, c, st.depends@);
    assert(s.subrange(c + dl, c + dl + 7) =~= "</step>"@);
    assert(lit_at(s, c + dl, "</step>"@));
    assert(s.subrange(i + 12, e1) =~= esc(st.name@));
    assert(unesc(s.subrange(i + 12, e1)) == st.name@);
    assert(s.subrange(b, e2) =~= esc(st.script@));
    assert(unesc(s.subrange(b, e2)) == st.script@);
}

/// Parsing the saved step list at position `i` yields exactly the step
/// views, provided the text after the list does not continue with another
/// step record.
#[verifier::rlimit(100)]
proof fn lemma_parse_steps_at(s: Seq<char>, i: int, ss: Seq<ValidatedStep>)
    requires
        0 <= i,
        i + spec_save_steps(ss).len() <= s.len(),
        s.subrange(i, i + spec_save_steps(ss).len() as int) == spec_save_steps(ss),
        i + spec_save_steps(ss).len() + 1 < s.len()
            ==> s[i + spec_save_steps(ss).len() + 1] != 's',
    ensures
        spec_parse_steps(s, i) == (step_views(ss), i + spec_save_steps(ss).len() as int),
    decreases ss.len(),
{
    reveal_strlit("<step name=\"");
    assert("<step name=\""@.len() == 12);
    if ss.len() == 0 {
        if lit_at(s, i, "<step name=\""@) {
            assert(s.subrange(i, i + 12)[1] == s[i + 1]);
            assert(s[i + 1] == 's');
            assert(false);
        }
        assert(step_views(ss) =~= Seq::<(Seq<char>, Seq<char>, Seq<Seq<char>>)>::empty());
    } else {
        let s0 = ss[0];
        let rest = ss.drop_first();
        let rl = spec_save_step(s0).len() as int;
        let rtot = spec_save_steps(rest).len() as int;
        let tot = spec_save_steps(ss).len() as int;
        assert(spec_save_steps(ss) == spec_save_step(s0) + spec_save_steps(rest));
        assert(tot == rl + rtot);
        assert forall|k: int| i <= k < i + tot
            implies #[trigger] s[k] == spec_save_steps(ss)[k - i] by {
            assert(s.subrange(i, i + tot)[k - i] == s[k]);
        }
        assert(s.subrange(i, i + rl) =~= spec_save_step(s0));
        lemma_parse_step_at(s, i, s0);
        let j = i + rl;
        assert(s.subrange(j, j + rtot) =~= spec_save_steps(rest));
        lemma_parse_steps_at(s, j, rest);
        assert(spec_parse_step(s, i)
            == Some(((s0.name@, s0.script@, dep_names(s0.depends@)), j)));
        assert(i < j <= s.len());
        assert(spec_parse_steps(s, i).0 =~= step_views(ss));
        assert(spec_parse_steps(s, i).1 == i + tot);
    }
}

/// Round trip: parsing a saved pipeline yields the pipeline's contents
/// back, for every validated pipeline — escaping makes the stored form safe
/// for arbitrary strings.
#[verifier::rlimit(100)]
pub proof fn lemma_pipeline_round_trip(vp: ValidatedPipeline)
    ensures
        spec_parse_pipeline(spec_save_pipeline(vp)) == Some(pipeline_view(vp)),
{
    reveal_strlit("<pipeline name=\"");
    reveal_strlit("\">");
    reveal_strlit("</pipeline>");
    reveal_strlit("<package provider=\"");
    reveal_strlit("<step name=\"");
    assert("<pipeline name=\""@.len() == 16);
    assert("\">"@.len() == 2);
    assert("</pipeline>"@.len() == 11);
    assert("<package provider=\""@.len() == 19);
    assert("<step name=\""@.len() == 12);
    lemma_esc_quote_free(vp.name@);
    lemma_unesc_esc(vp.name@);
    let s = spec_save_pipeline(vp);
    let nn = esc(vp.name@).len() as int;
    let e = 16 + nn;
    let c = e + 2;
    let rl = spec_save_repos(vp.repos.vec@).len() as int;
    let p1 = c + rl;
    let pl = spec_save_packages(vp.packages.vec@).len() as int;
    let p2 = p1 + pl;
    let sl = spec_save_steps(vp.steps.vec@).len() as int;
    let p3 = p2 + sl;
    assert(s.len() == p3 + 11);
    assert(s.subrange(0, 16) =~= "<pipeline name=\""@);
    assert(lit_at(s, 0, "<pipeline name=\""@));
    assert forall|k: int| 16 <= k < e implies s[k] != '"' by {
        assert(s[k] == esc(vp.name@)[k - 16]);
    }
    assert(s[e] == '"');
    lemma_quote_end_lands(s, 16, e);
    assert(s.subrange(e, c) =~= "\">"@);
    assert(lit_at(s, e, "\">"@));
    assert(s.subrange(c, p1) =~= spec_save_repos(vp.repos.vec@));
    if vp.packages.vec@.len() > 0 {
        assert(spec_save_packages(vp.packages.vec@)
            == spec_save_package(vp.packages.vec@[0])
                + spec_save_packages(vp.packages.vec@.drop_first()));
        assert(s[p1 + 1] == spec_save_package(vp.packages.vec@[0])[1]);
        assert(s[p1 + 1] == 'p');
    } else if vp.steps.vec@.len() > 0 {
        assert(pl == 0);
        assert(spec_save_steps(vp.steps.vec@)
            == spec_save_step(vp.steps.vec@[0])
                + spec_save_steps(vp.steps.vec@.drop_first()));
        assert(s[p1 + 1] == spec_save_step(vp.steps.vec@[0])[1]);
        assert(s[p1 + 1] == 's');
    } else {
        assert(pl == 0 && sl == 0);
        assert(s[p1 + 1] == "</pipeline>"@[1]);
        assert(s[p1 + 1] == '/');
    }
    lemma_parse_repos_at(s, c, vp.repos.vec@);
    assert(s.subrange(p1, p2) =~= spec_save_packages(vp.packages.vec@));
    if vp.steps.vec@.len() > 0 {
        assert(spec_save_steps(vp.steps.vec@)
            == spec_save_step(vp.steps.vec@[0])
                + spec_save_steps(vp.steps.vec@.drop_first()));
        assert(s[p2 + 1] == spec_save_step(vp.steps.vec@[0])[1]);
        assert(s[p2 + 1] == 's');
    } else {
        assert(sl == 0);
        assert(s[p2 + 1] == "</pipeline>"@[1]);
        assert(s[p2 + 1] == '/');
    }
    lemma_parse_packages_at(s, p1, vp.packages.vec@);
    assert(s.subrange(p2, p3) =~= spec_save_steps(vp.steps.vec@));
    assert(s[p3 + 1] == "</pipeline>"@[1]);
    assert(s[p3 + 1] == '/');
    lemma_parse_steps_at(s, p2, vp.steps.vec@);
    assert(s.subrange(p3, p3 + 11) =~= "</pipeline>"@);
    assert(lit_at(s, p3, "</pipeline>"@));
    assert(s.subrange(16, e) =~= esc(vp.name@));
    assert(unesc(s.subrange(16, e)) == vp.name@);
}

/// The first position at or after `i` holding a double quote, or the end.
fn quote_end_exec(v: &Vec<char>, i: usize) -> (r: usize)
    requires
        i <= v@.len(),
    ensures
        r == quote_end(v@, i as int),
        i <= r <= v@.len(),
{
    let mut j = i;
    while j < v.len() && !(v[j] == '"')
        invariant
            i <= j <= v@.len(),
            quote_end(v@, i as int) == quote_end(v@, j as int),
        decreases v@.len() - j,
    {
        j = j + 1;
    }
    j
}

/// Writes the escaped form of one attribute value.
fn escaped(f: &str) -> (out: String)
    ensures
        out@ == esc(f@),
{
    proof {
        reveal_strlit("&quot;");
        reveal_strlit("&amp;");
        assert("&quot;"@.len() == 6);
        assert("&amp;"@.len() == 5);
    }
    let n = f.unicode_len();
    let mut out = String::new();
    proof {
        assert(f@.skip(0) =~= f@);
    }
    let mut i: usize = 0;
    while i < n
        invariant
            n == f@.len(),
            i <= n,
            out@ + esc(f@.skip(i as int)) == esc(f@),
        decreases n - i,
    {
        let c = f.get_char(i);
        let ghost oold = out@;
        if c == '"' {
            out.append("&quot;");
        } else if c == '&' {
            out.append("&amp;");
        } else {
            push_char(&mut out, c);
        }
        proof {
            let sk = f@.skip(i as int);
            assert(sk[0] == f@[i as int]);
            assert(sk.drop_first() =~= f@.skip(i + 1 as int));
            assert(esc(sk) == esc_char(sk[0]) + esc(sk.drop_first()));
            assert(out@ =~= oold + esc_char(f@[i as int]));
            assert(out@ + esc(f@.skip(i + 1 as int)) =~= oold + esc(sk));
        }
        i = i + 1;
    }
    proof {
        assert(f@.skip(n as int) =~= Seq::<char>::empty());
        assert(out@ + esc(f@.skip(n as int)) =~= out@);
        assert(out@ =~= esc(f@));
    }
    out
}

/// Reads the characters of `v` between `a` and `b` back as an attribute
/// value, folding escape sequences.
fn unescape_range(v: &Vec<char>, a: usize, b: usize) -> (out: String)
    requires
        a <= b <= v@.len(),
    ensures
        out@ == unesc(v@.subrange(a as int, b as int)),
{
    proof {
        reveal_strlit("&quot;");
        reveal_strlit("&amp;");
        assert("&quot;"@.len() == 6);
        assert("&amp;"@.len() == 5);
    }
    let ghost w = v@.subrange(a as int, b as int);
    let mut out = String::new();
    proof {
        assert(w.skip(0) =~= w);
    }
    let mut j = a;
    while j < b
        invariant
            a <= j <= b <= v@.len(),
            w == v@.subrange(a as int, b as int),
            out@ + unesc(w.skip(j - a as int)) == unesc(w),
        decreases b - j,
    {
        let ghost sk = w.skip(j - a as int);
        let ghost oold = out@;
        proof {
            reveal_strlit("&quot;");
            reveal_strlit("&amp;");
            assert("&quot;"@.len() == 6);
            assert("&amp;"@.len() == 5);
            assert(sk.len() == b - j);
        }
        if b - j >= 6 && lit_at_exec(v, j, "&quot;") {
            push_char(&mut out, '"');
            proof {
                assert(v@.subrange(j as int, j + 6) == "&quot;"@);
                assert(sk.subrange(0, 6) =~= v@.subrange(j as int, j + 6));
                assert(sk.subrange(0, 6) == "&quot;"@);
                assert(unesc(sk) == seq!['"'] + unesc(sk.skip(6)));
                assert(sk.skip(6) =~= w.skip(j + 6 - a as int));
                assert(out@ =~= oold + seq!['"']);
                assert(out@ + unesc(w.skip(j + 6 - a as int)) =~= oold + unesc(sk));
            }
            j = j + 6;
        } else if b - j >= 5 && lit_at_exec(v, j, "&amp;") {
            push_char(&mut out, '&');
            proof {
                if sk.len() >= 6 && sk.subrange(0, 6) == "&quot;"@ {
                    assert(v@.subrange(j as int, j + 6) =~= sk.subrange(0, 6));
                    assert(lit_at(v@, j as int, "&quot;"@));
                    assert(false);
                }
                assert(v@.subrange(j as int, j + 5) == "&amp;"@);
                assert(sk.subrange(0, 5) =~= v@.subrange(j as int, j + 5));
                assert(sk.subrange(0, 5) == "&amp;"@);
                assert(unesc(sk) == seq!['&'] + unesc(sk.skip(5)));
                assert(sk.skip(5) =~= w.skip(j + 5 - a as int));
                assert(out@ =~= oold + seq!['&']);
                assert(out@ + unesc(w.skip(j + 5 - a as int)) =~= oold + unesc(sk));
            }
            j = j + 5;
        } else {
            let c = v[j];
            push_char(&mut out, c);
            proof {
                if sk.len() >= 6 && sk.subrange(0, 6) == "&quot;"@ {
                    assert(v@.subrange(j as int, j + 6) =~= sk.subrange(0, 6));
                    assert(lit_at(v@, j as int, "&quot;"@));
                    assert(false);
                }
                if sk.len() >= 5 && sk.subrange(0, 5) == "&amp;"@ {
                    assert(v@.subrange(j as int, j + 5) =~= sk.subrange(0, 5));
                    assert(lit_at(v@, j as int, "&amp;"@));
                    assert(false);
                }
                assert(unesc(sk) == seq![sk[0]] + unesc(sk.skip(1)));
                assert(sk[0] == c);
                assert(sk.skip(1) =~= w.skip(j + 1 - a as int));
                assert(out@ =~= oold + seq![c]);
                assert(out@ + unesc(w.skip(j + 1 - a as int)) =~= oold + unesc(sk));
            }
            j = j + 1;
        }
    }
    proof {
        assert(w.skip(b - a as int) =~= Seq::<char>::empty());
        assert(out@ + unesc(w.skip(b - a as int)) =~= out@);
        assert(out@ =~= unesc(w));
    }
    out
}

/// Emits the stored form of one repository.
pub fn save_repo_record(r: &ValidatedRepo) -> (out: String)
    ensures
        out@ == spec_save_repo(*r),
{
    let mut s = String::from_str("<repo url=\"");
    let eu = escaped(r.url.as_str());
    s.append(eu.as_str());
    s.append("\"/>");
    s
}

/// Emits the stored form of one package.
pub fn save_package_record(p: &ValidatedPackage) -> (out: String)
    ensures
        out@ == spec_save_package(*p),
{
    let mut s = String::from_str("<package provider=\"");
    let ep = escaped(p.provider.as_str());
    s.append(ep.as_str());
    s.append("\" name=\"");
    let en = escaped(p.name.as_str());
    s.append(en.as_str());
    s.append("\"/>");
    s
}

/// Emits the stored form of one dependency.
pub fn save_dep_record(d: &ValidatedDependency) -> (out: String)
    ensures
        out@ == spec_save_dep(*d),
{
    let mut s = String::from_str("<depend name=\"");
    let en = escaped(d.name.as_str());
    s.append(en.as_str());
    s.append("\"/>");
    s
}

/// Emits the stored form of one step, dependencies included.
pub fn save_step_record(st: &ValidatedStep) -> (out: String)
    ensures
        out@ == spec_save_step(*st),
{
    let mut s = String::from_str("<step name=\"");
    let en = escaped(st.name.as_str());
    s.append(en.as_str());
    s.append("\" script=\"");
    let es = escaped(st.script.as_str());
    s.append(es.as_str());
    s.append("\">");
    let ghost base = s@;
    proof {
        assert(st.depends@.skip(0) =~= st.depends@);
    }
    let mut k: usize = 0;
    while k < st.depends.len()
        invariant
            k <= st.depends@.len(),
            s@ + spec_save_deps(st.depends@.skip(k as int))
                == base + spec_save_deps(st.depends@),
        decreases st.depends@.len() - k,
    {
        let rec = save_dep_record(&st.depends[k]);
        let ghost sold = s@;
        let ghost sk = st.depends@.skip(k as int);
        s.append(rec.as_str());
        proof {
            assert(sk[0] == st.depends@[k as int]);
            assert(sk.drop_first() =~= st.depends@.skip(k + 1 as int));
            assert(spec_save_deps(sk)
                == spec_save_dep(sk[0]) + spec_save_deps(sk.drop_first()));
            assert(s@ + spec_save_deps(st.depends@.skip(k + 1 as int))
                =~= sold + spec_save_deps(sk));
        }
        k = k + 1;
    }
    proof {
        assert(st.depends@.skip(st.depends@.len() as int)
            =~= Seq::<ValidatedDependency>::empty());
        assert(s@ + spec_save_deps(st.depends@.skip(st.depends@.len() as int)) =~= s@);
        assert(s@ =~= base + spec_save_deps(st.depends@));
    }
    s.append("</step>");
    proof {
        assert(s@ =~= spec_save_step(*st));
    }
    s
}

/// Emits the stored form of the whole pipeline.
pub fn save_pipeline(vp: &ValidatedPipeline) -> (out: String)
    ensures
        out@ == spec_save_pipeline(*vp),
{
    let mut s = String::from_str("<pipeline name=\"");
    let en = escaped(vp.name.as_str());
    s.append(en.as_str());
    s.append("\">");
    let ghost base1 = s@;
    proof {
        assert(vp.repos.vec@.skip(0) =~= vp.repos.vec@);
    }
    let mut k: usize = 0;
    while k < vp.repos.vec.len()
        invariant
            k <= vp.repos.vec@.len(),
            s@ + spec_save_repos(vp.repos.vec@.skip(k as int))
                == base1 + spec_save_repos(vp.repos.vec@),
        decreases vp.repos.vec@.len() - k,
    {
        let rec = save_repo_record(&vp.repos.vec[k]);
        let ghost sold = s@;
        let ghost sk = vp.repos.vec@.skip(k as int);
        s.append(rec.as_str());
        proof {
            assert(sk[0] == vp.repos.vec@[k as int]);
            assert(sk.drop_first() =~= vp.repos.vec@.skip(k + 1 as int));
            assert(spec_save_repos(sk)
                == spec_save_repo(sk[0]) + spec_save_repos(sk.drop_first()));
            assert(s@ + spec_save_repos(vp.repos.vec@.skip(k + 1 as int))
                =~= sold + spec_save_repos(sk));
        }
        k = k + 1;
    }
    proof {
        assert(vp.repos.vec@.skip(vp.repos.vec@.len() as int)
            =~= Seq::<ValidatedRepo>::empty());
        assert(s@ + spec_save_repos(vp.repos.vec@.skip(vp.repos.vec@.len() as int)) =~= s@);
        assert(s@ =~= base1 + spec_save_repos(vp.repos.vec@));
    }
    let ghost base2 = s@;
    proof {
        assert(vp.packages.vec@.skip(0) =~= vp.packages.vec@);
    }
    let mut k: usize = 0;
    while k < vp.packages.vec.len()
        invariant
            k <= vp.packages.vec@.len(),
            s@ + spec_save_packages(vp.packages.vec@.skip(k as int))
                == base2 + spec_save_packages(vp.packages.vec@),
        decreases vp.packages.vec@.len() - k,
    {
        let rec = save_package_record(&vp.packages.vec[k]);
        let ghost sold = s@;
        let ghost sk = vp.packages.vec@.skip(k as int);
        s.append(rec.as_str());
        proof {
            assert(sk[0] == vp.packages.vec@[k as int]);
            assert(sk.drop_first() =~= vp.packages.vec@.skip(k + 1 as int));
            assert(spec_save_packages(sk)
                == spec_save_package(sk[0]) + spec_save_packages(sk.drop_first()));
            assert(s@ + spec_save_packages(vp.packages.vec@.skip(k + 1 as int))
                =~= sold + spec_save_packages(sk));
        }
        k = k + 1;
    }
    proof {
        assert(vp.packages.vec@.skip(vp.packages.vec@.len() as int)
            =~= Seq::<ValidatedPackage>::empty());
        assert(s@ + spec_save_packages(vp.packages.vec@.skip(vp.packages.vec@.len() as int))
            =~= s@);
        assert(s@ =~= base2 + spec_save_packages(vp.packages.vec@));
    }
    let ghost base3 = s@;
    proof {
        assert(vp.steps.vec@.skip(0) =~= vp.steps.vec@);
    }
    let mut k: usize = 0;
    while k < vp.steps.vec.len()
        invariant
            k <= vp.steps.vec@.len(),
            s@ + spec_save_steps(vp.steps.vec@.skip(k as int))
                == base3 + spec_save_steps(vp.steps.vec@),
        decreases vp.steps.vec@.len() - k,
    {
        let rec = save_step_record(&vp.steps.vec[k]);
        let ghost sold = s@;
        let ghost sk = vp.steps.vec@.skip(k as int);
        s.append(rec.as_str());
        proof {
            assert(sk[0] == vp.steps.vec@[k as int]);
            assert(sk.drop_first() =~= vp.steps.vec@.skip(k + 1 as int));
            assert(spec_save_steps(sk)
                == spec_save_step(sk[0]) + spec_save_steps(sk.drop_first()));
            assert(s@ + spec_save_steps(vp.steps.vec@.skip(k + 1 as int))
                =~= sold + spec_save_steps(sk));
        }
        k = k + 1;
    }
    proof {
        assert(vp.steps.vec@.skip(vp.steps.vec@.len() as int)
            =~= Seq::<ValidatedStep>::empty());
        assert(s@ + spec_save_steps(vp.steps.vec@.skip(vp.steps.vec@.len() as int)) =~= s@);
        assert(s@ =~= base3 + spec_save_steps(vp.steps.vec@));
    }
    s.append("</pipeline>");
    proof {
        assert(s@ =~= spec_save_pipeline(*vp));
    }
    s
}

/// Reads one repository record at position `i`.
fn parse_repo_record(v: &Vec<char>, i: usize) -> (r: Option<(ValidatedRepo, usize)>)
    requires
        i <= v@.len(),
    ensures
        match r {
            Some(p) => spec_parse_repo(v@, i as int) == Some((p.0.url@, p.1 as int))
                && i < p.1 <= v@.len(),
            None => spec_parse_repo(v@, i as int) is None,
        },
{
    proof {
        reveal_strlit("<repo url=\"");
        assert("<repo url=\""@.len() == 11);
    }
    let total = v.len();
    if !lit_at_exec(v, i, "<repo url=\"") {
        return Option::None;
    }
    let a = i + 11;
    let e = quote_end_exec(v, a);
    if !lit_at_exec(v, e, "\"/>") {
        return Option::None;
    }
    proof {
        reveal_strlit("\"/>");
        assert("\"/>"@.len() == 3);
    }
    let url = unescape_range(v, a, e);
    Option::Some((ValidatedRepo { url }, e + 3))
}

/// Reads one package record at position `i`.
fn parse_package_record(v: &Vec<char>, i: usize) -> (r: Option<(ValidatedPackage, usize)>)
    requires
        i <= v@.len(),
    ensures
        match r {
            Some(p) => spec_parse_package(v@, i as int)
                == Some(((p.0.provider@, p.0.name@), p.1 as int))
                && i < p.1 <= v@.len(),
            None => spec_parse_package(v@, i as int) is None,
        },
{
    proof {
        reveal_strlit("<package provider=\"");
        reveal_strlit("\" name=\"");
        reveal_strlit("\"/>");
        assert("<package provider=\""@.len() == 19);
        assert("\" name=\""@.len() == 8);
        assert("\"/>"@.len() == 3);
    }
    let total = v.len();
    if !lit_at_exec(v, i, "<package provider=\"") {
        return Option::None;
    }
    let a = i + 19;
    let e1 = quote_end_exec(v, a);
    if !lit_at_exec(v, e1, "\" name=\"") {
        return Option::None;
    }
    let b = e1 + 8;
    let e2 = quote_end_exec(v, b);
    if !lit_at_exec(v, e2, "\"/>") {
        return Option::None;
    }
    let provider = unescape_range(v, a, e1);
    let name = unescape_range(v, b, e2);
    Option::Some((ValidatedPackage { provider, name }, e2 + 3))
}

/// Reads one dependency record at position `i`.
fn parse_dep_record(v: &Vec<char>, i: usize) -> (r: Option<(ValidatedDependency, usize)>)
    requires
        i <= v@.len(),
    ensures
        match r {
            Some(p) => spec_parse_dep(v@, i as int) == Some((p.0.name@, p.1 as int))
                && i < p.1 <= v@.len(),
            None => spec_parse_dep(v@, i as int) is None,
        },
{
    proof {
        reveal_strlit("<depend name=\"");
        assert("<depend name=\""@.len() == 14);
    }
    let total = v.len();
    if !lit_at_exec(v, i, "<depend name=\"") {
        return Option::None;
    }
    let a = i + 14;
    let e = quote_end_exec(v, a);
    if !lit_at_exec(v, e, "\"/>") {
        return Option::None;
    }
    proof {
        reveal_strlit("\"/>");
        assert("\"/>"@.len() == 3);
    }
    let name = unescape_range(v, a, e);
    Option::Some((ValidatedDependency { name }, e + 3))
}

/// Reads the dependency records at position `i`, greedily.
fn parse_deps(v: &Vec<char>, i: usize) -> (r: (Vec<ValidatedDependency>, usize))
    requires
        i <= v@.len(),
    ensures
        spec_parse_deps(v@, i as int) == (dep_names(r.0@), r.1 as int),
        i <= r.1 <= v@.len(),
{
    let mut out: Vec<ValidatedDependency> = Vec::new();
    let mut pos = i;
    loop
        invariant
            i <= pos <= v@.len(),
            spec_parse_deps(v@, i as int).0
                == dep_names(out@) + spec_parse_deps(v@, pos as int).0,
            spec_parse_deps(v@, i as int).1 == spec_parse_deps(v@, pos as int).1,
        ensures
            spec_parse_deps(v@, i as int) == (dep_names(out@), pos as int),
            i <= pos <= v@.len(),
        decreases v@.len() - pos,
    {
        match parse_dep_record(v, pos) {
            Option::Some((dep, j)) => {
                let ghost oold = out@;
                out.push(dep);
                proof {
                    assert(dep_names(out@) =~= dep_names(oold).push(dep.name@));
                    assert(dep_names(oold) + (seq![dep.name@]
                        + spec_parse_deps(v@, j as int).0)
                        =~= dep_names(out@) + spec_parse_deps(v@, j as int).0);
                }
                pos = j;
            }
            Option::None => {
                proof {
                    assert(spec_parse_deps(v@, pos as int).0
                        =~= Seq::<Seq<char>>::empty());
                    assert(dep_names(out@) + Seq::<Seq<char>>::empty() =~= dep_names(out@));
                }
                break;
            }
        }
    }
    (out, pos)
}

/// Reads the repository records at position `i`, greedily.
fn parse_repos(v: &Vec<char>, i: usize) -> (r: (Vec<ValidatedRepo>, usize))
    requires
        i <= v@.len(),
    ensures
        spec_parse_repos(v@, i as int) == (repo_urls(r.0@), r.1 as int),
        i <= r.1 <= v@.len(),
{
    let mut out: Vec<ValidatedRepo> = Vec::new();
    let mut pos = i;
    loop
        invariant
            i <= pos <= v@.len(),
            spec_parse_repos(v@, i as int).0
                == repo_urls(out@) + spec_parse_repos(v@, pos as int).0,
            spec_parse_repos(v@, i as int).1 == spec_parse_repos(v@, pos as int).1,
        ensures
            spec_parse_repos(v@, i as int) == (repo_urls(out@), pos as int),
            i <= pos <= v@.len(),
        decreases v@.len() - pos,
    {
        match parse_repo_record(v, pos) {
            Option::Some((repo, j)) => {
                let ghost oold = out@;
                out.push(repo);
                proof {
                    assert(repo_urls(out@) =~= repo_urls(oold).push(repo.url@));
                    assert(repo_urls(oold) + (seq![repo.url@]
                        + spec_parse_repos(v@, j as int).0)
                        =~= repo_urls(out@) + spec_parse_repos(v@, j as int).0);
                }
                pos = j;
            }
            Option::None => {
                proof {
                    assert(spec_parse_repos(v@, pos as int).0
                        =~= Seq::<Seq<char>>::empty());
                    assert(repo_urls(out@) + Seq::<Seq<char>>::empty() =~= repo_urls(out@));
                }
                break;
            }
        }
    }
    (out, pos)
}

/// Reads the package records at position `i`, greedily.
fn parse_packages(v: &Vec<char>, i: usize) -> (r: (Vec<ValidatedPackage>, usize))
    requires
        i <= v@.len(),
    ensures
        spec_parse_packages(v@, i as int) == (package_views(r.0@), r.1 as int),
        i <= r.1 <= v@.len(),
{
    let mut out: Vec<ValidatedPackage> = Vec::new();
    let mut pos = i;
    loop
        invariant
            i <= pos <= v@.len(),
            spec_parse_packages(v@, i as int).0
                == package_views(out@) + spec_parse_packages(v@, pos as int).0,
            spec_parse_packages(v@, i as int).1 == spec_parse_packages(v@, pos as int).1,
        ensures
            spec_parse_packages(v@, i as int) == (package_views(out@), pos as int),
            i <= pos <= v@.len(),
        decreases v@.len() - pos,
    {
        match parse_package_record(v, pos) {
            Option::Some((pkg, j)) => {
                let ghost oold = out@;
                let ghost pv = (pkg.provider@, pkg.name@);
                out.push(pkg);
                proof {
                    assert(package_views(out@) =~= package_views(oold).push(pv));
                    assert(package_views(oold) + (seq![pv]
                        + spec_parse_packages(v@, j as int).0)
                        =~= package_views(out@) + spec_parse_packages(v@, j as int).0);
                }
                pos = j;
            }
            Option::None => {
                proof {
                    assert(spec_parse_packages(v@, pos as int).0
                        =~= Seq::<(Seq<char>, Seq<char>)>::empty());
                    assert(package_views(out@) + Seq::<(Seq<char>, Seq<char>)>::empty()
                        =~= package_views(out@));
                }
                break;
            }
        }
    }
    (out, pos)
}

/// Reads one step record at position `i`, dependencies included.
fn parse_step_record(v: &Vec<char>, i: usize) -> (r: Option<(ValidatedStep, usize)>)
    requires
        i <= v@.len(),
    ensures
        match r {
            Some(p) => spec_parse_step(v@, i as int)
                == Some(((p.0.name@, p.0.script@, dep_names(p.0.depends@)), p.1 as int))
                && i < p.1 <= v@.len(),
            None => spec_parse_step(v@, i as int) is None,
        },
{
    proof {
        reveal_strlit("<step name=\"");
        reveal_strlit("\" script=\"");
        reveal_strlit("\">");
        reveal_strlit("</step>");
        assert("<step name=\""@.len() == 12);
        assert("\" script=\""@.len() == 10);
        assert("\">"@.len() == 2);
        assert("</step>"@.len() == 7);
    }
    let total = v.len();
    if !lit_at_exec(v, i, "<step name=\"") {
        return Option::None;
    }
    let a = i + 12;
    let e1 = quote_end_exec(v, a);
    if !lit_at_exec(v, e1, "\" script=\"") {
        return Option::None;
    }
    let b = e1 + 10;
    let e2 = quote_end_exec(v, b);
    if !lit_at_exec(v, e2, "\">") {
        return Option::None;
    }
    let (deps, m) = parse_deps(v, e2 + 2);
    if !lit_at_exec(v, m, "</step>") {
        return Option::None;
    }
    let name = unescape_range(v, a, e1);
    let script = unescape_range(v, b, e2);
    Option::Some((ValidatedStep { name, script, depends: deps }, m + 7))
}

/// Reads the step records at position `i`, greedily.
fn parse_steps(v: &Vec<char>, i: usize) -> (r: (Vec<ValidatedStep>, usize))
    requires
        i <= v@.len(),
    ensures
        spec_parse_steps(v@, i as int) == (step_views(r.0@), r.1 as int),
        i <= r.1 <= v@.len(),
{
    let mut out: Vec<ValidatedStep> = Vec::new();
    let mut pos = i;
    loop
        invariant
            i <= pos <= v@.len(),
            spec_parse_steps(v@, i as int).0
                == step_views(out@) + spec_parse_steps(v@, pos as int).0,
            spec_parse_steps(v@, i as int).1 == spec_parse_steps(v@, pos as int).1,
        ensures
            spec_parse_steps(v@, i as int) == (step_views(out@), pos as int),
            i <= pos <= v@.len(),
        decreases v@.len() - pos,
    {
        match parse_step_record(v, pos) {
            Option::Some((st, j)) => {
                let ghost oold = out@;
                let ghost sv = (st.name@, st.script@, dep_names(st.depends@));
                out.push(st);
                proof {
                    assert(step_views(out@) =~= step_views(oold).push(sv));
                    assert(step_views(oold) + (seq![sv]
                        + spec_parse_steps(v@, j as int).0)
                        =~= step_views(out@) + spec_parse_steps(v@, j as int).0);
                }
                pos = j;
            }
            Option::None => {
                proof {
                    assert(spec_parse_steps(v@, pos as int).0
                        =~= Seq::<(Seq<char>, Seq<char>, Seq<Seq<char>>)>::empty());
                    assert(step_views(out@)
                        + Seq::<(Seq<char>, Seq<char>, Seq<Seq<char>>)>::empty()
                        =~= step_views(out@));
                }
                break;
            }
        }
    }
    (out, pos)
}

/// Reads a whole stored pipeline back; the text must be exactly one saved
/// document.
pub fn load_pipeline(input: &str) -> (r: Option<ValidatedPipeline>)
    ensures
        match r {
            Some(vp) => spec_parse_pipeline(input@) == Some(pipeline_view(vp)),
            None => spec_parse_pipeline(input@) is None,
        },
{
    proof {
        reveal_strlit("<pipeline name=\"");
        reveal_strlit("\">");
        reveal_strlit("</pipeline>");
        assert("<pipeline name=\""@.len() == 16);
        assert("\">"@.len() == 2);
        assert("</pipeline>"@.len() == 11);
    }
    let v = str_to_chars(input);
    let total = v.len();
    if !lit_at_exec(&v, 0, "<pipeline name=\"") {
        return Option::None;
    }
    let e = quote_end_exec(&v, 16);
    if !lit_at_exec(&v, e, "\">") {
        return Option::None;
    }
    let (repos, p1) = parse_repos(&v, e + 2);
    let (packages, p2) = parse_packages(&v, p1);
    let (steps, p3) = parse_steps(&v, p2);
    if !lit_at_exec(&v, p3, "</pipeline>") {
        return Option::None;
    }
    if p3 + 11 != total {
        return Option::None;
    }
    let name = unescape_range(&v, 16, e);
    Option::Some(ValidatedPipeline {
        name,
        repos: crate::repo::ValidatedRepos { vec: repos },
        packages: crate::package::ValidatedPackages { vec: packages },
        steps: crate::step::ValidatedSteps { vec: steps },
    })
}

/// The draft faithfully carries the parsed contents: every field set and
/// equal, element by element.
pub open spec fn draft_matches_view(p: Pipeline,
    pv: (Seq<char>, Seq<Seq<char>>, Seq<(Seq<char>, Seq<char>)>,
        Seq<(Seq<char>, Seq<char>, Seq<Seq<char>>)>)) -> bool {
    &&& p.name is Given && p.name->Given_0@ == pv.0
    &&& p.repos.vec@.len() == pv.1.len()
    &&& forall|i: int| 0 <= i < pv.1.len()
        ==> (#[trigger] p.repos.vec@[i]).url is Given
            && p.repos.vec@[i].url->Given_0@ == pv.1[i]
    &&& p.packages.vec@.len() == pv.2.len()
    &&& forall|i: int| 0 <= i < pv.2.len()
        ==> (#[trigger] p.packages.vec@[i]).provider is Given
            && p.packages.vec@[i].provider->Given_0@ == pv.2[i].0
            && p.packages.vec@[i].name is Given
            && p.packages.vec@[i].name->Given_0@ == pv.2[i].1
    &&& p.steps.vec@.len() == pv.3.len()
    &&& forall|i: int| 0 <= i < pv.3.len()
        ==> (#[trigger] p.steps.vec@[i]).name is Given
            && p.steps.vec@[i].name->Given_0@ == pv.3[i].0
            && p.steps.vec@[i].script is Given
            && p.steps.vec@[i].script->Given_0@ == pv.3[i].1
            && p.steps.vec@[i].depends@.len() == pv.3[i].2.len()
            && forall|k: int| 0 <= k < pv.3[i].2.len()
                ==> (#[trigger] p.steps.vec@[i].depends@[k]).name is Given
                    && p.steps.vec@[i].depends@[k].name->Given_0@ == pv.3[i].2[k]
}

impl Pipeline {
    /// The draft to edit for the given stored state: the stored pipeline
    /// thawed for re-editing, a fresh draft when nothing is stored yet, and
    /// nothing when the stored text is not one well-formed pipeline — the
    /// caller surfaces that rather than overwrite a corrupt store.
    pub fn load_or_create(name: &String, stored: Option<&String>) -> (r: Option<Pipeline>)
        ensures
            match r {
                Some(p) => match stored {
                    Some(text) => spec_parse_pipeline(text@) matches Some(pv)
                        && draft_matches_view(p, pv),
                    None => p.name is Given && p.name->Given_0@ == name@
                        && p.repos.vec@.len() == 0
                        && p.packages.vec@.len() == 0
                        && p.steps.vec@.len() == 0,
                },
                None => stored matches Some(text) && spec_parse_pipeline(text@) is None,
            },
    {
        match stored {
            Option::None => Option::Some(Pipeline::new(name)),
            Option::Some(text) => match load_pipeline(text.as_str()) {
                Option::Some(vp) => {
                    let p = vp.as_pipeline();
                    proof {
                        let pv = pipeline_view(vp);
                        assert forall|i: int| 0 <= i < pv.1.len()
                            implies (#[trigger] p.repos.vec@[i]).url is Given
                                && p.repos.vec@[i].url->Given_0@ == pv.1[i] by {
                            assert(repo_validated(p.repos.vec@[i], vp.repos.vec@[i]));
                            assert(pv.1[i] == vp.repos.vec@[i].url@);
                        }
                        assert forall|i: int| 0 <= i < pv.2.len()
                            implies (#[trigger] p.packages.vec@[i]).provider is Given
                                && p.packages.vec@[i].provider->Given_0@ == pv.2[i].0
                                && p.packages.vec@[i].name is Given
                                && p.packages.vec@[i].name->Given_0@ == pv.2[i].1 by {
                            assert(package_validated(p.packages.vec@[i], vp.packages.vec@[i]));
                            assert(pv.2[i] == (vp.packages.vec@[i].provider@,
                                vp.packages.vec@[i].name@));
                        }
                        assert forall|i: int| 0 <= i < pv.3.len()
                            implies (#[trigger] p.steps.vec@[i]).name is Given
                                && p.steps.vec@[i].name->Given_0@ == pv.3[i].0
                                && p.steps.vec@[i].script is Given
                                && p.steps.vec@[i].script->Given_0@ == pv.3[i].1
                                && p.steps.vec@[i].depends@.len() == pv.3[i].2.len()
                                && (forall|k: int| 0 <= k < pv.3[i].2.len()
                                    ==> (#[trigger] p.steps.vec@[i].depends@[k]).name is Given
                                        && p.steps.vec@[i].depends@[k].name->Given_0@
                                            == pv.3[i].2[k]) by {
                            assert(step_thawed(p.steps.vec@[i], vp.steps.vec@[i]));
                            assert(pv.3[i] == (vp.steps.vec@[i].name@, vp.steps.vec@[i].script@,
                                dep_names(vp.steps.vec@[i].depends@)));
                            assert forall|k: int| 0 <= k < pv.3[i].2.len()
                                implies (#[trigger] p.steps.vec@[i].depends@[k]).name is Given
                                    && p.steps.vec@[i].depends@[k].name->Given_0@
                                        == pv.3[i].2[k] by {
                                assert(pv.3[i].2[k] == vp.steps.vec@[i].depends@[k].name@);
                            }
                        }
                        assert(draft_matches_view(p, pv));
                    }
                    Option::Some(p)
                }
                Option::None => Option::None,
            },
        }
    }
}

} // verus!
