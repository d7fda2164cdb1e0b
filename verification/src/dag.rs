//! The DAG validator: checks that step names are unique, that every
//! dependency resolves, and that the dependency relation is acyclic. The
//! acyclicity check runs Kahn's algorithm; a step that is never emitted lies
//! on or behind a cycle and is reported as a cycle member.

use vstd::prelude::*;
use vstd::pervasive::VecAdditionalExecFns;
use crate::step::{ValidatedStep, step_names, contains_name, deps_among};
use crate::ValidationError;

verus! {

/// Invariant 1: step names are unique within a pipeline.
pub open spec fn names_unique(ss: Seq<ValidatedStep>) -> bool {
    forall|i: int, j: int| 0 <= i < j < ss.len() ==> ss[i].name@ != ss[j].name@
}

/// Invariant 2: every dependency references an existing step name.
pub open spec fn deps_closed(ss: Seq<ValidatedStep>) -> bool {
    forall|i: int| 0 <= i < ss.len() ==> deps_among(#[trigger] ss[i], step_names(ss))
}

/// Step `i` depends on step `j` (one of `i`'s dependencies names `j`).
pub open spec fn dep_edge(ss: Seq<ValidatedStep>, i: int, j: int) -> bool {
    &&& 0 <= i < ss.len()
    &&& 0 <= j < ss.len()
    &&& exists|k: int| 0 <= k < ss[i].depends@.len()
        && (#[trigger] ss[i].depends@[k]).name@ == ss[j].name@
}

/// The ranking assigns every step a height that strictly drops along each
/// dependency edge.
pub open spec fn rank_respects(ss: Seq<ValidatedStep>, rank: Seq<nat>) -> bool {
    rank.len() == ss.len()
    && forall|i: int, j: int| #[trigger] dep_edge(ss, i, j) ==> rank[j] < rank[i]
}

/// Invariant 3: the dependency relation is acyclic.
pub open spec fn acyclic(ss: Seq<ValidatedStep>) -> bool {
    exists|rank: Seq<nat>| rank_respects(ss, rank)
}

/// The views of a list of step names.
pub open spec fn name_views(m: Seq<String>) -> Seq<Seq<char>> {
    m.map_values(|x: String| x@)
}

/// How many entries of an emission record are still false.
pub open spec fn num_unemitted(em: Seq<bool>) -> nat
    decreases em.len(),
{
    if em.len() == 0 {
        0
    } else {
        num_unemitted(em.drop_last()) + if em.last() { 0nat } else { 1nat }
    }
}

proof fn lemma_num_unemitted_update(em: Seq<bool>, i: int)
    requires
        0 <= i < em.len(),
        !em[i],
    ensures
        num_unemitted(em.update(i, true)) == num_unemitted(em) - 1,
    decreases em.len(),
{
    if i == em.len() - 1 {
        assert(em.update(i, true).drop_last() =~= em.drop_last());
    } else {
        lemma_num_unemitted_update(em.drop_last(), i);
        assert(em.update(i, true).drop_last() =~= em.drop_last().update(i, true));
        assert(em.update(i, true).last() == em.last());
    }
}

proof fn lemma_num_unemitted_all(em: Seq<bool>)
    ensures
        (num_unemitted(em) == 0) <==> (forall|i: int| 0 <= i < em.len() ==> em[i]),
    decreases em.len(),
{
    if em.len() > 0 {
        lemma_num_unemitted_all(em.drop_last());
        assert(forall|i: int| 0 <= i < em.len() - 1 ==> em.drop_last()[i] == em[i]);
        if num_unemitted(em) == 0 {
            assert(em.last());
            assert(em[em.len() - 1]);
        }
        if forall|i: int| 0 <= i < em.len() ==> em[i] {
            assert(em[em.len() - 1]);
        }
    }
}

/// Two steps carrying the same name are the same step, when names are unique.
pub proof fn lemma_unique_name_index(ss: Seq<ValidatedStep>, a: int, b: int)
    requires
        names_unique(ss),
        0 <= a < ss.len(),
        0 <= b < ss.len(),
        ss[a].name@ == ss[b].name@,
    ensures
        a == b,
{
    if a < b {
        assert(false);
    } else if b < a {
        assert(false);
    }
}

/// Among the first `n` unemitted steps there is one of minimal rank.
#[verifier::rlimit(100)]
proof fn lemma_exists_min(rank: Seq<nat>, em: Seq<bool>, n: int)
    requires
        em.len() == rank.len(),
        n <= em.len(),
        exists|i: int| 0 <= i < n && !em[i],
    ensures
        exists|m: int| 0 <= m < n && !em[m]
            && forall|k: int| 0 <= k < n && !em[k] ==> rank[m] <= rank[k],
    decreases n,
{
    if exists|i: int| 0 <= i < n - 1 && !em[i] {
        lemma_exists_min(rank, em, n - 1);
        let m1 = choose|m: int| 0 <= m < n - 1 && !em[m]
            && forall|k: int| 0 <= k < n - 1 && !em[k] ==> rank[m] <= rank[k];
        if !em[n - 1] && rank[n - 1] < rank[m1] {
            assert(0 <= n - 1 < n && !em[n - 1]
                && forall|k: int| 0 <= k < n && !em[k] ==> rank[n - 1] <= rank[k]);
        } else {
            assert(0 <= m1 < n && !em[m1]
                && forall|k: int| 0 <= k < n && !em[k] ==> rank[m1] <= rank[k]);
        }
    } else {
        let i0 = choose|i: int| 0 <= i < n && !em[i];
        assert(i0 == n - 1);
        assert(0 <= n - 1 < n && !em[n - 1]
            && forall|k: int| 0 <= k < n && !em[k] ==> rank[n - 1] <= rank[k]);
    }
}

/// A nonempty set of steps in which each member depends on another member
/// witnesses a cycle: no ranking can exist.
#[verifier::rlimit(100)]
proof fn lemma_stuck_not_acyclic(ss: Seq<ValidatedStep>, em: Seq<bool>)
    requires
        em.len() == ss.len(),
        exists|i: int| 0 <= i < ss.len() && !em[i],
        forall|a: int| 0 <= a < ss.len() && !(#[trigger] em[a])
            ==> !(forall|j: int| #[trigger] dep_edge(ss, a, j) ==> em[j]),
    ensures
        !acyclic(ss),
{
    assert forall|rank: Seq<nat>| !rank_respects(ss, rank) by {
        if rank_respects(ss, rank) {
            lemma_exists_min(rank, em, ss.len() as int);
            let m = choose|m: int| 0 <= m < ss.len() && !em[m]
                && forall|k: int| 0 <= k < ss.len() && !em[k] ==> rank[m] <= rank[k];
            assert(!(forall|j: int| #[trigger] dep_edge(ss, m, j) ==> em[j]));
            let j = choose|j: int| dep_edge(ss, m, j) && !em[j];
            assert(rank[j] < rank[m]);
            assert(rank[m] <= rank[j]);
        }
    }
}

/// Finds a step by name.
pub fn find_name(ss: &Vec<ValidatedStep>, name: &String) -> (r: Option<usize>)
    ensures
        match r {
            Option::Some(j) => j < ss@.len() && ss@[j as int].name@ == name@,
            Option::None => forall|j: int| 0 <= j < ss@.len() ==> ss@[j].name@ != name@,
        },
{
    let mut j: usize = 0;
    while j < ss.len()
        invariant
            j <= ss@.len(),
            forall|a: int| 0 <= a < j ==> ss@[a].name@ != name@,
        decreases ss@.len() - j,
    {
        if ss[j].name == *name {
            return Option::Some(j);
        }
        j = j + 1;
    }
    Option::None
}

/// Checks invariant 1: no two steps carry the same name.
pub fn check_unique(ss: &Vec<ValidatedStep>) -> (r: Result<(), ValidationError>)
    ensures
        match r {
            Ok(()) => names_unique(ss@),
            Err(ValidationError::DuplicateStep(n)) => exists|i: int, j: int|
                0 <= i < j < ss@.len() && ss@[i].name@ == ss@[j].name@ && ss@[j].name@ == n@,
            Err(_) => false,
        },
{
    let mut j: usize = 1;
    while j < ss.len()
        invariant
            forall|a: int, b: int| 0 <= a < b < j && b < ss@.len() ==> ss@[a].name@ != ss@[b].name@,
        decreases ss@.len() - j,
    {
        let mut i: usize = 0;
        while i < j
            invariant
                i <= j < ss@.len(),
                forall|a: int| 0 <= a < i ==> ss@[a].name@ != ss@[j as int].name@,
            decreases j - i,
        {
            if ss[i].name == ss[j].name {
                return Err(ValidationError::DuplicateStep(ss[j].name.clone()));
            }
            i = i + 1;
        }
        j = j + 1;
    }
    Ok(())
}

/// Checks invariant 2: every dependency names an existing step.
pub fn check_closed(ss: &Vec<ValidatedStep>) -> (r: Result<(), ValidationError>)
    ensures
        match r {
            Ok(()) => deps_closed(ss@),
            Err(ValidationError::UnknownDependency(s, d)) => exists|i: int|
                0 <= i < ss@.len() && s@ == (#[trigger] ss@[i]).name@
                && exists|k: int| 0 <= k < ss@[i].depends@.len()
                    && (#[trigger] ss@[i].depends@[k]).name@ == d@
                    && !contains_name(step_names(ss@), d@),
            Err(_) => false,
        },
{
    let mut i: usize = 0;
    while i < ss.len()
        invariant
            i <= ss@.len(),
            forall|a: int| 0 <= a < i ==> deps_among(#[trigger] ss@[a], step_names(ss@)),
        decreases ss@.len() - i,
    {
        let step = &ss[i];
        let mut k: usize = 0;
        while k < step.depends.len()
            invariant
                i < ss@.len(),
                step == &ss@[i as int],
                k <= step.depends@.len(),
                forall|b: int| 0 <= b < k
                    ==> contains_name(step_names(ss@), (#[trigger] step.depends@[b]).name@),
            decreases step.depends@.len() - k,
        {
            match find_name(ss, &step.depends[k].name) {
                Option::Some(j) => {
                    proof {
                        assert(step_names(ss@)[j as int] == ss@[j as int].name@);
                    }
                }
                Option::None => {
                    proof {
                        assert forall|j: int| 0 <= j < step_names(ss@).len()
                            implies step_names(ss@)[j] != step.depends@[k as int].name@ by {
                            assert(step_names(ss@)[j] == ss@[j].name@);
                        }
                    }
                    return Err(ValidationError::UnknownDependency(
                        step.name.clone(),
                        step.depends[k].name.clone(),
                    ));
                }
            }
            k = k + 1;
        }
        i = i + 1;
    }
    Ok(())
}

/// Whether every dependency target of step `i` is already emitted.
fn deps_all_emitted(ss: &Vec<ValidatedStep>, em: &Vec<bool>, i: usize) -> (r: bool)
    requires
        names_unique(ss@),
        deps_closed(ss@),
        em@.len() == ss@.len(),
        i < ss@.len(),
    ensures
        r == forall|j: int| #[trigger] dep_edge(ss@, i as int, j) ==> em@[j],
{
    let step = &ss[i];
    let dlen = step.depends.len();
    let mut k: usize = 0;
    while k < dlen
        invariant
            names_unique(ss@),
            deps_closed(ss@),
            em@.len() == ss@.len(),
            i < ss@.len(),
            step == &ss@[i as int],
            dlen == step.depends@.len(),
            k <= dlen,
            forall|b: int| 0 <= b < k ==> exists|j: int|
                0 <= j < ss@.len() && em@[j]
                && ss@[j].name@ == (#[trigger] step.depends@[b]).name@,
        decreases dlen - k,
    {
        let dep_name = &step.depends[k].name;
        match find_name(ss, dep_name) {
            Option::Some(j) => {
                if !em[j] {
                    proof {
                        assert(dep_edge(ss@, i as int, j as int));
                    }
                    return false;
                }
                proof {
                    assert(0 <= j < ss@.len() && em@[j as int]
                        && ss@[j as int].name@ == step.depends@[k as int].name@);
                }
            }
            Option::None => {
                proof {
                    assert(deps_among(ss@[i as int], step_names(ss@)));
                    assert(contains_name(step_names(ss@), step.depends@[k as int].name@));
                    let jj = choose|jj: int| 0 <= jj < step_names(ss@).len()
                        && step_names(ss@)[jj] == step.depends@[k as int].name@;
                    assert(ss@[jj].name@ == step.depends@[k as int].name@);
                    assert(false);
                }
            }
        }
        k = k + 1;
    }
    proof {
        assert forall|j: int| #[trigger] dep_edge(ss@, i as int, j) implies em@[j] by {
            let kk = choose|kk: int| 0 <= kk < ss@[i as int].depends@.len()
                && (#[trigger] ss@[i as int].depends@[kk]).name@ == ss@[j].name@;
            assert(step.depends@[kk] == ss@[i as int].depends@[kk]);
            let jw = choose|jw: int| 0 <= jw < ss@.len() && em@[jw]
                && ss@[jw].name@ == step.depends@[kk].name@;
            lemma_unique_name_index(ss@, jw, j);
        }
    }
    true
}

/// The names of the steps not yet emitted, in step order, together with the
/// index each name came from.
fn collect_unemitted(ss: &Vec<ValidatedStep>, em: &Vec<bool>)
    -> (r: (Vec<String>, Ghost<Seq<int>>))
    requires
        em@.len() == ss@.len(),
    ensures
        r.1@.len() == r.0@.len(),
        forall|p: int| 0 <= p < r.0@.len()
            ==> 0 <= #[trigger] r.1@[p] < ss@.len() && !em@[r.1@[p]]
                && (r.0@[p])@ == ss@[r.1@[p]].name@,
        forall|b: int| 0 <= b < ss@.len() && !(#[trigger] em@[b])
            ==> contains_name(name_views(r.0@), ss@[b].name@),
{
    let n = ss.len();
    let mut m: Vec<String> = Vec::new();
    let ghost mut idxs: Seq<int> = Seq::empty();
    let mut a: usize = 0;
    while a < n
        invariant
            n == ss@.len(),
            em@.len() == n,
            a <= n,
            idxs.len() == m@.len(),
            forall|p: int| 0 <= p < m@.len()
                ==> 0 <= #[trigger] idxs[p] < a && !em@[idxs[p]]
                    && (m@[p])@ == ss@[idxs[p]].name@,
            forall|b: int| 0 <= b < a && !(#[trigger] em@[b])
                ==> contains_name(name_views(m@), ss@[b].name@),
        decreases n - a,
    {
        if !em[a] {
            let ghost mold = m@;
            m.push(ss[a].name.clone());
            proof {
                idxs = idxs.push(a as int);
                assert(name_views(m@)[m@.len() - 1] == ss@[a as int].name@);
                assert forall|b: int| 0 <= b < a + 1 && !(#[trigger] em@[b])
                    implies contains_name(name_views(m@), ss@[b].name@) by {
                    if b < a {
                        let q = choose|q: int| 0 <= q < name_views(mold).len()
                            && name_views(mold)[q] == ss@[b].name@;
                        assert(name_views(m@)[q] == name_views(mold)[q]);
                    } else {
                        assert(name_views(m@)[m@.len() - 1] == ss@[b].name@);
                    }
                }
            }
        }
        a = a + 1;
    }
    (m, Ghost(idxs))
}

/// The name `nm` belongs to a step one of whose dependencies is again among
/// `members`: the witness that `nm` lies on or behind a cycle.
pub open spec fn cycle_member(ss: Seq<ValidatedStep>, members: Seq<Seq<char>>, nm: Seq<char>)
    -> bool {
    exists|i: int| 0 <= i < ss.len() && (#[trigger] ss[i]).name@ == nm
        && exists|k: int| 0 <= k < ss[i].depends@.len()
            && contains_name(members, (#[trigger] ss[i].depends@[k]).name@)
}

/// When a pass is stuck, the collected leftover names are cycle members: each
/// one names a step that has a dependency among the collected names.
proof fn lemma_cycle_members(ss: Seq<ValidatedStep>, em: Seq<bool>, m: Seq<String>, idxs: Seq<int>)
    requires
        em.len() == ss.len(),
        forall|a: int| 0 <= a < ss.len() && !(#[trigger] em[a])
            ==> !(forall|j: int| #[trigger] dep_edge(ss, a, j) ==> em[j]),
        idxs.len() == m.len(),
        forall|p: int| 0 <= p < m.len()
            ==> 0 <= #[trigger] idxs[p] < ss.len() && !em[idxs[p]]
                && (m[p])@ == ss[idxs[p]].name@,
        forall|b: int| 0 <= b < ss.len() && !(#[trigger] em[b])
            ==> contains_name(name_views(m), ss[b].name@),
        exists|w: int| 0 <= w < ss.len() && !em[w],
    ensures
        m.len() > 0,
        forall|p: int| 0 <= p < m.len()
            ==> cycle_member(ss, name_views(m), (#[trigger] m[p])@),
{
    let w = choose|w: int| 0 <= w < ss.len() && !em[w];
    assert(contains_name(name_views(m), ss[w].name@));
    assert(name_views(m).len() == m.len());
    assert forall|p: int| 0 <= p < m.len()
        implies cycle_member(ss, name_views(m), (#[trigger] m[p])@) by {
        let b = idxs[p];
        assert(0 <= b < ss.len() && !em[b] && (m[p])@ == ss[b].name@);
        assert(!(forall|j: int| #[trigger] dep_edge(ss, b, j) ==> em[j]));
        let j = choose|j: int| dep_edge(ss, b, j) && !em[j];
        let kk = choose|kk: int| 0 <= kk < ss[b].depends@.len()
            && (#[trigger] ss[b].depends@[kk]).name@ == ss[j].name@;
        assert(contains_name(name_views(m), ss[j].name@));
        assert(0 <= b < ss.len() && ss[b].name@ == (m[p])@
            && 0 <= kk < ss[b].depends@.len()
            && contains_name(name_views(m), ss[b].depends@[kk].name@));
    }
}

/// When every step is emitted, the recorded ranks witness acyclicity.
proof fn lemma_all_emitted_acyclic(ss: Seq<ValidatedStep>, em: Seq<bool>, count: int,
    rank: Seq<nat>)
    requires
        kahn_inv(ss, em, count, rank),
        count == ss.len(),
    ensures
        acyclic(ss),
{
    lemma_num_unemitted_all(em);
    assert(rank_respects(ss, rank));
}

/// When a full pass emits nothing and steps remain, the step set is cyclic.
#[verifier::rlimit(100)]
proof fn lemma_pass_stuck(ss: Seq<ValidatedStep>, em: Seq<bool>)
    requires
        em.len() == ss.len(),
        num_unemitted(em) > 0,
        forall|a: int| 0 <= a < ss.len() && !(#[trigger] em[a])
            ==> !(forall|j: int| #[trigger] dep_edge(ss, a, j) ==> em[j]),
    ensures
        !acyclic(ss),
        exists|w: int| 0 <= w < ss.len() && !em[w],
{
    lemma_num_unemitted_all(em);
    assert(exists|w: int| 0 <= w < ss.len() && !em[w]);
    lemma_stuck_not_acyclic(ss, em);
}

/// The state Kahn's algorithm maintains: emitted steps carry ranks below
/// `count`, and emission respects dependency edges.
pub open spec fn kahn_inv(ss: Seq<ValidatedStep>, em: Seq<bool>, count: int, rank: Seq<nat>)
    -> bool {
    &&& em.len() == ss.len()
    &&& rank.len() == ss.len()
    &&& 0 <= count <= ss.len()
    &&& count + num_unemitted(em) == ss.len()
    &&& forall|a: int| 0 <= a < ss.len() && em[a] ==> rank[a] < count
    &&& forall|a: int, b: int| 0 <= a < ss.len() && em[a] && #[trigger] dep_edge(ss, a, b)
        ==> em[b] && rank[b] < rank[a]
}

/// One pass of Kahn's algorithm: emits every step whose dependencies are all
/// emitted, left to right. Returns the new count and whether anything moved.
#[verifier::rlimit(100)]
fn emit_pass(ss: &Vec<ValidatedStep>, em: &mut Vec<bool>, count: usize, rank: Ghost<Seq<nat>>)
    -> (r: (usize, bool, Ghost<Seq<nat>>))
    requires
        names_unique(ss@),
        deps_closed(ss@),
        kahn_inv(ss@, old(em)@, count as int, rank@),
    ensures
        kahn_inv(ss@, final(em)@, r.0 as int, r.2@),
        r.1 ==> r.0 > count,
        !r.1 ==> final(em)@ == old(em)@ && r.0 == count,
        !r.1 ==> forall|a: int| 0 <= a < ss@.len() && !(#[trigger] final(em)@[a])
            ==> !(forall|j: int| #[trigger] dep_edge(ss@, a, j) ==> final(em)@[j]),
{
    let n = ss.len();
    let ghost em0 = em@;
    let ghost mut rk: Seq<nat> = rank@;
    let mut cnt = count;
    let mut progressed = false;
    let mut i: usize = 0;
    while i < n
        invariant
            n == ss@.len(),
            i <= n,
            names_unique(ss@),
            deps_closed(ss@),
            kahn_inv(ss@, em@, cnt as int, rk),
            cnt >= count,
            progressed ==> cnt > count,
            !progressed ==> em@ == em0 && cnt == count && em0 == old(em)@,
            !progressed ==> forall|a: int| 0 <= a < i && !(#[trigger] em@[a])
                ==> !(forall|j: int| #[trigger] dep_edge(ss@, a, j) ==> em@[j]),
        decreases n - i,
    {
        if !em[i] {
            if deps_all_emitted(ss, em, i) {
                proof {
                    lemma_num_unemitted_update(em@, i as int);
                    rk = rk.update(i as int, cnt as nat);
                }
                em.set(i, true);
                cnt = cnt + 1;
                progressed = true;
            }
        }
        i = i + 1;
    }
    (cnt, progressed, Ghost(rk))
}

/// Checks invariant 3 by Kahn's algorithm: repeatedly emits steps whose
/// dependencies are all emitted. Steps left over lie on or behind a cycle.
#[verifier::rlimit(100)]
pub fn check_acyclic(ss: &Vec<ValidatedStep>) -> (r: Result<(), ValidationError>)
    requires
        names_unique(ss@),
        deps_closed(ss@),
    ensures
        match r {
            Ok(()) => acyclic(ss@),
            Err(ValidationError::DependencyCycle(m)) => {
                &&& !acyclic(ss@)
                &&& m@.len() > 0
                &&& forall|p: int| 0 <= p < m@.len()
                    ==> cycle_member(ss@, name_views(m@), (#[trigger] m@[p])@)
            },
            Err(_) => false,
        },
{
    let n = ss.len();
    let mut em: Vec<bool> = Vec::new();
    while em.len() < n
        invariant
            em@.len() <= n,
            forall|a: int| 0 <= a < em@.len() ==> !em@[a],
            num_unemitted(em@) == em@.len(),
        decreases n - em@.len(),
    {
        proof {
            assert(em@.push(false).drop_last() =~= em@);
        }
        em.push(false);
    }
    let mut rank: Ghost<Seq<nat>> = Ghost(Seq::new(n as nat, |i: int| 0nat));
    let mut count: usize = 0;
    loop
        invariant
            n == ss@.len(),
            names_unique(ss@),
            deps_closed(ss@),
            kahn_inv(ss@, em@, count as int, rank@),
        decreases n - count,
    {
        let (c2, progressed, r2) = emit_pass(ss, &mut em, count, rank);
        count = c2;
        rank = r2;
        if count == n {
            proof {
                lemma_all_emitted_acyclic(ss@, em@, count as int, rank@);
            }
            return Ok(());
        }
        if !progressed {
            proof {
                lemma_pass_stuck(ss@, em@);
            }
            let (m, idxs) = collect_unemitted(ss, &em);
            proof {
                lemma_cycle_members(ss@, em@, m@, idxs@);
            }
            return Err(ValidationError::DependencyCycle(m));
        }
    }
}

} // verus!
