//! Process tables: the rows of `ps`, the tree they form, and what a cohort of processes uses.

use std::collections::{BTreeMap, BTreeSet};
use vstd::prelude::*;
use crate::measure::Real;
use crate::paths;
use crate::sums;
use crate::text;

verus! {

broadcast use vstd::std_specs::btree::group_btree_axioms;

/// One process.
#[derive(Debug, Clone)]
pub struct ProcessInfo {
    pub pid: u32,
    pub ppid: u32,
    pub rss_kib: u64,
    pub cpu_seconds: Real,
    pub comm: String,
    pub args: String,
}

/// The processes that existed at one moment, by their number.
#[derive(Debug, Clone)]
pub struct ProcessSnapshot {
    pub processes: BTreeMap<u32, ProcessInfo>,
}

/// What some root processes and all their descendants use. Processor times are listed one per
/// process, in the order in which they are to be added up.
#[derive(Debug, Clone)]
pub struct CohortMetrics {
    pub process_count: usize,
    pub root_rss_kib: u64,
    pub cohort_rss_kib: u64,
    pub root_cpu_seconds: Vec<Real>,
    pub cohort_cpu_seconds: Vec<Real>,
}

/// The members of a set of numbers below a bound, in ascending order.
pub open spec fn members_below(s: Set<u32>, n: nat) -> Seq<u32>
    decreases n,
{
    if n == 0 {
        Seq::empty()
    } else {
        let front = members_below(s, (n - 1) as nat);
        if s.contains((n - 1) as u32) {
            front.push((n - 1) as u32)
        } else {
            front
        }
    }
}

/// The members of a set of numbers, in ascending order.
pub open spec fn members(s: Set<u32>) -> Seq<u32> {
    members_below(s, 0x1_0000_0000)
}

pub open spec fn increasing(q: Seq<u32>) -> bool {
    forall|i: int, j: int| 0 <= i < j < q.len() ==> q[i] < q[j]
}

proof fn lemma_members(q: Seq<u32>, s: Set<u32>, n: nat)
    requires
        increasing(q),
        n <= 0x1_0000_0000,
        forall|x: u32| #[trigger] q.contains(x) <==> s.contains(x) && x < n,
    ensures
        q == members_below(s, n),
    decreases n,
{
    if n == 0 {
        if q.len() > 0 {
            assert(q.contains(q[0]));
        }
        assert(q =~= Seq::empty());
    } else {
        let top = (n - 1) as u32;
        if s.contains(top) {
            assert(q.contains(top));
            let at = q.index_of(top);
            assert(q[at] == top);
            if at != q.len() - 1 {
                assert(q.contains(q[q.len() - 1]));
                assert(q[at] < q[q.len() - 1]);
            }
            let front = q.drop_last();
            assert forall|x: u32| #[trigger] front.contains(x) <==> s.contains(x) && x < n - 1 by {
                if front.contains(x) {
                    let k = front.index_of(x);
                    assert(q[k] == x);
                    assert(q.contains(x));
                    assert(q[k] < q[q.len() - 1]);
                }
                if s.contains(x) && x < n - 1 {
                    assert(q.contains(x));
                    let k = q.index_of(x);
                    assert(q[k] == x);
                    assert(front[k] == x);
                }
            }
            lemma_members(front, s, (n - 1) as nat);
            assert(q =~= front.push(top));
        } else {
            assert forall|x: u32| #[trigger] q.contains(x) <==> s.contains(x) && x < n - 1 by {
                if x as nat == n - 1 {
                    assert(x == top);
                }
            }
            lemma_members(q, s, (n - 1) as nat);
        }
    }
}

/// Puts a number into an ascending list, unless it is there.
fn put(list: &mut Vec<u32>, value: u32)
    requires
        increasing(old(list)@),
    ensures
        increasing(final(list)@),
        forall|x: u32| #[trigger]
            final(list)@.contains(x) <==> old(list)@.contains(x) || x == value,
{
    let n: usize = list.len();
    let ghost before = list@;
    let mut i: usize = 0;
    while i < n && list[i] < value
        invariant
            i <= n,
            n == list@.len(),
            list@ == before,
            increasing(list@),
            forall|k: int| 0 <= k < i ==> list@[k] < value,
        decreases n - i,
    {
        i = i + 1;
    }
    if i < n && list[i] == value {
        assert(before[i as int] == value);
        return ;
    }
    list.insert(i, value);
    let ghost after = list@;
    assert(after =~= before.insert(i as int, value));
    proof {
        assert forall|a: int, b: int| 0 <= a < b < after.len() implies after[a] < after[b] by {
            let ga = if a < i { a } else { a - 1 };
            let gb = if b < i { b } else { b - 1 };
            if a == i {
                assert(after[b] == before[b - 1]);
                assert(before[i as int] > value);
                assert(before[i as int] <= before[b - 1]);
            } else if b == i {
                assert(after[a] == before[a]);
            } else {
                assert(after[a] == before[ga] && after[b] == before[gb]);
            }
        }
        assert forall|x: u32| #[trigger] after.contains(x) <==> before.contains(x) || x == value by {
            if after.contains(x) {
                let k = after.index_of(x);
                assert(after[k] == x);
                if k < i {
                    assert(before[k] == x);
                } else if k > i {
                    assert(before[k - 1] == x);
                }
            }
            if before.contains(x) {
                let k = before.index_of(x);
                assert(before[k] == x);
                if k < i {
                    assert(after[k] == x);
                } else {
                    assert(after[k + 1] == x);
                }
            }
            if x == value {
                assert(after[i as int] == x);
            }
        }
    }
}

fn sorted(list: &Vec<u32>) -> (r: Vec<u32>)
    ensures
        r@ == members(list@.to_set()),
{
    let mut out: Vec<u32> = Vec::new();
    let mut i: usize = 0;
    while i < list.len()
        invariant
            i <= list@.len(),
            increasing(out@),
            forall|x: u32| #[trigger] out@.contains(x) <==> list@.take(i as int).contains(x),
        decreases list@.len() - i,
    {
        let ghost earlier = list@.take(i as int);
        put(&mut out, list[i]);
        proof {
            let now = list@.take(i + 1);
            assert(now =~= earlier.push(list@[i as int]));
            assert forall|x: u32| #[trigger] out@.contains(x) <==> now.contains(x) by {
                if earlier.contains(x) {
                    let k = earlier.index_of(x);
                    assert(now[k] == x);
                }
                if x == list@[i as int] {
                    assert(now[i as int] == x);
                }
                if now.contains(x) {
                    let k = now.index_of(x);
                    assert(now[k] == x);
                    if k < i {
                        assert(earlier[k] == x);
                    }
                }
            }
        }
        i = i + 1;
    }
    assert(list@.take(i as int) =~= list@);
    proof {
        lemma_members(out@, list@.to_set(), 0x1_0000_0000);
    }
    out
}

/// The numbers in a set, in ascending order.
pub fn members_of(s: &BTreeSet<u32>) -> (r: Vec<u32>)
    ensures
        r@ == members(s@),
{
    let mut list: Vec<u32> = Vec::new();
    let all = s.iter();
    let ghost seen = vstd::std_specs::iter::IteratorSpec::remaining(&all).unref();
    assert(seen.to_set() == s@);
    for x in it: all
        invariant
            it.seq().unref() == seen,
            list@ == seen.take(it.index() as int),
    {
        list.push(*x);
    }
    assert(list@ =~= seen);
    sorted(&list)
}

/// The processes whose parent is in the set.
pub open spec fn children(m: Map<u32, ProcessInfo>, s: Set<u32>) -> Set<u32> {
    Set::new(|p: u32| exists|k: u32| #[trigger]
        m.contains_key(k) && s.contains(m[k].ppid) && m[k].pid == p)
}

/// The root and its descendants down to a number of generations.
pub open spec fn generations(m: Map<u32, ProcessInfo>, root: u32, n: nat) -> Set<u32>
    decreases n,
{
    if n == 0 {
        set![root]
    } else {
        let earlier = generations(m, root, (n - 1) as nat);
        earlier.union(children(m, earlier))
    }
}

/// The root and all its descendants.
pub open spec fn family(m: Map<u32, ProcessInfo>, root: u32) -> Set<u32> {
    Set::new(|p: u32| exists|n: nat| #[trigger] generations(m, root, n).contains(p))
}

/// The family of a process is the least set with that process that holds, with every process, its
/// children: it is such a set, and it lies in every other.
pub proof fn law_families_are_least(m: Map<u32, ProcessInfo>, root: u32, other: Set<u32>)
    requires
        other.contains(root),
        children(m, other).subset_of(other),
    ensures
        family(m, root).contains(root),
        children(m, family(m, root)).subset_of(family(m, root)),
        family(m, root).subset_of(other),
{
    assert(generations(m, root, 0).contains(root));
    let f = family(m, root);
    assert forall|p: u32| children(m, f).contains(p) implies f.contains(p) by {
        let k = choose|k: u32| #[trigger]
            m.contains_key(k) && f.contains(m[k].ppid) && m[k].pid == p;
        let n = choose|n: nat| #[trigger] generations(m, root, n).contains(m[k].ppid);
        let g = generations(m, root, n);
        assert(children(m, g).contains(p));
        assert(generations(m, root, n + 1) == g.union(children(m, g)));
        assert(generations(m, root, n + 1).contains(p));
    }
    assert forall|p: u32| f.contains(p) implies other.contains(p) by {
        let n = choose|n: nat| #[trigger] generations(m, root, n).contains(p);
        lemma_generations_within(m, root, other, n);
    }
}

proof fn lemma_generations_within(m: Map<u32, ProcessInfo>, root: u32, other: Set<u32>, n: nat)
    requires
        other.contains(root),
        children(m, other).subset_of(other),
    ensures
        generations(m, root, n).subset_of(other),
    decreases n,
{
    if n > 0 {
        lemma_generations_within(m, root, other, (n - 1) as nat);
        let earlier = generations(m, root, (n - 1) as nat);
        assert forall|p: u32| children(m, earlier).contains(p) implies other.contains(p) by {
            let k = choose|k: u32| #[trigger]
                m.contains_key(k) && earlier.contains(m[k].ppid) && m[k].pid == p;
            assert(children(m, other).contains(p));
        }
    }
}

/// Whether the list holds exactly the pairs of process and parent that the table holds.
spec fn lists(links: Seq<(u32, u32)>, m: Map<u32, ProcessInfo>) -> bool {
    &&& forall|k: u32| #[trigger]
        m.contains_key(k) ==> links.contains((m[k].pid, m[k].ppid))
    &&& forall|i: int| 0 <= i < links.len() ==> linked(#[trigger] links[i], m)
}

/// Whether the table holds the pair of process and parent.
spec fn linked(link: (u32, u32), m: Map<u32, ProcessInfo>) -> bool {
    exists|k: u32| #[trigger] m.contains_key(k) && link == (m[k].pid, m[k].ppid)
}

/// The numbers that can be in a family: the root's, and those of the listed processes.
spec fn candidates(links: Seq<(u32, u32)>, root: u32) -> Seq<u32> {
    links.map_values(|l: (u32, u32)| l.0).push(root)
}

/// What is summed: the resident sizes of those processes that the table holds.
pub open spec fn rss_sum(m: Map<u32, ProcessInfo>, pids: Seq<u32>) -> nat
    decreases pids.len(),
{
    if pids.len() == 0 {
        0
    } else {
        let front = rss_sum(m, pids.drop_last());
        if m.contains_key(pids.last()) {
            front + m[pids.last()].rss_kib as nat
        } else {
            front
        }
    }
}

/// The processor times of those processes that the table holds.
pub open spec fn cpu_times(m: Map<u32, ProcessInfo>, pids: Seq<u32>) -> Seq<Real>
    decreases pids.len(),
{
    if pids.len() == 0 {
        Seq::empty()
    } else {
        let front = cpu_times(m, pids.drop_last());
        if m.contains_key(pids.last()) {
            front.push(m[pids.last()].cpu_seconds)
        } else {
            front
        }
    }
}

/// The roots and all their descendants.
pub open spec fn cohort(m: Map<u32, ProcessInfo>, roots: Seq<u32>) -> Set<u32> {
    Set::new(|p: u32| exists|i: int| 0 <= i < roots.len() && #[trigger] family(m, roots[i]).contains(p))
}

/// Whether there is something to measure: some roots, all of them alive.
pub open spec fn measurable(m: Map<u32, ProcessInfo>, roots: Seq<u32>) -> bool {
    roots.len() > 0 && forall|i: int| 0 <= i < roots.len() ==> m.contains_key(#[trigger] roots[i])
}

/// A process that was not there before and that runs the program with the argument.
pub open spec fn matching(
    p: ProcessInfo,
    before: Map<u32, ProcessInfo>,
    program: Seq<char>,
    arg: Seq<char>,
) -> bool {
    let name = match paths::last_name(paths::components(program)) {
        Some(name) => name,
        None => ""@,
    };
    &&& !before.contains_key(p.pid)
    &&& (p.comm@ == name || text::contains(p.args@, program))
    &&& text::contains(p.args@, arg)
}

/// The processes that match, in the order of their keys.
pub open spec fn matches(
    m: Map<u32, ProcessInfo>,
    keys: Seq<u32>,
    before: Map<u32, ProcessInfo>,
    program: Seq<char>,
    arg: Seq<char>,
) -> Seq<u32>
    decreases keys.len(),
{
    if keys.len() == 0 {
        Seq::empty()
    } else {
        let front = matches(m, keys.drop_last(), before, program, arg);
        if matching(m[keys.last()], before, program, arg) {
            front.push(m[keys.last()].pid)
        } else {
            front
        }
    }
}

impl ProcessSnapshot {
    /// The keys of the table, in ascending order.
    pub fn keys(&self) -> (r: Vec<u32>)
        ensures
            r@ == members(self.processes@.dom()),
    {
        let mut list: Vec<u32> = Vec::new();
        let all = self.processes.keys();
        let ghost seen = vstd::std_specs::iter::IteratorSpec::remaining(&all).unref();
        assert(seen.to_set() == self.processes@.dom());
        for k in it: all
            invariant
                it.seq().unref() == seen,
                list@ == seen.take(it.index() as int),
        {
            list.push(*k);
        }
        assert(list@ =~= seen);
        sorted(&list)
    }

    fn links(&self) -> (r: Vec<(u32, u32)>)
        ensures
            lists(r@, self.processes@),
    {
        let ghost m = self.processes@;
        let mut list: Vec<(u32, u32)> = Vec::new();
        let all = self.processes.values();
        let ghost seen = vstd::std_specs::iter::IteratorSpec::remaining(&all).unref();
        assert(seen.to_set() == m.values());
        let ghost f = |p: ProcessInfo| (p.pid, p.ppid);
        assert(list@ =~= seen.take(0).map_values(f));
        for p in it: all
            invariant
                it.seq().unref() == seen,
                f == (|p: ProcessInfo| (p.pid, p.ppid)),
                list@ =~= seen.take(it.index() as int).map_values(f),
        {
            list.push((p.pid, p.ppid));
        }
        assert(list@ =~= seen.map_values(f));
        proof {
            assert forall|k: u32| #[trigger] m.contains_key(k) implies list@.contains(
                (m[k].pid, m[k].ppid),
            ) by {
                assert(m.values().contains(m[k]));
                assert(seen.to_set().contains(m[k]));
                let i = seen.index_of(m[k]);
                assert(seen[i] == m[k]);
                assert(list@[i] == (m[k].pid, m[k].ppid));
            }
            assert forall|i: int| 0 <= i < list@.len() implies linked(#[trigger] list@[i], m) by {
                assert(seen.to_set().contains(seen[i]));
                assert(m.values().contains(seen[i]));
                let k = choose|k: u32| #[trigger] m.contains_key(k) && m[k] == seen[i];
                assert(m.contains_key(k));
            }
        }
        list
    }

    /// The root and all its descendants, alive or not as far as the root goes.
    pub fn descendants_including(&self, root: u32) -> (r: BTreeSet<u32>)
        ensures
            r@ == family(self.processes@, root),
    {
        let ghost m = self.processes@;
        let ghost whole = family(m, root);
        let links: Vec<(u32, u32)> = self.links();
        let ghost bound = candidates(links@, root).to_set();
        let mut result: BTreeSet<u32> = BTreeSet::new();
        result.insert(root);
        proof {
            assert(generations(m, root, 0).contains(root));
            let all = candidates(links@, root);
            assert(all[links@.len() as int] == root);
            vstd::seq_lib::seq_to_set_is_finite(all);
            law_families_are_least(m, root, Set::full());
        }
        loop
            invariant
                m == self.processes@,
                whole == family(m, root),
                lists(links@, m),
                bound == candidates(links@, root).to_set(),
                bound.finite(),
                children(m, whole).subset_of(whole),
                result@.contains(root),
                result@.subset_of(whole),
                result@.subset_of(bound),
                result@.finite(),
            decreases bound.len() - result@.len(),
        {
            let previous: usize = result.len();
            let ghost start = result@;
            let mut i: usize = 0;
            while i < links.len()
                invariant
                    i <= links@.len(),
                    m == self.processes@,
                    whole == family(m, root),
                    lists(links@, m),
                    bound == candidates(links@, root).to_set(),
                    children(m, whole).subset_of(whole),
                    start.subset_of(result@),
                    result@.contains(root),
                    result@.subset_of(whole),
                    result@.subset_of(bound),
                    result@.finite(),
                    forall|j: int|
                        0 <= j < i && start.contains(#[trigger] links@[j].1) ==> result@.contains(
                            links@[j].0,
                        ),
                decreases links@.len() - i,
            {
                let link: (u32, u32) = links[i];
                if result.contains(&link.1) {
                    proof {
                        assert(linked(links@[i as int], m));
                        let k = choose|k: u32| #[trigger]
                            m.contains_key(k) && links@[i as int] == (m[k].pid, m[k].ppid);
                        assert(whole.contains(m[k].ppid));
                        assert(children(m, whole).contains(link.0));
                        assert(candidates(links@, root)[i as int] == link.0);
                    }
                    result.insert(link.0);
                }
                i = i + 1;
            }
            if result.len() == previous {
                proof {
                    vstd::set_lib::lemma_subset_equality(start, result@);
                    assert(start == result@);
                    assert forall|p: u32| children(m, result@).contains(p) implies result@.contains(
                        p,
                    ) by {
                        let k = choose|k: u32| #[trigger]
                            m.contains_key(k) && result@.contains(m[k].ppid) && m[k].pid == p;
                        assert(links@.contains((m[k].pid, m[k].ppid)));
                        let j = links@.index_of((m[k].pid, m[k].ppid));
                        assert(start.contains(links@[j].1));
                    }
                    law_families_are_least(m, root, result@);
                    assert(result@ =~= whole);
                }
                return result;
            }
            proof {
                vstd::set_lib::lemma_len_subset(start, result@);
                vstd::set_lib::lemma_len_subset(result@, bound);
            }
        }
    }

    /// What one root process and its descendants use, if it is alive.
    pub fn metrics(&self, root: u32) -> (r: Option<CohortMetrics>)
        ensures
            match r {
                Some(c) => measurable(self.processes@, seq![root]) && c.describes(
                    self.processes@,
                    seq![root],
                ),
                None => !measurable(self.processes@, seq![root]),
            },
    {
        let roots: [u32; 1] = [root];
        assert(roots@ =~= seq![root]);
        self.metrics_many(&roots)
    }

    /// What the root processes and their descendants use, if there are roots and all are alive.
    pub fn metrics_many(&self, roots: &[u32]) -> (r: Option<CohortMetrics>)
        ensures
            match r {
                Some(c) => measurable(self.processes@, roots@) && c.describes(
                    self.processes@,
                    roots@,
                ),
                None => !measurable(self.processes@, roots@),
            },
    {
        let ghost m = self.processes@;
        if roots.len() == 0 {
            return None;
        }
        let mut i: usize = 0;
        while i < roots.len()
            invariant
                i <= roots@.len(),
                m == self.processes@,
                forall|k: int| 0 <= k < i ==> m.contains_key(#[trigger] roots@[k]),
            decreases roots@.len() - i,
        {
            if !self.processes.contains_key(&roots[i]) {
                assert(!m.contains_key(roots@[i as int]));
                return None;
            }
            i = i + 1;
        }
        let mut all: BTreeSet<u32> = BTreeSet::new();
        let mut i: usize = 0;
        assert(all@ =~= cohort(m, roots@.take(0)));
        while i < roots.len()
            invariant
                i <= roots@.len(),
                m == self.processes@,
                all@ == cohort(m, roots@.take(i as int)),
            decreases roots@.len() - i,
        {
            let more: BTreeSet<u32> = self.descendants_including(roots[i]);
            let list: Vec<u32> = members_of(&more);
            let ghost base = all@;
            proof {
                lemma_members_hold(more@, 0x1_0000_0000);
            }
            let mut j: usize = 0;
            while j < list.len()
                invariant
                    j <= list@.len(),
                    all@ == base.union(list@.take(j as int).to_set()),
                decreases list@.len() - j,
            {
                all.insert(list[j]);
                proof {
                    let now = list@.take(j + 1);
                    let earlier = list@.take(j as int);
                    assert(now =~= earlier.push(list@[j as int]));
                    assert forall|x: u32| now.to_set().contains(x) <==> earlier.to_set().insert(
                        list@[j as int],
                    ).contains(x) by {
                        if now.contains(x) {
                            let k = now.index_of(x);
                            assert(now[k] == x);
                            if k < j {
                                assert(earlier[k] == x);
                            }
                        }
                        if earlier.contains(x) {
                            let k = earlier.index_of(x);
                            assert(now[k] == x);
                        }
                        assert(now[j as int] == list@[j as int]);
                    }
                    assert(all@ =~= base.union(now.to_set()));
                }
                j = j + 1;
            }
            proof {
                assert(list@.take(j as int) =~= list@);
                let now = roots@.take(i + 1);
                let earlier = roots@.take(i as int);
                assert forall|p: u32| all@.contains(p) <==> cohort(m, now).contains(p) by {
                    assert(now[i as int] == roots@[i as int]);
                    if base.contains(p) {
                        let k = choose|k: int|
                            0 <= k < earlier.len() && #[trigger] family(m, earlier[k]).contains(p);
                        assert(now[k] == earlier[k]);
                        assert(family(m, now[k]).contains(p));
                    }
                    if more@.contains(p) {
                        assert(family(m, now[i as int]).contains(p));
                    }
                    if cohort(m, now).contains(p) {
                        let k = choose|k: int|
                            0 <= k < now.len() && #[trigger] family(m, now[k]).contains(p);
                        if k < i {
                            assert(earlier[k] == now[k]);
                            assert(family(m, earlier[k]).contains(p));
                        }
                    }
                }
                assert(all@ =~= cohort(m, now));
            }
            i = i + 1;
        }
        assert(roots@.take(i as int) =~= roots@);
        let pids: Vec<u32> = members_of(&all);
        let (root_rss, root_cpu): (u64, Vec<Real>) = self.usage(roots);
        let (cohort_rss, cohort_cpu): (u64, Vec<Real>) = self.usage(pids.as_slice());
        Some(
            CohortMetrics {
                process_count: all.len(),
                root_rss_kib: root_rss,
                cohort_rss_kib: cohort_rss,
                root_cpu_seconds: root_cpu,
                cohort_cpu_seconds: cohort_cpu,
            },
        )
    }

    fn usage(&self, pids: &[u32]) -> (r: (u64, Vec<Real>))
        ensures
            r.0 == sums::capped(rss_sum(self.processes@, pids@)),
            r.1@ == cpu_times(self.processes@, pids@),
    {
        let ghost m = self.processes@;
        let mut rss: u64 = 0;
        let mut cpu: Vec<Real> = Vec::new();
        let mut i: usize = 0;
        while i < pids.len()
            invariant
                i <= pids@.len(),
                m == self.processes@,
                rss == sums::capped(rss_sum(m, pids@.take(i as int))),
                cpu@ == cpu_times(m, pids@.take(i as int)),
            decreases pids@.len() - i,
        {
            proof {
                assert(pids@.take(i + 1).drop_last() =~= pids@.take(i as int));
                assert(pids@.take(i + 1).last() == pids@[i as int]);
            }
            if let Some(p) = self.processes.get(&pids[i]) {
                rss = sums::plus(rss, p.rss_kib);
                cpu.push(p.cpu_seconds);
            }
            i = i + 1;
        }
        assert(pids@.take(i as int) =~= pids@);
        (rss, cpu)
    }

    /// The processes that were not there before and that run the program with the argument.
    pub fn new_pids_matching(&self, before: &ProcessSnapshot, needle: &str, arg: &str) -> (r: Vec<
        u32,
    >)
        ensures
            r@ == matches(
                self.processes@,
                members(self.processes@.dom()),
                before.processes@,
                needle@,
                arg@,
            ),
    {
        let ghost m = self.processes@;
        let ghost b = before.processes@;
        let name: String = match paths::last_name_of(&paths::components_of(needle)) {
            Some(name) => name,
            None => "".to_owned(),
        };
        let keys: Vec<u32> = self.keys();
        let mut out: Vec<u32> = Vec::new();
        let mut i: usize = 0;
        proof {
            lemma_members_hold(m.dom(), 0x1_0000_0000);
        }
        while i < keys.len()
            invariant
                i <= keys@.len(),
                m == self.processes@,
                b == before.processes@,
                keys@.to_set() == m.dom(),
                name@ == (match paths::last_name(paths::components(needle@)) {
                    Some(name) => name,
                    None => ""@,
                }),
                out@ == matches(m, keys@.take(i as int), b, needle@, arg@),
            decreases keys@.len() - i,
        {
            proof {
                assert(keys@.take(i + 1).drop_last() =~= keys@.take(i as int));
                assert(keys@.take(i + 1).last() == keys@[i as int]);
                assert(keys@.to_set().contains(keys@[i as int]));
            }
            if let Some(p) = self.processes.get(&keys[i]) {
                if !before.processes.contains_key(&p.pid) && (text::same(
                    p.comm.as_str(),
                    name.as_str(),
                ) || text::has(p.args.as_str(), needle)) && text::has(p.args.as_str(), arg) {
                    out.push(p.pid);
                }
            }
            i = i + 1;
        }
        assert(keys@.take(i as int) =~= keys@);
        out
    }
}

pub proof fn lemma_members_hold(s: Set<u32>, n: nat)
    requires
        n <= 0x1_0000_0000,
    ensures
        forall|x: u32| #[trigger] members_below(s, n).contains(x) <==> s.contains(x) && x < n,
        n == 0x1_0000_0000 ==> members_below(s, n).to_set() == s,
    decreases n,
{
    if n > 0 {
        lemma_members_hold(s, (n - 1) as nat);
        let front = members_below(s, (n - 1) as nat);
        let all = members_below(s, n);
        let top = (n - 1) as u32;
        assert forall|x: u32| #[trigger] all.contains(x) <==> s.contains(x) && x < n by {
            if all.contains(x) {
                let k = all.index_of(x);
                assert(all[k] == x);
                if k < front.len() {
                    assert(front[k] == x);
                    assert(front.contains(x));
                }
            }
            if s.contains(x) && x < n {
                if x == top {
                    assert(all[front.len() as int] == x);
                } else {
                    assert(front.contains(x));
                    let k = front.index_of(x);
                    assert(all[k] == x);
                }
            }
        }
    }
    if n == 0x1_0000_0000 {
        assert(members_below(s, n).to_set() =~= s);
    }
}

impl CohortMetrics {
    /// Whether the figures are those of the roots and their descendants in the table.
    pub open spec fn describes(self, m: Map<u32, ProcessInfo>, roots: Seq<u32>) -> bool {
        let all = members(cohort(m, roots));
        &&& self.process_count == cohort(m, roots).len()
        &&& self.root_rss_kib == sums::capped(rss_sum(m, roots))
        &&& self.cohort_rss_kib == sums::capped(rss_sum(m, all))
        &&& self.root_cpu_seconds@ == cpu_times(m, roots)
        &&& self.cohort_cpu_seconds@ == cpu_times(m, all)
    }
}

/// Everything that a root has started is counted with it: a cohort holds each root, each root's
/// family, and the children of all its members, and it is counted member by member.
pub proof fn law_cohorts_hold_their_families(m: Map<u32, ProcessInfo>, roots: Seq<u32>, i: int)
    requires
        0 <= i < roots.len(),
    ensures
        cohort(m, roots).contains(roots[i]),
        family(m, roots[i]).subset_of(cohort(m, roots)),
        children(m, cohort(m, roots)).subset_of(cohort(m, roots)),
        forall|p: u32| #[trigger]
            members(cohort(m, roots)).contains(p) <==> cohort(m, roots).contains(p),
{
    let all = cohort(m, roots);
    law_families_are_least(m, roots[i], Set::full());
    assert(family(m, roots[i]).contains(roots[i]));
    assert forall|p: u32| children(m, all).contains(p) implies all.contains(p) by {
        let k = choose|k: u32| #[trigger]
            m.contains_key(k) && all.contains(m[k].ppid) && m[k].pid == p;
        let j = choose|j: int|
            0 <= j < roots.len() && #[trigger] family(m, roots[j]).contains(m[k].ppid);
        law_families_are_least(m, roots[j], Set::full());
        assert(children(m, family(m, roots[j])).contains(p));
        assert(family(m, roots[j]).contains(p));
    }
    lemma_members_hold(all, 0x1_0000_0000);
}

} // verus!
