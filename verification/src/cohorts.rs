//! What the figures of a cohort are: sums over its members, one share each.

use vstd::prelude::*;
use crate::measure::Real;
use crate::process;
use crate::process::{CohortMetrics, ProcessInfo};
use crate::ps;
use crate::ps::RowModel;

verus! {

/// The sum of some numbers.
pub open spec fn added(list: Seq<nat>) -> nat
    decreases list.len(),
{
    if list.len() == 0 {
        0
    } else {
        added(list.drop_last()) + list.last()
    }
}

/// The resident size that a process has in the table, in kibibytes; zero where it is not there.
pub open spec fn size(m: Map<u32, ProcessInfo>, pid: u32) -> nat {
    if m.contains_key(pid) {
        m[pid].rss_kib as nat
    } else {
        0
    }
}

/// The greatest number that a figure can hold, where the sum is greater.
pub open spec fn at_most_full(n: nat) -> nat {
    if n <= 0xffff_ffff_ffff_ffff {
        n
    } else {
        0xffff_ffff_ffff_ffff
    }
}

proof fn lemma_rss_sum(m: Map<u32, ProcessInfo>, pids: Seq<u32>)
    ensures
        process::rss_sum(m, pids) == added(pids.map_values(|p: u32| size(m, p))),
    decreases pids.len(),
{
    let f = |p: u32| size(m, p);
    if pids.len() > 0 {
        lemma_rss_sum(m, pids.drop_last());
        assert(pids.map_values(f).drop_last() =~= pids.drop_last().map_values(f));
        assert(pids.map_values(f).last() == size(m, pids.last()));
    }
}

/// The figures of a cohort are the sums of what the table says of its members: the resident sizes
/// of the roots, and of every process of the cohort once, in kibibytes and in full.
pub proof fn law_resident_sizes_add_up(
    m: Map<u32, ProcessInfo>,
    roots: Seq<u32>,
    c: CohortMetrics,
)
    requires
        c.describes(m, roots),
    ensures
        c.root_rss_kib == at_most_full(added(roots.map_values(|p: u32| size(m, p)))),
        c.cohort_rss_kib == at_most_full(
            added(process::members(process::cohort(m, roots)).map_values(|p: u32| size(m, p))),
        ),
        c.process_count == process::cohort(m, roots).len(),
{
    lemma_rss_sum(m, roots);
    lemma_rss_sum(m, process::members(process::cohort(m, roots)));
}

/// The members of a set are listed once each, in ascending order.
pub proof fn law_members_are_listed_once(s: Set<u32>)
    ensures
        forall|p: u32| #[trigger] process::members(s).contains(p) <==> s.contains(p),
        forall|i: int, j: int|
            0 <= i < j < process::members(s).len() ==> (#[trigger] process::members(s)[i]) < (
            #[trigger] process::members(s)[j]),
{
    process::lemma_members_hold(s, 0x1_0000_0000);
    lemma_ascending(s, 0x1_0000_0000);
}

proof fn lemma_ascending(s: Set<u32>, n: nat)
    requires
        n <= 0x1_0000_0000,
    ensures
        forall|i: int, j: int|
            0 <= i < j < process::members_below(s, n).len() ==> (#[trigger] process::members_below(
                s,
                n,
            )[i]) < (#[trigger] process::members_below(s, n)[j]),
    decreases n,
{
    if n > 0 {
        let front = process::members_below(s, (n - 1) as nat);
        lemma_ascending(s, (n - 1) as nat);
        process::lemma_members_hold(s, (n - 1) as nat);
        assert forall|i: int| 0 <= i < front.len() implies (#[trigger] front[i]) < n - 1 by {
            assert(front.contains(front[i]));
        }
    }
}

/// The processor times are those of the table, one for each member and in the order of the members,
/// where every member is in the table.
pub proof fn law_processor_times_are_those_of_the_table(
    m: Map<u32, ProcessInfo>,
    roots: Seq<u32>,
    c: CohortMetrics,
)
    requires
        c.describes(m, roots),
        forall|i: int| 0 <= i < roots.len() ==> m.contains_key(#[trigger] roots[i]),
        forall|p: u32| #[trigger] process::cohort(m, roots).contains(p) ==> m.contains_key(p),
    ensures
        c.root_cpu_seconds@ == roots.map_values(|p: u32| m[p].cpu_seconds),
        c.cohort_cpu_seconds@ == process::members(process::cohort(m, roots)).map_values(
            |p: u32| m[p].cpu_seconds,
        ),
{
    let all = process::members(process::cohort(m, roots));
    law_members_are_listed_once(process::cohort(m, roots));
    assert forall|i: int| 0 <= i < all.len() implies m.contains_key(#[trigger] all[i]) by {
        assert(all.contains(all[i]));
    }
    lemma_cpu_times(m, roots);
    lemma_cpu_times(m, all);
}

proof fn lemma_cpu_times(m: Map<u32, ProcessInfo>, pids: Seq<u32>)
    requires
        forall|i: int| 0 <= i < pids.len() ==> m.contains_key(#[trigger] pids[i]),
    ensures
        process::cpu_times(m, pids) == pids.map_values(|p: u32| m[p].cpu_seconds),
    decreases pids.len(),
{
    let f = |p: u32| m[p].cpu_seconds;
    if pids.len() > 0 {
        let front = pids.drop_last();
        assert forall|i: int| 0 <= i < front.len() implies m.contains_key(#[trigger] front[i]) by {
            assert(front[i] == pids[i]);
        }
        lemma_cpu_times(m, front);
        assert(m.contains_key(pids[pids.len() - 1]));
        assert(pids.map_values(f) =~= front.map_values(f).push(f(pids.last())));
    } else {
        assert(pids.map_values(f) =~= Seq::empty());
    }
}

/// A living root that has no children is its own cohort: both figures are its resident size.
pub proof fn law_lone_processes_are_their_cohort(
    m: Map<u32, ProcessInfo>,
    root: u32,
    c: CohortMetrics,
)
    requires
        c.describes(m, seq![root]),
        m.contains_key(root),
        forall|k: u32| #[trigger] m.contains_key(k) ==> m[k].ppid != root || m[k].pid == root,
    ensures
        c.process_count == 1,
        c.root_rss_kib == m[root].rss_kib,
        c.cohort_rss_kib == m[root].rss_kib,
        c.root_cpu_seconds@ == seq![m[root].cpu_seconds],
        c.cohort_cpu_seconds@ == seq![m[root].cpu_seconds],
{
    let roots = seq![root];
    let alone = set![root];
    assert forall|p: u32| process::children(m, alone).contains(p) implies alone.contains(p) by {
        let k = choose|k: u32| #[trigger]
            m.contains_key(k) && alone.contains(m[k].ppid) && m[k].pid == p;
    }
    process::law_families_are_least(m, root, alone);
    assert(process::cohort(m, roots) =~= alone) by {
        assert forall|p: u32| process::cohort(m, roots).contains(p) == alone.contains(p) by {
            if p == root {
                assert(process::family(m, roots[0]).contains(p));
            }
        }
    }
    let all = process::members(alone);
    law_members_are_listed_once(alone);
    assert(all =~= seq![root]) by {
        assert(all.contains(root));
        let i = choose|i: int| 0 <= i < all.len() && all[i] == root;
        if all.len() > 1 {
            assert(all.contains(all[0]) && all.contains(all[1]));
            assert(all[0] < all[1]);
        }
    }
    law_processor_times_are_those_of_the_table(m, roots, c);
    assert(roots.map_values(|p: u32| m[p].cpu_seconds) =~= seq![m[root].cpu_seconds]);
    lemma_rss_sum(m, roots);
    lemma_added_once(m, root);
    assert(alone.len() == 1);
}

proof fn lemma_added_once(m: Map<u32, ProcessInfo>, root: u32)
    ensures
        process::rss_sum(m, seq![root]) == size(m, root),
{
    let list = seq![root];
    assert(list.drop_last() =~= Seq::empty());
    assert(process::rss_sum(m, list.drop_last()) == 0);
    assert(list.last() == root);
}

/// No member of a cohort is larger than the cohort, up to the greatest number that a figure can
/// hold.
pub proof fn law_cohorts_are_no_smaller_than_their_members(
    m: Map<u32, ProcessInfo>,
    roots: Seq<u32>,
    c: CohortMetrics,
    p: u32,
)
    requires
        c.describes(m, roots),
        process::cohort(m, roots).contains(p),
        m.contains_key(p),
    ensures
        c.cohort_rss_kib >= m[p].rss_kib,
        c.process_count >= 1,
{
    let s = process::cohort(m, roots);
    let all = process::members(s);
    law_members_are_listed_once(s);
    assert(all.contains(p));
    let i = choose|i: int| 0 <= i < all.len() && all[i] == p;
    lemma_no_smaller(m, all, i);
    process::lemma_members_hold(s, 0x1_0000_0000);
    assert(all.to_set() == s);
    all.lemma_cardinality_of_set();
    vstd::seq_lib::seq_to_set_is_finite(all);
    vstd::set::axiom_set_contains_len(s, p);
}

proof fn lemma_no_smaller(m: Map<u32, ProcessInfo>, pids: Seq<u32>, i: int)
    requires
        0 <= i < pids.len(),
    ensures
        process::rss_sum(m, pids) >= size(m, pids[i]),
    decreases pids.len(),
{
    if i < pids.len() - 1 {
        lemma_no_smaller(m, pids.drop_last(), i);
    }
}

/// A new process whose parent is in the cohort, and that has no children of its own yet, joins it:
/// it is one process more, and the resident size grows by its own, up to the greatest number that a
/// figure can hold. What the roots themselves use stays.
pub proof fn law_a_new_process_adds_its_size(
    m: Map<u32, ProcessInfo>,
    roots: Seq<u32>,
    c: CohortMetrics,
    p: ProcessInfo,
    d: CohortMetrics,
)
    requires
        c.describes(m, roots),
        d.describes(m.insert(p.pid, p), roots),
        !m.contains_key(p.pid),
        !roots.contains(p.pid),
        !process::cohort(m, roots).contains(p.pid),
        process::cohort(m, roots).contains(p.ppid),
        forall|k: u32| #[trigger] m.contains_key(k) ==> m[k].ppid != p.pid,
    ensures
        d.process_count == c.process_count + 1,
        d.root_rss_kib == c.root_rss_kib,
        d.cohort_rss_kib == at_most_full((c.cohort_rss_kib + p.rss_kib) as nat),
{
    let grown = m.insert(p.pid, p);
    let s = process::cohort(m, roots);
    lemma_cohort_grows(m, roots, p);
    lemma_sum_grows(m, p, s, 0x1_0000_0000);
    lemma_sum_unchanged(m, p, roots);
    let all = process::members(s);
    process::lemma_members_hold(s, 0x1_0000_0000);
    vstd::seq_lib::seq_to_set_is_finite(all);
    assert(s.finite());
    assert(s.insert(p.pid).len() == s.len() + 1);
}

proof fn lemma_sum_unchanged(m: Map<u32, ProcessInfo>, p: ProcessInfo, pids: Seq<u32>)
    requires
        !pids.contains(p.pid),
    ensures
        process::rss_sum(m.insert(p.pid, p), pids) == process::rss_sum(m, pids),
    decreases pids.len(),
{
    if pids.len() > 0 {
        let front = pids.drop_last();
        assert(pids[pids.len() - 1] == pids.last());
        assert(!front.contains(p.pid)) by {
            if front.contains(p.pid) {
                let i = choose|i: int| 0 <= i < front.len() && front[i] == p.pid;
                assert(pids[i] == p.pid);
            }
        }
        lemma_sum_unchanged(m, p, front);
    }
}

proof fn lemma_sum_grows(m: Map<u32, ProcessInfo>, p: ProcessInfo, s: Set<u32>, n: nat)
    requires
        n <= 0x1_0000_0000,
        !s.contains(p.pid),
    ensures
        process::rss_sum(m.insert(p.pid, p), process::members_below(s.insert(p.pid), n))
            == process::rss_sum(m, process::members_below(s, n)) + if p.pid < n {
            p.rss_kib as nat
        } else {
            0
        },
    decreases n,
{
    if n > 0 {
        let last = (n - 1) as u32;
        lemma_sum_grows(m, p, s, (n - 1) as nat);
        let (a, b) = (
            process::members_below(s.insert(p.pid), (n - 1) as nat),
            process::members_below(s, (n - 1) as nat),
        );
        assert(a.push(last).drop_last() =~= a);
        assert(b.push(last).drop_last() =~= b);
        assert(a.push(last).last() == last);
        assert(b.push(last).last() == last);
    }
}

proof fn lemma_cohort_grows(m: Map<u32, ProcessInfo>, roots: Seq<u32>, p: ProcessInfo)
    requires
        !m.contains_key(p.pid),
        process::cohort(m, roots).contains(p.ppid),
        forall|k: u32| #[trigger] m.contains_key(k) ==> m[k].ppid != p.pid,
        !roots.contains(p.pid),
    ensures
        process::cohort(m.insert(p.pid, p), roots) == process::cohort(m, roots).insert(p.pid),
{
    let grown = m.insert(p.pid, p);
    let (s, t) = (process::cohort(m, roots), process::cohort(grown, roots));
    assert forall|i: int| 0 <= i < roots.len() implies process::family(
        m,
        #[trigger] roots[i],
    ).subset_of(process::family(grown, roots[i])) && process::family(grown, roots[i]).subset_of(
        process::family(m, roots[i]).insert(p.pid),
    ) by {
        lemma_family_grows(m, roots[i], p);
    }
    assert forall|q: u32| t.contains(q) == s.insert(p.pid).contains(q) by {
        if t.contains(q) {
            let i = choose|i: int|
                0 <= i < roots.len() && #[trigger] process::family(grown, roots[i]).contains(q);
            assert(process::family(m, roots[i]).insert(p.pid).contains(q));
            if q != p.pid {
                assert(process::family(m, roots[i]).contains(q));
            }
        }
        if s.contains(q) {
            let i = choose|i: int|
                0 <= i < roots.len() && #[trigger] process::family(m, roots[i]).contains(q);
            assert(process::family(grown, roots[i]).contains(q));
        }
        if q == p.pid {
            let i = choose|i: int|
                0 <= i < roots.len() && #[trigger] process::family(m, roots[i]).contains(p.ppid);
            let f = process::family(grown, roots[i]);
            assert(f.contains(p.ppid));
            process::law_families_are_least(grown, roots[i], Set::full());
            assert(grown.contains_key(p.pid));
            assert(process::children(grown, f).contains(p.pid));
        }
    }
    assert(t =~= s.insert(p.pid));
}

proof fn lemma_family_grows(m: Map<u32, ProcessInfo>, root: u32, p: ProcessInfo)
    requires
        !m.contains_key(p.pid),
        root != p.pid,
        forall|k: u32| #[trigger] m.contains_key(k) ==> m[k].ppid != p.pid,
    ensures
        process::family(m, root).subset_of(process::family(m.insert(p.pid, p), root)),
        process::family(m.insert(p.pid, p), root).subset_of(
            process::family(m, root).insert(p.pid),
        ),
{
    let grown = m.insert(p.pid, p);
    let (f, g) = (process::family(m, root), process::family(grown, root));
    process::law_families_are_least(grown, root, Set::full());
    assert forall|q: u32| process::children(m, g).contains(q) implies g.contains(q) by {
        let k = choose|k: u32| #[trigger]
            m.contains_key(k) && g.contains(m[k].ppid) && m[k].pid == q;
        assert(grown.contains_key(k) && grown[k] == m[k]);
        assert(process::children(grown, g).contains(q));
    }
    process::law_families_are_least(m, root, g);
    let wider = f.insert(p.pid);
    assert forall|q: u32| process::children(grown, wider).contains(q) implies wider.contains(q) by {
        let k = choose|k: u32| #[trigger]
            grown.contains_key(k) && wider.contains(grown[k].ppid) && grown[k].pid == q;
        if k != p.pid {
            assert(m.contains_key(k) && grown[k] == m[k]);
            assert(process::children(m, f).contains(q));
        }
    }
    process::law_families_are_least(grown, root, wider);
}

/// There is something to measure exactly where there are roots and all of them are in the table.
pub proof fn law_only_living_roots_are_measured(m: Map<u32, ProcessInfo>, roots: Seq<u32>)
    ensures
        process::measurable(m, roots) <==> roots.len() > 0 && forall|i: int|
            0 <= i < roots.len() ==> m.contains_key(#[trigger] roots[i]),
{
}

// ---------------------------------------------------------------------------------------------
// The table
// ---------------------------------------------------------------------------------------------

/// The table holds every process under its number, as its last row with a readable processor time
/// says: parent, resident size, processor time, command and arguments.
pub proof fn law_tables_hold_the_last_readable_row(
    m: Map<u32, ProcessInfo>,
    list: Seq<RowModel>,
    seconds: Seq<Option<Real>>,
    i: int,
)
    requires
        ps::tabled(m, list, seconds),
        list.len() == seconds.len(),
        0 <= i < list.len(),
        seconds[i] is Some,
        forall|j: int| i < j < list.len() && (#[trigger] list[j]).pid == list[i].pid ==> seconds[j]
            is None,
    ensures
        m.contains_key(list[i].pid),
        ({
            let p = m[list[i].pid];
            &&& p.pid == list[i].pid
            &&& p.ppid == list[i].ppid
            &&& p.rss_kib == list[i].rss_kib
            &&& p.cpu_seconds == seconds[i].unwrap()
            &&& p.comm@ == list[i].comm
            &&& p.args@ == list[i].args
        }),
{
    lemma_entry_is(list, seconds, list[i].pid, i);
    assert(ps::entry(list, seconds, list[i].pid) == Some(i as nat));
    let known = m.contains_key(list[i].pid);
}

proof fn lemma_entry_is(list: Seq<RowModel>, seconds: Seq<Option<Real>>, pid: u32, i: int)
    requires
        0 <= i < list.len() <= seconds.len(),
        list[i].pid == pid,
        seconds[i] is Some,
        forall|j: int|
            i < j < list.len() && (#[trigger] list[j]).pid == pid ==> seconds[j] is None,
    ensures
        ps::entry(list, seconds, pid) == Some(i as nat),
    decreases list.len(),
{
    let last = list.len() - 1;
    if i < last {
        assert(list[last].pid == pid ==> seconds[last] is None);
        let front = list.drop_last();
        assert forall|j: int| i < j < front.len() && (#[trigger] front[j]).pid == pid implies
            seconds[j] is None by {
            assert(front[j] == list[j]);
        }
        lemma_entry_is(front, seconds, pid, i);
    }
}

/// A process that the table holds has a row with a readable processor time.
pub proof fn law_tables_hold_nothing_else(
    m: Map<u32, ProcessInfo>,
    list: Seq<RowModel>,
    seconds: Seq<Option<Real>>,
    pid: u32,
)
    requires
        ps::tabled(m, list, seconds),
        m.contains_key(pid),
    ensures
        exists|i: int|
            0 <= i < list.len() && (#[trigger] list[i]).pid == pid && seconds[i] is Some,
{
    lemma_entry_row(list, seconds, pid);
}

proof fn lemma_entry_row(list: Seq<RowModel>, seconds: Seq<Option<Real>>, pid: u32)
    ensures
        ps::entry(list, seconds, pid) matches Some(i) ==> 0 <= i < list.len() && list[i as int].pid
            == pid && seconds[i as int] is Some,
    decreases list.len(),
{
    if list.len() > 0 {
        lemma_entry_row(list.drop_last(), seconds, pid);
    }
}

} // verus!
