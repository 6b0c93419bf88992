//! Who leads: rows of the metric table, winners, the balanced index and assurance ratings.

use vstd::prelude::*;
use vstd::relations::*;
use crate::measure::Real;
use crate::model;
use crate::model::{
    AssuranceFinding, AssuranceFindingModel, AssuranceStatus, BenchmarkResult,
    BenchmarkResultModel, ContenderResult, ContenderResultModel, MetricDirection, RunReport,
    RunReportModel,
};
use crate::report;
use crate::scoring;
use crate::scoring::Contest;
use crate::text;

verus! {

// ---------------------------------------------------------------------------------------------
// Ordered sets of names
// ---------------------------------------------------------------------------------------------

/// The ascending list with the name in its place, once.
pub open spec fn with_name(list: Seq<Seq<char>>, name: Seq<char>) -> Seq<Seq<char>>
    decreases list.len(),
{
    if list.len() == 0 {
        seq![name]
    } else if text::before(list[0], name) {
        seq![list[0]] + with_name(list.skip(1), name)
    } else if list[0] == name {
        list
    } else {
        seq![name] + list
    }
}

/// Strictly ascending.
pub open spec fn rising(list: Seq<Seq<char>>) -> bool {
    forall|i: int, j: int|
        0 <= i < j < list.len() ==> text::before(#[trigger] list[i], #[trigger] list[j])
}

/// Putting a name in its place keeps the list strictly ascending and adds that name alone.
pub proof fn law_names_stay_in_order(list: Seq<Seq<char>>, name: Seq<char>)
    requires
        rising(list),
    ensures
        rising(with_name(list, name)),
        forall|n: Seq<char>| #[trigger]
            with_name(list, name).contains(n) <==> list.contains(n) || n == name,
    decreases list.len(),
{
    let new = with_name(list, name);
    if list.len() == 0 {
        assert(new =~= seq![name]);
        assert(new[0] == name);
    } else if text::before(list[0], name) {
        let rest = list.skip(1);
        let more = with_name(rest, name);
        assert forall|i: int, j: int| 0 <= i < j < rest.len() implies text::before(
            #[trigger] rest[i],
            #[trigger] rest[j],
        ) by {
            assert(rest[i] == list[i + 1] && rest[j] == list[j + 1]);
        }
        law_names_stay_in_order(rest, name);
        assert forall|i: int, j: int| 0 <= i < j < new.len() implies text::before(
            #[trigger] new[i],
            #[trigger] new[j],
        ) by {
            assert(new[j] == more[j - 1]);
            if i == 0 {
                assert(more.contains(more[j - 1]));
                if more[j - 1] != name {
                    let k = choose|k: int| 0 <= k < rest.len() && rest[k] == more[j - 1];
                    assert(list[k + 1] == more[j - 1]);
                }
            } else {
                assert(new[i] == more[i - 1]);
            }
        }
        assert forall|n: Seq<char>| #[trigger] new.contains(n) <==> list.contains(n) || n
            == name by {
            assert(more.contains(n) <==> rest.contains(n) || n == name);
            if list.contains(n) {
                let k = choose|k: int| 0 <= k < list.len() && list[k] == n;
                if k > 0 {
                    assert(rest[k - 1] == n);
                    assert(rest.contains(n));
                    let m = choose|m: int| 0 <= m < more.len() && more[m] == n;
                    assert(new[m + 1] == n);
                } else {
                    assert(new[0] == n);
                }
            }
            if n == name {
                let m = choose|m: int| 0 <= m < more.len() && more[m] == n;
                assert(new[m + 1] == n);
            }
            if new.contains(n) {
                let k = choose|k: int| 0 <= k < new.len() && new[k] == n;
                if k > 0 {
                    assert(more[k - 1] == n);
                    assert(more.contains(n));
                    if n != name {
                        let m = choose|m: int| 0 <= m < rest.len() && rest[m] == n;
                        assert(list[m + 1] == n);
                    }
                } else {
                    assert(list[0] == n);
                }
            }
        }
    } else if list[0] == name {
        assert(list.contains(list[0]));
    } else {
        text::lemma_before_total(list[0], name);
        assert forall|i: int, j: int| 0 <= i < j < new.len() implies text::before(
            #[trigger] new[i],
            #[trigger] new[j],
        ) by {
            assert(new[j] == list[j - 1]);
            if i == 0 {
                if j > 1 {
                    assert(text::before(list[0], list[j - 1]));
                    text::lemma_before_transitive(name, list[0], list[j - 1]);
                }
            } else {
                assert(new[i] == list[i - 1]);
            }
        }
        assert forall|n: Seq<char>| #[trigger] new.contains(n) <==> list.contains(n) || n
            == name by {
            assert(new[0] == name);
            if list.contains(n) {
                let k = choose|k: int| 0 <= k < list.len() && list[k] == n;
                assert(new[k + 1] == n);
            }
            if new.contains(n) {
                let k = choose|k: int| 0 <= k < new.len() && new[k] == n;
                if k > 0 {
                    assert(list[k - 1] == n);
                }
            }
        }
    }
}

proof fn lemma_with_name_at(list: Seq<Seq<char>>, name: Seq<char>, at: int)
    requires
        0 <= at <= list.len(),
        forall|k: int| 0 <= k < at ==> text::before(#[trigger] list[k], name),
        at < list.len() ==> !text::before(list[at], name),
    ensures
        with_name(list, name) == if at < list.len() && list[at] == name {
            list
        } else {
            list.insert(at, name)
        },
    decreases list.len(),
{
    if at > 0 {
        let rest = list.skip(1);
        assert(text::before(list[0], name));
        assert forall|k: int| 0 <= k < at - 1 implies text::before(#[trigger] rest[k], name) by {
            assert(rest[k] == list[k + 1]);
        }
        lemma_with_name_at(rest, name, at - 1);
        assert(at < list.len() ==> rest[at - 1] == list[at]);
        if at < list.len() && list[at] == name {
            assert(seq![list[0]] + rest =~= list);
        } else {
            assert(seq![list[0]] + rest.insert(at - 1, name) =~= list.insert(at, name));
        }
    } else if list.len() == 0 {
        assert(seq![name] =~= list.insert(0, name));
    } else {
        assert(seq![name] + list =~= list.insert(0, name));
    }
}

/// Puts the name in its place, once.
fn add_name(list: &mut Vec<String>, name: &str)
    ensures
        text::texts(final(list)@) == with_name(text::texts(old(list)@), name@),
{
    let ghost view = text::texts(list@);
    let mut at: usize = 0;
    while at < list.len() && text::is_before(list[at].as_str(), name)
        invariant
            at <= list@.len(),
            view == text::texts(list@),
            forall|k: int| 0 <= k < at ==> text::before(#[trigger] view[k], name@),
        decreases list@.len() - at,
    {
        assert(view[at as int] == list@[at as int]@);
        at = at + 1;
    }
    proof {
        if at < list@.len() {
            assert(view[at as int] == list@[at as int]@);
        }
        lemma_with_name_at(view, name@, at as int);
    }
    if at < list.len() && text::same(list[at].as_str(), name) {
        return;
    }
    list.insert(at, name.to_owned());
    assert(text::texts(list@) =~= view.insert(at as int, name@));
}

// ---------------------------------------------------------------------------------------------
// Rows of the metric table
// ---------------------------------------------------------------------------------------------

/// The names among the first `upto` benchmarks, added to the list.
pub open spec fn benchmark_names(
    list: Seq<Seq<char>>,
    benchmarks: Seq<BenchmarkResultModel>,
    upto: int,
) -> Seq<Seq<char>>
    decreases upto,
{
    if upto <= 0 {
        list
    } else {
        with_name(benchmark_names(list, benchmarks, upto - 1), benchmarks[upto - 1].name)
    }
}

/// The names of all metrics of the first `upto` contenders, ascending.
pub open spec fn all_names(contenders: Seq<ContenderResultModel>, upto: int) -> Seq<Seq<char>>
    decreases upto,
{
    if upto <= 0 {
        Seq::empty()
    } else {
        let list = contenders[upto - 1].benchmarks;
        benchmark_names(all_names(contenders, upto - 1), list, list.len() as int)
    }
}

pub open spec fn is_in(list: Seq<Seq<char>>) -> spec_fn(Seq<char>) -> bool {
    |n: Seq<char>| list.contains(n)
}

pub open spec fn not_in(list: Seq<Seq<char>>) -> spec_fn(Seq<char>) -> bool {
    |n: Seq<char>| !list.contains(n)
}

/// The names of all metrics: the core ones first, in their order, then the rest ascending.
pub open spec fn ordered_names(contenders: Seq<ContenderResultModel>) -> Seq<Seq<char>> {
    let names = all_names(contenders, contenders.len() as int);
    report::core_names().filter(is_in(names)) + names.filter(not_in(report::core_names()))
}

fn add_benchmark_names(names: &mut Vec<String>, list: &Vec<BenchmarkResult>)
    ensures
        text::texts(final(names)@) == benchmark_names(
            text::texts(old(names)@),
            model::benchmark_views(list@),
            list@.len() as int,
        ),
{
    let ghost start = text::texts(names@);
    let ghost view = model::benchmark_views(list@);
    let mut i: usize = 0;
    while i < list.len()
        invariant
            i <= list@.len(),
            view == model::benchmark_views(list@),
            text::texts(names@) == benchmark_names(start, view, i as int),
        decreases list@.len() - i,
    {
        assert(view[i as int] == list@[i as int]@);
        add_name(names, list[i].name.as_str());
        i = i + 1;
    }
}

fn lists(list: &Vec<String>, name: &str) -> (r: bool)
    ensures
        r == text::texts(list@).contains(name@),
{
    let ghost view = text::texts(list@);
    let mut i: usize = 0;
    while i < list.len()
        invariant
            i <= list@.len(),
            view == text::texts(list@),
            forall|k: int| 0 <= k < i ==> #[trigger] view[k] != name@,
        decreases list@.len() - i,
    {
        assert(view[i as int] == list@[i as int]@);
        if text::same(list[i].as_str(), name) {
            return true;
        }
        i = i + 1;
    }
    false
}

/// Those of the names that are, or are not, in the list.
fn selected(names: &Vec<String>, list: &Vec<String>, wanted: bool) -> (r: Vec<String>)
    ensures
        text::texts(r@) == text::texts(names@).filter(
            if wanted {
                is_in(text::texts(list@))
            } else {
                not_in(text::texts(list@))
            },
        ),
{
    let ghost all = text::texts(names@);
    let ghost p = if wanted {
        is_in(text::texts(list@))
    } else {
        not_in(text::texts(list@))
    };
    let mut out: Vec<String> = Vec::new();
    let mut i: usize = 0;
    proof {
        reveal(Seq::filter);
    }
    assert(text::texts(out@) =~= all.take(0).filter(p));
    while i < names.len()
        invariant
            i <= names@.len(),
            all == text::texts(names@),
            p == (if wanted {
                is_in(text::texts(list@))
            } else {
                not_in(text::texts(list@))
            }),
            text::texts(out@) == all.take(i as int).filter(p),
        decreases names@.len() - i,
    {
        let ghost before = text::texts(out@);
        proof {
            reveal(Seq::filter);
            assert(all.take(i + 1).drop_last() =~= all.take(i as int));
            assert(all.take(i + 1).last() == names@[i as int]@);
        }
        if lists(list, names[i].as_str()) == wanted {
            out.push(names[i].clone());
            assert(text::texts(out@) =~= before.push(names@[i as int]@));
        }
        i = i + 1;
    }
    assert(all.take(i as int) =~= all);
    out
}

/// The names of all metrics in the order of the table.
pub fn ordered_metric_names(report: &RunReport) -> (r: Vec<String>)
    ensures
        text::texts(r@) == ordered_names(report@.contenders),
{
    let ghost view = report@.contenders;
    let mut names: Vec<String> = Vec::new();
    let mut k: usize = 0;
    assert(text::texts(names@) =~= all_names(view, 0));
    while k < report.contenders.len()
        invariant
            k <= report.contenders@.len(),
            view == report@.contenders,
            text::texts(names@) == all_names(view, k as int),
        decreases report.contenders@.len() - k,
    {
        assert(view[k as int] == report.contenders@[k as int]@);
        add_benchmark_names(&mut names, &report.contenders[k].benchmarks);
        k = k + 1;
    }
    let leading: Vec<String> = report::core_metrics();
    let mut out: Vec<String> = selected(&leading, &names, true);
    let mut rest: Vec<String> = selected(&names, &leading, false);
    let ghost front = text::texts(out@);
    let ghost back = text::texts(rest@);
    out.append(&mut rest);
    assert(text::texts(out@) =~= front + back);
    out
}

/// One row of the metric table.
#[derive(Debug)]
pub struct MetricRow {
    pub name: String,
    pub unit: String,
    pub direction: MetricDirection,
    /// The median of each contender.
    pub values: Vec<Option<Real>>,
}

/// What a `MetricRow` says.
#[verifier::ext_equal]
pub ghost struct MetricRowModel {
    pub name: Seq<char>,
    pub unit: Seq<char>,
    pub direction: MetricDirection,
    pub values: Seq<Option<Real>>,
}

impl View for MetricRow {
    type V = MetricRowModel;

    open spec fn view(&self) -> MetricRowModel {
        MetricRowModel {
            name: self.name@,
            unit: self.unit@,
            direction: self.direction,
            values: self.values@,
        }
    }
}

/// The views of a list.
pub open spec fn row_views(list: Seq<MetricRow>) -> Seq<MetricRowModel> {
    list.map_values(|x: MetricRow| x@)
}

/// The first contender, from `from` on, that was measured on the metric.
pub open spec fn exemplar(
    contenders: Seq<ContenderResultModel>,
    name: Seq<char>,
    from: int,
) -> Option<BenchmarkResultModel>
    decreases contenders.len() - from,
{
    if from < 0 || from >= contenders.len() {
        None
    } else {
        match report::valid(contenders[from], name) {
            Some(b) => Some(b),
            None => exemplar(contenders, name, from + 1),
        }
    }
}

pub open spec fn row(contenders: Seq<ContenderResultModel>, name: Seq<char>) -> MetricRowModel {
    let first = exemplar(contenders, name, 0);
    MetricRowModel {
        name,
        unit: match first {
            Some(b) => b.unit,
            None => ""@,
        },
        direction: match first {
            Some(b) => b.direction,
            None => MetricDirection::Neutral,
        },
        values: contenders.map_values(|c: ContenderResultModel| report::middle(c, name)),
    }
}

pub open spec fn rows_named(
    contenders: Seq<ContenderResultModel>,
    names: Seq<Seq<char>>,
) -> Seq<MetricRowModel> {
    names.map_values(|n: Seq<char>| row(contenders, n))
}

fn row_of(contenders: &Vec<ContenderResult>, name: &str) -> (r: MetricRow)
    ensures
        r@ == row(model::contender_views(contenders@), name@),
{
    let ghost view = model::contender_views(contenders@);
    let mut unit: String = "".to_owned();
    let mut direction: MetricDirection = MetricDirection::Neutral;
    let mut k: usize = 0;
    let mut found: bool = false;
    while k < contenders.len() && !found
        invariant
            k <= contenders@.len(),
            view == model::contender_views(contenders@),
            !found ==> exemplar(view, name@, 0) == exemplar(view, name@, k as int) && unit@ == ""@
                && direction == MetricDirection::Neutral,
            found ==> exemplar(view, name@, 0) is Some && unit@ == exemplar(
                view,
                name@,
                0,
            ).unwrap().unit && direction == exemplar(view, name@, 0).unwrap().direction,
        decreases contenders@.len() - k,
    {
        assert(view[k as int] == contenders@[k as int]@);
        match report::metric(&contenders[k], name) {
            Some(b) => {
                unit = b.unit.clone();
                direction = b.direction;
                found = true;
            },
            None => {},
        }
        k = k + 1;
    }
    let mut values: Vec<Option<Real>> = Vec::new();
    let mut j: usize = 0;
    while j < contenders.len()
        invariant
            j <= contenders@.len(),
            view == model::contender_views(contenders@),
            values@ =~= row(view, name@).values.take(j as int),
        decreases contenders@.len() - j,
    {
        assert(view[j as int] == contenders@[j as int]@);
        values.push(report::median(&contenders[j], name));
        j = j + 1;
    }
    assert(values@ =~= row(view, name@).values);
    MetricRow { name: name.to_owned(), unit, direction, values }
}

/// The rows of the metric table.
pub open spec fn rows(contenders: Seq<ContenderResultModel>) -> Seq<MetricRowModel> {
    rows_named(contenders, ordered_names(contenders))
}

fn rows_of(contenders: &Vec<ContenderResult>, names: &Vec<String>) -> (r: Vec<MetricRow>)
    ensures
        row_views(r@) == rows_named(model::contender_views(contenders@), text::texts(names@)),
{
    let ghost view = model::contender_views(contenders@);
    let ghost wanted = rows_named(view, text::texts(names@));
    let mut out: Vec<MetricRow> = Vec::new();
    let mut i: usize = 0;
    while i < names.len()
        invariant
            i <= names@.len(),
            view == model::contender_views(contenders@),
            wanted == rows_named(view, text::texts(names@)),
            row_views(out@) =~= wanted.take(i as int),
        decreases names@.len() - i,
    {
        let ghost before = row_views(out@);
        let next: MetricRow = row_of(contenders, names[i].as_str());
        assert(text::texts(names@)[i as int] == names@[i as int]@);
        out.push(next);
        assert(row_views(out@) =~= before.push(next@));
        i = i + 1;
    }
    assert(wanted.take(i as int) =~= wanted);
    out
}

/// The rows of the metric table.
pub fn metric_rows(report: &RunReport) -> (r: Vec<MetricRow>)
    ensures
        row_views(r@) == rows(report@.contenders),
{
    let names: Vec<String> = ordered_metric_names(report);
    rows_of(&report.contenders, &names)
}

// ---------------------------------------------------------------------------------------------
// Winners
// ---------------------------------------------------------------------------------------------

/// A metric is ranked where it has a direction and every contender has a value.
pub open spec fn ranked(values: Seq<Option<Real>>, direction: MetricDirection) -> bool {
    &&& direction != MetricDirection::Neutral
    &&& forall|i: int| 0 <= i < values.len() ==> (#[trigger] values[i]) is Some
}

pub open spec fn better(a: Real, b: Real, direction: MetricDirection) -> bool {
    if direction == MetricDirection::Higher {
        a.place() > b.place()
    } else {
        a.place() < b.place()
    }
}

/// No value is better, and every earlier one is worse.
pub open spec fn wins(values: Seq<Option<Real>>, direction: MetricDirection, i: int) -> bool {
    &&& 0 <= i < values.len()
    &&& forall|j: int|
        0 <= j < values.len() ==> !better(
            (#[trigger] values[j]).unwrap(),
            values[i].unwrap(),
            direction,
        )
    &&& forall|j: int|
        0 <= j < i ==> better(values[i].unwrap(), (#[trigger] values[j]).unwrap(), direction)
}

/// The index of the best value.
pub open spec fn winner(values: Seq<Option<Real>>, direction: MetricDirection) -> Option<int> {
    if ranked(values, direction) && values.len() > 0 {
        Some(choose|i: int| wins(values, direction, i))
    } else {
        None
    }
}

proof fn lemma_one_winner(values: Seq<Option<Real>>, direction: MetricDirection, i: int, j: int)
    requires
        wins(values, direction, i),
        wins(values, direction, j),
    ensures
        i == j,
{
    if i < j {
        assert(better(values[j].unwrap(), values[i].unwrap(), direction));
    } else if j < i {
        assert(better(values[i].unwrap(), values[j].unwrap(), direction));
    }
}

/// The index of the best value; the first of several. A missing value prevents a winner.
pub fn winner_index(values: &Vec<Option<Real>>, direction: MetricDirection) -> (r: Option<usize>)
    ensures
        match r {
            Some(i) => winner(values@, direction) == Some(i as int) && wins(
                values@,
                direction,
                i as int,
            ),
            None => winner(values@, direction) is None,
        },
{
    if direction == MetricDirection::Neutral {
        return None;
    }
    let mut best: usize = 0;
    let mut i: usize = 0;
    while i < values.len()
        invariant
            i <= values@.len(),
            direction != MetricDirection::Neutral,
            forall|k: int| 0 <= k < i ==> (#[trigger] values@[k]) is Some,
            i > 0 ==> wins(values@.take(i as int), direction, best as int),
            i == 0 ==> best == 0,
        decreases values@.len() - i,
    {
        let ghost sofar = values@.take(i as int);
        let ghost next = values@.take(i + 1);
        match values[i] {
            Some(v) => {
                let current: Real = match values[best] {
                    Some(b) => b,
                    None => v,
                };
                let improved: bool = if direction == MetricDirection::Higher {
                    current.is_below(v)
                } else {
                    v.is_below(current)
                };
                proof {
                    assert forall|k: int| 0 <= k < i implies #[trigger] next[k] == sofar[k] by {}
                    assert(next[i as int] == values@[i as int]);
                    if i > 0 {
                        assert(sofar[best as int] == values@[best as int]);
                    }
                }
                if i == 0 || improved {
                    best = i;
                }
                proof {
                    assert(next[best as int] == values@[best as int]);
                    assert forall|j: int| 0 <= j < next.len() implies !better(
                        (#[trigger] next[j]).unwrap(),
                        next[best as int].unwrap(),
                        direction,
                    ) by {
                        if j < i {
                            assert(next[j] == sofar[j]);
                        }
                    }
                    assert forall|j: int| 0 <= j < best implies better(
                        next[best as int].unwrap(),
                        (#[trigger] next[j]).unwrap(),
                        direction,
                    ) by {
                        assert(next[j] == sofar[j]);
                    }
                    assert(wins(next, direction, best as int));
                }
            },
            None => {
                return None;
            },
        }
        i = i + 1;
    }
    assert(values@.take(i as int) =~= values@);
    if values.len() == 0 {
        return None;
    }
    proof {
        let w = choose|w: int| wins(values@, direction, w);
        lemma_one_winner(values@, direction, w, best as int);
    }
    Some(best)
}

/// A winner is claimed only where every contender has a value on a metric with a direction; then
/// there is one, and no other value is better.
pub proof fn law_winners_are_unbeaten(values: Seq<Option<Real>>, direction: MetricDirection)
    ensures
        winner(values, direction) is Some <==> ranked(values, direction) && values.len() > 0,
        winner(values, direction) matches Some(i) ==> wins(values, direction, i),
    decreases values.len(),
{
    if ranked(values, direction) && values.len() > 0 {
        let i = lemma_winner_exists(values, direction);
        assert(wins(values, direction, i));
    }
}

proof fn lemma_winner_exists(values: Seq<Option<Real>>, direction: MetricDirection) -> (i: int)
    requires
        values.len() > 0,
    ensures
        wins(values, direction, i),
    decreases values.len(),
{
    let last = values.len() - 1;
    if values.len() == 1 {
        0
    } else {
        let front = values.drop_last();
        let b = lemma_winner_exists(front, direction);
        if better(values[last].unwrap(), values[b].unwrap(), direction) {
            assert forall|j: int| 0 <= j < last implies better(
                values[last].unwrap(),
                (#[trigger] values[j]).unwrap(),
                direction,
            ) by {
                assert(front[j] == values[j] && front[b] == values[b]);
            }
            last
        } else {
            assert forall|j: int| 0 <= j < values.len() implies !better(
                (#[trigger] values[j]).unwrap(),
                values[b].unwrap(),
                direction,
            ) by {
                if j < last {
                    assert(front[j] == values[j] && front[b] == values[b]);
                }
            }
            assert forall|j: int| 0 <= j < b implies better(
                values[b].unwrap(),
                (#[trigger] values[j]).unwrap(),
                direction,
            ) by {
                assert(front[j] == values[j] && front[b] == values[b]);
            }
            b
        }
    }
}

/// Whether some contender has a benchmark of that name.
pub open spec fn in_use(contenders: Seq<ContenderResultModel>, name: Seq<char>, upto: int) -> bool {
    exists|k: int, b: int|
        0 <= k < upto && 0 <= b < contenders[k].benchmarks.len() && (
        #[trigger] contenders[k].benchmarks[b]).name == name
}

proof fn lemma_benchmark_names(
    list: Seq<Seq<char>>,
    benchmarks: Seq<BenchmarkResultModel>,
    upto: int,
)
    requires
        rising(list),
        upto <= benchmarks.len(),
    ensures
        rising(benchmark_names(list, benchmarks, upto)),
        forall|n: Seq<char>| #[trigger]
            benchmark_names(list, benchmarks, upto).contains(n) <==> list.contains(n) || exists|
                b: int,
            |
                0 <= b < upto && (#[trigger] benchmarks[b]).name == n,
    decreases upto,
{
    if upto > 0 {
        lemma_benchmark_names(list, benchmarks, upto - 1);
        let front = benchmark_names(list, benchmarks, upto - 1);
        let last = benchmarks[upto - 1].name;
        law_names_stay_in_order(front, last);
        assert forall|n: Seq<char>| #[trigger]
            benchmark_names(list, benchmarks, upto).contains(n) <==> list.contains(n) || exists|
                b: int,
            |
                0 <= b < upto && (#[trigger] benchmarks[b]).name == n by {
            assert(with_name(front, last).contains(n) <==> front.contains(n) || n == last);
            assert(front.contains(n) <==> list.contains(n) || exists|b: int|
                0 <= b < upto - 1 && (#[trigger] benchmarks[b]).name == n);
        }
    }
}

proof fn lemma_all_names(contenders: Seq<ContenderResultModel>, upto: int)
    requires
        upto <= contenders.len(),
    ensures
        rising(all_names(contenders, upto)),
        forall|n: Seq<char>| #[trigger]
            all_names(contenders, upto).contains(n) <==> in_use(contenders, n, upto),
    decreases upto,
{
    if upto > 0 {
        lemma_all_names(contenders, upto - 1);
        let front = all_names(contenders, upto - 1);
        let list = contenders[upto - 1].benchmarks;
        lemma_benchmark_names(front, list, list.len() as int);
        assert forall|n: Seq<char>| #[trigger]
            all_names(contenders, upto).contains(n) <==> in_use(contenders, n, upto) by {
            let here = exists|b: int| 0 <= b < list.len() && (#[trigger] list[b]).name == n;
            assert(all_names(contenders, upto).contains(n) <==> front.contains(n) || here);
            assert(front.contains(n) <==> in_use(contenders, n, upto - 1));
            if in_use(contenders, n, upto - 1) {
                let (k, b) = choose|k: int, b: int|
                    0 <= k < upto - 1 && 0 <= b < contenders[k].benchmarks.len() && (
                    #[trigger] contenders[k].benchmarks[b]).name == n;
                assert(contenders[k].benchmarks[b].name == n);
            }
            if here {
                let b = choose|b: int| 0 <= b < list.len() && (#[trigger] list[b]).name == n;
                assert(contenders[upto - 1].benchmarks[b].name == n);
            }
            if in_use(contenders, n, upto) {
                let (k, b) = choose|k: int, b: int|
                    0 <= k < upto && 0 <= b < contenders[k].benchmarks.len() && (
                    #[trigger] contenders[k].benchmarks[b]).name == n;
                if k < upto - 1 {
                    assert(contenders[k].benchmarks[b].name == n);
                } else {
                    assert(list[b].name == n);
                }
            }
        }
    } else {
        assert(all_names(contenders, upto) =~= Seq::empty());
    }
}

/// The table has a row for every metric that some contender has a benchmark of, and no other.
pub proof fn law_every_metric_has_a_row(contenders: Seq<ContenderResultModel>, name: Seq<char>)
    ensures
        ordered_names(contenders).contains(name) <==> in_use(
            contenders,
            name,
            contenders.len() as int,
        ),
{
    let names = all_names(contenders, contenders.len() as int);
    let leading = report::core_names();
    lemma_all_names(contenders, contenders.len() as int);
    let front = leading.filter(is_in(names));
    let back = names.filter(not_in(leading));
    lemma_filter_contains(leading, is_in(names), name);
    lemma_filter_contains(names, not_in(leading), name);
    assert(names.contains(name) <==> in_use(contenders, name, contenders.len() as int));
    let all = ordered_names(contenders);
    assert(all == front + back);
    if front.contains(name) {
        let k = choose|k: int| 0 <= k < front.len() && front[k] == name;
        assert(all[k] == name);
    }
    if back.contains(name) {
        let k = choose|k: int| 0 <= k < back.len() && back[k] == name;
        assert(all[k + front.len()] == name);
    }
    if all.contains(name) {
        let k = choose|k: int| 0 <= k < all.len() && all[k] == name;
        if k < front.len() {
            assert(front[k] == name);
        } else {
            assert(back[k - front.len()] == name);
        }
    }
}

proof fn lemma_filter_contains(list: Seq<Seq<char>>, p: spec_fn(Seq<char>) -> bool, name: Seq<char>)
    ensures
        list.filter(p).contains(name) <==> list.contains(name) && p(name),
    decreases list.len(),
{
    reveal(Seq::filter);
    if list.len() > 0 {
        let front = list.drop_last();
        let last = list.last();
        lemma_filter_contains(front, p, name);
        assert(list.contains(name) <==> front.contains(name) || last == name) by {
            if list.contains(name) {
                let k = choose|k: int| 0 <= k < list.len() && list[k] == name;
                if k < front.len() {
                    assert(front[k] == name);
                }
            }
            if front.contains(name) {
                let k = choose|k: int| 0 <= k < front.len() && front[k] == name;
                assert(list[k] == name);
            }
            assert(list[list.len() - 1] == last);
        }
        let kept = front.filter(p);
        if p(last) {
            let all = kept.push(last);
            assert(list.filter(p) =~= all);
            assert(all.contains(name) <==> kept.contains(name) || last == name) by {
                if all.contains(name) {
                    let k = choose|k: int| 0 <= k < all.len() && all[k] == name;
                    if k < kept.len() {
                        assert(kept[k] == name);
                    }
                }
                if kept.contains(name) {
                    let k = choose|k: int| 0 <= k < kept.len() && kept[k] == name;
                    assert(all[k] == name);
                }
                assert(all[kept.len() as int] == last);
            }
        }
    }
}

// ---------------------------------------------------------------------------------------------
// The balanced index
// ---------------------------------------------------------------------------------------------

/// Every contender has a median on every core metric.
pub open spec fn comparable(contenders: Seq<ContenderResultModel>) -> bool {
    forall|k: int| 0 <= k < contenders.len() ==> report::core_complete(#[trigger] contenders[k])
}

/// The core metrics that have a direction.
pub open spec fn index_rows(contenders: Seq<ContenderResultModel>) -> Seq<MetricRowModel> {
    rows_named(contenders, report::core_names()).filter(
        |r: MetricRowModel| r.direction != MetricDirection::Neutral,
    )
}

/// The rows that enter the balanced index; none where a core metric is missing.
pub open spec fn scored_rows(contenders: Seq<ContenderResultModel>) -> Seq<MetricRowModel> {
    if comparable(contenders) {
        index_rows(contenders)
    } else {
        Seq::empty()
    }
}

fn is_comparable(contenders: &Vec<ContenderResult>) -> (r: bool)
    ensures
        r == comparable(model::contender_views(contenders@)),
{
    let ghost view = model::contender_views(contenders@);
    let mut k: usize = 0;
    while k < contenders.len()
        invariant
            k <= contenders@.len(),
            view == model::contender_views(contenders@),
            forall|j: int| 0 <= j < k ==> report::core_complete(#[trigger] view[j]),
        decreases contenders@.len() - k,
    {
        assert(view[k as int] == contenders@[k as int]@);
        if !report::is_core_complete(&contenders[k]) {
            return false;
        }
        k = k + 1;
    }
    true
}

/// The rows whose values enter the balanced index.
pub fn index_inputs(report: &RunReport) -> (r: Vec<MetricRow>)
    ensures
        row_views(r@) == scored_rows(report@.contenders),
{
    let ghost view = report@.contenders;
    let mut out: Vec<MetricRow> = Vec::new();
    if !is_comparable(&report.contenders) {
        assert(row_views(out@) =~= Seq::empty());
        return out;
    }
    let names: Vec<String> = report::core_metrics();
    let all: Vec<MetricRow> = rows_of(&report.contenders, &names);
    let ghost wanted = rows_named(view, report::core_names());
    let ghost p = |r: MetricRowModel| r.direction != MetricDirection::Neutral;
    let mut i: usize = 0;
    proof {
        reveal(Seq::filter);
    }
    assert(row_views(out@) =~= wanted.take(0).filter(p));
    while i < all.len()
        invariant
            i <= all@.len(),
            row_views(all@) == wanted,
            p == (|r: MetricRowModel| r.direction != MetricDirection::Neutral),
            row_views(out@) == wanted.take(i as int).filter(p),
        decreases all@.len() - i,
    {
        let ghost before = row_views(out@);
        let ghost item = all@[i as int]@;
        proof {
            reveal(Seq::filter);
            assert(wanted.take(i + 1).drop_last() =~= wanted.take(i as int));
            assert(wanted.take(i + 1).last() == item);
        }
        if all[i].direction != MetricDirection::Neutral {
            let mut values: Vec<Option<Real>> = Vec::new();
            let mut j: usize = 0;
            while j < all[i as usize].values.len()
                invariant
                    i < all@.len(),
                    j <= all@[i as int].values@.len(),
                    values@ =~= all@[i as int].values@.take(j as int),
                decreases all@[i as int].values@.len() - j,
            {
                values.push(all[i].values[j]);
                j = j + 1;
            }
            let kept: MetricRow = MetricRow {
                name: all[i].name.clone(),
                unit: all[i].unit.clone(),
                direction: all[i].direction,
                values,
            };
            assert(kept@ =~= item);
            out.push(kept);
            assert(row_views(out@) =~= before.push(item));
        }
        i = i + 1;
    }
    assert(wanted.take(i as int) =~= wanted);
    out
}

/// The values of a row in which none is missing.
pub open spec fn present(values: Seq<Option<Real>>) -> Seq<Real> {
    values.map_values(|v: Option<Real>| v.unwrap())
}

/// The value of the contender at `k` beside the best of the row.
pub open spec fn contest_at(r: MetricRowModel, k: int) -> Contest {
    let floor = scoring::floor_of(r.unit);
    Contest {
        value: scoring::greater_of(r.values[k].unwrap(), floor),
        best: scoring::best(present(r.values), r.direction, floor),
    }
}

/// What the contender at `k` has in each row of the balanced index.
pub open spec fn contests(contenders: Seq<ContenderResultModel>, k: int) -> Seq<Contest> {
    scored_rows(contenders).map_values(|r: MetricRowModel| contest_at(r, k))
}

/// The contender at `k` is level with the best in every row of the balanced index.
pub open spec fn unbeaten(contenders: Seq<ContenderResultModel>, k: int) -> bool {
    forall|i: int|
        0 <= i < contests(contenders, k).len() ==> scoring::even(
            #[trigger] contests(contenders, k)[i],
        )
}

/// In the rows of the balanced index no value is missing.
proof fn lemma_scored_row(contenders: Seq<ContenderResultModel>, i: int) -> (n: int)
    requires
        0 <= i < scored_rows(contenders).len(),
    ensures
        0 <= n < report::core_names().len(),
        scored_rows(contenders)[i] == row(contenders, report::core_names()[n]),
        scored_rows(contenders)[i].values.len() == contenders.len(),
        forall|k: int|
            0 <= k < contenders.len() ==> (#[trigger] scored_rows(contenders)[i].values[k])
                == report::middle(contenders[k], report::core_names()[n]),
        forall|k: int|
            0 <= k < contenders.len() ==> (#[trigger] scored_rows(contenders)[i].values[k]) is Some,
{
    let names = report::core_names();
    let all = rows_named(contenders, names);
    let r = scored_rows(contenders)[i];
    let p = |r: MetricRowModel| r.direction != MetricDirection::Neutral;
    assert(index_rows(contenders) == all.filter(p));
    assert(all.filter(p).contains(r));
    all.lemma_filter_contains_rev(p, r);
    let n = choose|n: int| 0 <= n < all.len() && all[n] == r;
    assert(r == row(contenders, names[n]));
    assert forall|k: int| 0 <= k < contenders.len() implies (#[trigger] r.values[k])
        == report::middle(contenders[k], names[n]) && r.values[k] is Some by {
        assert(report::core_complete(contenders[k]));
    }
    n
}

fn present_of(values: &Vec<Option<Real>>) -> (r: Vec<Real>)
    requires
        forall|j: int| 0 <= j < values@.len() ==> (#[trigger] values@[j]) is Some,
    ensures
        r@ == present(values@),
{
    let mut out: Vec<Real> = Vec::new();
    let mut j: usize = 0;
    while j < values.len()
        invariant
            j <= values@.len(),
            forall|j: int| 0 <= j < values@.len() ==> (#[trigger] values@[j]) is Some,
            out@ =~= present(values@).take(j as int),
        decreases values@.len() - j,
    {
        match values[j] {
            Some(v) => {
                out.push(v);
            },
            None => {},
        }
        j = j + 1;
    }
    assert(present(values@).take(j as int) =~= present(values@));
    out
}

/// What the contender at `k` has in each row of the balanced index: the contests that
/// `scoring::index_ratio` takes, in the order of `index_inputs`.
pub fn index_contests(report: &RunReport, k: usize) -> (r: Vec<Contest>)
    requires
        k < report@.contenders.len(),
    ensures
        r@ == contests(report@.contenders, k as int),
{
    let ghost view = report@.contenders;
    let list: Vec<MetricRow> = index_inputs(report);
    let mut out: Vec<Contest> = Vec::new();
    let mut i: usize = 0;
    while i < list.len()
        invariant
            i <= list@.len(),
            k < view.len(),
            row_views(list@) == scored_rows(view),
            out@ =~= contests(view, k as int).take(i as int),
        decreases list@.len() - i,
    {
        let line: &MetricRow = &list[i];
        assert(scored_rows(view)[i as int] == line@);
        proof {
            let n = lemma_scored_row(view, i as int);
            assert(line@.values == line.values@);
        }
        let values: Vec<Real> = present_of(&line.values);
        assert(values@[k as int] == line.values@[k as int].unwrap());
        let floor: Real = scoring::index_floor(line.unit.as_str());
        let contest: Contest = scoring::index_contest(
            values.as_slice(),
            values[k],
            line.direction,
            floor,
        );
        assert(contest == contest_at(line@, k as int));
        out.push(contest);
        i = i + 1;
    }
    assert(contests(view, k as int).take(i as int) =~= contests(view, k as int));
    out
}

/// Whether the contender at `k` is level with the best in every row of the balanced index.
pub fn is_unbeaten(report: &RunReport, k: usize) -> (r: bool)
    requires
        k < report@.contenders.len(),
    ensures
        r == unbeaten(report@.contenders, k as int),
{
    let list: Vec<Contest> = index_contests(report, k);
    let mut i: usize = 0;
    while i < list.len()
        invariant
            i <= list@.len(),
            list@ == contests(report@.contenders, k as int),
            forall|j: int| 0 <= j < i ==> scoring::even(#[trigger] list@[j]),
        decreases list@.len() - i,
    {
        if !scoring::is_even(list[i]) {
            return false;
        }
        i = i + 1;
    }
    true
}

/// The score of a contender whose ratios are all one.
pub const FULL_SCORE_BITS: u64 = 0x4059_0000_0000_0000;

/// The scores that count: zero where nothing enters the index, a hundred for a contender that is
/// unbeaten in every row, else the computed ones.
pub open spec fn scores(contenders: Seq<ContenderResultModel>, computed: Seq<Real>) -> Seq<Real> {
    Seq::new(
        contenders.len(),
        |k: int|
            if scored_rows(contenders).len() == 0 {
                Real { bits: 0 }
            } else if unbeaten(contenders, k) {
                Real { bits: FULL_SCORE_BITS }
            } else if k < computed.len() {
                computed[k]
            } else {
                Real { bits: 0 }
            },
    )
}

/// The score of each contender. `computed` are the geometric means, in percent, of the ratios that
/// `scoring::index_ratio` gives for `index_contests`. Ratios that are all one have the mean one;
/// where nothing enters the index every score is zero.
pub fn performance_scores(report: &RunReport, computed: &Vec<Real>) -> (r: Vec<Real>)
    ensures
        r@ == scores(report@.contenders, computed@),
{
    let counted: bool = index_inputs(report).len() > 0;
    let mut out: Vec<Real> = Vec::new();
    let mut k: usize = 0;
    while k < report.contenders.len()
        invariant
            k <= report.contenders@.len(),
            counted == (scored_rows(report@.contenders).len() > 0),
            out@ =~= scores(report@.contenders, computed@).take(k as int),
        decreases report.contenders@.len() - k,
    {
        let score: Real = if counted && is_unbeaten(report, k) {
            Real { bits: FULL_SCORE_BITS }
        } else if counted && k < computed.len() {
            computed[k]
        } else {
            Real { bits: 0 }
        };
        out.push(score);
        k = k + 1;
    }
    assert(out@ =~= scores(report@.contenders, computed@));
    out
}

/// Every contender has one score. A missing or failed core measurement of any contender suppresses
/// the ranking of all: every score is zero.
pub proof fn law_missing_core_metric_suppresses_ranking(
    contenders: Seq<ContenderResultModel>,
    computed: Seq<Real>,
    k: int,
    i: int,
)
    requires
        0 <= k < contenders.len(),
        0 <= i < report::core_names().len(),
        report::middle(contenders[k], report::core_names()[i]) is None,
    ensures
        scores(contenders, computed).len() == contenders.len(),
        forall|j: int|
            0 <= j < contenders.len() ==> (#[trigger] scores(contenders, computed)[j]) == (Real {
                bits: 0,
            }),
{
    assert(!report::core_complete(contenders[k]));
    assert(!comparable(contenders));
}

/// A contender that is level with the best of a row, or within one percent of it, enters the
/// geometric mean with the ratio one.
pub proof fn law_ties_enter_the_index_as_one(
    contenders: Seq<ContenderResultModel>,
    k: int,
    i: int,
    quotient: Real,
    tied: bool,
)
    requires
        0 <= k < contenders.len(),
        0 <= i < scored_rows(contenders).len(),
        tied || scoring::even(contests(contenders, k)[i]),
    ensures
        scoring::ratio(
            contests(contenders, k)[i],
            scored_rows(contenders)[i].direction,
            quotient,
            tied,
        ) == scoring::one(),
{
}

/// Where all contenders have the same median on every core metric, every ratio that enters the
/// geometric mean is one, whatever quotient is handed in, and every score is a hundred, whatever
/// mean is: provided that some core metric has a direction.
pub proof fn law_a_tie_on_every_core_metric_is_a_full_score(
    contenders: Seq<ContenderResultModel>,
    computed: Seq<Real>,
    quotient: Real,
    tied: bool,
)
    requires
        index_rows(contenders).len() > 0,
        forall|k: int, n: int|
            0 <= k < contenders.len() && 0 <= n < report::core_names().len() ==> {
                let middle = #[trigger] report::middle(contenders[k], report::core_names()[n]);
                &&& middle is Some
                &&& middle.unwrap().finite()
                &&& middle == report::middle(contenders[0], report::core_names()[n])
            },
    ensures
        scores(contenders, computed).len() == contenders.len(),
        forall|k: int, i: int|
            0 <= k < contenders.len() && 0 <= i < scored_rows(contenders).len() ==> scoring::ratio(
                #[trigger] contests(contenders, k)[i],
                scored_rows(contenders)[i].direction,
                quotient,
                tied,
            ) == scoring::one(),
        forall|k: int|
            0 <= k < contenders.len() ==> (#[trigger] scores(contenders, computed)[k]) == (Real {
                bits: FULL_SCORE_BITS,
            }),
{
    let names = report::core_names();
    assert forall|k: int| 0 <= k < contenders.len() implies report::core_complete(
        #[trigger] contenders[k],
    ) by {
        assert forall|n: int| 0 <= n < names.len() implies report::middle(
            contenders[k],
            #[trigger] names[n],
        ) is Some by {
            assert(report::middle(contenders[k], report::core_names()[n]) is Some);
        }
    }
    assert(comparable(contenders));
    assert forall|k: int, i: int|
        0 <= k < contenders.len() && 0 <= i < scored_rows(contenders).len() implies scoring::even(
        #[trigger] contests(contenders, k)[i],
    ) by {
        let r = scored_rows(contenders)[i];
        let n = lemma_scored_row(contenders, i);
        let values = present(r.values);
        assert forall|j: int| 0 <= j < values.len() implies (#[trigger] values[j]) == values[k] by {
            assert(report::middle(contenders[j], report::core_names()[n]) == r.values[j]);
            assert(report::middle(contenders[k], report::core_names()[n]) == r.values[k]);
        }
        assert(report::middle(contenders[k], report::core_names()[n]) == r.values[k]);
        scoring::law_equal_values_are_level(
            values,
            r.direction,
            scoring::floor_of(r.unit),
            quotient,
            tied,
            k,
        );
        assert(contests(contenders, k)[i] == contest_at(r, k));
    }
    assert forall|k: int| 0 <= k < contenders.len() implies (#[trigger] scores(
        contenders,
        computed,
    )[k]) == (Real { bits: FULL_SCORE_BITS }) by {
        assert(unbeaten(contenders, k));
    }
}

// ---------------------------------------------------------------------------------------------
// Rankings
// ---------------------------------------------------------------------------------------------

/// Higher scores first, then by name.
pub open spec fn leads(a: (Seq<char>, Real), b: (Seq<char>, Real)) -> bool {
    a.1.place() > b.1.place() || (a.1.place() == b.1.place() && text::before(a.0, b.0))
}

pub open spec fn by_score() -> spec_fn((Seq<char>, Real), (Seq<char>, Real)) -> bool {
    |a: (Seq<char>, Real), b: (Seq<char>, Real)| a == b || leads(a, b)
}

/// The scores in their ranking.
pub open spec fn ranking(list: Seq<(Seq<char>, Real)>) -> Seq<(Seq<char>, Real)> {
    list.sort_by(by_score())
}

pub open spec fn score_views(list: Seq<(String, Real)>) -> Seq<(Seq<char>, Real)> {
    list.map_values(|p: (String, Real)| (p.0@, p.1))
}

proof fn lemma_leads_transitive(a: (Seq<char>, Real), b: (Seq<char>, Real), c: (Seq<char>, Real))
    requires
        leads(a, b),
        leads(b, c),
    ensures
        leads(a, c),
{
    if a.1.place() == b.1.place() && b.1.place() == c.1.place() {
        text::lemma_before_transitive(a.0, b.0, c.0);
    }
}

proof fn lemma_leads_total(a: (Seq<char>, Real), b: (Seq<char>, Real))
    ensures
        leads(a, b) || leads(b, a) || a == b,
{
    text::lemma_before_total(a.0, b.0);
    if a.1.place() == b.1.place() {
        assert(a.1.bits == b.1.bits);
    }
}

proof fn lemma_by_score_is_total()
    ensures
        total_ordering(by_score()),
{
    let leq = by_score();
    assert(reflexive(leq));
    assert forall|x: (Seq<char>, Real), y: (Seq<char>, Real)| #[trigger]
        leq(x, y) && #[trigger] leq(y, x) implies x == y by {
        if x != y {
            lemma_leads_transitive(x, y, x);
            text::lemma_before_irreflexive(x.0);
        }
    }
    assert(antisymmetric(leq));
    assert forall|x: (Seq<char>, Real), y: (Seq<char>, Real), z: (Seq<char>, Real)| #[trigger]
        leq(x, y) && #[trigger] leq(y, z) implies leq(x, z) by {
        if x != y && y != z {
            lemma_leads_transitive(x, y, z);
        }
    }
    assert(transitive(leq));
    assert forall|x: (Seq<char>, Real), y: (Seq<char>, Real)| #[trigger]
        leq(x, y) || #[trigger] leq(y, x) by {
        lemma_leads_total(x, y);
    }
    assert(strongly_connected(leq));
}

fn is_ahead(a: &(String, Real), b: &(String, Real)) -> (r: bool)
    ensures
        r == leads((a.0@, a.1), (b.0@, b.1)),
{
    if b.1.is_below(a.1) {
        true
    } else if a.1.is_below(b.1) {
        false
    } else {
        text::is_before(a.0.as_str(), b.0.as_str())
    }
}

fn rank_place(list: &Vec<(String, Real)>, item: &(String, Real)) -> (r: usize)
    requires
        sorted_by(score_views(list@), by_score()),
    ensures
        r <= list@.len(),
        forall|i: int|
            0 <= i < r ==> by_score()(#[trigger] score_views(list@)[i], (item.0@, item.1)),
        forall|i: int|
            r <= i < list@.len() ==> by_score()((item.0@, item.1), #[trigger] score_views(list@)[i]),
{
    let ghost view = score_views(list@);
    let ghost new = (item.0@, item.1);
    let ghost leq = by_score();
    let mut i: usize = list.len();
    while i > 0 && is_ahead(item, &list[i - 1])
        invariant
            i <= list@.len(),
            view == score_views(list@),
            new == (item.0@, item.1),
            leq == by_score(),
            forall|k: int| i <= k < list@.len() ==> leq(new, #[trigger] view[k]),
        decreases i,
    {
        assert(view[i - 1] == (list@[i - 1].0@, list@[i - 1].1));
        i = i - 1;
    }
    proof {
        lemma_by_score_is_total();
        assert forall|k: int| 0 <= k < i implies leq(#[trigger] view[k], new) by {
            assert(view[i - 1] == (list@[i - 1].0@, list@[i - 1].1));
            lemma_leads_total(view[i - 1], new);
            assert(leq(view[i - 1], new));
            if k < i - 1 {
                assert(leq(view[k], view[i - 1]));
            }
        }
    }
    i
}

/// The scores in their ranking.
pub fn rank(list: &Vec<(String, Real)>) -> (r: Vec<(String, Real)>)
    ensures
        score_views(r@) == ranking(score_views(list@)),
        r@.len() == list@.len(),
{
    let ghost all = score_views(list@);
    let ghost leq = by_score();
    let mut out: Vec<(String, Real)> = Vec::new();
    let mut i: usize = 0;
    assert(all.take(0) =~= Seq::empty());
    assert(score_views(out@) =~= Seq::empty());
    while i < list.len()
        invariant
            i <= list@.len(),
            leq == by_score(),
            all == score_views(list@),
            out@.len() == i,
            sorted_by(score_views(out@), leq),
            score_views(out@).to_multiset() == all.take(i as int).to_multiset(),
        decreases list@.len() - i,
    {
        let item: (String, Real) = (list[i].0.clone(), list[i].1);
        let ghost new = (item.0@, item.1);
        let ghost before = score_views(out@);
        let at: usize = rank_place(&out, &item);
        out.insert(at, item);
        let ghost now = score_views(out@);
        proof {
            assert(now =~= before.insert(at as int, new));
            vstd::seq_lib::to_multiset_insert(before, at as int, new);
            assert(all[i as int] == new);
            assert(all.take(i + 1) =~= all.take(i as int).push(new));
            all.take(i as int).to_multiset_ensures();
            assert forall|a: int, b: int| 0 <= a < b < now.len() implies #[trigger] leq(
                now[a],
                now[b],
            ) by {
                let p = if a > at { a - 1 } else { a };
                let q = if b > at { b - 1 } else { b };
                if a == at {
                    assert(now[b] == before[q]);
                } else if b == at {
                    assert(now[a] == before[p]);
                } else {
                    assert(leq(before[p], before[q]));
                }
            }
        }
        i = i + 1;
    }
    proof {
        assert(all.take(i as int) =~= all);
        lemma_by_score_is_total();
        all.lemma_sort_by_ensures(leq);
        vstd::seq_lib::lemma_sorted_unique(score_views(out@), ranking(all), leq);
    }
    out
}

/// A ranking holds what was ranked, in order: nobody stands before one who leads them.
pub proof fn law_rankings_are_in_order(list: Seq<(Seq<char>, Real)>)
    ensures
        ranking(list).to_multiset() == list.to_multiset(),
        forall|i: int, j: int|
            0 <= i < j < ranking(list).len() ==> !leads(
                #[trigger] ranking(list)[j],
                #[trigger] ranking(list)[i],
            ),
{
    lemma_by_score_is_total();
    list.lemma_sort_by_ensures(by_score());
    let order = ranking(list);
    let leq = by_score();
    assert forall|i: int, j: int| 0 <= i < j < order.len() implies !leads(
        #[trigger] order[j],
        #[trigger] order[i],
    ) by {
        assert(leq(order[i], order[j]));
        text::lemma_before_irreflexive(order[i].0);
        if leads(order[j], order[i]) && order[i] != order[j] {
            lemma_leads_transitive(order[i], order[j], order[i]);
        }
    }
}

pub proof fn lemma_ranking_members(list: Seq<(Seq<char>, Real)>)
    ensures
        forall|p: (Seq<char>, Real)| #[trigger] ranking(list).contains(p) ==> list.contains(p),
{
    lemma_by_score_is_total();
    list.lemma_sort_by_ensures(by_score());
}

// ---------------------------------------------------------------------------------------------
// Assurance
// ---------------------------------------------------------------------------------------------

/// The categories of the scored findings among the first `upto`, added to the list.
pub open spec fn finding_categories(
    list: Seq<Seq<char>>,
    findings: Seq<AssuranceFindingModel>,
    upto: int,
) -> Seq<Seq<char>>
    decreases upto,
{
    if upto <= 0 {
        list
    } else {
        let front = finding_categories(list, findings, upto - 1);
        if findings[upto - 1].status.scored() is Some {
            with_name(front, findings[upto - 1].category)
        } else {
            front
        }
    }
}

/// The categories in which some contender has a scored finding, ascending.
pub open spec fn categories(contenders: Seq<ContenderResultModel>, upto: int) -> Seq<Seq<char>>
    decreases upto,
{
    if upto <= 0 {
        Seq::empty()
    } else {
        let list = contenders[upto - 1].assurance;
        finding_categories(categories(contenders, upto - 1), list, list.len() as int)
    }
}

/// The score and weight of each scored finding of the category among the first `upto`.
pub open spec fn ratings(
    findings: Seq<AssuranceFindingModel>,
    category: Seq<char>,
    upto: int,
) -> Seq<(Real, Real)>
    decreases upto,
{
    if upto <= 0 {
        Seq::empty()
    } else {
        let front = ratings(findings, category, upto - 1);
        let f = findings[upto - 1];
        match f.status.scored() {
            Some(score) => if f.category == category {
                front.push((score, f.weight))
            } else {
                front
            },
            None => front,
        }
    }
}

fn add_categories(names: &mut Vec<String>, list: &Vec<AssuranceFinding>)
    ensures
        text::texts(final(names)@) == finding_categories(
            text::texts(old(names)@),
            model::finding_views(list@),
            list@.len() as int,
        ),
{
    let ghost start = text::texts(names@);
    let ghost view = model::finding_views(list@);
    let mut i: usize = 0;
    while i < list.len()
        invariant
            i <= list@.len(),
            view == model::finding_views(list@),
            text::texts(names@) == finding_categories(start, view, i as int),
        decreases list@.len() - i,
    {
        assert(view[i as int] == list@[i as int]@);
        if list[i].status.score().is_some() {
            add_name(names, list[i].category.as_str());
        }
        i = i + 1;
    }
}

/// The categories in which some contender has a scored finding.
pub fn assurance_categories(report: &RunReport) -> (r: Vec<String>)
    ensures
        text::texts(r@) == categories(report@.contenders, report@.contenders.len() as int),
{
    let ghost view = report@.contenders;
    let mut names: Vec<String> = Vec::new();
    let mut k: usize = 0;
    assert(text::texts(names@) =~= categories(view, 0));
    while k < report.contenders.len()
        invariant
            k <= report.contenders@.len(),
            view == report@.contenders,
            text::texts(names@) == categories(view, k as int),
        decreases report.contenders@.len() - k,
    {
        assert(view[k as int] == report.contenders@[k as int]@);
        add_categories(&mut names, &report.contenders[k].assurance);
        k = k + 1;
    }
    names
}

/// The score and weight of each finding that counts toward the contender's category score.
pub fn assurance_ratings(contender: &ContenderResult, category: &str) -> (r: Vec<(Real, Real)>)
    ensures
        r@ == ratings(
            contender@.assurance,
            category@,
            contender@.assurance.len() as int,
        ),
{
    let ghost view = contender@.assurance;
    let mut out: Vec<(Real, Real)> = Vec::new();
    let mut i: usize = 0;
    while i < contender.assurance.len()
        invariant
            i <= contender.assurance@.len(),
            view == contender@.assurance,
            out@ == ratings(view, category@, i as int),
        decreases contender.assurance@.len() - i,
    {
        let f: &AssuranceFinding = &contender.assurance[i];
        assert(view[i as int] == f@);
        match f.status.score() {
            Some(score) => {
                if text::same(f.category.as_str(), category) {
                    out.push((score, f.weight));
                }
            },
            None => {},
        }
        i = i + 1;
    }
    out
}

pub fn status_label(status: AssuranceStatus) -> (r: &'static str)
    ensures
        r@ == label(status),
{
    match status {
        AssuranceStatus::Pass => "pass",
        AssuranceStatus::Partial => "partial",
        AssuranceStatus::Fail => "fail",
        AssuranceStatus::Unknown => "unknown",
        AssuranceStatus::NotApplicable => "not applicable",
    }
}

pub open spec fn label(status: AssuranceStatus) -> Seq<char> {
    match status {
        AssuranceStatus::Pass => "pass"@,
        AssuranceStatus::Partial => "partial"@,
        AssuranceStatus::Fail => "fail"@,
        AssuranceStatus::Unknown => "unknown"@,
        AssuranceStatus::NotApplicable => "not applicable"@,
    }
}

/// The index is formed from the core metrics alone: what else was measured, the static counts and
/// the assurance ratings have no part in it.
pub proof fn law_only_core_metrics_enter_the_index(
    a: Seq<ContenderResultModel>,
    b: Seq<ContenderResultModel>,
    computed: Seq<Real>,
)
    requires
        a.len() == b.len(),
        forall|k: int, i: int|
            0 <= k < a.len() && 0 <= i < report::core_names().len() ==> #[trigger] report::valid(
                a[k],
                report::core_names()[i],
            ) == report::valid(b[k], report::core_names()[i]),
    ensures
        scored_rows(a) == scored_rows(b),
        scores(a, computed) == scores(b, computed),
{
    let names = report::core_names();
    assert forall|i: int| 0 <= i < names.len() implies row(a, #[trigger] names[i]) == row(
        b,
        names[i],
    ) by {
        assert forall|k: int| 0 <= k < a.len() implies report::valid(
            #[trigger] a[k],
            names[i],
        ) == report::valid(b[k], names[i]) by {}
        lemma_exemplar_of_equals(a, b, names[i], 0);
        assert(row(a, names[i]).values =~= row(b, names[i]).values);
    }
    assert(rows_named(a, names) =~= rows_named(b, names));
    assert forall|k: int| 0 <= k < a.len() implies report::core_complete(#[trigger] a[k])
        == report::core_complete(b[k]) by {
        assert forall|i: int| 0 <= i < names.len() implies report::middle(a[k], #[trigger] names[i])
            == report::middle(b[k], names[i]) by {
            assert(report::valid(a[k], names[i]) == report::valid(b[k], names[i]));
        }
    }
    assert(comparable(a) == comparable(b)) by {
        if comparable(a) {
            assert forall|k: int| 0 <= k < b.len() implies report::core_complete(
                #[trigger] b[k],
            ) by {
                assert(report::core_complete(a[k]));
            }
        }
        if comparable(b) {
            assert forall|k: int| 0 <= k < a.len() implies report::core_complete(
                #[trigger] a[k],
            ) by {
                assert(report::core_complete(b[k]));
            }
        }
    }
    assert(scored_rows(a) == scored_rows(b));
    assert forall|k: int| 0 <= k < a.len() implies unbeaten(a, k) == unbeaten(b, k) by {
        assert(contests(a, k) =~= contests(b, k));
    }
    assert(scores(a, computed) =~= scores(b, computed));
}

proof fn lemma_exemplar_of_equals(
    a: Seq<ContenderResultModel>,
    b: Seq<ContenderResultModel>,
    name: Seq<char>,
    from: int,
)
    requires
        a.len() == b.len(),
        forall|k: int|
            0 <= k < a.len() ==> report::valid(#[trigger] a[k], name) == report::valid(b[k], name),
    ensures
        exemplar(a, name, from) == exemplar(b, name, from),
    decreases a.len() - from,
{
    if 0 <= from < a.len() {
        assert(report::valid(a[from], name) == report::valid(b[from], name));
        lemma_exemplar_of_equals(a, b, name, from + 1);
    }
}

} // verus!
