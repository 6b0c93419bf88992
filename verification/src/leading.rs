//! Who is ahead on a metric, by how much, and in what order: ratios, winners and rankings by the
//! numbers themselves.

use vstd::prelude::*;
use crate::measure;
use crate::measure::Real;
use crate::model::{AssuranceStatus, ContenderResultModel, MetricDirection};
use crate::report;
use crate::scoring;
use crate::scoring::Contest;
use crate::standings;
use crate::text;

verus! {

// ---------------------------------------------------------------------------------------------
// Numbers
// ---------------------------------------------------------------------------------------------

/// Of two numbers that are not negative the one with the greater bits has the greater place, every
/// negative number comes before every other, and of two negative numbers the one with the greater
/// bits comes first.
pub proof fn law_places_follow_the_numbers(a: Real, b: Real)
    ensures
        a.bits < 0x8000_0000_0000_0000 && b.bits < 0x8000_0000_0000_0000 ==> (a.place() < b.place()
            <==> a.bits < b.bits),
        a.bits >= 0x8000_0000_0000_0000 && b.bits < 0x8000_0000_0000_0000 ==> a.place()
            < b.place(),
        a.bits >= 0x8000_0000_0000_0000 && b.bits >= 0x8000_0000_0000_0000 ==> (a.place()
            < b.place() <==> a.bits > b.bits),
        a.place() == b.place() <==> a == b,
        a.positive() <==> 0 < a.bits <= 0x7ff0_0000_0000_0000,
{
}

/// A number is finite unless all the bits of its exponent are set; where they are, it is an infinity
/// if no other bit but the sign is set, and else no number.
pub proof fn law_finite_numbers_have_an_exponent(a: Real)
    ensures
        a.bits < 0x8000_0000_0000_0000 ==> (a.finite() <==> a.bits < 0x7ff0_0000_0000_0000),
        a.bits >= 0x8000_0000_0000_0000 ==> (a.finite() <==> a.bits < 0xfff0_0000_0000_0000),
        a.undefined() <==> !a.finite() && a.bits != 0x7ff0_0000_0000_0000 && a.bits
            != 0xfff0_0000_0000_0000,
{
}

// ---------------------------------------------------------------------------------------------
// Ratios
// ---------------------------------------------------------------------------------------------

/// The value and the best one do not count as the same, and the quotient of the two means
/// something.
pub open spec fn apart(contest: Contest, direction: MetricDirection) -> bool {
    &&& direction != MetricDirection::Neutral
    &&& !contest.value.equal(contest.best)
    &&& direction == MetricDirection::Higher ==> contest.best.positive()
    &&& direction == MetricDirection::Lower ==> contest.value.positive()
}

/// One hundredth and one.
pub open spec fn hundredth() -> Real {
    Real { bits: 0x3f84_7ae1_47ae_147b }
}

pub open spec fn unity() -> Real {
    Real { bits: 0x3ff0_0000_0000_0000 }
}

/// A value that is neither tied nor level with the best has the quotient of the two as its ratio,
/// unchanged, where that lies between one hundredth and one; a smaller one counts as one hundredth
/// and a greater one as one.
pub proof fn law_ratios_are_the_quotients(
    contest: Contest,
    direction: MetricDirection,
    quotient: Real,
)
    requires
        apart(contest, direction),
        !quotient.undefined(),
    ensures
        ({
            let r = scoring::ratio(contest, direction, quotient, false);
            &&& hundredth().place() <= quotient.place() <= unity().place() ==> r == quotient
            &&& quotient.place() < hundredth().place() ==> r == hundredth()
            &&& quotient.place() > unity().place() ==> r == unity()
            &&& r == unity() ==> quotient.place() >= unity().place()
        }),
{
}

/// Of two values that are apart from the best, the one with the greater quotient has the greater
/// ratio, as long as both quotients lie between one hundredth and one, and never the smaller one.
pub proof fn law_greater_quotients_give_greater_ratios(
    a: Contest,
    b: Contest,
    direction: MetricDirection,
    p: Real,
    q: Real,
)
    requires
        apart(a, direction),
        apart(b, direction),
        !p.undefined(),
        !q.undefined(),
        p.place() < q.place(),
    ensures
        scoring::ratio(a, direction, p, false).place() <= scoring::ratio(
            b,
            direction,
            q,
            false,
        ).place(),
        hundredth().place() <= p.place() && q.place() <= unity().place() ==> scoring::ratio(
            a,
            direction,
            p,
            false,
        ).place() < scoring::ratio(b, direction, q, false).place(),
{
}

/// A tie, a metric without a direction, and the best value itself have the ratio one.
pub proof fn law_ties_have_the_ratio_one(
    contest: Contest,
    direction: MetricDirection,
    quotient: Real,
    tied: bool,
)
    requires
        tied || direction == MetricDirection::Neutral || (contest.value == contest.best
            && contest.best.finite()),
    ensures
        scoring::ratio(contest, direction, quotient, tied) == unity(),
{
}

/// Idle use of the processor below a tenth of a percent of a core counts as that tenth; no other
/// unit has a floor.
pub proof fn law_only_core_use_has_a_floor(unit: Seq<char>)
    ensures
        unit == "% core"@ ==> scoring::floor_of(unit) == (Real { bits: 0x3fb9_9999_9999_999a }),
        unit != "% core"@ ==> scoring::floor_of(unit) == (Real { bits: 0 }),
{
}

/// A value is raised to the floor and no further.
pub proof fn law_values_are_raised_to_the_floor(value: Real, floor: Real)
    requires
        !value.undefined(),
        !floor.undefined(),
    ensures
        value.place() >= floor.place() ==> scoring::greater_of(value, floor) == value,
        value.place() <= floor.place() ==> scoring::greater_of(value, floor) == floor,
{
    law_places_follow_the_numbers(value, floor);
}

/// The best of some finite values, none of them below the floor, is one of them: the least where
/// lower is better, and the greatest where higher is.
pub proof fn law_the_best_value_is_among_them(
    values: Seq<Real>,
    direction: MetricDirection,
    floor: Real,
)
    requires
        values.len() > 0,
        floor.finite(),
        floor.bits < 0x8000_0000_0000_0000,
        forall|i: int|
            0 <= i < values.len() ==> (#[trigger] values[i]).finite() && values[i].place()
                >= floor.place(),
    ensures
        values.contains(scoring::best(values, direction, floor)),
        forall|i: int|
            0 <= i < values.len() ==> if direction == MetricDirection::Higher {
                (#[trigger] values[i]).place() <= scoring::best(values, direction, floor).place()
            } else {
                values[i].place() >= scoring::best(values, direction, floor).place()
            },
    decreases values.len(),
{
    let front = values.drop_last();
    let last = values.last();
    assert(values[values.len() - 1] == last);
    law_places_follow_the_numbers(last, floor);
    assert(scoring::greater_of(last, floor) == last);
    let b = scoring::best(values, direction, floor);
    if front.len() == 0 {
        assert(scoring::least(front, floor) == (Real { bits: 0x7ff0_0000_0000_0000 }));
        assert(scoring::greatest(front, floor) == (Real { bits: 0 }));
        assert(last.place() >= 0);
        if last.place() == 0 {
            assert(last.bits == 0);
        }
        assert(b == last);
    } else {
        assert forall|i: int| 0 <= i < front.len() implies (#[trigger] front[i]).finite()
            && front[i].place() >= floor.place() by {
            assert(front[i] == values[i]);
        }
        law_the_best_value_is_among_them(front, direction, floor);
        let f = scoring::best(front, direction, floor);
        let k = choose|k: int| 0 <= k < front.len() && front[k] == f;
        assert(values[k] == f);
        assert(b == f || b == last);
        assert forall|i: int| 0 <= i < values.len() implies if direction
            == MetricDirection::Higher {
            (#[trigger] values[i]).place() <= b.place()
        } else {
            values[i].place() >= b.place()
        } by {
            if i < front.len() {
                assert(front[i] == values[i]);
            }
        }
    }
}

// ---------------------------------------------------------------------------------------------
// Winners
// ---------------------------------------------------------------------------------------------

/// Where lower is better no value is below that of the winner, where higher is better none is above
/// it, and of equal values the first wins. There is a winner exactly where the metric has a direction
/// and every contender has a value.
pub proof fn law_winners_have_the_best_value(values: Seq<Option<Real>>, direction: MetricDirection)
    ensures
        standings::winner(values, direction) is Some <==> direction != MetricDirection::Neutral
            && values.len() > 0 && forall|i: int|
            0 <= i < values.len() ==> (#[trigger] values[i]) is Some,
        standings::winner(values, direction) matches Some(w) ==> 0 <= w < values.len() && (forall|
            i: int,
        |
            0 <= i < values.len() ==> {
                let (v, b) = ((#[trigger] values[i]).unwrap().place(), values[w].unwrap().place());
                &&& direction == MetricDirection::Lower ==> b <= v
                &&& direction == MetricDirection::Higher ==> b >= v
                &&& i < w ==> b != v
            }),
{
    standings::law_winners_are_unbeaten(values, direction);
    if let Some(w) = standings::winner(values, direction) {
        assert(standings::wins(values, direction, w));
        assert forall|i: int| 0 <= i < values.len() implies {
            let (v, b) = ((#[trigger] values[i]).unwrap().place(), values[w].unwrap().place());
            &&& direction == MetricDirection::Lower ==> b <= v
            &&& direction == MetricDirection::Higher ==> b >= v
            &&& i < w ==> b != v
        } by {
            assert(values[i] is Some && values[w] is Some);
        }
    }
}

/// Of two values the smaller wins where lower is better, and the greater where higher is.
pub proof fn law_the_better_of_two_wins(a: Real, b: Real)
    requires
        a.place() < b.place(),
    ensures
        standings::winner(seq![Some(a), Some(b)], MetricDirection::Lower) == Some(0int),
        standings::winner(seq![Some(b), Some(a)], MetricDirection::Lower) == Some(1int),
        standings::winner(seq![Some(a), Some(b)], MetricDirection::Higher) == Some(1int),
        standings::winner(seq![Some(b), Some(a)], MetricDirection::Higher) == Some(0int),
        standings::winner(seq![Some(a), Some(b)], MetricDirection::Neutral) is None,
        standings::winner(seq![Some(a), None], MetricDirection::Lower) is None,
{
    let (x, y) = (seq![Some(a), Some(b)], seq![Some(b), Some(a)]);
    law_winners_have_the_best_value(x, MetricDirection::Lower);
    law_winners_have_the_best_value(y, MetricDirection::Lower);
    law_winners_have_the_best_value(x, MetricDirection::Higher);
    law_winners_have_the_best_value(y, MetricDirection::Higher);
    law_winners_have_the_best_value(x, MetricDirection::Neutral);
    law_winners_have_the_best_value(seq![Some(a), None], MetricDirection::Lower);
    assert(x[0] == Some(a) && x[1] == Some(b));
    assert(y[0] == Some(b) && y[1] == Some(a));
    assert(seq![Some(a), None][1] is None);
}

// ---------------------------------------------------------------------------------------------
// Rows and rankings
// ---------------------------------------------------------------------------------------------

/// A row has the median of each contender, in the order of the contenders, where that contender was
/// measured; its unit and direction are those of the first contender that was.
pub proof fn law_rows_hold_the_medians(
    contenders: Seq<ContenderResultModel>,
    name: Seq<char>,
    k: int,
)
    requires
        0 <= k < contenders.len(),
    ensures
        standings::row(contenders, name).values.len() == contenders.len(),
        standings::row(contenders, name).name == name,
        standings::row(contenders, name).values[k] == report::middle(contenders[k], name),
        report::valid(contenders[k], name) is Some && (forall|j: int|
            0 <= j < k ==> report::valid(#[trigger] contenders[j], name) is None) ==> {
            let b = report::valid(contenders[k], name).unwrap();
            &&& standings::row(contenders, name).unit == b.unit
            &&& standings::row(contenders, name).direction == b.direction
        },
{
    if report::valid(contenders[k], name) is Some && (forall|j: int|
        0 <= j < k ==> report::valid(#[trigger] contenders[j], name) is None) {
        lemma_exemplar(contenders, name, k, 0);
    }
}

proof fn lemma_exemplar(contenders: Seq<ContenderResultModel>, name: Seq<char>, k: int, from: int)
    requires
        0 <= from <= k < contenders.len(),
        report::valid(contenders[k], name) is Some,
        forall|j: int| 0 <= j < k ==> report::valid(#[trigger] contenders[j], name) is None,
    ensures
        standings::exemplar(contenders, name, from) == report::valid(contenders[k], name),
    decreases k - from,
{
    if from < k {
        assert(report::valid(contenders[from], name) is None);
        lemma_exemplar(contenders, name, k, from + 1);
    }
}

/// A ranking has the greatest score first; contenders with the same score stand in the order of
/// their names. It lists every contender as often as it was given.
pub proof fn law_rankings_go_downwards(list: Seq<(Seq<char>, Real)>, i: int, j: int)
    requires
        0 <= i < j < list.len(),
    ensures
        standings::ranking(list).len() == list.len(),
        standings::ranking(list).to_multiset() == list.to_multiset(),
        standings::ranking(list)[i].1.place() >= standings::ranking(list)[j].1.place(),
        standings::ranking(list)[i].1 == standings::ranking(list)[j].1 ==> !text::before(
            standings::ranking(list)[j].0,
            standings::ranking(list)[i].0,
        ),
{
    standings::law_rankings_are_in_order(list);
    let order = standings::ranking(list);
    order.to_multiset_ensures();
    list.to_multiset_ensures();
    assert(order.len() == list.len());
    assert(!standings::leads(order[j], order[i]));
}

/// The text order is that of the characters: the first one that differs decides, and a text comes
/// before every longer one that it starts.
pub proof fn law_texts_are_ordered_by_their_characters(a: Seq<char>, b: Seq<char>, i: int)
    requires
        0 <= i <= a.len(),
        i <= b.len(),
        forall|k: int| 0 <= k < i ==> #[trigger] a[k] == b[k],
    ensures
        i < a.len() && i < b.len() && a[i] != b[i] ==> (text::before(a, b) <==> a[i] < b[i]),
        i == a.len() && i < b.len() ==> text::before(a, b) && !text::before(b, a),
        i == a.len() && i == b.len() ==> !text::before(a, b),
    decreases i,
{
    if i > 0 {
        let (c, d) = (a.skip(1), b.skip(1));
        assert(a[0] == b[0]);
        assert forall|k: int| 0 <= k < i - 1 implies #[trigger] c[k] == d[k] by {
            assert(a[k + 1] == b[k + 1]);
        }
        law_texts_are_ordered_by_their_characters(c, d, i - 1);
        if i < a.len() && i < b.len() {
            assert(c[i - 1] == a[i] && d[i - 1] == b[i]);
        }
    }
}

/// The balanced index is formed from eight metrics.
pub proof fn law_eight_metrics_are_core(name: Seq<char>)
    ensures
        report::core_names().len() == 8,
        report::core_names().contains(name) <==> name == "server_startup_ready"@ || name
            == "control_command_latency"@ || name == "daemon_idle_cohort_cpu"@ || name
            == "daemon_idle_cohort_rss"@ || name == "foreground_idle_cohort_cpu"@ || name
            == "foreground_idle_cohort_rss"@ || name == "terminal_input_to_visible"@ || name
            == "terminal_output_completion"@,
{
    let all = report::core_names();
    assert(all[0] == "server_startup_ready"@);
    assert(all[1] == "control_command_latency"@);
    assert(all[2] == "daemon_idle_cohort_cpu"@);
    assert(all[3] == "daemon_idle_cohort_rss"@);
    assert(all[4] == "foreground_idle_cohort_cpu"@);
    assert(all[5] == "foreground_idle_cohort_rss"@);
    assert(all[6] == "terminal_input_to_visible"@);
    assert(all[7] == "terminal_output_completion"@);
}

/// A rating of pass counts a hundred, partial fifty and fail zero; what is unknown or does not apply
/// is not counted.
pub proof fn law_ratings_are_scored_by_their_status(status: AssuranceStatus)
    ensures
        status == AssuranceStatus::Pass ==> status.scored() == Some(
            Real { bits: 0x4059_0000_0000_0000 },
        ),
        status == AssuranceStatus::Partial ==> status.scored() == Some(
            Real { bits: 0x4049_0000_0000_0000 },
        ),
        status == AssuranceStatus::Fail ==> status.scored() == Some(Real { bits: 0 }),
        status == AssuranceStatus::Unknown || status == AssuranceStatus::NotApplicable
            ==> status.scored() is None,
{
}

/// The ascending values rise, hold every finite value as often as it was measured, and nothing else.
pub proof fn law_ascending_values_rise(values: Seq<Real>, x: Real)
    ensures
        forall|i: int, j: int|
            0 <= i <= j < measure::ascending(values).len() ==> (#[trigger] measure::ascending(
                values,
            )[i]).place() <= (#[trigger] measure::ascending(values)[j]).place(),
        x.finite() ==> measure::ascending(values).to_multiset().count(x)
            == values.to_multiset().count(x),
        !x.finite() ==> measure::ascending(values).to_multiset().count(x) == 0,
{
    measure::law_ascending_keeps_the_finite_values(values);
    measure::lemma_kept_count(values, x);
}

} // verus!
