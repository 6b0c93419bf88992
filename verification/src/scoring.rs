//! How far a value lies behind the best of its row, and how precisely it is written.

use vstd::prelude::*;
use crate::measure::Real;
use crate::measure::INFINITY_BITS;
use crate::model::MetricDirection;
use crate::text;

verus! {

/// One, the ratio of the best value to itself.
pub const ONE_BITS: u64 = 0x3ff0_0000_0000_0000;

/// One hundredth, the least ratio that counts.
pub const LEAST_RATIO_BITS: u64 = 0x3f84_7ae1_47ae_147b;

/// One tenth, in percent of a core.
pub const CORE_FLOOR_BITS: u64 = 0x3fb9_9999_9999_999a;

/// 1,024.
pub const KILO_BITS: u64 = 0x4090_0000_0000_0000;

/// 1,048,576.
pub const MEGA_BITS: u64 = 0x4130_0000_0000_0000;

pub open spec fn one() -> Real {
    Real { bits: ONE_BITS }
}

pub open spec fn least_ratio() -> Real {
    Real { bits: LEAST_RATIO_BITS }
}

// ---------------------------------------------------------------------------------------------
// The floor
// ---------------------------------------------------------------------------------------------

pub open spec fn floor_of(unit: Seq<char>) -> Real {
    if unit == "% core"@ {
        Real { bits: CORE_FLOOR_BITS }
    } else {
        Real { bits: 0 }
    }
}

/// Absolute noise floor applied before a metric enters the balanced index. Idle CPU near zero is
/// dominated by scheduler tick resolution and background noise; without a floor, 0.00 versus 0.03
/// percent of a core would become a ratio that dominates the geometric mean.
pub fn index_floor(unit: &str) -> (r: Real)
    ensures
        r == floor_of(unit@),
{
    if text::same(unit, "% core") {
        Real { bits: CORE_FLOOR_BITS }
    } else {
        Real { bits: 0 }
    }
}

// ---------------------------------------------------------------------------------------------
// The best of a row
// ---------------------------------------------------------------------------------------------

/// The greater of two numbers; a NaN counts for nothing.
pub open spec fn greater_of(a: Real, b: Real) -> Real {
    if a.undefined() {
        b
    } else if b.undefined() || b.place() <= a.place() {
        a
    } else {
        b
    }
}

/// The lesser of two numbers; a NaN counts for nothing.
pub open spec fn lesser_of(a: Real, b: Real) -> Real {
    if a.undefined() {
        b
    } else if b.undefined() || a.place() <= b.place() {
        a
    } else {
        b
    }
}

/// The least of the values once each is raised to the floor; infinite if there is none.
pub open spec fn least(values: Seq<Real>, floor: Real) -> Real
    decreases values.len(),
{
    if values.len() == 0 {
        Real { bits: INFINITY_BITS }
    } else {
        lesser_of(least(values.drop_last(), floor), greater_of(values.last(), floor))
    }
}

/// The greatest of the values once each is raised to the floor; zero if all are below it.
pub open spec fn greatest(values: Seq<Real>, floor: Real) -> Real
    decreases values.len(),
{
    if values.len() == 0 {
        Real { bits: 0 }
    } else {
        greater_of(greatest(values.drop_last(), floor), greater_of(values.last(), floor))
    }
}

/// The best of the values in a direction.
pub open spec fn best(values: Seq<Real>, direction: MetricDirection, floor: Real) -> Real {
    if direction == MetricDirection::Higher {
        greatest(values, floor)
    } else {
        least(values, floor)
    }
}

/// A value beside the best of its row, both raised to the floor.
#[derive(Debug, Clone, Copy, PartialEq, Eq, Structural)]
pub struct Contest {
    pub value: Real,
    pub best: Real,
}

fn greater(a: Real, b: Real) -> (r: Real)
    ensures
        r == greater_of(a, b),
{
    if a.is_undefined() {
        b
    } else if b.is_undefined() || !a.is_below(b) {
        a
    } else {
        b
    }
}

fn lesser(a: Real, b: Real) -> (r: Real)
    ensures
        r == lesser_of(a, b),
{
    if a.is_undefined() {
        b
    } else if b.is_undefined() || !b.is_below(a) {
        a
    } else {
        b
    }
}

/// The value and the best of the values, both raised to the floor.
pub fn index_contest(
    values: &[Real],
    value: Real,
    direction: MetricDirection,
    floor: Real,
) -> (r: Contest)
    ensures
        r.value == greater_of(value, floor),
        r.best == best(values@, direction, floor),
{
    let mut low: Real = Real { bits: INFINITY_BITS };
    let mut high: Real = Real { bits: 0 };
    let mut i: usize = 0;
    while i < values.len()
        invariant
            i <= values@.len(),
            low == least(values@.take(i as int), floor),
            high == greatest(values@.take(i as int), floor),
        decreases values@.len() - i,
    {
        assert(values@.take(i + 1).drop_last() =~= values@.take(i as int));
        let raised: Real = greater(values[i], floor);
        low = lesser(low, raised);
        high = greater(high, raised);
        i = i + 1;
    }
    assert(values@.take(i as int) =~= values@);
    Contest {
        value: greater(value, floor),
        best: if direction == MetricDirection::Higher {
            high
        } else {
            low
        },
    }
}

// ---------------------------------------------------------------------------------------------
// The ratio
// ---------------------------------------------------------------------------------------------

/// Whether the quotient of the two means anything: the value to divide by must not be zero or
/// below.
pub open spec fn divisible(contest: Contest, direction: MetricDirection) -> bool {
    let divisor = if direction == MetricDirection::Higher {
        contest.best
    } else {
        contest.value
    };
    divisor.undefined() || divisor.positive()
}

/// A number moved into the range from one hundredth to one.
pub open spec fn bounded(value: Real) -> Real {
    if value.undefined() {
        value
    } else if value.place() < least_ratio().place() {
        least_ratio()
    } else if value.place() > one().place() {
        one()
    } else {
        value
    }
}

/// The value is the best one. Two infinities do not count as the same.
pub open spec fn even(contest: Contest) -> bool {
    contest.best.finite() && contest.value.equal(contest.best)
}

/// Whether the value is the best one.
pub fn is_even(contest: Contest) -> (r: bool)
    ensures
        r == even(contest),
{
    contest.best.is_finite() && contest.value.equals(contest.best)
}

/// The ratio of a value to the best one.
pub open spec fn ratio(
    contest: Contest,
    direction: MetricDirection,
    quotient: Real,
    tied: bool,
) -> Real {
    if direction == MetricDirection::Neutral || tied || even(contest) || !divisible(
        contest,
        direction,
    ) {
        one()
    } else {
        bounded(quotient)
    }
}

/// Ratio of the best value to this value (one is best). `quotient` is the best divided by the value
/// where lower is better, and the value divided by the best where higher is; `tied` says whether
/// the value is within one percent of the best, which the best itself always is. Ties match the
/// per-metric tables; ratios are bounded at one hundredth.
pub fn index_ratio(contest: Contest, direction: MetricDirection, quotient: Real, tied: bool) -> (r:
    Real)
    ensures
        r == ratio(contest, direction, quotient, tied),
{
    let divisor: Real = if direction == MetricDirection::Higher {
        contest.best
    } else {
        contest.value
    };
    if direction == MetricDirection::Neutral || tied || is_even(contest) || !(
    divisor.is_undefined() || divisor.is_positive()) {
        return Real { bits: ONE_BITS };
    }
    let floor: Real = Real { bits: LEAST_RATIO_BITS };
    let ceiling: Real = Real { bits: ONE_BITS };
    if quotient.is_undefined() {
        quotient
    } else if quotient.is_below(floor) {
        floor
    } else if ceiling.is_below(quotient) {
        ceiling
    } else {
        quotient
    }
}

/// A ratio is never below one hundredth and never above one, whatever the values are; a value that
/// is level with the best has the ratio one.
pub proof fn law_ratios_are_bounded(
    contest: Contest,
    direction: MetricDirection,
    quotient: Real,
    tied: bool,
)
    requires
        !quotient.undefined(),
    ensures
        least_ratio().place() <= ratio(contest, direction, quotient, tied).place() <= one().place(),
        tied || even(contest) ==> ratio(contest, direction, quotient, tied) == one(),
{
}

/// Values at or below the floor count the same: where every value is, each of them is the best.
pub proof fn law_values_below_the_floor_are_level(
    values: Seq<Real>,
    direction: MetricDirection,
    floor: Real,
    i: int,
)
    requires
        0 <= i < values.len(),
        floor.finite(),
        floor.positive() || floor.bits == 0,
        forall|k: int|
            0 <= k < values.len() ==> !(#[trigger] values[k]).undefined() && values[k].place()
                <= floor.place(),
    ensures
        greater_of(values[i], floor) == floor,
        best(values, direction, floor) == floor,
{
    lemma_extremes_at_the_floor(values, floor);
}

proof fn lemma_extremes_at_the_floor(values: Seq<Real>, floor: Real)
    requires
        floor.finite(),
        floor.positive() || floor.bits == 0,
        forall|k: int|
            0 <= k < values.len() ==> !(#[trigger] values[k]).undefined() && values[k].place()
                <= floor.place(),
    ensures
        values.len() > 0 ==> least(values, floor) == floor,
        values.len() > 0 ==> greatest(values, floor) == floor,
        least(values, floor) == floor || least(values, floor) == (Real { bits: INFINITY_BITS }),
        greatest(values, floor) == floor || greatest(values, floor) == (Real { bits: 0 }),
    decreases values.len(),
{
    if values.len() > 0 {
        let front = values.drop_last();
        assert forall|k: int| 0 <= k < front.len() implies !(#[trigger] front[k]).undefined()
            && front[k].place() <= floor.place() by {
            assert(front[k] == values[k]);
        }
        lemma_extremes_at_the_floor(front, floor);
        let raised = greater_of(values.last(), floor);
        if floor.place() == values.last().place() {
            assert(floor.bits == values.last().bits);
        }
        assert(raised == floor);
    }
}

/// Where every value of a row is the same, each of them is the best, and each has the ratio one.
pub proof fn law_equal_values_are_level(
    values: Seq<Real>,
    direction: MetricDirection,
    floor: Real,
    quotient: Real,
    tied: bool,
    i: int,
)
    requires
        0 <= i < values.len(),
        floor.finite(),
        floor.positive() || floor.bits == 0,
        values[i].finite(),
        forall|k: int| 0 <= k < values.len() ==> (#[trigger] values[k]) == values[i],
    ensures
        best(values, direction, floor) == greater_of(values[i], floor),
        ({
            let contest = Contest {
                value: greater_of(values[i], floor),
                best: best(values, direction, floor),
            };
            even(contest) && ratio(contest, direction, quotient, tied) == one()
        }),
{
    lemma_extremes_of_equal_values(values, floor, values[i]);
}

proof fn lemma_extremes_of_equal_values(values: Seq<Real>, floor: Real, value: Real)
    requires
        floor.finite(),
        floor.positive() || floor.bits == 0,
        !value.undefined(),
        forall|k: int| 0 <= k < values.len() ==> (#[trigger] values[k]) == value,
    ensures
        values.len() > 0 ==> least(values, floor) == greater_of(value, floor),
        values.len() > 0 ==> greatest(values, floor) == greater_of(value, floor),
    decreases values.len(),
{
    if values.len() > 0 {
        let front = values.drop_last();
        assert forall|k: int| 0 <= k < front.len() implies (#[trigger] front[k]) == value by {
            assert(front[k] == values[k]);
        }
        lemma_extremes_of_equal_values(front, floor, value);
        let raised = greater_of(value, floor);
        let infinite = Real { bits: INFINITY_BITS };
        assert(values[values.len() - 1] == value);
        assert(values.last() == value);
        assert(0 <= raised.place() <= infinite.place());
        assert(raised.place() == 0 ==> raised.bits == 0);
        assert(raised.place() == infinite.place() ==> raised == infinite);
        if front.len() == 0 {
            assert(least(front, floor) == infinite);
            assert(greatest(front, floor) == (Real { bits: 0 }));
        }
    }
}

/// No value of a row is ahead of its best: below it where lower is better, above it where higher
/// is.
pub proof fn law_the_best_value_is_unbeaten(
    values: Seq<Real>,
    direction: MetricDirection,
    floor: Real,
    i: int,
)
    requires
        0 <= i < values.len(),
        !floor.undefined(),
    ensures
        direction == MetricDirection::Higher ==> greater_of(values[i], floor).place() <= best(
            values,
            direction,
            floor,
        ).place(),
        direction != MetricDirection::Higher ==> best(values, direction, floor).place()
            <= greater_of(values[i], floor).place(),
{
    lemma_extremes_are_extreme(values, floor, i);
}

proof fn lemma_extremes_are_defined(values: Seq<Real>, floor: Real)
    requires
        !floor.undefined(),
    ensures
        !least(values, floor).undefined(),
        !greatest(values, floor).undefined(),
    decreases values.len(),
{
    if values.len() > 0 {
        lemma_extremes_are_defined(values.drop_last(), floor);
    }
}

proof fn lemma_extremes_are_extreme(values: Seq<Real>, floor: Real, i: int)
    requires
        0 <= i < values.len(),
        !floor.undefined(),
    ensures
        greater_of(values[i], floor).place() <= greatest(values, floor).place(),
        least(values, floor).place() <= greater_of(values[i], floor).place(),
    decreases values.len(),
{
    lemma_extremes_are_defined(values.drop_last(), floor);
    if i < values.len() - 1 {
        lemma_extremes_are_extreme(values.drop_last(), floor, i);
        assert(values.drop_last()[i] == values[i]);
    }
}

// ---------------------------------------------------------------------------------------------
// Writing values
// ---------------------------------------------------------------------------------------------

/// How a value is written: divided by 1,024 so many times, with so many decimals, and with what
/// behind it.
#[derive(Debug)]
pub struct Style {
    pub divisions: u8,
    pub digits: u8,
    pub suffix: String,
}

/// What a `Style` says.
#[verifier::ext_equal]
pub ghost struct StyleModel {
    pub divisions: u8,
    pub digits: u8,
    pub suffix: Seq<char>,
}

impl View for Style {
    type V = StyleModel;

    open spec fn view(&self) -> StyleModel {
        StyleModel { divisions: self.divisions, digits: self.digits, suffix: self.suffix@ }
    }
}

pub open spec fn at_least(value: Real, bits: u64) -> bool {
    !value.undefined() && value.place() >= (Real { bits }).place()
}

pub open spec fn plain(digits: u8) -> StyleModel {
    StyleModel { divisions: 0, digits, suffix: ""@ }
}

/// Large sizes are written in the next unit; the other units have a precision each; and what is
/// left is written without decimals where it is whole.
pub open spec fn style_of(value: Real, unit: Seq<char>, whole: bool) -> StyleModel {
    if unit == "bytes"@ && at_least(value, MEGA_BITS) {
        StyleModel { divisions: 2, digits: 2, suffix: " MiB"@ }
    } else if unit == "bytes"@ && at_least(value, KILO_BITS) {
        StyleModel { divisions: 1, digits: 1, suffix: " KiB"@ }
    } else if unit == "KiB"@ && at_least(value, KILO_BITS) {
        StyleModel { divisions: 1, digits: 2, suffix: " MiB"@ }
    } else if unit == "ms"@ || unit == "ms CPU"@ {
        plain(2)
    } else if unit == "%"@ {
        plain(1)
    } else if unit == "KiB/pane"@ {
        plain(0)
    } else if unit == "% core"@ || unit == "MiB/s"@ {
        plain(3)
    } else if whole {
        plain(0)
    } else {
        plain(2)
    }
}

fn reaches(value: Real, bits: u64) -> (r: bool)
    ensures
        r == at_least(value, bits),
{
    !value.is_undefined() && !value.is_below(Real { bits })
}

fn style(divisions: u8, digits: u8, suffix: &str) -> (r: Style)
    ensures
        r@ == (StyleModel { divisions, digits, suffix: suffix@ }),
{
    Style { divisions, digits, suffix: suffix.to_owned() }
}

/// How a value of a unit is written; `whole` says whether it is within a millionth of what is left
/// when its decimals are dropped.
pub fn value_style(value: Real, unit: &str, whole: bool) -> (r: Style)
    ensures
        r@ == style_of(value, unit@, whole),
{
    if text::same(unit, "bytes") && reaches(value, MEGA_BITS) {
        style(2, 2, " MiB")
    } else if text::same(unit, "bytes") && reaches(value, KILO_BITS) {
        style(1, 1, " KiB")
    } else if text::same(unit, "KiB") && reaches(value, KILO_BITS) {
        style(1, 2, " MiB")
    } else if text::same(unit, "ms") || text::same(unit, "ms CPU") {
        style(0, 2, "")
    } else if text::same(unit, "%") {
        style(0, 1, "")
    } else if text::same(unit, "KiB/pane") {
        style(0, 0, "")
    } else if text::same(unit, "% core") || text::same(unit, "MiB/s") {
        style(0, 3, "")
    } else if whole {
        style(0, 0, "")
    } else {
        style(0, 2, "")
    }
}

} // verus!
