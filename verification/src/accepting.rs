//! What is accepted and what is refused: runs to merge, reports to read, configurations and
//! profiles.

use vstd::prelude::*;
use crate::config;
use crate::config::{ContenderModel, Presence};
use crate::leading;
use crate::measure::Real;
use crate::model::{
    AssuranceFindingModel, BenchmarkStatus, ContenderResultModel, ProfileRecordModel,
    RunReportModel,
};
use crate::paths;
use crate::report;
use crate::text;

verus! {

// ---------------------------------------------------------------------------------------------
// Merging
// ---------------------------------------------------------------------------------------------

/// The contender is missing from the other list.
pub open spec fn missing(c: ContenderResultModel, list: Seq<ContenderResultModel>) -> bool {
    forall|k: int| 0 <= k < list.len() ==> (#[trigger] list[k]).id != c.id
}

/// Some setting of the two profiles differs.
pub open spec fn profiles_differ(a: ProfileRecordModel, b: ProfileRecordModel) -> bool {
    ||| a.name != b.name
    ||| a.startup_iterations != b.startup_iterations
    ||| a.command_iterations != b.command_iterations
    ||| a.latency_iterations != b.latency_iterations
    ||| a.output_iterations != b.output_iterations
    ||| !a.settle_seconds.equal(b.settle_seconds)
    ||| a.sample_interval_ms != b.sample_interval_ms
    ||| !a.idle_seconds.equal(b.idle_seconds)
    ||| a.terminal_cols != b.terminal_cols
    ||| a.terminal_rows != b.terminal_rows
    ||| a.output_lines != b.output_lines
    ||| a.pane_count != b.pane_count
    ||| a.resize_iterations != b.resize_iterations
    ||| a.extra_clients != b.extra_clients
}

/// No run is merged whose schema, profile or set of contenders differs from that of the first one,
/// and there is nothing to merge without a run.
pub proof fn law_runs_with_other_settings_are_refused(list: Seq<RunReportModel>, j: int, k: int)
    requires
        1 <= j < list.len(),
        ({
            let (a, b) = (list[0], list[j]);
            ||| a.schema_version != b.schema_version
            ||| profiles_differ(a.profile, b.profile)
            ||| 0 <= k < a.contenders.len() && missing(a.contenders[k], b.contenders)
            ||| 0 <= k < b.contenders.len() && missing(b.contenders[k], a.contenders)
        }),
    ensures
        report::merge_fault(list) is Some,
        report::prepare_fault(list) is Some,
        report::merge_fault(Seq::empty()) is Some,
{
    let (a, b) = (list[0], list[j]);
    if 0 <= k < a.contenders.len() && missing(a.contenders[k], b.contenders) {
        assert(!report::identified(b.contenders, a.contenders[k].id));
    }
    if 0 <= k < b.contenders.len() && missing(b.contenders[k], a.contenders) {
        assert(!report::identified(a.contenders, b.contenders[k].id));
    }
    assert(report::run_conflict(a, b) is Some);
    report::law_conflicting_runs_are_refused(list, j);
}

/// No run is merged in which a contender of the first run has another adapter.
pub proof fn law_runs_with_other_adapters_are_refused(
    list: Seq<RunReportModel>,
    j: int,
    k: int,
    m: int,
)
    requires
        1 <= j < list.len(),
        0 <= k < list[0].contenders.len(),
        0 <= m < list[j].contenders.len(),
        list[0].contenders[k].id == list[j].contenders[m].id,
        list[0].contenders[k].adapter != list[j].contenders[m].adapter,
        forall|i: int|
            0 <= i < m ==> (#[trigger] list[j].contenders[i]).id != list[j].contenders[m].id,
    ensures
        report::merge_fault(list) is Some,
        report::prepare_fault(list) is Some,
{
    let (a, b) = (list[0], list[j]);
    lemma_first(b.contenders, m, 0);
    if report::run_conflict(a, b) is None {
        assert(report::contenders_conflict(a, b, k + 1) is Some);
        report::lemma_contenders_conflict_stays(a, b, k + 1, a.contenders.len() as int);
    }
    report::law_conflicting_runs_are_refused(list, j);
}

proof fn lemma_first(list: Seq<ContenderResultModel>, m: int, from: int)
    requires
        0 <= from <= m < list.len(),
        forall|i: int| 0 <= i < m ==> (#[trigger] list[i]).id != list[m].id,
    ensures
        report::first_identified(list, list[m].id, from) == Some(m),
    decreases m - from,
{
    if from < m {
        lemma_first(list, m, from + 1);
    }
}

/// The two runs have the same settings and the same contenders, in the same order, at the same
/// revisions.
pub open spec fn alike(a: RunReportModel, b: RunReportModel) -> bool {
    &&& a.schema_version == b.schema_version
    &&& !profiles_differ(a.profile, b.profile)
    &&& a.contenders.len() == b.contenders.len()
    &&& forall|k: int|
        0 <= k < a.contenders.len() ==> (#[trigger] a.contenders[k]).id == b.contenders[k].id
            && a.contenders[k].adapter == b.contenders[k].adapter && a.contenders[k].source.commit
            == b.contenders[k].source.commit
}

/// Runs that are alike are merged, where no run has a contender twice.
pub proof fn law_runs_that_are_alike_are_merged(list: Seq<RunReportModel>)
    requires
        list.len() > 0,
        forall|j: int| 0 <= j < list.len() ==> alike(list[0], #[trigger] list[j]),
        forall|k: int, m: int|
            0 <= k < m < list[0].contenders.len() ==> (#[trigger] list[0].contenders[k]).id != (
            #[trigger] list[0].contenders[m]).id,
    ensures
        report::merge_fault(list) is None,
{
    lemma_alike(list, list.len() as int);
}

proof fn lemma_alike(list: Seq<RunReportModel>, upto: int)
    requires
        0 < upto <= list.len(),
        forall|j: int| 0 <= j < list.len() ==> alike(list[0], #[trigger] list[j]),
        forall|k: int, m: int|
            0 <= k < m < list[0].contenders.len() ==> (#[trigger] list[0].contenders[k]).id != (
            #[trigger] list[0].contenders[m]).id,
    ensures
        report::conflict(list, upto) is None,
    decreases upto,
{
    if upto > 1 {
        lemma_alike(list, upto - 1);
        let (a, b) = (list[0], list[upto - 1]);
        assert(alike(a, b));
        assert forall|k: int| 0 <= k < a.contenders.len() implies report::identified(
            b.contenders,
            (#[trigger] a.contenders[k]).id,
        ) by {
            assert(b.contenders[k].id == a.contenders[k].id);
        }
        assert forall|k: int| 0 <= k < b.contenders.len() implies report::identified(
            a.contenders,
            (#[trigger] b.contenders[k]).id,
        ) by {
            assert(b.contenders[k].id == a.contenders[k].id);
        }
        lemma_no_conflict(a, b, a.contenders.len() as int);
        lemma_no_dispute(list, upto - 1, a.contenders.len() as int);
    }
}

proof fn lemma_no_conflict(a: RunReportModel, b: RunReportModel, upto: int)
    requires
        alike(a, b),
        upto <= a.contenders.len(),
        forall|k: int, m: int|
            0 <= k < m < a.contenders.len() ==> (#[trigger] a.contenders[k]).id != (
            #[trigger] a.contenders[m]).id,
    ensures
        report::contenders_conflict(a, b, upto) is None,
    decreases upto,
{
    if upto > 0 {
        lemma_no_conflict(a, b, upto - 1);
        let m = upto - 1;
        assert(a.contenders[m].id == b.contenders[m].id);
        assert forall|i: int| 0 <= i < m implies (#[trigger] b.contenders[i]).id
            != b.contenders[m].id by {
            assert(a.contenders[i].id == b.contenders[i].id);
            assert(a.contenders[i].id != a.contenders[m].id);
        }
        lemma_first(b.contenders, m, 0);
    }
}

proof fn lemma_no_dispute(list: Seq<RunReportModel>, at: int, upto: int)
    requires
        0 < at < list.len(),
        forall|j: int| 0 <= j < list.len() ==> alike(list[0], #[trigger] list[j]),
        forall|k: int, m: int|
            0 <= k < m < list[0].contenders.len() ==> (#[trigger] list[0].contenders[k]).id != (
            #[trigger] list[0].contenders[m]).id,
    ensures
        report::revision_conflict(list, at, upto) is None,
    decreases upto,
{
    if upto > 0 {
        lemma_no_dispute(list, at, upto - 1);
        let id = list[0].contenders[upto - 1].id;
        if report::disputed(list, at, id) {
            let (i, k, m) = choose|i: int, k: int, m: int|
                0 <= i < at && 0 <= k < list[i].contenders.len() && 0 <= m
                    < list[at].contenders.len() && list[at].contenders[m].id == id
                    && #[trigger] report::rivals(list[i].contenders[k], list[at].contenders[m]);
            assert(alike(list[0], list[i]) && alike(list[0], list[at]));
            assert(list[0].contenders[k].id == list[i].contenders[k].id);
            assert(list[0].contenders[m].id == list[at].contenders[m].id);
            if k < m {
                assert(list[0].contenders[k].id != list[0].contenders[m].id);
            } else if m < k {
                assert(list[0].contenders[m].id != list[0].contenders[k].id);
            }
        }
    }
}

/// Reports of the schemas five, six and seven can be read, and no others.
pub proof fn law_three_schemas_can_be_read(version: u32)
    ensures
        report::readable_schema(version) <==> version == 5 || version == 6 || version == 7,
{
}

// ---------------------------------------------------------------------------------------------
// Failures
// ---------------------------------------------------------------------------------------------

/// A run has failed exactly where a contender has an error, a metric that was not measured, or no
/// median on one of the eight core metrics.
pub proof fn law_failures_are_never_passed_over(r: RunReportModel, k: int)
    requires
        0 <= k < r.contenders.len(),
    ensures
        r.contenders[k].errors.len() > 0 ==> report::failed(r),
        forall|b: int|
            0 <= b < r.contenders[k].benchmarks.len() && (
            #[trigger] r.contenders[k].benchmarks[b]).status != BenchmarkStatus::Measured
                ==> report::failed(r),
        forall|name: Seq<char>|
            report::core_names().contains(name) && (#[trigger] report::middle(
                r.contenders[k],
                name,
            )) is None ==> report::failed(r),
        report::failed(r) ==> exists|j: int|
            0 <= j < r.contenders.len() && ((#[trigger] r.contenders[j]).errors.len() > 0 || (exists|
                b: int,
            |
                0 <= b < r.contenders[j].benchmarks.len() && (
                #[trigger] r.contenders[j].benchmarks[b]).status != BenchmarkStatus::Measured) || (
            exists|name: Seq<char>|
                report::core_names().contains(name) && (#[trigger] report::middle(
                    r.contenders[j],
                    name,
                )) is None)),
{
    let c = r.contenders[k];
    assert forall|name: Seq<char>|
        report::core_names().contains(name) && (#[trigger] report::middle(c, name))
            is None implies report::failed(r) by {
        let i = choose|i: int|
            0 <= i < report::core_names().len() && report::core_names()[i] == name;
        assert(report::middle(c, report::core_names()[i]) is None);
        assert(report::contender_failed(c));
    }
    if report::failed(r) {
        let j = choose|j: int|
            0 <= j < r.contenders.len() && report::contender_failed(#[trigger] r.contenders[j]);
        let d = r.contenders[j];
        if !report::core_complete(d) {
            let i = choose|i: int|
                0 <= i < report::core_names().len() && report::middle(
                    d,
                    #[trigger] report::core_names()[i],
                ) is None;
            let name = report::core_names()[i];
            assert(report::core_names().contains(name));
            assert(report::middle(d, name) is None);
        }
    }
}

/// The median of a metric is that of the first benchmark of its name, and only where that was
/// measured.
pub proof fn law_medians_come_from_the_first_measurement(
    c: ContenderResultModel,
    name: Seq<char>,
    b: int,
)
    requires
        0 <= b < c.benchmarks.len(),
        c.benchmarks[b].name == name,
        forall|i: int| 0 <= i < b ==> (#[trigger] c.benchmarks[i]).name != name,
    ensures
        c.benchmarks[b].status == BenchmarkStatus::Measured ==> report::middle(c, name)
            == c.benchmarks[b].summary.median,
        c.benchmarks[b].status != BenchmarkStatus::Measured ==> report::middle(c, name) is None,
{
    lemma_first_named(c, name, b, 0);
}

proof fn lemma_first_named(c: ContenderResultModel, name: Seq<char>, b: int, from: int)
    requires
        0 <= from <= b < c.benchmarks.len(),
        c.benchmarks[b].name == name,
        forall|i: int| 0 <= i < b ==> (#[trigger] c.benchmarks[i]).name != name,
    ensures
        report::first_named(c.benchmarks, name, from) == Some(b),
    decreases b - from,
{
    if from < b {
        lemma_first_named(c, name, b, from + 1);
    }
}

// ---------------------------------------------------------------------------------------------
// Configurations
// ---------------------------------------------------------------------------------------------

/// The name of a contender: letters, digits, dashes and underscores, at least one.
pub open spec fn named(s: Seq<char>) -> bool {
    s.len() > 0 && forall|i: int|
        0 <= i < s.len() ==> {
            let c = #[trigger] s[i];
            'a' <= c <= 'z' || 'A' <= c <= 'Z' || '0' <= c <= '9' || c == '-' || c == '_'
        }
}

proof fn lemma_named(s: Seq<char>)
    ensures
        config::id(s) == named(s),
{
    let p = config::is_id_char();
    if named(s) {
        assert forall|i: int| 0 <= i < s.len() implies p(#[trigger] s[i]) by {}
    }
    if config::id(s) {
        assert forall|i: int| 0 <= i < s.len() implies {
            let c = #[trigger] s[i];
            'a' <= c <= 'z' || 'A' <= c <= 'Z' || '0' <= c <= '9' || c == '-' || c == '_'
        } by {
            assert(p(s[i]));
        }
    }
}

/// A contender is well configured: its name is one, its adapter is one of three, its binary and its
/// source exist, and the weights of its ratings are positive numbers.
pub open spec fn well_configured(c: ContenderModel, present: Presence) -> bool {
    &&& named(c.id)
    &&& c.adapter == "uniterm"@ || c.adapter == "herdr"@ || c.adapter == "tmux"@
    &&& present.binary && present.source
    &&& forall|k: int|
        0 <= k < c.assurance.len() ==> 0 < (#[trigger] c.assurance[k]).weight.bits
            < 0x7ff0_0000_0000_0000
}

/// Each criterion of the first list is one of the second.
#[verifier::opaque]
pub open spec fn rated_there(a: Seq<AssuranceFindingModel>, b: Seq<AssuranceFindingModel>) -> bool {
    forall|i: int|
        0 <= i < a.len() ==> exists|j: int|
            0 <= j < b.len() && (#[trigger] b[j]).category == (#[trigger] a[i]).category
                && b[j].criterion == a[i].criterion
}

/// The two contenders are rated on the same criteria.
pub open spec fn same_criteria(
    a: Seq<AssuranceFindingModel>,
    b: Seq<AssuranceFindingModel>,
) -> bool {
    rated_there(a, b) && rated_there(b, a)
}

/// A configuration is accepted only where working directories are not kept, there are at least two
/// contenders, each is well configured, no two share a name, and all are rated on the same criteria.
pub proof fn law_accepted_configurations_are_sound(
    keep: bool,
    list: Seq<ContenderModel>,
    present: Seq<Presence>,
    i: int,
    j: int,
)
    requires
        config::fault(keep, list, present) is None,
        0 <= i < j < list.len(),
    ensures
        !keep,
        list.len() >= 2,
        well_configured(list[j], present[j]),
        well_configured(list[0], present[0]),
        list[i].id != list[j].id,
        same_criteria(list[i].assurance, list[j].assurance),
{
    config::law_accepted_configurations_are_fair(keep, list, present, i, j);
    config::lemma_no_contender_fault(list, present, 0, 0);
    config::lemma_weights(list[0].assurance);
    lemma_named(list[j].id);
    lemma_named(list[0].id);
    assert forall|k: int| 0 <= k < list[j].assurance.len() implies 0 < (
    #[trigger] list[j].assurance[k]).weight.bits < 0x7ff0_0000_0000_0000 by {
        leading::law_finite_numbers_have_an_exponent(list[j].assurance[k].weight);
    }
    assert forall|k: int| 0 <= k < list[0].assurance.len() implies 0 < (
    #[trigger] list[0].assurance[k]).weight.bits < 0x7ff0_0000_0000_0000 by {
        leading::law_finite_numbers_have_an_exponent(list[0].assurance[k].weight);
    }
    lemma_covered(list[i].assurance, list[j].assurance);
    lemma_covered(list[j].assurance, list[i].assurance);
}

proof fn lemma_covered(a: Seq<AssuranceFindingModel>, b: Seq<AssuranceFindingModel>)
    requires
        config::covered(a, b),
    ensures
        rated_there(a, b),
{
    reveal(rated_there);
    assert forall|i: int| 0 <= i < a.len() implies exists|j: int|
        0 <= j < b.len() && (#[trigger] b[j]).category == (#[trigger] a[i]).category
            && b[j].criterion == a[i].criterion by {
        assert(config::rated(b, a[i].category, a[i].criterion));
        let j = choose|j: int|
            0 <= j < b.len() && config::rates(
                #[trigger] b[j],
                a[i].category,
                a[i].criterion,
            );
        assert(b[j].category == a[i].category);
    }
}

/// Every sound configuration is accepted.
pub proof fn law_sound_configurations_are_accepted(
    list: Seq<ContenderModel>,
    present: Seq<Presence>,
)
    requires
        list.len() >= 2,
        forall|i: int| 0 <= i < list.len() ==> well_configured(#[trigger] list[i], present[i]),
        forall|i: int, j: int|
            0 <= i < j < list.len() ==> (#[trigger] list[i]).id != (#[trigger] list[j]).id,
        forall|i: int|
            0 <= i < list.len() ==> same_criteria(list[0].assurance, (#[trigger] list[i]).assurance),
    ensures
        config::fault(false, list, present) is None,
{
    lemma_contenders_sound(list, present, 0);
    lemma_rubric_sound(list, 1);
}

proof fn lemma_contenders_sound(list: Seq<ContenderModel>, present: Seq<Presence>, from: int)
    requires
        0 <= from,
        forall|i: int| 0 <= i < list.len() ==> well_configured(#[trigger] list[i], present[i]),
        forall|i: int, j: int|
            0 <= i < j < list.len() ==> (#[trigger] list[i]).id != (#[trigger] list[j]).id,
    ensures
        config::contenders_fault(list, present, from) is None,
    decreases list.len() - from,
{
    if from < list.len() {
        lemma_contenders_sound(list, present, from + 1);
        assert(well_configured(list[from], present[from]));
        lemma_named(list[from].id);
        lemma_weights_sound(list[from].assurance);
        assert forall|k: int| 0 <= k < from implies (#[trigger] list[k]).id != list[from].id by {}
    }
}

proof fn lemma_weights_sound(list: Seq<AssuranceFindingModel>)
    requires
        forall|k: int|
            0 <= k < list.len() ==> 0 < (#[trigger] list[k]).weight.bits < 0x7ff0_0000_0000_0000,
    ensures
        config::weight_fault(list) is None,
    decreases list.len(),
{
    if list.len() > 0 {
        let rest = list.skip(1);
        assert(0 < list[0].weight.bits < 0x7ff0_0000_0000_0000);
        leading::law_finite_numbers_have_an_exponent(list[0].weight);
        assert forall|k: int| 0 <= k < rest.len() implies 0 < (#[trigger] rest[k]).weight.bits
            < 0x7ff0_0000_0000_0000 by {
            assert(rest[k] == list[k + 1]);
        }
        lemma_weights_sound(rest);
    }
}

proof fn lemma_rubric_sound(list: Seq<ContenderModel>, from: int)
    requires
        0 <= from,
        forall|i: int|
            0 <= i < list.len() ==> same_criteria(list[0].assurance, (#[trigger] list[i]).assurance),
    ensures
        config::rubric_fault(list, from) is None,
    decreases list.len() - from,
{
    if from < list.len() {
        lemma_rubric_sound(list, from + 1);
        assert(same_criteria(list[0].assurance, list[from].assurance));
        lemma_rated(list[0].assurance, list[from].assurance);
        lemma_rated(list[from].assurance, list[0].assurance);
    }
}

proof fn lemma_rated(a: Seq<AssuranceFindingModel>, b: Seq<AssuranceFindingModel>)
    requires
        rated_there(a, b),
    ensures
        config::covered(a, b),
{
    reveal(rated_there);
    assert forall|i: int| 0 <= i < a.len() implies config::rated(
        b,
        (#[trigger] a[i]).category,
        a[i].criterion,
    ) by {
        let j = choose|j: int|
            0 <= j < b.len() && (#[trigger] b[j]).category == a[i].category && b[j].criterion
                == a[i].criterion;
        assert(config::rates(b[j], a[i].category, a[i].criterion));
    }
}

/// A leading tilde stands for the home directory, alone or before a slash; without a home directory,
/// and everywhere else, a tilde is itself.
pub proof fn law_only_a_leading_tilde_is_the_home(value: Seq<char>, home: Seq<char>, rest: Seq<char>)
    ensures
        config::expanded("~"@, Some(home)) == home,
        config::expanded("~/"@ + rest, Some(home)) == paths::joined(home, rest),
        value.len() > 0 && value[0] != '~' ==> config::expanded(value, Some(home)) == value,
        config::expanded(value, None) == value,
{
    reveal_strlit("~");
    reveal_strlit("~/");
    let whole = "~/"@ + rest;
    assert(whole.take(2) =~= "~/"@);
    assert(whole.skip(2) =~= rest);
    assert(whole.len() >= 2);
    assert(whole != "~"@);
    if value.len() > 0 && value[0] != '~' {
        assert(value != "~"@);
        if text::after_prefix(value, "~/"@) is Some {
            assert(value.take(2)[0] == value[0]);
        }
    }
}

// ---------------------------------------------------------------------------------------------
// Profiles
// ---------------------------------------------------------------------------------------------

/// The three measurement profiles, and no others.
pub proof fn law_there_are_three_profiles(name: Seq<char>)
    ensures
        config::profiled("smoke"@) == Some(
            ProfileRecordModel {
                name: "smoke"@,
                startup_iterations: 2,
                command_iterations: 4,
                latency_iterations: 5,
                output_iterations: 2,
                idle_seconds: Real { bits: 0x4000_0000_0000_0000 },
                settle_seconds: Real { bits: 0x3fe0_0000_0000_0000 },
                sample_interval_ms: 100,
                terminal_cols: 120,
                terminal_rows: 40,
                output_lines: 1_000,
                pane_count: 4,
                resize_iterations: 5,
                extra_clients: 2,
            },
        ),
        config::profiled("standard"@) == Some(
            ProfileRecordModel {
                name: "standard"@,
                startup_iterations: 8,
                command_iterations: 20,
                latency_iterations: 30,
                output_iterations: 5,
                idle_seconds: Real { bits: 0x403e_0000_0000_0000 },
                settle_seconds: Real { bits: 0x4008_0000_0000_0000 },
                sample_interval_ms: 200,
                terminal_cols: 160,
                terminal_rows: 50,
                output_lines: 10_000,
                pane_count: 8,
                resize_iterations: 20,
                extra_clients: 2,
            },
        ),
        config::profiled("marketing"@) == Some(
            ProfileRecordModel {
                name: "marketing"@,
                startup_iterations: 20,
                command_iterations: 50,
                latency_iterations: 100,
                output_iterations: 10,
                idle_seconds: Real { bits: 0x4072_c000_0000_0000 },
                settle_seconds: Real { bits: 0x4024_0000_0000_0000 },
                sample_interval_ms: 500,
                terminal_cols: 160,
                terminal_rows: 50,
                output_lines: 50_000,
                pane_count: 16,
                resize_iterations: 40,
                extra_clients: 2,
            },
        ),
        config::profiled(name) is Some <==> name == "smoke"@ || name == "standard"@ || name
            == "marketing"@,
{
    reveal_strlit("smoke");
    reveal_strlit("standard");
    reveal_strlit("marketing");
    assert("smoke"@.len() == 5);
    assert("standard"@.len() == 8);
    assert("marketing"@.len() == 9);
}

} // verus!
