//! How results are summed up and written: quantiles, orders, units, cells and lines of a report.

use vstd::prelude::*;
use crate::decimal;
use crate::document;
use crate::document::{ReportFiguresModel, StaticCount};
use crate::manifest;
use crate::measure;
use crate::measure::Real;
use crate::model::{
    AssuranceFindingModel, BenchmarkStatus, ContenderResultModel, MetricDirection, RunReportModel,
};
use crate::oracle;
use crate::paths;
use crate::process;
use crate::process::ProcessInfo;
use crate::report;
use crate::scoring;
use crate::scoring::StyleModel;
use crate::standings;
use crate::text;
use crate::textmap;

verus! {

// ---------------------------------------------------------------------------------------------
// Quantiles and orders
// ---------------------------------------------------------------------------------------------

/// The median has as many values below it as above it: it is one value of an odd number, and lies
/// between two neighbours of an even one.
pub proof fn law_medians_have_equal_sides(count: nat)
    requires
        count > 0,
    ensures
        ({
            let (low, high) = measure::median_places(count);
            &&& low == count - 1 - high
            &&& count % 2 == 1 ==> low == high
            &&& count % 2 == 0 ==> high == low + 1
        }),
{
}

/// The 95th percentile lies at nineteen twentieths of the way from the first value to the last: at
/// that place where it is one, and otherwise between the two around it.
pub proof fn law_percentiles_lie_at_nineteen_twentieths(count: nat)
    requires
        count > 0,
    ensures
        ({
            let (low, high) = measure::p95_places(count);
            &&& 20 * low <= 19 * (count - 1) <= 20 * high
            &&& 0 <= low <= high < count
            &&& (19 * (count - 1)) % 20 == 0 ==> low == high && 20 * low == 19 * (count - 1)
            &&& (19 * (count - 1)) % 20 != 0 ==> high == low + 1
        }),
{
}

/// An order begins with the turn, goes on with the next number and from the last one to zero.
pub proof fn law_orders_go_round(count: nat, turn: nat, i: int)
    requires
        count <= usize::MAX,
        turn < count,
        0 <= i < count - 1,
    ensures
        ({
            let order = oracle::rotation(count, turn);
            &&& order.len() == count
            &&& order[0] == turn
            &&& order[i] < count - 1 ==> order[i + 1] == order[i] + 1
            &&& order[i] == count - 1 ==> order[i + 1] == 0
        }),
{
    let order = oracle::rotation(count, turn);
    let n = count as int;
    assert(0 <= (i + turn) % n < n) by (nonlinear_arith)
        requires
            n > 0,
    ;
    if i + turn < n {
        vstd::arithmetic::div_mod::lemma_small_mod((i + turn) as nat, count);
    } else {
        vstd::arithmetic::div_mod::lemma_small_mod((i + turn - n) as nat, count);
        vstd::arithmetic::div_mod::lemma_mod_add_multiples_vanish(i + turn - n, n);
    }
    if i + 1 + turn < n {
        vstd::arithmetic::div_mod::lemma_small_mod((i + 1 + turn) as nat, count);
    } else {
        vstd::arithmetic::div_mod::lemma_small_mod((i + 1 + turn - n) as nat, count);
        vstd::arithmetic::div_mod::lemma_mod_add_multiples_vanish(i + 1 + turn - n, n);
    }
    vstd::arithmetic::div_mod::lemma_small_mod(turn, count);
}

/// The order of a run begins with the seed, counted round the contenders.
pub proof fn law_the_seed_picks_the_first(count: usize, seed: u64)
    requires
        count > 0,
        seed <= usize::MAX,
    ensures
        oracle::turn_of(count, seed) < count,
        oracle::turn_of(count, seed) as int == seed as int % count as int,
{
    if count == 1 {
        assert(seed as int % 1 == 0);
    }
}

// ---------------------------------------------------------------------------------------------
// Processes and manifests
// ---------------------------------------------------------------------------------------------

/// A process is taken for the one that was started only where it was not there before, runs the
/// program, and has the argument; and every such process is.
pub proof fn law_started_processes_are_new(
    p: ProcessInfo,
    before: Map<u32, ProcessInfo>,
    program: Seq<char>,
    arg: Seq<char>,
)
    ensures
        process::matching(p, before, program, arg) ==> !before.contains_key(p.pid)
            && text::contains(p.args@, arg),
        !before.contains_key(p.pid) && text::contains(p.args@, arg) && text::contains(
            p.args@,
            program,
        ) ==> process::matching(p, before, program, arg),
        !before.contains_key(p.pid) && text::contains(p.args@, arg) && paths::last_name(
            paths::components(program),
        ) == Some(p.comm@) ==> process::matching(p, before, program, arg),
        process::matching(p, before, program, arg) && !text::contains(p.args@, program)
            && paths::last_name(paths::components(program)) is Some ==> paths::last_name(
            paths::components(program),
        ) == Some(p.comm@),
{
}

/// Every process that was started is found, and no other is.
pub proof fn law_started_processes_are_all_found(
    m: Map<u32, ProcessInfo>,
    keys: Seq<u32>,
    before: Map<u32, ProcessInfo>,
    program: Seq<char>,
    arg: Seq<char>,
    pid: u32,
)
    ensures
        process::matches(m, keys, before, program, arg).contains(pid) <==> exists|i: int|
            0 <= i < keys.len() && m[#[trigger] keys[i]].pid == pid && process::matching(
                m[keys[i]],
                before,
                program,
                arg,
            ),
    decreases keys.len(),
{
    let all = process::matches(m, keys, before, program, arg);
    if keys.len() > 0 {
        let front = keys.drop_last();
        let found = process::matches(m, front, before, program, arg);
        law_started_processes_are_all_found(m, front, before, program, arg, pid);
        let last = keys.len() - 1;
        if all.contains(pid) {
            if found.contains(pid) {
                let i = choose|i: int|
                    0 <= i < front.len() && m[#[trigger] front[i]].pid == pid && process::matching(
                        m[front[i]],
                        before,
                        program,
                        arg,
                    );
                assert(keys[i] == front[i]);
            } else {
                let k = choose|k: int| 0 <= k < all.len() && all[k] == pid;
                if k < found.len() {
                    assert(found[k] == pid);
                }
                assert(m[keys[last]].pid == pid);
            }
        }
        if exists|i: int|
            0 <= i < keys.len() && m[#[trigger] keys[i]].pid == pid && process::matching(
                m[keys[i]],
                before,
                program,
                arg,
            ) {
            let i = choose|i: int|
                0 <= i < keys.len() && m[#[trigger] keys[i]].pid == pid && process::matching(
                    m[keys[i]],
                    before,
                    program,
                    arg,
                );
            if i < last {
                assert(front[i] == keys[i]);
                let k = choose|k: int| 0 <= k < found.len() && found[k] == pid;
                assert(all[k] == pid);
            } else {
                assert(all.last() == pid);
            }
        }
    }
}

/// What a package says of itself goes before what its workspace says, and its own dependencies are
/// counted where it lists any at all.
pub proof fn law_packages_speak_before_their_workspace(
    own: Seq<char>,
    shared: Option<Seq<char>>,
    n: nat,
    others: Option<nat>,
)
    ensures
        manifest::either(Some(own), shared) == Some(own),
        manifest::either(None, shared) == shared,
        manifest::dependency_total(Some(n), others) == n,
        manifest::dependency_total(None, Some(n)) == n,
        manifest::dependency_total(None, None) == 0,
{
}

// ---------------------------------------------------------------------------------------------
// Units
// ---------------------------------------------------------------------------------------------

/// The number is at least the one with these bits, which is positive.
pub open spec fn reaches(value: Real, bits: u64) -> bool {
    bits <= value.bits <= 0x7ff0_0000_0000_0000
}

/// Sizes are divided as often as their unit says: from a mebibyte on twice, from a kibibyte on once,
/// and below not at all.
pub proof fn law_sizes_are_written_in_their_unit(value: Real, whole: bool)
    requires
        value.bits <= 0x7ff0_0000_0000_0000,
    ensures
        reaches(value, 0x4130_0000_0000_0000) ==> scoring::style_of(value, "bytes"@, whole) == (
        StyleModel { divisions: 2, digits: 2, suffix: " MiB"@ }),
        reaches(value, 0x4090_0000_0000_0000) && !reaches(value, 0x4130_0000_0000_0000)
            ==> scoring::style_of(value, "bytes"@, whole) == (StyleModel {
            divisions: 1,
            digits: 1,
            suffix: " KiB"@,
        }),
        reaches(value, 0x4090_0000_0000_0000) ==> scoring::style_of(value, "KiB"@, whole) == (
        StyleModel { divisions: 1, digits: 2, suffix: " MiB"@ }),
        !reaches(value, 0x4090_0000_0000_0000) ==> scoring::style_of(
            value,
            "bytes"@,
            whole,
        ).divisions == 0 && scoring::style_of(value, "KiB"@, whole).divisions == 0,
{
    reveal_strlit("bytes");
    reveal_strlit("KiB");
    assert("bytes"@.len() == 5 && "KiB"@.len() == 3);
}

/// Other units have a number of decimals each, and no suffix.
pub proof fn law_units_have_their_decimals(value: Real, whole: bool)
    ensures
        scoring::style_of(value, "ms"@, whole) == (StyleModel {
            divisions: 0,
            digits: 2,
            suffix: ""@,
        }),
        scoring::style_of(value, "%"@, whole) == (StyleModel {
            divisions: 0,
            digits: 1,
            suffix: ""@,
        }),
        scoring::style_of(value, "% core"@, whole) == (StyleModel {
            divisions: 0,
            digits: 3,
            suffix: ""@,
        }),
        scoring::style_of(value, "MiB/s"@, whole) == (StyleModel {
            divisions: 0,
            digits: 3,
            suffix: ""@,
        }),
        scoring::style_of(value, "KiB/pane"@, whole) == (StyleModel {
            divisions: 0,
            digits: 0,
            suffix: ""@,
        }),
        scoring::style_of(value, "count"@, true).digits == 0,
        scoring::style_of(value, "count"@, false).digits == 2,
{
    reveal_strlit("bytes");
    reveal_strlit("KiB");
    reveal_strlit("ms");
    reveal_strlit("ms CPU");
    reveal_strlit("%");
    reveal_strlit("KiB/pane");
    reveal_strlit("% core");
    reveal_strlit("MiB/s");
    reveal_strlit("count");
    assert("bytes"@.len() == 5 && "KiB"@.len() == 3 && "ms"@.len() == 2 && "ms CPU"@.len() == 6
        && "%"@.len() == 1 && "KiB/pane"@.len() == 8 && "% core"@.len() == 6 && "MiB/s"@.len() == 5
        && "count"@.len() == 5);
    assert("bytes"@[0] == 'b' && "MiB/s"@[0] == 'M' && "count"@[0] == 'c');
    assert("ms CPU"@[0] == 'm' && "% core"@[0] == '%');
}

// ---------------------------------------------------------------------------------------------
// Cells
// ---------------------------------------------------------------------------------------------

/// In a table a bar is escaped, a line break becomes a space, and every other character stays; texts
/// one after another are escaped one after another.
pub proof fn law_cells_hold_no_bars_and_breaks(a: Seq<char>, b: Seq<char>, c: char)
    ensures
        document::escaped(a + b) == document::escaped(a) + document::escaped(b),
        document::escaped(seq!['|']) == seq!['\\', '|'],
        document::escaped(seq!['\n']) == seq![' '],
        c != '|' && c != '\n' ==> document::escaped(seq![c]) == seq![c],
        document::escaped(Seq::empty()) == Seq::<char>::empty(),
    decreases b.len(),
{
    reveal_strlit("\\|");
    reveal_strlit(" ");
    reveal_with_fuel(document::escaped, 2);
    let e = Seq::<char>::empty();
    assert(seq![c].drop_last() =~= e);
    assert(seq!['|'].drop_last() =~= e);
    assert(seq!['\n'].drop_last() =~= e);
    assert(document::escaped(seq!['|']) =~= seq!['\\', '|']);
    assert(document::escaped(seq!['\n']) =~= seq![' ']);
    assert(c != '|' && c != '\n' ==> document::escaped(seq![c]) =~= seq![c]);
    if b.len() == 0 {
        assert(a + b =~= a);
        assert(document::escaped(a) + document::escaped(b) =~= document::escaped(a));
    } else {
        law_cells_hold_no_bars_and_breaks(a, b.drop_last(), c);
        assert((a + b).drop_last() =~= a + b.drop_last());
        assert((a + b).last() == b.last());
        assert(document::escaped(a + b) =~= document::escaped(a) + document::escaped(b));
    }
}

/// A value is shown as it is written; where there is none, a failure is called one.
pub proof fn law_missing_values_are_named(value: Real, written: Seq<char>)
    ensures
        forall|s: Option<BenchmarkStatus>| #[trigger]
            document::cell(s, Some(value), written) == written,
        document::cell(Some(BenchmarkStatus::Failed), None, written) == "FAILED"@,
        document::cell(Some(BenchmarkStatus::Skipped), None, written) == "skipped"@,
        document::cell(Some(BenchmarkStatus::Measured), None, written) == "missing"@,
        document::cell(None, None, written) == "missing"@,
{
}

/// The winner of a metric is named where it wins alone, and not where others come close.
pub proof fn law_winners_are_named_alone(
    r: RunReportModel,
    values: Seq<Option<Real>>,
    direction: MetricDirection,
    tied: usize,
)
    requires
        values.len() == r.contenders.len(),
    ensures
        standings::winner(values, direction) is None ==> document::winner_text(
            r,
            values,
            direction,
            tied,
        ) == "not ranked"@,
        standings::winner(values, direction) is Some && tied > 1 ==> document::winner_text(
            r,
            values,
            direction,
            tied,
        ) == "tie (within 1%)"@,
        standings::winner(values, direction) matches Some(i) ==> tied <= 1 && 0 <= i < values.len()
            ==> document::winner_text(r, values, direction, tied) == r.contenders[i].display_name,
{
}

/// Commits are shown by their first twelve characters.
pub proof fn law_commits_are_shortened(commit: Seq<char>)
    ensures
        commit.len() <= 12 ==> document::short_commit(Some(commit)) == commit,
        commit.len() > 12 ==> document::short_commit(Some(commit)).len() == 12 && commit
            == document::short_commit(Some(commit)) + commit.skip(12),
        document::short_commit(None) == "unknown"@,
{
    if commit.len() > 12 {
        assert(commit =~= commit.take(12) + commit.skip(12));
    }
}

/// Ranks begin with one, and the contender with that rank is named with its score.
pub proof fn law_ranks_begin_with_one(r: RunReportModel, f: ReportFiguresModel, rank: int)
    requires
        0 <= rank < document::standing(r, f).len(),
        rank < r.contenders.len(),
    ensures
        ({
            let id = document::standing(r, f)[rank].0;
            let line = document::index_table(r, f)[rank + 2];
            text::starts_with(
                line,
                "| "@ + decimal::decimal((rank + 1) as nat) + " | "@ + document::shown_name(r, id)
                    + " | "@ + document::score_text(r, f, id) + " | "@,
            )
        }),
        document::index_table(r, f).len() == r.contenders.len() + 3,
{
    let id = document::standing(r, f)[rank].0;
    let present = match report::first_identified(r.contenders, id, 0) {
        Some(k) => report::core_present(r.contenders[k], report::core_names().len() as int),
        None => 0,
    };
    let front = "| "@ + decimal::decimal((rank + 1) as nat) + " | "@ + document::shown_name(r, id)
        + " | "@ + document::score_text(r, f, id) + " | "@;
    let rest = decimal::decimal(present) + "/"@ + decimal::decimal(report::core_names().len())
        + " |"@;
    assert(document::index_line(r, f, rank) =~= front + rest);
    assert((front + rest).take(front.len() as int) =~= front);
    assert(document::index_table(r, f)[rank + 2] == document::index_line(r, f, rank));
}

/// A contender is shown by its display name.
pub proof fn law_contenders_are_shown_by_their_name(r: RunReportModel, k: int)
    requires
        0 <= k < r.contenders.len(),
        forall|j: int| 0 <= j < k ==> (#[trigger] r.contenders[j]).id != r.contenders[k].id,
    ensures
        document::shown_name(r, r.contenders[k].id) == r.contenders[k].display_name,
{
    lemma_first_of(r.contenders, k, 0);
}

proof fn lemma_first_of(list: Seq<ContenderResultModel>, k: int, from: int)
    requires
        0 <= from <= k < list.len(),
        forall|j: int| 0 <= j < k ==> (#[trigger] list[j]).id != list[k].id,
    ensures
        report::first_identified(list, list[k].id, from) == Some(k),
    decreases k - from,
{
    if from < k {
        lemma_first_of(list, k, from + 1);
    }
}

/// A failed restart is called a failure, whatever else was noted of it; a measured one says whether
/// the earlier output came back.
pub proof fn law_restorations_are_reported(c: ContenderResultModel, yes: Seq<char>)
    ensures
        report::raw(c, "restart_ready"@) is None ==> document::restored(c) == "missing"@,
        report::raw(c, "restart_ready"@) matches Some(b) ==> (b.status != BenchmarkStatus::Measured
            ==> document::restored(c) == "FAILED"@) && (b.status == BenchmarkStatus::Measured
            && textmap::value_of(b.metadata, "native_disk_restoration"@) is None
            && textmap::value_of(b.metadata, "prior_output_visible_after_restart"@) == Some(yes)
            ==> document::restored(c) == yes),
{
}

/// Counts of a source tree are shown under their own names, and one that does not apply is not
/// shown as zero.
pub proof fn law_counts_are_shown_under_their_names(c: ContenderResultModel, n: u64)
    ensures
        StaticCount::FirstPartyLines.count(c) == c.static_analysis.first_party_rust_lines,
        StaticCount::TestLines.count(c) == c.static_analysis.rust_test_lines,
        StaticCount::DocumentationLines.count(c) == Some(c.static_analysis.documentation_lines),
        StaticCount::LockfilePackages.count(c) == c.static_analysis.lockfile_packages,
        StaticCount::DirectDependencies.count(c) == c.static_analysis.direct_dependencies,
        StaticCount::UnsafeBlocks.count(c) == c.static_analysis.unsafe_blocks,
        StaticCount::UnwrapCalls.count(c) == c.static_analysis.production_unwrap_calls,
        StaticCount::FirstPartyLines.label() == "First-party Rust lines"@,
        StaticCount::TestLines.label() == "Rust test lines"@,
        StaticCount::DocumentationLines.label() == "Markdown documentation lines"@,
        StaticCount::LockfilePackages.label() == "Cargo.lock packages"@,
        StaticCount::DirectDependencies.label() == "Direct Cargo dependencies"@,
        StaticCount::UnsafeBlocks.label() == "Lexical unsafe blocks"@,
        StaticCount::UnwrapCalls.label() == "Lexical production unwrap calls"@,
        decimal::numeral(document::count_text(Some(n))) == Some(n as nat),
        document::count_text(None) == "N/A"@,
{
    decimal::lemma_decimal(n as nat);
}

/// A finding counts in its own category, with its weight, and only where its status has a score.
pub proof fn law_findings_count_in_their_category(
    list: Seq<AssuranceFindingModel>,
    f: AssuranceFindingModel,
    category: Seq<char>,
)
    ensures
        ({
            let before = standings::ratings(list, category, list.len() as int);
            let after = standings::ratings(list.push(f), category, list.len() as int + 1);
            &&& f.category != category || f.status.scored() is None ==> after == before
            &&& f.category == category && f.status.scored() is Some ==> after == before.push(
                (f.status.scored()->Some_0, f.weight),
            )
        }),
{
    lemma_ratings_of_prefix(list, f, category, list.len() as int);
}

proof fn lemma_ratings_of_prefix(
    list: Seq<AssuranceFindingModel>,
    f: AssuranceFindingModel,
    category: Seq<char>,
    upto: int,
)
    requires
        upto <= list.len(),
    ensures
        standings::ratings(list.push(f), category, upto) == standings::ratings(
            list,
            category,
            upto,
        ),
    decreases upto,
{
    if upto > 0 {
        lemma_ratings_of_prefix(list, f, category, upto - 1);
        assert(list.push(f)[upto - 1] == list[upto - 1]);
    }
}

} // verus!
