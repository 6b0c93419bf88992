//! What surrounds a run: the commands that are asked for, the check-up of a host, the sources of a
//! report, the environment of a product, the probes of a pane, and the record of the run itself.

use vstd::prelude::*;
use crate::adapters;
use crate::adapters::IsolatedWorkdir;
use crate::cli;
use crate::cli::{Checkup, InvocationModel};
use crate::config::ContenderModel;
use crate::decimal;
use crate::model::{ContenderResultModel, HostInfoModel, ProfileRecordModel};
use crate::operating;
use crate::panes;
use crate::paths;
use crate::plan::{ActionModel, EventModel};
use crate::process::ProcessInfo;
use crate::pty;
use crate::pty::ObservationModel;
use crate::report;
use crate::report::SourceModel;
use crate::runner;
use crate::suites;
use crate::text;
use crate::textmap;
use crate::workloads;

verus! {

// ---------------------------------------------------------------------------------------------
// Commands and check-ups
// ---------------------------------------------------------------------------------------------

/// The first argument names the command, and the others are its arguments; without any there is
/// help.
pub proof fn law_the_first_argument_is_the_command(args: Seq<Seq<char>>)
    ensures
        cli::asked(seq!["run"@] + args) == cli::run_asked(args),
        cli::asked(seq!["report"@] + args) == cli::report_asked(args),
        cli::asked(seq!["sanitize"@] + args) == cli::sanitize_asked(args),
        cli::asked(seq!["doctor"@] + args) == cli::doctor_asked(args),
        cli::asked(seq!["--version"@] + args) == Ok::<InvocationModel, Seq<char>>(
            InvocationModel::Version,
        ),
        cli::asked(seq!["-V"@] + args) == Ok::<InvocationModel, Seq<char>>(
            InvocationModel::Version,
        ),
        cli::asked(seq!["--help"@] + args) == Ok::<InvocationModel, Seq<char>>(
            InvocationModel::Help,
        ),
        cli::asked(seq!["-h"@] + args) == Ok::<InvocationModel, Seq<char>>(InvocationModel::Help),
        cli::asked(Seq::empty()) == Ok::<InvocationModel, Seq<char>>(InvocationModel::Help),
{
    reveal_strlit("run");
    reveal_strlit("report");
    reveal_strlit("sanitize");
    reveal_strlit("doctor");
    reveal_strlit("--version");
    reveal_strlit("-V");
    reveal_strlit("--help");
    reveal_strlit("-h");
    assert("run"@.len() == 3 && "report"@.len() == 6 && "sanitize"@.len() == 8 && "doctor"@.len()
        == 6 && "--version"@.len() == 9 && "-V"@.len() == 2 && "--help"@.len() == 6 && "-h"@.len()
        == 2);
    assert("report"@[0] == 'r' && "doctor"@[0] == 'd' && "--help"@[0] == '-');
    assert("-V"@[1] == 'V' && "-h"@[1] == 'h');
    assert((seq!["run"@] + args).skip(1) =~= args);
    assert((seq!["report"@] + args).skip(1) =~= args);
    assert((seq!["sanitize"@] + args).skip(1) =~= args);
    assert((seq!["doctor"@] + args).skip(1) =~= args);
}

/// A command that is none of these is refused.
pub proof fn law_unknown_commands_are_refused(args: Seq<Seq<char>>)
    requires
        args.len() > 0,
        args[0] != "run"@ && args[0] != "report"@ && args[0] != "sanitize"@ && args[0] != "doctor"@,
        args[0] != "--version"@ && args[0] != "-V"@ && args[0] != "--help"@ && args[0] != "-h"@,
    ensures
        cli::asked(args) is Err,
{
}

/// A check-up passes exactly where the three commands and the shell are there and every product
/// says its version.
pub proof fn law_checkups_pass_where_nothing_is_missing(c: Checkup)
    ensures
        cli::all_failures(c).len() == 0 <==> c.ps && c.git && c.uname && c.shell && (forall|
            i: int,
        |
            0 <= i < c.products@.len() ==> (#[trigger] c.products@[i]).version is Ok),
        cli::all_lines(c).last() == "doctor passed"@ || cli::all_failures(c).len() > 0,
{
    lemma_product_failures(c.products@);
}

proof fn lemma_product_failures(products: Seq<cli::ProductCheck>)
    ensures
        cli::product_failures(products).len() == 0 <==> (forall|i: int|
            0 <= i < products.len() ==> (#[trigger] products[i]).version is Ok),
    decreases products.len(),
{
    if products.len() > 0 {
        let front = products.drop_last();
        lemma_product_failures(front);
        if cli::product_failures(products).len() == 0 {
            assert forall|i: int| 0 <= i < products.len() implies (
            #[trigger] products[i]).version is Ok by {
                if i < front.len() {
                    assert(front[i] == products[i]);
                }
            }
        }
        if forall|i: int| 0 <= i < products.len() ==> (#[trigger] products[i]).version is Ok {
            assert forall|i: int| 0 <= i < front.len() implies (
            #[trigger] front[i]).version is Ok by {
                assert(front[i] == products[i]);
            }
            assert(products[products.len() - 1].version is Ok);
        }
    }
}

// ---------------------------------------------------------------------------------------------
// The sources of a report
// ---------------------------------------------------------------------------------------------

/// A source that cannot be read, is no report or has another schema keeps all of them from being
/// loaded, and so do runs that cannot be merged.
pub proof fn law_one_bad_source_spoils_the_report(list: Seq<SourceModel>, i: int)
    requires
        0 <= i < list.len(),
    ensures
        list[i] is Unreadable ==> report::load_fault(list) is Some,
        list[i] is Malformed ==> report::load_fault(list) is Some,
        (list[i] matches SourceModel::Parsed { report, .. } && report.schema_version < 5)
            ==> report::load_fault(list) is Some,
        (list[i] matches SourceModel::Parsed { report, .. } && report.schema_version > 7)
            ==> report::load_fault(list) is Some,
        report::merge_fault(list.map_values(|s: SourceModel| s->report)) is Some
            ==> report::load_fault(list) is Some,
{
    if report::source_fault(list[i]) is Some {
        lemma_sources(list, i, list.len() as int);
    }
}

proof fn lemma_sources(list: Seq<SourceModel>, i: int, upto: int)
    requires
        0 <= i < upto <= list.len(),
        report::source_fault(list[i]) is Some,
    ensures
        report::sources_fault(list, upto) is Some,
    decreases upto,
{
    if i < upto - 1 {
        lemma_sources(list, i, upto - 1);
    }
}

// ---------------------------------------------------------------------------------------------
// Products
// ---------------------------------------------------------------------------------------------

/// Only tmux is bound to a socket and a configuration by its arguments; both lie in its private
/// directories.
pub proof fn law_only_tmux_is_bound_by_arguments(adapter: Seq<char>, w: IsolatedWorkdir)
    ensures
        adapter == "tmux"@ ==> adapters::base_args(adapter, w) == seq![
            "-S"@,
            paths::joined(w.runtime@, "tmux.sock"@),
            "-f"@,
            paths::joined(w.config@, "tmux-benchmark.conf"@),
        ],
        adapter != "tmux"@ ==> adapters::base_args(adapter, w).len() == 0,
{
}

/// A contender's own variables go before those of the private directories, and those before the
/// search path; only Herdr is told its session and its configuration.
pub proof fn law_own_variables_go_first(
    adapter: Seq<char>,
    own: Seq<(Seq<char>, Seq<char>)>,
    w: IsolatedWorkdir,
    path: Option<Seq<char>>,
    session: Option<Seq<char>>,
    key: Seq<char>,
)
    ensures
        adapter != "herdr"@ && textmap::named(own, key) ==> adapters::variable(
            adapter,
            own,
            w,
            path,
            session,
            key,
        ) == textmap::value_of(own, key),
        adapter == "herdr"@ && session is Some ==> adapters::variable(
            adapter,
            own,
            w,
            path,
            session,
            "HERDR_SESSION"@,
        ) == session,
        adapter == "herdr"@ ==> adapters::variable(
            adapter,
            own,
            w,
            path,
            session,
            "HERDR_CONFIG_PATH"@,
        ) == Some(paths::joined(w.config@, "herdr-benchmark.toml"@)),
        !textmap::named(own, "PATH"@) && !textmap::named(
            adapters::private_environment(w),
            "PATH"@,
        ) && adapter != "herdr"@ ==> adapters::variable(adapter, own, w, path, session, "PATH"@)
            == path,
{
    reveal_strlit("HERDR_SESSION");
    reveal_strlit("HERDR_CONFIG_PATH");
    assert("HERDR_SESSION"@.len() == 13 && "HERDR_CONFIG_PATH"@.len() == 17);
}

/// The server among the new processes is the first one that serves.
pub proof fn law_the_first_serving_process_is_the_server(
    m: Map<u32, ProcessInfo>,
    pids: Seq<u32>,
    i: int,
)
    requires
        0 <= i < pids.len(),
        m.contains_key(pids[i]),
        text::contains(m[pids[i]].args@, "serve"@),
        forall|k: int|
            0 <= k < i ==> !(m.contains_key(#[trigger] pids[k]) && text::contains(
                m[pids[k]].args@,
                "serve"@,
            )),
    ensures
        adapters::first_serving(m, pids) == Some(pids[i]),
    decreases pids.len(),
{
    if i > 0 {
        let rest = pids.skip(1);
        assert(!(m.contains_key(pids[0]) && text::contains(m[pids[0]].args@, "serve"@)));
        assert(rest[i - 1] == pids[i]);
        assert forall|k: int| 0 <= k < i - 1 implies !(m.contains_key(#[trigger] rest[k])
            && text::contains(m[rest[k]].args@, "serve"@)) by {
            assert(rest[k] == pids[k + 1]);
        }
        law_the_first_serving_process_is_the_server(m, rest, i - 1);
    }
}

/// A label of up to eight letters and digits is kept as it is, and never more than eight are.
pub proof fn law_labels_are_kept_to_eight(label: Seq<char>)
    ensures
        adapters::short_label(label).len() <= 8,
        label.len() <= 8 && (forall|i: int|
            0 <= i < label.len() ==> ('a' <= #[trigger] label[i] <= 'z' || 'A' <= label[i] <= 'Z'
                || '0' <= label[i] <= '9')) ==> adapters::short_label(label) == label,
{
    let p = |c: char| text::alphanumeric(c);
    if label.len() <= 8 && forall|i: int|
        0 <= i < label.len() ==> ('a' <= #[trigger] label[i] <= 'z' || 'A' <= label[i] <= 'Z' || '0'
            <= label[i] <= '9') {
        lemma_all_kept(label, p);
    }
}

proof fn lemma_all_kept(s: Seq<char>, p: spec_fn(char) -> bool)
    requires
        forall|i: int| 0 <= i < s.len() ==> p(#[trigger] s[i]),
    ensures
        s.filter(p) == s,
    decreases s.len(),
{
    reveal(Seq::filter);
    if s.len() > 0 {
        let front = s.drop_last();
        assert forall|i: int| 0 <= i < front.len() implies p(#[trigger] front[i]) by {
            assert(front[i] == s[i]);
        }
        lemma_all_kept(front, p);
        assert(p(s[s.len() - 1]));
        assert(front.push(s.last()) =~= s);
    } else {
        assert(s.filter(p) =~= s);
    }
}

/// Sizes of files add up.
pub proof fn law_sizes_of_files_add_up(sizes: Seq<u64>, size: u64)
    ensures
        adapters::total(sizes.push(size)) == adapters::total(sizes) + size,
        adapters::total(Seq::empty()) == 0,
{
    assert(sizes.push(size).drop_last() =~= sizes);
}

/// What is observed of a terminal: its text grows by what can be read, its bytes by all of them.
pub proof fn law_observations_grow_by_what_is_read(o: ObservationModel, bytes: Seq<u8>)
    requires
        operating::readable(bytes),
        o.stripped.len() + bytes.len() <= 16 * 1024 * 1024,
        o.raw_bytes + bytes.len() <= u64::MAX,
    ensures
        o.absorbed(bytes).stripped == o.stripped + bytes,
        o.absorbed(bytes).raw_bytes == o.raw_bytes + bytes.len(),
{
    assert forall|i: int| 0 <= i < bytes.len() implies pty::kept(#[trigger] bytes[i]) by {}
    pty::law_printable_text_stays(bytes);
}

// ---------------------------------------------------------------------------------------------
// Probes and restarts
// ---------------------------------------------------------------------------------------------

/// A probe clears the screen, types its line and waits for its tag before it reads a size.
pub proof fn law_probes_wait_for_their_tag(tag: Seq<char>, events: Seq<EventModel>)
    requires
        forall|i: int| 0 <= i < events.len() ==> !(#[trigger] events[i] is Failed),
    ensures
        events.len() == 0 ==> workloads::probe_plan(tag, events) == Some(ActionModel::Clear),
        events.len() == 1 ==> workloads::probe_plan(tag, events) == Some(
            ActionModel::Type { line: workloads::probe_line(tag + ":"@) },
        ),
        events.len() == 2 ==> workloads::probe_plan(tag, events) == Some(
            ActionModel::Await { wanted: tag + ":"@, seconds: 5 },
        ),
        events.len() == 3 ==> workloads::probe_plan(tag, events) == Some(
            ActionModel::ReadSize { prefix: tag + ":"@ },
        ),
        events.len() > 3 && events.last() is Size ==> workloads::probe_plan(tag, events) is None,
        events.len() > 3 ==> (events.last() matches EventModel::Size { rows, cols, .. }
            ==> workloads::probe_outcome(tag, events) == Ok::<(u16, u16), Seq<char>>((rows, cols))),
{
    if events.len() > 0 {
        assert(!(events[events.len() - 1] is Failed));
    }
}

/// A restart that succeeds is looked at for what was there before, and then stopped.
pub proof fn law_restarts_are_looked_at(expected: Seq<char>, events: Seq<EventModel>)
    requires
        forall|i: int| 0 <= i < events.len() ==> !(#[trigger] events[i] is Failed),
    ensures
        events.len() == 0 ==> suites::restart_plan(expected, events) == Some(ActionModel::Restart),
        events.len() == 1 ==> suites::restart_plan(expected, events) == Some(ActionModel::Attach),
        events.len() == 2 ==> suites::restart_plan(expected, events) == Some(
            ActionModel::Drain { millis: 1500 },
        ),
        events.len() == 3 ==> suites::restart_plan(expected, events) == Some(
            ActionModel::Look { wanted: expected },
        ),
        events.len() == 4 ==> suites::restart_plan(expected, events) == Some(
            ActionModel::CountShells,
        ),
        events.len() == 5 ==> suites::restart_plan(expected, events) == Some(ActionModel::Detach),
        events.len() == 7 ==> suites::restart_plan(expected, events) == Some(
            ActionModel::Terminate,
        ),
        events.len() == 8 ==> suites::restart_plan(expected, events) == Some(ActionModel::Stop),
        events.len() > 8 ==> suites::restart_plan(expected, events) is None,
{
    if events.len() > 0 {
        assert(!(events[0] is Failed));
    }
    if events.len() > 1 {
        assert(!(events[1] is Failed));
    }
}

/// The sizes of a storm lie ten to forty-nine columns and four to nineteen rows below the window, and
/// never below forty columns and ten rows.
pub proof fn law_storms_stay_within_bounds(p: ProfileRecordModel, index: nat)
    ensures
        ({
            let (cols, rows) = workloads::storm_size(p, index);
            let wide = p.terminal_cols - 10 - (13 * index) as int % 40;
            let high = p.terminal_rows - 4 - (7 * index) as int % 16;
            &&& cols == (if wide > 40 { wide } else { 40 })
            &&& rows == (if high > 10 { high } else { 10 })
        }),
{
}

/// A storm is given up where its size is not back twenty seconds after the last resize, and not
/// before.
pub proof fn law_storms_have_twenty_seconds(
    p: ProfileRecordModel,
    events: Seq<EventModel>,
    age: u64,
)
    requires
        events.len() > 3 + 2 * p.resize_iterations,
        events.last() matches EventModel::Size { age: a, .. } && a == age,
        workloads::settled_at(p, events) is None,
    ensures
        workloads::storm_timed_out(p, events) <==> age >= 20 * 1000,
{
}

/// Each pane that was closed only at the second attempt counts as one retry, and no other event does.
pub proof fn law_second_attempts_are_counted(events: Seq<EventModel>, from: int, upto: int)
    requires
        0 <= from <= upto < events.len(),
    ensures
        panes::retries(events, from, from) == 0,
        panes::retries(events, from, upto + 1) == panes::retries(events, from, upto) + (
        if events[upto] == (EventModel::Closed { retried: true }) {
            1nat
        } else {
            0nat
        }),
{
}

/// All eight core metrics are counted exactly where each of them has a median.
pub proof fn law_core_metrics_are_counted(c: ContenderResultModel, upto: int)
    requires
        0 <= upto <= report::core_names().len(),
    ensures
        report::core_present(c, upto) <= upto,
        report::core_present(c, upto) == upto <==> (forall|i: int|
            0 <= i < upto ==> report::middle(c, #[trigger] report::core_names()[i]) is Some),
        report::core_names().len() == 8,
    decreases upto,
{
    if upto > 0 {
        law_core_metrics_are_counted(c, upto - 1);
        if report::core_present(c, upto) == upto {
            assert forall|i: int| 0 <= i < upto implies report::middle(
                c,
                #[trigger] report::core_names()[i],
            ) is Some by {}
        }
        if forall|i: int|
            0 <= i < upto ==> report::middle(c, #[trigger] report::core_names()[i]) is Some {
            assert(report::middle(c, report::core_names()[upto - 1]) is Some);
        }
    }
}

// ---------------------------------------------------------------------------------------------
// The record of a run
// ---------------------------------------------------------------------------------------------

/// A run is recorded in the seventh schema, with what it was given, under a name of its start and
/// its seed.
pub proof fn law_runs_are_recorded_as_given(
    tool_version: Seq<char>,
    started: u128,
    host: HostInfoModel,
    profile: ProfileRecordModel,
    seed: u64,
    list: Seq<ContenderModel>,
    contenders: Seq<ContenderResultModel>,
)
    ensures
        ({
            let r = runner::reported(
                tool_version,
                started,
                host,
                profile,
                seed,
                list,
                contenders,
            );
            &&& r.schema_version == 7
            &&& r.tool_version == tool_version
            &&& r.started_unix_ms == started
            &&& r.host == host
            &&& r.profile == profile
            &&& r.contenders == contenders
            &&& r.run_id == "utc-"@ + decimal::decimal(started as nat) + "-"@ + text::pad_left(
                decimal::hexadecimal(seed as nat),
                16,
                '0',
            )
            &&& r.fairness.run_order.len() == list.len()
            &&& r.fairness.release_binaries_required
            &&& r.fairness.network_disabled_during_benchmarks
            &&& r.fairness.isolated_home_and_xdg
            &&& r.fairness.identical_terminal_geometry
            &&& r.fairness.child_workload == "POSIX /bin/sh, "@ + decimal::decimal(
                profile.terminal_cols as nat,
            ) + "x"@ + decimal::decimal(profile.terminal_rows as nat) + ", "@ + decimal::decimal(
                profile.output_lines as nat,
            ) + " deterministic 72-byte lines"@
        }),
{
}

/// The order of a run names the contender that its place in the order says.
pub proof fn law_orders_name_the_contenders(list: Seq<ContenderModel>, order: Seq<usize>, i: int)
    requires
        0 <= i < order.len(),
    ensures
        runner::ids_in(list, order).len() == order.len(),
        runner::ids_in(list, order)[i] == list[order[i] as int].id,
{
}

/// There is one warning for each contender whose binary does not lie in a release directory.
pub proof fn law_only_other_builds_are_warned_of(list: Seq<ContenderModel>, c: ContenderModel)
    ensures
        paths::components(c.binary).contains("release"@) ==> runner::warnings(list.push(c))
            == runner::warnings(list),
        !paths::components(c.binary).contains("release"@) ==> runner::warnings(list.push(c)).len()
            == runner::warnings(list).len() + 1 && text::starts_with(
            runner::warnings(list.push(c)).last(),
            c.id,
        ),
        runner::warnings(Seq::empty()).len() == 0,
{
    assert(list.push(c).drop_last() =~= list);
    let tail = " binary path does not contain a release component: "@;
    assert((c.id + tail + c.binary).take(c.id.len() as int) =~= c.id);
}

} // verus!
