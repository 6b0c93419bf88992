//! How the tool is used and how it drives the products: its command line, the text of a terminal,
//! launches, panes, clients and the files it writes.

use vstd::prelude::*;
use crate::adapters;
use crate::adapters::{Request, WaitModel};
use crate::cli;
use crate::cli::InvocationModel;
use crate::clients;
use crate::decimal;
use crate::lifecycle;
use crate::lifecycle::{LaunchEventModel, LaunchStep};
use crate::measure::Real;
use crate::model::ProfileRecordModel;
use crate::panes;
use crate::plan::{ActionModel, EventModel};
use crate::pty;
use crate::pty::ObservationModel;
use crate::screen;
use crate::storage;
use crate::storage::{StorageEventModel, WriteStep};
use crate::suites;
use crate::text;

verus! {

// ---------------------------------------------------------------------------------------------
// The command line
// ---------------------------------------------------------------------------------------------

/// The argument does not occur.
pub open spec fn ungiven(args: Seq<Seq<char>>, name: Seq<char>) -> bool {
    forall|k: int| 0 <= k < args.len() ==> #[trigger] args[k] != name
}

/// The argument occurs, with another one behind it, and not before.
pub open spec fn given(args: Seq<Seq<char>>, name: Seq<char>, i: int) -> bool {
    0 <= i < args.len() - 1 && args[i] == name && forall|k: int|
        0 <= k < i ==> #[trigger] args[k] != name
}

/// The value is what was given behind the option, or the usual one.
pub open spec fn chosen(
    args: Seq<Seq<char>>,
    name: Seq<char>,
    usual: Seq<char>,
    value: Seq<char>,
) -> bool {
    &&& ungiven(args, name) ==> value == usual
    &&& forall|i: int| #[trigger] given(args, name, i) ==> value == args[i + 1]
}

/// The value is what was given behind the option, if anything was.
pub open spec fn optional(args: Seq<Seq<char>>, name: Seq<char>, value: Option<Seq<char>>) -> bool {
    &&& ungiven(args, name) ==> value is None
    &&& forall|i: int| #[trigger] given(args, name, i) ==> value == Some(args[i + 1])
}

proof fn lemma_given(args: Seq<Seq<char>>, name: Seq<char>, usual: Seq<char>)
    ensures
        chosen(args, name, usual, cli::value_or(args, name, usual)),
        optional(args, name, cli::value_after(args, name)),
{
    lemma_position(args, name, 0);
    assert forall|i: int| #[trigger] given(args, name, i) implies cli::value_after(args, name)
        == Some(args[i + 1]) by {
        assert(args[i] == name);
        let at = cli::position(args, name, 0)->Some_0;
        if at < i {
            assert(args[at] != name);
        }
    }
}

proof fn lemma_position(args: Seq<Seq<char>>, name: Seq<char>, from: int)
    requires
        0 <= from,
    ensures
        match cli::position(args, name, from) {
            Some(i) => from <= i < args.len() && args[i] == name && forall|k: int|
                from <= k < i ==> #[trigger] args[k] != name,
            None => forall|k: int| from <= k < args.len() ==> #[trigger] args[k] != name,
        },
    decreases args.len() - from,
{
    if from < args.len() && args[from] != name {
        lemma_position(args, name, from + 1);
    }
}

/// A run takes each of its settings from its own option, and has a usual value for the
/// configuration, the profile and the output.
pub proof fn law_runs_take_their_options(args: Seq<Seq<char>>)
    requires
        cli::run_asked(args) is Ok,
    ensures
        cli::run_asked(args)->Ok_0 matches InvocationModel::Run {
            config,
            profile,
            output,
            markdown,
            seed,
        } && chosen(args, "--config"@, "comparison.toml"@, config) && chosen(
            args,
            "--profile"@,
            "standard"@,
            profile,
        ) && chosen(args, "--output"@, "reports/run.json"@, output) && optional(
            args,
            "--markdown"@,
            markdown,
        ) && optional(args, "--seed"@, seed),
{
    lemma_given(args, "--config"@, "comparison.toml"@);
    lemma_given(args, "--profile"@, "standard"@);
    lemma_given(args, "--output"@, "reports/run.json"@);
    lemma_given(args, "--markdown"@, ""@);
    lemma_given(args, "--seed"@, ""@);
}

/// A report has its title and its output from their options, and at least one input; what is
/// sanitized is exactly one report; and a check-up reads a configuration.
pub proof fn law_other_commands_take_their_options(args: Seq<Seq<char>>)
    ensures
        cli::report_asked(args) is Ok ==> (cli::report_asked(args)->Ok_0 matches
            InvocationModel::Report { title, output, inputs } && inputs.len() > 0 && chosen(
            args,
            "--title"@,
            "Uniterm vs Herdr performance and assurance report"@,
            title,
        ) && chosen(args, "--output"@, "reports/comparison.md"@, output)),
        cli::sanitize_asked(args) is Ok ==> (cli::sanitize_asked(args)->Ok_0 matches
            InvocationModel::Sanitize { input, output, markdown } && cli::positionals(
            args,
            cli::sanitize_options(),
            0,
        ) == seq![input] && chosen(args, "--output"@, "reports/sanitized.json"@, output)
            && optional(args, "--markdown"@, markdown)),
        cli::doctor_asked(args) is Ok ==> (cli::doctor_asked(args)->Ok_0 matches
            InvocationModel::Doctor { config } && chosen(
            args,
            "--config"@,
            "comparison.toml"@,
            config,
        )),
{
    lemma_given(args, "--config"@, "comparison.toml"@);
    lemma_given(args, "--title"@, "Uniterm vs Herdr performance and assurance report"@);
    lemma_given(args, "--output"@, "reports/comparison.md"@);
    lemma_given(args, "--output"@, "reports/sanitized.json"@);
    lemma_given(args, "--markdown"@, ""@);
    let inputs = cli::positionals(args, cli::sanitize_options(), 0);
    if inputs.len() == 1 {
        assert(inputs =~= seq![inputs[0]]);
    }
}

// ---------------------------------------------------------------------------------------------
// The text of a terminal
// ---------------------------------------------------------------------------------------------

/// Printable bytes, and line feeds, carriage returns and tabs.
pub open spec fn readable(input: Seq<u8>) -> bool {
    forall|i: int|
        0 <= i < input.len() ==> (#[trigger] input[i] >= 0x20 || input[i] == 0x0a || input[i] == 0x0d
            || input[i] == 0x09)
}

/// Readable text stays in front of what is left of the rest.
pub proof fn law_readable_text_is_kept(front: Seq<u8>, rest: Seq<u8>)
    requires
        readable(front),
    ensures
        pty::stripped(front + rest) == front + pty::stripped(rest),
    decreases front.len(),
{
    if front.len() == 0 {
        assert(front + rest =~= rest);
        assert(front + pty::stripped(rest) =~= pty::stripped(rest));
    } else {
        let tail = front.skip(1);
        assert forall|i: int| 0 <= i < tail.len() implies (#[trigger] tail[i] >= 0x20 || tail[i]
            == 0x0a || tail[i] == 0x0d || tail[i] == 0x09) by {
            assert(tail[i] == front[i + 1]);
        }
        law_readable_text_is_kept(tail, rest);
        let all = front + rest;
        assert(all[0] == front[0]);
        assert(front[0] >= 0x20 || front[0] == 0x0a || front[0] == 0x0d || front[0] == 0x09);
        lemma_shifted(seq![front[0]], tail + rest, 0);
        assert(all =~= seq![front[0]] + (tail + rest));
        assert(seq![front[0]] + (tail + pty::stripped(rest)) =~= front + pty::stripped(rest));
    }
}

/// A control sequence vanishes up to its final byte, and nothing behind it does.
pub proof fn law_control_sequences_vanish(body: Seq<u8>, end: u8, rest: Seq<u8>)
    requires
        forall|i: int| 0 <= i < body.len() ==> !(0x40 <= #[trigger] body[i] <= 0x7e),
        0x40 <= end <= 0x7e,
    ensures
        pty::stripped(seq![0x1bu8, 0x5bu8] + body + seq![end] + rest) == pty::stripped(rest),
{
    let front = seq![0x1bu8, 0x5bu8] + body + seq![end];
    let all = front + rest;
    assert forall|i: int| 2 <= i < 2 + body.len() implies !(0x40 <= #[trigger] all[i] <= 0x7e) by {
        assert(all[i] == body[i - 2]);
    }
    assert(all[2 + body.len() as int] == end);
    lemma_csi_ends(all, 2, 2 + body.len() as int);
    lemma_shifted(front, rest, 0);
}

/// A control string vanishes up to its bell.
pub proof fn law_control_strings_vanish(kind: u8, body: Seq<u8>, rest: Seq<u8>)
    requires
        kind == 0x5d || kind == 0x50 || kind == 0x5f || kind == 0x5e,
        forall|i: int| 0 <= i < body.len() ==> #[trigger] body[i] != 0x07 && body[i] != 0x1b,
    ensures
        pty::stripped(seq![0x1bu8, kind] + body + seq![0x07u8] + rest) == pty::stripped(rest),
        pty::stripped(seq![0x1bu8, kind] + body + seq![0x1bu8, 0x5cu8] + rest) == pty::stripped(
            rest,
        ),
{
    let front = seq![0x1bu8, kind] + body + seq![0x07u8];
    let all = front + rest;
    assert forall|i: int| 2 <= i < 2 + body.len() implies #[trigger] all[i] != 0x07 && all[i]
        != 0x1b by {
        assert(all[i] == body[i - 2]);
    }
    assert(all[2 + body.len() as int] == 0x07);
    lemma_string_ends(all, 2, 2 + body.len() as int);
    lemma_shifted(front, rest, 0);
    let other = seq![0x1bu8, kind] + body + seq![0x1bu8, 0x5cu8];
    let whole = other + rest;
    assert forall|i: int| 2 <= i < 2 + body.len() implies #[trigger] whole[i] != 0x07 && whole[i]
        != 0x1b by {
        assert(whole[i] == body[i - 2]);
    }
    assert(whole[2 + body.len() as int] == 0x1b && whole[3 + body.len() as int] == 0x5c);
    lemma_string_ends(whole, 2, 2 + body.len() as int);
    lemma_shifted(other, rest, 0);
}

proof fn lemma_csi_ends(input: Seq<u8>, i: int, at: int)
    requires
        0 <= i <= at < input.len(),
        forall|k: int| i <= k < at ==> !(0x40 <= #[trigger] input[k] <= 0x7e),
        0x40 <= input[at] <= 0x7e,
    ensures
        pty::after_csi(input, i) == at + 1,
    decreases at - i,
{
    if i < at {
        assert(!(0x40 <= input[i] <= 0x7e));
        lemma_csi_ends(input, i + 1, at);
    }
}

proof fn lemma_string_ends(input: Seq<u8>, i: int, at: int)
    requires
        0 <= i <= at < input.len(),
        forall|k: int| i <= k < at ==> #[trigger] input[k] != 0x07 && input[k] != 0x1b,
        input[at] == 0x07 || (input[at] == 0x1b && at + 1 < input.len() && input[at + 1] == 0x5c),
    ensures
        pty::after_string(input, i) == (if input[at] == 0x07 {
            at + 1
        } else {
            at + 2
        }),
    decreases at - i,
{
    if i < at {
        assert(input[i] != 0x07 && input[i] != 0x1b);
        lemma_string_ends(input, i + 1, at);
    }
}

/// What is left from a position on does not depend on what stands before it.
proof fn lemma_shifted(front: Seq<u8>, rest: Seq<u8>, i: int)
    requires
        0 <= i <= rest.len(),
    ensures
        pty::stripped_from(front + rest, front.len() + i) == pty::stripped_from(rest, i),
    decreases rest.len() - i,
{
    if i < rest.len() {
        let all = front + rest;
        let n = front.len() as int;
        assert(all[n + i] == rest[i]);
        pty::lemma_next_at(rest, i);
        pty::lemma_next_at(all, n + i);
        if rest[i] == 0x1b && i + 1 < rest.len() {
            assert(all[n + i + 1] == rest[i + 1]);
            lemma_csi_shifted(front, rest, i + 2);
            lemma_string_shifted(front, rest, i + 2);
        }
        assert(pty::next_at(all, n + i) == n + pty::next_at(rest, i));
        lemma_shifted(front, rest, pty::next_at(rest, i));
    }
}

proof fn lemma_csi_shifted(front: Seq<u8>, rest: Seq<u8>, i: int)
    requires
        0 <= i <= rest.len(),
    ensures
        pty::after_csi(front + rest, front.len() + i) == front.len() + pty::after_csi(rest, i),
    decreases rest.len() - i,
{
    if i < rest.len() {
        assert((front + rest)[front.len() + i] == rest[i]);
        lemma_csi_shifted(front, rest, i + 1);
    }
}

proof fn lemma_string_shifted(front: Seq<u8>, rest: Seq<u8>, i: int)
    requires
        0 <= i <= rest.len(),
    ensures
        pty::after_string(front + rest, front.len() + i) == front.len() + pty::after_string(
            rest,
            i,
        ),
    decreases rest.len() - i,
{
    if i < rest.len() {
        assert((front + rest)[front.len() + i] == rest[i]);
        if i + 1 < rest.len() {
            assert((front + rest)[front.len() + i + 1] == rest[i + 1]);
        }
        lemma_string_shifted(front, rest, i + 1);
    }
}

/// Of a text that has grown beyond sixteen mebibytes the last eight are kept; a shorter one is kept
/// as a whole.
pub proof fn law_long_texts_keep_their_end(value: Seq<u8>)
    ensures
        value.len() <= 16 * 1024 * 1024 ==> pty::limited(value) == value,
        value.len() > 16 * 1024 * 1024 ==> pty::limited(value).len() == 8 * 1024 * 1024 && value
            == value.take(value.len() - 8 * 1024 * 1024) + pty::limited(value),
{
    if value.len() > 16 * 1024 * 1024 {
        assert(value =~= value.take(value.len() - 8 * 1024 * 1024) + pty::limited(value));
    }
}

/// A wait ends well as soon as the marker is there, whatever the time and the child; otherwise it
/// fails where the child has ended or the seconds are over, and goes on where neither holds.
pub proof fn law_waits_end_with_the_marker(
    o: ObservationModel,
    marker: Seq<char>,
    exited: Option<Seq<char>>,
    elapsed: u64,
    seconds: u64,
)
    ensures
        ({
            let wait = pty::text_wait(o, marker, exited, elapsed, seconds);
            let there = pty::holds(o.stripped, vstd::utf8::encode_utf8(marker));
            &&& wait == WaitModel::Done <==> there
            &&& wait is Failed <==> !there && (exited is Some || elapsed >= 1000 * seconds)
        }),
        ({
            let wait = pty::screen_wait(o, marker, exited, elapsed, seconds);
            let there = screen::found(o.screen.grid().cells, marker).len() > 0;
            &&& wait == WaitModel::Done <==> there
            &&& wait is Failed <==> !there && (exited is Some || elapsed >= 1000 * seconds)
        }),
{
}

// ---------------------------------------------------------------------------------------------
// Launches
// ---------------------------------------------------------------------------------------------

/// Uniterm is started by a command, must say that it has started, and its server is looked for only
/// after it was ready: the time is that of its readiness.
pub proof fn law_uniterm_is_timed_until_it_is_ready(
    snapshot: LaunchEventModel,
    output: Seq<char>,
    ready: Real,
    pid: u32,
)
    requires
        !(snapshot is Failed),
        text::contains(output, "started"@),
    ensures
        ({
            let events = seq![
                snapshot,
                LaunchEventModel::Output { output },
                LaunchEventModel::Ready { millis: ready },
                LaunchEventModel::Process { pid },
            ];
            &&& lifecycle::launch_plan("uniterm"@, events.take(0)) == Some(LaunchStep::Snapshot)
            &&& lifecycle::launch_plan("uniterm"@, events.take(1)) == Some(LaunchStep::Command)
            &&& lifecycle::launch_plan("uniterm"@, events.take(2)) == Some(LaunchStep::WaitReady)
            &&& lifecycle::launch_plan("uniterm"@, events.take(3)) == Some(LaunchStep::Discover)
            &&& lifecycle::launch_plan("uniterm"@, events) is None
            &&& lifecycle::launch_outcome("uniterm"@, events) == Ok::<
                (u32, Real),
                Seq<char>,
            >((pid, ready))
        }),
{
    reveal_strlit("uniterm");
    reveal_strlit("herdr");
    reveal_strlit("tmux");
    assert("uniterm"@.len() == 7 && "herdr"@.len() == 5 && "tmux"@.len() == 4);
    let events = seq![
        snapshot,
        LaunchEventModel::Output { output },
        LaunchEventModel::Ready { millis: ready },
        LaunchEventModel::Process { pid },
    ];
    reveal_with_fuel(lifecycle::fault, 6);
    assert(events.drop_last() =~= events.take(3));
    assert(events.take(3).drop_last() =~= events.take(2));
    assert(events.take(2).drop_last() =~= events.take(1));
    assert(events.take(1).drop_last() =~= events.take(0));
}

/// Herdr is spawned and is its own server.
pub proof fn law_herdr_is_its_own_server(
    snapshot: LaunchEventModel,
    ready: Real,
    pid: u32,
)
    requires
        !(snapshot is Failed),
    ensures
        ({
            let events = seq![
                snapshot,
                LaunchEventModel::Process { pid },
                LaunchEventModel::Ready { millis: ready },
            ];
            &&& lifecycle::launch_plan("herdr"@, events.take(1)) == Some(LaunchStep::Spawn)
            &&& lifecycle::launch_plan("herdr"@, events.take(2)) == Some(LaunchStep::WaitReady)
            &&& lifecycle::launch_plan("herdr"@, events) is None
            &&& lifecycle::launch_outcome("herdr"@, events) == Ok::<
                (u32, Real),
                Seq<char>,
            >((pid, ready))
        }),
{
    reveal_strlit("uniterm");
    reveal_strlit("herdr");
    reveal_strlit("tmux");
    assert("uniterm"@.len() == 7 && "herdr"@.len() == 5 && "tmux"@.len() == 4);
    let events = seq![
        snapshot,
        LaunchEventModel::Process { pid },
        LaunchEventModel::Ready { millis: ready },
    ];
    reveal_with_fuel(lifecycle::fault, 6);
    assert(events.drop_last() =~= events.take(2));
    assert(events.take(2).drop_last() =~= events.take(1));
    assert(events.take(1).drop_last() =~= events.take(0));
}

/// A server's process is never the first one or none, and is the number that was printed.
pub proof fn law_server_processes_are_read(n: nat)
    ensures
        1 < n <= u32::MAX ==> adapters::server_pid(decimal::decimal(n)) == Some(n as u32),
        n <= 1 || n > u32::MAX ==> adapters::server_pid(decimal::decimal(n)) is None,
{
    decimal::lemma_decimal(n);
    let s = decimal::decimal(n);
    assert(text::digit(s[0]) && text::digit(s.last()));
    text::lemma_run_len_is(s, text::is_a_white(), 0);
    assert(s.skip(0) =~= s);
    assert(text::trim(s) == s);
}

/// The products are asked in their own words, with the session and the size that were wanted.
pub proof fn law_products_are_asked_in_their_words(session: Seq<char>, cols: u16, rows: u16)
    ensures
        adapters::request_args("uniterm"@, Request::Start, session, cols, rows) == seq![
            "workspace"@,
            "new"@,
            "-d"@,
            session,
        ],
        adapters::request_args("uniterm"@, Request::Panes, session, cols, rows) == seq![
            "pane"@,
            "list"@,
            "-w"@,
            session,
        ],
        adapters::request_args("uniterm"@, Request::Attach, session, cols, rows) == seq![
            "workspace"@,
            "switch"@,
            session,
        ],
        adapters::request_args("uniterm"@, Request::Stop, session, cols, rows) == seq![
            "workspace"@,
            "stop"@,
            session,
        ],
        adapters::request_args("herdr"@, Request::Start, session, cols, rows) == seq!["server"@],
        adapters::request_args("herdr"@, Request::Panes, session, cols, rows) == seq![
            "pane"@,
            "list"@,
        ],
        adapters::request_args("herdr"@, Request::Attach, session, cols, rows) == seq![
            "--session"@,
            session,
        ],
        adapters::request_args("herdr"@, Request::Stop, session, cols, rows) == seq![
            "server"@,
            "stop"@,
        ],
        adapters::request_args("tmux"@, Request::Start, session, cols, rows) == seq![
            "new-session"@,
            "-d"@,
            "-s"@,
            session,
            "-x"@,
            decimal::decimal(cols as nat),
            "-y"@,
            decimal::decimal(rows as nat),
            "-P"@,
            "-F"@,
            "#{pid}"@,
        ],
        adapters::request_args("tmux"@, Request::Panes, session, cols, rows) == seq![
            "list-panes"@,
            "-t"@,
            session,
        ],
        adapters::request_args("tmux"@, Request::Attach, session, cols, rows) == seq![
            "attach-session"@,
            "-t"@,
            session,
        ],
        adapters::request_args("tmux"@, Request::Stop, session, cols, rows) == seq!["kill-server"@],
{
    reveal_strlit("uniterm");
    reveal_strlit("herdr");
    reveal_strlit("tmux");
    assert("uniterm"@.len() == 7 && "herdr"@.len() == 5 && "tmux"@.len() == 4);
}

// ---------------------------------------------------------------------------------------------
// Panes and clients
// ---------------------------------------------------------------------------------------------

/// The step failed.
pub open spec fn fell(events: Seq<EventModel>, i: int) -> bool {
    0 <= i < events.len() && events[i] is Failed
}

/// A pane is closed by typing `exit`, and once more only where its shell stayed; after the second
/// time nothing is tried any more.
pub proof fn law_panes_are_closed_by_exit(processes: usize, events: Seq<EventModel>)
    requires
        !fell(events, 1),
        !fell(events, 4),
    ensures
        events.len() == 1 || (events.len() == 4 && fell(events, 2)) ==> panes::close_plan(
            processes,
            events,
        ) == Some(ActionModel::Type { line: "exit"@ }),
        events.len() == 2 || (events.len() == 5 && fell(events, 2)) ==> panes::close_plan(
            processes,
            events,
        ) == Some(ActionModel::WaitAtMost { processes, seconds: 5 }),
        events.len() > 6 ==> panes::close_plan(processes, events) is None,
        events.len() > 2 && !fell(events, 2) ==> panes::close_outcome(processes, events) == Ok::<
            bool,
            Seq<char>,
        >(false),
        events.len() > 5 && fell(events, 2) && !fell(events, 5) ==> panes::close_outcome(
            processes,
            events,
        ) == Ok::<bool, Seq<char>>(true),
        events.len() > 5 && fell(events, 2) && fell(events, 5) ==> panes::close_outcome(
            processes,
            events,
        ) is Err,
{
}

/// The windows of extra clients are twenty columns and six rows smaller from one to the next, down
/// to sixty columns and sixteen rows.
pub proof fn law_extra_clients_are_smaller(p: ProfileRecordModel, index: int)
    requires
        0 <= index,
    ensures
        ({
            let (cols, rows) = clients::extra_size(p, index);
            let wide = p.terminal_cols - 20 * (index + 1);
            let high = p.terminal_rows - 6 * (index + 1);
            &&& cols == (if wide > 60 { wide } else { 60 })
            &&& rows == (if high > 16 { high } else { 16 })
        }),
{
}

/// Each extra client is detached, drained and ended, in this order, and none is left out.
pub proof fn law_extra_clients_are_all_detached(count: usize, events: Seq<EventModel>, index: nat)
    requires
        index < count,
    ensures
        events.len() == 3 * index ==> clients::detach_plan(count, events) == Some(
            ActionModel::DetachExtra { index: index as usize },
        ),
        events.len() == 3 * index + 1 ==> clients::detach_plan(count, events) == Some(
            ActionModel::DrainExtra { index: index as usize, millis: 200 },
        ),
        events.len() == 3 * index + 2 ==> clients::detach_plan(count, events) == Some(
            ActionModel::TerminateExtra { index: index as usize },
        ),
        events.len() == 3 * count ==> clients::detach_plan(count, events) is None,
{
}

/// A session is primed by one client that attaches, draws, waits for the server and one shell,
/// detaches and ends; the first failure ends it.
pub proof fn law_sessions_are_primed_by_one_client(events: Seq<EventModel>)
    requires
        !fell(events, events.len() - 1),
    ensures
        events.len() == 0 ==> suites::prime_plan(events) == Some(ActionModel::Attach),
        events.len() == 1 ==> suites::prime_plan(events) == Some(ActionModel::Drain { millis: 500 }),
        events.len() == 2 ==> suites::prime_plan(events) == Some(
            ActionModel::WaitFor { processes: 2, seconds: 5 },
        ),
        events.len() == 3 ==> suites::prime_plan(events) == Some(ActionModel::Detach),
        events.len() == 4 ==> suites::prime_plan(events) == Some(ActionModel::Drain { millis: 300 }),
        events.len() == 5 ==> suites::prime_plan(events) == Some(ActionModel::Terminate),
        events.len() >= 6 ==> suites::prime_plan(events) is None,
        suites::prime_outcome(events) is None,
{
}

// ---------------------------------------------------------------------------------------------
// Files
// ---------------------------------------------------------------------------------------------

/// Names that are taken are passed over, up to a hundred and twenty-eight of them; then the file is
/// written, stored and put in its place, and only then is it written at all.
pub proof fn law_files_are_written_in_four_steps(
    parent: Seq<char>,
    events: Seq<StorageEventModel>,
    taken: int,
)
    requires
        0 <= taken < 128,
        events.len() <= taken + 5,
        forall|i: int|
            0 <= i < events.len() ==> #[trigger] events[i] == (if 1 <= i <= taken {
                StorageEventModel::Exists
            } else {
                StorageEventModel::Done
            }),
    ensures
        events.len() == 0 ==> storage::write_plan(events) == Some(WriteStep::Directory),
        1 <= events.len() <= taken + 1 ==> storage::write_plan(events) == Some(WriteStep::Create),
        events.len() == taken + 2 ==> storage::write_plan(events) == Some(WriteStep::Write),
        events.len() == taken + 3 ==> storage::write_plan(events) == Some(WriteStep::Sync),
        events.len() == taken + 4 ==> storage::write_plan(events) == Some(WriteStep::Rename),
        events.len() == taken + 5 ==> storage::write_plan(events) is None,
        events.len() == taken + 5 ==> storage::write_outcome(parent, events) is None,
{
    lemma_taken(events, 1, 128, taken);
}

proof fn lemma_taken(events: Seq<StorageEventModel>, from: int, left: nat, taken: int)
    requires
        1 <= from <= taken + 1,
        left + from == 129,
        taken < 128,
        forall|i: int|
            0 <= i < events.len() ==> #[trigger] events[i] == (if 1 <= i <= taken {
                StorageEventModel::Exists
            } else {
                StorageEventModel::Done
            }),
    ensures
        storage::free_at(events, from, left) == (if events.len() <= taken + 1 {
            if from > events.len() {
                from
            } else {
                events.len() as int
            }
        } else {
            taken + 1
        }),
    decreases left,
{
    if from < events.len() && from <= taken {
        assert(events[from] == StorageEventModel::Exists);
        lemma_taken(events, from + 1, (left - 1) as nat, taken);
    } else if from < events.len() {
        assert(events[from] == StorageEventModel::Done);
    }
}

/// After a hundred and twenty-eight names that were taken no other is tried, and nothing is written.
pub proof fn law_writing_gives_up_after_all_names(parent: Seq<char>, events: Seq<StorageEventModel>)
    requires
        events.len() == 129,
        events[0] == StorageEventModel::Done,
        forall|i: int| 1 <= i < events.len() ==> #[trigger] events[i] == StorageEventModel::Exists,
    ensures
        storage::write_plan(events) is None,
        storage::write_outcome(parent, events) is Some,
{
    lemma_all_taken(events, 1, 128);
}

proof fn lemma_all_taken(events: Seq<StorageEventModel>, from: int, left: nat)
    requires
        1 <= from,
        left + from == 129,
        events.len() == 129,
        forall|i: int| 1 <= i < events.len() ==> #[trigger] events[i] == StorageEventModel::Exists,
    ensures
        storage::free_at(events, from, left) == 129,
    decreases left,
{
    if left > 0 {
        assert(events[from] == StorageEventModel::Exists);
        lemma_all_taken(events, from + 1, (left - 1) as nat);
    }
}

} // verus!
