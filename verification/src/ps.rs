//! What `ps` and `/proc` print of processes, and the table it makes.

use std::collections::BTreeMap;
use vstd::prelude::*;
use crate::decimal;
use crate::measure::Real;
use crate::process::{ProcessInfo, ProcessSnapshot};
use crate::text;

verus! {

broadcast use vstd::std_specs::btree::group_btree_axioms;

/// The parts of a printed processor time, each still as it was written.
#[derive(Debug)]
pub struct Clock {
    pub days: Option<String>,
    pub hours: Option<String>,
    pub minutes: String,
    pub seconds: String,
}

#[verifier::ext_equal]
pub ghost struct ClockModel {
    pub days: Option<Seq<char>>,
    pub hours: Option<Seq<char>>,
    pub minutes: Seq<char>,
    pub seconds: Seq<char>,
}

impl View for Clock {
    type V = ClockModel;

    open spec fn view(&self) -> ClockModel {
        ClockModel {
            days: text::opt_text(self.days),
            hours: text::opt_text(self.hours),
            minutes: self.minutes@,
            seconds: self.seconds@,
        }
    }
}

/// A processor time: `[days-][hours:]minutes:seconds`.
pub open spec fn clock(value: Seq<char>) -> Option<ClockModel> {
    let (days, rest) = match text::halves(value, '-') {
        Some(parts) => (Some(parts.0), parts.1),
        None => (None, value),
    };
    let f = text::fields(rest, ':');
    if f.len() == 2 {
        Some(ClockModel { days, hours: None, minutes: f[0], seconds: f[1] })
    } else if f.len() == 3 {
        Some(ClockModel { days, hours: Some(f[0]), minutes: f[1], seconds: f[2] })
    } else {
        None
    }
}

/// The parts of a processor time as `ps` prints it.
pub fn parse_ps_time(value: &str) -> (r: Option<Clock>)
    ensures
        match r {
            Some(c) => clock(value@) == Some(c@),
            None => clock(value@) is None,
        },
{
    let (days, rest): (Option<String>, String) = match text::halves_of(value, '-') {
        Some(parts) => (Some(parts.0), parts.1),
        None => (None, value.to_owned()),
    };
    let f: Vec<String> = text::fields_of(rest.as_str(), ':');
    assert(text::texts(f@).len() == f@.len());
    if f.len() == 2 {
        assert(text::texts(f@)[0] == f@[0]@);
        assert(text::texts(f@)[1] == f@[1]@);
        Some(Clock { days, hours: None, minutes: f[0].clone(), seconds: f[1].clone() })
    } else if f.len() == 3 {
        assert(text::texts(f@)[0] == f@[0]@);
        assert(text::texts(f@)[1] == f@[1]@);
        assert(text::texts(f@)[2] == f@[2]@);
        Some(
            Clock {
                days,
                hours: Some(f[0].clone()),
                minutes: f[1].clone(),
                seconds: f[2].clone(),
            },
        )
    } else {
        None
    }
}

/// One row of `ps`, with its processor time still in parts.
#[derive(Debug)]
pub struct Row {
    pub pid: u32,
    pub ppid: u32,
    pub rss_kib: u64,
    pub time: Clock,
    pub comm: String,
    pub args: String,
}

#[verifier::ext_equal]
pub ghost struct RowModel {
    pub pid: u32,
    pub ppid: u32,
    pub rss_kib: u64,
    pub time: ClockModel,
    pub comm: Seq<char>,
    pub args: Seq<char>,
}

impl View for Row {
    type V = RowModel;

    open spec fn view(&self) -> RowModel {
        RowModel {
            pid: self.pid,
            ppid: self.ppid,
            rss_kib: self.rss_kib,
            time: self.time@,
            comm: self.comm@,
            args: self.args@,
        }
    }
}

pub open spec fn row_views(rows: Seq<Row>) -> Seq<RowModel> {
    rows.map_values(|r: Row| r@)
}

/// A row: process, parent, resident size, processor time, command, and any arguments.
pub open spec fn row(line: Seq<char>) -> Option<RowModel> {
    let w = text::words(line);
    if w.len() < 5 {
        None
    } else {
        match (
            decimal::numeral_within(w[0], u32::MAX as nat),
            decimal::numeral_within(w[1], u32::MAX as nat),
            decimal::numeral_within(w[2], u64::MAX as nat),
            clock(w[3]),
        ) {
            (Some(pid), Some(ppid), Some(rss), Some(time)) => Some(
                RowModel {
                    pid: pid as u32,
                    ppid: ppid as u32,
                    rss_kib: rss as u64,
                    time,
                    comm: w[4],
                    args: text::join(w.skip(5), " "@),
                },
            ),
            _ => None,
        }
    }
}

/// The rows among the lines; what is no row is passed over.
pub open spec fn rows(lines: Seq<Seq<char>>) -> Seq<RowModel>
    decreases lines.len(),
{
    if lines.len() == 0 {
        Seq::empty()
    } else {
        let front = rows(lines.drop_last());
        match row(lines.last()) {
            Some(r) => front.push(r),
            None => front,
        }
    }
}

fn parse_row(line: &str) -> (r: Option<Row>)
    ensures
        match r {
            Some(found) => row(line@) == Some(found@),
            None => row(line@) is None,
        },
{
    let w: Vec<String> = text::words_of(line);
    let ghost view = text::words(line@);
    assert(view == text::texts(w@));
    if w.len() < 5 {
        return None;
    }
    proof {
        assert(view[0] == w@[0]@);
        assert(view[1] == w@[1]@);
        assert(view[2] == w@[2]@);
        assert(view[3] == w@[3]@);
        assert(view[4] == w@[4]@);
    }
    let (pid, ppid, rss_kib): (u32, u32, u64) = match (
        decimal::parse_u32(w[0].as_str()),
        decimal::parse_u32(w[1].as_str()),
        decimal::parse_u64(w[2].as_str()),
    ) {
        (Some(pid), Some(ppid), Some(rss)) => (pid, ppid, rss),
        _ => {
            return None;
        },
    };
    let time: Clock = match parse_ps_time(w[3].as_str()) {
        Some(time) => time,
        None => {
            return None;
        },
    };
    let mut rest: Vec<String> = Vec::new();
    let mut i: usize = 5;
    assert(text::texts(rest@) =~= view.subrange(5, 5));
    while i < w.len()
        invariant
            5 <= i <= w@.len(),
            view == text::texts(w@),
            text::texts(rest@) =~= view.subrange(5, i as int),
        decreases w@.len() - i,
    {
        assert(view[i as int] == w@[i as int]@);
        text::push_text(&mut rest, w[i].clone());
        i = i + 1;
    }
    assert(view.subrange(5, i as int) =~= view.skip(5));
    Some(
        Row {
            pid,
            ppid,
            rss_kib,
            time,
            comm: w[4].clone(),
            args: text::joined(&rest, " "),
        },
    )
}

/// The rows in what `ps` printed.
pub fn parse_rows(output: &str) -> (r: Vec<Row>)
    ensures
        row_views(r@) == rows(text::lines(output@)),
{
    let lines: Vec<String> = text::lines_of(output);
    let ghost view = text::lines(output@);
    assert(view == text::texts(lines@));
    let mut out: Vec<Row> = Vec::new();
    let mut i: usize = 0;
    assert(row_views(out@) =~= rows(view.take(0)));
    while i < lines.len()
        invariant
            i <= lines@.len(),
            view == text::texts(lines@),
            row_views(out@) =~= rows(view.take(i as int)),
        decreases lines@.len() - i,
    {
        proof {
            assert(view.take(i + 1).drop_last() =~= view.take(i as int));
            assert(view.take(i + 1).last() == lines@[i as int]@);
        }
        if let Some(found) = parse_row(lines[i].as_str()) {
            let ghost before = row_views(out@);
            out.push(found);
            assert(row_views(out@) =~= before.push(found@));
        }
        i = i + 1;
    }
    assert(view.take(i as int) =~= view);
    out
}

/// The rows that `ps` printed, or why it failed.
pub fn listed(success: bool, stdout: &[u8], stderr: &[u8]) -> (r: Result<Vec<Row>, String>)
    ensures
        match r {
            Ok(list) => success && row_views(list@) == rows(text::lines(text::lossy(stdout@))),
            Err(error) => !success && error@ == "ps failed: "@ + text::trim(text::lossy(stderr@)),
        },
{
    if success {
        return Ok(parse_rows(text::lossy_text(stdout).as_str()));
    }
    Err(
        text::cat(
            "ps failed: ".to_owned(),
            text::trimmed(text::lossy_text(stderr).as_str()).as_str(),
        ),
    )
}

/// The last row of a process whose processor time could be read.
pub open spec fn entry(list: Seq<RowModel>, seconds: Seq<Option<Real>>, pid: u32) -> Option<nat>
    decreases list.len(),
{
    if list.len() == 0 {
        None
    } else if list.last().pid == pid && seconds[list.len() - 1] is Some {
        Some((list.len() - 1) as nat)
    } else {
        entry(list.drop_last(), seconds, pid)
    }
}

/// Whether the process is the one that the row describes, with that processor time.
pub open spec fn shows(p: ProcessInfo, r: RowModel, seconds: Option<Real>) -> bool {
    &&& p.pid == r.pid
    &&& p.ppid == r.ppid
    &&& p.rss_kib == r.rss_kib
    &&& Some(p.cpu_seconds) == seconds
    &&& p.comm@ == r.comm
    &&& p.args@ == r.args
}

/// Whether the table holds, for each process, its last row with a processor time.
pub open spec fn tabled(
    m: Map<u32, ProcessInfo>,
    list: Seq<RowModel>,
    seconds: Seq<Option<Real>>,
) -> bool {
    forall|pid: u32|
        match entry(list, seconds, pid) {
            Some(i) => (#[trigger] m.contains_key(pid)) && shows(
                m[pid],
                list[i as int],
                seconds[i as int],
            ),
            None => !m.contains_key(pid),
        }
}

/// The table of processes. A row whose processor time could not be read is left out, and a later
/// row replaces an earlier one of the same process.
pub fn table(list: &Vec<Row>, seconds: &Vec<Option<Real>>) -> (r: ProcessSnapshot)
    requires
        list@.len() == seconds@.len(),
    ensures
        tabled(r.processes@, row_views(list@), seconds@),
{
    let ghost view = row_views(list@);
    let mut processes: BTreeMap<u32, ProcessInfo> = BTreeMap::new();
    let mut i: usize = 0;
    while i < list.len()
        invariant
            i <= list@.len(),
            list@.len() == seconds@.len(),
            view == row_views(list@),
            tabled(processes@, view.take(i as int), seconds@),
        decreases list@.len() - i,
    {
        let ghost earlier = view.take(i as int);
        let ghost now = view.take(i + 1);
        let ghost before = processes@;
        assert(now.drop_last() =~= earlier);
        assert(now.last() == list@[i as int]@);
        if let Some(cpu) = seconds[i] {
            let found: &Row = &list[i];
            let info: ProcessInfo = ProcessInfo {
                pid: found.pid,
                ppid: found.ppid,
                rss_kib: found.rss_kib,
                cpu_seconds: cpu,
                comm: found.comm.clone(),
                args: found.args.clone(),
            };
            processes.insert(found.pid, info);
            assert(processes@ == before.insert(found.pid, info));
        }
        proof {
            assert forall|pid: u32|
                match entry(now, seconds@, pid) {
                    Some(j) => (#[trigger] processes@.contains_key(pid)) && shows(
                        processes@[pid],
                        now[j as int],
                        seconds@[j as int],
                    ),
                    None => !processes@.contains_key(pid),
                } by {
                lemma_entry(earlier, seconds@, pid);
                assert(match entry(earlier, seconds@, pid) {
                    Some(j) => before.contains_key(pid) && shows(
                        before[pid],
                        earlier[j as int],
                        seconds@[j as int],
                    ),
                    None => !before.contains_key(pid),
                });
            }
        }
        i = i + 1;
    }
    assert(view.take(i as int) =~= view);
    ProcessSnapshot { processes }
}

proof fn lemma_entry(list: Seq<RowModel>, seconds: Seq<Option<Real>>, pid: u32)
    ensures
        match entry(list, seconds, pid) {
            Some(i) => i < list.len() && list[i as int].pid == pid && seconds[i as int] is Some,
            None => true,
        },
    decreases list.len(),
{
    if list.len() > 0 {
        lemma_entry(list.drop_last(), seconds, pid);
    }
}

/// What follows the last closing parenthesis, where there is one.
pub open spec fn after_command(stat: Seq<char>) -> Option<Seq<char>> {
    let parts = text::fields(stat, ')');
    if parts.len() > 1 {
        Some(parts.last())
    } else {
        None
    }
}

/// The user and system times in a `/proc/<pid>/stat` line, as they are written. The command name
/// can hold spaces and parentheses, so fields are counted from behind the last parenthesis.
pub open spec fn ticks(stat: Seq<char>) -> Option<(Seq<char>, Seq<char>)> {
    match after_command(stat) {
        Some(rest) => {
            let w = text::words(rest);
            if w.len() >= 13 {
                Some((w[11], w[12]))
            } else {
                None
            }
        },
        None => None,
    }
}

pub fn parse_proc_stat(stat: &str) -> (r: Option<(String, String)>)
    ensures
        match r {
            Some(found) => ticks(stat@) == Some((found.0@, found.1@)),
            None => ticks(stat@) is None,
        },
{
    let parts: Vec<String> = text::fields_of(stat, ')');
    assert(text::texts(parts@).len() == parts@.len());
    if parts.len() < 2 {
        return None;
    }
    let rest: &String = &parts[parts.len() - 1];
    assert(text::texts(parts@).last() == rest@);
    let w: Vec<String> = text::words_of(rest.as_str());
    let ghost view = text::words(rest@);
    assert(view == text::texts(w@));
    if w.len() < 13 {
        return None;
    }
    assert(view[11] == w@[11]@);
    assert(view[12] == w@[12]@);
    Some((w[11].clone(), w[12].clone()))
}

/// Where the processor times come from, given the length of a tick where the kernel counts them.
pub open spec fn cpu_time_source_text(tick: Option<Seq<char>>) -> Seq<char> {
    match tick {
        Some(ms) => "/proc/<pid>/stat utime+stime ("@ + ms
            + " ms ticks); ps supplies PID, RSS, and tree"@,
        None => "ps cumulative time (platform resolution; whole seconds on procps)"@,
    }
}

pub fn cpu_time_source(tick: &Option<String>) -> (r: String)
    ensures
        r@ == cpu_time_source_text(text::opt_text(*tick)),
{
    match tick {
        Some(ms) => text::cat(
            text::cat("/proc/<pid>/stat utime+stime (".to_owned(), ms.as_str()),
            " ms ticks); ps supplies PID, RSS, and tree",
        ),
        None => "ps cumulative time (platform resolution; whole seconds on procps)".to_owned(),
    }
}

/// Whether this is a Linux under Windows: its environment says so, or its kernel does.
pub open spec fn wsl(named: bool, version: Option<Seq<char>>) -> bool {
    named || (match version {
        Some(v) => text::contains(text::lowered(v), "microsoft"@),
        None => false,
    })
}

pub fn is_wsl(named: bool, version: &Option<String>) -> (r: bool)
    ensures
        r == wsl(named, text::opt_text(*version)),
{
    if named {
        return true;
    }
    match version {
        Some(v) => text::has(text::lowered_of(v.as_str()).as_str(), "microsoft"),
        None => false,
    }
}

/// The list of numbers as it is shown in a message.
pub open spec fn shown(list: Seq<u32>) -> Seq<char> {
    "["@ + text::join(list.map_values(|n: u32| decimal::decimal(n as nat)), ", "@) + "]"@
}

fn show(list: &[u32]) -> (r: String)
    ensures
        r@ == shown(list@),
{
    let ghost f = |n: u32| decimal::decimal(n as nat);
    let mut parts: Vec<String> = Vec::new();
    let mut i: usize = 0;
    assert(text::texts(parts@) =~= list@.take(0).map_values(f));
    while i < list.len()
        invariant
            i <= list@.len(),
            f == (|n: u32| decimal::decimal(n as nat)),
            text::texts(parts@) =~= list@.take(i as int).map_values(f),
        decreases list@.len() - i,
    {
        text::push_text(&mut parts, decimal::decimal_text(list[i] as u64));
        i = i + 1;
    }
    assert(list@.take(i as int) =~= list@);
    text::cat(text::cat("[".to_owned(), text::joined(&parts, ", ").as_str()), "]")
}

/// What is said of processes that are no longer there.
pub fn roots_exited(roots: &[u32]) -> (r: String)
    ensures
        r@ == "one of root processes "@ + shown(roots@) + " exited"@,
{
    text::cat(text::cat("one of root processes ".to_owned(), show(roots).as_str()), " exited")
}

/// What to do after a sample of some processes: take the samples so far, wait so many
/// nanoseconds before the next one, or give up.
#[derive(Debug)]
pub enum Sampling {
    Done,
    Wait(u64),
    Failed(String),
}

/// After a sample the processes must still be there; sampling goes on until its time is over, and
/// no wait outlasts that time.
pub fn sample_next(alive: bool, roots: &[u32], elapsed: u64, duration: u64, interval: u64) -> (r:
    Sampling)
    ensures
        match r {
            Sampling::Failed(error) => !alive && error@ == "one of root processes "@ + shown(roots@)
                + " exited during sampling"@,
            Sampling::Done => alive && elapsed >= duration,
            Sampling::Wait(n) => alive && elapsed < duration && n == (if interval <= duration
                - elapsed {
                interval as int
            } else {
                duration - elapsed
            }),
        },
{
    if !alive {
        Sampling::Failed(
            text::cat(
                text::cat("one of root processes ".to_owned(), show(roots).as_str()),
                " exited during sampling",
            ),
        )
    } else if elapsed >= duration {
        Sampling::Done
    } else if interval <= duration - elapsed {
        Sampling::Wait(interval)
    } else {
        Sampling::Wait(duration - elapsed)
    }
}

} // verus!
