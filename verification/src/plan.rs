//! What a run does next, what came of it, and what is written down.

use vstd::prelude::*;
use crate::measure::Real;
use crate::textmap::TextMap;
use crate::model;
use crate::model::{BenchmarkResult, BenchmarkStatus, Figures, MetricDirection, SampleSummary};
use crate::text;

verus! {

/// A metric before its samples are summarized.
#[derive(Debug)]
pub struct Draft {
    pub name: String,
    pub unit: String,
    pub direction: MetricDirection,
    pub samples: Vec<Real>,
    pub status: BenchmarkStatus,
    pub note: String,
    pub metadata: TextMap,
}

/// What a `Draft` says.
#[verifier::ext_equal]
pub ghost struct DraftModel {
    pub name: Seq<char>,
    pub unit: Seq<char>,
    pub direction: MetricDirection,
    pub samples: Seq<Real>,
    pub status: BenchmarkStatus,
    pub note: Seq<char>,
    pub metadata: Seq<(Seq<char>, Seq<char>)>,
}

impl View for Draft {
    type V = DraftModel;

    open spec fn view(&self) -> DraftModel {
        DraftModel {
            name: self.name@,
            unit: self.unit@,
            direction: self.direction,
            samples: self.samples@,
            status: self.status,
            note: self.note@,
            metadata: self.metadata@,
        }
    }
}

impl Clone for Draft {
    fn clone(&self) -> (r: Draft)
        ensures
            r@ == self@,
    {
        Draft {
            name: self.name.clone(),
            unit: self.unit.clone(),
            direction: self.direction,
            samples: model::clone_samples(&self.samples),
            status: self.status,
            note: self.note.clone(),
            metadata: self.metadata.copied(),
        }
    }
}

/// The views of a list.
pub open spec fn draft_views(list: Seq<Draft>) -> Seq<DraftModel> {
    list.map_values(|x: Draft| x@)
}

/// A copy of a list.
pub fn clone_draft_views(list: &Vec<Draft>) -> (r: Vec<Draft>)
    ensures
        draft_views(r@) == draft_views(list@),
{
    let mut out: Vec<Draft> = Vec::new();
    let mut i: usize = 0;
    while i < list.len()
        invariant
            i <= list@.len(),
            draft_views(out@) =~= draft_views(list@).take(i as int),
        decreases list@.len() - i,
    {
        let ghost before = draft_views(out@);
        out.push(list[i].clone());
        i = i + 1;
        assert(draft_views(out@) =~= before.push(list@[i - 1]@));
    }
    out
}

/// What a scenario writes down of a contender.
#[derive(Debug)]
pub struct Record {
    pub errors: Vec<String>,
    pub drafts: Vec<Draft>,
}

/// What a `Record` says.
#[verifier::ext_equal]
pub ghost struct RecordModel {
    pub errors: Seq<Seq<char>>,
    pub drafts: Seq<DraftModel>,
}

impl View for Record {
    type V = RecordModel;

    open spec fn view(&self) -> RecordModel {
        RecordModel {
            errors: text::texts(self.errors@),
            drafts: draft_views(self.drafts@),
        }
    }
}

impl Clone for Record {
    fn clone(&self) -> (r: Record)
        ensures
            r@ == self@,
    {
        Record {
            errors: text::clone_texts(&self.errors),
            drafts: clone_draft_views(&self.drafts),
        }
    }
}

/// Samples of the processes of a contender.
#[derive(Debug)]
pub struct Resources {
    /// Percentage of one core over the window, where it can be told.
    pub root_cpu: Option<Real>,
    pub cohort_cpu: Option<Real>,
    pub root_rss: Vec<Real>,
    pub cohort_rss: Vec<Real>,
    pub process_counts: Vec<Real>,
    /// The median of `cohort_rss`.
    pub median: Real,
    pub median_text: String,
}

/// What a `Resources` says.
#[verifier::ext_equal]
pub ghost struct ResourcesModel {
    pub root_cpu: Option<Real>,
    pub cohort_cpu: Option<Real>,
    pub root_rss: Seq<Real>,
    pub cohort_rss: Seq<Real>,
    pub process_counts: Seq<Real>,
    pub median: Real,
    pub median_text: Seq<char>,
}

impl View for Resources {
    type V = ResourcesModel;

    open spec fn view(&self) -> ResourcesModel {
        ResourcesModel {
            root_cpu: self.root_cpu,
            cohort_cpu: self.cohort_cpu,
            root_rss: self.root_rss@,
            cohort_rss: self.cohort_rss@,
            process_counts: self.process_counts@,
            median: self.median,
            median_text: self.median_text@,
        }
    }
}

impl Clone for Resources {
    fn clone(&self) -> (r: Resources)
        ensures
            r@ == self@,
    {
        Resources {
            root_cpu: self.root_cpu,
            cohort_cpu: self.cohort_cpu,
            root_rss: model::clone_samples(&self.root_rss),
            cohort_rss: model::clone_samples(&self.cohort_rss),
            process_counts: model::clone_samples(&self.process_counts),
            median: self.median,
            median_text: self.median_text.clone(),
        }
    }
}

/// One piece of outside work. Where an event other than `Done` answers it, that is said.
#[derive(Debug)]
pub enum Action {
    /// Starts a server in a fresh work directory: `Timed`.
    Start { sequence: usize },
    /// Stops the server: `Timed`.
    Stop,
    /// Starts the stopped server again: `Timed`.
    Restart,
    /// Attaches a client.
    Attach,
    /// Attaches one more client.
    AttachExtra { cols: u16, rows: u16 },
    /// Reads what the client shows.
    Drain { millis: u64 },
    /// Reads what an extra client shows.
    DrainExtra { index: usize, millis: u64 },
    /// Types the detach keys.
    Detach,
    /// Types the detach keys into an extra client.
    DetachExtra { index: usize },
    /// Ends the client.
    Terminate,
    /// Ends an extra client.
    TerminateExtra { index: usize },
    /// Types the split keys.
    Split,
    /// Types a line. The clock of the next `Observe` starts before it.
    Type { line: String },
    /// Forgets what the client has shown.
    Clear,
    /// Waits for the marker: `Observed`.
    Observe { marker: String, seconds: u64, lines: usize },
    /// Waits until there are that many processes.
    WaitFor { processes: usize, seconds: u64 },
    /// Waits until there are no more than that many processes.
    WaitAtMost { processes: usize, seconds: u64 },
    /// Sleeps.
    Pause { millis: u64 },
    /// Sleeps for the settle time of the profile.
    Settle,
    /// Samples the server over the idle time: `Sampled`.
    SampleServer,
    /// Samples the server and every client over the idle time: `Sampled`.
    SampleClients,
    /// Samples server and clients over the idle time, so many seconds at most: `Sampled`.
    SampleRecovery { seconds: u64 },
    /// The median resident size over a window, sampled at intervals of so many milliseconds:
    /// `Number`.
    QuickRss { window: u64, interval: u64 },
    /// The processor time used so far: `Number`.
    CpuSeconds,
    /// The processor time used since then, in milliseconds and not below zero: `Number`.
    CpuSince { seconds: Real },
    /// The size of the work directory: `Number`.
    StateBytes,
    /// Times a fresh status command, that many times: `Series`.
    Commands { count: usize },
    /// Resizes the window of the client.
    Resize { cols: u16, rows: u16 },
    /// Asks the pane for its size: `Size`.
    ProbeSize { tag: String },
    /// Holds the screen against the latency oracle.
    CheckLatency { marker: String, previous: Option<String> },
    /// Holds the screen against the output oracle.
    CheckOutput { lines: usize, payload: String, marker: String },
    /// Holds the screen of an extra client against the marker.
    CheckExtra { index: usize, marker: String },
    /// Holds the screen against the tag of a size probe.
    CheckTag { tag: String },
    /// Waits until the text is on the screen.
    Await { wanted: String, seconds: u64 },
    /// Reads the size behind the prefix from the screen: `Size` or `Unread`.
    ReadSize { prefix: String },
    /// Whether the text is on the screen: `Seen`.
    Look { wanted: String },
    /// The number of pane shells: `Count`.
    CountShells,
    /// The slope of the sizes over one, two, three and more panes: `Number`.
    Fit { sizes: Vec<Real> },
    /// The share of the growth that was given back: `Number`.
    Recovery { base: Real, peak: Real, after: Real },
    /// Closes one pane: `Closed`.
    ClosePane { processes: usize },
    /// Puts the session into its detached state.
    Prime,
    /// Times input until it is visible: `Series`.
    Latency,
    /// Holds that many extra clients against the marker.
    CheckExtras { count: usize, marker: String },
    /// Detaches that many extra clients.
    DetachExtras { count: usize },
    /// The output workload: `Recorded`.
    RunOutput,
    /// The resize storm: `Recorded`.
    RunStorm,
    /// The restart: `Recorded`.
    RunRestart { expected: String },
    /// The pane scaling workload: `Recorded`.
    RunMultipane,
    /// The workload with several clients: `Recorded`.
    RunMulticlient,
    /// Pane scaling in a fresh session: `Recorded`.
    RunMultipaneSuite { sequence: usize },
    /// Several clients in a fresh session: `Recorded`.
    RunMulticlientSuite { sequence: usize },
}

/// What a `Action` says.
#[verifier::ext_equal]
pub ghost enum ActionModel {
    Start { sequence: usize },
    Stop,
    Restart,
    Attach,
    AttachExtra { cols: u16, rows: u16 },
    Drain { millis: u64 },
    DrainExtra { index: usize, millis: u64 },
    Detach,
    DetachExtra { index: usize },
    Terminate,
    TerminateExtra { index: usize },
    Split,
    Type { line: Seq<char> },
    Clear,
    Observe { marker: Seq<char>, seconds: u64, lines: usize },
    WaitFor { processes: usize, seconds: u64 },
    WaitAtMost { processes: usize, seconds: u64 },
    Pause { millis: u64 },
    Settle,
    SampleServer,
    SampleClients,
    SampleRecovery { seconds: u64 },
    QuickRss { window: u64, interval: u64 },
    CpuSeconds,
    CpuSince { seconds: Real },
    StateBytes,
    Commands { count: usize },
    Resize { cols: u16, rows: u16 },
    ProbeSize { tag: Seq<char> },
    CheckLatency { marker: Seq<char>, previous: Option<Seq<char>> },
    CheckOutput { lines: usize, payload: Seq<char>, marker: Seq<char> },
    CheckExtra { index: usize, marker: Seq<char> },
    CheckTag { tag: Seq<char> },
    Await { wanted: Seq<char>, seconds: u64 },
    ReadSize { prefix: Seq<char> },
    Look { wanted: Seq<char> },
    CountShells,
    Fit { sizes: Seq<Real> },
    Recovery { base: Real, peak: Real, after: Real },
    ClosePane { processes: usize },
    Prime,
    Latency,
    CheckExtras { count: usize, marker: Seq<char> },
    DetachExtras { count: usize },
    RunOutput,
    RunStorm,
    RunRestart { expected: Seq<char> },
    RunMultipane,
    RunMulticlient,
    RunMultipaneSuite { sequence: usize },
    RunMulticlientSuite { sequence: usize },
}

impl View for Action {
    type V = ActionModel;

    open spec fn view(&self) -> ActionModel {
        match self {
            Action::Start { sequence } => ActionModel::Start { sequence: *sequence },
            Action::Stop => ActionModel::Stop,
            Action::Restart => ActionModel::Restart,
            Action::Attach => ActionModel::Attach,
            Action::AttachExtra { cols, rows } => ActionModel::AttachExtra {
                cols: *cols,
                rows: *rows,
            },
            Action::Drain { millis } => ActionModel::Drain { millis: *millis },
            Action::DrainExtra { index, millis } => ActionModel::DrainExtra {
                index: *index,
                millis: *millis,
            },
            Action::Detach => ActionModel::Detach,
            Action::DetachExtra { index } => ActionModel::DetachExtra { index: *index },
            Action::Terminate => ActionModel::Terminate,
            Action::TerminateExtra { index } => ActionModel::TerminateExtra { index: *index },
            Action::Split => ActionModel::Split,
            Action::Type { line } => ActionModel::Type { line: line@ },
            Action::Clear => ActionModel::Clear,
            Action::Observe { marker, seconds, lines } => ActionModel::Observe {
                marker: marker@,
                seconds: *seconds,
                lines: *lines,
            },
            Action::WaitFor { processes, seconds } => ActionModel::WaitFor {
                processes: *processes,
                seconds: *seconds,
            },
            Action::WaitAtMost { processes, seconds } => ActionModel::WaitAtMost {
                processes: *processes,
                seconds: *seconds,
            },
            Action::Pause { millis } => ActionModel::Pause { millis: *millis },
            Action::Settle => ActionModel::Settle,
            Action::SampleServer => ActionModel::SampleServer,
            Action::SampleClients => ActionModel::SampleClients,
            Action::SampleRecovery { seconds } => ActionModel::SampleRecovery { seconds: *seconds },
            Action::QuickRss { window, interval } => ActionModel::QuickRss {
                window: *window,
                interval: *interval,
            },
            Action::CpuSeconds => ActionModel::CpuSeconds,
            Action::CpuSince { seconds } => ActionModel::CpuSince { seconds: *seconds },
            Action::StateBytes => ActionModel::StateBytes,
            Action::Commands { count } => ActionModel::Commands { count: *count },
            Action::Resize { cols, rows } => ActionModel::Resize { cols: *cols, rows: *rows },
            Action::ProbeSize { tag } => ActionModel::ProbeSize { tag: tag@ },
            Action::CheckLatency { marker, previous } => ActionModel::CheckLatency {
                marker: marker@,
                previous: text::opt_text(*previous),
            },
            Action::CheckOutput { lines, payload, marker } => ActionModel::CheckOutput {
                lines: *lines,
                payload: payload@,
                marker: marker@,
            },
            Action::CheckExtra { index, marker } => ActionModel::CheckExtra {
                index: *index,
                marker: marker@,
            },
            Action::CheckTag { tag } => ActionModel::CheckTag { tag: tag@ },
            Action::Await { wanted, seconds } => ActionModel::Await {
                wanted: wanted@,
                seconds: *seconds,
            },
            Action::ReadSize { prefix } => ActionModel::ReadSize { prefix: prefix@ },
            Action::Look { wanted } => ActionModel::Look { wanted: wanted@ },
            Action::CountShells => ActionModel::CountShells,
            Action::Fit { sizes } => ActionModel::Fit { sizes: sizes@ },
            Action::Recovery { base, peak, after } => ActionModel::Recovery {
                base: *base,
                peak: *peak,
                after: *after,
            },
            Action::ClosePane { processes } => ActionModel::ClosePane { processes: *processes },
            Action::Prime => ActionModel::Prime,
            Action::Latency => ActionModel::Latency,
            Action::CheckExtras { count, marker } => ActionModel::CheckExtras {
                count: *count,
                marker: marker@,
            },
            Action::DetachExtras { count } => ActionModel::DetachExtras { count: *count },
            Action::RunOutput => ActionModel::RunOutput,
            Action::RunStorm => ActionModel::RunStorm,
            Action::RunRestart { expected } => ActionModel::RunRestart { expected: expected@ },
            Action::RunMultipane => ActionModel::RunMultipane,
            Action::RunMulticlient => ActionModel::RunMulticlient,
            Action::RunMultipaneSuite { sequence } => ActionModel::RunMultipaneSuite {
                sequence: *sequence,
            },
            Action::RunMulticlientSuite { sequence } => ActionModel::RunMulticlientSuite {
                sequence: *sequence,
            },
        }
    }
}

/// The window of a quick sample, in milliseconds.
pub const QUICK_WINDOW: u64 = 250;

/// The time between the samples of a quick window, in milliseconds.
pub const QUICK_INTERVAL: u64 = 100;

/// What came of an action.
#[derive(Debug)]
pub enum Event {
    /// It was done.
    Done,
    /// It failed.
    Failed { error: String },
    /// It took that many milliseconds.
    Timed { millis: Real },
    /// The marker came after that many milliseconds, at that rate and behind that many bytes.
    Observed { millis: Real, rate: Real, bytes: Real },
    /// A number and how it is written.
    Number { value: Real, shown: String },
    /// Several numbers.
    Series { values: Vec<Real> },
    /// Samples of processes.
    Sampled { resources: Resources },
    /// A size, and how many milliseconds after the last resize it was seen, as a measured value and
    /// rounded down.
    Size { rows: u16, cols: u16, millis: Real, age: u64 },
    /// No size can be read so many milliseconds after the last wait; what the screen shows.
    Unread { age: u64, dump: String },
    /// Whether it was seen.
    Seen { yes: bool },
    /// How many there are.
    Count { count: usize },
    /// The pane is closed, after one more attempt or without.
    Closed { retried: bool },
    /// What a scenario wrote down.
    Recorded { record: Record },
}

/// What a `Event` says.
#[verifier::ext_equal]
pub ghost enum EventModel {
    Done,
    Failed { error: Seq<char> },
    Timed { millis: Real },
    Observed { millis: Real, rate: Real, bytes: Real },
    Number { value: Real, shown: Seq<char> },
    Series { values: Seq<Real> },
    Sampled { resources: ResourcesModel },
    Size { rows: u16, cols: u16, millis: Real, age: u64 },
    Unread { age: u64, dump: Seq<char> },
    Seen { yes: bool },
    Count { count: usize },
    Closed { retried: bool },
    Recorded { record: RecordModel },
}

impl View for Event {
    type V = EventModel;

    open spec fn view(&self) -> EventModel {
        match self {
            Event::Done => EventModel::Done,
            Event::Failed { error } => EventModel::Failed { error: error@ },
            Event::Timed { millis } => EventModel::Timed { millis: *millis },
            Event::Observed { millis, rate, bytes } => EventModel::Observed {
                millis: *millis,
                rate: *rate,
                bytes: *bytes,
            },
            Event::Number { value, shown } => EventModel::Number { value: *value, shown: shown@ },
            Event::Series { values } => EventModel::Series { values: values@ },
            Event::Sampled { resources } => EventModel::Sampled { resources: resources@ },
            Event::Size { rows, cols, millis, age } => EventModel::Size {
                rows: *rows,
                cols: *cols,
                millis: *millis,
                age: *age,
            },
            Event::Unread { age, dump } => EventModel::Unread { age: *age, dump: dump@ },
            Event::Seen { yes } => EventModel::Seen { yes: *yes },
            Event::Count { count } => EventModel::Count { count: *count },
            Event::Closed { retried } => EventModel::Closed { retried: *retried },
            Event::Recorded { record } => EventModel::Recorded { record: record@ },
        }
    }
}

pub open spec fn events_of(list: Seq<Event>) -> Seq<EventModel> {
    list.map_values(|e: Event| e@)
}

pub open spec fn opt_action(a: Option<Action>) -> Option<ActionModel> {
    match a {
        Some(a) => Some(a@),
        None => None,
    }
}

/// Whether the event at the index is a failure.
pub open spec fn fails(events: Seq<EventModel>, i: int) -> bool {
    0 <= i < events.len() && events[i] is Failed
}

/// The error of the event at the index.
pub open spec fn error_of(events: Seq<EventModel>, i: int) -> Seq<char> {
    match events[i] {
        EventModel::Failed { error } => error,
        _ => ""@,
    }
}

/// The number in an event; zero where it holds none.
pub open spec fn number_in(e: EventModel) -> Real {
    match e {
        EventModel::Timed { millis } => millis,
        EventModel::Observed { millis, .. } => millis,
        EventModel::Number { value, .. } => value,
        EventModel::Size { millis, .. } => millis,
        _ => Real { bits: 0 },
    }
}

/// How the number in an event is written.
pub open spec fn written_in(e: EventModel) -> Seq<char> {
    match e {
        EventModel::Number { shown, .. } => shown,
        _ => ""@,
    }
}

/// The numbers in an event.
pub open spec fn series_in(e: EventModel) -> Seq<Real> {
    match e {
        EventModel::Series { values } => values,
        _ => Seq::empty(),
    }
}

/// The error of the event at the index, where it is a failure.
pub fn failure_at(events: &Vec<Event>, i: usize) -> (r: Option<String>)
    ensures
        match r {
            Some(e) => fails(events_of(events@), i as int) && e@ == error_of(
                events_of(events@),
                i as int,
            ),
            None => !fails(events_of(events@), i as int),
        },
{
    if i >= events.len() {
        return None;
    }
    assert(events_of(events@)[i as int] == events@[i as int]@);
    match &events[i] {
        Event::Failed { error } => Some(error.clone()),
        _ => None,
    }
}

/// The error of the last event, where it is a failure.
pub fn last_failure(events: &Vec<Event>) -> (r: Option<String>)
    ensures
        match r {
            Some(e) => fails(events_of(events@), events@.len() - 1) && e@ == error_of(
                events_of(events@),
                events@.len() - 1,
            ),
            None => !fails(events_of(events@), events@.len() - 1),
        },
{
    if events.len() == 0 {
        return None;
    }
    failure_at(events, events.len() - 1)
}

pub fn number(e: &Event) -> (r: Real)
    ensures
        r == number_in(e@),
{
    match e {
        Event::Timed { millis } => *millis,
        Event::Observed { millis, .. } => *millis,
        Event::Number { value, .. } => *value,
        Event::Size { millis, .. } => *millis,
        _ => Real { bits: 0 },
    }
}

pub fn written(e: &Event) -> (r: String)
    ensures
        r@ == written_in(e@),
{
    match e {
        Event::Number { shown, .. } => shown.clone(),
        _ => "".to_owned(),
    }
}

pub fn series(e: &Event) -> (r: Vec<Real>)
    ensures
        r@ == series_in(e@),
{
    match e {
        Event::Series { values } => model::clone_samples(values),
        _ => Vec::new(),
    }
}

// ---------------------------------------------------------------------------------------------
// Records
// ---------------------------------------------------------------------------------------------

impl RecordModel {
    pub open spec fn empty() -> RecordModel {
        RecordModel { errors: Seq::empty(), drafts: Seq::empty() }
    }

    pub open spec fn error(self, line: Seq<char>) -> RecordModel {
        RecordModel { errors: self.errors.push(line), ..self }
    }

    pub open spec fn draft(self, d: DraftModel) -> RecordModel {
        RecordModel { drafts: self.drafts.push(d), ..self }
    }

    pub open spec fn failed(self, name: Seq<char>, note: Seq<char>) -> RecordModel {
        self.draft(failed(name, note))
    }

    pub open spec fn then_record(self, next: RecordModel) -> RecordModel {
        RecordModel { errors: self.errors + next.errors, drafts: self.drafts + next.drafts }
    }
}

/// A metric that was measured.
pub open spec fn measured(
    name: Seq<char>,
    unit: Seq<char>,
    direction: MetricDirection,
    samples: Seq<Real>,
    note: Seq<char>,
    metadata: Seq<(Seq<char>, Seq<char>)>,
) -> DraftModel {
    DraftModel {
        name,
        unit,
        direction,
        samples,
        status: BenchmarkStatus::Measured,
        note,
        metadata,
    }
}

/// A metric whose measurement failed.
pub open spec fn failed(name: Seq<char>, note: Seq<char>) -> DraftModel {
    DraftModel {
        name,
        unit: Seq::empty(),
        direction: MetricDirection::Neutral,
        samples: Seq::empty(),
        status: BenchmarkStatus::Failed,
        note,
        metadata: Seq::empty(),
    }
}

/// The samples and metadata of nothing.
pub open spec fn no_data() -> Seq<(Seq<char>, Seq<char>)> {
    Seq::empty()
}

pub fn measured_draft(
    name: &str,
    unit: &str,
    direction: MetricDirection,
    samples: Vec<Real>,
    note: &str,
    metadata: TextMap,
) -> (r: Draft)
    ensures
        r@ == measured(name@, unit@, direction, samples@, note@, metadata@),
{
    Draft {
        name: name.to_owned(),
        unit: unit.to_owned(),
        direction,
        samples,
        status: BenchmarkStatus::Measured,
        note: note.to_owned(),
        metadata,
    }
}

pub fn failed_draft(name: &str, note: &str) -> (r: Draft)
    ensures
        r@ == failed(name@, note@),
{
    let r: Draft = Draft {
        name: name.to_owned(),
        unit: String::new(),
        direction: MetricDirection::Neutral,
        samples: Vec::new(),
        status: BenchmarkStatus::Failed,
        note: note.to_owned(),
        metadata: TextMap::new(),
    };
    assert(r@.metadata =~= Seq::empty());
    assert(r@.unit =~= Seq::empty());
    assert(r@.samples =~= Seq::empty());
    r
}

pub fn no_metadata() -> (r: TextMap)
    ensures
        r@ == no_data(),
{
    let r: TextMap = TextMap::new();
    assert(r@ =~= no_data());
    r
}

pub fn one_sample(value: Real) -> (r: Vec<Real>)
    ensures
        r@ == seq![value],
{
    let mut out: Vec<Real> = Vec::new();
    out.push(value);
    out
}

impl Record {
    pub fn new() -> (r: Record)
        ensures
            r@ == RecordModel::empty(),
    {
        let r: Record = Record { errors: Vec::new(), drafts: Vec::new() };
        assert(r@.errors =~= Seq::empty());
        assert(r@.drafts =~= Seq::empty());
        r
    }

    pub fn push_error(&mut self, line: String)
        ensures
            final(self)@ == old(self)@.error(line@),
    {
        text::push_text(&mut self.errors, line);
    }

    pub fn push_draft(&mut self, d: Draft)
        ensures
            final(self)@ == old(self)@.draft(d@),
    {
        let ghost before = draft_views(self.drafts@);
        self.drafts.push(d);
        assert(draft_views(self.drafts@) =~= before.push(d@));
    }

    pub fn push_failed(&mut self, name: &str, note: &str)
        ensures
            final(self)@ == old(self)@.failed(name@, note@),
    {
        self.push_draft(failed_draft(name, note));
    }

    pub fn append(&mut self, next: Record)
        ensures
            final(self)@ == old(self)@.then_record(next@),
    {
        text::push_all(&mut self.errors, next.errors);
        let ghost before = draft_views(self.drafts@);
        let ghost behind = draft_views(next.drafts@);
        let mut rest: Vec<Draft> = next.drafts;
        self.drafts.append(&mut rest);
        assert(draft_views(self.drafts@) =~= before + behind);
    }
}

/// The metric as it is reported, with the figures of its ascending finite samples.
pub open spec fn completed(d: DraftModel, figures: Figures) -> model::BenchmarkResultModel {
    model::BenchmarkResultModel {
        name: d.name,
        unit: d.unit,
        direction: d.direction,
        samples: d.samples,
        summary: if d.status == BenchmarkStatus::Measured {
            SampleSummary::summarized(d.samples, figures)
        } else {
            SampleSummary::absent()
        },
        status: d.status,
        note: d.note,
        metadata: d.metadata,
    }
}

/// Summarizes the metric. `figures` are those of its ascending finite samples.
pub fn complete(d: &Draft, figures: Figures) -> (r: BenchmarkResult)
    ensures
        r@ == completed(d@, figures),
{
    let summary: SampleSummary = if d.status == BenchmarkStatus::Measured {
        SampleSummary::from_samples(d.samples.as_slice(), figures)
    } else {
        SampleSummary::default()
    };
    BenchmarkResult {
        name: d.name.clone(),
        unit: d.unit.clone(),
        direction: d.direction,
        samples: model::clone_samples(&d.samples),
        summary,
        status: d.status,
        note: d.note.clone(),
        metadata: d.metadata.copied(),
    }
}

// ---------------------------------------------------------------------------------------------
// Resource metrics
// ---------------------------------------------------------------------------------------------

pub open spec fn cpu_draft(
    r: RecordModel,
    cpu: Option<Real>,
    name: Seq<char>,
    note: Seq<char>,
) -> RecordModel {
    match cpu {
        Some(v) => r.draft(
            measured(name, "% core"@, MetricDirection::Lower, seq![v], note, no_data()),
        ),
        None => r,
    }
}

pub open spec fn rss_draft(samples: Seq<Real>, name: Seq<char>, note: Seq<char>) -> DraftModel {
    measured(name, "KiB"@, MetricDirection::Lower, samples, note, no_data())
}

/// The record with the processor share and resident size of the roots and of the cohort.
pub open spec fn with_resources(
    r: RecordModel,
    prefix: Seq<char>,
    s: ResourcesModel,
    note: Seq<char>,
) -> RecordModel {
    let root = cpu_draft(r, s.root_cpu, prefix + "_root_cpu"@, note);
    let cohort = cpu_draft(root, s.cohort_cpu, prefix + "_cohort_cpu"@, note);
    cohort.draft(rss_draft(s.root_rss, prefix + "_root_rss"@, note)).draft(
        rss_draft(s.cohort_rss, prefix + "_cohort_rss"@, note),
    )
}

fn add_cpu(record: &mut Record, cpu: Option<Real>, name: &str, note: &str)
    ensures
        final(record)@ == cpu_draft(old(record)@, cpu, name@, note@),
{
    match cpu {
        Some(v) => {
            record.push_draft(
                measured_draft(
                    name,
                    "% core",
                    MetricDirection::Lower,
                    one_sample(v),
                    note,
                    no_metadata(),
                ),
            );
        },
        None => {},
    }
}

fn add_rss(record: &mut Record, samples: &Vec<Real>, name: &str, note: &str)
    ensures
        final(record)@ == old(record)@.draft(rss_draft(samples@, name@, note@)),
{
    record.push_draft(
        measured_draft(
            name,
            "KiB",
            MetricDirection::Lower,
            model::clone_samples(samples),
            note,
            no_metadata(),
        ),
    );
}

/// Adds the resource metrics of an idle window.
pub fn add_resource_metrics(record: &mut Record, prefix: &str, s: &Resources, note: &str)
    ensures
        final(record)@ == with_resources(old(record)@, prefix@, s@, note@),
{
    let name: String = text::cat(prefix.to_owned(), "_root_cpu");
    add_cpu(record, s.root_cpu, name.as_str(), note);
    let name: String = text::cat(prefix.to_owned(), "_cohort_cpu");
    add_cpu(record, s.cohort_cpu, name.as_str(), note);
    let name: String = text::cat(prefix.to_owned(), "_root_rss");
    add_rss(record, &s.root_rss, name.as_str(), note);
    let name: String = text::cat(prefix.to_owned(), "_cohort_rss");
    add_rss(record, &s.cohort_rss, name.as_str(), note);
}

} // verus!
