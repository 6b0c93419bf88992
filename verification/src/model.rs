//! What a run records: reports, contenders, benchmarks and their summaries.

use vstd::prelude::*;
use crate::measure;
use crate::measure::Real;
use crate::textmap::TextMap;
use crate::text;

verus! {

/// The version of the report format.
pub const RESULT_SCHEMA_VERSION: u32 = 7;

/// A copy of a list of samples.
pub fn clone_samples(list: &Vec<Real>) -> (r: Vec<Real>)
    ensures
        r@ == list@,
{
    let mut out: Vec<Real> = Vec::new();
    let mut i: usize = 0;
    while i < list.len()
        invariant
            i <= list@.len(),
            out@ =~= list@.take(i as int),
        decreases list@.len() - i,
    {
        out.push(list[i]);
        i = i + 1;
    }
    out
}

/// One run.
#[derive(Debug)]
pub struct RunReport {
    pub schema_version: u32,
    pub tool_version: String,
    pub run_id: String,
    pub started_unix_ms: u128,
    pub host: HostInfo,
    pub profile: ProfileRecord,
    pub fairness: FairnessRecord,
    pub contenders: Vec<ContenderResult>,
    pub warnings: Vec<String>,
}

/// What a `RunReport` says.
#[verifier::ext_equal]
pub ghost struct RunReportModel {
    pub schema_version: u32,
    pub tool_version: Seq<char>,
    pub run_id: Seq<char>,
    pub started_unix_ms: u128,
    pub host: HostInfoModel,
    pub profile: ProfileRecordModel,
    pub fairness: FairnessRecordModel,
    pub contenders: Seq<ContenderResultModel>,
    pub warnings: Seq<Seq<char>>,
}

impl View for RunReport {
    type V = RunReportModel;

    open spec fn view(&self) -> RunReportModel {
        RunReportModel {
            schema_version: self.schema_version,
            tool_version: self.tool_version@,
            run_id: self.run_id@,
            started_unix_ms: self.started_unix_ms,
            host: self.host@,
            profile: self.profile@,
            fairness: self.fairness@,
            contenders: contender_views(self.contenders@),
            warnings: text::texts(self.warnings@),
        }
    }
}

impl Clone for RunReport {
    fn clone(&self) -> (r: RunReport)
        ensures
            r@ == self@,
    {
        RunReport {
            schema_version: self.schema_version,
            tool_version: self.tool_version.clone(),
            run_id: self.run_id.clone(),
            started_unix_ms: self.started_unix_ms,
            host: self.host.clone(),
            profile: self.profile.clone(),
            fairness: self.fairness.clone(),
            contenders: clone_contender_views(&self.contenders),
            warnings: text::clone_texts(&self.warnings),
        }
    }
}

/// The views of a list.
pub open spec fn report_views(list: Seq<RunReport>) -> Seq<RunReportModel> {
    list.map_values(|x: RunReport| x@)
}

/// The machine a run took place on.
#[derive(Debug)]
pub struct HostInfo {
    pub os: String,
    pub architecture: String,
    pub kernel: String,
    pub hostname: String,
    pub logical_cpus: usize,
    pub rustc: Option<String>,
    pub wsl: bool,
    pub git_dirty_policy: String,
    pub cpu_time_source: String,
}

/// What a `HostInfo` says.
#[verifier::ext_equal]
pub ghost struct HostInfoModel {
    pub os: Seq<char>,
    pub architecture: Seq<char>,
    pub kernel: Seq<char>,
    pub hostname: Seq<char>,
    pub logical_cpus: usize,
    pub rustc: Option<Seq<char>>,
    pub wsl: bool,
    pub git_dirty_policy: Seq<char>,
    pub cpu_time_source: Seq<char>,
}

impl View for HostInfo {
    type V = HostInfoModel;

    open spec fn view(&self) -> HostInfoModel {
        HostInfoModel {
            os: self.os@,
            architecture: self.architecture@,
            kernel: self.kernel@,
            hostname: self.hostname@,
            logical_cpus: self.logical_cpus,
            rustc: text::opt_text(self.rustc),
            wsl: self.wsl,
            git_dirty_policy: self.git_dirty_policy@,
            cpu_time_source: self.cpu_time_source@,
        }
    }
}

impl Clone for HostInfo {
    fn clone(&self) -> (r: HostInfo)
        ensures
            r@ == self@,
    {
        HostInfo {
            os: self.os.clone(),
            architecture: self.architecture.clone(),
            kernel: self.kernel.clone(),
            hostname: self.hostname.clone(),
            logical_cpus: self.logical_cpus,
            rustc: text::clone_opt(&self.rustc),
            wsl: self.wsl,
            git_dirty_policy: self.git_dirty_policy.clone(),
            cpu_time_source: self.cpu_time_source.clone(),
        }
    }
}

/// The fixed workload of a profile.
#[derive(Debug)]
pub struct ProfileRecord {
    pub name: String,
    pub startup_iterations: usize,
    pub command_iterations: usize,
    pub latency_iterations: usize,
    pub output_iterations: usize,
    pub idle_seconds: Real,
    pub settle_seconds: Real,
    pub sample_interval_ms: u64,
    pub terminal_cols: u16,
    pub terminal_rows: u16,
    pub output_lines: usize,
    pub pane_count: usize,
    /// Rapid window resizes applied to the attached client during the resize storm.
    pub resize_iterations: usize,
    /// Additional clients attached beside the primary client in the multi-client scenario.
    pub extra_clients: usize,
}

/// What a `ProfileRecord` says.
#[verifier::ext_equal]
pub ghost struct ProfileRecordModel {
    pub name: Seq<char>,
    pub startup_iterations: usize,
    pub command_iterations: usize,
    pub latency_iterations: usize,
    pub output_iterations: usize,
    pub idle_seconds: Real,
    pub settle_seconds: Real,
    pub sample_interval_ms: u64,
    pub terminal_cols: u16,
    pub terminal_rows: u16,
    pub output_lines: usize,
    pub pane_count: usize,
    pub resize_iterations: usize,
    pub extra_clients: usize,
}

impl View for ProfileRecord {
    type V = ProfileRecordModel;

    open spec fn view(&self) -> ProfileRecordModel {
        ProfileRecordModel {
            name: self.name@,
            startup_iterations: self.startup_iterations,
            command_iterations: self.command_iterations,
            latency_iterations: self.latency_iterations,
            output_iterations: self.output_iterations,
            idle_seconds: self.idle_seconds,
            settle_seconds: self.settle_seconds,
            sample_interval_ms: self.sample_interval_ms,
            terminal_cols: self.terminal_cols,
            terminal_rows: self.terminal_rows,
            output_lines: self.output_lines,
            pane_count: self.pane_count,
            resize_iterations: self.resize_iterations,
            extra_clients: self.extra_clients,
        }
    }
}

impl Clone for ProfileRecord {
    fn clone(&self) -> (r: ProfileRecord)
        ensures
            r@ == self@,
    {
        ProfileRecord {
            name: self.name.clone(),
            startup_iterations: self.startup_iterations,
            command_iterations: self.command_iterations,
            latency_iterations: self.latency_iterations,
            output_iterations: self.output_iterations,
            idle_seconds: self.idle_seconds,
            settle_seconds: self.settle_seconds,
            sample_interval_ms: self.sample_interval_ms,
            terminal_cols: self.terminal_cols,
            terminal_rows: self.terminal_rows,
            output_lines: self.output_lines,
            pane_count: self.pane_count,
            resize_iterations: self.resize_iterations,
            extra_clients: self.extra_clients,
        }
    }
}

/// The conditions every contender ran under.
#[derive(Debug)]
pub struct FairnessRecord {
    pub run_order: Vec<String>,
    pub release_binaries_required: bool,
    pub network_disabled_during_benchmarks: bool,
    pub isolated_home_and_xdg: bool,
    pub identical_terminal_geometry: bool,
    pub child_workload: String,
    pub notes: Vec<String>,
}

/// What a `FairnessRecord` says.
#[verifier::ext_equal]
pub ghost struct FairnessRecordModel {
    pub run_order: Seq<Seq<char>>,
    pub release_binaries_required: bool,
    pub network_disabled_during_benchmarks: bool,
    pub isolated_home_and_xdg: bool,
    pub identical_terminal_geometry: bool,
    pub child_workload: Seq<char>,
    pub notes: Seq<Seq<char>>,
}

impl View for FairnessRecord {
    type V = FairnessRecordModel;

    open spec fn view(&self) -> FairnessRecordModel {
        FairnessRecordModel {
            run_order: text::texts(self.run_order@),
            release_binaries_required: self.release_binaries_required,
            network_disabled_during_benchmarks: self.network_disabled_during_benchmarks,
            isolated_home_and_xdg: self.isolated_home_and_xdg,
            identical_terminal_geometry: self.identical_terminal_geometry,
            child_workload: self.child_workload@,
            notes: text::texts(self.notes@),
        }
    }
}

impl Clone for FairnessRecord {
    fn clone(&self) -> (r: FairnessRecord)
        ensures
            r@ == self@,
    {
        FairnessRecord {
            run_order: text::clone_texts(&self.run_order),
            release_binaries_required: self.release_binaries_required,
            network_disabled_during_benchmarks: self.network_disabled_during_benchmarks,
            isolated_home_and_xdg: self.isolated_home_and_xdg,
            identical_terminal_geometry: self.identical_terminal_geometry,
            child_workload: self.child_workload.clone(),
            notes: text::clone_texts(&self.notes),
        }
    }
}

/// Everything recorded of one contender.
#[derive(Debug)]
pub struct ContenderResult {
    pub id: String,
    pub display_name: String,
    pub adapter: String,
    pub binary: ArtifactInfo,
    pub source: SourceInfo,
    pub static_analysis: StaticAnalysis,
    pub assurance: Vec<AssuranceFinding>,
    pub benchmarks: Vec<BenchmarkResult>,
    pub errors: Vec<String>,
}

/// What a `ContenderResult` says.
#[verifier::ext_equal]
pub ghost struct ContenderResultModel {
    pub id: Seq<char>,
    pub display_name: Seq<char>,
    pub adapter: Seq<char>,
    pub binary: ArtifactInfoModel,
    pub source: SourceInfoModel,
    pub static_analysis: StaticAnalysisModel,
    pub assurance: Seq<AssuranceFindingModel>,
    pub benchmarks: Seq<BenchmarkResultModel>,
    pub errors: Seq<Seq<char>>,
}

impl View for ContenderResult {
    type V = ContenderResultModel;

    open spec fn view(&self) -> ContenderResultModel {
        ContenderResultModel {
            id: self.id@,
            display_name: self.display_name@,
            adapter: self.adapter@,
            binary: self.binary@,
            source: self.source@,
            static_analysis: self.static_analysis@,
            assurance: finding_views(self.assurance@),
            benchmarks: benchmark_views(self.benchmarks@),
            errors: text::texts(self.errors@),
        }
    }
}

impl Clone for ContenderResult {
    fn clone(&self) -> (r: ContenderResult)
        ensures
            r@ == self@,
    {
        ContenderResult {
            id: self.id.clone(),
            display_name: self.display_name.clone(),
            adapter: self.adapter.clone(),
            binary: self.binary.clone(),
            source: self.source.clone(),
            static_analysis: self.static_analysis.clone(),
            assurance: clone_finding_views(&self.assurance),
            benchmarks: clone_benchmark_views(&self.benchmarks),
            errors: text::clone_texts(&self.errors),
        }
    }
}

/// The views of a list.
pub open spec fn contender_views(list: Seq<ContenderResult>) -> Seq<ContenderResultModel> {
    list.map_values(|x: ContenderResult| x@)
}

/// A copy of a list.
pub fn clone_contender_views(list: &Vec<ContenderResult>) -> (r: Vec<ContenderResult>)
    ensures
        contender_views(r@) == contender_views(list@),
{
    let mut out: Vec<ContenderResult> = Vec::new();
    let mut i: usize = 0;
    while i < list.len()
        invariant
            i <= list@.len(),
            contender_views(out@) =~= contender_views(list@).take(i as int),
        decreases list@.len() - i,
    {
        let ghost before = contender_views(out@);
        out.push(list[i].clone());
        i = i + 1;
        assert(contender_views(out@) =~= before.push(list@[i - 1]@));
    }
    out
}

/// The measured executable.
#[derive(Debug)]
pub struct ArtifactInfo {
    pub path: String,
    pub bytes: u64,
    pub version_output: String,
    pub sha256: String,
}

/// What a `ArtifactInfo` says.
#[verifier::ext_equal]
pub ghost struct ArtifactInfoModel {
    pub path: Seq<char>,
    pub bytes: u64,
    pub version_output: Seq<char>,
    pub sha256: Seq<char>,
}

impl View for ArtifactInfo {
    type V = ArtifactInfoModel;

    open spec fn view(&self) -> ArtifactInfoModel {
        ArtifactInfoModel {
            path: self.path@,
            bytes: self.bytes,
            version_output: self.version_output@,
            sha256: self.sha256@,
        }
    }
}

impl Clone for ArtifactInfo {
    fn clone(&self) -> (r: ArtifactInfo)
        ensures
            r@ == self@,
    {
        ArtifactInfo {
            path: self.path.clone(),
            bytes: self.bytes,
            version_output: self.version_output.clone(),
            sha256: self.sha256.clone(),
        }
    }
}

/// The source checkout the executable is attributed to.
#[derive(Debug)]
pub struct SourceInfo {
    pub path: String,
    pub commit: Option<String>,
    pub commit_date: Option<String>,
    pub dirty: Option<bool>,
    pub package_version: Option<String>,
    pub license: Option<String>,
}

/// What a `SourceInfo` says.
#[verifier::ext_equal]
pub ghost struct SourceInfoModel {
    pub path: Seq<char>,
    pub commit: Option<Seq<char>>,
    pub commit_date: Option<Seq<char>>,
    pub dirty: Option<bool>,
    pub package_version: Option<Seq<char>>,
    pub license: Option<Seq<char>>,
}

impl View for SourceInfo {
    type V = SourceInfoModel;

    open spec fn view(&self) -> SourceInfoModel {
        SourceInfoModel {
            path: self.path@,
            commit: text::opt_text(self.commit),
            commit_date: text::opt_text(self.commit_date),
            dirty: self.dirty,
            package_version: text::opt_text(self.package_version),
            license: text::opt_text(self.license),
        }
    }
}

impl Clone for SourceInfo {
    fn clone(&self) -> (r: SourceInfo)
        ensures
            r@ == self@,
    {
        SourceInfo {
            path: self.path.clone(),
            commit: text::clone_opt(&self.commit),
            commit_date: text::clone_opt(&self.commit_date),
            dirty: self.dirty,
            package_version: text::clone_opt(&self.package_version),
            license: text::clone_opt(&self.license),
        }
    }
}

/// Counts taken from a source checkout; `None` where a count does not apply.
#[derive(Debug)]
pub struct StaticAnalysis {
    pub rust_source_files: Option<u64>,
    pub first_party_rust_lines: Option<u64>,
    pub rust_test_lines: Option<u64>,
    pub documentation_lines: u64,
    pub lockfile_packages: Option<u64>,
    pub direct_dependencies: Option<u64>,
    pub unsafe_blocks: Option<u64>,
    pub production_unwrap_calls: Option<u64>,
    pub network_api_references: Option<u64>,
    pub process_launch_references: Option<u64>,
    pub notes: Vec<String>,
}

/// What a `StaticAnalysis` says.
#[verifier::ext_equal]
pub ghost struct StaticAnalysisModel {
    pub rust_source_files: Option<u64>,
    pub first_party_rust_lines: Option<u64>,
    pub rust_test_lines: Option<u64>,
    pub documentation_lines: u64,
    pub lockfile_packages: Option<u64>,
    pub direct_dependencies: Option<u64>,
    pub unsafe_blocks: Option<u64>,
    pub production_unwrap_calls: Option<u64>,
    pub network_api_references: Option<u64>,
    pub process_launch_references: Option<u64>,
    pub notes: Seq<Seq<char>>,
}

impl View for StaticAnalysis {
    type V = StaticAnalysisModel;

    open spec fn view(&self) -> StaticAnalysisModel {
        StaticAnalysisModel {
            rust_source_files: self.rust_source_files,
            first_party_rust_lines: self.first_party_rust_lines,
            rust_test_lines: self.rust_test_lines,
            documentation_lines: self.documentation_lines,
            lockfile_packages: self.lockfile_packages,
            direct_dependencies: self.direct_dependencies,
            unsafe_blocks: self.unsafe_blocks,
            production_unwrap_calls: self.production_unwrap_calls,
            network_api_references: self.network_api_references,
            process_launch_references: self.process_launch_references,
            notes: text::texts(self.notes@),
        }
    }
}

impl Clone for StaticAnalysis {
    fn clone(&self) -> (r: StaticAnalysis)
        ensures
            r@ == self@,
    {
        StaticAnalysis {
            rust_source_files: self.rust_source_files,
            first_party_rust_lines: self.first_party_rust_lines,
            rust_test_lines: self.rust_test_lines,
            documentation_lines: self.documentation_lines,
            lockfile_packages: self.lockfile_packages,
            direct_dependencies: self.direct_dependencies,
            unsafe_blocks: self.unsafe_blocks,
            production_unwrap_calls: self.production_unwrap_calls,
            network_api_references: self.network_api_references,
            process_launch_references: self.process_launch_references,
            notes: text::clone_texts(&self.notes),
        }
    }
}

/// One operator-supplied rating.
#[derive(Debug)]
pub struct AssuranceFinding {
    pub category: String,
    pub criterion: String,
    pub status: AssuranceStatus,
    pub weight: Real,
    pub summary: String,
    pub evidence: Vec<String>,
}

/// What a `AssuranceFinding` says.
#[verifier::ext_equal]
pub ghost struct AssuranceFindingModel {
    pub category: Seq<char>,
    pub criterion: Seq<char>,
    pub status: AssuranceStatus,
    pub weight: Real,
    pub summary: Seq<char>,
    pub evidence: Seq<Seq<char>>,
}

impl View for AssuranceFinding {
    type V = AssuranceFindingModel;

    open spec fn view(&self) -> AssuranceFindingModel {
        AssuranceFindingModel {
            category: self.category@,
            criterion: self.criterion@,
            status: self.status,
            weight: self.weight,
            summary: self.summary@,
            evidence: text::texts(self.evidence@),
        }
    }
}

impl Clone for AssuranceFinding {
    fn clone(&self) -> (r: AssuranceFinding)
        ensures
            r@ == self@,
    {
        AssuranceFinding {
            category: self.category.clone(),
            criterion: self.criterion.clone(),
            status: self.status,
            weight: self.weight,
            summary: self.summary.clone(),
            evidence: text::clone_texts(&self.evidence),
        }
    }
}

/// The views of a list.
pub open spec fn finding_views(list: Seq<AssuranceFinding>) -> Seq<AssuranceFindingModel> {
    list.map_values(|x: AssuranceFinding| x@)
}

/// A copy of a list.
pub fn clone_finding_views(list: &Vec<AssuranceFinding>) -> (r: Vec<AssuranceFinding>)
    ensures
        finding_views(r@) == finding_views(list@),
{
    let mut out: Vec<AssuranceFinding> = Vec::new();
    let mut i: usize = 0;
    while i < list.len()
        invariant
            i <= list@.len(),
            finding_views(out@) =~= finding_views(list@).take(i as int),
        decreases list@.len() - i,
    {
        let ghost before = finding_views(out@);
        out.push(list[i].clone());
        i = i + 1;
        assert(finding_views(out@) =~= before.push(list@[i - 1]@));
    }
    out
}

#[derive(Debug, Clone, Copy, PartialEq, Eq, Structural)]
pub enum AssuranceStatus {
    Pass,
    Partial,
    Fail,
    Unknown,
    NotApplicable,
}

/// The bits of the value 100.
pub const FULL_SCORE: u64 = 0x4059_0000_0000_0000;

/// The bits of the value 50.
pub const HALF_SCORE: u64 = 0x4049_0000_0000_0000;

impl AssuranceStatus {
    pub open spec fn scored(self) -> Option<Real> {
        match self {
            AssuranceStatus::Pass => Some(Real { bits: FULL_SCORE }),
            AssuranceStatus::Partial => Some(Real { bits: HALF_SCORE }),
            AssuranceStatus::Fail => Some(Real { bits: 0 }),
            AssuranceStatus::Unknown | AssuranceStatus::NotApplicable => None,
        }
    }

    /// The score of the rating; an unknown or inapplicable one is not scored.
    pub fn score(self) -> (r: Option<Real>)
        ensures
            r == self.scored(),
    {
        match self {
            AssuranceStatus::Pass => Some(Real { bits: FULL_SCORE }),
            AssuranceStatus::Partial => Some(Real { bits: HALF_SCORE }),
            AssuranceStatus::Fail => Some(Real { bits: 0 }),
            AssuranceStatus::Unknown | AssuranceStatus::NotApplicable => None,
        }
    }
}

/// One metric of one contender.
#[derive(Debug)]
pub struct BenchmarkResult {
    pub name: String,
    pub unit: String,
    pub direction: MetricDirection,
    pub samples: Vec<Real>,
    pub summary: SampleSummary,
    pub status: BenchmarkStatus,
    pub note: String,
    pub metadata: TextMap,
}

/// What a `BenchmarkResult` says.
#[verifier::ext_equal]
pub ghost struct BenchmarkResultModel {
    pub name: Seq<char>,
    pub unit: Seq<char>,
    pub direction: MetricDirection,
    pub samples: Seq<Real>,
    pub summary: SampleSummary,
    pub status: BenchmarkStatus,
    pub note: Seq<char>,
    pub metadata: Seq<(Seq<char>, Seq<char>)>,
}

impl View for BenchmarkResult {
    type V = BenchmarkResultModel;

    open spec fn view(&self) -> BenchmarkResultModel {
        BenchmarkResultModel {
            name: self.name@,
            unit: self.unit@,
            direction: self.direction,
            samples: self.samples@,
            summary: self.summary,
            status: self.status,
            note: self.note@,
            metadata: self.metadata@,
        }
    }
}

impl Clone for BenchmarkResult {
    fn clone(&self) -> (r: BenchmarkResult)
        ensures
            r@ == self@,
    {
        BenchmarkResult {
            name: self.name.clone(),
            unit: self.unit.clone(),
            direction: self.direction,
            samples: clone_samples(&self.samples),
            summary: self.summary,
            status: self.status,
            note: self.note.clone(),
            metadata: self.metadata.copied(),
        }
    }
}

/// The views of a list.
pub open spec fn benchmark_views(list: Seq<BenchmarkResult>) -> Seq<BenchmarkResultModel> {
    list.map_values(|x: BenchmarkResult| x@)
}

/// A copy of a list.
pub fn clone_benchmark_views(list: &Vec<BenchmarkResult>) -> (r: Vec<BenchmarkResult>)
    ensures
        benchmark_views(r@) == benchmark_views(list@),
{
    let mut out: Vec<BenchmarkResult> = Vec::new();
    let mut i: usize = 0;
    while i < list.len()
        invariant
            i <= list@.len(),
            benchmark_views(out@) =~= benchmark_views(list@).take(i as int),
        decreases list@.len() - i,
    {
        let ghost before = benchmark_views(out@);
        out.push(list[i].clone());
        i = i + 1;
        assert(benchmark_views(out@) =~= before.push(list@[i - 1]@));
    }
    out
}

#[derive(Debug, Clone, Copy, PartialEq, Eq, Structural)]
pub enum MetricDirection {
    Lower,
    Higher,
    Neutral,
}

#[derive(Debug, Clone, Copy, PartialEq, Eq, Structural)]
pub enum BenchmarkStatus {
    Measured,
    Skipped,
    Failed,
}

/// The figures of a set of samples; all of them absent where no sample is finite.
#[derive(Debug, Clone, Copy, PartialEq, Eq, Structural)]
pub struct SampleSummary {
    pub count: usize,
    pub min: Option<Real>,
    pub median: Option<Real>,
    pub mean: Option<Real>,
    pub p95: Option<Real>,
    pub max: Option<Real>,
    pub stddev: Option<Real>,
}

/// The figures that take arithmetic on the ascending finite samples.
#[derive(Debug, Clone, Copy, PartialEq, Eq, Structural)]
pub struct Figures {
    pub median: Real,
    pub mean: Real,
    pub p95: Real,
    pub stddev: Real,
}

impl SampleSummary {
    pub open spec fn absent() -> SampleSummary {
        SampleSummary {
            count: 0,
            min: None,
            median: None,
            mean: None,
            p95: None,
            max: None,
            stddev: None,
        }
    }

    /// The value at a quantile: the one at its place, or the figure where it falls between two.
    pub open spec fn quantile(sorted: Seq<Real>, places: (int, int), figure: Real) -> Real {
        if places.0 == places.1 {
            sorted[places.0]
        } else {
            figure
        }
    }

    /// The summary of samples whose ascending finite values have these figures. A median or a
    /// percentile that is one of the samples needs no arithmetic.
    pub open spec fn summarized(samples: Seq<Real>, figures: Figures) -> SampleSummary {
        let sorted = measure::ascending(samples);
        if sorted.len() == 0 {
            SampleSummary::absent()
        } else {
            SampleSummary {
                count: sorted.len() as usize,
                min: Some(sorted.first()),
                median: Some(
                    Self::quantile(sorted, measure::median_places(sorted.len()), figures.median),
                ),
                mean: Some(figures.mean),
                p95: Some(Self::quantile(sorted, measure::p95_places(sorted.len()), figures.p95)),
                max: Some(sorted.last()),
                stddev: Some(figures.stddev),
            }
        }
    }

    /// The summary of the samples. `figures` are those of `measure::finite_ascending(values)`.
    pub fn from_samples(values: &[Real], figures: Figures) -> (r: SampleSummary)
        ensures
            r == SampleSummary::summarized(values@, figures),
    {
        let sorted: Vec<Real> = measure::finite_ascending(values);
        if sorted.len() == 0 {
            return SampleSummary::default();
        }
        let count: usize = sorted.len();
        let middle: (usize, usize) = measure::median_indices(count);
        let high: (usize, usize) = measure::p95_indices(count);
        SampleSummary {
            count,
            min: Some(sorted[0]),
            median: Some(
                if middle.0 == middle.1 {
                    sorted[middle.0]
                } else {
                    figures.median
                },
            ),
            mean: Some(figures.mean),
            p95: Some(
                if high.0 == high.1 {
                    sorted[high.0]
                } else {
                    figures.p95
                },
            ),
            max: Some(sorted[count - 1]),
            stddev: Some(figures.stddev),
        }
    }
}

/// A median and a 95th percentile that fall between two samples lie between them, and of two
/// samples the median is not above the percentile.
pub open spec fn interpolated(sorted: Seq<Real>, figures: Figures) -> bool {
    let middle = measure::median_places(sorted.len());
    let high = measure::p95_places(sorted.len());
    &&& middle.0 < middle.1 ==> sorted[middle.0].place() <= figures.median.place()
        <= sorted[middle.1].place()
    &&& high.0 < high.1 ==> sorted[high.0].place() <= figures.p95.place()
        <= sorted[high.1].place()
    &&& sorted.len() == 2 ==> figures.median.place() <= figures.p95.place()
}

/// A summary does not depend on the order in which the samples were taken, nor on infinities and
/// NaNs among them. It counts the finite samples; where there is none nothing else is known, and
/// where there is one everything is, and the least of them is no more than the greatest. The median
/// and the 95th percentile lie between these two, in this order, where figures that fall between
/// two samples lie between them; the median of an odd number of samples always does.
pub proof fn law_summaries_ignore_order_and_other_values(
    a: Seq<Real>,
    other: Seq<Real>,
    b: Seq<Real>,
    figures: Figures,
)
    requires
        a.len() <= usize::MAX,
        forall|i: int| 0 <= i < other.len() ==> !(#[trigger] other[i]).finite(),
        b.to_multiset() == (a + other).to_multiset(),
    ensures
        SampleSummary::summarized(b, figures) == SampleSummary::summarized(a, figures),
        ({
            let s = SampleSummary::summarized(a, figures);
            &&& s.count == a.filter(measure::is_a_finite()).len()
            &&& s.count == 0 ==> s == SampleSummary::absent()
            &&& s.count > 0 ==> s.min is Some && s.median is Some && s.mean is Some && s.p95 is Some
                && s.max is Some && s.stddev is Some && s.min.unwrap().place()
                <= s.max.unwrap().place()
            &&& s.count > 0 && interpolated(measure::ascending(a), figures)
                ==> s.min.unwrap().place() <= s.median.unwrap().place() <= s.p95.unwrap().place()
                <= s.max.unwrap().place()
            &&& s.count % 2 == 1 ==> s.min.unwrap().place() <= s.median.unwrap().place()
                <= s.max.unwrap().place()
        }),
{
    measure::law_order_and_other_values_do_not_matter(a, other, b);
    measure::law_ascending_keeps_the_finite_values(a);
    if measure::ascending(a).len() > 0 {
        measure::law_quantiles_lie_among_the_values(a);
    }
    a.lemma_filter_len(measure::is_a_finite());
}

impl Default for SampleSummary {
    fn default() -> (r: SampleSummary)
        ensures
            r == SampleSummary::absent(),
    {
        SampleSummary {
            count: 0,
            min: None,
            median: None,
            mean: None,
            p95: None,
            max: None,
            stddev: None,
        }
    }
}

impl StaticAnalysisModel {
    pub open spec fn absent() -> StaticAnalysisModel {
        StaticAnalysisModel {
            rust_source_files: None,
            first_party_rust_lines: None,
            rust_test_lines: None,
            documentation_lines: 0,
            lockfile_packages: None,
            direct_dependencies: None,
            unsafe_blocks: None,
            production_unwrap_calls: None,
            network_api_references: None,
            process_launch_references: None,
            notes: Seq::empty(),
        }
    }
}

impl Default for StaticAnalysis {
    fn default() -> (r: StaticAnalysis)
        ensures
            r@ == StaticAnalysisModel::absent(),
    {
        StaticAnalysis {
            rust_source_files: None,
            first_party_rust_lines: None,
            rust_test_lines: None,
            documentation_lines: 0,
            lockfile_packages: None,
            direct_dependencies: None,
            unsafe_blocks: None,
            production_unwrap_calls: None,
            network_api_references: None,
            process_launch_references: None,
            notes: Vec::new(),
        }
    }
}

/// A metric that was measured.
pub open spec fn measured(
    name: Seq<char>,
    unit: Seq<char>,
    direction: MetricDirection,
    samples: Seq<Real>,
    summary: SampleSummary,
    note: Seq<char>,
) -> BenchmarkResultModel {
    BenchmarkResultModel {
        name,
        unit,
        direction,
        samples,
        summary,
        status: BenchmarkStatus::Measured,
        note,
        metadata: Seq::empty(),
    }
}

/// A metric whose measurement failed.
pub open spec fn failed(name: Seq<char>, note: Seq<char>) -> BenchmarkResultModel {
    BenchmarkResultModel {
        name,
        unit: Seq::empty(),
        direction: MetricDirection::Neutral,
        samples: Seq::empty(),
        summary: SampleSummary::absent(),
        status: BenchmarkStatus::Failed,
        note,
        metadata: Seq::empty(),
    }
}

/// The result of a measurement with these samples, whose ascending finite values have `figures`.
pub fn measured_benchmark(
    name: &str,
    unit: &str,
    direction: MetricDirection,
    samples: Vec<Real>,
    figures: Figures,
    note: &str,
) -> (r: BenchmarkResult)
    ensures
        r@ == measured(
            name@,
            unit@,
            direction,
            samples@,
            SampleSummary::summarized(samples@, figures),
            note@,
        ),
{
    let summary: SampleSummary = SampleSummary::from_samples(samples.as_slice(), figures);
    let r: BenchmarkResult = BenchmarkResult {
        name: name.to_owned(),
        unit: unit.to_owned(),
        direction,
        samples,
        summary,
        status: BenchmarkStatus::Measured,
        note: note.to_owned(),
        metadata: TextMap::new(),
    };
    assert(r@.metadata =~= Seq::empty());
    r
}

/// The result of a measurement that failed.
pub fn failed_benchmark(name: &str, note: &str) -> (r: BenchmarkResult)
    ensures
        r@ == failed(name@, note@),
{
    let r: BenchmarkResult = BenchmarkResult {
        name: name.to_owned(),
        unit: String::new(),
        direction: MetricDirection::Neutral,
        samples: Vec::new(),
        summary: SampleSummary::default(),
        status: BenchmarkStatus::Failed,
        note: note.to_owned(),
        metadata: TextMap::new(),
    };
    assert(r@.metadata =~= Seq::empty());
    assert(r@.unit =~= Seq::empty());
    assert(r@.samples =~= Seq::empty());
    r
}

} // verus!
