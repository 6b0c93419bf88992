//! Output allowlist. Product diagnostics and operator-authored text never pass through.

use vstd::prelude::*;
use sha2::{Digest, Sha256};
use crate::aliases;
use crate::decimal;
use crate::textmap;
use crate::textmap::TextMap;
use crate::model;
use crate::model::{
    ArtifactInfo, ArtifactInfoModel, AssuranceFinding, AssuranceFindingModel, BenchmarkResult,
    BenchmarkResultModel, BenchmarkStatus, ContenderResult, ContenderResultModel, FairnessRecord,
    FairnessRecordModel, HostInfo, HostInfoModel, ProfileRecordModel, RunReport, RunReportModel,
    SourceInfo, SourceInfoModel, StaticAnalysis, StaticAnalysisModel, RESULT_SCHEMA_VERSION,
};
use crate::text;

verus! {

pub const TITLE: &'static str = "Terminal multiplexer comparison";

pub const OMITTED: &'static str = "Diagnostic details omitted for privacy.";

// ---------------------------------------------------------------------------------------------
// Versions
// ---------------------------------------------------------------------------------------------

pub open spec fn numeric(c: char) -> bool {
    text::digit(c) || c == '.'
}

pub open spec fn is_a_numeric() -> spec_fn(char) -> bool {
    |c: char| numeric(c)
}

/// Two or three numbers of one to six digits each.
pub open spec fn release_parts(parts: Seq<Seq<char>>) -> bool {
    &&& 2 <= parts.len() <= 3
    &&& forall|i: int| 0 <= i < parts.len() ==> 0 < (#[trigger] parts[i]).len() <= 6
}

/// The release number that a word starts with. A two-part one keeps a single lower-case letter
/// behind it; any other suffix is withheld.
pub open spec fn word_release(word: Seq<char>) -> Option<Seq<char>> {
    let n = text::run_len(word, is_a_numeric()) as int;
    let parts = text::fields(word.take(n), '.');
    let suffix = word.skip(n);
    if !release_parts(parts) {
        None
    } else if parts.len() == 2 && suffix.len() == 1 && text::lower(suffix[0]) {
        Some(word)
    } else if suffix.len() == 0 {
        Some(word.take(n))
    } else {
        Some(word.take(n) + "-redacted"@)
    }
}

/// The release number that the first word starts with.
pub open spec fn release(value: Seq<char>) -> Option<Seq<char>> {
    let words = text::words(value);
    if words.len() == 0 {
        None
    } else {
        word_release(words[0])
    }
}

fn are_release_parts(parts: &Vec<String>) -> (r: bool)
    ensures
        r == release_parts(text::texts(parts@)),
{
    let ghost split = text::texts(parts@);
    let count: usize = parts.len();
    if count < 2 || count > 3 {
        return false;
    }
    let mut i: usize = 0;
    while i < count
        invariant
            i <= count,
            count == parts@.len(),
            split == text::texts(parts@),
            forall|k: int| 0 <= k < i ==> 0 < (#[trigger] split[k]).len() <= 6,
        decreases count - i,
    {
        let size: usize = text::chars_of(parts[i].as_str()).len();
        assert(split[i as int].len() == size);
        if size == 0 || size > 6 {
            return false;
        }
        i = i + 1;
    }
    true
}

/// Keep only the leading release number, never a build path, name, date, or arbitrary suffix.
pub fn version(value: &str) -> (r: Option<String>)
    ensures
        text::opt_text(r) == release(value@),
{
    let words: Vec<String> = text::words_of(value);
    if words.len() == 0 {
        return None;
    }
    assert(text::words(value@)[0] == words@[0]@);
    let word: Vec<char> = text::chars_of(words[0].as_str());
    let mut n: usize = 0;
    while n < word.len() && (text::is_digit(word[n]) || word[n] == '.')
        invariant
            n <= word@.len(),
            forall|k: int| 0 <= k < n ==> numeric(#[trigger] word@[k]),
        decreases word@.len() - n,
    {
        n = n + 1;
    }
    proof {
        text::lemma_run_len_is(word@, is_a_numeric(), n as nat);
    }
    let number: String = text::text_range(&word, 0, n);
    assert(number@ =~= word@.take(n as int));
    let parts: Vec<String> = text::fields_of(number.as_str(), '.');
    let count: usize = parts.len();
    if !are_release_parts(&parts) {
        return None;
    }
    let rest: usize = word.len() - n;
    if count == 2 && rest == 1 && 'a' <= word[n] && word[n] <= 'z' {
        Some(words[0].clone())
    } else if rest == 0 {
        Some(number)
    } else {
        Some(text::cat(number, "-redacted"))
    }
}

/// The name of the product an adapter drives.
pub open spec fn product(adapter: Seq<char>) -> Seq<char> {
    if aliases::supported(adapter) {
        adapter
    } else {
        "unknown"@
    }
}

/// The product's name and the release number in the second word, where the first is that name.
pub open spec fn product_release(adapter: Seq<char>, output: Seq<char>) -> Seq<char> {
    let words = text::words(output);
    let number = if words.len() > 1 && words[0] == product(adapter) {
        release(words[1])
    } else {
        None
    };
    product(adapter) + " "@ + match number {
        Some(v) => v,
        None => "unknown"@,
    }
}

pub fn product_version(adapter: &str, output: &str) -> (r: String)
    ensures
        r@ == product_release(adapter@, output@),
{
    let words: Vec<String> = text::words_of(output);
    let expected: &str = if aliases::is_supported(adapter) {
        adapter
    } else {
        "unknown"
    };
    let named: String = text::cat(expected.to_owned(), " ");
    assert(words@.len() > 0 ==> text::words(output@)[0] == words@[0]@);
    assert(words@.len() > 1 ==> text::words(output@)[1] == words@[1]@);
    if words.len() > 1 && text::same(words[0].as_str(), expected) {
        match version(words[1].as_str()) {
            Some(v) => text::cat(named, v.as_str()),
            None => text::cat(named, "unknown"),
        }
    } else {
        text::cat(named, "unknown")
    }
}

// ---------------------------------------------------------------------------------------------
// Messages
// ---------------------------------------------------------------------------------------------

/// The fixed message for an error.
pub open spec fn error_category(error: Seq<char>) -> Seq<char> {
    if text::starts_with(error, "could not read"@) {
        "could not read input; check the supplied file and permissions"@
    } else if text::starts_with(error, "invalid config"@) {
        "invalid configuration; check the TOML structure and documented fields"@
    } else if text::starts_with(error, "could not write"@) || text::starts_with(
        error,
        "could not replace"@,
    ) || text::starts_with(error, "could not create"@) {
        "could not write output; check the destination and permissions"@
    } else if text::starts_with(error, "measurement failures"@) {
        "measurement failures were recorded; inspect the sanitized report"@
    } else if text::starts_with(error, "unsupported schema"@) {
        "unsupported report schema"@
    } else if text::contains(error, "cannot be merged"@) || text::contains(
        error,
        "different adapter"@,
    ) {
        "reports are not comparable and cannot be merged"@
    } else if text::contains(error, "workdirs"@) {
        "raw work directories cannot be retained in sanitized mode"@
    } else {
        "operation failed; check the command, configuration, prerequisites, and measurement status"@
    }
}

/// Deliberately fixed messages: replacing patterns cannot reliably sanitize arbitrary stderr.
pub fn public_error(error: &str) -> (r: String)
    ensures
        r@ == error_category(error@) + ". "@ + OMITTED@,
{
    let category: &str = if text::has_prefix(error, "could not read") {
        "could not read input; check the supplied file and permissions"
    } else if text::has_prefix(error, "invalid config") {
        "invalid configuration; check the TOML structure and documented fields"
    } else if text::has_prefix(error, "could not write") || text::has_prefix(
        error,
        "could not replace",
    ) || text::has_prefix(error, "could not create") {
        "could not write output; check the destination and permissions"
    } else if text::has_prefix(error, "measurement failures") {
        "measurement failures were recorded; inspect the sanitized report"
    } else if text::has_prefix(error, "unsupported schema") {
        "unsupported report schema"
    } else if text::has(error, "cannot be merged") || text::has(error, "different adapter") {
        "reports are not comparable and cannot be merged"
    } else if text::has(error, "workdirs") {
        "raw work directories cannot be retained in sanitized mode"
    } else {
        "operation failed; check the command, configuration, prerequisites, and measurement status"
    };
    text::cat(text::cat(category.to_owned(), ". "), OMITTED)
}

// ---------------------------------------------------------------------------------------------
// Allowed values
// ---------------------------------------------------------------------------------------------

/// The hexadecimal form of a commit or digest of 20 or 32 bytes.
pub open spec fn hex(value: Seq<char>) -> bool {
    &&& value.len() == 40 || value.len() == 64
    &&& forall|i: int| 0 <= i < value.len() ==> text::hex_digit(#[trigger] value[i])
}

fn is_hex(value: &Vec<char>, from: usize) -> (r: bool)
    requires
        from <= value@.len(),
    ensures
        r == hex(value@.skip(from as int)),
{
    let ghost part = value@.skip(from as int);
    let size: usize = value.len() - from;
    if size != 40 && size != 64 {
        return false;
    }
    let mut i: usize = from;
    while i < value.len()
        invariant
            from <= i <= value@.len(),
            part == value@.skip(from as int),
            forall|k: int| 0 <= k < i - from ==> text::hex_digit(#[trigger] part[k]),
        decreases value@.len() - i,
    {
        if !text::is_hex_digit(value[i]) {
            assert(!text::hex_digit(part[i - from]));
            return false;
        }
        i = i + 1;
    }
    true
}

fn is_hex_text(value: &str) -> (r: bool)
    ensures
        r == hex(value@),
{
    let chars: Vec<char> = text::chars_of(value);
    assert(chars@.skip(0) =~= chars@);
    is_hex(&chars, 0)
}

pub open spec fn plain_metric(name: Seq<char>) -> bool {
    ||| name == "binary_size"@
    ||| name == "client_render_output"@
    ||| name == "control_command_latency"@
    ||| name == "daemon_idle"@
    ||| name == "foreground_idle"@
    ||| name == "isolated_state_size"@
    ||| name == "live_suite_shutdown"@
    ||| name == "multipane_idle"@
    ||| name == "multipane_process_count"@
    ||| name == "multipane_suite_shutdown"@
    ||| name == "pane_close_recovery"@
    ||| name == "pane_close_rss"@
    ||| name == "pane_memory_slope"@
    ||| name == "resize_storm_cpu"@
    ||| name == "resize_storm_rss"@
    ||| name == "resize_storm_settle"@
    ||| name == "restart_ready"@
    ||| name == "server_shutdown"@
    ||| name == "server_startup_ready"@
    ||| name == "terminal_input_to_visible"@
    ||| name == "terminal_output_completion"@
    ||| name == "terminal_output_ingest_rate"@
}

fn is_plain_metric(name: &str) -> (r: bool)
    ensures
        r == plain_metric(name@),
{
    text::same(name, "binary_size") || text::same(name, "client_render_output") || text::same(
        name,
        "control_command_latency",
    ) || text::same(name, "daemon_idle") || text::same(name, "foreground_idle") || text::same(
        name,
        "isolated_state_size",
    ) || text::same(name, "live_suite_shutdown") || text::same(name, "multipane_idle")
        || text::same(name, "multipane_process_count") || text::same(
        name,
        "multipane_suite_shutdown",
    ) || text::same(name, "pane_close_recovery") || text::same(name, "pane_close_rss")
        || text::same(name, "pane_memory_slope") || text::same(name, "resize_storm_cpu")
        || text::same(name, "resize_storm_rss") || text::same(name, "resize_storm_settle")
        || text::same(name, "restart_ready") || text::same(name, "server_shutdown") || text::same(
        name,
        "server_startup_ready",
    ) || text::same(name, "terminal_input_to_visible") || text::same(
        name,
        "terminal_output_completion",
    ) || text::same(name, "terminal_output_ingest_rate")
}

/// What distinguishes the four resource metrics of an idle window.
pub open spec fn resource(suffix: Seq<char>) -> bool {
    suffix == "_root_cpu"@ || suffix == "_cohort_cpu"@ || suffix == "_root_rss"@ || suffix
        == "_cohort_rss"@
}

fn resource_suffix(suffix: &str) -> (r: bool)
    ensures
        r == resource(suffix@),
{
    text::same(suffix, "_root_cpu") || text::same(suffix, "_cohort_cpu") || text::same(
        suffix,
        "_root_rss",
    ) || text::same(suffix, "_cohort_rss")
}

/// The prefix, then one of the four resource suffixes.
pub open spec fn resource_of(name: Seq<char>, prefix: Seq<char>) -> bool {
    text::after_prefix(name, prefix) matches Some(rest) && resource(rest)
}

fn is_resource_of(name: &str, prefix: &str) -> (r: bool)
    ensures
        r == resource_of(name@, prefix@),
{
    match text::strip_prefix(name, prefix) {
        Some(rest) => resource_suffix(rest.as_str()),
        None => false,
    }
}

/// The prefix, a count of one to four digits, and what was measured at that count.
pub open spec fn counted_metric(name: Seq<char>, prefix: Seq<char>) -> bool {
    match text::after_prefix(name, prefix) {
        Some(rest) => match text::halves(rest, '_') {
            Some((count, suffix)) => {
                &&& 0 < count.len() <= 4
                &&& text::all_digits(count)
                &&& suffix == "input_to_visible"@ || suffix == "idle"@ || resource_of(
                    suffix,
                    "idle"@,
                )
            },
            None => false,
        },
        None => false,
    }
}

fn is_counted_metric(name: &str, prefix: &str) -> (r: bool)
    ensures
        r == counted_metric(name@, prefix@),
{
    match text::strip_prefix(name, prefix) {
        Some(rest) => match text::halves_of(rest.as_str(), '_') {
            Some((count, suffix)) => {
                let digits: Vec<char> = text::chars_of(count.as_str());
                digits.len() > 0 && digits.len() <= 4 && text::is_all_digits(&digits) && (
                text::same(suffix.as_str(), "input_to_visible") || text::same(
                    suffix.as_str(),
                    "idle",
                ) || is_resource_of(suffix.as_str(), "idle"))
            },
            None => false,
        },
        None => false,
    }
}

pub open spec fn metric(name: Seq<char>) -> bool {
    ||| plain_metric(name)
    ||| resource_of(name, "daemon_idle"@)
    ||| resource_of(name, "foreground_idle"@)
    ||| counted_metric(name, "multipane_"@)
    ||| counted_metric(name, "multiclient_"@)
}

fn known_metric(name: &str) -> (r: bool)
    ensures
        r == metric(name@),
{
    is_plain_metric(name) || is_resource_of(name, "daemon_idle") || is_resource_of(
        name,
        "foreground_idle",
    ) || is_counted_metric(name, "multipane_") || is_counted_metric(name, "multiclient_")
}

pub open spec fn unit(value: Seq<char>) -> bool {
    ||| value == ""@
    ||| value == "ms"@
    ||| value == "% core"@
    ||| value == "KiB"@
    ||| value == "bytes"@
    ||| value == "processes"@
    ||| value == "KiB/pane"@
    ||| value == "%"@
    ||| value == "MiB/s"@
    ||| value == "ms CPU"@
}

fn known_unit(value: &str) -> (r: bool)
    ensures
        r == unit(value@),
{
    text::same(value, "") || text::same(value, "ms") || text::same(value, "% core") || text::same(
        value,
        "KiB",
    ) || text::same(value, "bytes") || text::same(value, "processes") || text::same(
        value,
        "KiB/pane",
    ) || text::same(value, "%") || text::same(value, "MiB/s") || text::same(value, "ms CPU")
}

/// The names under which a plain count is kept.
pub open spec fn count_key(key: Seq<char>) -> bool {
    ||| key == "one_pane_rss_kib"@
    ||| key == "peak_rss_kib"@
    ||| key == "after_close_rss_kib"@
    ||| key == "exit_retries"@
    ||| key == "input_lines_per_iteration"@
    ||| key == "output_iterations"@
    ||| key == "input_bytes_per_iteration"@
    ||| key == "resize_iterations"@
    ||| key == "settle_probes"@
    ||| key == "scrollback_lines_before_storm"@
    ||| key == "pane_shells_after_restart"@
}

fn is_count_key(key: &str) -> (r: bool)
    ensures
        r == count_key(key@),
{
    text::same(key, "one_pane_rss_kib") || text::same(key, "peak_rss_kib") || text::same(
        key,
        "after_close_rss_kib",
    ) || text::same(key, "exit_retries") || text::same(key, "input_lines_per_iteration")
        || text::same(key, "output_iterations") || text::same(key, "input_bytes_per_iteration")
        || text::same(key, "resize_iterations") || text::same(key, "settle_probes") || text::same(
        key,
        "scrollback_lines_before_storm",
    ) || text::same(key, "pane_shells_after_restart")
}

/// A numeral below 2^64 without a sign.
pub open spec fn count_value(value: Seq<char>) -> bool {
    &&& 0 < value.len() <= 20
    &&& text::all_digits(value)
    &&& decimal::numeral_within(value, u64::MAX as nat) is Some
}

/// Two numerals below 2^16 with one space between them.
pub open spec fn geometry_value(value: Seq<char>) -> bool {
    let parts = text::fields(value, ' ');
    &&& parts.len() == 2
    &&& decimal::numeral_within(parts[0], u16::MAX as nat) is Some
    &&& decimal::numeral_within(parts[1], u16::MAX as nat) is Some
}

/// A pane count and a size, with a colon between them.
pub open spec fn curve_point(pair: Seq<char>) -> bool {
    match text::halves(pair, ':') {
        Some((panes, rss)) => decimal::numeral_within(panes, u16::MAX as nat) is Some
            && decimal::numeral_within(rss, u64::MAX as nat) is Some,
        None => false,
    }
}

/// Points with commas between them.
pub open spec fn curve_value(value: Seq<char>) -> bool {
    let points = text::fields(value, ',');
    forall|i: int| 0 <= i < points.len() ==> curve_point(#[trigger] points[i])
}

/// Whether the named value may be published.
pub open spec fn safe(key: Seq<char>, value: Seq<char>) -> bool {
    if key == "native_disk_restoration"@ {
        value == "not_applicable"@
    } else if key == "prior_output_visible_after_restart"@ {
        value == "yes"@ || value == "no"@ || value == "unknown"@
    } else if key == "pane_size_rows_cols"@ {
        geometry_value(value)
    } else if key == "cohort_rss_kib_by_pane_count"@ {
        curve_value(value)
    } else {
        count_key(key) && count_value(value)
    }
}

fn is_curve_value(value: &str) -> (r: bool)
    ensures
        r == curve_value(value@),
{
    let points: Vec<String> = text::fields_of(value, ',');
    let ghost split = text::fields(value@, ',');
    let mut i: usize = 0;
    while i < points.len()
        invariant
            i <= points@.len(),
            split == text::fields(value@, ','),
            split == text::texts(points@),
            forall|k: int| 0 <= k < i ==> curve_point(#[trigger] split[k]),
        decreases points@.len() - i,
    {
        let sound: bool = match text::halves_of(points[i].as_str(), ':') {
            Some((panes, rss)) => decimal::parse_u16(panes.as_str()).is_some()
                && decimal::parse_u64(rss.as_str()).is_some(),
            None => false,
        };
        assert(sound == curve_point(split[i as int]));
        if !sound {
            return false;
        }
        i = i + 1;
    }
    true
}

fn safe_metadata(key: &str, value: &str) -> (r: bool)
    ensures
        r == safe(key@, value@),
{
    if text::same(key, "native_disk_restoration") {
        text::same(value, "not_applicable")
    } else if text::same(key, "prior_output_visible_after_restart") {
        text::same(value, "yes") || text::same(value, "no") || text::same(value, "unknown")
    } else if text::same(key, "pane_size_rows_cols") {
        let parts: Vec<String> = text::fields_of(value, ' ');
        let ghost split = text::fields(value@, ' ');
        assert(split == text::texts(parts@));
        if parts.len() != 2 {
            return false;
        }
        assert(split[0] == parts@[0]@ && split[1] == parts@[1]@);
        decimal::parse_u16(parts[0].as_str()).is_some() && decimal::parse_u16(
            parts[1].as_str(),
        ).is_some()
    } else if text::same(key, "cohort_rss_kib_by_pane_count") {
        is_curve_value(value)
    } else {
        let digits: Vec<char> = text::chars_of(value);
        is_count_key(key) && digits.len() > 0 && digits.len() <= 20 && text::is_all_digits(&digits)
            && decimal::parse_u64(value).is_some()
    }
}

// ---------------------------------------------------------------------------------------------
// Sanitized reports
// ---------------------------------------------------------------------------------------------

pub const UNSUPPORTED_PROFILE: &'static str = "unsupported benchmark profile";

pub const INVALID_DIGEST: &'static str = "invalid artifact digest";

pub const INVALID_COMMIT: &'static str = "invalid source commit";

pub const UNSUPPORTED_METRIC: &'static str = "unsupported benchmark metric";

pub const UNSUPPORTED_UNIT: &'static str = "unsupported metric unit";

pub const DIRTY_POLICY: &'static str = "Source dirtiness is recorded; local paths are omitted.";

pub const PROC_TIME: &'static str = "proc cumulative CPU time";

pub const PS_TIME: &'static str = "ps cumulative CPU time";

pub const TICKS_SUFFIX: &'static str =
    " ms ticks); ps supplies RSS and process ancestry";

pub const WORKLOAD_NOTE: &'static str =
    "Equivalent workloads use isolated HOME/XDG trees and real PTYs; product commands only set up, probe, and stop sessions.";

pub const ORDER_NOTE: &'static str =
    "Startup order reverses; suite order rotates by seed. Latency/output screen checks gate validity. Root and cohort metrics are separate.";

pub const PRODUCT_NOTE: &'static str =
    "Herdr background checks are disabled and its headless geometry is pinned. tmux uses a private socket/config, a non-login shell and tiled prefix-key splits.";

pub const PRIVACY_NOTE: &'static str =
    "Output privacy: host identities, paths, wall-clock timestamps, custom text, raw diagnostics and terminal contents are omitted. Counts, measurements and revision/artifact hashes are retained.";

pub const WARNING: &'static str = "A run warning occurred; identifying details omitted.";

pub const STATIC_NOTE: &'static str =
    "Static counts are context only; generated/vendored code and duplicate/translations are excluded. Rust/Cargo counts are inapplicable to C; Markdown counts exclude man pages.";

pub const RATING: &'static str =
    "Operator-supplied rating; free-text rationale and evidence paths omitted for privacy. The harness does not independently verify this rating.";

pub const SCENARIO_FAILED: &'static str =
    "A scenario failed; identifying details omitted. Inspect metric statuses.";

pub const MEASURED_NOTE: &'static str =
    "Measured with the documented profile; see docs/METHODOLOGY.md for interpretation.";

pub const FAILED_NOTE: &'static str =
    "Measurement failed. Raw diagnostics and terminal output omitted for privacy.";

pub const SKIPPED_NOTE: &'static str =
    "Measurement skipped. Raw diagnostics omitted for privacy.";

/// The lower-case hexadecimal SHA-256 digest of the bytes.
pub uninterp spec fn sha256_hex(bytes: Seq<u8>) -> Seq<char>;

/// `sha2::Sha256::digest`, written with `{:x}`: the digest is a function of the bytes alone, and
/// its 32 bytes give 64 hexadecimal digits.
#[verifier::external_body]
pub(crate) fn digest_hex(bytes: &[u8]) -> (r: String)
    ensures
        r@ == sha256_hex(bytes@),
        hex(r@),
        r@.len() == 64,
{
    format!("{:x}", Sha256::digest(bytes))
}

/// An identifier that is already a digest.
pub open spec fn opaque_id(id: Seq<char>) -> bool {
    text::starts_with(id, "run-"@) && id.len() == 68 && hex(id.skip(4))
}

/// A one-way opaque identifier preserves reproducibility without publishing the wall clock.
pub open spec fn clean_run_id(id: Seq<char>) -> Seq<char> {
    if opaque_id(id) {
        id
    } else {
        "run-"@ + sha256_hex(vstd::utf8::encode_utf8(id))
    }
}

pub open spec fn or_unknown(value: Option<Seq<char>>) -> Seq<char> {
    match value {
        Some(v) => v,
        None => "unknown"@,
    }
}

pub open spec fn clean_os(os: Seq<char>) -> Seq<char> {
    if os == "linux"@ || os == "macos"@ {
        os
    } else {
        "unknown"@
    }
}

pub open spec fn clean_architecture(arch: Seq<char>) -> Seq<char> {
    if arch == "x86_64"@ || arch == "aarch64"@ || arch == "x86"@ || arch == "arm"@ {
        arch
    } else {
        "unknown"@
    }
}

/// The name of the operating system's kernel.
pub open spec fn kernel_name(os: Seq<char>) -> Seq<char> {
    if os == "macos"@ {
        "Darwin"@
    } else if os == "linux"@ {
        "Linux"@
    } else {
        "unknown"@
    }
}

/// The kernel's name and the release number in the second word.
pub open spec fn clean_kernel(os: Seq<char>, kernel: Seq<char>) -> Seq<char> {
    let words = text::words(kernel);
    let number = if words.len() > 1 {
        release(words[1])
    } else {
        None
    };
    kernel_name(os) + " "@ + or_unknown(number)
}

pub open spec fn clean_rustc(rustc: Option<Seq<char>>) -> Option<Seq<char>> {
    match rustc {
        Some(v) => match text::after_prefix(v, "rustc "@) {
            Some(rest) => match release(rest) {
                Some(number) => Some("rustc "@ + number),
                None => None,
            },
            None => None,
        },
        None => None,
    }
}

/// The tick resolution that the text gives behind its first opening parenthesis.
pub open spec fn ticks(source: Seq<char>) -> Option<nat> {
    let parts = text::fields(source, '(');
    if parts.len() > 1 && text::words(parts[1]).len() > 0 {
        decimal::numeral_within(text::words(parts[1])[0], u32::MAX as nat)
    } else {
        None
    }
}

/// The measured tick resolution, not arbitrary suffix text from imported reports.
pub open spec fn clean_cpu_source(source: Seq<char>) -> Seq<char> {
    if text::starts_with(source, "/proc/<pid>/stat"@) {
        match ticks(source) {
            Some(n) => "/proc/<pid>/stat ("@ + decimal::decimal(n) + TICKS_SUFFIX@,
            None => PROC_TIME@,
        }
    } else if text::starts_with(source, "proc cumulative"@) {
        PROC_TIME@
    } else if text::starts_with(source, "ps "@) {
        PS_TIME@
    } else {
        "unknown"@
    }
}

pub open spec fn clean_host(h: HostInfoModel) -> HostInfoModel {
    let os = clean_os(h.os);
    HostInfoModel {
        os,
        architecture: clean_architecture(h.architecture),
        kernel: clean_kernel(os, h.kernel),
        hostname: "host"@,
        logical_cpus: h.logical_cpus,
        rustc: clean_rustc(h.rustc),
        wsl: h.wsl,
        git_dirty_policy: DIRTY_POLICY@,
        cpu_time_source: clean_cpu_source(h.cpu_time_source),
    }
}

pub open spec fn known_profile(name: Seq<char>) -> bool {
    name == "smoke"@ || name == "standard"@ || name == "marketing"@
}

pub open spec fn workload(p: ProfileRecordModel) -> Seq<char> {
    "POSIX shell, "@ + decimal::decimal(p.terminal_cols as nat) + "x"@ + decimal::decimal(
        p.terminal_rows as nat,
    ) + ", "@ + decimal::decimal(p.output_lines as nat) + " deterministic output lines"@
}

/// The same text, `count` times.
pub open spec fn repeated(line: Seq<char>, count: nat) -> Seq<Seq<char>> {
    Seq::new(count, |i: int| line)
}

pub open spec fn fairness_notes() -> Seq<Seq<char>> {
    seq![WORKLOAD_NOTE@, ORDER_NOTE@, PRODUCT_NOTE@, PRIVACY_NOTE@]
}

/// The licenses that may be named.
pub open spec fn known_license(value: Seq<char>) -> bool {
    ||| value == "MIT"@
    ||| value == "ISC"@
    ||| value == "Apache-2.0"@
    ||| value == "MIT OR Apache-2.0"@
    ||| value == "BSD-2-Clause"@
    ||| value == "BSD-3-Clause"@
    ||| value == "AGPL-3.0-or-later"@
    ||| value == "GPL-3.0-or-later"@
}

/// The criteria of the rubric.
pub open spec fn criterion(category: Seq<char>, name: Seq<char>) -> bool {
    if category == "security"@ {
        ||| name == "Memory-safety boundary"@
        ||| name == "Local IPC access control"@
        ||| name == "Untrusted protocol input bounds"@
        ||| name == "Crash-safe persistence"@
        ||| name == "Update integrity"@
        ||| name == "Extension trust boundary"@
        ||| name == "Remote exposure and authentication"@
        ||| name == "Child-process containment"@
    } else if category == "privacy"@ {
        ||| name == "Telemetry and analytics"@
        ||| name == "Default outbound network activity"@
        ||| name == "Local data retention"@
        ||| name == "Clipboard and host-data access"@
        ||| name == "Remote data path"@
        ||| name == "Network controls"@
    } else {
        false
    }
}

/// The findings whose criterion is one of the rubric's, without their free text.
pub open spec fn clean_findings(list: Seq<AssuranceFindingModel>) -> Seq<AssuranceFindingModel>
    decreases list.len(),
{
    if list.len() == 0 {
        Seq::empty()
    } else {
        let front = clean_findings(list.drop_last());
        let last = list.last();
        if criterion(last.category, last.criterion) {
            front.push(
                AssuranceFindingModel { summary: RATING@, evidence: Seq::empty(), ..last },
            )
        } else {
            front
        }
    }
}

/// The named values that may be published.
pub open spec fn safe_pairs(list: Seq<(Seq<char>, Seq<char>)>) -> Seq<(Seq<char>, Seq<char>)>
    decreases list.len(),
{
    if list.len() == 0 {
        Seq::empty()
    } else {
        let front = safe_pairs(list.drop_last());
        if safe(list.last().0, list.last().1) {
            front.push(list.last())
        } else {
            front
        }
    }
}

pub open spec fn status_note(status: BenchmarkStatus) -> Seq<char> {
    match status {
        BenchmarkStatus::Measured => MEASURED_NOTE@,
        BenchmarkStatus::Failed => FAILED_NOTE@,
        BenchmarkStatus::Skipped => SKIPPED_NOTE@,
    }
}

pub open spec fn clean_benchmark(b: BenchmarkResultModel) -> BenchmarkResultModel {
    BenchmarkResultModel { note: status_note(b.status), metadata: safe_pairs(b.metadata), ..b }
}

pub open spec fn clean_source(s: SourceInfoModel, id: Seq<char>) -> SourceInfoModel {
    SourceInfoModel {
        path: "<"@ + id + "-source>"@,
        commit: s.commit,
        commit_date: None,
        dirty: s.dirty,
        package_version: match s.package_version {
            Some(v) => release(v),
            None => None,
        },
        license: match s.license {
            Some(v) => if known_license(v) {
                Some(v)
            } else {
                None
            },
            None => None,
        },
    }
}

/// The contender under its alias.
pub open spec fn clean_contender(c: ContenderResultModel, id: Seq<char>) -> ContenderResultModel {
    ContenderResultModel {
        id,
        display_name: id,
        adapter: c.adapter,
        binary: ArtifactInfoModel {
            path: "<"@ + id + "-binary>"@,
            bytes: c.binary.bytes,
            version_output: product_release(c.adapter, c.binary.version_output),
            sha256: c.binary.sha256,
        },
        source: clean_source(c.source, id),
        static_analysis: StaticAnalysisModel { notes: seq![STATIC_NOTE@], ..c.static_analysis },
        assurance: clean_findings(c.assurance),
        benchmarks: c.benchmarks.map_values(|b: BenchmarkResultModel| clean_benchmark(b)),
        errors: repeated(SCENARIO_FAILED@, c.errors.len()),
    }
}

/// The first benchmark that cannot be published, among the first `upto`.
pub open spec fn benchmark_fault(list: Seq<BenchmarkResultModel>, upto: int) -> Option<Seq<char>>
    decreases upto,
{
    if upto <= 0 {
        None
    } else {
        match benchmark_fault(list, upto - 1) {
            Some(e) => Some(e),
            None => if !metric(list[upto - 1].name) {
                Some(UNSUPPORTED_METRIC@)
            } else if !unit(list[upto - 1].unit) {
                Some(UNSUPPORTED_UNIT@)
            } else {
                None
            },
        }
    }
}

/// Why the contender cannot be published.
pub open spec fn contender_fault(c: ContenderResultModel) -> Option<Seq<char>> {
    if !hex(c.binary.sha256) {
        Some(INVALID_DIGEST@)
    } else if c.source.commit matches Some(v) && !hex(v) {
        Some(INVALID_COMMIT@)
    } else {
        benchmark_fault(c.benchmarks, c.benchmarks.len() as int)
    }
}

/// The first contender that cannot be published, among the first `upto`.
pub open spec fn contenders_fault(list: Seq<ContenderResultModel>, upto: int) -> Option<Seq<char>>
    decreases upto,
{
    if upto <= 0 {
        None
    } else {
        match contenders_fault(list, upto - 1) {
            Some(e) => Some(e),
            None => contender_fault(list[upto - 1]),
        }
    }
}

/// The contenders under their aliases.
pub open spec fn clean_contenders(list: Seq<ContenderResultModel>) -> Seq<ContenderResultModel> {
    let given = aliases::assigned(aliases::lineup(list));
    list.map_values(
        |c: ContenderResultModel| clean_contender(c, aliases::alias_of(given, c.id).unwrap()),
    )
}

pub open spec fn clean_fairness(r: RunReportModel) -> FairnessRecordModel {
    let given = aliases::assigned(aliases::lineup(r.contenders));
    FairnessRecordModel {
        run_order: aliases::aliases_of(given, r.fairness.run_order),
        child_workload: workload(r.profile),
        notes: fairness_notes(),
        ..r.fairness
    }
}

/// The report with everything that is not allowed replaced or left out.
pub open spec fn clean(r: RunReportModel) -> RunReportModel {
    RunReportModel {
        schema_version: RESULT_SCHEMA_VERSION,
        tool_version: or_unknown(release(r.tool_version)),
        run_id: clean_run_id(r.run_id),
        started_unix_ms: 0,
        host: clean_host(r.host),
        profile: r.profile,
        fairness: clean_fairness(r),
        contenders: clean_contenders(r.contenders),
        warnings: repeated(WARNING@, r.warnings.len()),
    }
}

/// Why the report cannot be published.
pub open spec fn fault(r: RunReportModel) -> Option<Seq<char>> {
    let list = aliases::lineup(r.contenders);
    if !known_profile(r.profile.name) {
        Some(UNSUPPORTED_PROFILE@)
    } else {
        match aliases::fault(list, list.len() as int) {
            Some(e) => Some(e),
            None => contenders_fault(r.contenders, r.contenders.len() as int),
        }
    }
}

/// What publishing the report gives.
pub open spec fn sanitized(r: RunReportModel) -> Result<RunReportModel, Seq<char>> {
    match fault(r) {
        Some(e) => Err(e),
        None => Ok(clean(r)),
    }
}

// ---------------------------------------------------------------------------------------------
// Sanitizing
// ---------------------------------------------------------------------------------------------

fn or_unknown_text(value: Option<String>) -> (r: String)
    ensures
        r@ == or_unknown(text::opt_text(value)),
{
    match value {
        Some(v) => v,
        None => "unknown".to_owned(),
    }
}

fn run_id_of(id: &str) -> (r: String)
    ensures
        r@ == clean_run_id(id@),
        opaque_id(r@),
{
    let chars: Vec<char> = text::chars_of(id);
    if text::has_prefix(id, "run-") && chars.len() == 68 && is_hex(&chars, 4) {
        return id.to_owned();
    }
    let digest: String = digest_hex(id.as_bytes());
    let r: String = text::cat("run-".to_owned(), digest.as_str());
    proof {
        reveal_strlit("run-");
        assert(r@.take(4) =~= "run-"@);
        assert(r@.skip(4) =~= digest@);
    }
    r
}

fn kernel_of(os: &str, kernel: &str) -> (r: String)
    ensures
        r@ == clean_kernel(os@, kernel@),
{
    let words: Vec<String> = text::words_of(kernel);
    let name: &str = if text::same(os, "macos") {
        "Darwin"
    } else if text::same(os, "linux") {
        "Linux"
    } else {
        "unknown"
    };
    assert(words@.len() > 1 ==> text::words(kernel@)[1] == words@[1]@);
    let number: Option<String> = if words.len() > 1 {
        version(words[1].as_str())
    } else {
        None
    };
    text::cat(text::cat(name.to_owned(), " "), or_unknown_text(number).as_str())
}

fn rustc_of(rustc: &Option<String>) -> (r: Option<String>)
    ensures
        text::opt_text(r) == clean_rustc(text::opt_text(*rustc)),
{
    match rustc {
        Some(v) => match text::strip_prefix(v.as_str(), "rustc ") {
            Some(rest) => match version(rest.as_str()) {
                Some(number) => Some(text::cat("rustc ".to_owned(), number.as_str())),
                None => None,
            },
            None => None,
        },
        None => None,
    }
}

fn ticks_of(source: &str) -> (r: Option<u32>)
    ensures
        match r {
            Some(n) => ticks(source@) == Some(n as nat),
            None => ticks(source@) is None,
        },
{
    let parts: Vec<String> = text::fields_of(source, '(');
    if parts.len() < 2 {
        return None;
    }
    assert(text::fields(source@, '(')[1] == parts@[1]@);
    let words: Vec<String> = text::words_of(parts[1].as_str());
    if words.len() == 0 {
        return None;
    }
    assert(text::words(parts@[1]@)[0] == words@[0]@);
    decimal::parse_u32(words[0].as_str())
}

fn cpu_source_of(source: &str) -> (r: String)
    ensures
        r@ == clean_cpu_source(source@),
{
    if text::has_prefix(source, "/proc/<pid>/stat") {
        match ticks_of(source) {
            Some(n) => text::cat(
                text::cat(
                    "/proc/<pid>/stat (".to_owned(),
                    decimal::decimal_text(n as u64).as_str(),
                ),
                TICKS_SUFFIX,
            ),
            None => PROC_TIME.to_owned(),
        }
    } else if text::has_prefix(source, "proc cumulative") {
        PROC_TIME.to_owned()
    } else if text::has_prefix(source, "ps ") {
        PS_TIME.to_owned()
    } else {
        "unknown".to_owned()
    }
}

fn host_of(h: &HostInfo) -> (r: HostInfo)
    ensures
        r@ == clean_host(h@),
{
    let os: String = if text::same(h.os.as_str(), "linux") || text::same(h.os.as_str(), "macos") {
        h.os.clone()
    } else {
        "unknown".to_owned()
    };
    let arch: &str = h.architecture.as_str();
    let architecture: String = if text::same(arch, "x86_64") || text::same(arch, "aarch64")
        || text::same(arch, "x86") || text::same(arch, "arm") {
        h.architecture.clone()
    } else {
        "unknown".to_owned()
    };
    let kernel: String = kernel_of(os.as_str(), h.kernel.as_str());
    HostInfo {
        os,
        architecture,
        kernel,
        hostname: "host".to_owned(),
        logical_cpus: h.logical_cpus,
        rustc: rustc_of(&h.rustc),
        wsl: h.wsl,
        git_dirty_policy: DIRTY_POLICY.to_owned(),
        cpu_time_source: cpu_source_of(h.cpu_time_source.as_str()),
    }
}

pub fn repeat_text(line: &str, count: usize) -> (r: Vec<String>)
    ensures
        text::texts(r@) == repeated(line@, count as nat),
{
    let mut out: Vec<String> = Vec::new();
    let mut i: usize = 0;
    while i < count
        invariant
            i <= count,
            text::texts(out@) =~= repeated(line@, i as nat),
        decreases count - i,
    {
        let ghost before = text::texts(out@);
        out.push(line.to_owned());
        assert(text::texts(out@) =~= before.push(line@));
        i = i + 1;
    }
    out
}

fn one_text(line: &str) -> (r: Vec<String>)
    ensures
        text::texts(r@) == seq![line@],
{
    let mut out: Vec<String> = Vec::new();
    out.push(line.to_owned());
    assert(text::texts(out@) =~= seq![line@]);
    out
}

fn is_license(value: &str) -> (r: bool)
    ensures
        r == known_license(value@),
{
    text::same(value, "MIT") || text::same(value, "ISC") || text::same(value, "Apache-2.0")
        || text::same(value, "MIT OR Apache-2.0") || text::same(value, "BSD-2-Clause")
        || text::same(value, "BSD-3-Clause") || text::same(value, "AGPL-3.0-or-later")
        || text::same(value, "GPL-3.0-or-later")
}

fn is_criterion(category: &str, name: &str) -> (r: bool)
    ensures
        r == criterion(category@, name@),
{
    if text::same(category, "security") {
        text::same(name, "Memory-safety boundary") || text::same(name, "Local IPC access control")
            || text::same(name, "Untrusted protocol input bounds") || text::same(
            name,
            "Crash-safe persistence",
        ) || text::same(name, "Update integrity") || text::same(name, "Extension trust boundary")
            || text::same(name, "Remote exposure and authentication") || text::same(
            name,
            "Child-process containment",
        )
    } else if text::same(category, "privacy") {
        text::same(name, "Telemetry and analytics") || text::same(
            name,
            "Default outbound network activity",
        ) || text::same(name, "Local data retention") || text::same(
            name,
            "Clipboard and host-data access",
        ) || text::same(name, "Remote data path") || text::same(name, "Network controls")
    } else {
        false
    }
}

fn findings_of(list: &Vec<AssuranceFinding>) -> (r: Vec<AssuranceFinding>)
    ensures
        model::finding_views(r@) == clean_findings(model::finding_views(list@)),
{
    let ghost all = model::finding_views(list@);
    let mut out: Vec<AssuranceFinding> = Vec::new();
    let mut i: usize = 0;
    assert(all.take(0) =~= Seq::empty());
    assert(model::finding_views(out@) =~= Seq::empty());
    while i < list.len()
        invariant
            i <= list@.len(),
            all == model::finding_views(list@),
            model::finding_views(out@) == clean_findings(all.take(i as int)),
        decreases list@.len() - i,
    {
        let a: &AssuranceFinding = &list[i];
        let ghost before = model::finding_views(out@);
        assert(all[i as int] == a@);
        assert(all.take(i + 1).drop_last() =~= all.take(i as int));
        assert(all.take(i + 1).last() == a@);
        if is_criterion(a.category.as_str(), a.criterion.as_str()) {
            let kept: AssuranceFinding = AssuranceFinding {
                category: a.category.clone(),
                criterion: a.criterion.clone(),
                status: a.status,
                weight: a.weight,
                summary: RATING.to_owned(),
                evidence: Vec::new(),
            };
            assert(kept@.evidence =~= Seq::empty());
            out.push(kept);
            assert(model::finding_views(out@) =~= before.push(kept@));
        }
        i = i + 1;
    }
    assert(all.take(i as int) =~= all);
    out
}

proof fn lemma_safe_pairs_from(list: Seq<(Seq<char>, Seq<char>)>)
    ensures
        forall|k: int|
            0 <= k < safe_pairs(list).len() ==> exists|i: int|
                0 <= i < list.len() && list[i] == #[trigger] safe_pairs(list)[k],
    decreases list.len(),
{
    if list.len() > 0 {
        let front = list.drop_last();
        lemma_safe_pairs_from(front);
        assert forall|k: int| 0 <= k < safe_pairs(list).len() implies exists|i: int|
            0 <= i < list.len() && list[i] == #[trigger] safe_pairs(list)[k] by {
            if k < safe_pairs(front).len() {
                assert(safe_pairs(list)[k] == safe_pairs(front)[k]);
                let i = choose|i: int| 0 <= i < front.len() && front[i] == safe_pairs(front)[k];
                assert(list[i] == safe_pairs(list)[k]);
            } else {
                assert(list[list.len() - 1] == safe_pairs(list)[k]);
            }
        }
    }
}

fn metadata_of(list: &TextMap) -> (r: TextMap)
    ensures
        r@ == safe_pairs(list@),
{
    let total: usize = list.len();
    let ghost all = list@;
    let mut out: TextMap = TextMap::new();
    let mut i: usize = 0;
    assert(out@ =~= safe_pairs(all.take(0)));
    while i < total
        invariant
            i <= total,
            total == all.len(),
            all == list@,
            textmap::ascending(all),
            out@ == safe_pairs(all.take(i as int)),
        decreases total - i,
    {
        assert(all.take(i + 1).drop_last() =~= all.take(i as int));
        assert(all.take(i + 1).last() == all[i as int]);
        if safe_metadata(list.key(i), list.value(i)) {
            proof {
                lemma_safe_pairs_from(all.take(i as int));
                if out@.len() > 0 {
                    let last = out@.len() - 1;
                    let k = choose|k: int|
                        0 <= k < i && all.take(i as int)[k] == safe_pairs(all.take(i as int))[last];
                    assert(all[k] == out@[last]);
                    assert(text::before(all[k].0, all[i as int].0));
                }
            }
            out.append(list.key(i), list.value(i));
        }
        i = i + 1;
    }
    assert(all.take(i as int) =~= all);
    out
}

fn benchmarks_of(list: &Vec<BenchmarkResult>) -> (r: Result<Vec<BenchmarkResult>, String>)
    ensures
        ({
            let all = model::benchmark_views(list@);
            match r {
                Ok(out) => benchmark_fault(all, all.len() as int) is None && model::benchmark_views(
                    out@,
                ) == all.map_values(|b: BenchmarkResultModel| clean_benchmark(b)),
                Err(e) => benchmark_fault(all, all.len() as int) == Some(e@),
            }
        }),
{
    let ghost all = model::benchmark_views(list@);
    let ghost cleaned = all.map_values(|b: BenchmarkResultModel| clean_benchmark(b));
    let mut out: Vec<BenchmarkResult> = Vec::new();
    let mut i: usize = 0;
    while i < list.len()
        invariant
            i <= list@.len(),
            all == model::benchmark_views(list@),
            cleaned == all.map_values(|b: BenchmarkResultModel| clean_benchmark(b)),
            benchmark_fault(all, i as int) is None,
            model::benchmark_views(out@) =~= cleaned.take(i as int),
        decreases list@.len() - i,
    {
        let b: &BenchmarkResult = &list[i];
        assert(all[i as int] == b@);
        if !known_metric(b.name.as_str()) {
            proof {
                lemma_benchmark_fault_stays(all, i + 1, all.len() as int);
            }
            return Err(UNSUPPORTED_METRIC.to_owned());
        }
        if !known_unit(b.unit.as_str()) {
            proof {
                lemma_benchmark_fault_stays(all, i + 1, all.len() as int);
            }
            return Err(UNSUPPORTED_UNIT.to_owned());
        }
        let note: &str = match b.status {
            BenchmarkStatus::Measured => MEASURED_NOTE,
            BenchmarkStatus::Failed => FAILED_NOTE,
            BenchmarkStatus::Skipped => SKIPPED_NOTE,
        };
        let kept: BenchmarkResult = BenchmarkResult {
            name: b.name.clone(),
            unit: b.unit.clone(),
            direction: b.direction,
            samples: model::clone_samples(&b.samples),
            summary: b.summary,
            status: b.status,
            note: note.to_owned(),
            metadata: metadata_of(&b.metadata),
        };
        let ghost before = model::benchmark_views(out@);
        assert(kept@ == clean_benchmark(b@));
        out.push(kept);
        assert(model::benchmark_views(out@) =~= before.push(kept@));
        i = i + 1;
    }
    assert(cleaned.take(i as int) =~= cleaned);
    Ok(out)
}

proof fn lemma_benchmark_fault_stays(list: Seq<BenchmarkResultModel>, i: int, upto: int)
    requires
        0 <= i <= upto,
        benchmark_fault(list, i) is Some,
    ensures
        benchmark_fault(list, upto) == benchmark_fault(list, i),
    decreases upto,
{
    if i < upto {
        lemma_benchmark_fault_stays(list, i, upto - 1);
    }
}

fn bracketed(id: &str, kind: &str) -> (r: String)
    ensures
        r@ == "<"@ + id@ + kind@,
{
    text::cat(text::cat("<".to_owned(), id), kind)
}

fn source_of(s: &SourceInfo, id: &str) -> (r: SourceInfo)
    ensures
        r@ == clean_source(s@, id@),
{
    let package_version: Option<String> = match &s.package_version {
        Some(v) => version(v.as_str()),
        None => None,
    };
    let license: Option<String> = match &s.license {
        Some(v) => if is_license(v.as_str()) {
            Some(v.clone())
        } else {
            None
        },
        None => None,
    };
    SourceInfo {
        path: bracketed(id, "-source>"),
        commit: text::clone_opt(&s.commit),
        commit_date: None,
        dirty: s.dirty,
        package_version,
        license,
    }
}

fn contender_of(c: &ContenderResult, id: String) -> (r: Result<ContenderResult, String>)
    ensures
        match r {
            Ok(out) => contender_fault(c@) is None && out@ == clean_contender(c@, id@),
            Err(e) => contender_fault(c@) == Some(e@),
        },
{
    if !is_hex_text(c.binary.sha256.as_str()) {
        return Err(INVALID_DIGEST.to_owned());
    }
    match &c.source.commit {
        Some(v) => {
            if !is_hex_text(v.as_str()) {
                return Err(INVALID_COMMIT.to_owned());
            }
        },
        None => {},
    }
    let benchmarks: Vec<BenchmarkResult> = match benchmarks_of(&c.benchmarks) {
        Ok(out) => out,
        Err(e) => {
            return Err(e);
        },
    };
    let analysis: StaticAnalysis = StaticAnalysis {
        notes: one_text(STATIC_NOTE),
        ..c.static_analysis.clone()
    };
    let out: ContenderResult = ContenderResult {
        display_name: id.clone(),
        adapter: c.adapter.clone(),
        binary: ArtifactInfo {
            path: bracketed(id.as_str(), "-binary>"),
            bytes: c.binary.bytes,
            version_output: product_version(c.adapter.as_str(), c.binary.version_output.as_str()),
            sha256: c.binary.sha256.clone(),
        },
        source: source_of(&c.source, id.as_str()),
        static_analysis: analysis,
        assurance: findings_of(&c.assurance),
        benchmarks,
        errors: repeat_text(SCENARIO_FAILED, c.errors.len()),
        id,
    };
    Ok(out)
}

proof fn lemma_contenders_fault_stays(list: Seq<ContenderResultModel>, i: int, upto: int)
    requires
        0 <= i <= upto,
        contenders_fault(list, i) is Some,
    ensures
        contenders_fault(list, upto) == contenders_fault(list, i),
    decreases upto,
{
    if i < upto {
        lemma_contenders_fault_stays(list, i, upto - 1);
    }
}

fn contenders_of(list: &Vec<ContenderResult>, given: &Vec<(String, String)>) -> (r: Result<
    Vec<ContenderResult>,
    String,
>)
    requires
        textmap::pairs(given@) == aliases::assigned(
            aliases::lineup(model::contender_views(list@)),
        ),
    ensures
        ({
            let all = model::contender_views(list@);
            match r {
                Ok(out) => contenders_fault(all, all.len() as int) is None
                    && model::contender_views(out@) == clean_contenders(all),
                Err(e) => contenders_fault(all, all.len() as int) == Some(e@),
            }
        }),
{
    let ghost all = model::contender_views(list@);
    let ghost cleaned = clean_contenders(all);
    let mut out: Vec<ContenderResult> = Vec::new();
    let mut i: usize = 0;
    while i < list.len()
        invariant
            i <= list@.len(),
            all == model::contender_views(list@),
            cleaned == clean_contenders(all),
            textmap::pairs(given@) == aliases::assigned(aliases::lineup(all)),
            contenders_fault(all, i as int) is None,
            model::contender_views(out@) =~= cleaned.take(i as int),
        decreases list@.len() - i,
    {
        let c: &ContenderResult = &list[i];
        assert(all[i as int] == c@);
        proof {
            aliases::lemma_every_contender_has_an_alias(all, i as int);
        }
        let id: String = match aliases::lookup(given, c.id.as_str()) {
            Some(id) => id,
            None => c.id.clone(),
        };
        match contender_of(c, id) {
            Ok(kept) => {
                let ghost before = model::contender_views(out@);
                assert(kept@ == cleaned[i as int]);
                out.push(kept);
                assert(model::contender_views(out@) =~= before.push(kept@));
            },
            Err(e) => {
                proof {
                    lemma_contenders_fault_stays(all, i + 1, all.len() as int);
                }
                return Err(e);
            },
        }
        i = i + 1;
    }
    assert(cleaned.take(i as int) =~= cleaned);
    Ok(out)
}

fn fairness_of(r: &RunReport, given: &Vec<(String, String)>) -> (f: FairnessRecord)
    requires
        textmap::pairs(given@) == aliases::assigned(aliases::lineup(r@.contenders)),
    ensures
        f@ == clean_fairness(r@),
{
    let p: &model::ProfileRecord = &r.profile;
    let geometry: String = text::cat(
        text::cat(
            text::cat(
                "POSIX shell, ".to_owned(),
                decimal::decimal_text(p.terminal_cols as u64).as_str(),
            ),
            "x",
        ),
        decimal::decimal_text(p.terminal_rows as u64).as_str(),
    );
    let child_workload: String = text::cat(
        text::cat(
            text::cat(geometry, ", "),
            decimal::decimal_text(p.output_lines as u64).as_str(),
        ),
        " deterministic output lines",
    );
    let mut notes: Vec<String> = Vec::new();
    notes.push(WORKLOAD_NOTE.to_owned());
    notes.push(ORDER_NOTE.to_owned());
    notes.push(PRODUCT_NOTE.to_owned());
    notes.push(PRIVACY_NOTE.to_owned());
    assert(text::texts(notes@) =~= fairness_notes());
    FairnessRecord {
        run_order: aliases::lookup_all(given, &r.fairness.run_order),
        release_binaries_required: r.fairness.release_binaries_required,
        network_disabled_during_benchmarks: r.fairness.network_disabled_during_benchmarks,
        isolated_home_and_xdg: r.fairness.isolated_home_and_xdg,
        identical_terminal_geometry: r.fairness.identical_terminal_geometry,
        child_workload,
        notes,
    }
}

/// Produce a new report without identities, paths, arbitrary text, or terminal contents.
/// Numeric measurements, statuses, source commits and artifact hashes remain unchanged.
/// Repeated application is idempotent. Unknown fields/metrics fail closed or are omitted.
pub fn sanitize(report: &RunReport) -> (r: Result<RunReport, String>)
    ensures
        match r {
            Ok(out) => sanitized(report@) == Ok::<RunReportModel, Seq<char>>(out@) && sanitized(
                out@,
            ) == Ok::<RunReportModel, Seq<char>>(out@) && opaque_id(out@.run_id),
            Err(e) => sanitized(report@) == Err::<RunReportModel, Seq<char>>(e@),
        },
{
    let name: &str = report.profile.name.as_str();
    if !(text::same(name, "smoke") || text::same(name, "standard") || text::same(
        name,
        "marketing",
    )) {
        return Err(UNSUPPORTED_PROFILE.to_owned());
    }
    let given: Vec<(String, String)> = match aliases::assign(&report.contenders) {
        Ok(given) => given,
        Err(e) => {
            return Err(e);
        },
    };
    let contenders: Vec<ContenderResult> = match contenders_of(&report.contenders, &given) {
        Ok(out) => out,
        Err(e) => {
            return Err(e);
        },
    };
    let out: RunReport = RunReport {
        schema_version: RESULT_SCHEMA_VERSION,
        tool_version: or_unknown_text(version(report.tool_version.as_str())),
        run_id: run_id_of(report.run_id.as_str()),
        started_unix_ms: 0,
        host: host_of(&report.host),
        profile: report.profile.clone(),
        fairness: fairness_of(report, &given),
        contenders,
        warnings: repeat_text(WARNING, report.warnings.len()),
    };
    let count: usize = report.contenders.len();
    proof {
        assert(report@.contenders.len() == count);
        lemma_sanitized_stays(report@);
    }
    Ok(out)
}

// ---------------------------------------------------------------------------------------------
// Laws
// ---------------------------------------------------------------------------------------------

/// A release number that was kept is kept as it is.
pub proof fn law_releases_stay(value: Seq<char>)
    ensures
        release(value) matches Some(v) ==> text::is_word(v) && word_release(v) == Some(v)
            && release(v) == Some(v),
{
    let words = text::words(value);
    if let Some(v) = release(value) {
        text::lemma_words_are_words(value);
        assert(text::is_word(words[0]));
        lemma_word_release_stays(words[0]);
        text::lemma_one_word(v);
    }
}

proof fn lemma_word_release_stays(word: Seq<char>)
    requires
        text::is_word(word),
        word_release(word) is Some,
    ensures
        text::is_word(word_release(word).unwrap()),
        word_release(word_release(word).unwrap()) == word_release(word),
{
    let v = word_release(word).unwrap();
    let p = is_a_numeric();
    let n = text::run_len(word, p);
    text::lemma_run_len(word, p);
    let number = word.take(n as int);
    reveal_strlit("-redacted");
    assert forall|i: int| 0 <= i < number.len() implies !text::white(#[trigger] number[i]) by {
        assert(number[i] == word[i]);
    }
    assert(n > 0) by {
        if n == 0 {
            assert(number =~= Seq::empty());
            assert(text::fields(number, '.') =~= seq![number]);
        }
    }
    if v != word {
        assert forall|i: int| 0 <= i < n implies p(#[trigger] v[i]) by {
            assert(v[i] == word[i]);
            assert(p(word[i]));
        }
        text::lemma_run_len_is(v, p, n);
        assert(v.take(n as int) =~= number);
        assert(v =~= number || v.skip(n as int) =~= "-redacted"@);
    }
}

proof fn lemma_no_release_in_unknown()
    ensures
        text::is_word("unknown"@),
        release("unknown"@) is None,
{
    let w = "unknown"@;
    reveal_strlit("unknown");
    text::lemma_one_word(w);
    text::lemma_run_len_is(w, is_a_numeric(), 0);
    assert(w.take(0) =~= Seq::empty());
    assert(text::fields(Seq::<char>::empty(), '.') =~= seq![Seq::<char>::empty()]);
}

proof fn lemma_or_unknown_stays(value: Option<Seq<char>>)
    requires
        value matches Some(v) ==> text::is_word(v) && release(v) == Some(v),
    ensures
        text::is_word(or_unknown(value)),
        release(or_unknown(value)) == value,
        or_unknown(release(or_unknown(value))) == or_unknown(value),
{
    lemma_no_release_in_unknown();
}

proof fn lemma_kernel_stays(os: Seq<char>, kernel: Seq<char>)
    ensures
        clean_kernel(os, clean_kernel(os, kernel)) == clean_kernel(os, kernel),
{
    let words = text::words(kernel);
    let number = if words.len() > 1 {
        release(words[1])
    } else {
        None
    };
    if words.len() > 1 {
        law_releases_stay(words[1]);
    }
    lemma_or_unknown_stays(number);
    lemma_no_release_in_unknown();
    reveal_strlit("Darwin");
    reveal_strlit("Linux");
    text::lemma_two_words(kernel_name(os), or_unknown(number));
}

proof fn lemma_product_release_stays(adapter: Seq<char>, output: Seq<char>)
    ensures
        product_release(adapter, product_release(adapter, output)) == product_release(
            adapter,
            output,
        ),
{
    let words = text::words(output);
    let number = if words.len() > 1 && words[0] == product(adapter) {
        release(words[1])
    } else {
        None
    };
    if words.len() > 1 {
        law_releases_stay(words[1]);
    }
    lemma_or_unknown_stays(number);
    lemma_no_release_in_unknown();
    reveal_strlit("uniterm");
    reveal_strlit("herdr");
    reveal_strlit("tmux");
    text::lemma_two_words(product(adapter), or_unknown(number));
}

proof fn lemma_rustc_stays(rustc: Option<Seq<char>>)
    ensures
        clean_rustc(clean_rustc(rustc)) == clean_rustc(rustc),
{
    if let Some(v) = rustc {
        if let Some(rest) = text::after_prefix(v, "rustc "@) {
            law_releases_stay(rest);
            if let Some(number) = release(rest) {
                reveal_strlit("rustc ");
                let kept = "rustc "@ + number;
                assert(kept.take(6) =~= "rustc "@);
                assert(kept.skip(6) =~= number);
            }
        }
    }
}

proof fn lemma_ticks_stay(n: nat)
    requires
        n <= u32::MAX,
    ensures
        ticks("/proc/<pid>/stat ("@ + decimal::decimal(n) + TICKS_SUFFIX@) == Some(n),
{
    let head = "/proc/<pid>/stat ("@;
    let digits = decimal::decimal(n);
    let tail = digits + TICKS_SUFFIX@;
    let source = head + digits + TICKS_SUFFIX@;
    reveal_strlit("/proc/<pid>/stat (");
    reveal_strlit(" ms ticks); ps supplies RSS and process ancestry");
    decimal::lemma_decimal(n);
    let p = text::other_than('(');
    assert forall|i: int| 0 <= i < 17 implies p(#[trigger] source[i]) by {
        assert(source[i] == head[i]);
    }
    assert(source[17] == head[17]);
    text::lemma_run_len_is(source, p, 17);
    assert(source.skip(18) =~= tail);
    assert forall|i: int| 0 <= i < tail.len() implies p(#[trigger] tail[i]) by {
        if i < digits.len() {
            assert(text::digit(digits[i]));
        } else {
            assert(tail[i] == TICKS_SUFFIX@[i - digits.len()]);
        }
    }
    text::lemma_run_len_is(tail, p, tail.len());
    assert(text::fields(tail, '(') =~= seq![tail]);
    assert(text::fields(source, '(')[1] == tail);
    assert forall|i: int| 0 <= i < digits.len() implies !text::white(#[trigger] digits[i]) by {
        assert(text::digit(digits[i]));
    }
    text::lemma_first_word(digits, TICKS_SUFFIX@);
}

proof fn lemma_cpu_source_stays(source: Seq<char>)
    ensures
        clean_cpu_source(clean_cpu_source(source)) == clean_cpu_source(source),
{
    reveal_strlit("/proc/<pid>/stat");
    reveal_strlit("/proc/<pid>/stat (");
    reveal_strlit("proc cumulative");
    reveal_strlit("ps ");
    reveal_strlit("unknown");
    reveal_strlit("proc cumulative CPU time");
    reveal_strlit("ps cumulative CPU time");
    let kept = clean_cpu_source(source);
    if text::starts_with(source, "/proc/<pid>/stat"@) && ticks(source) is Some {
        let n = ticks(source).unwrap();
        lemma_ticks_stay(n);
        assert(kept.take(16) =~= "/proc/<pid>/stat"@);
    } else if kept == PROC_TIME@ {
        assert(kept.take(15) =~= "proc cumulative"@);
        assert(kept.take(16)[0] != "/proc/<pid>/stat"@[0]);
    } else if kept == PS_TIME@ {
        assert(kept.take(3) =~= "ps "@);
        assert(kept.take(15)[1] != "proc cumulative"@[1]);
        assert(kept.take(16)[0] != "/proc/<pid>/stat"@[0]);
    } else {
        assert(kept.take(3)[0] != "ps "@[0]);
    }
}

proof fn lemma_host_stays(h: HostInfoModel)
    ensures
        clean_host(clean_host(h)) == clean_host(h),
{
    lemma_kernel_stays(clean_os(h.os), h.kernel);
    lemma_rustc_stays(h.rustc);
    lemma_cpu_source_stays(h.cpu_time_source);
}

proof fn lemma_findings_stay(list: Seq<AssuranceFindingModel>)
    ensures
        clean_findings(clean_findings(list)) == clean_findings(list),
    decreases list.len(),
{
    if list.len() > 0 {
        lemma_findings_stay(list.drop_last());
        let front = clean_findings(list.drop_last());
        let last = list.last();
        if criterion(last.category, last.criterion) {
            let kept = AssuranceFindingModel { summary: RATING@, evidence: Seq::empty(), ..last };
            assert(front.push(kept).drop_last() =~= front);
        }
    }
}

proof fn lemma_safe_pairs_stay(list: Seq<(Seq<char>, Seq<char>)>)
    ensures
        safe_pairs(safe_pairs(list)) == safe_pairs(list),
    decreases list.len(),
{
    if list.len() > 0 {
        lemma_safe_pairs_stay(list.drop_last());
        let front = safe_pairs(list.drop_last());
        if safe(list.last().0, list.last().1) {
            assert(front.push(list.last()).drop_last() =~= front);
        }
    }
}

proof fn lemma_contender_stays(c: ContenderResultModel, id: Seq<char>)
    ensures
        clean_contender(clean_contender(c, id), id) == clean_contender(c, id),
{
    let kept = clean_contender(c, id);
    let again = clean_contender(kept, id);
    lemma_product_release_stays(c.adapter, c.binary.version_output);
    lemma_findings_stay(c.assurance);
    if let Some(v) = c.source.package_version {
        law_releases_stay(v);
    }
    assert forall|i: int| 0 <= i < c.benchmarks.len() implies clean_benchmark(kept.benchmarks[i])
        == #[trigger] kept.benchmarks[i] by {
        lemma_safe_pairs_stay(c.benchmarks[i].metadata);
    }
    assert(again.benchmarks =~= kept.benchmarks);
    assert(again.errors =~= kept.errors);
    assert(again =~= kept);
}

proof fn lemma_contender_fault_stays_none(c: ContenderResultModel, id: Seq<char>)
    requires
        contender_fault(c) is None,
    ensures
        contender_fault(clean_contender(c, id)) is None,
{
    lemma_benchmark_names(
        c.benchmarks,
        clean_contender(c, id).benchmarks,
        c.benchmarks.len() as int,
    );
}

proof fn lemma_benchmark_names(
    a: Seq<BenchmarkResultModel>,
    b: Seq<BenchmarkResultModel>,
    upto: int,
)
    requires
        upto <= a.len(),
        a.len() == b.len(),
        forall|i: int|
            0 <= i < a.len() ==> (#[trigger] a[i]).name == (#[trigger] b[i]).name && a[i].unit
                == b[i].unit,
    ensures
        benchmark_fault(a, upto) == benchmark_fault(b, upto),
    decreases upto,
{
    if upto > 0 {
        lemma_benchmark_names(a, b, upto - 1);
        assert(a[upto - 1].name == b[upto - 1].name);
    }
}

proof fn lemma_contenders_fault_none(
    a: Seq<ContenderResultModel>,
    b: Seq<ContenderResultModel>,
    upto: int,
)
    requires
        upto <= a.len(),
        a.len() == b.len(),
        forall|i: int|
            0 <= i < a.len() ==> #[trigger] b[i] == clean_contender(a[i], b[i].id),
        contenders_fault(a, upto) is None,
    ensures
        contenders_fault(b, upto) is None,
    decreases upto,
{
    if upto > 0 {
        lemma_contenders_fault_none(a, b, upto - 1);
        assert(b[upto - 1] == clean_contender(a[upto - 1], b[upto - 1].id));
        lemma_contender_fault_stays_none(a[upto - 1], b[upto - 1].id);
    }
}

/// Publishing what was published changes nothing. The identifier of the run is a digest.
pub proof fn lemma_sanitized_stays(r: RunReportModel)
    requires
        r.contenders.len() <= usize::MAX,
        fault(r) is None,
        opaque_id(clean_run_id(r.run_id)),
    ensures
        sanitized(clean(r)) == Ok::<RunReportModel, Seq<char>>(clean(r)),
{
    let kept = clean(r);
    let again = clean(kept);
    let list = r.contenders;
    let given = aliases::assigned(aliases::lineup(list));
    let regiven = aliases::assigned(aliases::lineup(kept.contenders));
    assert forall|k: int| 0 <= k < list.len() implies aliases::alias_of(
        given,
        (#[trigger] list[k]).id,
    ) == Some(kept.contenders[k].id) && kept.contenders[k].adapter == list[k].adapter by {
        aliases::lemma_every_contender_has_an_alias(list, k);
    }
    aliases::law_aliases_stay(list, kept.contenders);
    assert forall|k: int| 0 <= k < list.len() implies #[trigger] kept.contenders[k]
        == clean_contender(list[k], kept.contenders[k].id) && again.contenders[k]
        == kept.contenders[k] by {
        let id = kept.contenders[k].id;
        assert(aliases::alias_of(given, list[k].id) == Some(id));
        assert(aliases::alias_of(regiven, id) == Some(id));
        lemma_contender_stays(list[k], id);
    }
    assert(again.contenders =~= kept.contenders);
    lemma_contenders_fault_none(list, kept.contenders, list.len() as int);
    aliases::lemma_aliases_kept(given, regiven, r.fairness.run_order);
    lemma_host_stays(r.host);
    law_releases_stay(r.tool_version);
    lemma_or_unknown_stays(release(r.tool_version));
    assert(again.warnings =~= kept.warnings);
    assert(again.host == kept.host);
    assert(again =~= kept);
}

/// Measurements, statuses, commits, hashes and workload settings pass through unchanged.
pub proof fn law_measurements_are_kept(r: RunReportModel, k: int, b: int)
    requires
        sanitized(r) is Ok,
        0 <= k < r.contenders.len(),
        0 <= b < r.contenders[k].benchmarks.len(),
    ensures
        ({
            let out = sanitized(r)->Ok_0;
            let (old_c, new_c) = (r.contenders[k], out.contenders[k]);
            let (old_b, new_b) = (old_c.benchmarks[b], new_c.benchmarks[b]);
            &&& out.contenders.len() == r.contenders.len()
            &&& out.profile == r.profile
            &&& new_c.benchmarks.len() == old_c.benchmarks.len()
            &&& new_c.adapter == old_c.adapter
            &&& new_c.binary.sha256 == old_c.binary.sha256
            &&& new_c.binary.bytes == old_c.binary.bytes
            &&& new_c.source.commit == old_c.source.commit
            &&& new_c.source.dirty == old_c.source.dirty
            &&& new_c.errors.len() == old_c.errors.len()
            &&& new_b.name == old_b.name
            &&& new_b.unit == old_b.unit
            &&& new_b.direction == old_b.direction
            &&& new_b.samples == old_b.samples
            &&& new_b.summary == old_b.summary
            &&& new_b.status == old_b.status
        }),
{
}

/// The contender without what an operator wrote about it.
pub open spec fn contender_without_text(c: ContenderResultModel) -> ContenderResultModel {
    ContenderResultModel {
        display_name: Seq::empty(),
        binary: ArtifactInfoModel { path: Seq::empty(), ..c.binary },
        source: SourceInfoModel { path: Seq::empty(), commit_date: None, ..c.source },
        static_analysis: StaticAnalysisModel { notes: Seq::empty(), ..c.static_analysis },
        assurance: c.assurance.map_values(
            |a: AssuranceFindingModel|
                AssuranceFindingModel { summary: Seq::empty(), evidence: Seq::empty(), ..a },
        ),
        benchmarks: c.benchmarks.map_values(
            |b: BenchmarkResultModel| BenchmarkResultModel { note: Seq::empty(), ..b },
        ),
        errors: repeated(Seq::empty(), c.errors.len()),
        ..c
    }
}

/// The report without host name, times, paths, titles, notes, rationales, warnings and errors.
pub open spec fn without_text(r: RunReportModel) -> RunReportModel {
    RunReportModel {
        schema_version: 0,
        started_unix_ms: 0,
        host: HostInfoModel { hostname: Seq::empty(), git_dirty_policy: Seq::empty(), ..r.host },
        fairness: FairnessRecordModel {
            child_workload: Seq::empty(),
            notes: Seq::empty(),
            ..r.fairness
        },
        contenders: r.contenders.map_values(|c: ContenderResultModel| contender_without_text(c)),
        warnings: repeated(Seq::empty(), r.warnings.len()),
        ..r
    }
}

proof fn lemma_findings_ignore_text(list: Seq<AssuranceFindingModel>)
    ensures
        clean_findings(
            list.map_values(
                |a: AssuranceFindingModel|
                    AssuranceFindingModel { summary: Seq::empty(), evidence: Seq::empty(), ..a },
            ),
        ) == clean_findings(list),
    decreases list.len(),
{
    let f = |a: AssuranceFindingModel|
        AssuranceFindingModel { summary: Seq::empty(), evidence: Seq::empty(), ..a };
    if list.len() > 0 {
        lemma_findings_ignore_text(list.drop_last());
        assert(list.map_values(f).drop_last() =~= list.drop_last().map_values(f));
    } else {
        assert(list.map_values(f) =~= list);
    }
}

proof fn lemma_contender_ignores_text(c: ContenderResultModel, id: Seq<char>)
    ensures
        clean_contender(contender_without_text(c), id) == clean_contender(c, id),
        contender_fault(contender_without_text(c)) == contender_fault(c),
{
    let bare = contender_without_text(c);
    lemma_findings_ignore_text(c.assurance);
    lemma_benchmark_names(c.benchmarks, bare.benchmarks, c.benchmarks.len() as int);
    assert(clean_contender(bare, id).benchmarks =~= clean_contender(c, id).benchmarks);
    assert(clean_contender(bare, id) =~= clean_contender(c, id));
}

proof fn lemma_contenders_fault_ignores_text(
    a: Seq<ContenderResultModel>,
    b: Seq<ContenderResultModel>,
    upto: int,
)
    requires
        upto <= a.len(),
        a.len() == b.len(),
        forall|i: int| 0 <= i < a.len() ==> #[trigger] b[i] == contender_without_text(a[i]),
    ensures
        contenders_fault(a, upto) == contenders_fault(b, upto),
    decreases upto,
{
    if upto > 0 {
        lemma_contenders_fault_ignores_text(a, b, upto - 1);
        assert(b[upto - 1] == contender_without_text(a[upto - 1]));
        lemma_contender_ignores_text(a[upto - 1], Seq::empty());
    }
}

/// What is published does not depend on host names, times, paths, titles, notes, rationales, or
/// the wording of warnings and errors: a report stripped of them gives the same output.
pub proof fn law_private_text_has_no_influence(r: RunReportModel)
    ensures
        sanitized(without_text(r)) == sanitized(r),
{
    let bare = without_text(r);
    assert(aliases::identities(bare.contenders) =~= aliases::identities(r.contenders));
    assert forall|i: int| 0 <= i < r.contenders.len() implies #[trigger] bare.contenders[i]
        == contender_without_text(r.contenders[i]) by {}
    lemma_contenders_fault_ignores_text(
        r.contenders,
        bare.contenders,
        r.contenders.len() as int,
    );
    assert forall|i: int| 0 <= i < r.contenders.len() implies #[trigger] clean_contenders(
        bare.contenders,
    )[i] == clean_contenders(r.contenders)[i] by {
        let given = aliases::assigned(aliases::lineup(r.contenders));
        lemma_contender_ignores_text(
            r.contenders[i],
            aliases::alias_of(given, r.contenders[i].id).unwrap(),
        );
    }
    assert(clean_contenders(bare.contenders) =~= clean_contenders(r.contenders));
    assert(clean(bare) =~= clean(r));
}

/// What cannot be recognised is refused rather than passed on: in a published report every profile,
/// product, metric, unit, digest and commit is of a known form.
pub proof fn law_unknown_values_are_refused(r: RunReportModel, k: int, b: int)
    requires
        sanitized(r) is Ok,
        0 <= k < r.contenders.len(),
        0 <= b < r.contenders[k].benchmarks.len(),
    ensures
        ({
            let c = r.contenders[k];
            &&& known_profile(r.profile.name)
            &&& aliases::supported(c.adapter)
            &&& hex(c.binary.sha256)
            &&& c.source.commit matches Some(v) ==> hex(v)
            &&& metric(c.benchmarks[b].name)
            &&& unit(c.benchmarks[b].unit)
        }),
{
    let list = r.contenders;
    let c = list[k];
    aliases::lemma_every_contender_has_an_alias(list, k);
    if contender_fault(c) is Some {
        assert(contenders_fault(list, k + 1) is Some);
        lemma_contenders_fault_stays(list, k + 1, list.len() as int);
    }
    if !metric(c.benchmarks[b].name) || !unit(c.benchmarks[b].unit) {
        assert(benchmark_fault(c.benchmarks, b + 1) is Some);
        lemma_benchmark_fault_stays(c.benchmarks, b + 1, c.benchmarks.len() as int);
    }
}

/// The words of a published report are fixed ones: the names of hosts and contenders, paths, notes,
/// rationales, warnings and errors are replaced, and only allowed values are kept beside them.
pub proof fn law_published_text_is_fixed(r: RunReportModel, k: int, b: int, m: int)
    requires
        sanitized(r) is Ok,
        0 <= k < r.contenders.len(),
        0 <= b < r.contenders[k].benchmarks.len(),
        0 <= m < sanitized(r)->Ok_0.contenders[k].benchmarks[b].metadata.len(),
    ensures
        ({
            let out = sanitized(r)->Ok_0;
            let c = out.contenders[k];
            let kept = c.benchmarks[b].metadata[m];
            &&& out.host.hostname == "host"@
            &&& out.started_unix_ms == 0
            &&& out.fairness.notes == fairness_notes()
            &&& out.warnings == repeated(WARNING@, r.warnings.len())
            &&& c.display_name == c.id
            &&& c.binary.path == "<"@ + c.id + "-binary>"@
            &&& c.source.path == "<"@ + c.id + "-source>"@
            &&& c.source.commit_date is None
            &&& c.source.license matches Some(v) ==> known_license(v)
            &&& c.static_analysis.notes == seq![STATIC_NOTE@]
            &&& c.errors == repeated(SCENARIO_FAILED@, r.contenders[k].errors.len())
            &&& c.benchmarks[b].note == status_note(c.benchmarks[b].status)
            &&& safe(kept.0, kept.1)
        }),
{
    lemma_safe_pairs_are_safe(r.contenders[k].benchmarks[b].metadata, m);
}

proof fn lemma_safe_pairs_are_safe(list: Seq<(Seq<char>, Seq<char>)>, m: int)
    requires
        0 <= m < safe_pairs(list).len(),
    ensures
        safe(safe_pairs(list)[m].0, safe_pairs(list)[m].1),
    decreases list.len(),
{
    if m < safe_pairs(list.drop_last()).len() {
        lemma_safe_pairs_are_safe(list.drop_last(), m);
    }
}

} // verus!
