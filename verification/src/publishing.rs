//! What a published report can hold: which words, which characters and which values.

use vstd::prelude::*;
use crate::aliases;
use crate::decimal;
use crate::model::{AssuranceFindingModel, BenchmarkStatus, RunReportModel};
use crate::privacy;
use crate::text;

verus! {

// ---------------------------------------------------------------------------------------------
// Characters
// ---------------------------------------------------------------------------------------------

/// Every character of the text is one of those.
pub open spec fn made_of(s: Seq<char>, p: spec_fn(char) -> bool) -> bool {
    forall|i: int| 0 <= i < s.len() ==> p(#[trigger] s[i])
}

/// Digests and commits have 40 or 64 hexadecimal digits and nothing else.
pub proof fn law_digests_are_hexadecimal(value: Seq<char>)
    ensures
        privacy::hex(value) <==> (value.len() == 40 || value.len() == 64) && made_of(
            value,
            |c: char| '0' <= c <= '9' || 'a' <= c <= 'f' || 'A' <= c <= 'F',
        ),
{
    let p = |c: char| '0' <= c <= '9' || 'a' <= c <= 'f' || 'A' <= c <= 'F';
    assert forall|i: int| 0 <= i < value.len() implies text::hex_digit(#[trigger] value[i]) == p(
        value[i],
    ) by {}
    if made_of(value, p) {
        assert forall|i: int| 0 <= i < value.len() implies text::hex_digit(#[trigger] value[i]) by {
            assert(p(value[i]));
        }
    }
}

/// What is kept of a version is a release number: it is read off the start of the first word, holds
/// digits and points only, and has no more behind it than one small letter or the word that says
/// that something was withheld.
pub proof fn law_versions_are_release_numbers(value: Seq<char>)
    ensures
        privacy::release(value) matches Some(v) ==> ({
            let word = text::words(value)[0];
            exists|n: int|
                #![trigger word.take(n)]
                0 < n <= word.len() && made_of(
                    word.take(n),
                    |c: char| '0' <= c <= '9' || c == '.',
                ) && (v == word.take(n) || v == word.take(n) + "-redacted"@ || (v == word && n + 1
                    == word.len() && 'a' <= word[n] <= 'z'))
        }),
{
    if let Some(v) = privacy::release(value) {
        let word = text::words(value)[0];
        let p = privacy::is_a_numeric();
        let n = text::run_len(word, p) as int;
        text::lemma_run_len(word, p);
        let number = word.take(n);
        assert(n > 0) by {
            if n == 0 {
                assert(number =~= Seq::empty());
                text::lemma_run_len(number, text::other_than('.'));
                assert(text::fields(number, '.') =~= seq![number]);
            }
        }
        assert(made_of(number, |c: char| '0' <= c <= '9' || c == '.')) by {
            assert forall|i: int| 0 <= i < number.len() implies '0' <= #[trigger] number[i] <= '9'
                || number[i] == '.' by {
                assert(p(word[i]));
            }
        }
        let suffix = word.skip(n);
        if suffix.len() == 1 {
            assert(suffix[0] == word[n]);
        }
    }
}

/// Every published identifier of a contender is its adapter, or its adapter, a dash and a number.
pub proof fn law_contenders_are_named_by_their_adapter(r: RunReportModel, k: int)
    requires
        privacy::sanitized(r) is Ok,
        0 <= k < r.contenders.len(),
    ensures
        ({
            let c = privacy::sanitized(r)->Ok_0.contenders[k];
            &&& c.adapter == r.contenders[k].adapter
            &&& c.adapter == "uniterm"@ || c.adapter == "herdr"@ || c.adapter == "tmux"@
            &&& c.id == c.adapter || exists|n: nat|
                c.id == c.adapter + "-"@ + #[trigger] decimal::decimal(n)
        }),
{
    let list = aliases::lineup(r.contenders);
    let given = aliases::assigned(list);
    aliases::lemma_every_contender_has_an_alias(r.contenders, k);
    aliases::lemma_alias_names_its_adapter(r.contenders, k);
}

// ---------------------------------------------------------------------------------------------
// Words
// ---------------------------------------------------------------------------------------------

/// The host of a published report: a known system and architecture or neither, the fixed name, and
/// the plain counts.
pub proof fn law_hosts_are_described_by_known_words(r: RunReportModel)
    requires
        privacy::sanitized(r) is Ok,
    ensures
        ({
            let (h, out) = (r.host, privacy::sanitized(r)->Ok_0.host);
            &&& out.os == (if h.os == "linux"@ || h.os == "macos"@ { h.os } else { "unknown"@ })
            &&& out.architecture == (if h.architecture == "x86_64"@ || h.architecture
                == "aarch64"@ || h.architecture == "x86"@ || h.architecture == "arm"@ {
                h.architecture
            } else {
                "unknown"@
            })
            &&& out.hostname == "host"@
            &&& out.logical_cpus == h.logical_cpus
            &&& out.wsl == h.wsl
            &&& h.rustc is None ==> out.rustc is None
            &&& out.rustc matches Some(v) ==> v == "rustc "@ + privacy::release(
                text::after_prefix(h.rustc.unwrap(), "rustc "@).unwrap(),
            ).unwrap()
            &&& out.kernel == (if out.os == "macos"@ {
                "Darwin"@
            } else if out.os == "linux"@ {
                "Linux"@
            } else {
                "unknown"@
            }) + " "@ + (if text::words(h.kernel).len() > 1 && privacy::release(
                text::words(h.kernel)[1],
            ) is Some {
                privacy::release(text::words(h.kernel)[1]).unwrap()
            } else {
                "unknown"@
            })
        }),
{
}

/// A published report has the profile it had, which is one of three; it says neither when it was
/// made nor what its warnings and errors were, only how many; and every contender's license is one of
/// eight or not named.
pub proof fn law_reports_keep_counts_for_texts(r: RunReportModel, k: int)
    requires
        privacy::sanitized(r) is Ok,
        0 <= k < r.contenders.len(),
    ensures
        ({
            let out = privacy::sanitized(r)->Ok_0;
            let (c, d) = (r.contenders[k], out.contenders[k]);
            &&& out.schema_version == 7
            &&& out.profile == r.profile
            &&& out.profile.name == "smoke"@ || out.profile.name == "standard"@ || out.profile.name
                == "marketing"@
            &&& out.started_unix_ms == 0
            &&& out.warnings.len() == r.warnings.len()
            &&& forall|i: int|
                0 <= i < out.warnings.len() ==> #[trigger] out.warnings[i] == out.warnings[0]
            &&& out.contenders.len() == r.contenders.len()
            &&& d.errors.len() == c.errors.len()
            &&& forall|i: int| 0 <= i < d.errors.len() ==> #[trigger] d.errors[i] == d.errors[0]
            &&& d.display_name == d.id
            &&& d.binary.path == "<"@ + d.id + "-binary>"@
            &&& d.source.path == "<"@ + d.id + "-source>"@
            &&& d.source.commit_date is None
            &&& d.source.license matches Some(v) ==> c.source.license == Some(v) && (v == "MIT"@ || v
                == "ISC"@ || v == "Apache-2.0"@ || v == "MIT OR Apache-2.0"@ || v
                == "BSD-2-Clause"@ || v == "BSD-3-Clause"@ || v == "AGPL-3.0-or-later"@ || v
                == "GPL-3.0-or-later"@)
        }),
{
}

/// The numbers of a published report are those of the report: sizes, digests, commits, static
/// counts, samples, summaries, statuses, units, directions and metric names.
pub proof fn law_numbers_pass_unchanged(r: RunReportModel, k: int, b: int)
    requires
        privacy::sanitized(r) is Ok,
        0 <= k < r.contenders.len(),
        0 <= b < r.contenders[k].benchmarks.len(),
    ensures
        ({
            let (c, d) = (r.contenders[k], privacy::sanitized(r)->Ok_0.contenders[k]);
            let (x, y) = (c.benchmarks[b], d.benchmarks[b]);
            &&& d.benchmarks.len() == c.benchmarks.len()
            &&& d.binary.bytes == c.binary.bytes && d.binary.sha256 == c.binary.sha256
            &&& d.source.commit == c.source.commit && d.source.dirty == c.source.dirty
            &&& d.static_analysis.rust_source_files == c.static_analysis.rust_source_files
            &&& d.static_analysis.first_party_rust_lines == c.static_analysis.first_party_rust_lines
            &&& d.static_analysis.rust_test_lines == c.static_analysis.rust_test_lines
            &&& d.static_analysis.documentation_lines == c.static_analysis.documentation_lines
            &&& d.static_analysis.lockfile_packages == c.static_analysis.lockfile_packages
            &&& d.static_analysis.direct_dependencies == c.static_analysis.direct_dependencies
            &&& d.static_analysis.unsafe_blocks == c.static_analysis.unsafe_blocks
            &&& d.static_analysis.production_unwrap_calls
                == c.static_analysis.production_unwrap_calls
            &&& d.static_analysis.network_api_references == c.static_analysis.network_api_references
            &&& d.static_analysis.process_launch_references
                == c.static_analysis.process_launch_references
            &&& y.name == x.name && y.unit == x.unit && y.direction == x.direction
            &&& y.samples == x.samples && y.summary == x.summary && y.status == x.status
        }),
{
}

/// A report is refused where its profile, a product, a digest, a commit, a metric or a unit is not
/// known.
pub proof fn law_reports_with_unknown_values_are_refused(r: RunReportModel, k: int, b: int)
    requires
        0 <= k < r.contenders.len(),
        0 <= b < r.contenders[k].benchmarks.len(),
        ({
            let c = r.contenders[k];
            let p = |x: char| '0' <= x <= '9' || 'a' <= x <= 'f' || 'A' <= x <= 'F';
            ||| !(r.profile.name == "smoke"@ || r.profile.name == "standard"@ || r.profile.name
                == "marketing"@)
            ||| !(c.adapter == "uniterm"@ || c.adapter == "herdr"@ || c.adapter == "tmux"@)
            ||| c.binary.sha256.len() != 40 && c.binary.sha256.len() != 64
            ||| !made_of(c.binary.sha256, p)
            ||| c.source.commit matches Some(v) && ((v.len() != 40 && v.len() != 64) || !made_of(
                v,
                p,
            ))
            ||| !privacy::metric(c.benchmarks[b].name)
            ||| !privacy::unit(c.benchmarks[b].unit)
        }),
    ensures
        privacy::sanitized(r) is Err,
{
    if privacy::sanitized(r) is Ok {
        privacy::law_unknown_values_are_refused(r, k, b);
        law_digests_are_hexadecimal(r.contenders[k].binary.sha256);
        if let Some(v) = r.contenders[k].source.commit {
            law_digests_are_hexadecimal(v);
        }
    }
}

/// The units that can be published.
pub proof fn law_ten_units_are_known(value: Seq<char>)
    ensures
        privacy::unit(value) <==> value == ""@ || value == "ms"@ || value == "% core"@ || value
            == "KiB"@ || value == "bytes"@ || value == "processes"@ || value == "KiB/pane"@ || value
            == "%"@ || value == "MiB/s"@ || value == "ms CPU"@,
{
}

/// The metrics that can be published: 22 names, and the resource metrics of the two windows and of
/// any number of panes or clients up to four digits.
pub proof fn law_metrics_are_known_by_name(name: Seq<char>)
    ensures
        name == "binary_size"@ || name == "client_render_output"@ || name
            == "control_command_latency"@ || name == "daemon_idle"@ || name == "foreground_idle"@
            || name == "isolated_state_size"@ || name == "live_suite_shutdown"@ || name
            == "multipane_idle"@ || name == "multipane_process_count"@ || name
            == "multipane_suite_shutdown"@ || name == "pane_close_recovery"@ || name
            == "pane_close_rss"@ || name == "pane_memory_slope"@ || name == "resize_storm_cpu"@
            || name == "resize_storm_rss"@ || name == "resize_storm_settle"@ || name
            == "restart_ready"@ || name == "server_shutdown"@ || name == "server_startup_ready"@
            || name == "terminal_input_to_visible"@ || name == "terminal_output_completion"@ || name
            == "terminal_output_ingest_rate"@ || name == "daemon_idle"@ + "_root_cpu"@ || name
            == "daemon_idle"@ + "_cohort_cpu"@ || name == "daemon_idle"@ + "_root_rss"@ || name
            == "daemon_idle"@ + "_cohort_rss"@ || name == "foreground_idle"@ + "_root_cpu"@ || name
            == "foreground_idle"@ + "_cohort_cpu"@ || name == "foreground_idle"@ + "_root_rss"@
            || name == "foreground_idle"@ + "_cohort_rss"@ || counted(name, "multipane_"@)
            || counted(name, "multiclient_"@) <==> privacy::metric(name),
{
    lemma_resource_name("daemon_idle"@, name);
    lemma_resource_name("foreground_idle"@, name);
    lemma_counted_name("multipane_"@, name);
    lemma_counted_name("multiclient_"@, name);
}

/// The prefix, one to four digits, an underscore, and what was measured.
pub open spec fn counted(name: Seq<char>, prefix: Seq<char>) -> bool {
    exists|count: Seq<char>, rest: Seq<char>|
        0 < count.len() <= 4 && made_of(count, |c: char| '0' <= c <= '9') && (rest
            == "input_to_visible"@ || rest == "idle"@ || rest == "idle"@ + "_root_cpu"@ || rest
            == "idle"@ + "_cohort_cpu"@ || rest == "idle"@ + "_root_rss"@ || rest == "idle"@
            + "_cohort_rss"@) && name == #[trigger] (prefix + count + seq!['_'] + rest)
}

proof fn lemma_split(s: Seq<char>, prefix: Seq<char>)
    ensures
        text::after_prefix(s, prefix) matches Some(rest) ==> s == prefix + rest,
        forall|rest: Seq<char>|
            s == #[trigger] (prefix + rest) ==> text::after_prefix(s, prefix) == Some(rest),
{
    if let Some(rest) = text::after_prefix(s, prefix) {
        assert(s =~= prefix + rest);
    }
    assert forall|rest: Seq<char>| s == #[trigger] (prefix + rest) implies text::after_prefix(
        s,
        prefix,
    ) == Some(rest) by {
        assert(s.take(prefix.len() as int) =~= prefix);
        assert(s.skip(prefix.len() as int) =~= rest);
    }
}

proof fn lemma_resource_name(prefix: Seq<char>, name: Seq<char>)
    ensures
        privacy::resource_of(name, prefix) <==> name == prefix + "_root_cpu"@ || name == prefix
            + "_cohort_cpu"@ || name == prefix + "_root_rss"@ || name == prefix + "_cohort_rss"@,
{
    lemma_split(name, prefix);
}

proof fn lemma_counted_name(prefix: Seq<char>, name: Seq<char>)
    ensures
        privacy::counted_metric(name, prefix) <==> counted(name, prefix),
{
    lemma_split(name, prefix);
    let digits = |c: char| '0' <= c <= '9';
    let p = text::other_than('_');
    if privacy::counted_metric(name, prefix) {
        let rest = text::after_prefix(name, prefix).unwrap();
        let (count, tail) = text::halves(rest, '_').unwrap();
        text::lemma_run_len(rest, p);
        let n = text::run_len(rest, p) as int;
        assert(rest =~= count + seq!['_'] + tail);
        assert(name =~= prefix + count + seq!['_'] + tail);
        lemma_resource_name("idle"@, tail);
        assert(made_of(count, digits)) by {
            assert forall|i: int| 0 <= i < count.len() implies digits(#[trigger] count[i]) by {
                assert(text::digit(count[i]));
            }
        }
        assert(counted(name, prefix));
    }
    if counted(name, prefix) {
        let (count, tail) = choose|count: Seq<char>, rest: Seq<char>|
            0 < count.len() <= 4 && made_of(count, |c: char| '0' <= c <= '9') && (rest
                == "input_to_visible"@ || rest == "idle"@ || rest == "idle"@ + "_root_cpu"@ || rest
                == "idle"@ + "_cohort_cpu"@ || rest == "idle"@ + "_root_rss"@ || rest == "idle"@
                + "_cohort_rss"@) && name == #[trigger] (prefix + count + seq!['_'] + rest);
        let rest = count + seq!['_'] + tail;
        assert(name =~= prefix + rest);
        assert(text::after_prefix(name, prefix) == Some(rest));
        assert forall|i: int| 0 <= i < count.len() implies p(#[trigger] rest[i]) && text::digit(
            count[i],
        ) by {
            assert(digits(count[i]));
        }
        text::lemma_run_len_is(rest, p, count.len());
        assert(rest.take(count.len() as int) =~= count);
        assert(rest.skip(count.len() as int + 1) =~= tail);
        lemma_resource_name("idle"@, tail);
    }
}

/// Of the findings those of the rubric are kept, in their order, with their rating, weight and
/// confidence and without any free text; the others are left out.
pub proof fn law_findings_lose_their_text(list: Seq<AssuranceFindingModel>)
    ensures
        privacy::clean_findings(list).len() <= list.len(),
        forall|i: int|
            0 <= i < privacy::clean_findings(list).len() ==> (#[trigger] privacy::clean_findings(
                list,
            )[i]).evidence.len() == 0 && exists|j: int|
                i <= j < list.len() && (#[trigger] list[j]).category == privacy::clean_findings(
                    list,
                )[i].category && list[j].criterion == privacy::clean_findings(list)[i].criterion
                    && list[j].status == privacy::clean_findings(list)[i].status && list[j].weight
                    == privacy::clean_findings(list)[i].weight && privacy::criterion(
                    list[j].category,
                    list[j].criterion,
                ),
    decreases list.len(),
{
    if list.len() > 0 {
        let front = list.drop_last();
        law_findings_lose_their_text(front);
        let (all, some) = (privacy::clean_findings(list), privacy::clean_findings(front));
        assert forall|i: int| 0 <= i < all.len() implies (#[trigger] all[i]).evidence.len() == 0
            && exists|j: int|
            i <= j < list.len() && (#[trigger] list[j]).category == all[i].category
                && list[j].criterion == all[i].criterion && list[j].status == all[i].status
                && list[j].weight == all[i].weight && privacy::criterion(
                list[j].category,
                list[j].criterion,
            ) by {
            if i < some.len() {
                assert(all[i] == some[i]);
                let j = choose|j: int|
                    i <= j < front.len() && (#[trigger] front[j]).category == some[i].category
                        && front[j].criterion == some[i].criterion && front[j].status
                        == some[i].status && front[j].weight == some[i].weight
                        && privacy::criterion(front[j].category, front[j].criterion);
                assert(list[j] == front[j]);
            } else {
                assert(list[list.len() - 1] == list.last());
            }
        }
    }
}

/// The rubric has eight criteria of security and six of privacy.
pub proof fn law_the_rubric_has_fourteen_criteria(category: Seq<char>, name: Seq<char>)
    ensures
        privacy::criterion(category, name) ==> category == "security"@ || category == "privacy"@,
        category == "security"@ ==> (privacy::criterion(category, name) <==> name
            == "Memory-safety boundary"@ || name == "Local IPC access control"@ || name
            == "Untrusted protocol input bounds"@ || name == "Crash-safe persistence"@ || name
            == "Update integrity"@ || name == "Extension trust boundary"@ || name
            == "Remote exposure and authentication"@ || name == "Child-process containment"@),
        category == "privacy"@ ==> (privacy::criterion(category, name) <==> name
            == "Telemetry and analytics"@ || name == "Default outbound network activity"@ || name
            == "Local data retention"@ || name == "Clipboard and host-data access"@ || name
            == "Remote data path"@ || name == "Network controls"@),
{
    reveal_strlit("security");
    reveal_strlit("privacy");
    assert("security"@.len() != "privacy"@.len());
}

/// Plain counts are published: digits only, up to the greatest number of 64 bits.
pub proof fn law_counts_are_digits(value: Seq<char>)
    ensures
        privacy::count_value(value) ==> made_of(value, |c: char| '0' <= c <= '9') && 0 < value.len()
            <= 20,
        privacy::safe("exit_retries"@, value) ==> privacy::count_value(value),
{
    if privacy::count_value(value) {
        assert forall|i: int| 0 <= i < value.len() implies '0' <= #[trigger] value[i] <= '9' by {
            assert(text::digit(value[i]));
        }
    }
    reveal_strlit("exit_retries");
    reveal_strlit("native_disk_restoration");
    reveal_strlit("prior_output_visible_after_restart");
    reveal_strlit("pane_size_rows_cols");
    reveal_strlit("cohort_rss_kib_by_pane_count");
    assert("exit_retries"@.len() == 12);
    assert("native_disk_restoration"@.len() != 12);
    assert("prior_output_visible_after_restart"@.len() != 12);
    assert("pane_size_rows_cols"@.len() != 12);
    assert("cohort_rss_kib_by_pane_count"@.len() != 12);
}

/// What is said of an error is one of eight fixed sentences, whatever the error holds.
pub proof fn law_errors_are_shown_by_category(error: Seq<char>)
    ensures
        ({
            let c = privacy::error_category(error);
            &&& text::starts_with(error, "could not read"@) ==> c
                == "could not read input; check the supplied file and permissions"@
            &&& c == "could not read input; check the supplied file and permissions"@ || c
                == "invalid configuration; check the TOML structure and documented fields"@ || c
                == "could not write output; check the destination and permissions"@ || c
                == "measurement failures were recorded; inspect the sanitized report"@ || c
                == "unsupported report schema"@ || c
                == "reports are not comparable and cannot be merged"@ || c
                == "raw work directories cannot be retained in sanitized mode"@ || c
                == "operation failed; check the command, configuration, prerequisites, and measurement status"@
        }),
{
}

/// The name of a run is an identifier of 64 hexadecimal digits; one that has this form is kept.
pub proof fn law_opaque_names_are_kept(id: Seq<char>)
    ensures
        privacy::opaque_id(id) <==> id.len() == 68 && text::starts_with(id, "run-"@) && made_of(
            id.skip(4),
            |c: char| '0' <= c <= '9' || 'a' <= c <= 'f' || 'A' <= c <= 'F',
        ),
        privacy::opaque_id(id) ==> privacy::clean_run_id(id) == id,
        !privacy::opaque_id(id) ==> privacy::clean_run_id(id) == "run-"@ + privacy::sha256_hex(
            vstd::utf8::encode_utf8(id),
        ),
{
    law_digests_are_hexadecimal(id.skip(4));
}

/// The note of a published metric says its status and nothing else: metrics of the same status have
/// the same note.
pub proof fn law_notes_say_the_status(a: BenchmarkStatus, b: BenchmarkStatus)
    ensures
        a == b ==> privacy::status_note(a) == privacy::status_note(b),
        a == BenchmarkStatus::Measured ==> privacy::status_note(a) == privacy::MEASURED_NOTE@,
        a == BenchmarkStatus::Failed ==> privacy::status_note(a) == privacy::FAILED_NOTE@,
        a == BenchmarkStatus::Skipped ==> privacy::status_note(a) == privacy::SKIPPED_NOTE@,
{
}

} // verus!
