//! What is compared and how thoroughly: the configuration and the measurement profiles.

use vstd::prelude::*;
use crate::measure::Real;
use crate::model::{
    AssuranceFinding, AssuranceFindingModel, AssuranceStatus, ProfileRecord, ProfileRecordModel,
};
use crate::paths;
use crate::text;
use crate::textmap::TextMap;

verus! {

/// The title of a comparison that names none.
pub const DEFAULT_TITLE: &'static str = "Terminal multiplexer comparison";

/// The bits of the weight of a rating that gives none, which is one.
pub const DEFAULT_WEIGHT: u64 = 0x3ff0_0000_0000_0000;

/// A whole configuration.
#[derive(Debug)]
pub struct Config {
    pub comparison: ComparisonConfig,
    pub contenders: Vec<ContenderConfig>,
}

/// What holds of the whole comparison.
#[derive(Debug)]
pub struct ComparisonConfig {
    pub title: String,
    pub seed: u64,
    pub keep_workdirs: bool,
}

/// One contender.
#[derive(Debug)]
pub struct ContenderConfig {
    pub id: String,
    pub display_name: String,
    pub adapter: String,
    pub binary: String,
    pub source: String,
    pub environment: TextMap,
    pub assurance: Vec<AssuranceConfig>,
}

/// One rating as the operator wrote it.
#[derive(Debug)]
pub struct AssuranceConfig {
    pub category: String,
    pub criterion: String,
    pub status: AssuranceStatus,
    pub weight: Real,
    pub summary: String,
    pub evidence: Vec<String>,
}

/// Which of a contender's paths exist.
#[derive(Debug, Clone, Copy, PartialEq, Eq, Structural)]
pub struct Presence {
    pub binary: bool,
    pub source: bool,
}

/// What a contender's configuration says.
#[verifier::ext_equal]
pub ghost struct ContenderModel {
    pub id: Seq<char>,
    pub display_name: Seq<char>,
    pub adapter: Seq<char>,
    pub binary: Seq<char>,
    pub source: Seq<char>,
    pub environment: Seq<(Seq<char>, Seq<char>)>,
    pub assurance: Seq<AssuranceFindingModel>,
}

impl View for AssuranceConfig {
    type V = AssuranceFindingModel;

    open spec fn view(&self) -> AssuranceFindingModel {
        AssuranceFindingModel {
            category: self.category@,
            criterion: self.criterion@,
            status: self.status,
            weight: self.weight,
            summary: self.summary@,
            evidence: text::texts(self.evidence@),
        }
    }
}

impl View for ContenderConfig {
    type V = ContenderModel;

    open spec fn view(&self) -> ContenderModel {
        ContenderModel {
            id: self.id@,
            display_name: self.display_name@,
            adapter: self.adapter@,
            binary: self.binary@,
            source: self.source@,
            environment: self.environment@,
            assurance: rating_views(self.assurance@),
        }
    }
}

pub open spec fn rating_views(list: Seq<AssuranceConfig>) -> Seq<AssuranceFindingModel> {
    list.map_values(|a: AssuranceConfig| a@)
}

pub open spec fn contender_views(list: Seq<ContenderConfig>) -> Seq<ContenderModel> {
    list.map_values(|c: ContenderConfig| c@)
}

impl Clone for AssuranceConfig {
    fn clone(&self) -> (r: AssuranceConfig)
        ensures
            r@ == self@,
    {
        AssuranceConfig {
            category: self.category.clone(),
            criterion: self.criterion.clone(),
            status: self.status,
            weight: self.weight,
            summary: self.summary.clone(),
            evidence: text::clone_texts(&self.evidence),
        }
    }
}

impl Clone for ContenderConfig {
    fn clone(&self) -> (r: ContenderConfig)
        ensures
            r@ == self@,
    {
        let ghost all = rating_views(self.assurance@);
        let mut assurance: Vec<AssuranceConfig> = Vec::new();
        let mut i: usize = 0;
        assert(rating_views(assurance@) =~= all.take(0));
        while i < self.assurance.len()
            invariant
                i <= self.assurance@.len(),
                all == rating_views(self.assurance@),
                rating_views(assurance@) =~= all.take(i as int),
            decreases self.assurance@.len() - i,
        {
            let ghost before = rating_views(assurance@);
            assurance.push(self.assurance[i].clone());
            i = i + 1;
            assert(rating_views(assurance@) =~= before.push(self.assurance@[i - 1]@));
        }
        assert(all.take(i as int) =~= all);
        ContenderConfig {
            id: self.id.clone(),
            display_name: self.display_name.clone(),
            adapter: self.adapter.clone(),
            binary: self.binary.clone(),
            source: self.source.clone(),
            environment: self.environment.copied(),
            assurance,
        }
    }
}

/// The title of a comparison that names none.
pub fn default_title() -> (r: String)
    ensures
        r@ == DEFAULT_TITLE@,
{
    DEFAULT_TITLE.to_owned()
}

/// The weight of a rating that gives none.
pub fn default_weight() -> (r: Real)
    ensures
        r == (Real { bits: DEFAULT_WEIGHT }),
{
    Real { bits: DEFAULT_WEIGHT }
}

impl AssuranceConfig {
    /// The rating as it enters a report.
    pub fn finding(&self) -> (r: AssuranceFinding)
        ensures
            r@ == self@,
    {
        AssuranceFinding {
            category: self.category.clone(),
            criterion: self.criterion.clone(),
            status: self.status,
            weight: self.weight,
            summary: self.summary.clone(),
            evidence: text::clone_texts(&self.evidence),
        }
    }
}

// ---------------------------------------------------------------------------------------------
// Validation
// ---------------------------------------------------------------------------------------------

pub open spec fn id_char(c: char) -> bool {
    text::alphanumeric(c) || c == '-' || c == '_'
}

pub open spec fn is_id_char() -> spec_fn(char) -> bool {
    |c: char| id_char(c)
}

/// A name that can stand for a contender.
pub open spec fn id(name: Seq<char>) -> bool {
    name.len() > 0 && text::all(name, is_id_char())
}

pub open spec fn supported(adapter: Seq<char>) -> bool {
    adapter == "uniterm"@ || adapter == "herdr"@ || adapter == "tmux"@
}

/// What is wrong with the weight of one of the ratings, the first such first.
pub open spec fn weight_fault(ratings: Seq<AssuranceFindingModel>) -> Option<Seq<char>>
    decreases ratings.len(),
{
    if ratings.len() == 0 {
        None
    } else {
        let a = ratings[0];
        if a.weight.positive() && a.weight.finite() {
            weight_fault(ratings.skip(1))
        } else {
            Some(
                "assurance weight for "@ + a.category + " / "@ + a.criterion
                    + " must be positive"@,
            )
        }
    }
}

/// What is wrong with the contender at a position.
pub open spec fn contender_fault(
    list: Seq<ContenderModel>,
    present: Seq<Presence>,
    i: int,
) -> Option<Seq<char>> {
    let c = list[i];
    if !id(c.id) {
        Some(
            "contender id "@ + text::debugged(c.id)
                + " must contain only ASCII letters, digits, '-' or '_'"@,
        )
    } else if exists|k: int| 0 <= k < i && (#[trigger] list[k]).id == c.id {
        Some("duplicate contender id "@ + text::debugged(c.id))
    } else if !supported(c.adapter) {
        Some(
            "unsupported adapter "@ + text::debugged(c.adapter) + " for "@ + c.id
                + " (expected uniterm, herdr, or tmux)"@,
        )
    } else if !present[i].binary {
        Some("binary for "@ + c.id + " does not exist: "@ + c.binary)
    } else if !present[i].source {
        Some("source for "@ + c.id + " does not exist: "@ + c.source)
    } else {
        weight_fault(c.assurance)
    }
}

/// What is wrong with the first contender, from a position on, with which something is.
pub open spec fn contenders_fault(
    list: Seq<ContenderModel>,
    present: Seq<Presence>,
    from: int,
) -> Option<Seq<char>>
    decreases list.len() - from,
{
    if from >= list.len() {
        None
    } else {
        match contender_fault(list, present, from) {
            Some(error) => Some(error),
            None => contenders_fault(list, present, from + 1),
        }
    }
}

/// Whether the rating is of this criterion.
pub open spec fn rates(a: AssuranceFindingModel, category: Seq<char>, criterion: Seq<char>) -> bool {
    a.category == category && a.criterion == criterion
}

pub open spec fn rated(
    ratings: Seq<AssuranceFindingModel>,
    category: Seq<char>,
    criterion: Seq<char>,
) -> bool {
    exists|i: int| 0 <= i < ratings.len() && rates(#[trigger] ratings[i], category, criterion)
}

/// Whether every criterion of the first list is rated in the second.
pub open spec fn covered(
    ratings: Seq<AssuranceFindingModel>,
    by: Seq<AssuranceFindingModel>,
) -> bool {
    forall|i: int|
        0 <= i < ratings.len() ==> rated(
            by,
            (#[trigger] ratings[i]).category,
            ratings[i].criterion,
        )
}

/// What is wrong with the first contender, from a position on, that rates other criteria.
pub open spec fn rubric_fault(list: Seq<ContenderModel>, from: int) -> Option<Seq<char>>
    decreases list.len() - from,
{
    if from >= list.len() {
        None
    } else if covered(list[from].assurance, list[0].assurance) && covered(
        list[0].assurance,
        list[from].assurance,
    ) {
        rubric_fault(list, from + 1)
    } else {
        Some(
            list[from].id + " does not use exactly the same assurance criteria as "@
                + list[0].id,
        )
    }
}

/// What is wrong with a configuration.
pub open spec fn fault(
    keep_workdirs: bool,
    list: Seq<ContenderModel>,
    present: Seq<Presence>,
) -> Option<Seq<char>> {
    if keep_workdirs {
        Some("raw workdirs cannot be retained"@)
    } else if list.len() < 2 {
        Some("at least two contenders are required"@)
    } else {
        match contenders_fault(list, present, 0) {
            Some(error) => Some(error),
            None => rubric_fault(list, 1),
        }
    }
}

fn is_id(name: &str) -> (r: bool)
    ensures
        r == id(name@),
{
    let chars: Vec<char> = text::chars_of(name);
    if chars.len() == 0 {
        return false;
    }
    let ghost p = is_id_char();
    let mut i: usize = 0;
    while i < chars.len()
        invariant
            i <= chars@.len(),
            chars@ == name@,
            p == is_id_char(),
            forall|k: int| 0 <= k < i ==> p(#[trigger] name@[k]),
        decreases chars@.len() - i,
    {
        let c: char = chars[i];
        if !(text::is_alphanumeric(c) || c == '-' || c == '_') {
            assert(!p(name@[i as int]));
            return false;
        }
        i = i + 1;
    }
    true
}

fn is_rated(list: &Vec<AssuranceConfig>, category: &str, criterion: &str) -> (r: bool)
    ensures
        r == rated(rating_views(list@), category@, criterion@),
{
    let ghost view = rating_views(list@);
    let mut i: usize = 0;
    while i < list.len()
        invariant
            i <= list@.len(),
            view == rating_views(list@),
            forall|k: int| 0 <= k < i ==> !rates(#[trigger] view[k], category@, criterion@),
        decreases list@.len() - i,
    {
        assert(view[i as int] == list@[i as int]@);
        if text::same(list[i].category.as_str(), category) && text::same(
            list[i].criterion.as_str(),
            criterion,
        ) {
            return true;
        }
        i = i + 1;
    }
    false
}

fn is_covered(list: &Vec<AssuranceConfig>, by: &Vec<AssuranceConfig>) -> (r: bool)
    ensures
        r == covered(rating_views(list@), rating_views(by@)),
{
    let ghost view = rating_views(list@);
    let ghost others = rating_views(by@);
    let mut i: usize = 0;
    while i < list.len()
        invariant
            i <= list@.len(),
            view == rating_views(list@),
            others == rating_views(by@),
            forall|k: int|
                0 <= k < i ==> rated(others, (#[trigger] view[k]).category, view[k].criterion),
        decreases list@.len() - i,
    {
        assert(view[i as int] == list@[i as int]@);
        if !is_rated(by, list[i].category.as_str(), list[i].criterion.as_str()) {
            assert(!rated(others, view[i as int].category, view[i as int].criterion));
            return false;
        }
        i = i + 1;
    }
    true
}

fn check_weights(list: &Vec<AssuranceConfig>) -> (r: Result<(), String>)
    ensures
        match r {
            Ok(_) => weight_fault(rating_views(list@)) is None,
            Err(error) => weight_fault(rating_views(list@)) == Some(error@),
        },
{
    let ghost view = rating_views(list@);
    let mut i: usize = 0;
    assert(view.skip(0) =~= view);
    while i < list.len()
        invariant
            i <= list@.len(),
            view == rating_views(list@),
            weight_fault(view) == weight_fault(view.skip(i as int)),
        decreases list@.len() - i,
    {
        assert(view.skip(i as int)[0] == list@[i as int]@);
        assert(view.skip(i as int).skip(1) =~= view.skip(i + 1));
        let a: &AssuranceConfig = &list[i];
        if !(a.weight.is_positive() && a.weight.is_finite()) {
            let head: String = text::cat(
                "assurance weight for ".to_owned(),
                a.category.as_str(),
            );
            let named: String = text::cat(text::cat(head, " / "), a.criterion.as_str());
            return Err(text::cat(named, " must be positive"));
        }
        i = i + 1;
    }
    Ok(())
}

impl ContenderConfig {
    fn check(&self, earlier: bool, present: Presence) -> (r: Result<(), String>)
        ensures
            forall|list: Seq<ContenderModel>, all: Seq<Presence>, i: int|
                0 <= i < list.len() && list[i] == self@ && all[i] == present && earlier == (exists|
                    k: int,
                | 0 <= k < i && (#[trigger] list[k]).id == self@.id) ==> (match r {
                    Ok(_) => #[trigger] contender_fault(list, all, i) is None,
                    Err(error) => contender_fault(list, all, i) == Some(error@),
                }),
    {
        if !is_id(self.id.as_str()) {
            return Err(
                text::cat(
                    text::cat(
                        "contender id ".to_owned(),
                        text::debug_text(self.id.as_str()).as_str(),
                    ),
                    " must contain only ASCII letters, digits, '-' or '_'",
                ),
            );
        }
        if earlier {
            return Err(
                text::cat(
                    "duplicate contender id ".to_owned(),
                    text::debug_text(self.id.as_str()).as_str(),
                ),
            );
        }
        if !(text::same(self.adapter.as_str(), "uniterm") || text::same(
            self.adapter.as_str(),
            "herdr",
        ) || text::same(self.adapter.as_str(), "tmux")) {
            let head: String = text::cat(
                "unsupported adapter ".to_owned(),
                text::debug_text(self.adapter.as_str()).as_str(),
            );
            let named: String = text::cat(text::cat(head, " for "), self.id.as_str());
            return Err(text::cat(named, " (expected uniterm, herdr, or tmux)"));
        }
        if !present.binary {
            let head: String = text::cat("binary for ".to_owned(), self.id.as_str());
            return Err(text::cat(text::cat(head, " does not exist: "), self.binary.as_str()));
        }
        if !present.source {
            let head: String = text::cat("source for ".to_owned(), self.id.as_str());
            return Err(text::cat(text::cat(head, " does not exist: "), self.source.as_str()));
        }
        check_weights(&self.assurance)
    }
}

impl Config {
    fn is_used_before(&self, i: usize) -> (r: bool)
        requires
            i < self.contenders@.len(),
        ensures
            r == (exists|k: int|
                0 <= k < i && (#[trigger] contender_views(self.contenders@)[k]).id
                    == self.contenders@[i as int].id@),
    {
        let ghost view = contender_views(self.contenders@);
        let total: usize = self.contenders.len();
        let mut k: usize = 0;
        while k < i
            invariant
                k <= i < total,
                total == self.contenders@.len(),
                view == contender_views(self.contenders@),
                forall|j: int|
                    0 <= j < k ==> (#[trigger] view[j]).id != self.contenders@[i as int].id@,
            decreases i - k,
        {
            assert(view[k as int] == self.contenders@[k as int]@);
            if text::same(self.contenders[k].id.as_str(), self.contenders[i].id.as_str()) {
                assert(view[k as int].id == self.contenders@[i as int].id@);
                return true;
            }
            k = k + 1;
        }
        false
    }

    /// Refuses a configuration that cannot be compared fairly, with the first reason.
    pub fn validate(&self, present: &Vec<Presence>) -> (r: Result<(), String>)
        requires
            present@.len() == self.contenders@.len(),
        ensures
            match r {
                Ok(_) => fault(
                    self.comparison.keep_workdirs,
                    contender_views(self.contenders@),
                    present@,
                ) is None,
                Err(error) => fault(
                    self.comparison.keep_workdirs,
                    contender_views(self.contenders@),
                    present@,
                ) == Some(error@),
            },
    {
        let ghost view = contender_views(self.contenders@);
        if self.comparison.keep_workdirs {
            return Err("raw workdirs cannot be retained".to_owned());
        }
        if self.contenders.len() < 2 {
            return Err("at least two contenders are required".to_owned());
        }
        let total: usize = self.contenders.len();
        let mut i: usize = 0;
        while i < total
            invariant
                i <= total,
                2 <= total,
                !self.comparison.keep_workdirs,
                total == self.contenders@.len(),
                present@.len() == total,
                view == contender_views(self.contenders@),
                contenders_fault(view, present@, 0) == contenders_fault(view, present@, i as int),
            decreases total - i,
        {
            assert(view[i as int] == self.contenders@[i as int]@);
            let earlier: bool = self.is_used_before(i);
            let outcome: Result<(), String> = self.contenders[i].check(earlier, present[i]);
            assert(match outcome {
                Ok(_) => contender_fault(view, present@, i as int) is None,
                Err(error) => contender_fault(view, present@, i as int) == Some(error@),
            });
            if outcome.is_err() {
                return outcome;
            }
            i = i + 1;
        }
        assert(contenders_fault(view, present@, i as int) is None);
        let base: &Vec<AssuranceConfig> = &self.contenders[0].assurance;
        let mut i: usize = 1;
        while i < total
            invariant
                1 <= i <= total,
                2 <= total,
                !self.comparison.keep_workdirs,
                contenders_fault(view, present@, 0) is None,
                total == self.contenders@.len(),
                view == contender_views(self.contenders@),
                base == self.contenders@[0].assurance,
                rubric_fault(view, 1) == rubric_fault(view, i as int),
            decreases total - i,
        {
            assert(view[i as int] == self.contenders@[i as int]@);
            assert(view[0] == self.contenders@[0]@);
            let c: &ContenderConfig = &self.contenders[i];
            if !(is_covered(&c.assurance, base) && is_covered(base, &c.assurance)) {
                return Err(
                    text::cat(
                        text::cat(
                            c.id.clone(),
                            " does not use exactly the same assurance criteria as ",
                        ),
                        self.contenders[0].id.as_str(),
                    ),
                );
            }
            i = i + 1;
        }
        Ok(())
    }
}

/// In a configuration that is accepted, contenders are told apart by their names, every adapter
/// is supported, every path exists, and all contenders are rated by the same criteria, with
/// weights that are positive.
pub proof fn law_accepted_configurations_are_fair(
    keep_workdirs: bool,
    list: Seq<ContenderModel>,
    present: Seq<Presence>,
    i: int,
    j: int,
)
    requires
        fault(keep_workdirs, list, present) is None,
        0 <= i < j < list.len(),
    ensures
        !keep_workdirs,
        id(list[j].id),
        list[i].id != list[j].id,
        supported(list[j].adapter),
        present[j].binary && present[j].source,
        covered(list[i].assurance, list[j].assurance),
        covered(list[j].assurance, list[i].assurance),
        forall|k: int|
            0 <= k < list[j].assurance.len() ==> (#[trigger] list[j].assurance[k]).weight.positive()
                && list[j].assurance[k].weight.finite(),
{
    lemma_no_contender_fault(list, present, 0, j);
    lemma_no_rubric_fault(list, 1, j);
    lemma_weights(list[j].assurance);
    if i > 0 {
        lemma_no_rubric_fault(list, 1, i);
        let a = list[i].assurance;
        let b = list[j].assurance;
        let base = list[0].assurance;
        lemma_covered(a, base, b);
        lemma_covered(b, base, a);
    }
}

proof fn lemma_covered(
    a: Seq<AssuranceFindingModel>,
    b: Seq<AssuranceFindingModel>,
    c: Seq<AssuranceFindingModel>,
)
    requires
        covered(a, b),
        covered(b, c),
    ensures
        covered(a, c),
{
    assert forall|i: int| 0 <= i < a.len() implies rated(
        c,
        (#[trigger] a[i]).category,
        a[i].criterion,
    ) by {
        assert(rated(b, a[i].category, a[i].criterion));
        let k = choose|k: int|
            0 <= k < b.len() && rates(#[trigger] b[k], a[i].category, a[i].criterion);
        assert(rated(c, b[k].category, b[k].criterion));
    }
}

pub proof fn lemma_no_contender_fault(
    list: Seq<ContenderModel>,
    present: Seq<Presence>,
    from: int,
    j: int,
)
    requires
        contenders_fault(list, present, from) is None,
        0 <= from <= j < list.len(),
    ensures
        contender_fault(list, present, j) is None,
    decreases j - from,
{
    if from < j {
        lemma_no_contender_fault(list, present, from + 1, j);
    }
}

proof fn lemma_no_rubric_fault(list: Seq<ContenderModel>, from: int, j: int)
    requires
        rubric_fault(list, from) is None,
        0 <= from <= j < list.len(),
    ensures
        covered(list[j].assurance, list[0].assurance),
        covered(list[0].assurance, list[j].assurance),
    decreases j - from,
{
    if from < j {
        lemma_no_rubric_fault(list, from + 1, j);
    }
}

pub proof fn lemma_weights(ratings: Seq<AssuranceFindingModel>)
    requires
        weight_fault(ratings) is None,
    ensures
        forall|k: int|
            0 <= k < ratings.len() ==> (#[trigger] ratings[k]).weight.positive()
                && ratings[k].weight.finite(),
    decreases ratings.len(),
{
    if ratings.len() > 0 {
        lemma_weights(ratings.skip(1));
        assert forall|k: int| 0 <= k < ratings.len() implies (
        #[trigger] ratings[k]).weight.positive() && ratings[k].weight.finite() by {
            if k > 0 {
                assert(ratings.skip(1)[k - 1] == ratings[k]);
            }
        }
    }
}

// ---------------------------------------------------------------------------------------------
// Paths
// ---------------------------------------------------------------------------------------------

/// A path whose leading tilde stands for the home directory, where one is known.
pub open spec fn expanded(value: Seq<char>, home: Option<Seq<char>>) -> Seq<char> {
    match home {
        Some(h) => if value == "~"@ {
            h
        } else {
            match text::after_prefix(value, "~/"@) {
                Some(rest) => paths::joined(h, rest),
                None => value,
            }
        },
        None => value,
    }
}

/// Expands a leading tilde, and nothing else.
pub fn expand_home(value: &str, home: &Option<String>) -> (r: String)
    ensures
        r@ == expanded(value@, text::opt_text(*home)),
{
    match home {
        Some(h) => {
            if text::same(value, "~") {
                return h.clone();
            }
            match text::strip_prefix(value, "~/") {
                Some(rest) => paths::join(h.as_str(), rest.as_str()),
                None => value.to_owned(),
            }
        },
        None => value.to_owned(),
    }
}

/// A configured path: a relative one is taken from beside the configuration file.
pub fn resolve_path(base: &str, value: &str, home: &Option<String>) -> (r: String)
    ensures
        r@ == paths::joined(base@, expanded(value@, text::opt_text(*home))),
{
    paths::join(base, expand_home(value, home).as_str())
}

// ---------------------------------------------------------------------------------------------
// Profiles
// ---------------------------------------------------------------------------------------------

/// The bits of the value 0.5.
pub const HALF: u64 = 0x3fe0_0000_0000_0000;

/// The bits of the value 2.
pub const TWO: u64 = 0x4000_0000_0000_0000;

/// The bits of the value 3.
pub const THREE: u64 = 0x4008_0000_0000_0000;

/// The bits of the value 10.
pub const TEN: u64 = 0x4024_0000_0000_0000;

/// The bits of the value 30.
pub const THIRTY: u64 = 0x403e_0000_0000_0000;

/// The bits of the value 300.
pub const THREE_HUNDRED: u64 = 0x4072_c000_0000_0000;

/// The measurement profile of a name.
pub open spec fn profiled(name: Seq<char>) -> Option<ProfileRecordModel> {
    if name == "smoke"@ {
        Some(
            ProfileRecordModel {
                name,
                startup_iterations: 2,
                command_iterations: 4,
                latency_iterations: 5,
                output_iterations: 2,
                idle_seconds: Real { bits: TWO },
                settle_seconds: Real { bits: HALF },
                sample_interval_ms: 100,
                terminal_cols: 120,
                terminal_rows: 40,
                output_lines: 1_000,
                pane_count: 4,
                resize_iterations: 5,
                extra_clients: 2,
            },
        )
    } else if name == "standard"@ {
        Some(
            ProfileRecordModel {
                name,
                startup_iterations: 8,
                command_iterations: 20,
                latency_iterations: 30,
                output_iterations: 5,
                idle_seconds: Real { bits: THIRTY },
                settle_seconds: Real { bits: THREE },
                sample_interval_ms: 200,
                terminal_cols: 160,
                terminal_rows: 50,
                output_lines: 10_000,
                pane_count: 8,
                resize_iterations: 20,
                extra_clients: 2,
            },
        )
    } else if name == "marketing"@ {
        Some(
            ProfileRecordModel {
                name,
                startup_iterations: 20,
                command_iterations: 50,
                latency_iterations: 100,
                output_iterations: 10,
                idle_seconds: Real { bits: THREE_HUNDRED },
                settle_seconds: Real { bits: TEN },
                sample_interval_ms: 500,
                terminal_cols: 160,
                terminal_rows: 50,
                output_lines: 50_000,
                pane_count: 16,
                resize_iterations: 40,
                extra_clients: 2,
            },
        )
    } else {
        None
    }
}

/// The measurement profile of a name.
pub fn profile(name: &str) -> (r: Result<ProfileRecord, String>)
    ensures
        match r {
            Ok(p) => profiled(name@) == Some(p@),
            Err(error) => profiled(name@) is None && error@ == "unknown profile "@
                + text::debugged(name@) + "; use smoke, standard, or marketing"@,
        },
{
    if text::same(name, "smoke") {
        Ok(
            ProfileRecord {
                name: name.to_owned(),
                startup_iterations: 2,
                command_iterations: 4,
                latency_iterations: 5,
                output_iterations: 2,
                idle_seconds: Real { bits: TWO },
                settle_seconds: Real { bits: HALF },
                sample_interval_ms: 100,
                terminal_cols: 120,
                terminal_rows: 40,
                output_lines: 1_000,
                pane_count: 4,
                resize_iterations: 5,
                extra_clients: 2,
            },
        )
    } else if text::same(name, "standard") {
        Ok(
            ProfileRecord {
                name: name.to_owned(),
                startup_iterations: 8,
                command_iterations: 20,
                latency_iterations: 30,
                output_iterations: 5,
                idle_seconds: Real { bits: THIRTY },
                settle_seconds: Real { bits: THREE },
                sample_interval_ms: 200,
                terminal_cols: 160,
                terminal_rows: 50,
                output_lines: 10_000,
                pane_count: 8,
                resize_iterations: 20,
                extra_clients: 2,
            },
        )
    } else if text::same(name, "marketing") {
        Ok(
            ProfileRecord {
                name: name.to_owned(),
                startup_iterations: 20,
                command_iterations: 50,
                latency_iterations: 100,
                output_iterations: 10,
                idle_seconds: Real { bits: THREE_HUNDRED },
                settle_seconds: Real { bits: TEN },
                sample_interval_ms: 500,
                terminal_cols: 160,
                terminal_rows: 50,
                output_lines: 50_000,
                pane_count: 16,
                resize_iterations: 40,
                extra_clients: 2,
            },
        )
    } else {
        Err(
            text::cat(
                text::cat("unknown profile ".to_owned(), text::debug_text(name).as_str()),
                "; use smoke, standard, or marketing",
            ),
        )
    }
}

} // verus!
