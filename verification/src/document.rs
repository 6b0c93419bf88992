//! The comparison document, line by line.

use vstd::prelude::*;
use crate::decimal;
use crate::measure::Real;
use crate::model::{
    AssuranceFinding, AssuranceFindingModel, BenchmarkStatus, ContenderResult,
    ContenderResultModel, MetricDirection, RunReport, RunReportModel,
};
use crate::textmap;
use crate::model;
use crate::privacy;
use crate::report;
use crate::standings;
use crate::standings::{MetricRow, MetricRowModel};
use crate::text;

verus! {

// ---------------------------------------------------------------------------------------------
// Figures
// ---------------------------------------------------------------------------------------------

/// A score and how it is written.
#[derive(Debug)]
pub struct Score {
    pub value: Real,
    pub text: String,
}

/// What a `Score` says.
#[verifier::ext_equal]
pub ghost struct ScoreModel {
    pub value: Real,
    pub text: Seq<char>,
}

impl View for Score {
    type V = ScoreModel;

    open spec fn view(&self) -> ScoreModel {
        ScoreModel {
            value: self.value,
            text: self.text@,
        }
    }
}

/// The views of a list.
pub open spec fn score_cell_views(list: Seq<Score>) -> Seq<ScoreModel> {
    list.map_values(|x: Score| x@)
}

/// How the values of one metric row are written, and how many lie within one percent of the best.
#[derive(Debug)]
pub struct RowFigures {
    pub cells: Vec<String>,
    pub tied: usize,
}

/// What a `RowFigures` says.
#[verifier::ext_equal]
pub ghost struct RowFiguresModel {
    pub cells: Seq<Seq<char>>,
    pub tied: usize,
}

impl View for RowFigures {
    type V = RowFiguresModel;

    open spec fn view(&self) -> RowFiguresModel {
        RowFiguresModel {
            cells: text::texts(self.cells@),
            tied: self.tied,
        }
    }
}

/// The views of a list.
pub open spec fn row_figure_views(list: Seq<RowFigures>) -> Seq<RowFiguresModel> {
    list.map_values(|x: RowFigures| x@)
}

/// The figures of one run: the balanced index of each contender and one entry for each metric row.
#[derive(Debug)]
pub struct ReportFigures {
    pub scores: Vec<Score>,
    pub rows: Vec<RowFigures>,
}

/// What a `ReportFigures` says.
#[verifier::ext_equal]
pub ghost struct ReportFiguresModel {
    pub scores: Seq<ScoreModel>,
    pub rows: Seq<RowFiguresModel>,
}

impl View for ReportFigures {
    type V = ReportFiguresModel;

    open spec fn view(&self) -> ReportFiguresModel {
        ReportFiguresModel {
            scores: score_cell_views(self.scores@),
            rows: row_figure_views(self.rows@),
        }
    }
}

/// The views of a list.
pub open spec fn report_figure_views(list: Seq<ReportFigures>) -> Seq<ReportFiguresModel> {
    list.map_values(|x: ReportFigures| x@)
}

/// A weighted mean of ratings; it counts where the weights are positive.
#[derive(Debug)]
pub struct Weighted {
    pub counted: bool,
    pub value: Real,
    pub text: String,
}

/// What a `Weighted` says.
#[verifier::ext_equal]
pub ghost struct WeightedModel {
    pub counted: bool,
    pub value: Real,
    pub text: Seq<char>,
}

impl View for Weighted {
    type V = WeightedModel;

    open spec fn view(&self) -> WeightedModel {
        WeightedModel {
            counted: self.counted,
            value: self.value,
            text: self.text@,
        }
    }
}

/// The views of a list.
pub open spec fn weighted_views(list: Seq<Weighted>) -> Seq<WeightedModel> {
    list.map_values(|x: Weighted| x@)
}

/// The rating of each contender in one category.
#[derive(Debug)]
pub struct CategoryFigures {
    pub cells: Vec<Weighted>,
}

/// What a `CategoryFigures` says.
#[verifier::ext_equal]
pub ghost struct CategoryFiguresModel {
    pub cells: Seq<WeightedModel>,
}

impl View for CategoryFigures {
    type V = CategoryFiguresModel;

    open spec fn view(&self) -> CategoryFiguresModel {
        CategoryFiguresModel {
            cells: weighted_views(self.cells@),
        }
    }
}

/// The views of a list.
pub open spec fn category_views(list: Seq<CategoryFigures>) -> Seq<CategoryFiguresModel> {
    list.map_values(|x: CategoryFigures| x@)
}

/// Everything in the document that takes arithmetic.
#[derive(Debug)]
pub struct Figures {
    pub reports: Vec<ReportFigures>,
    pub categories: Vec<CategoryFigures>,
}

/// What a `Figures` says.
#[verifier::ext_equal]
pub ghost struct FiguresModel {
    pub reports: Seq<ReportFiguresModel>,
    pub categories: Seq<CategoryFiguresModel>,
}

impl View for Figures {
    type V = FiguresModel;

    open spec fn view(&self) -> FiguresModel {
        FiguresModel {
            reports: report_figure_views(self.reports@),
            categories: category_views(self.categories@),
        }
    }
}

/// The text at the index; empty where there is none.
pub open spec fn text_at(list: Seq<Seq<char>>, i: int) -> Seq<char> {
    if 0 <= i < list.len() {
        list[i]
    } else {
        ""@
    }
}

fn text_or_empty(list: &Vec<String>, i: usize) -> (r: String)
    ensures
        r@ == text_at(text::texts(list@), i as int),
{
    if i < list.len() {
        list[i].clone()
    } else {
        "".to_owned()
    }
}

/// The figures of the run at the index; none where they are missing.
pub open spec fn run_figures(f: FiguresModel, i: int) -> ReportFiguresModel {
    if 0 <= i < f.reports.len() {
        f.reports[i]
    } else {
        ReportFiguresModel { scores: Seq::empty(), rows: Seq::empty() }
    }
}

pub open spec fn row_figures(f: ReportFiguresModel, i: int) -> RowFiguresModel {
    if 0 <= i < f.rows.len() {
        f.rows[i]
    } else {
        RowFiguresModel { cells: Seq::empty(), tied: 0 }
    }
}

pub open spec fn computed_scores(f: ReportFiguresModel) -> Seq<Real> {
    f.scores.map_values(|s: ScoreModel| s.value)
}

/// The rating that the contender has in the category, where it has one that counts.
pub open spec fn rating(
    f: FiguresModel,
    contenders: Seq<ContenderResultModel>,
    names: Seq<Seq<char>>,
    c: int,
    k: int,
) -> Option<(Real, Seq<char>)> {
    let list = contenders[k].assurance;
    if standings::ratings(list, names[c], list.len() as int).len() > 0 && c < f.categories.len()
        && k < f.categories[c].cells.len() && f.categories[c].cells[k].counted {
        Some((f.categories[c].cells[k].value, f.categories[c].cells[k].text))
    } else {
        None
    }
}

fn rating_of(f: &Figures, contender: &ContenderResult, name: &str, c: usize, k: usize) -> (r: Option<
    (Real, String),
>)
    ensures
        ({
            let list = contender@.assurance;
            let counts = standings::ratings(list, name@, list.len() as int).len() > 0 && c
                < f@.categories.len() && k < f@.categories[c as int].cells.len()
                && f@.categories[c as int].cells[k as int].counted;
            match r {
                Some((v, t)) => counts && v == f@.categories[c as int].cells[k as int].value && t@
                    == f@.categories[c as int].cells[k as int].text,
                None => !counts,
            }
        }),
{
    if standings::assurance_ratings(contender, name).len() == 0 || c >= f.categories.len() {
        return None;
    }
    let cells: &Vec<Weighted> = &f.categories[c].cells;
    assert(f@.categories[c as int] == f.categories@[c as int]@);
    if k >= cells.len() {
        return None;
    }
    assert(f@.categories[c as int].cells[k as int] == cells@[k as int]@);
    if cells[k].counted {
        Some((cells[k].value, cells[k].text.clone()))
    } else {
        None
    }
}

// ---------------------------------------------------------------------------------------------
// Pieces of lines
// ---------------------------------------------------------------------------------------------

pub open spec fn host_label(r: RunReportModel) -> Seq<char> {
    (if r.host.wsl {
        "WSL "@
    } else {
        ""@
    }) + r.host.os + " / "@ + r.host.architecture + " ("@ + r.host.hostname + ")"@
}

fn host_label_of(r: &RunReport) -> (s: String)
    ensures
        s@ == host_label(r@),
{
    let head: &str = if r.host.wsl {
        "WSL "
    } else {
        ""
    };
    let named: String = text::cat(text::cat(head.to_owned(), r.host.os.as_str()), " / ");
    text::cat(
        text::cat(
            text::cat(text::cat(named, r.host.architecture.as_str()), " ("),
            r.host.hostname.as_str(),
        ),
        ")",
    )
}

pub open spec fn display_names(r: RunReportModel) -> Seq<Seq<char>> {
    r.contenders.map_values(|c: ContenderResultModel| c.display_name)
}

/// The display names with bars between them.
pub open spec fn headers(r: RunReportModel) -> Seq<char> {
    text::join(display_names(r), " | "@)
}

fn headers_of(r: &RunReport) -> (s: String)
    ensures
        s@ == headers(r@),
{
    let mut names: Vec<String> = Vec::new();
    let mut k: usize = 0;
    while k < r.contenders.len()
        invariant
            k <= r.contenders@.len(),
            text::texts(names@) =~= display_names(r@).take(k as int),
        decreases r.contenders@.len() - k,
    {
        assert(r@.contenders[k as int] == r.contenders@[k as int]@);
        text::push_text(&mut names, r.contenders[k].display_name.clone());
        k = k + 1;
    }
    assert(display_names(r@).take(k as int) =~= display_names(r@));
    text::joined(&names, " | ")
}

/// The same cell for every contender.
pub open spec fn columns(cell: Seq<char>, r: RunReportModel) -> Seq<char> {
    text::join(privacy::repeated(cell, r.contenders.len()), " | "@)
}

fn columns_of(cell: &str, r: &RunReport) -> (s: String)
    ensures
        s@ == columns(cell@, r@),
{
    let cells: Vec<String> = privacy::repeat_text(cell, r.contenders.len());
    text::joined(&cells, " | ")
}

/// The head of a table with one column for each contender.
pub open spec fn table_head(
    first: Seq<char>,
    r: RunReportModel,
    last: Seq<char>,
    rule: Seq<char>,
    end: Seq<char>,
) -> Seq<Seq<char>> {
    seq!["| "@ + first + " | "@ + headers(r) + last, "| --- | "@ + columns(rule, r) + end]
}

fn table_head_of(first: &str, r: &RunReport, last: &str, rule: &str, end: &str) -> (s: Vec<String>)
    ensures
        text::texts(s@) == table_head(first@, r@, last@, rule@, end@),
{
    let mut out: Vec<String> = Vec::new();
    let head: String = text::cat(text::cat("| ".to_owned(), first), " | ");
    text::push_text(&mut out, text::cat(text::cat(head, headers_of(r).as_str()), last));
    text::push_text(
        &mut out,
        text::cat(text::cat("| --- | ".to_owned(), columns_of(rule, r).as_str()), end),
    );
    assert(text::texts(out@) =~= table_head(first@, r@, last@, rule@, end@));
    out
}

pub open spec fn escaped(s: Seq<char>) -> Seq<char>
    decreases s.len(),
{
    if s.len() == 0 {
        Seq::empty()
    } else {
        escaped(s.drop_last()) + if s.last() == '|' {
            "\\|"@
        } else if s.last() == '\n' {
            " "@
        } else {
            seq![s.last()]
        }
    }
}

/// The text as a table cell: bars are escaped and line ends become spaces.
pub fn escape_cell(value: &str) -> (r: String)
    ensures
        r@ == escaped(value@),
{
    let chars: Vec<char> = text::chars_of(value);
    let mut out: String = String::new();
    let mut i: usize = 0;
    assert(chars@.take(0) =~= Seq::empty());
    while i < chars.len()
        invariant
            i <= chars@.len(),
            chars@ == value@,
            out@ == escaped(chars@.take(i as int)),
        decreases chars@.len() - i,
    {
        assert(chars@.take(i + 1).drop_last() =~= chars@.take(i as int));
        assert(chars@.take(i + 1).last() == chars@[i as int]);
        let ghost before = out@;
        if chars[i] == '|' {
            out = text::cat(out, "\\|");
        } else if chars[i] == '\n' {
            out = text::cat(out, " ");
        } else {
            out.push(chars[i]);
            assert(out@ =~= before + seq![chars@[i as int]]);
        }
        i = i + 1;
    }
    assert(chars@.take(i as int) =~= chars@);
    out
}

/// The upper-case form of a character, which may be several characters.
pub uninterp spec fn uppercase(c: char) -> Seq<char>;

/// `char::to_uppercase`: the upper-case mapping of the character. An ASCII lower-case letter has
/// the one letter 32 places before it.
#[verifier::external_body]
fn to_uppercase(c: char) -> (r: String)
    ensures
        r@ == uppercase(c),
        'a' <= c <= 'z' ==> r@ == seq![((c as u8) - 32) as char],
{
    c.to_uppercase().to_string()
}

pub open spec fn titled(s: Seq<char>) -> Seq<char> {
    if s.len() == 0 {
        ""@
    } else {
        uppercase(s[0]) + s.skip(1)
    }
}

/// The text with its first character in upper case.
pub fn title_case(value: &str) -> (r: String)
    ensures
        r@ == titled(value@),
        value@.len() > 0 && 'a' <= value@[0] <= 'z' ==> r@ == value@.update(
            0,
            ((value@[0] as u8) - 32) as char,
        ),
{
    let chars: Vec<char> = text::chars_of(value);
    if chars.len() == 0 {
        return "".to_owned();
    }
    let head: String = to_uppercase(chars[0]);
    let tail: String = text::text_range(&chars, 1, chars.len());
    assert(tail@ =~= value@.skip(1));
    let r: String = text::cat(head, tail.as_str());
    proof {
        if 'a' <= value@[0] <= 'z' {
            assert(r@ =~= value@.update(0, ((value@[0] as u8) - 32) as char));
        }
    }
    r
}

/// The display name of the contender, or its identifier where there is no such contender.
pub open spec fn shown_name(r: RunReportModel, id: Seq<char>) -> Seq<char> {
    match report::first_identified(r.contenders, id, 0) {
        Some(k) => r.contenders[k].display_name,
        None => id,
    }
}

fn display_name(r: &RunReport, id: &str) -> (s: String)
    ensures
        s@ == shown_name(r@, id@),
{
    match report::find_contender(&r.contenders, id) {
        Some(k) => {
            assert(r@.contenders[k as int] == r.contenders@[k as int]@);
            r.contenders[k].display_name.clone()
        },
        None => id.to_owned(),
    }
}

// ---------------------------------------------------------------------------------------------
// Summary
// ---------------------------------------------------------------------------------------------

pub const GENERATED_TAIL: &'static str =
    " isolated run(s). Results are comparative measurements, not universal constants.";

pub const RANKED_TAIL: &'static str =
    "/100). The index normalizes only the core measured metrics listed below; inspect the raw table before making a claim.";

pub const UNRANKED_TAIL: &'static str =
    ":** no balanced performance ranking is available because no complete core metric set was measured.";

pub const ASSURANCE_TAIL: &'static str =
    "/100). This is a transparent review rubric, not a penetration test or certification.";

pub open spec fn opening(first: RunReportModel, count: nat) -> Seq<Seq<char>> {
    seq![
        "# "@ + privacy::TITLE@,
        ""@,
        "> Generated by `ut-compare "@ + first.tool_version + "` from "@ + decimal::decimal(count)
            + GENERATED_TAIL@,
        ""@,
        "## Executive summary"@,
        ""@,
    ]
}

fn opening_of(first: &RunReport, count: usize) -> (s: Vec<String>)
    ensures
        text::texts(s@) == opening(first@, count as nat),
{
    let mut out: Vec<String> = Vec::new();
    text::push_text(&mut out, text::cat("# ".to_owned(), privacy::TITLE));
    text::push_str(&mut out, "");
    let head: String = text::cat(
        text::cat("> Generated by `ut-compare ".to_owned(), first.tool_version.as_str()),
        "` from ",
    );
    text::push_text(
        &mut out,
        text::cat(
            text::cat(head, decimal::decimal_text(count as u64).as_str()),
            GENERATED_TAIL,
        ),
    );
    text::push_str(&mut out, "");
    text::push_str(&mut out, "## Executive summary");
    text::push_str(&mut out, "");
    assert(text::texts(out@) =~= opening(first@, count as nat));
    out
}

/// Each contender's identifier and the score that counts.
pub open spec fn entries(r: RunReportModel, f: ReportFiguresModel) -> Seq<(Seq<char>, Real)> {
    let scores = standings::scores(r.contenders, computed_scores(f));
    Seq::new(r.contenders.len(), |k: int| (r.contenders[k].id, scores[k]))
}

/// How the score of the contender is written.
pub open spec fn score_text(r: RunReportModel, f: ReportFiguresModel, id: Seq<char>) -> Seq<char> {
    match report::first_identified(r.contenders, id, 0) {
        Some(k) => if standings::scored_rows(r.contenders).len() == 0 {
            "0.0"@
        } else if standings::unbeaten(r.contenders, k) {
            "100.0"@
        } else if k < f.scores.len() {
            f.scores[k].text
        } else {
            "0.0"@
        },
        None => "0.0"@,
    }
}

/// The contenders of the run in their ranking on the balanced index.
pub open spec fn standing(r: RunReportModel, f: ReportFiguresModel) -> Seq<(Seq<char>, Real)> {
    standings::ranking(entries(r, f))
}

pub open spec fn summary_line(r: RunReportModel, f: ReportFiguresModel) -> Seq<char> {
    let order = standing(r, f);
    if order.len() > 0 && order[0].1.positive() {
        "- **"@ + host_label(r) + ":** "@ + shown_name(r, order[0].0)
            + " ranks first on the balanced performance index ("@ + score_text(r, f, order[0].0)
            + RANKED_TAIL@
    } else {
        "- **"@ + host_label(r) + UNRANKED_TAIL@
    }
}

fn standing_of(r: &RunReport, f: &ReportFigures) -> (s: Vec<(String, Real)>)
    ensures
        standings::score_views(s@) == standing(r@, f@),
        s@.len() == r@.contenders.len(),
{
    let mut computed: Vec<Real> = Vec::new();
    let mut i: usize = 0;
    while i < f.scores.len()
        invariant
            i <= f.scores@.len(),
            computed@ =~= computed_scores(f@).take(i as int),
        decreases f.scores@.len() - i,
    {
        assert(f@.scores[i as int] == f.scores@[i as int]@);
        computed.push(f.scores[i].value);
        i = i + 1;
    }
    assert(computed@ =~= computed_scores(f@));
    let scores: Vec<Real> = standings::performance_scores(r, &computed);
    let mut list: Vec<(String, Real)> = Vec::new();
    let mut k: usize = 0;
    while k < r.contenders.len()
        invariant
            k <= r.contenders@.len(),
            scores@ == standings::scores(r@.contenders, computed_scores(f@)),
            standings::score_views(list@) =~= entries(r@, f@).take(k as int),
            list@.len() == k,
        decreases r.contenders@.len() - k,
    {
        assert(r@.contenders[k as int] == r.contenders@[k as int]@);
        let ghost before = standings::score_views(list@);
        let item: (String, Real) = (r.contenders[k].id.clone(), scores[k]);
        list.push(item);
        assert(standings::score_views(list@) =~= before.push((item.0@, item.1)));
        k = k + 1;
    }
    assert(entries(r@, f@).take(k as int) =~= entries(r@, f@));
    standings::rank(&list)
}

fn score_text_of(r: &RunReport, f: &ReportFigures, id: &str) -> (s: String)
    ensures
        s@ == score_text(r@, f@, id@),
{
    match report::find_contender(&r.contenders, id) {
        Some(k) => if standings::index_inputs(r).len() == 0 {
            "0.0".to_owned()
        } else if standings::is_unbeaten(r, k) {
            "100.0".to_owned()
        } else if k < f.scores.len() {
            assert(f@.scores[k as int] == f.scores@[k as int]@);
            f.scores[k].text.clone()
        } else {
            "0.0".to_owned()
        },
        None => "0.0".to_owned(),
    }
}

fn summary_line_of(r: &RunReport, f: &ReportFigures) -> (s: String)
    ensures
        s@ == summary_line(r@, f@),
{
    let order: Vec<(String, Real)> = standing_of(r, f);
    let head: String = text::cat("- **".to_owned(), host_label_of(r).as_str());
    if order.len() > 0 && order[0].1.is_positive() {
        assert(standing(r@, f@)[0] == (order@[0].0@, order@[0].1));
        let named: String = text::cat(
            text::cat(head, ":** "),
            display_name(r, order[0].0.as_str()).as_str(),
        );
        text::cat(
            text::cat(
                text::cat(named, " ranks first on the balanced performance index ("),
                score_text_of(r, f, order[0].0.as_str()).as_str(),
            ),
            RANKED_TAIL,
        )
    } else {
        assert(order@.len() > 0 ==> standing(r@, f@)[0] == (order@[0].0@, order@[0].1));
        text::cat(head, UNRANKED_TAIL)
    }
}

/// The summary lines of the first `upto` runs.
pub open spec fn summary_lines(
    list: Seq<RunReportModel>,
    f: FiguresModel,
    upto: int,
) -> Seq<Seq<char>>
    decreases upto,
{
    if upto <= 0 {
        Seq::empty()
    } else {
        summary_lines(list, f, upto - 1).push(
            summary_line(list[upto - 1], run_figures(f, upto - 1)),
        )
    }
}

/// The ratings of the category that count.
pub open spec fn rated(
    r: RunReportModel,
    f: FiguresModel,
    names: Seq<Seq<char>>,
    c: int,
    upto: int,
) -> Seq<(Seq<char>, Real)>
    decreases upto,
{
    if upto <= 0 {
        Seq::empty()
    } else {
        let front = rated(r, f, names, c, upto - 1);
        match rating(f, r.contenders, names, c, upto - 1) {
            Some((value, _)) => front.push((r.contenders[upto - 1].id, value)),
            None => front,
        }
    }
}

/// How the rating of the contender is written.
pub open spec fn rating_text(
    r: RunReportModel,
    f: FiguresModel,
    names: Seq<Seq<char>>,
    c: int,
    id: Seq<char>,
) -> Seq<char> {
    match report::first_identified(r.contenders, id, 0) {
        Some(k) => match rating(f, r.contenders, names, c, k) {
            Some((_, t)) => t,
            None => "n/a"@,
        },
        None => "n/a"@,
    }
}

/// The line that names who leads the category, where someone does.
pub open spec fn category_lead(
    r: RunReportModel,
    f: FiguresModel,
    names: Seq<Seq<char>>,
    c: int,
) -> Option<Seq<char>> {
    let order = standings::ranking(rated(r, f, names, c, r.contenders.len() as int));
    if order.len() > 0 {
        Some(
            "- **"@ + titled(names[c]) + " assurance:** "@ + shown_name(r, order[0].0)
                + " has the highest evidence-weighted checklist score ("@ + rating_text(
                r,
                f,
                names,
                c,
                order[0].0,
            ) + ASSURANCE_TAIL@,
        )
    } else {
        None
    }
}

pub open spec fn category_leads(
    r: RunReportModel,
    f: FiguresModel,
    names: Seq<Seq<char>>,
    upto: int,
) -> Seq<Seq<char>>
    decreases upto,
{
    if upto <= 0 {
        Seq::empty()
    } else {
        let front = category_leads(r, f, names, upto - 1);
        match category_lead(r, f, names, upto - 1) {
            Some(line) => front.push(line),
            None => front,
        }
    }
}

fn rated_of(r: &RunReport, f: &Figures, names: &Vec<String>, c: usize) -> (s: Vec<(String, Real)>)
    requires
        c < names@.len(),
    ensures
        standings::score_views(s@) == rated(
            r@,
            f@,
            text::texts(names@),
            c as int,
            r@.contenders.len() as int,
        ),
{
    let ghost view = text::texts(names@);
    let mut list: Vec<(String, Real)> = Vec::new();
    let mut k: usize = 0;
    assert(standings::score_views(list@) =~= Seq::empty());
    while k < r.contenders.len()
        invariant
            k <= r.contenders@.len(),
            c < names@.len(),
            view == text::texts(names@),
            standings::score_views(list@) == rated(r@, f@, view, c as int, k as int),
        decreases r.contenders@.len() - k,
    {
        assert(r@.contenders[k as int] == r.contenders@[k as int]@);
        assert(view[c as int] == names@[c as int]@);
        let ghost before = standings::score_views(list@);
        match rating_of(f, &r.contenders[k], names[c].as_str(), c, k) {
            Some((value, t)) => {
                assert(rating(f@, r@.contenders, view, c as int, k as int) == Some((value, t@)));
                let item: (String, Real) = (r.contenders[k].id.clone(), value);
                list.push(item);
                assert(standings::score_views(list@) =~= before.push((item.0@, item.1)));
            },
            None => {
                assert(rating(f@, r@.contenders, view, c as int, k as int) is None);
            },
        }
        k = k + 1;
    }
    list
}

fn rating_text_of(r: &RunReport, f: &Figures, names: &Vec<String>, c: usize, id: &str) -> (s: String)
    requires
        c < names@.len(),
    ensures
        s@ == rating_text(r@, f@, text::texts(names@), c as int, id@),
{
    match report::find_contender(&r.contenders, id) {
        Some(k) => {
            assert(r@.contenders[k as int] == r.contenders@[k as int]@);
            assert(text::texts(names@)[c as int] == names@[c as int]@);
            match rating_of(f, &r.contenders[k], names[c].as_str(), c, k) {
                Some((_, t)) => t,
                None => "n/a".to_owned(),
            }
        },
        None => "n/a".to_owned(),
    }
}

fn category_lead_of(r: &RunReport, f: &Figures, names: &Vec<String>, c: usize) -> (s: Option<String>)
    requires
        c < names@.len(),
    ensures
        text::opt_text(s) == category_lead(r@, f@, text::texts(names@), c as int),
{
    let list: Vec<(String, Real)> = rated_of(r, f, names, c);
    let order: Vec<(String, Real)> = standings::rank(&list);
    assert(text::texts(names@)[c as int] == names@[c as int]@);
    if order.len() == 0 {
        return None;
    }
    assert(standings::score_views(order@)[0] == (order@[0].0@, order@[0].1));
    let head: String = text::cat(
        text::cat("- **".to_owned(), title_case(names[c].as_str()).as_str()),
        " assurance:** ",
    );
    let named: String = text::cat(head, display_name(r, order[0].0.as_str()).as_str());
    let scored: String = text::cat(
        text::cat(named, " has the highest evidence-weighted checklist score ("),
        rating_text_of(r, f, names, c, order[0].0.as_str()).as_str(),
    );
    Some(text::cat(scored, ASSURANCE_TAIL))
}

/// The summary: one line for each run, one for each category that someone leads.
pub open spec fn summary(list: Seq<RunReportModel>, f: FiguresModel) -> Seq<Seq<char>> {
    let first = list[0];
    let names = standings::categories(first.contenders, first.contenders.len() as int);
    opening(first, list.len()) + summary_lines(list, f, list.len() as int) + category_leads(
        first,
        f,
        names,
        names.len() as int,
    ).push(""@)
}

fn no_figures() -> (r: ReportFigures)
    ensures
        r@ == (ReportFiguresModel { scores: Seq::empty(), rows: Seq::empty() }),
{
    let r: ReportFigures = ReportFigures { scores: Vec::new(), rows: Vec::new() };
    assert(r@.scores =~= Seq::empty());
    assert(r@.rows =~= Seq::empty());
    r
}

fn summary_of(list: &Vec<RunReport>, f: &Figures) -> (s: Vec<String>)
    requires
        list@.len() > 0,
    ensures
        text::texts(s@) == summary(model::report_views(list@), f@),
{
    let ghost view = model::report_views(list@);
    let first: &RunReport = &list[0];
    assert(view[0] == first@);
    let mut out: Vec<String> = opening_of(first, list.len());
    let ghost head = text::texts(out@);
    let bare: ReportFigures = no_figures();
    let mut i: usize = 0;
    assert(head + summary_lines(view, f@, 0) =~= head);
    while i < list.len()
        invariant
            i <= list@.len(),
            view == model::report_views(list@),
            bare@ == (ReportFiguresModel { scores: Seq::empty(), rows: Seq::empty() }),
            text::texts(out@) =~= head + summary_lines(view, f@, i as int),
        decreases list@.len() - i,
    {
        assert(view[i as int] == list@[i as int]@);
        assert(i < f@.reports.len() ==> f@.reports[i as int] == f.reports@[i as int]@);
        let line: String = if i < f.reports.len() {
            summary_line_of(&list[i], &f.reports[i])
        } else {
            summary_line_of(&list[i], &bare)
        };
        text::push_text(&mut out, line);
        i = i + 1;
    }
    let names: Vec<String> = standings::assurance_categories(first);
    let ghost words = text::texts(names@);
    let ghost middle = text::texts(out@);
    let mut c: usize = 0;
    assert(middle + category_leads(first@, f@, words, 0) =~= middle);
    while c < names.len()
        invariant
            c <= names@.len(),
            words == text::texts(names@),
            text::texts(out@) =~= middle + category_leads(first@, f@, words, c as int),
        decreases names@.len() - c,
    {
        match category_lead_of(first, f, &names, c) {
            Some(line) => {
                text::push_text(&mut out, line);
            },
            None => {},
        }
        c = c + 1;
    }
    text::push_str(&mut out, "");
    assert(text::texts(out@) =~= summary(view, f@));
    out
}

// ---------------------------------------------------------------------------------------------
// Identity
// ---------------------------------------------------------------------------------------------

/// The first twelve characters of the commit.
pub open spec fn short_commit(commit: Option<Seq<char>>) -> Seq<char> {
    match commit {
        Some(v) => if v.len() > 12 {
            v.take(12)
        } else {
            v
        },
        None => "unknown"@,
    }
}

pub open spec fn revision(c: ContenderResultModel) -> Seq<char> {
    c.display_name + " `"@ + short_commit(c.source.commit) + "`"@ + if c.source.dirty == Some(true) {
        " (dirty)"@
    } else {
        ""@
    }
}

pub open spec fn revisions(r: RunReportModel) -> Seq<Seq<char>> {
    r.contenders.map_values(|c: ContenderResultModel| revision(c))
}

pub open spec fn identity_line(r: RunReportModel) -> Seq<char> {
    "| "@ + escaped(host_label(r)) + " | "@ + r.profile.name + " | "@ + escaped(r.host.kernel)
        + " | "@ + r.host.architecture + " | "@ + (if r.host.wsl {
        "yes"@
    } else {
        "no"@
    }) + " | "@ + text::join(revisions(r), "<br>"@) + " |"@
}

fn revision_of(c: &ContenderResult) -> (s: String)
    ensures
        s@ == revision(c@),
{
    let commit: String = match &c.source.commit {
        Some(v) => {
            let chars: Vec<char> = text::chars_of(v.as_str());
            if chars.len() > 12 {
                let short: String = text::text_range(&chars, 0, 12);
                assert(short@ =~= v@.take(12));
                short
            } else {
                v.clone()
            }
        },
        None => "unknown".to_owned(),
    };
    let dirty: bool = match c.source.dirty {
        Some(b) => b,
        None => false,
    };
    let tail: &str = if dirty {
        " (dirty)"
    } else {
        ""
    };
    text::cat(
        text::cat(text::cat(text::cat(c.display_name.clone(), " `"), commit.as_str()), "`"),
        tail,
    )
}

fn identity_line_of(r: &RunReport) -> (s: String)
    ensures
        s@ == identity_line(r@),
{
    let mut list: Vec<String> = Vec::new();
    let mut k: usize = 0;
    while k < r.contenders.len()
        invariant
            k <= r.contenders@.len(),
            text::texts(list@) =~= revisions(r@).take(k as int),
        decreases r.contenders@.len() - k,
    {
        assert(r@.contenders[k as int] == r.contenders@[k as int]@);
        text::push_text(&mut list, revision_of(&r.contenders[k]));
        k = k + 1;
    }
    assert(revisions(r@).take(k as int) =~= revisions(r@));
    let all: String = text::joined(&list, "<br>");
    let host: String = text::cat("| ".to_owned(), escape_cell(host_label_of(r).as_str()).as_str());
    let profile: String = text::cat(text::cat(host, " | "), r.profile.name.as_str());
    let kernel: String = text::cat(
        text::cat(profile, " | "),
        escape_cell(r.host.kernel.as_str()).as_str(),
    );
    let machine: String = text::cat(text::cat(kernel, " | "), r.host.architecture.as_str());
    let wsl: &str = if r.host.wsl {
        "yes"
    } else {
        "no"
    };
    let subsystem: String = text::cat(text::cat(machine, " | "), wsl);
    text::cat(text::cat(text::cat(subsystem, " | "), all.as_str()), " |")
}

pub open spec fn identity_lines(list: Seq<RunReportModel>) -> Seq<Seq<char>> {
    list.map_values(|r: RunReportModel| identity_line(r))
}

pub open spec fn notes(first: RunReportModel) -> Seq<Seq<char>> {
    first.fairness.notes.map_values(|n: Seq<char>| "- "@ + n)
}

pub open spec fn geometry_line(first: RunReportModel) -> Seq<char> {
    "- Geometry is "@ + decimal::decimal(first.profile.terminal_cols as nat) + "x"@
        + decimal::decimal(first.profile.terminal_rows as nat) + "; the live workload uses "@
        + decimal::decimal(first.profile.pane_count as nat) + " panes and "@ + decimal::decimal(
        first.profile.output_lines as nat,
    ) + " deterministic output lines."@
}

/// The identity of the runs, and the controls they ran under.
pub open spec fn identity(list: Seq<RunReportModel>) -> Seq<Seq<char>> {
    seq![
        "## Test identity and comparability"@,
        ""@,
        "| Host | Profile | Kernel | Architecture | WSL | Contender revisions |"@,
        "| --- | --- | --- | --- | --- | --- |"@,
    ] + identity_lines(list) + seq![""@, "The harness enforces these controls:"@, ""@] + notes(
        list[0],
    ) + seq![geometry_line(list[0]), ""@]
}

fn geometry_line_of(first: &RunReport) -> (s: String)
    ensures
        s@ == geometry_line(first@),
{
    let cols: String = decimal::decimal_text(first.profile.terminal_cols as u64);
    let rows: String = decimal::decimal_text(first.profile.terminal_rows as u64);
    let panes: String = decimal::decimal_text(first.profile.pane_count as u64);
    let lines: String = decimal::decimal_text(first.profile.output_lines as u64);
    let size: String = text::cat(
        text::cat(text::cat("- Geometry is ".to_owned(), cols.as_str()), "x"),
        rows.as_str(),
    );
    let load: String = text::cat(text::cat(size, "; the live workload uses "), panes.as_str());
    text::cat(
        text::cat(text::cat(load, " panes and "), lines.as_str()),
        " deterministic output lines.",
    )
}

/// Each text behind a dash.
fn dashed(list: &Vec<String>) -> (s: Vec<String>)
    ensures
        text::texts(s@) == text::texts(list@).map_values(|n: Seq<char>| "- "@ + n),
{
    let ghost view = text::texts(list@);
    let ghost wanted = view.map_values(|n: Seq<char>| "- "@ + n);
    let mut out: Vec<String> = Vec::new();
    let mut i: usize = 0;
    while i < list.len()
        invariant
            i <= list@.len(),
            view == text::texts(list@),
            wanted == view.map_values(|n: Seq<char>| "- "@ + n),
            text::texts(out@) =~= wanted.take(i as int),
        decreases list@.len() - i,
    {
        assert(view[i as int] == list@[i as int]@);
        text::push_text(&mut out, text::cat("- ".to_owned(), list[i].as_str()));
        i = i + 1;
    }
    assert(wanted.take(i as int) =~= wanted);
    out
}

fn identity_of(list: &Vec<RunReport>) -> (s: Vec<String>)
    requires
        list@.len() > 0,
    ensures
        text::texts(s@) == identity(model::report_views(list@)),
{
    let ghost view = model::report_views(list@);
    assert(view[0] == list@[0]@);
    let mut out: Vec<String> = Vec::new();
    text::push_str(&mut out, "## Test identity and comparability");
    text::push_str(&mut out, "");
    text::push_str(
        &mut out,
        "| Host | Profile | Kernel | Architecture | WSL | Contender revisions |",
    );
    text::push_str(&mut out, "| --- | --- | --- | --- | --- | --- |");
    let ghost head = text::texts(out@);
    let mut i: usize = 0;
    while i < list.len()
        invariant
            i <= list@.len(),
            view == model::report_views(list@),
            text::texts(out@) =~= head + identity_lines(view).take(i as int),
        decreases list@.len() - i,
    {
        assert(view[i as int] == list@[i as int]@);
        text::push_text(&mut out, identity_line_of(&list[i]));
        i = i + 1;
    }
    assert(identity_lines(view).take(i as int) =~= identity_lines(view));
    text::push_str(&mut out, "");
    text::push_str(&mut out, "The harness enforces these controls:");
    text::push_str(&mut out, "");
    text::push_all(&mut out, dashed(&list[0].fairness.notes));
    text::push_text(&mut out, geometry_line_of(&list[0]));
    text::push_str(&mut out, "");
    assert(text::texts(out@) =~= identity(view));
    out
}

// ---------------------------------------------------------------------------------------------
// Performance
// ---------------------------------------------------------------------------------------------

pub const RESTORATION_NOTE: &'static str =
    "Restoration is context only. tmux restart readiness measures creation of a fresh session; disk bytes remain a measured footprint, not a persistence-quality score. Missing or failed common workloads are never N/A.";

/// One line of the index table: rank, name, score and how many core metrics are present.
pub open spec fn index_line(r: RunReportModel, f: ReportFiguresModel, rank: int) -> Seq<char> {
    let id = standing(r, f)[rank].0;
    let present = match report::first_identified(r.contenders, id, 0) {
        Some(k) => report::core_present(r.contenders[k], report::core_names().len() as int),
        None => 0,
    };
    "| "@ + decimal::decimal((rank + 1) as nat) + " | "@ + shown_name(r, id) + " | "@ + score_text(
        r,
        f,
        id,
    ) + " | "@ + decimal::decimal(present) + "/"@ + decimal::decimal(report::core_names().len())
        + " |"@
}

pub open spec fn index_table(r: RunReportModel, f: ReportFiguresModel) -> Seq<Seq<char>> {
    seq![
        "| Rank | Contender | Balanced index | Core metrics present |"@,
        "| ---: | --- | ---: | ---: |"@,
    ] + Seq::new(r.contenders.len(), |rank: int| index_line(r, f, rank)) + seq![""@]
}

fn index_line_of(r: &RunReport, f: &ReportFigures, order: &Vec<(String, Real)>, rank: usize) -> (s:
    String)
    requires
        standings::score_views(order@) == standing(r@, f@),
        rank < order@.len(),
    ensures
        s@ == index_line(r@, f@, rank as int),
{
    let id: &str = order[rank].0.as_str();
    assert(standing(r@, f@)[rank as int].0 == order@[rank as int].0@);
    let present: usize = match report::find_contender(&r.contenders, id) {
        Some(k) => {
            assert(r@.contenders[k as int] == r.contenders@[k as int]@);
            report::count_core_present(&r.contenders[k])
        },
        None => 0,
    };
    let total: usize = report::core_metrics().len();
    let last: usize = order.len();
    assert(rank + 1 <= last);
    let number: String = decimal::decimal_text((rank + 1) as u64);
    let head: String = text::cat(text::cat("| ".to_owned(), number.as_str()), " | ");
    let named: String = text::cat(text::cat(head, display_name(r, id).as_str()), " | ");
    let scored: String = text::cat(text::cat(named, score_text_of(r, f, id).as_str()), " | ");
    let counted: String = text::cat(
        text::cat(scored, decimal::decimal_text(present as u64).as_str()),
        "/",
    );
    text::cat(text::cat(counted, decimal::decimal_text(total as u64).as_str()), " |")
}

fn index_table_of(r: &RunReport, f: &ReportFigures) -> (s: Vec<String>)
    ensures
        text::texts(s@) == index_table(r@, f@),
{
    let order: Vec<(String, Real)> = standing_of(r, f);
    let ghost wanted = Seq::new(r@.contenders.len(), |rank: int| index_line(r@, f@, rank));
    let mut out: Vec<String> = Vec::new();
    text::push_str(&mut out, "| Rank | Contender | Balanced index | Core metrics present |");
    text::push_str(&mut out, "| ---: | --- | ---: | ---: |");
    let ghost head = text::texts(out@);
    let mut i: usize = 0;
    while i < order.len()
        invariant
            i <= order@.len(),
            standings::score_views(order@) == standing(r@, f@),
            order@.len() == wanted.len(),
            forall|k: int|
                0 <= k < wanted.len() ==> #[trigger] wanted[k] == index_line(r@, f@, k),
            text::texts(out@) =~= head + wanted.take(i as int),
        decreases order@.len() - i,
    {
        text::push_text(&mut out, index_line_of(r, f, &order, i));
        i = i + 1;
    }
    assert(wanted.take(i as int) =~= wanted);
    text::push_str(&mut out, "");
    assert(text::texts(out@) =~= index_table(r@, f@));
    out
}

pub open spec fn cell(
    status: Option<BenchmarkStatus>,
    value: Option<Real>,
    written: Seq<char>,
) -> Seq<char> {
    if value is Some {
        written
    } else {
        match status {
            Some(BenchmarkStatus::Failed) => "FAILED"@,
            Some(BenchmarkStatus::Skipped) => "skipped"@,
            _ => "missing"@,
        }
    }
}

/// The cell of a metric: the value as it is written, or why there is none.
pub fn metric_cell(status: Option<BenchmarkStatus>, value: Option<Real>, written: &str) -> (r:
    String)
    ensures
        r@ == cell(status, value, written@),
{
    if value.is_some() {
        return written.to_owned();
    }
    match status {
        Some(BenchmarkStatus::Failed) => "FAILED".to_owned(),
        Some(BenchmarkStatus::Skipped) => "skipped".to_owned(),
        _ => "missing".to_owned(),
    }
}

pub open spec fn status_on(c: ContenderResultModel, name: Seq<char>) -> Option<BenchmarkStatus> {
    match report::raw(c, name) {
        Some(b) => Some(b.status),
        None => None,
    }
}

pub open spec fn cells(r: RunReportModel, row: MetricRowModel, f: RowFiguresModel) -> Seq<
    Seq<char>,
> {
    Seq::new(
        r.contenders.len(),
        |k: int| cell(status_on(r.contenders[k], row.name), row.values[k], text_at(f.cells, k)),
    )
}

/// Who wins the metric. Values within one percent of the best are a tie.
pub open spec fn winner_text(
    r: RunReportModel,
    values: Seq<Option<Real>>,
    direction: MetricDirection,
    tied: usize,
) -> Seq<char> {
    match standings::winner(values, direction) {
        Some(i) => if tied > 1 {
            "tie (within 1%)"@
        } else if i < r.contenders.len() {
            r.contenders[i].display_name
        } else {
            ""@
        },
        None => "not ranked"@,
    }
}

/// Who wins the metric, where `tied` values lie within one percent of the best.
pub fn winner_label(
    r: &RunReport,
    values: &Vec<Option<Real>>,
    direction: MetricDirection,
    tied: usize,
) -> (s: String)
    ensures
        s@ == winner_text(r@, values@, direction, tied),
{
    match standings::winner_index(values, direction) {
        Some(i) => if tied > 1 {
            "tie (within 1%)".to_owned()
        } else if i < r.contenders.len() {
            assert(r@.contenders[i as int] == r.contenders@[i as int]@);
            r.contenders[i].display_name.clone()
        } else {
            "".to_owned()
        },
        None => "not ranked".to_owned(),
    }
}

pub open spec fn metric_line(r: RunReportModel, row: MetricRowModel, f: RowFiguresModel) -> Seq<
    char,
> {
    "| `"@ + row.name + "` ("@ + row.unit + ") | "@ + text::join(cells(r, row, f), " | "@) + " | "@
        + winner_text(r, row.values, row.direction, f.tied) + " |"@
}

pub open spec fn metric_table(r: RunReportModel, f: ReportFiguresModel) -> Seq<Seq<char>> {
    let rows = standings::rows(r.contenders);
    table_head("Metric"@, r, " | Winner |"@, "---:"@, " | --- |"@) + Seq::new(
        rows.len(),
        |i: int| metric_line(r, rows[i], row_figures(f, i)),
    ) + seq![""@]
}

fn metric_line_of(r: &RunReport, row: &MetricRow, f: &RowFigures) -> (s: String)
    requires
        row@.values.len() == r@.contenders.len(),
    ensures
        s@ == metric_line(r@, row@, f@),
{
    let ghost wanted = cells(r@, row@, f@);
    let mut list: Vec<String> = Vec::new();
    let mut k: usize = 0;
    while k < r.contenders.len()
        invariant
            k <= r.contenders@.len(),
            row@.values.len() == r@.contenders.len(),
            wanted == cells(r@, row@, f@),
            text::texts(list@) =~= wanted.take(k as int),
        decreases r.contenders@.len() - k,
    {
        let c: &ContenderResult = &r.contenders[k];
        assert(r@.contenders[k as int] == c@);
        let status: Option<BenchmarkStatus> = match report::raw_metric(c, row.name.as_str()) {
            Some(b) => Some(b.status),
            None => None,
        };
        let written: String = text_or_empty(&f.cells, k);
        text::push_text(&mut list, metric_cell(status, row.values[k], written.as_str()));
        k = k + 1;
    }
    assert(wanted.take(k as int) =~= wanted);
    let all: String = text::joined(&list, " | ");
    let head: String = text::cat(text::cat("| `".to_owned(), row.name.as_str()), "` (");
    let named: String = text::cat(text::cat(head, row.unit.as_str()), ") | ");
    let filled: String = text::cat(text::cat(named, all.as_str()), " | ");
    let winner: String = winner_label(r, &row.values, row.direction, f.tied);
    text::cat(text::cat(filled, winner.as_str()), " |")
}

fn metric_table_of(r: &RunReport, f: &ReportFigures) -> (s: Vec<String>)
    ensures
        text::texts(s@) == metric_table(r@, f@),
{
    let rows: Vec<MetricRow> = standings::metric_rows(r);
    let ghost view = standings::rows(r@.contenders);
    let ghost wanted = Seq::new(
        view.len(),
        |i: int| metric_line(r@, view[i], row_figures(f@, i)),
    );
    let mut out: Vec<String> = table_head_of("Metric", r, " | Winner |", "---:", " | --- |");
    let ghost head = text::texts(out@);
    let bare: RowFigures = RowFigures { cells: Vec::new(), tied: 0 };
    assert(bare@.cells =~= Seq::empty());
    let mut i: usize = 0;
    while i < rows.len()
        invariant
            i <= rows@.len(),
            standings::row_views(rows@) == view,
            view == standings::rows(r@.contenders),
            bare@ == (RowFiguresModel { cells: Seq::empty(), tied: 0 }),
            wanted.len() == view.len(),
            forall|k: int|
                0 <= k < wanted.len() ==> #[trigger] wanted[k] == metric_line(
                    r@,
                    view[k],
                    row_figures(f@, k),
                ),
            text::texts(out@) =~= head + wanted.take(i as int),
        decreases rows@.len() - i,
    {
        assert(view[i as int] == rows@[i as int]@);
        assert(i < f@.rows.len() ==> f@.rows[i as int] == f.rows@[i as int]@);
        let line: String = if i < f.rows.len() {
            metric_line_of(r, &rows[i], &f.rows[i])
        } else {
            metric_line_of(r, &rows[i], &bare)
        };
        text::push_text(&mut out, line);
        i = i + 1;
    }
    assert(wanted.take(i as int) =~= wanted);
    text::push_str(&mut out, "");
    assert(text::texts(out@) =~= metric_table(r@, f@));
    out
}

/// What a restart brought back. Not applicable is context, and never hides a failure.
pub open spec fn restored(c: ContenderResultModel) -> Seq<char> {
    match report::raw(c, "restart_ready"@) {
        Some(b) => if b.status != BenchmarkStatus::Measured {
            "FAILED"@
        } else if textmap::value_of(b.metadata, "native_disk_restoration"@) == Some(
            "not_applicable"@,
        ) {
            "N/A (no native disk restoration)"@
        } else {
            match textmap::value_of(b.metadata, "prior_output_visible_after_restart"@) {
                Some(v) => v,
                None => "unknown"@,
            }
        },
        None => "missing"@,
    }
}

/// What a restart brought back.
pub fn restoration_cell(c: &ContenderResult) -> (r: String)
    ensures
        r@ == restored(c@),
{
    match report::raw_metric(c, "restart_ready") {
        Some(b) => {
            if b.status != BenchmarkStatus::Measured {
                return "FAILED".to_owned();
            }
            match b.metadata.get("native_disk_restoration") {
                Some(v) => {
                    if text::same(v.as_str(), "not_applicable") {
                        return "N/A (no native disk restoration)".to_owned();
                    }
                },
                None => {},
            }
            match b.metadata.get("prior_output_visible_after_restart") {
                Some(v) => v,
                None => "unknown".to_owned(),
            }
        },
        None => "missing".to_owned(),
    }
}

pub open spec fn restorations(r: RunReportModel) -> Seq<Seq<char>> {
    r.contenders.map_values(|c: ContenderResultModel| restored(c))
}

pub open spec fn restoration_table(r: RunReportModel) -> Seq<Seq<char>> {
    table_head("Feature context"@, r, " |"@, "---"@, " |"@) + seq![
        "| Prior output after graceful server restart | "@ + text::join(restorations(r), " | "@)
            + " |"@,
        ""@,
        RESTORATION_NOTE@,
        ""@,
    ]
}

fn restoration_table_of(r: &RunReport) -> (s: Vec<String>)
    ensures
        text::texts(s@) == restoration_table(r@),
{
    let mut list: Vec<String> = Vec::new();
    let mut k: usize = 0;
    while k < r.contenders.len()
        invariant
            k <= r.contenders@.len(),
            text::texts(list@) =~= restorations(r@).take(k as int),
        decreases r.contenders@.len() - k,
    {
        assert(r@.contenders[k as int] == r.contenders@[k as int]@);
        text::push_text(&mut list, restoration_cell(&r.contenders[k]));
        k = k + 1;
    }
    assert(restorations(r@).take(k as int) =~= restorations(r@));
    let all: String = text::joined(&list, " | ");
    let mut out: Vec<String> = table_head_of("Feature context", r, " |", "---", " |");
    text::push_text(
        &mut out,
        text::cat(
            text::cat(
                "| Prior output after graceful server restart | ".to_owned(),
                all.as_str(),
            ),
            " |",
        ),
    );
    text::push_str(&mut out, "");
    text::push_str(&mut out, RESTORATION_NOTE);
    text::push_str(&mut out, "");
    assert(text::texts(out@) =~= restoration_table(r@));
    out
}

pub open spec fn warnings(r: RunReportModel) -> Seq<Seq<char>> {
    if r.warnings.len() > 0 {
        seq!["Warnings:"@, ""@] + r.warnings.map_values(|n: Seq<char>| "- "@ + n) + seq![""@]
    } else {
        Seq::empty()
    }
}

/// The results of one run.
pub open spec fn results(r: RunReportModel, f: ReportFiguresModel) -> Seq<Seq<char>> {
    seq!["### "@ + host_label(r), ""@] + index_table(r, f) + metric_table(r, f)
        + restoration_table(r) + warnings(r)
}

fn results_of(r: &RunReport, f: &ReportFigures) -> (s: Vec<String>)
    ensures
        text::texts(s@) == results(r@, f@),
{
    let mut out: Vec<String> = Vec::new();
    text::push_text(&mut out, text::cat("### ".to_owned(), host_label_of(r).as_str()));
    text::push_str(&mut out, "");
    assert(text::texts(out@) =~= seq!["### "@ + host_label(r@), ""@]);
    text::push_all(&mut out, index_table_of(r, f));
    text::push_all(&mut out, metric_table_of(r, f));
    text::push_all(&mut out, restoration_table_of(r));
    let ghost before = text::texts(out@);
    if r.warnings.len() > 0 {
        text::push_str(&mut out, "Warnings:");
        text::push_str(&mut out, "");
        text::push_all(&mut out, dashed(&r.warnings));
        text::push_str(&mut out, "");
        assert(text::texts(out@) =~= before + warnings(r@));
    } else {
        assert(before + warnings(r@) =~= before);
    }
    out
}

/// The results of the first `upto` runs.
pub open spec fn all_results(list: Seq<RunReportModel>, f: FiguresModel, upto: int) -> Seq<
    Seq<char>,
>
    decreases upto,
{
    if upto <= 0 {
        Seq::empty()
    } else {
        all_results(list, f, upto - 1) + results(list[upto - 1], run_figures(f, upto - 1))
    }
}

pub open spec fn performance(list: Seq<RunReportModel>, f: FiguresModel) -> Seq<Seq<char>> {
    seq!["## Performance results"@, ""@] + all_results(list, f, list.len() as int)
}

fn performance_of(list: &Vec<RunReport>, f: &Figures) -> (s: Vec<String>)
    ensures
        text::texts(s@) == performance(model::report_views(list@), f@),
{
    let ghost view = model::report_views(list@);
    let bare: ReportFigures = no_figures();
    let mut out: Vec<String> = Vec::new();
    text::push_str(&mut out, "## Performance results");
    text::push_str(&mut out, "");
    let ghost head = text::texts(out@);
    assert(head =~= seq!["## Performance results"@, ""@]);
    assert(head + all_results(view, f@, 0) =~= head);
    let mut i: usize = 0;
    while i < list.len()
        invariant
            i <= list@.len(),
            view == model::report_views(list@),
            bare@ == (ReportFiguresModel { scores: Seq::empty(), rows: Seq::empty() }),
            text::texts(out@) =~= head + all_results(view, f@, i as int),
        decreases list@.len() - i,
    {
        assert(view[i as int] == list@[i as int]@);
        assert(i < f@.reports.len() ==> f@.reports[i as int] == f.reports@[i as int]@);
        let more: Vec<String> = if i < f.reports.len() {
            results_of(&list[i], &f.reports[i])
        } else {
            results_of(&list[i], &bare)
        };
        text::push_all(&mut out, more);
        i = i + 1;
    }
    out
}

// ---------------------------------------------------------------------------------------------
// Assurance
// ---------------------------------------------------------------------------------------------

pub const RATINGS_NOTE: &'static str =
    "Ratings are operator supplied and are not independently verified. Free-text rationale and evidence paths are withheld by the privacy filter. Checklist scores use pass=100, partial=50, fail=0. Unknown and not-applicable items are excluded, and every criterion has the same definition for every contender. Static code counts do not affect these scores.";

pub open spec fn category_cells(
    r: RunReportModel,
    f: FiguresModel,
    names: Seq<Seq<char>>,
    c: int,
) -> Seq<Seq<char>> {
    Seq::new(
        r.contenders.len(),
        |k: int|
            match rating(f, r.contenders, names, c, k) {
                Some((_, t)) => t,
                None => "n/a"@,
            },
    )
}

pub open spec fn category_line(
    r: RunReportModel,
    f: FiguresModel,
    names: Seq<Seq<char>>,
    c: int,
) -> Seq<char> {
    "| "@ + titled(names[c]) + " | "@ + text::join(category_cells(r, f, names, c), " | "@) + " |"@
}

pub open spec fn assurance_table(r: RunReportModel, f: FiguresModel) -> Seq<Seq<char>> {
    let names = standings::categories(r.contenders, r.contenders.len() as int);
    table_head("Category"@, r, " |"@, "---:"@, " |"@) + Seq::new(
        names.len(),
        |c: int| category_line(r, f, names, c),
    ) + seq![""@]
}

fn category_line_of(r: &RunReport, f: &Figures, names: &Vec<String>, c: usize) -> (s: String)
    requires
        c < names@.len(),
    ensures
        s@ == category_line(r@, f@, text::texts(names@), c as int),
{
    let ghost view = text::texts(names@);
    let ghost wanted = category_cells(r@, f@, view, c as int);
    let mut list: Vec<String> = Vec::new();
    let mut k: usize = 0;
    while k < r.contenders.len()
        invariant
            k <= r.contenders@.len(),
            c < names@.len(),
            view == text::texts(names@),
            wanted == category_cells(r@, f@, view, c as int),
            text::texts(list@) =~= wanted.take(k as int),
        decreases r.contenders@.len() - k,
    {
        assert(r@.contenders[k as int] == r.contenders@[k as int]@);
        assert(view[c as int] == names@[c as int]@);
        let cell: String = match rating_of(f, &r.contenders[k], names[c].as_str(), c, k) {
            Some((_, t)) => t,
            None => "n/a".to_owned(),
        };
        text::push_text(&mut list, cell);
        k = k + 1;
    }
    assert(wanted.take(k as int) =~= wanted);
    assert(view[c as int] == names@[c as int]@);
    let all: String = text::joined(&list, " | ");
    let head: String = text::cat("| ".to_owned(), title_case(names[c].as_str()).as_str());
    text::cat(text::cat(text::cat(head, " | "), all.as_str()), " |")
}

fn assurance_table_of(r: &RunReport, f: &Figures) -> (s: Vec<String>)
    ensures
        text::texts(s@) == assurance_table(r@, f@),
{
    let names: Vec<String> = standings::assurance_categories(r);
    let ghost view = text::texts(names@);
    let ghost wanted = Seq::new(view.len(), |c: int| category_line(r@, f@, view, c));
    let mut out: Vec<String> = table_head_of("Category", r, " |", "---:", " |");
    let ghost head = text::texts(out@);
    let mut c: usize = 0;
    while c < names.len()
        invariant
            c <= names@.len(),
            view == text::texts(names@),
            wanted.len() == view.len(),
            forall|k: int|
                0 <= k < wanted.len() ==> #[trigger] wanted[k] == category_line(r@, f@, view, k),
            text::texts(out@) =~= head + wanted.take(c as int),
        decreases names@.len() - c,
    {
        text::push_text(&mut out, category_line_of(r, f, &names, c));
        c = c + 1;
    }
    assert(wanted.take(c as int) =~= wanted);
    text::push_str(&mut out, "");
    assert(text::texts(out@) =~= assurance_table(r@, f@));
    out
}

/// By category, then by criterion.
pub open spec fn pair_before(a: (Seq<char>, Seq<char>), b: (Seq<char>, Seq<char>)) -> bool {
    text::before(a.0, b.0) || (a.0 == b.0 && text::before(a.1, b.1))
}

/// The ascending list with the pair in its place, once.
pub open spec fn with_pair(
    list: Seq<(Seq<char>, Seq<char>)>,
    pair: (Seq<char>, Seq<char>),
) -> Seq<(Seq<char>, Seq<char>)>
    decreases list.len(),
{
    if list.len() == 0 {
        seq![pair]
    } else if pair_before(list[0], pair) {
        seq![list[0]] + with_pair(list.skip(1), pair)
    } else if list[0] == pair {
        list
    } else {
        seq![pair] + list
    }
}

/// The category and criterion of each of the first `upto` findings, ascending.
pub open spec fn criteria(list: Seq<AssuranceFindingModel>, upto: int) -> Seq<
    (Seq<char>, Seq<char>),
>
    decreases upto,
{
    if upto <= 0 {
        Seq::empty()
    } else {
        with_pair(criteria(list, upto - 1), (list[upto - 1].category, list[upto - 1].criterion))
    }
}

proof fn lemma_with_pair_at(
    list: Seq<(Seq<char>, Seq<char>)>,
    pair: (Seq<char>, Seq<char>),
    at: int,
)
    requires
        0 <= at <= list.len(),
        forall|k: int| 0 <= k < at ==> pair_before(#[trigger] list[k], pair),
        at < list.len() ==> !pair_before(list[at], pair),
    ensures
        with_pair(list, pair) == if at < list.len() && list[at] == pair {
            list
        } else {
            list.insert(at, pair)
        },
    decreases list.len(),
{
    if at > 0 {
        let rest = list.skip(1);
        assert(pair_before(list[0], pair));
        assert forall|k: int| 0 <= k < at - 1 implies pair_before(#[trigger] rest[k], pair) by {
            assert(rest[k] == list[k + 1]);
        }
        lemma_with_pair_at(rest, pair, at - 1);
        assert(at < list.len() ==> rest[at - 1] == list[at]);
        if at < list.len() && list[at] == pair {
            assert(seq![list[0]] + rest =~= list);
        } else {
            assert(seq![list[0]] + rest.insert(at - 1, pair) =~= list.insert(at, pair));
        }
    } else if list.len() == 0 {
        assert(seq![pair] =~= list.insert(0, pair));
    } else {
        assert(seq![pair] + list =~= list.insert(0, pair));
    }
}

fn is_pair_before(a: &(String, String), category: &str, criterion: &str) -> (r: bool)
    ensures
        r == pair_before((a.0@, a.1@), (category@, criterion@)),
{
    text::is_before(a.0.as_str(), category) || (text::same(a.0.as_str(), category)
        && text::is_before(a.1.as_str(), criterion))
}

fn add_pair(list: &mut Vec<(String, String)>, category: &str, criterion: &str)
    ensures
        textmap::pairs(final(list)@) == with_pair(
            textmap::pairs(old(list)@),
            (category@, criterion@),
        ),
{
    let ghost view = textmap::pairs(list@);
    let ghost pair = (category@, criterion@);
    let mut at: usize = 0;
    while at < list.len() && is_pair_before(&list[at], category, criterion)
        invariant
            at <= list@.len(),
            view == textmap::pairs(list@),
            pair == (category@, criterion@),
            forall|k: int| 0 <= k < at ==> pair_before(#[trigger] view[k], pair),
        decreases list@.len() - at,
    {
        assert(view[at as int] == (list@[at as int].0@, list@[at as int].1@));
        at = at + 1;
    }
    proof {
        if at < list@.len() {
            assert(view[at as int] == (list@[at as int].0@, list@[at as int].1@));
        }
        lemma_with_pair_at(view, pair, at as int);
    }
    if at < list.len() && text::same(list[at].0.as_str(), category) && text::same(
        list[at].1.as_str(),
        criterion,
    ) {
        return;
    }
    list.insert(at, (category.to_owned(), criterion.to_owned()));
    assert(textmap::pairs(list@) =~= view.insert(at as int, pair));
}

fn criteria_of(list: &Vec<AssuranceFinding>) -> (r: Vec<(String, String)>)
    ensures
        textmap::pairs(r@) == criteria(model::finding_views(list@), list@.len() as int),
{
    let ghost view = model::finding_views(list@);
    let mut out: Vec<(String, String)> = Vec::new();
    let mut i: usize = 0;
    assert(textmap::pairs(out@) =~= Seq::empty());
    while i < list.len()
        invariant
            i <= list@.len(),
            view == model::finding_views(list@),
            textmap::pairs(out@) == criteria(view, i as int),
        decreases list@.len() - i,
    {
        assert(view[i as int] == list@[i as int]@);
        add_pair(&mut out, list[i].category.as_str(), list[i].criterion.as_str());
        i = i + 1;
    }
    out
}

/// The index of the first finding on the criterion, from `from` on.
pub open spec fn finding_at(
    list: Seq<AssuranceFindingModel>,
    pair: (Seq<char>, Seq<char>),
    from: int,
) -> Option<int>
    decreases list.len() - from,
{
    if from < 0 || from >= list.len() {
        None
    } else if list[from].category == pair.0 && list[from].criterion == pair.1 {
        Some(from)
    } else {
        finding_at(list, pair, from + 1)
    }
}

pub open spec fn evidence_lines(list: Seq<Seq<char>>) -> Seq<Seq<char>> {
    list.map_values(|e: Seq<char>| "  - Evidence: `"@ + e + "`"@)
}

/// What is said of the contender on the criterion.
pub open spec fn finding_lines(c: ContenderResultModel, pair: (Seq<char>, Seq<char>)) -> Seq<
    Seq<char>,
> {
    match finding_at(c.assurance, pair, 0) {
        Some(i) => {
            let f = c.assurance[i];
            seq![
                "- **"@ + c.display_name + " - "@ + standings::label(f.status) + ":** "@
                    + f.summary,
            ] + evidence_lines(f.evidence)
        },
        None => Seq::empty(),
    }
}

pub open spec fn criterion_lines(
    list: Seq<ContenderResultModel>,
    pair: (Seq<char>, Seq<char>),
    upto: int,
) -> Seq<Seq<char>>
    decreases upto,
{
    if upto <= 0 {
        Seq::empty()
    } else {
        criterion_lines(list, pair, upto - 1) + finding_lines(list[upto - 1], pair)
    }
}

pub open spec fn criterion_block(r: RunReportModel, pair: (Seq<char>, Seq<char>)) -> Seq<
    Seq<char>,
> {
    seq!["### "@ + titled(pair.0) + ": "@ + pair.1, ""@] + criterion_lines(
        r.contenders,
        pair,
        r.contenders.len() as int,
    ) + seq![""@]
}

pub open spec fn criterion_blocks(
    r: RunReportModel,
    list: Seq<(Seq<char>, Seq<char>)>,
    upto: int,
) -> Seq<Seq<char>>
    decreases upto,
{
    if upto <= 0 {
        Seq::empty()
    } else {
        criterion_blocks(r, list, upto - 1) + criterion_block(r, list[upto - 1])
    }
}

/// What is said on each criterion that the first contender was rated on.
pub open spec fn assurance_details(r: RunReportModel) -> Seq<Seq<char>> {
    let list = criteria(r.contenders[0].assurance, r.contenders[0].assurance.len() as int);
    criterion_blocks(r, list, list.len() as int)
}

fn evidence_lines_of(list: &Vec<String>) -> (s: Vec<String>)
    ensures
        text::texts(s@) == evidence_lines(text::texts(list@)),
{
    let ghost view = text::texts(list@);
    let ghost wanted = evidence_lines(view);
    let mut out: Vec<String> = Vec::new();
    let mut i: usize = 0;
    while i < list.len()
        invariant
            i <= list@.len(),
            view == text::texts(list@),
            wanted == evidence_lines(view),
            text::texts(out@) =~= wanted.take(i as int),
        decreases list@.len() - i,
    {
        assert(view[i as int] == list@[i as int]@);
        text::push_text(
            &mut out,
            text::cat(text::cat("  - Evidence: `".to_owned(), list[i].as_str()), "`"),
        );
        i = i + 1;
    }
    assert(wanted.take(i as int) =~= wanted);
    out
}

fn finding_lines_of(c: &ContenderResult, category: &str, criterion: &str) -> (s: Vec<String>)
    ensures
        text::texts(s@) == finding_lines(c@, (category@, criterion@)),
{
    let ghost view = c@.assurance;
    let ghost pair = (category@, criterion@);
    let mut out: Vec<String> = Vec::new();
    let mut i: usize = 0;
    assert(text::texts(out@) =~= Seq::empty());
    while i < c.assurance.len()
        invariant
            i <= c.assurance@.len(),
            view == c@.assurance,
            pair == (category@, criterion@),
            text::texts(out@) == Seq::<Seq<char>>::empty(),
            finding_at(view, pair, 0) == finding_at(view, pair, i as int),
        decreases c.assurance@.len() - i,
    {
        let f: &AssuranceFinding = &c.assurance[i];
        assert(view[i as int] == f@);
        if text::same(f.category.as_str(), category) && text::same(
            f.criterion.as_str(),
            criterion,
        ) {
            let head: String = text::cat(
                text::cat("- **".to_owned(), c.display_name.as_str()),
                " - ",
            );
            let rated: String = text::cat(
                text::cat(head, standings::status_label(f.status)),
                ":** ",
            );
            text::push_text(&mut out, text::cat(rated, f.summary.as_str()));
            text::push_all(&mut out, evidence_lines_of(&f.evidence));
            assert(text::texts(out@) =~= finding_lines(c@, pair));
            return out;
        }
        i = i + 1;
    }
    out
}

fn criterion_block_of(r: &RunReport, category: &str, criterion: &str) -> (s: Vec<String>)
    ensures
        text::texts(s@) == criterion_block(r@, (category@, criterion@)),
{
    let ghost view = r@.contenders;
    let ghost pair = (category@, criterion@);
    let mut out: Vec<String> = Vec::new();
    let title: String = text::cat("### ".to_owned(), title_case(category).as_str());
    text::push_text(&mut out, text::cat(text::cat(title, ": "), criterion));
    text::push_str(&mut out, "");
    let ghost head = text::texts(out@);
    assert(head + criterion_lines(view, pair, 0) =~= head);
    let mut k: usize = 0;
    while k < r.contenders.len()
        invariant
            k <= r.contenders@.len(),
            view == r@.contenders,
            pair == (category@, criterion@),
            text::texts(out@) =~= head + criterion_lines(view, pair, k as int),
        decreases r.contenders@.len() - k,
    {
        assert(view[k as int] == r.contenders@[k as int]@);
        text::push_all(&mut out, finding_lines_of(&r.contenders[k], category, criterion));
        k = k + 1;
    }
    text::push_str(&mut out, "");
    assert(text::texts(out@) =~= criterion_block(r@, pair));
    out
}

fn assurance_details_of(r: &RunReport) -> (s: Vec<String>)
    requires
        r@.contenders.len() > 0,
    ensures
        text::texts(s@) == assurance_details(r@),
{
    assert(r@.contenders[0] == r.contenders@[0]@);
    let list: Vec<(String, String)> = criteria_of(&r.contenders[0].assurance);
    let ghost view = textmap::pairs(list@);
    let mut out: Vec<String> = Vec::new();
    let mut i: usize = 0;
    assert(text::texts(out@) =~= Seq::empty());
    while i < list.len()
        invariant
            i <= list@.len(),
            view == textmap::pairs(list@),
            text::texts(out@) == criterion_blocks(r@, view, i as int),
        decreases list@.len() - i,
    {
        assert(view[i as int] == (list@[i as int].0@, list@[i as int].1@));
        text::push_all(&mut out, criterion_block_of(r, list[i].0.as_str(), list[i].1.as_str()));
        i = i + 1;
    }
    out
}

pub open spec fn assurance(r: RunReportModel, f: FiguresModel) -> Seq<Seq<char>> {
    seq!["## Security and privacy assessment"@, ""@, RATINGS_NOTE@, ""@] + assurance_table(r, f)
        + assurance_details(r)
}

fn assurance_of(r: &RunReport, f: &Figures) -> (s: Vec<String>)
    requires
        r@.contenders.len() > 0,
    ensures
        text::texts(s@) == assurance(r@, f@),
{
    let mut out: Vec<String> = Vec::new();
    text::push_str(&mut out, "## Security and privacy assessment");
    text::push_str(&mut out, "");
    text::push_str(&mut out, RATINGS_NOTE);
    text::push_str(&mut out, "");
    assert(text::texts(out@) =~= seq![
        "## Security and privacy assessment"@,
        ""@,
        RATINGS_NOTE@,
        ""@,
    ]);
    text::push_all(&mut out, assurance_table_of(r, f));
    text::push_all(&mut out, assurance_details_of(r));
    out
}

// ---------------------------------------------------------------------------------------------
// Static context
// ---------------------------------------------------------------------------------------------

pub const SURFACE_NOTE: &'static str =
    "These counts describe implementation surface, not product quality. Herdr's vendored Ghostty implementation and generated bindings are excluded; Uniterm's external crates are also represented only through lockfile counts.";

pub const TMUX_NOTE: &'static str =
    "Rust/Cargo-specific counts are N/A for tmux's C implementation. This collector does not count C dependencies or man-page documentation; N/A does not imply zero unsafe code or zero dependencies.";

/// A row of the static context.
#[derive(Debug, Clone, Copy, PartialEq, Eq, Structural)]
pub enum StaticCount {
    FirstPartyLines,
    TestLines,
    DocumentationLines,
    LockfilePackages,
    DirectDependencies,
    UnsafeBlocks,
    UnwrapCalls,
}

impl StaticCount {
    pub open spec fn label(self) -> Seq<char> {
        match self {
            StaticCount::FirstPartyLines => "First-party Rust lines"@,
            StaticCount::TestLines => "Rust test lines"@,
            StaticCount::DocumentationLines => "Markdown documentation lines"@,
            StaticCount::LockfilePackages => "Cargo.lock packages"@,
            StaticCount::DirectDependencies => "Direct Cargo dependencies"@,
            StaticCount::UnsafeBlocks => "Lexical unsafe blocks"@,
            StaticCount::UnwrapCalls => "Lexical production unwrap calls"@,
        }
    }

    pub open spec fn count(self, c: ContenderResultModel) -> Option<u64> {
        match self {
            StaticCount::FirstPartyLines => c.static_analysis.first_party_rust_lines,
            StaticCount::TestLines => c.static_analysis.rust_test_lines,
            StaticCount::DocumentationLines => Some(c.static_analysis.documentation_lines),
            StaticCount::LockfilePackages => c.static_analysis.lockfile_packages,
            StaticCount::DirectDependencies => c.static_analysis.direct_dependencies,
            StaticCount::UnsafeBlocks => c.static_analysis.unsafe_blocks,
            StaticCount::UnwrapCalls => c.static_analysis.production_unwrap_calls,
        }
    }

    fn label_text(self) -> (r: &'static str)
        ensures
            r@ == self.label(),
    {
        match self {
            StaticCount::FirstPartyLines => "First-party Rust lines",
            StaticCount::TestLines => "Rust test lines",
            StaticCount::DocumentationLines => "Markdown documentation lines",
            StaticCount::LockfilePackages => "Cargo.lock packages",
            StaticCount::DirectDependencies => "Direct Cargo dependencies",
            StaticCount::UnsafeBlocks => "Lexical unsafe blocks",
            StaticCount::UnwrapCalls => "Lexical production unwrap calls",
        }
    }

    fn count_of(self, c: &ContenderResult) -> (r: Option<u64>)
        ensures
            r == self.count(c@),
    {
        match self {
            StaticCount::FirstPartyLines => c.static_analysis.first_party_rust_lines,
            StaticCount::TestLines => c.static_analysis.rust_test_lines,
            StaticCount::DocumentationLines => Some(c.static_analysis.documentation_lines),
            StaticCount::LockfilePackages => c.static_analysis.lockfile_packages,
            StaticCount::DirectDependencies => c.static_analysis.direct_dependencies,
            StaticCount::UnsafeBlocks => c.static_analysis.unsafe_blocks,
            StaticCount::UnwrapCalls => c.static_analysis.production_unwrap_calls,
        }
    }
}

pub open spec fn count_text(n: Option<u64>) -> Seq<char> {
    match n {
        Some(n) => decimal::decimal(n as nat),
        None => "N/A"@,
    }
}

pub open spec fn static_cells(r: RunReportModel, which: StaticCount) -> Seq<Seq<char>> {
    Seq::new(r.contenders.len(), |k: int| count_text(which.count(r.contenders[k])))
}

pub open spec fn static_line(r: RunReportModel, which: StaticCount) -> Seq<char> {
    "| "@ + which.label() + " | "@ + text::join(static_cells(r, which), " | "@) + " |"@
}

fn static_row(r: &RunReport, which: StaticCount) -> (s: String)
    ensures
        s@ == static_line(r@, which),
{
    let ghost wanted = static_cells(r@, which);
    let mut list: Vec<String> = Vec::new();
    let mut k: usize = 0;
    while k < r.contenders.len()
        invariant
            k <= r.contenders@.len(),
            wanted == static_cells(r@, which),
            text::texts(list@) =~= wanted.take(k as int),
        decreases r.contenders@.len() - k,
    {
        assert(r@.contenders[k as int] == r.contenders@[k as int]@);
        let cell: String = match which.count_of(&r.contenders[k]) {
            Some(n) => decimal::decimal_text(n),
            None => "N/A".to_owned(),
        };
        text::push_text(&mut list, cell);
        k = k + 1;
    }
    assert(wanted.take(k as int) =~= wanted);
    let all: String = text::joined(&list, " | ");
    let head: String = text::cat(text::cat("| ".to_owned(), which.label_text()), " | ");
    text::cat(text::cat(head, all.as_str()), " |")
}

pub open spec fn uses_tmux(r: RunReportModel) -> bool {
    exists|k: int| 0 <= k < r.contenders.len() && (#[trigger] r.contenders[k]).adapter == "tmux"@
}

fn has_tmux(r: &RunReport) -> (b: bool)
    ensures
        b == uses_tmux(r@),
{
    let mut k: usize = 0;
    while k < r.contenders.len()
        invariant
            k <= r.contenders@.len(),
            forall|j: int| 0 <= j < k ==> (#[trigger] r@.contenders[j]).adapter != "tmux"@,
        decreases r.contenders@.len() - k,
    {
        assert(r@.contenders[k as int] == r.contenders@[k as int]@);
        if text::same(r.contenders[k].adapter.as_str(), "tmux") {
            return true;
        }
        k = k + 1;
    }
    false
}

pub open spec fn static_context(r: RunReportModel) -> Seq<Seq<char>> {
    seq!["## Static engineering context"@, ""@] + table_head(
        "Context metric"@,
        r,
        " |"@,
        "---:"@,
        " |"@,
    ) + seq![
        static_line(r, StaticCount::FirstPartyLines),
        static_line(r, StaticCount::TestLines),
        static_line(r, StaticCount::DocumentationLines),
        static_line(r, StaticCount::LockfilePackages),
        static_line(r, StaticCount::DirectDependencies),
        static_line(r, StaticCount::UnsafeBlocks),
        static_line(r, StaticCount::UnwrapCalls),
        ""@,
        SURFACE_NOTE@,
        ""@,
    ] + if uses_tmux(r) {
        seq![TMUX_NOTE@, ""@]
    } else {
        Seq::empty()
    }
}

fn static_context_of(r: &RunReport) -> (s: Vec<String>)
    ensures
        text::texts(s@) == static_context(r@),
{
    let mut out: Vec<String> = Vec::new();
    text::push_str(&mut out, "## Static engineering context");
    text::push_str(&mut out, "");
    text::push_all(&mut out, table_head_of("Context metric", r, " |", "---:", " |"));
    text::push_text(&mut out, static_row(r, StaticCount::FirstPartyLines));
    text::push_text(&mut out, static_row(r, StaticCount::TestLines));
    text::push_text(&mut out, static_row(r, StaticCount::DocumentationLines));
    text::push_text(&mut out, static_row(r, StaticCount::LockfilePackages));
    text::push_text(&mut out, static_row(r, StaticCount::DirectDependencies));
    text::push_text(&mut out, static_row(r, StaticCount::UnsafeBlocks));
    text::push_text(&mut out, static_row(r, StaticCount::UnwrapCalls));
    text::push_str(&mut out, "");
    text::push_str(&mut out, SURFACE_NOTE);
    text::push_str(&mut out, "");
    if has_tmux(r) {
        text::push_str(&mut out, TMUX_NOTE);
        text::push_str(&mut out, "");
    }
    assert(text::texts(out@) =~= static_context(r@));
    out
}

// ---------------------------------------------------------------------------------------------
// The whole document
// ---------------------------------------------------------------------------------------------

pub open spec fn guidance() -> Seq<Seq<char>> {
    seq![
        "## Claim guidance and limitations"@,
        ""@,
        "Safe marketing use requires all of the following:"@,
        ""@,
        "- Publish the raw JSON, tool revision, app revisions, profile, host details, and exact binaries or hashes."@,
        "- Say \"in our measured workload\" and name the OS/hardware. Do not generalize one machine to every installation."@,
        "- Use the `marketing` profile for public CPU claims; smoke results validate the harness but are too short for stable idle-CPU claims."@,
        "- Repeat on native Linux, WSL2, Intel/Apple Silicon macOS as relevant, with at least three runs per host and alternating product order."@,
        "- Do not describe the assurance checklist as an audit, certification, exploit test, or guarantee."@,
        "- Re-run after either binary, configuration, dependency lockfile, or benchmark tool changes."@,
        ""@,
        "Known limitations:"@,
        ""@,
        "- PTY latency intentionally includes the same `/bin/sh` scheduling and rendering path for both products; it is end-to-end, not an internal parser microbenchmark."@,
        "- RSS is sampled from `ps`; allocator-resident versus reclaimable memory is not separated."@,
        "- CPU resolution and background system noise limit very short runs."@,
        "- Feature breadth is not folded into the performance score. A faster result does not imply feature parity."@,
        "- Manual assurance findings are point-in-time source review and must be revisited when implementations change."@,
    ]
}

fn guidance_lines() -> (s: Vec<String>)
    ensures
        text::texts(s@) == guidance(),
{
    let mut out: Vec<String> = Vec::new();
    text::push_str(&mut out, "## Claim guidance and limitations");
    text::push_str(&mut out, "");
    text::push_str(&mut out, "Safe marketing use requires all of the following:");
    text::push_str(&mut out, "");
    text::push_str(
        &mut out,
        "- Publish the raw JSON, tool revision, app revisions, profile, host details, and exact binaries or hashes.",
    );
    text::push_str(
        &mut out,
        "- Say \"in our measured workload\" and name the OS/hardware. Do not generalize one machine to every installation.",
    );
    text::push_str(
        &mut out,
        "- Use the `marketing` profile for public CPU claims; smoke results validate the harness but are too short for stable idle-CPU claims.",
    );
    text::push_str(
        &mut out,
        "- Repeat on native Linux, WSL2, Intel/Apple Silicon macOS as relevant, with at least three runs per host and alternating product order.",
    );
    text::push_str(
        &mut out,
        "- Do not describe the assurance checklist as an audit, certification, exploit test, or guarantee.",
    );
    text::push_str(
        &mut out,
        "- Re-run after either binary, configuration, dependency lockfile, or benchmark tool changes.",
    );
    text::push_str(&mut out, "");
    text::push_str(&mut out, "Known limitations:");
    text::push_str(&mut out, "");
    text::push_str(
        &mut out,
        "- PTY latency intentionally includes the same `/bin/sh` scheduling and rendering path for both products; it is end-to-end, not an internal parser microbenchmark.",
    );
    text::push_str(
        &mut out,
        "- RSS is sampled from `ps`; allocator-resident versus reclaimable memory is not separated.",
    );
    text::push_str(
        &mut out,
        "- CPU resolution and background system noise limit very short runs.",
    );
    text::push_str(
        &mut out,
        "- Feature breadth is not folded into the performance score. A faster result does not imply feature parity.",
    );
    text::push_str(
        &mut out,
        "- Manual assurance findings are point-in-time source review and must be revisited when implementations change.",
    );
    assert(text::texts(out@) =~= guidance());
    out
}

/// The lines of the document on these sanitized runs.
pub open spec fn lines(list: Seq<RunReportModel>, f: FiguresModel) -> Seq<Seq<char>> {
    summary(list, f) + identity(list) + performance(list, f) + assurance(list[0], f)
        + static_context(list[0]) + guidance()
}

/// The document on these sanitized runs.
pub open spec fn document(list: Seq<RunReportModel>, f: FiguresModel) -> Seq<char> {
    text::join(lines(list, f), "\n"@) + "\n"@
}

/// Writes the document on these sanitized runs.
pub fn render(list: &Vec<RunReport>, f: &Figures) -> (r: String)
    requires
        list@.len() > 0,
        list@[0]@.contenders.len() > 0,
    ensures
        r@ == document(model::report_views(list@), f@),
{
    assert(model::report_views(list@)[0] == list@[0]@);
    let mut out: Vec<String> = summary_of(list, f);
    text::push_all(&mut out, identity_of(list));
    text::push_all(&mut out, performance_of(list, f));
    text::push_all(&mut out, assurance_of(&list[0], f));
    text::push_all(&mut out, static_context_of(&list[0]));
    text::push_all(&mut out, guidance_lines());
    let body: String = text::joined(&out, "\n");
    text::cat(body, "\n")
}

/// Whatever the runs, the document begins with its fixed title.
pub proof fn law_document_has_the_fixed_title(list: Seq<RunReportModel>, f: FiguresModel)
    ensures
        text::starts_with(document(list, f), "# "@ + privacy::TITLE@ + "\n"@),
{
    let all = lines(list, f);
    assert(opening(list[0], list.len())[0] == "# "@ + privacy::TITLE@);
    assert(all.len() >= 2);
    assert(all[0] == "# "@ + privacy::TITLE@);
    text::lemma_join_starts(all, "\n"@);
    let head = all[0] + "\n"@;
    let body = text::join(all, "\n"@);
    assert(document(list, f).take(head.len() as int) =~= body.take(head.len() as int));
}

/// A run in which some contender lacks a core metric is not ranked, whatever the figures say.
pub proof fn law_incomplete_runs_are_not_ranked(
    r: RunReportModel,
    f: ReportFiguresModel,
    k: int,
    i: int,
)
    requires
        0 <= k < r.contenders.len(),
        0 <= i < report::core_names().len(),
        report::middle(r.contenders[k], report::core_names()[i]) is None,
    ensures
        summary_line(r, f) == "- **"@ + host_label(r) + UNRANKED_TAIL@,
{
    let list = entries(r, f);
    let order = standing(r, f);
    standings::law_missing_core_metric_suppresses_ranking(
        r.contenders,
        computed_scores(f),
        k,
        i,
    );
    if order.len() > 0 {
        standings::lemma_ranking_members(list);
        assert(order.contains(order[0]));
        let j = choose|j: int| 0 <= j < list.len() && list[j] == order[0];
        assert(list[j].1 == standings::scores(r.contenders, computed_scores(f))[j]);
    }
}

/// Not applicable is said only of a restart that was measured; a restart that failed is shown as
/// failed, and one that was not tried as missing.
pub proof fn law_not_applicable_never_hides_a_failure(c: ContenderResultModel)
    ensures
        match report::raw(c, "restart_ready"@) {
            Some(b) => b.status != BenchmarkStatus::Measured ==> restored(c) == "FAILED"@,
            None => restored(c) == "missing"@,
        },
        report::valid(c, "restart_ready"@) is None ==> restored(c)
            != "N/A (no native disk restoration)"@,
{
    reveal_strlit("FAILED");
    reveal_strlit("missing");
    reveal_strlit("N/A (no native disk restoration)");
    assert("FAILED"@.len() == 6 && "missing"@.len() == 7);
    assert("N/A (no native disk restoration)"@.len() == 32);
}

} // verus!
