//! What the command line asks for.

use vstd::prelude::*;
use crate::decimal;
use crate::privacy;
use crate::text;

verus! {

// ---------------------------------------------------------------------------------------------
// Options
// ---------------------------------------------------------------------------------------------

/// The first position of an argument, from one on.
pub open spec fn position(args: Seq<Seq<char>>, name: Seq<char>, from: int) -> Option<int>
    decreases args.len() - from,
{
    if from >= args.len() {
        None
    } else if args[from] == name {
        Some(from)
    } else {
        position(args, name, from + 1)
    }
}

/// What follows the first occurrence of an option.
pub open spec fn value_after(args: Seq<Seq<char>>, name: Seq<char>) -> Option<Seq<char>> {
    match position(args, name, 0) {
        Some(i) => if i + 1 < args.len() {
            Some(args[i + 1])
        } else {
            None
        },
        None => None,
    }
}

/// What follows the first occurrence of an option.
pub fn option(args: &Vec<String>, name: &str) -> (r: Option<String>)
    ensures
        text::opt_text(r) == value_after(text::texts(args@), name@),
{
    let ghost view = text::texts(args@);
    let n: usize = args.len();
    let mut i: usize = 0;
    while i < n
        invariant
            i <= n,
            n == args@.len(),
            view == text::texts(args@),
            position(view, name@, 0) == position(view, name@, i as int),
        decreases n - i,
    {
        assert(view[i as int] == args@[i as int]@);
        if text::same(args[i].as_str(), name) {
            if n - i > 1 {
                assert(view[i + 1] == args@[i + 1]@);
                return Some(args[i + 1].clone());
            }
            return None;
        }
        i = i + 1;
    }
    None
}

/// What follows an option, or what holds where it is not given.
pub open spec fn value_or(
    args: Seq<Seq<char>>,
    name: Seq<char>,
    default_value: Seq<char>,
) -> Seq<char> {
    match value_after(args, name) {
        Some(value) => value,
        None => default_value,
    }
}

fn option_or(args: &Vec<String>, name: &str, default_value: &str) -> (r: String)
    ensures
        r@ == value_or(text::texts(args@), name@, default_value@),
{
    match option(args, name) {
        Some(value) => value,
        None => default_value.to_owned(),
    }
}

/// An argument that begins with a hyphen.
pub open spec fn dashed(arg: Seq<char>) -> bool {
    arg.len() > 0 && arg[0] == '-'
}

fn is_dashed(arg: &str) -> (r: bool)
    ensures
        r == dashed(arg@),
{
    let chars: Vec<char> = text::chars_of(arg);
    chars.len() > 0 && chars[0] == '-'
}

pub open spec fn names(list: Seq<&str>) -> Seq<Seq<char>> {
    list.map_values(|s: &str| s@)
}

fn is_listed(arg: &str, list: &[&str]) -> (r: bool)
    ensures
        r == names(list@).contains(arg@),
{
    let ghost view = names(list@);
    let mut i: usize = 0;
    while i < list.len()
        invariant
            i <= list@.len(),
            view == names(list@),
            forall|k: int| 0 <= k < i ==> #[trigger] view[k] != arg@,
        decreases list@.len() - i,
    {
        assert(view[i as int] == list@[i as int]@);
        if text::same(arg, list[i]) {
            return true;
        }
        i = i + 1;
    }
    false
}

/// The arguments, from a position on, that are neither options nor their values.
pub open spec fn positionals(args: Seq<Seq<char>>, valued: Seq<Seq<char>>, from: int) -> Seq<
    Seq<char>,
>
    decreases args.len() + 2 - from,
{
    if from >= args.len() {
        Seq::empty()
    } else if valued.contains(args[from]) {
        positionals(args, valued, from + 2)
    } else if dashed(args[from]) {
        positionals(args, valued, from + 1)
    } else {
        seq![args[from]] + positionals(args, valued, from + 1)
    }
}

/// The arguments that are neither options nor their values.
pub fn positional_args(args: &Vec<String>, valued_options: &[&str]) -> (r: Vec<String>)
    ensures
        text::texts(r@) == positionals(text::texts(args@), names(valued_options@), 0),
{
    let ghost view = text::texts(args@);
    let ghost valued = names(valued_options@);
    let n: usize = args.len();
    let mut out: Vec<String> = Vec::new();
    let mut i: usize = 0;
    let ghost all = positionals(view, valued, 0);
    assert(text::texts(out@) + all =~= all);
    while i < n
        invariant
            i <= n,
            n == args@.len(),
            view == text::texts(args@),
            valued == names(valued_options@),
            all =~= text::texts(out@) + positionals(view, valued, i as int),
        decreases n - i,
    {
        assert(view[i as int] == args@[i as int]@);
        if is_listed(args[i].as_str(), valued_options) {
            if n - i >= 2 {
                i = i + 2;
            } else {
                assert(positionals(view, valued, i + 2) =~= Seq::empty());
                assert(positionals(view, valued, n as int) =~= Seq::empty());
                i = n;
            }
        } else {
            if !is_dashed(args[i].as_str()) {
                let ghost before = text::texts(out@);
                text::push_text(&mut out, args[i].clone());
                assert(before + (seq![view[i as int]] + positionals(view, valued, i + 1))
                    =~= text::texts(out@) + positionals(view, valued, i + 1));
            }
            i = i + 1;
        }
    }
    assert(positionals(view, valued, i as int) =~= Seq::empty());
    assert(text::texts(out@) =~= all);
    out
}

/// What is wrong with the arguments from a position on.
pub open spec fn options_fault(
    args: Seq<Seq<char>>,
    valued: Seq<Seq<char>>,
    allow_positionals: bool,
    from: int,
) -> Option<Seq<char>>
    decreases args.len() + 2 - from,
{
    if from >= args.len() {
        None
    } else if valued.contains(args[from]) {
        if from + 1 >= args.len() || dashed(args[from + 1]) {
            Some(args[from] + " requires a value"@)
        } else {
            options_fault(args, valued, allow_positionals, from + 2)
        }
    } else if dashed(args[from]) {
        Some("unknown option "@ + text::debugged(args[from]))
    } else if allow_positionals {
        options_fault(args, valued, allow_positionals, from + 1)
    } else {
        Some("unexpected positional argument "@ + text::debugged(args[from]))
    }
}

/// Refuses options that are not known or lack their value, and arguments that nothing asks for.
pub fn reject_unknown_options(
    args: &Vec<String>,
    valued_options: &[&str],
    allow_positionals: bool,
) -> (r: Result<(), String>)
    ensures
        match r {
            Ok(_) => options_fault(
                text::texts(args@),
                names(valued_options@),
                allow_positionals,
                0,
            ) is None,
            Err(error) => options_fault(
                text::texts(args@),
                names(valued_options@),
                allow_positionals,
                0,
            ) == Some(error@),
        },
{
    let ghost view = text::texts(args@);
    let ghost valued = names(valued_options@);
    let n: usize = args.len();
    let mut i: usize = 0;
    while i < n
        invariant
            i <= n,
            n == args@.len(),
            view == text::texts(args@),
            valued == names(valued_options@),
            options_fault(view, valued, allow_positionals, 0) == options_fault(
                view,
                valued,
                allow_positionals,
                i as int,
            ),
        decreases n - i,
    {
        assert(view[i as int] == args@[i as int]@);
        if is_listed(args[i].as_str(), valued_options) {
            if n - i < 2 {
                return Err(text::cat(args[i].clone(), " requires a value"));
            }
            assert(view[i + 1] == args@[i + 1]@);
            if is_dashed(args[i + 1].as_str()) {
                return Err(text::cat(args[i].clone(), " requires a value"));
            }
            i = i + 2;
        } else if is_dashed(args[i].as_str()) {
            return Err(
                text::cat(
                    "unknown option ".to_owned(),
                    text::debug_text(args[i].as_str()).as_str(),
                ),
            );
        } else if allow_positionals {
            i = i + 1;
        } else {
            return Err(
                text::cat(
                    "unexpected positional argument ".to_owned(),
                    text::debug_text(args[i].as_str()).as_str(),
                ),
            );
        }
    }
    Ok(())
}

/// Where only options are allowed and the arguments are accepted, they are options and their
/// values in turn: nothing that was written is passed over.
pub proof fn law_accepted_arguments_are_all_used(
    args: Seq<Seq<char>>,
    valued: Seq<Seq<char>>,
    from: int,
)
    requires
        0 <= from,
        options_fault(args, valued, false, from) is None,
    ensures
        positionals(args, valued, from) == Seq::<Seq<char>>::empty(),
        from < args.len() ==> valued.contains(args[from]) && from + 1 < args.len() && !dashed(
            args[from + 1],
        ),
    decreases args.len() + 2 - from,
{
    if from < args.len() {
        law_accepted_arguments_are_all_used(args, valued, from + 2);
    }
}

// ---------------------------------------------------------------------------------------------
// Commands
// ---------------------------------------------------------------------------------------------

/// What the command line asks for.
#[derive(Debug)]
pub enum Invocation {
    Run {
        config: String,
        profile: String,
        output: String,
        markdown: Option<String>,
        seed: Option<String>,
    },
    Report { title: String, output: String, inputs: Vec<String> },
    Sanitize { input: String, output: String, markdown: Option<String> },
    Doctor { config: String },
    Version,
    Help,
}

/// What an `Invocation` says.
pub ghost enum InvocationModel {
    Run {
        config: Seq<char>,
        profile: Seq<char>,
        output: Seq<char>,
        markdown: Option<Seq<char>>,
        seed: Option<Seq<char>>,
    },
    Report { title: Seq<char>, output: Seq<char>, inputs: Seq<Seq<char>> },
    Sanitize { input: Seq<char>, output: Seq<char>, markdown: Option<Seq<char>> },
    Doctor { config: Seq<char> },
    Version,
    Help,
}

impl View for Invocation {
    type V = InvocationModel;

    open spec fn view(&self) -> InvocationModel {
        match self {
            Invocation::Run { config, profile, output, markdown, seed } => InvocationModel::Run {
                config: config@,
                profile: profile@,
                output: output@,
                markdown: text::opt_text(*markdown),
                seed: text::opt_text(*seed),
            },
            Invocation::Report { title, output, inputs } => InvocationModel::Report {
                title: title@,
                output: output@,
                inputs: text::texts(inputs@),
            },
            Invocation::Sanitize { input, output, markdown } => InvocationModel::Sanitize {
                input: input@,
                output: output@,
                markdown: text::opt_text(*markdown),
            },
            Invocation::Doctor { config } => InvocationModel::Doctor { config: config@ },
            Invocation::Version => InvocationModel::Version,
            Invocation::Help => InvocationModel::Help,
        }
    }
}

pub const DEFAULT_CONFIG: &'static str = "comparison.toml";

pub const DEFAULT_TITLE: &'static str = "Uniterm vs Herdr performance and assurance report";

pub open spec fn run_options() -> Seq<Seq<char>> {
    seq!["--config"@, "--profile"@, "--output"@, "--markdown"@, "--seed"@]
}

pub open spec fn run_asked(args: Seq<Seq<char>>) -> Result<InvocationModel, Seq<char>> {
    match options_fault(args, run_options(), false, 0) {
        Some(error) => Err(error),
        None => Ok(
            InvocationModel::Run {
                config: value_or(args, "--config"@, DEFAULT_CONFIG@),
                profile: value_or(args, "--profile"@, "standard"@),
                output: value_or(args, "--output"@, "reports/run.json"@),
                markdown: value_after(args, "--markdown"@),
                seed: value_after(args, "--seed"@),
            },
        ),
    }
}

pub open spec fn report_options() -> Seq<Seq<char>> {
    seq!["--output"@, "--title"@]
}

pub open spec fn report_asked(args: Seq<Seq<char>>) -> Result<InvocationModel, Seq<char>> {
    match options_fault(args, report_options(), true, 0) {
        Some(error) => Err(error),
        None => {
            let inputs = positionals(args, report_options(), 0);
            if inputs.len() == 0 {
                Err("report requires one or more run JSON paths"@)
            } else {
                Ok(
                    InvocationModel::Report {
                        title: value_or(args, "--title"@, DEFAULT_TITLE@),
                        output: value_or(args, "--output"@, "reports/comparison.md"@),
                        inputs,
                    },
                )
            }
        },
    }
}

pub open spec fn sanitize_options() -> Seq<Seq<char>> {
    seq!["--output"@, "--markdown"@]
}

pub open spec fn sanitize_asked(args: Seq<Seq<char>>) -> Result<InvocationModel, Seq<char>> {
    match options_fault(args, sanitize_options(), true, 0) {
        Some(error) => Err(error),
        None => {
            let inputs = positionals(args, sanitize_options(), 0);
            if inputs.len() != 1 {
                Err("sanitize requires exactly one input report"@)
            } else {
                Ok(
                    InvocationModel::Sanitize {
                        input: inputs[0],
                        output: value_or(args, "--output"@, "reports/sanitized.json"@),
                        markdown: value_after(args, "--markdown"@),
                    },
                )
            }
        },
    }
}

pub open spec fn doctor_asked(args: Seq<Seq<char>>) -> Result<InvocationModel, Seq<char>> {
    match options_fault(args, seq!["--config"@], false, 0) {
        Some(error) => Err(error),
        None => Ok(
            InvocationModel::Doctor { config: value_or(args, "--config"@, DEFAULT_CONFIG@) },
        ),
    }
}

/// What a command line asks for, or what is wrong with it.
pub open spec fn asked(args: Seq<Seq<char>>) -> Result<InvocationModel, Seq<char>> {
    if args.len() == 0 {
        Ok(InvocationModel::Help)
    } else {
        let rest = args.skip(1);
        if args[0] == "run"@ {
            run_asked(rest)
        } else if args[0] == "report"@ {
            report_asked(rest)
        } else if args[0] == "sanitize"@ {
            sanitize_asked(rest)
        } else if args[0] == "doctor"@ {
            doctor_asked(rest)
        } else if args[0] == "--version"@ || args[0] == "-V"@ {
            Ok(InvocationModel::Version)
        } else if args[0] == "--help"@ || args[0] == "-h"@ {
            Ok(InvocationModel::Help)
        } else {
            Err("unknown command "@ + text::debugged(args[0]) + "; run with --help"@)
        }
    }
}

/// The views of a result.
pub open spec fn outcome(r: Result<Invocation, String>) -> Result<InvocationModel, Seq<char>> {
    match r {
        Ok(found) => Ok(found@),
        Err(error) => Err(error@),
    }
}

fn run_command(args: &Vec<String>) -> (r: Result<Invocation, String>)
    ensures
        outcome(r) == run_asked(text::texts(args@)),
{
    let options: [&str; 5] = ["--config", "--profile", "--output", "--markdown", "--seed"];
    assert(names(options@) =~= run_options());
    match reject_unknown_options(args, &options, false) {
        Err(error) => Err(error),
        Ok(_) => Ok(
            Invocation::Run {
                config: option_or(args, "--config", DEFAULT_CONFIG),
                profile: option_or(args, "--profile", "standard"),
                output: option_or(args, "--output", "reports/run.json"),
                markdown: option(args, "--markdown"),
                seed: option(args, "--seed"),
            },
        ),
    }
}

fn report_command(args: &Vec<String>) -> (r: Result<Invocation, String>)
    ensures
        outcome(r) == report_asked(text::texts(args@)),
{
    let options: [&str; 2] = ["--output", "--title"];
    assert(names(options@) =~= report_options());
    match reject_unknown_options(args, &options, true) {
        Err(error) => Err(error),
        Ok(_) => {
            let inputs: Vec<String> = positional_args(args, &options);
            assert(text::texts(inputs@).len() == inputs@.len());
            if inputs.len() == 0 {
                return Err("report requires one or more run JSON paths".to_owned());
            }
            Ok(
                Invocation::Report {
                    title: option_or(args, "--title", DEFAULT_TITLE),
                    output: option_or(args, "--output", "reports/comparison.md"),
                    inputs,
                },
            )
        },
    }
}

fn sanitize_command(args: &Vec<String>) -> (r: Result<Invocation, String>)
    ensures
        outcome(r) == sanitize_asked(text::texts(args@)),
{
    let options: [&str; 2] = ["--output", "--markdown"];
    assert(names(options@) =~= sanitize_options());
    match reject_unknown_options(args, &options, true) {
        Err(error) => Err(error),
        Ok(_) => {
            let inputs: Vec<String> = positional_args(args, &options);
            assert(text::texts(inputs@).len() == inputs@.len());
            if inputs.len() != 1 {
                return Err("sanitize requires exactly one input report".to_owned());
            }
            assert(text::texts(inputs@)[0] == inputs@[0]@);
            Ok(
                Invocation::Sanitize {
                    input: inputs[0].clone(),
                    output: option_or(args, "--output", "reports/sanitized.json"),
                    markdown: option(args, "--markdown"),
                },
            )
        },
    }
}

fn doctor_command(args: &Vec<String>) -> (r: Result<Invocation, String>)
    ensures
        outcome(r) == doctor_asked(text::texts(args@)),
{
    let options: [&str; 1] = ["--config"];
    assert(names(options@) =~= seq!["--config"@]);
    match reject_unknown_options(args, &options, false) {
        Err(error) => Err(error),
        Ok(_) => Ok(Invocation::Doctor { config: option_or(args, "--config", DEFAULT_CONFIG) }),
    }
}

/// What a command line asks for.
pub fn dispatch(args: &Vec<String>) -> (r: Result<Invocation, String>)
    ensures
        outcome(r) == asked(text::texts(args@)),
{
    let ghost view = text::texts(args@);
    if args.len() == 0 {
        return Ok(Invocation::Help);
    }
    let mut rest: Vec<String> = Vec::new();
    let mut i: usize = 1;
    assert(text::texts(rest@) =~= view.subrange(1, 1));
    while i < args.len()
        invariant
            1 <= i <= args@.len(),
            view == text::texts(args@),
            text::texts(rest@) =~= view.subrange(1, i as int),
        decreases args@.len() - i,
    {
        assert(view[i as int] == args@[i as int]@);
        text::push_text(&mut rest, args[i].clone());
        i = i + 1;
    }
    assert(text::texts(rest@) =~= view.skip(1));
    let name: &str = args[0].as_str();
    assert(view[0] == name@);
    if text::same(name, "run") {
        run_command(&rest)
    } else if text::same(name, "report") {
        report_command(&rest)
    } else if text::same(name, "sanitize") {
        sanitize_command(&rest)
    } else if text::same(name, "doctor") {
        doctor_command(&rest)
    } else if text::same(name, "--version") || text::same(name, "-V") {
        Ok(Invocation::Version)
    } else if text::same(name, "--help") || text::same(name, "-h") {
        Ok(Invocation::Help)
    } else {
        Err(
            text::cat(
                text::cat("unknown command ".to_owned(), text::debug_text(name).as_str()),
                "; run with --help",
            ),
        )
    }
}

/// The seed that was asked for.
pub fn parse_seed(seed: &str) -> (r: Result<u64, String>)
    ensures
        match r {
            Ok(n) => decimal::numeral_within(seed@, u64::MAX as nat) == Some(n as nat),
            Err(error) => decimal::numeral_within(seed@, u64::MAX as nat) is None && error@
                == "--seed expects a non-negative integer, got "@ + text::debugged(seed@),
        },
{
    match decimal::parse_u64(seed) {
        Some(n) => Ok(n),
        None => Err(
            text::cat(
                "--seed expects a non-negative integer, got ".to_owned(),
                text::debug_text(seed).as_str(),
            ),
        ),
    }
}

// ---------------------------------------------------------------------------------------------
// The doctor
// ---------------------------------------------------------------------------------------------

/// What a contender's binary answered when it was asked for its version.
#[derive(Debug)]
pub struct ProductCheck {
    pub id: String,
    pub adapter: String,
    pub version: Result<String, String>,
}

/// What was found out about the host and the contenders.
#[derive(Debug)]
pub struct Checkup {
    pub ps: bool,
    pub git: bool,
    pub uname: bool,
    pub shell: bool,
    pub products: Vec<ProductCheck>,
    pub os: String,
    pub architecture: String,
    pub wsl: bool,
}

/// What the doctor says: lines of output, and what stands in the way of a run.
#[derive(Debug)]
pub struct Diagnosis {
    pub lines: Vec<String>,
    pub failures: Vec<String>,
}

/// The lines on the products that answered.
pub open spec fn product_lines(products: Seq<ProductCheck>) -> Seq<Seq<char>>
    decreases products.len(),
{
    if products.len() == 0 {
        Seq::empty()
    } else {
        let front = product_lines(products.drop_last());
        match products.last().version {
            Ok(output) => front.push(
                "ok  "@ + privacy::product_release(products.last().adapter@, output@),
            ),
            Err(_) => front,
        }
    }
}

/// Why the other products did not.
pub open spec fn product_failures(products: Seq<ProductCheck>) -> Seq<Seq<char>>
    decreases products.len(),
{
    if products.len() == 0 {
        Seq::empty()
    } else {
        let front = product_failures(products.drop_last());
        match products.last().version {
            Ok(_) => front,
            Err(error) => front.push(products.last().id@ + ": "@ + error@),
        }
    }
}

pub open spec fn missing_command(there: bool, name: Seq<char>) -> Seq<Seq<char>> {
    if there {
        Seq::empty()
    } else {
        seq!["required command "@ + text::debugged(name) + " is unavailable"@]
    }
}

/// What the host lacks.
pub open spec fn host_failures(c: Checkup) -> Seq<Seq<char>> {
    missing_command(c.ps, "ps"@) + missing_command(c.git, "git"@) + missing_command(
        c.uname,
        "uname"@,
    ) + (if c.shell {
        Seq::empty()
    } else {
        seq!["required POSIX shell /bin/sh is unavailable"@]
    })
}

pub open spec fn host_line(c: Checkup) -> Seq<char> {
    "ok  host         "@ + c.os@ + " / "@ + c.architecture@ + (if c.wsl {
        " / WSL"@
    } else {
        ""@
    })
}

pub open spec fn all_failures(c: Checkup) -> Seq<Seq<char>> {
    host_failures(c) + product_failures(c.products@)
}

pub open spec fn all_lines(c: Checkup) -> Seq<Seq<char>> {
    let lines = product_lines(c.products@).push(host_line(c));
    if all_failures(c).len() == 0 {
        lines.push("doctor passed"@)
    } else {
        lines
    }
}

fn note_missing(out: &mut Vec<String>, there: bool, name: &str)
    ensures
        text::texts(final(out)@) == text::texts(old(out)@) + missing_command(there, name@),
{
    if !there {
        let head: String = text::cat("required command ".to_owned(), text::debug_text(name).as_str());
        text::push_text(out, text::cat(head, " is unavailable"));
    }
    assert(text::texts(out@) =~= text::texts(old(out)@) + missing_command(there, name@));
}

/// What the doctor says of a checkup.
pub fn diagnose(checkup: &Checkup) -> (r: Diagnosis)
    ensures
        text::texts(r.lines@) == all_lines(*checkup),
        text::texts(r.failures@) == all_failures(*checkup),
{
    let mut failures: Vec<String> = Vec::new();
    assert(text::texts(failures@) =~= Seq::empty());
    note_missing(&mut failures, checkup.ps, "ps");
    note_missing(&mut failures, checkup.git, "git");
    note_missing(&mut failures, checkup.uname, "uname");
    if !checkup.shell {
        text::push_str(&mut failures, "required POSIX shell /bin/sh is unavailable");
    }
    assert(text::texts(failures@) =~= host_failures(*checkup));
    let mut lines: Vec<String> = Vec::new();
    assert(text::texts(lines@) =~= Seq::empty());
    let ghost all = checkup.products@;
    let mut i: usize = 0;
    assert(product_failures(all.take(0)) =~= Seq::empty());
    assert(product_lines(all.take(0)) =~= Seq::empty());
    while i < checkup.products.len()
        invariant
            i <= checkup.products@.len(),
            all == checkup.products@,
            text::texts(lines@) =~= product_lines(all.take(i as int)),
            text::texts(failures@) =~= host_failures(*checkup) + product_failures(
                all.take(i as int),
            ),
        decreases checkup.products@.len() - i,
    {
        proof {
            assert(all.take(i + 1).drop_last() =~= all.take(i as int));
            assert(all.take(i + 1).last() == all[i as int]);
        }
        let p: &ProductCheck = &checkup.products[i];
        match &p.version {
            Ok(output) => {
                let shown: String = privacy::product_version(p.adapter.as_str(), output.as_str());
                text::push_text(&mut lines, text::cat("ok  ".to_owned(), shown.as_str()));
            },
            Err(error) => {
                let line: String = text::cat(text::cat(p.id.clone(), ": "), error.as_str());
                text::push_text(&mut failures, line);
            },
        }
        i = i + 1;
    }
    assert(all.take(i as int) =~= all);
    let host: String = text::cat(
        text::cat(
            text::cat("ok  host         ".to_owned(), checkup.os.as_str()),
            " / ",
        ),
        checkup.architecture.as_str(),
    );
    let whole: String = text::cat(host, if checkup.wsl { " / WSL" } else { "" });
    text::push_text(&mut lines, whole);
    assert(text::texts(failures@).len() == failures@.len());
    if failures.len() == 0 {
        text::push_str(&mut lines, "doctor passed");
    }
    Diagnosis { lines, failures }
}

} // verus!
