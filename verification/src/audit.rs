//! What is recorded of a contender's binary and source tree.

use vstd::prelude::*;
use crate::config::ContenderConfig;
use crate::manifest;
use crate::model::{
    ArtifactInfo, ArtifactInfoModel, SourceInfo, SourceInfoModel, StaticAnalysis,
    StaticAnalysisModel,
};
use crate::paths;
use crate::privacy;
use crate::sums;
use crate::text;

verus! {

/// A file in a source tree, with its text.
#[derive(Debug)]
pub struct SourceFile {
    pub path: String,
    pub text: String,
}

/// What a `SourceFile` says.
#[verifier::ext_equal]
pub ghost struct SourceFileModel {
    pub path: Seq<char>,
    pub text: Seq<char>,
}

impl View for SourceFile {
    type V = SourceFileModel;

    open spec fn view(&self) -> SourceFileModel {
        SourceFileModel { path: self.path@, text: self.text@ }
    }
}

pub open spec fn file_views(list: Seq<SourceFile>) -> Seq<SourceFileModel> {
    list.map_values(|f: SourceFile| f@)
}

// ---------------------------------------------------------------------------------------------
// Which files count
// ---------------------------------------------------------------------------------------------

/// A directory whose contents are not first-party source.
pub open spec fn foreign(name: Seq<char>) -> bool {
    name == ".git"@ || name == "target"@ || name == "vendor"@ || name == "node_modules"@ || name
        == "dist"@ || name == "zig-out"@
}

pub open spec fn language(name: Seq<char>) -> bool {
    name == "ja"@ || name == "zh-cn"@ || name == "zh-CN"@
}

/// Translated documentation: a language directly below a `docs` directory, or a file name that
/// names one.
pub open spec fn translated(rel: Seq<Seq<char>>) -> bool {
    ||| exists|i: int| 0 <= i < rel.len() - 1 && (#[trigger] rel[i]) == "docs"@ && language(
        rel[i + 1],
    )
    ||| match paths::last_name(rel) {
        Some(name) => text::contains(name, ".zh-CN."@) || text::contains(name, ".ja."@),
        None => false,
    }
}

/// What is left out of all counts, by its path below the root.
pub open spec fn excluded(rel: Seq<Seq<char>>) -> bool {
    ||| exists|i: int| 0 <= i < rel.len() && foreign(#[trigger] rel[i])
    ||| paths::begins(rel, seq!["docs"@, "preview"@])
    ||| paths::begins(rel, seq!["docs"@, "versions"@])
    ||| paths::begins(rel, seq!["docs"@, "next"@, "README.md"@])
    ||| paths::begins(rel, seq!["docs"@, "next"@, "CHANGELOG.md"@])
    ||| paths::ends(rel, seq!["src"@, "ghostty"@, "bindings.rs"@])
    ||| translated(rel)
}

/// Whether a walk from the root comes by this path: nothing on the way to it is excluded.
pub open spec fn walked(rel: Seq<Seq<char>>) -> bool {
    forall|n: int| 0 < n <= rel.len() ==> !excluded(#[trigger] rel.take(n))
}

fn is_foreign(name: &str) -> (r: bool)
    ensures
        r == foreign(name@),
{
    text::same(name, ".git") || text::same(name, "target") || text::same(name, "vendor")
        || text::same(name, "node_modules") || text::same(name, "dist") || text::same(
        name,
        "zig-out",
    )
}

fn is_language(name: &str) -> (r: bool)
    ensures
        r == language(name@),
{
    text::same(name, "ja") || text::same(name, "zh-cn") || text::same(name, "zh-CN")
}

/// Whether translated documentation lies at a path below the root. Translations are left out so
/// that counts of English documentation stay comparable.
pub fn translated_documentation(rel: &Vec<String>) -> (r: bool)
    ensures
        r == translated(text::texts(rel@)),
{
    let ghost view = text::texts(rel@);
    let n: usize = rel.len();
    let mut i: usize = 0;
    while i < n
        invariant
            i <= n,
            n == rel@.len(),
            view == text::texts(rel@),
            forall|k: int|
                0 <= k < i && k < n - 1 ==> !((#[trigger] view[k]) == "docs"@ && language(
                    view[k + 1],
                )),
        decreases n - i,
    {
        if i + 1 < n {
            assert(view[i as int] == rel@[i as int]@);
            assert(view[i + 1] == rel@[i + 1]@);
            if text::same(rel[i].as_str(), "docs") && is_language(rel[i + 1].as_str()) {
                return true;
            }
        }
        i = i + 1;
    }
    match paths::last_name_of(rel) {
        Some(name) => text::has(name.as_str(), ".zh-CN.") || text::has(name.as_str(), ".ja."),
        None => false,
    }
}

fn has_foreign(rel: &Vec<String>) -> (r: bool)
    ensures
        r == (exists|i: int| 0 <= i < rel@.len() && foreign(#[trigger] text::texts(rel@)[i])),
{
    let ghost view = text::texts(rel@);
    let mut i: usize = 0;
    while i < rel.len()
        invariant
            i <= rel@.len(),
            view == text::texts(rel@),
            forall|k: int| 0 <= k < i ==> !foreign(#[trigger] view[k]),
        decreases rel@.len() - i,
    {
        assert(view[i as int] == rel@[i as int]@);
        if is_foreign(rel[i].as_str()) {
            return true;
        }
        i = i + 1;
    }
    false
}

fn two(a: &str, b: &str) -> (r: Vec<String>)
    ensures
        text::texts(r@) == seq![a@, b@],
{
    let mut out: Vec<String> = Vec::new();
    text::push_str(&mut out, a);
    text::push_str(&mut out, b);
    assert(text::texts(out@) =~= seq![a@, b@]);
    out
}

fn three(a: &str, b: &str, c: &str) -> (r: Vec<String>)
    ensures
        text::texts(r@) == seq![a@, b@, c@],
{
    let mut out: Vec<String> = two(a, b);
    text::push_str(&mut out, c);
    assert(text::texts(out@) =~= seq![a@, b@, c@]);
    out
}

fn is_excluded(rel: &Vec<String>) -> (r: bool)
    ensures
        r == excluded(text::texts(rel@)),
{
    let foreign_part: bool = has_foreign(rel);
    proof {
        assert(foreign_part == (exists|i: int|
            0 <= i < text::texts(rel@).len() && foreign(#[trigger] text::texts(rel@)[i])));
    }
    foreign_part || paths::begins_with(rel, &two("docs", "preview")) || paths::begins_with(
        rel,
        &two("docs", "versions"),
    ) || paths::begins_with(rel, &three("docs", "next", "README.md")) || paths::begins_with(
        rel,
        &three("docs", "next", "CHANGELOG.md"),
    ) || paths::ends_with(rel, &three("src", "ghostty", "bindings.rs"))
        || translated_documentation(rel)
}

/// Whether a path is left out; one that is not below the root is.
pub fn excluded_path(root: &str, path: &str) -> (r: bool)
    ensures
        r == (match paths::below(root@, path@) {
            Some(rel) => excluded(rel),
            None => true,
        }),
{
    match paths::strip_root(root, path) {
        Some(rel) => is_excluded(&rel),
        None => true,
    }
}

fn is_walked(rel: &Vec<String>) -> (r: bool)
    ensures
        r == walked(text::texts(rel@)),
{
    let ghost view = text::texts(rel@);
    let mut front: Vec<String> = Vec::new();
    let mut n: usize = 0;
    assert(text::texts(front@) =~= view.take(0));
    while n < rel.len()
        invariant
            n <= rel@.len(),
            view == text::texts(rel@),
            text::texts(front@) =~= view.take(n as int),
            forall|k: int| 0 < k <= n ==> !excluded(#[trigger] view.take(k)),
        decreases rel@.len() - n,
    {
        assert(view[n as int] == rel@[n as int]@);
        text::push_text(&mut front, rel[n].clone());
        n = n + 1;
        assert(text::texts(front@) =~= view.take(n as int));
        if is_excluded(&front) {
            assert(excluded(view.take(n as int)));
            return false;
        }
    }
    true
}

/// Documentation that counts is not kept in `.github` or `.local`.
pub open spec fn documented(rel: Seq<Seq<char>>) -> bool {
    !paths::begins(rel, seq![".github"@]) && !paths::begins(rel, seq![".local"@])
}

fn is_documented(rel: &Vec<String>) -> (r: bool)
    ensures
        r == documented(text::texts(rel@)),
{
    let mut github: Vec<String> = Vec::new();
    text::push_str(&mut github, ".github");
    assert(text::texts(github@) =~= seq![".github"@]);
    let mut local: Vec<String> = Vec::new();
    text::push_str(&mut local, ".local");
    assert(text::texts(local@) =~= seq![".local"@]);
    !paths::begins_with(rel, &github) && !paths::begins_with(rel, &local)
}

/// Whether documentation at the path counts; it must lie below the root.
pub fn documentation_path(root: &str, path: &str) -> (r: bool)
    ensures
        r == (match paths::below(root@, path@) {
            Some(rel) => documented(rel),
            None => false,
        }),
{
    match paths::strip_root(root, path) {
        Some(rel) => is_documented(&rel),
        None => false,
    }
}

// ---------------------------------------------------------------------------------------------
// What is counted in a file
// ---------------------------------------------------------------------------------------------

pub const TEST_MARK: &'static str = "\n#[cfg(test)]";

/// A source text in two: what comes before its tests, and its tests.
pub open spec fn halves(source: Seq<char>) -> (Seq<char>, Seq<char>) {
    match text::index_of(source, TEST_MARK@) {
        Some(i) => (source.take(i as int), source.skip(i as int)),
        None => (source, ""@),
    }
}

/// Parts a source text before its tests.
pub fn split_cfg_tests(source: &str) -> (r: (String, String))
    ensures
        (r.0@, r.1@) == halves(source@),
{
    let chars: Vec<char> = text::chars_of(source);
    let mark: Vec<char> = text::chars_of(TEST_MARK);
    assert(chars@.skip(0) =~= chars@);
    proof {
        text::lemma_index_of(source@, TEST_MARK@);
    }
    match text::find_from(&chars, &mark, 0) {
        Some(i) => {
            assert(source@.subrange(0, i as int) =~= source@.take(i as int));
            assert(source@.subrange(i as int, chars@.len() as int) =~= source@.skip(i as int));
            (text::text_range(&chars, 0, i), text::text_range(&chars, i, chars.len()))
        },
        None => (source.to_owned(), "".to_owned()),
    }
}

/// The number of lines.
pub fn line_count(source: &str) -> (r: u64)
    ensures
        r == text::lines(source@).len(),
{
    let lines: Vec<String> = text::lines_of(source);
    assert(text::texts(lines@).len() == lines@.len());
    lines.len() as u64
}

/// Counts over the files of a tree.
#[verifier::ext_equal]
pub ghost struct Tally {
    pub files: nat,
    pub production: nat,
    pub tests: nat,
    pub documentation: nat,
    pub unsafe_blocks: nat,
    pub unwraps: nat,
    pub network: nat,
    pub launches: nat,
}

/// Nothing counted.
pub open spec fn nothing() -> Tally {
    Tally {
        files: 0,
        production: 0,
        tests: 0,
        documentation: 0,
        unsafe_blocks: 0,
        unwraps: 0,
        network: 0,
        launches: 0,
    }
}

pub open spec fn together(a: Tally, b: Tally) -> Tally {
    Tally {
        files: a.files + b.files,
        production: a.production + b.production,
        tests: a.tests + b.tests,
        documentation: a.documentation + b.documentation,
        unsafe_blocks: a.unsafe_blocks + b.unsafe_blocks,
        unwraps: a.unwraps + b.unwraps,
        network: a.network + b.network,
        launches: a.launches + b.launches,
    }
}

/// The references to network interfaces in a text.
pub open spec fn network_references(source: Seq<char>) -> nat {
    text::occurrences(source, "TcpListener"@) + text::occurrences(source, "TcpStream"@)
        + text::occurrences(source, "reqwest"@) + text::occurrences(source, "http://"@)
        + text::occurrences(source, "https://"@)
}

/// What a Rust file adds: one of a `tests` directory its lines, any other what stands before its
/// tests, and their lines.
pub open spec fn rust_tally(rel: Seq<Seq<char>>, source: Seq<char>) -> Tally {
    if rel.contains("tests"@) {
        Tally { files: 1, tests: text::lines(source).len(), ..nothing() }
    } else {
        let production = halves(source).0;
        Tally {
            files: 1,
            production: text::lines(production).len(),
            tests: text::lines(halves(source).1).len(),
            documentation: 0,
            unsafe_blocks: text::occurrences(production, "unsafe {"@),
            unwraps: text::occurrences(production, ".unwrap()"@),
            network: network_references(production),
            launches: text::occurrences(production, "Command::new"@),
        }
    }
}

/// The extension of the file that the path names.
pub open spec fn extension(path: Seq<char>) -> Seq<char> {
    match paths::last_name(paths::components(path)) {
        Some(name) => paths::extension(name),
        None => ""@,
    }
}

/// What a file adds to the counts.
pub open spec fn file_tally(root: Seq<char>, file: SourceFileModel) -> Tally {
    match paths::below(root, file.path) {
        Some(rel) => if !walked(rel) {
            nothing()
        } else if extension(file.path) == "rs"@ {
            rust_tally(rel, file.text)
        } else if (extension(file.path) == "md"@ || extension(file.path) == "mdx"@) && documented(
            rel,
        ) {
            Tally { documentation: text::lines(file.text).len(), ..nothing() }
        } else {
            nothing()
        },
        None => nothing(),
    }
}

/// The counts over some files.
pub open spec fn tally(root: Seq<char>, files: Seq<SourceFileModel>) -> Tally
    decreases files.len(),
{
    if files.len() == 0 {
        nothing()
    } else {
        together(tally(root, files.drop_last()), file_tally(root, files.last()))
    }
}

/// The same counts, each kept at the largest number it can hold.
struct Counts {
    files: u64,
    production: u64,
    tests: u64,
    documentation: u64,
    unsafe_blocks: u64,
    unwraps: u64,
    network: u64,
    launches: u64,
}

impl Counts {
    spec fn counts(self, t: Tally) -> bool {
        &&& self.files == sums::capped(t.files)
        &&& self.production == sums::capped(t.production)
        &&& self.tests == sums::capped(t.tests)
        &&& self.documentation == sums::capped(t.documentation)
        &&& self.unsafe_blocks == sums::capped(t.unsafe_blocks)
        &&& self.unwraps == sums::capped(t.unwraps)
        &&& self.network == sums::capped(t.network)
        &&& self.launches == sums::capped(t.launches)
    }

    fn none() -> (r: Counts)
        ensures
            r.counts(nothing()),
    {
        Counts {
            files: 0,
            production: 0,
            tests: 0,
            documentation: 0,
            unsafe_blocks: 0,
            unwraps: 0,
            network: 0,
            launches: 0,
        }
    }

    fn plus(self, more: Counts) -> (r: Counts)
        ensures
            forall|a: Tally, b: Tally|
                self.counts(a) && more.counts(b) ==> r.counts(#[trigger] together(a, b)),
    {
        Counts {
            files: sums::plus(self.files, more.files),
            production: sums::plus(self.production, more.production),
            tests: sums::plus(self.tests, more.tests),
            documentation: sums::plus(self.documentation, more.documentation),
            unsafe_blocks: sums::plus(self.unsafe_blocks, more.unsafe_blocks),
            unwraps: sums::plus(self.unwraps, more.unwraps),
            network: sums::plus(self.network, more.network),
            launches: sums::plus(self.launches, more.launches),
        }
    }
}

fn count(source: &str, needle: &str) -> (r: u64)
    requires
        needle@.len() > 0,
    ensures
        r == text::occurrences(source@, needle@),
{
    text::count_occurrences(source, needle) as u64
}

fn count_network(source: &str) -> (r: u64)
    ensures
        r == sums::capped(network_references(source@)),
{
    proof {
        reveal_strlit("TcpListener");
        reveal_strlit("TcpStream");
        reveal_strlit("reqwest");
        reveal_strlit("http://");
        reveal_strlit("https://");
    }
    let sockets: u64 = sums::plus(count(source, "TcpListener"), count(source, "TcpStream"));
    let clients: u64 = sums::plus(sockets, count(source, "reqwest"));
    sums::plus(sums::plus(clients, count(source, "http://")), count(source, "https://"))
}

fn holds_tests(rel: &Vec<String>) -> (r: bool)
    ensures
        r == text::texts(rel@).contains("tests"@),
{
    let ghost view = text::texts(rel@);
    let mut i: usize = 0;
    while i < rel.len()
        invariant
            i <= rel@.len(),
            view == text::texts(rel@),
            forall|k: int| 0 <= k < i ==> #[trigger] view[k] != "tests"@,
        decreases rel@.len() - i,
    {
        assert(view[i as int] == rel@[i as int]@);
        if text::same(rel[i].as_str(), "tests") {
            return true;
        }
        i = i + 1;
    }
    false
}

fn count_rust(rel: &Vec<String>, source: &str) -> (r: Counts)
    ensures
        r.counts(rust_tally(text::texts(rel@), source@)),
{
    if holds_tests(rel) {
        let mut out: Counts = Counts::none();
        out.files = 1;
        out.tests = line_count(source);
        return out;
    }
    let (production, tests): (String, String) = split_cfg_tests(source);
    proof {
        reveal_strlit("unsafe {");
        reveal_strlit(".unwrap()");
        reveal_strlit("Command::new");
    }
    Counts {
        files: 1,
        production: line_count(production.as_str()),
        tests: line_count(tests.as_str()),
        documentation: 0,
        unsafe_blocks: count(production.as_str(), "unsafe {"),
        unwraps: count(production.as_str(), ".unwrap()"),
        network: count_network(production.as_str()),
        launches: count(production.as_str(), "Command::new"),
    }
}

fn extension_of(path: &str) -> (r: String)
    ensures
        r@ == extension(path@),
{
    match paths::last_name_of(&paths::components_of(path)) {
        Some(name) => paths::extension_of(name.as_str()),
        None => "".to_owned(),
    }
}

/// Whether files of this name are counted: Rust sources and documentation.
pub open spec fn counted(path: Seq<char>) -> bool {
    extension(path) == "rs"@ || extension(path) == "md"@ || extension(path) == "mdx"@
}

/// Whether a file of this name has to be read at all.
pub fn counted_kind(path: &str) -> (r: bool)
    ensures
        r == counted(path@),
{
    let kind: String = extension_of(path);
    text::same(kind.as_str(), "rs") || text::same(kind.as_str(), "md") || text::same(
        kind.as_str(),
        "mdx",
    )
}

/// A file that is not read would add nothing to the counts.
pub proof fn law_other_files_add_nothing(root: Seq<char>, file: SourceFileModel)
    requires
        !counted(file.path),
    ensures
        file_tally(root, file) == nothing(),
{
}

fn count_file(root: &str, file: &SourceFile) -> (r: Counts)
    ensures
        r.counts(file_tally(root@, file@)),
{
    match paths::strip_root(root, file.path.as_str()) {
        Some(rel) => {
            if !is_walked(&rel) {
                return Counts::none();
            }
            let kind: String = extension_of(file.path.as_str());
            if text::same(kind.as_str(), "rs") {
                count_rust(&rel, file.text.as_str())
            } else if (text::same(kind.as_str(), "md") || text::same(kind.as_str(), "mdx"))
                && is_documented(&rel) {
                let mut out: Counts = Counts::none();
                out.documentation = line_count(file.text.as_str());
                out
            } else {
                Counts::none()
            }
        },
        None => Counts::none(),
    }
}

// ---------------------------------------------------------------------------------------------
// The analysis of a tree
// ---------------------------------------------------------------------------------------------

pub const SCOPE_NOTE: &'static str =
    "Counts exclude .git, target, vendored code, generated bindings, translations, and preview/versioned duplicate docs.";

pub const LEXICAL_NOTE: &'static str =
    "Unsafe and unwrap counts are lexical heuristics over first-party production prefixes, not vulnerability findings.";

pub const CONTEXT_NOTE: &'static str =
    "Code size and dependency count are context metrics and do not contribute to assurance scores.";

pub const FOREIGN_NOTE: &'static str =
    "Rust lexical metrics are not applicable to this source tree. Cargo counts cover only Cargo manifests, not C dependencies. Documentation counts cover Markdown only, not man pages.";

pub const PACKAGE_LINE: &'static str = "[[package]]";

pub open spec fn is_package_line() -> spec_fn(Seq<char>) -> bool {
    |line: Seq<char>| line == PACKAGE_LINE@
}

/// The number of packages that a lock file lists.
pub open spec fn packages(lock: Seq<char>) -> nat {
    text::lines(lock).filter(is_package_line()).len()
}

fn count_packages(lock: &str) -> (r: u64)
    ensures
        r == packages(lock@),
{
    let lines: Vec<String> = text::lines_of(lock);
    let ghost view = text::lines(lock@);
    let ghost p = is_package_line();
    assert(view == text::texts(lines@));
    let mut n: u64 = 0;
    let mut i: usize = 0;
    proof {
        reveal(Seq::filter);
    }
    while i < lines.len()
        invariant
            i <= lines@.len(),
            n <= i,
            view == text::texts(lines@),
            p == is_package_line(),
            n == view.take(i as int).filter(p).len(),
        decreases lines@.len() - i,
    {
        proof {
            reveal(Seq::filter);
            assert(view.take(i + 1).drop_last() =~= view.take(i as int));
            assert(view.take(i + 1).last() == lines@[i as int]@);
        }
        if text::same(lines[i].as_str(), PACKAGE_LINE) {
            n = n + 1;
        }
        i = i + 1;
    }
    assert(view.take(i as int) =~= view);
    n
}

/// A count of Rust source, where there is any.
pub open spec fn applicable(t: Tally, n: nat) -> Option<u64> {
    if t.files > 0 {
        Some(sums::capped(n) as u64)
    } else {
        None
    }
}

/// What is recorded of a source tree. Where it holds no Rust source, the counts of such source
/// are not there at all: a missing count means that the collector does not apply, never a zero.
pub open spec fn analysis(
    root: Seq<char>,
    files: Seq<SourceFileModel>,
    lock: Option<Seq<char>>,
    manifest: Option<Seq<char>>,
) -> StaticAnalysisModel {
    let t = tally(root, files);
    StaticAnalysisModel {
        rust_source_files: applicable(t, t.files),
        first_party_rust_lines: applicable(t, t.production),
        rust_test_lines: applicable(t, t.tests),
        documentation_lines: sums::capped(t.documentation) as u64,
        lockfile_packages: match lock {
            Some(lines) => Some(packages(lines) as u64),
            None => None,
        },
        direct_dependencies: match manifest::dependencies(manifest) {
            Some(n) => Some(n as u64),
            None => None,
        },
        unsafe_blocks: applicable(t, t.unsafe_blocks),
        production_unwrap_calls: applicable(t, t.unwraps),
        network_api_references: applicable(t, t.network),
        process_launch_references: applicable(t, t.launches),
        notes: if t.files > 0 {
            seq![SCOPE_NOTE@, LEXICAL_NOTE@, CONTEXT_NOTE@]
        } else {
            seq![SCOPE_NOTE@, LEXICAL_NOTE@, CONTEXT_NOTE@, FOREIGN_NOTE@]
        },
    }
}

fn some_if(there: bool, n: u64) -> (r: Option<u64>)
    ensures
        r == (if there {
            Some(n)
        } else {
            None
        }),
{
    if there {
        Some(n)
    } else {
        None
    }
}

/// The analysis of a tree, from its readable files, its lock file and its manifest.
pub fn static_analysis(
    root: &str,
    files: &Vec<SourceFile>,
    lock: &Option<String>,
    manifest: &Option<String>,
) -> (r: StaticAnalysis)
    ensures
        r@ == analysis(
            root@,
            file_views(files@),
            text::opt_text(*lock),
            text::opt_text(*manifest),
        ),
{
    let ghost view = file_views(files@);
    let mut all: Counts = Counts::none();
    let mut i: usize = 0;
    while i < files.len()
        invariant
            i <= files@.len(),
            view == file_views(files@),
            all.counts(tally(root@, view.take(i as int))),
        decreases files@.len() - i,
    {
        proof {
            assert(view.take(i + 1).drop_last() =~= view.take(i as int));
            assert(view.take(i + 1).last() == files@[i as int]@);
        }
        let more: Counts = count_file(root, &files[i]);
        let ghost before = tally(root@, view.take(i as int));
        let ghost added = file_tally(root@, files@[i as int]@);
        all = all.plus(more);
        assert(all.counts(together(before, added)));
        i = i + 1;
    }
    assert(view.take(i as int) =~= view);
    let rust: bool = all.files > 0;
    let mut notes: Vec<String> = three(SCOPE_NOTE, LEXICAL_NOTE, CONTEXT_NOTE);
    if !rust {
        text::push_str(&mut notes, FOREIGN_NOTE);
        assert(text::texts(notes@) =~= seq![
            SCOPE_NOTE@,
            LEXICAL_NOTE@,
            CONTEXT_NOTE@,
            FOREIGN_NOTE@,
        ]);
    }
    StaticAnalysis {
        rust_source_files: some_if(rust, all.files),
        first_party_rust_lines: some_if(rust, all.production),
        rust_test_lines: some_if(rust, all.tests),
        documentation_lines: all.documentation,
        lockfile_packages: match lock {
            Some(lines) => Some(count_packages(lines.as_str())),
            None => None,
        },
        direct_dependencies: match manifest::direct_dependencies(manifest) {
            Some(n) => Some(n as u64),
            None => None,
        },
        unsafe_blocks: some_if(rust, all.unsafe_blocks),
        production_unwrap_calls: some_if(rust, all.unwraps),
        network_api_references: some_if(rust, all.network),
        process_launch_references: some_if(rust, all.launches),
        notes,
    }
}

/// Counts do not depend on the order in which the files of a tree are found.
pub proof fn law_order_of_files_does_not_count(
    root: Seq<char>,
    a: Seq<SourceFileModel>,
    b: Seq<SourceFileModel>,
    lock: Option<Seq<char>>,
    manifest: Option<Seq<char>>,
)
    requires
        a.to_multiset() == b.to_multiset(),
    ensures
        analysis(root, a, lock, manifest) == analysis(root, b, lock, manifest),
{
    lemma_tally_of_permutation(root, a, b);
}

proof fn lemma_tally_of_permutation(
    root: Seq<char>,
    a: Seq<SourceFileModel>,
    b: Seq<SourceFileModel>,
)
    requires
        a.to_multiset() == b.to_multiset(),
    ensures
        tally(root, a) == tally(root, b),
    decreases a.len(),
{
    broadcast use vstd::seq_lib::group_to_multiset_ensures;

    assert(a.len() == a.to_multiset().len());
    assert(b.len() == b.to_multiset().len());
    if a.len() > 0 {
        let last = a.last();
        assert(a.contains(last));
        assert(a.to_multiset().count(last) > 0);
        assert(b.contains(last));
        let i = b.index_of(last);
        assert(b[i] == last);
        let rest = b.remove(i);
        assert(a.drop_last() =~= a.remove(a.len() - 1));
        assert(a.drop_last().to_multiset() =~= a.to_multiset().remove(last));
        assert(rest.to_multiset() =~= b.to_multiset().remove(last));
        lemma_tally_of_permutation(root, a.drop_last(), rest);
        lemma_tally_without(root, b, i);
    }
}

proof fn lemma_tally_without(root: Seq<char>, files: Seq<SourceFileModel>, i: int)
    requires
        0 <= i < files.len(),
    ensures
        tally(root, files) == together(tally(root, files.remove(i)), file_tally(root, files[i])),
    decreases files.len(),
{
    let n = files.len() - 1;
    if i == n {
        assert(files.remove(i) =~= files.drop_last());
    } else {
        lemma_tally_without(root, files.drop_last(), i);
        assert(files.remove(i).drop_last() =~= files.drop_last().remove(i));
        assert(files.remove(i).last() == files.last());
    }
}

/// Production code, tests and documentation in excluded places add nothing to any count.
pub proof fn law_excluded_files_add_nothing(root: Seq<char>, file: SourceFileModel)
    requires
        match paths::below(root, file.path) {
            Some(rel) => rel.len() > 0 && excluded(rel),
            None => true,
        },
    ensures
        file_tally(root, file) == nothing(),
{
    if let Some(rel) = paths::below(root, file.path) {
        assert(rel.take(rel.len() as int) =~= rel);
        assert(!walked(rel));
    }
}

// ---------------------------------------------------------------------------------------------
// The binary and the revision
// ---------------------------------------------------------------------------------------------

/// What is recorded of a binary, given its contents and what it prints as its version.
pub fn artifact(config: &ContenderConfig, contents: &[u8], version_output: &str) -> (r:
    ArtifactInfo)
    ensures
        r@ == (ArtifactInfoModel {
            path: config@.binary,
            bytes: contents@.len() as u64,
            version_output: version_output@,
            sha256: privacy::sha256_hex(contents@),
        }),
        contents@.len() <= u64::MAX,
        privacy::hex(r@.sha256) && r@.sha256.len() == 64,
{
    ArtifactInfo {
        path: config.binary.clone(),
        bytes: contents.len() as u64,
        version_output: version_output.to_owned(),
        sha256: privacy::digest_hex(contents),
    }
}

/// What is recorded of a source tree's revision. Each fact is there only where it could be had:
/// the commit, its date, whether the tree differs from it, and what the manifest says.
pub fn source_info(
    config: &ContenderConfig,
    commit: Option<String>,
    commit_date: Option<String>,
    status: &Option<String>,
    manifest: &Option<String>,
) -> (r: SourceInfo)
    ensures
        r@ == (SourceInfoModel {
            path: config@.source,
            commit: text::opt_text(commit),
            commit_date: text::opt_text(commit_date),
            dirty: match text::opt_text(*status) {
                Some(output) => Some(text::trim(output).len() > 0),
                None => None,
            },
            package_version: manifest::said(text::opt_text(*manifest), "version"@),
            license: manifest::said(text::opt_text(*manifest), "license"@),
        }),
{
    SourceInfo {
        path: config.source.clone(),
        commit,
        commit_date,
        dirty: match status {
            Some(output) => {
                let left: String = text::trimmed(output.as_str());
                Some(text::chars_of(left.as_str()).len() > 0)
            },
            None => None,
        },
        package_version: manifest::manifest_string(manifest, "version"),
        license: manifest::manifest_string(manifest, "license"),
    }
}

proof fn lemma_counted_files(root: Seq<char>, files: Seq<SourceFileModel>)
    ensures
        tally(root, files).files > 0 <==> exists|i: int|
            0 <= i < files.len() && #[trigger] file_tally(root, files[i]).files > 0,
    decreases files.len(),
{
    if files.len() > 0 {
        let front = files.drop_last();
        lemma_counted_files(root, front);
        if tally(root, front).files > 0 {
            let i = choose|i: int|
                0 <= i < front.len() && #[trigger] file_tally(root, front[i]).files > 0;
            assert(file_tally(root, files[i]).files > 0);
        }
        if exists|i: int| 0 <= i < files.len() && #[trigger] file_tally(root, files[i]).files > 0 {
            let i = choose|i: int|
                0 <= i < files.len() && #[trigger] file_tally(root, files[i]).files > 0;
            if i < front.len() {
                assert(file_tally(root, front[i]).files > 0);
            }
        }
        assert(files[files.len() - 1] == files.last());
    }
}

/// Rust counts are null exactly where no Rust file counts; a measured count of zero stays zero.
pub proof fn law_rust_counts_are_null_without_rust(
    root: Seq<char>,
    files: Seq<SourceFileModel>,
    lock: Option<Seq<char>>,
    manifest: Option<Seq<char>>,
)
    ensures
        ({
            let a = analysis(root, files, lock, manifest);
            let rust = exists|i: int|
                0 <= i < files.len() && #[trigger] file_tally(root, files[i]).files > 0;
            &&& a.rust_source_files is Some <==> rust
            &&& a.first_party_rust_lines is Some <==> rust
            &&& a.rust_test_lines is Some <==> rust
            &&& a.unsafe_blocks is Some <==> rust
            &&& a.production_unwrap_calls is Some <==> rust
            &&& a.network_api_references is Some <==> rust
            &&& a.process_launch_references is Some <==> rust
        }),
{
    lemma_counted_files(root, files);
}

} // verus!
