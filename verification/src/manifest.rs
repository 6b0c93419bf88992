//! What a Cargo manifest says of its package and its dependencies.

use vstd::prelude::*;
use crate::text;

verus! {

/// A TOML value.
#[verifier::external_type_specification]
#[verifier::external_body]
pub struct ExTomlValue(toml::Value);

/// What stands at one place of a TOML document: a text, a table of so many entries, or something
/// else.
pub ghost enum Node {
    Text(Seq<char>),
    Table(nat),
    Other,
}

/// What a TOML value holds, by the keys that lead to it through tables; no keys lead to the value
/// itself.
pub uninterp spec fn contents(value: toml::Value) -> Map<Seq<Seq<char>>, Node>;

/// What a TOML document holds, where the text is one.
pub uninterp spec fn document(source: Seq<char>) -> Option<Map<Seq<Seq<char>>, Node>>;

/// What lies below one key.
pub open spec fn under(
    all: Map<Seq<Seq<char>>, Node>,
    key: Seq<char>,
) -> Map<Seq<Seq<char>>, Node> {
    Map::new(
        |path: Seq<Seq<char>>| all.contains_key(seq![key] + path),
        |path: Seq<Seq<char>>| all[seq![key] + path],
    )
}

/// `toml::from_str` into a `toml::Value`: whether the text is a document, and what it holds, are
/// functions of the text alone.
#[verifier::external_body]
fn parse(source: &str) -> (r: Option<toml::Value>)
    ensures
        match r {
            Some(value) => document(source@) == Some(contents(value)),
            None => document(source@) is None,
        },
{
    toml::from_str(source).ok()
}

/// `toml::Value::get` with a text: the entry of that key, where the value is a table and has one.
#[verifier::external_body]
fn get<'a>(value: &'a toml::Value, key: &str) -> (r: Option<&'a toml::Value>)
    ensures
        match r {
            Some(inner) => contents(*value).contains_key(seq![key@]) && contents(*inner) == under(
                contents(*value),
                key@,
            ),
            None => !contents(*value).contains_key(seq![key@]),
        },
{
    value.get(key)
}

/// `toml::Value::as_str`: the text, where the value is one.
#[verifier::external_body]
fn as_text(value: &toml::Value) -> (r: Option<String>)
    ensures
        match r {
            Some(t) => contents(*value).contains_key(Seq::empty()) && contents(
                *value,
            )[Seq::empty()] == Node::Text(t@),
            None => !(contents(*value).contains_key(Seq::empty()) && contents(
                *value,
            )[Seq::empty()] is Text),
        },
{
    value.as_str().map(str::to_owned)
}

/// `toml::Value::as_table`: the number of entries, where the value is a table.
#[verifier::external_body]
fn table_len(value: &toml::Value) -> (r: Option<usize>)
    ensures
        match r {
            Some(n) => contents(*value).contains_key(Seq::empty()) && contents(
                *value,
            )[Seq::empty()] == Node::Table(n as nat),
            None => !(contents(*value).contains_key(Seq::empty()) && contents(
                *value,
            )[Seq::empty()] is Table),
        },
{
    value.as_table().map(|table| table.len())
}

/// What the keys lead to, one after the other; each step needs the one before it.
pub open spec fn node(all: Map<Seq<Seq<char>>, Node>, keys: Seq<Seq<char>>) -> Option<Node>
    decreases keys.len(),
{
    if keys.len() == 0 {
        if all.contains_key(Seq::empty()) {
            Some(all[Seq::empty()])
        } else {
            None
        }
    } else if all.contains_key(seq![keys[0]]) {
        node(under(all, keys[0]), keys.skip(1))
    } else {
        None
    }
}

/// The text to which the keys lead.
pub open spec fn text_at(all: Map<Seq<Seq<char>>, Node>, keys: Seq<Seq<char>>) -> Option<Seq<char>> {
    match node(all, keys) {
        Some(Node::Text(t)) => Some(t),
        _ => None,
    }
}

/// The number of entries of the table to which the keys lead.
pub open spec fn table_at(all: Map<Seq<Seq<char>>, Node>, keys: Seq<Seq<char>>) -> Option<nat> {
    match node(all, keys) {
        Some(Node::Table(n)) => Some(n),
        _ => None,
    }
}

fn follow<'a>(value: &'a toml::Value, keys: &[&str]) -> (r: Option<&'a toml::Value>)
    ensures
        match r {
            Some(inner) => node(contents(*value), keys@.map_values(|k: &str| k@)) == node(
                contents(*inner),
                Seq::empty(),
            ),
            None => node(contents(*value), keys@.map_values(|k: &str| k@)) is None,
        },
{
    let ghost all = keys@.map_values(|k: &str| k@);
    let mut at: &'a toml::Value = value;
    let mut i: usize = 0;
    assert(all.skip(0) =~= all);
    while i < keys.len()
        invariant
            i <= keys@.len(),
            all == keys@.map_values(|k: &str| k@),
            node(contents(*value), all) == node(contents(*at), all.skip(i as int)),
        decreases keys@.len() - i,
    {
        assert(all.skip(i as int)[0] == keys@[i as int]@);
        assert(all.skip(i as int).skip(1) =~= all.skip(i + 1));
        match get(at, keys[i]) {
            Some(inner) => {
                at = inner;
            },
            None => {
                return None;
            },
        }
        i = i + 1;
    }
    assert(all.skip(i as int) =~= Seq::empty());
    Some(at)
}

/// What the package says under a key.
pub open spec fn package_text(all: Map<Seq<Seq<char>>, Node>, key: Seq<char>) -> Option<Seq<char>> {
    text_at(all, seq!["package"@, key])
}

/// What the package of a workspace says under a key.
pub open spec fn workspace_text(all: Map<Seq<Seq<char>>, Node>, key: Seq<char>) -> Option<
    Seq<char>,
> {
    text_at(all, seq!["workspace"@, "package"@, key])
}

/// What a package says under a key.
pub fn package_string(value: &toml::Value, key: &str) -> (r: Option<String>)
    ensures
        text::opt_text(r) == package_text(contents(*value), key@),
{
    let keys: [&str; 2] = ["package", key];
    assert(keys@.map_values(|k: &str| k@) =~= seq!["package"@, key@]);
    match follow(value, &keys) {
        Some(inner) => as_text(inner),
        None => None,
    }
}

/// What the package of a workspace says under a key.
pub fn workspace_package_string(value: &toml::Value, key: &str) -> (r: Option<String>)
    ensures
        text::opt_text(r) == workspace_text(contents(*value), key@),
{
    let keys: [&str; 3] = ["workspace", "package", key];
    assert(keys@.map_values(|k: &str| k@) =~= seq!["workspace"@, "package"@, key@]);
    match follow(value, &keys) {
        Some(inner) => as_text(inner),
        None => None,
    }
}

/// What the package says, or else what its workspace does.
pub open spec fn either(own: Option<Seq<char>>, shared: Option<Seq<char>>) -> Option<Seq<char>> {
    match own {
        Some(found) => Some(found),
        None => shared,
    }
}

/// What the package says, or else what its workspace does.
pub fn preferred(own: Option<String>, shared: Option<String>) -> (r: Option<String>)
    ensures
        text::opt_text(r) == either(text::opt_text(own), text::opt_text(shared)),
{
    match own {
        Some(found) => Some(found),
        None => shared,
    }
}

/// What the manifest says under a key, of its package or else of its workspace's.
pub open spec fn said(source: Option<Seq<char>>, key: Seq<char>) -> Option<Seq<char>> {
    match source {
        Some(t) => match document(t) {
            Some(all) => either(package_text(all, key), workspace_text(all, key)),
            None => None,
        },
        None => None,
    }
}

/// What the manifest says under a key, of its package or else of its workspace's.
pub fn manifest_string(source: &Option<String>, key: &str) -> (r: Option<String>)
    ensures
        text::opt_text(r) == said(text::opt_text(*source), key@),
{
    match source {
        Some(t) => match parse(t.as_str()) {
            Some(value) => preferred(
                package_string(&value, key),
                workspace_package_string(&value, key),
            ),
            None => None,
        },
        None => None,
    }
}

/// The size of the package's table of dependencies, or else of its workspace's; none is empty.
pub open spec fn dependency_total(own: Option<nat>, shared: Option<nat>) -> nat {
    match own {
        Some(n) => n,
        None => match shared {
            Some(n) => n,
            None => 0,
        },
    }
}

pub open spec fn opt_nat(n: Option<usize>) -> Option<nat> {
    match n {
        Some(n) => Some(n as nat),
        None => None,
    }
}

/// The size of the package's table of dependencies, or else of its workspace's; none is empty.
pub fn dependency_count(own: Option<usize>, shared: Option<usize>) -> (r: usize)
    ensures
        r == dependency_total(opt_nat(own), opt_nat(shared)),
{
    match own {
        Some(n) => n,
        None => match shared {
            Some(n) => n,
            None => 0,
        },
    }
}

/// How many direct dependencies a manifest lists: its own, or else its workspace's.
pub open spec fn dependencies(source: Option<Seq<char>>) -> Option<nat> {
    match source {
        Some(t) => match document(t) {
            Some(all) => Some(
                dependency_total(
                    table_at(all, seq!["dependencies"@]),
                    table_at(all, seq!["workspace"@, "dependencies"@]),
                ),
            ),
            None => None,
        },
        None => None,
    }
}

fn count_at(value: &toml::Value, keys: &[&str]) -> (r: Option<usize>)
    ensures
        opt_nat(r) == table_at(contents(*value), keys@.map_values(|k: &str| k@)),
{
    match follow(value, keys) {
        Some(inner) => table_len(inner),
        None => None,
    }
}

/// How many direct dependencies a manifest lists, where it can be read.
pub fn direct_dependencies(source: &Option<String>) -> (r: Option<usize>)
    ensures
        opt_nat(r) == dependencies(text::opt_text(*source)),
{
    let own: [&str; 1] = ["dependencies"];
    let shared: [&str; 2] = ["workspace", "dependencies"];
    assert(own@.map_values(|k: &str| k@) =~= seq!["dependencies"@]);
    assert(shared@.map_values(|k: &str| k@) =~= seq!["workspace"@, "dependencies"@]);
    match source {
        Some(t) => match parse(t.as_str()) {
            Some(value) => Some(
                dependency_count(count_at(&value, &own), count_at(&value, &shared)),
            ),
            None => None,
        },
        None => None,
    }
}

} // verus!
