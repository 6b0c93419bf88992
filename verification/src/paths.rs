//! Unix paths as texts: their components, and joining, stripping and comparing them.

use vstd::prelude::*;
use crate::text;

verus! {

/// A name between slashes that stands for something: neither empty nor a single dot.
pub open spec fn proper(name: Seq<char>) -> bool {
    name.len() > 0 && name != "."@
}

pub open spec fn is_proper() -> spec_fn(Seq<char>) -> bool {
    |n: Seq<char>| proper(n)
}

/// The root or the leading dot of a path, where it has one.
pub open spec fn lead(path: Seq<char>) -> Seq<Seq<char>> {
    if path.len() > 0 && path[0] == '/' {
        seq!["/"@]
    } else if text::fields(path, '/')[0] == "."@ {
        seq!["."@]
    } else {
        Seq::empty()
    }
}

/// The components of a path. Repeated slashes and inner dots do not count.
pub open spec fn components(path: Seq<char>) -> Seq<Seq<char>> {
    lead(path) + text::fields(path, '/').filter(is_proper())
}

fn is_proper_name(name: &str) -> (r: bool)
    ensures
        r == proper(name@),
{
    text::chars_of(name).len() > 0 && !text::same(name, ".")
}

/// The components of a path.
pub fn components_of(path: &str) -> (r: Vec<String>)
    ensures
        text::texts(r@) == components(path@),
{
    let chars: Vec<char> = text::chars_of(path);
    let names: Vec<String> = text::fields_of(path, '/');
    let ghost all = text::fields(path@, '/');
    let ghost p = is_proper();
    let mut out: Vec<String> = Vec::new();
    assert(text::texts(out@) =~= Seq::empty());
    assert(all[0] == names@[0]@);
    if chars.len() > 0 && chars[0] == '/' {
        text::push_str(&mut out, "/");
        assert(text::texts(out@) =~= seq!["/"@]);
    } else if text::same(names[0].as_str(), ".") {
        text::push_str(&mut out, ".");
        assert(text::texts(out@) =~= seq!["."@]);
    }
    let ghost head = text::texts(out@);
    let mut i: usize = 0;
    proof {
        reveal(Seq::filter);
    }
    assert(head + all.take(0).filter(p) =~= head);
    while i < names.len()
        invariant
            i <= names@.len(),
            all == text::texts(names@),
            p == is_proper(),
            text::texts(out@) =~= head + all.take(i as int).filter(p),
        decreases names@.len() - i,
    {
        proof {
            reveal(Seq::filter);
            assert(all.take(i + 1).drop_last() =~= all.take(i as int));
            assert(all.take(i + 1).last() == names@[i as int]@);
        }
        if is_proper_name(names[i].as_str()) {
            text::push_text(&mut out, names[i].clone());
        }
        i = i + 1;
    }
    assert(all.take(i as int) =~= all);
    out
}

/// Whether the list begins with the prefix.
pub open spec fn begins(list: Seq<Seq<char>>, prefix: Seq<Seq<char>>) -> bool {
    prefix.len() <= list.len() && list.take(prefix.len() as int) == prefix
}

/// Whether the list ends with the suffix.
pub open spec fn ends(list: Seq<Seq<char>>, suffix: Seq<Seq<char>>) -> bool {
    suffix.len() <= list.len() && list.skip(list.len() - suffix.len()) == suffix
}

fn matches_from(list: &Vec<String>, part: &Vec<String>, from: usize) -> (r: bool)
    requires
        from + part@.len() <= list@.len(),
    ensures
        r == (text::texts(list@).subrange(from as int, from + part@.len()) == text::texts(part@)),
{
    let ghost a = text::texts(list@);
    let ghost b = text::texts(part@);
    let total: usize = list.len();
    let mut i: usize = 0;
    while i < part.len()
        invariant
            i <= part@.len(),
            from + part@.len() <= total,
            total == list@.len(),
            a == text::texts(list@),
            b == text::texts(part@),
            forall|k: int| 0 <= k < i ==> a[from + k] == #[trigger] b[k],
        decreases part@.len() - i,
    {
        assert(a[from + i] == list@[from + i]@);
        assert(b[i as int] == part@[i as int]@);
        if !text::same(list[from + i].as_str(), part[i].as_str()) {
            assert(a.subrange(from as int, from + part@.len())[i as int] != b[i as int]);
            return false;
        }
        i = i + 1;
    }
    assert(a.subrange(from as int, from + part@.len()) =~= b);
    true
}

pub fn begins_with(list: &Vec<String>, prefix: &Vec<String>) -> (r: bool)
    ensures
        r == begins(text::texts(list@), text::texts(prefix@)),
{
    let total: usize = list.len();
    if prefix.len() > total {
        return false;
    }
    assert(text::texts(list@).take(prefix@.len() as int) =~= text::texts(list@).subrange(
        0,
        prefix@.len() as int,
    ));
    matches_from(list, prefix, 0)
}

pub fn ends_with(list: &Vec<String>, suffix: &Vec<String>) -> (r: bool)
    ensures
        r == ends(text::texts(list@), text::texts(suffix@)),
{
    let total: usize = list.len();
    if suffix.len() > total {
        return false;
    }
    let ghost at = list@.len() - suffix@.len();
    assert(text::texts(list@).skip(at) =~= text::texts(list@).subrange(at, list@.len() as int));
    matches_from(list, suffix, total - suffix.len())
}

/// The components of the path below the root, where it lies there.
pub open spec fn below(root: Seq<char>, path: Seq<char>) -> Option<Seq<Seq<char>>> {
    if begins(components(path), components(root)) {
        Some(components(path).skip(components(root).len() as int))
    } else {
        None
    }
}

pub fn strip_root(root: &str, path: &str) -> (r: Option<Vec<String>>)
    ensures
        match r {
            Some(list) => below(root@, path@) == Some(text::texts(list@)),
            None => below(root@, path@) is None,
        },
{
    let base: Vec<String> = components_of(root);
    let all: Vec<String> = components_of(path);
    if !begins_with(&all, &base) {
        return None;
    }
    let ghost view = text::texts(all@);
    let n: usize = base.len();
    assert(text::texts(base@).len() == n);
    assert(view.len() == all@.len());
    let mut out: Vec<String> = Vec::new();
    let mut i: usize = n;
    assert(text::texts(out@) =~= view.subrange(n as int, n as int));
    while i < all.len()
        invariant
            n <= i <= all@.len(),
            view == text::texts(all@),
            text::texts(out@) =~= view.subrange(n as int, i as int),
        decreases all@.len() - i,
    {
        assert(view[i as int] == all@[i as int]@);
        text::push_text(&mut out, all[i].clone());
        i = i + 1;
    }
    assert(text::texts(out@) =~= view.skip(n as int));
    Some(out)
}

/// The last component, where it is a name.
pub open spec fn last_name(list: Seq<Seq<char>>) -> Option<Seq<char>> {
    if list.len() > 0 && list.last() != "/"@ && list.last() != "."@ && list.last() != ".."@ {
        Some(list.last())
    } else {
        None
    }
}

pub fn last_name_of(list: &Vec<String>) -> (r: Option<String>)
    ensures
        text::opt_text(r) == last_name(text::texts(list@)),
{
    if list.len() == 0 {
        return None;
    }
    let last: &String = &list[list.len() - 1];
    assert(text::texts(list@).last() == last@);
    if text::same(last.as_str(), "/") || text::same(last.as_str(), ".") || text::same(
        last.as_str(),
        "..",
    ) {
        None
    } else {
        Some(last.clone())
    }
}

/// One path behind another; an absolute one stands alone.
pub open spec fn joined(base: Seq<char>, path: Seq<char>) -> Seq<char> {
    if path.len() > 0 && path[0] == '/' {
        path
    } else if base.len() == 0 || base.last() == '/' {
        base + path
    } else {
        base + "/"@ + path
    }
}

pub fn join(base: &str, path: &str) -> (r: String)
    ensures
        r@ == joined(base@, path@),
{
    let a: Vec<char> = text::chars_of(base);
    let b: Vec<char> = text::chars_of(path);
    if b.len() > 0 && b[0] == '/' {
        path.to_owned()
    } else if a.len() == 0 || a[a.len() - 1] == '/' {
        text::cat(base.to_owned(), path)
    } else {
        text::cat(text::cat(base.to_owned(), "/"), path)
    }
}

/// The extension of a file name: what follows its last dot, unless that dot comes first.
pub open spec fn extension(name: Seq<char>) -> Seq<char> {
    let parts = text::fields(name, '.');
    if parts.len() > 1 && !(parts.len() == 2 && parts[0].len() == 0) {
        parts.last()
    } else {
        ""@
    }
}

pub fn extension_of(name: &str) -> (r: String)
    ensures
        r@ == extension(name@),
{
    let parts: Vec<String> = text::fields_of(name, '.');
    let ghost view = text::fields(name@, '.');
    let n: usize = parts.len();
    assert(view == text::texts(parts@));
    assert(view[0] == parts@[0]@);
    assert(view.last() == parts@[n - 1]@);
    if n > 1 && !(n == 2 && text::chars_of(parts[0].as_str()).len() == 0) {
        parts[n - 1].clone()
    } else {
        "".to_owned()
    }
}

/// A path that is joined to a directory lies below it, by its own components.
pub proof fn law_joined_paths_lie_below(base: Seq<char>, name: Seq<char>)
    requires
        base.len() > 0,
        base.last() != '/',
        name.len() > 0,
        proper(name),
        forall|i: int| 0 <= i < name.len() ==> #[trigger] name[i] != '/',
    ensures
        components(joined(base, name)) == components(base).push(name),
        below(base, joined(base, name)) == Some(seq![name]),
{
    reveal_strlit("/");
    let path = base + "/"@ + name;
    lemma_fields_append(base, name);
    let front = text::fields(base, '/');
    let all = text::fields(path, '/');
    assert(all =~= front.push(name));
    reveal(Seq::filter);
    assert(all.drop_last() =~= front);
    assert(all.filter(is_proper()) =~= front.filter(is_proper()).push(name));
    lemma_fields_some(base);
    assert(all[0] == front[0]);
    assert(path[0] == base[0]);
    assert(lead(path) == lead(base));
    assert(components(path) =~= components(base).push(name));
    let list = components(path);
    let root = components(base);
    assert(list.take(root.len() as int) =~= root);
    assert(list.skip(root.len() as int) =~= seq![name]);
}

proof fn lemma_fields_some(s: Seq<char>)
    ensures
        text::fields(s, '/').len() > 0,
{
}

proof fn lemma_fields_append(base: Seq<char>, name: Seq<char>)
    requires
        forall|i: int| 0 <= i < name.len() ==> #[trigger] name[i] != '/',
    ensures
        text::fields(base + "/"@ + name, '/') == text::fields(base, '/').push(name),
    decreases base.len(),
{
    reveal_strlit("/");
    let p = text::other_than('/');
    let s = base + "/"@ + name;
    let n = text::run_len(base, p);
    text::lemma_run_len(base, p);
    assert forall|i: int| 0 <= i < n implies p(#[trigger] s[i]) by {
        assert(s[i] == base[i]);
        assert(p(base[i]));
    }
    if n >= base.len() {
        assert(n == base.len());
        assert(s[n as int] == '/');
        text::lemma_run_len_is(s, p, n);
        assert(s.take(n as int) =~= base);
        assert(s.skip(n as int + 1) =~= name);
        text::lemma_run_len_is(name, p, name.len());
        assert(text::fields(name, '/') =~= seq![name]);
        assert(seq![base] + seq![name] =~= seq![base].push(name));
    } else {
        assert(s[n as int] == base[n as int]);
        text::lemma_run_len_is(s, p, n);
        let rest = base.skip(n as int + 1);
        assert(s.take(n as int) =~= base.take(n as int));
        assert(s.skip(n as int + 1) =~= rest + "/"@ + name);
        lemma_fields_append(rest, name);
        assert(text::fields(s, '/') =~= text::fields(base, '/').push(name));
    }
}

} // verus!
