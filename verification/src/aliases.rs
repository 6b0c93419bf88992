//! Names for contenders that say nothing of the operator: the adapter, and a number where there
//! are several of it.

use vstd::prelude::*;
use vstd::relations::*;
use crate::decimal;
use crate::textmap;
use crate::model::{ContenderResult, ContenderResultModel};
use crate::text;

verus! {

pub const UNSUPPORTED_ADAPTER: &'static str = "unsupported report adapter";

pub const DUPLICATE_IDENTITY: &'static str = "duplicate contender identity";

pub open spec fn supported(adapter: Seq<char>) -> bool {
    adapter == "uniterm"@ || adapter == "herdr"@ || adapter == "tmux"@
}

pub fn is_supported(adapter: &str) -> (r: bool)
    ensures
        r == supported(adapter@),
{
    text::same(adapter, "uniterm") || text::same(adapter, "herdr") || text::same(adapter, "tmux")
}

/// The alias of the contender that comes `number`th of its adapter.
pub open spec fn alias(adapter: Seq<char>, number: nat) -> Seq<char> {
    if number == 1 {
        adapter
    } else {
        adapter + "-"@ + decimal::decimal(number)
    }
}

/// The number that an alias holds; one that is no alias comes after all that are.
pub open spec fn rank(id: Seq<char>, adapter: Seq<char>) -> nat {
    let number = match text::after_prefix(id, adapter) {
        Some(rest) => match text::after_prefix(rest, "-"@) {
            Some(digits) => decimal::numeral_within(digits, usize::MAX as nat),
            None => None,
        },
        None => None,
    };
    if id == adapter {
        1
    } else {
        match number {
            Some(n) => if n >= 2 {
                n
            } else {
                usize::MAX as nat
            },
            None => usize::MAX as nat,
        }
    }
}

/// The identifier and the adapter of each contender.
pub open spec fn identities(contenders: Seq<ContenderResultModel>) -> Seq<(Seq<char>, Seq<char>)> {
    contenders.map_values(|c: ContenderResultModel| (c.id, c.adapter))
}

/// By adapter, then by the number of an alias, then by identifier.
pub open spec fn precedes(a: (Seq<char>, Seq<char>), b: (Seq<char>, Seq<char>)) -> bool {
    if a.1 != b.1 {
        text::before(a.1, b.1)
    } else if rank(a.0, a.1) != rank(b.0, b.1) {
        rank(a.0, a.1) < rank(b.0, b.1)
    } else {
        text::before(a.0, b.0)
    }
}

pub open spec fn in_order() -> spec_fn((Seq<char>, Seq<char>), (Seq<char>, Seq<char>)) -> bool {
    |a: (Seq<char>, Seq<char>), b: (Seq<char>, Seq<char>)| a == b || precedes(a, b)
}

/// The identities in the order in which aliases are given out.
pub open spec fn lineup(contenders: Seq<ContenderResultModel>) -> Seq<(Seq<char>, Seq<char>)> {
    identities(contenders).sort_by(in_order())
}

/// How many of the first `upto` have the adapter.
pub open spec fn seen(list: Seq<(Seq<char>, Seq<char>)>, adapter: Seq<char>, upto: int) -> nat
    decreases upto,
{
    if upto <= 0 {
        0
    } else {
        seen(list, adapter, upto - 1) + if list[upto - 1].1 == adapter {
            1nat
        } else {
            0nat
        }
    }
}

/// What is wrong with the one at `i`, those before it given.
pub open spec fn fault_at(list: Seq<(Seq<char>, Seq<char>)>, i: int) -> Option<Seq<char>> {
    if !supported(list[i].1) {
        Some(UNSUPPORTED_ADAPTER@)
    } else if exists|j: int| 0 <= j < i && (#[trigger] list[j]).0 == list[i].0 {
        Some(DUPLICATE_IDENTITY@)
    } else {
        None
    }
}

/// The first fault among the first `upto`.
pub open spec fn fault(list: Seq<(Seq<char>, Seq<char>)>, upto: int) -> Option<Seq<char>>
    decreases upto,
{
    if upto <= 0 {
        None
    } else {
        match fault(list, upto - 1) {
            Some(e) => Some(e),
            None => fault_at(list, upto - 1),
        }
    }
}

/// Each identifier with its alias.
pub open spec fn assigned(list: Seq<(Seq<char>, Seq<char>)>) -> Seq<(Seq<char>, Seq<char>)> {
    Seq::new(
        list.len(),
        |i: int| (list[i].0, alias(list[i].1, seen(list, list[i].1, i + 1))),
    )
}

/// The alias of the identifier.
pub open spec fn alias_of(
    assigned: Seq<(Seq<char>, Seq<char>)>,
    id: Seq<char>,
) -> Option<Seq<char>>
    decreases assigned.len(),
{
    if assigned.len() == 0 {
        None
    } else if assigned[0].0 == id {
        Some(assigned[0].1)
    } else {
        alias_of(assigned.skip(1), id)
    }
}

/// The aliases of those that have one, in the same order.
pub open spec fn aliases_of(
    assigned: Seq<(Seq<char>, Seq<char>)>,
    ids: Seq<Seq<char>>,
) -> Seq<Seq<char>>
    decreases ids.len(),
{
    if ids.len() == 0 {
        Seq::empty()
    } else {
        let front = aliases_of(assigned, ids.drop_last());
        match alias_of(assigned, ids.last()) {
            Some(a) => front.push(a),
            None => front,
        }
    }
}

// ---------------------------------------------------------------------------------------------
// Giving out aliases
// ---------------------------------------------------------------------------------------------

fn rank_of(id: &str, adapter: &str) -> (r: usize)
    ensures
        r as nat == rank(id@, adapter@),
{
    if text::same(id, adapter) {
        return 1;
    }
    match text::strip_prefix(id, adapter) {
        Some(rest) => match text::strip_prefix(rest.as_str(), "-") {
            Some(digits) => match decimal::parse_usize(digits.as_str()) {
                Some(n) => if n >= 2 {
                    n
                } else {
                    usize::MAX
                },
                None => usize::MAX,
            },
            None => usize::MAX,
        },
        None => usize::MAX,
    }
}

fn comes_before(a: &(String, String), b: &(String, String)) -> (r: bool)
    ensures
        r == precedes((a.0@, a.1@), (b.0@, b.1@)),
{
    if !text::same(a.1.as_str(), b.1.as_str()) {
        return text::is_before(a.1.as_str(), b.1.as_str());
    }
    let ra: usize = rank_of(a.0.as_str(), a.1.as_str());
    let rb: usize = rank_of(b.0.as_str(), b.1.as_str());
    if ra != rb {
        ra < rb
    } else {
        text::is_before(a.0.as_str(), b.0.as_str())
    }
}

proof fn lemma_precedes_transitive(
    a: (Seq<char>, Seq<char>),
    b: (Seq<char>, Seq<char>),
    c: (Seq<char>, Seq<char>),
)
    requires
        precedes(a, b),
        precedes(b, c),
    ensures
        precedes(a, c),
{
    if a.1 != b.1 && b.1 != c.1 {
        text::lemma_before_transitive(a.1, b.1, c.1);
        text::lemma_before_irreflexive(a.1);
        if a.1 == c.1 {
            text::lemma_before_transitive(a.1, b.1, a.1);
        }
    } else if a.1 == b.1 && b.1 == c.1 && rank(a.0, a.1) == rank(b.0, b.1) && rank(b.0, b.1)
        == rank(c.0, c.1) {
        text::lemma_before_transitive(a.0, b.0, c.0);
    }
}

proof fn lemma_precedes_irreflexive(a: (Seq<char>, Seq<char>))
    ensures
        !precedes(a, a),
{
    text::lemma_before_irreflexive(a.0);
}

proof fn lemma_precedes_total(a: (Seq<char>, Seq<char>), b: (Seq<char>, Seq<char>))
    ensures
        precedes(a, b) || precedes(b, a) || a == b,
{
    text::lemma_before_total(a.1, b.1);
    text::lemma_before_total(a.0, b.0);
}

proof fn lemma_in_order_is_total()
    ensures
        total_ordering(in_order()),
{
    let leq = in_order();
    assert(reflexive(leq));
    assert forall|x: (Seq<char>, Seq<char>), y: (Seq<char>, Seq<char>)| #[trigger]
        leq(x, y) && #[trigger] leq(y, x) implies x == y by {
        if x != y {
            lemma_precedes_transitive(x, y, x);
            lemma_precedes_irreflexive(x);
        }
    }
    assert(antisymmetric(leq));
    assert forall|
        x: (Seq<char>, Seq<char>),
        y: (Seq<char>, Seq<char>),
        z: (Seq<char>, Seq<char>),
    | #[trigger] leq(x, y) && #[trigger] leq(y, z) implies leq(x, z) by {
        if x != y && y != z {
            lemma_precedes_transitive(x, y, z);
        }
    }
    assert(transitive(leq));
    assert forall|x: (Seq<char>, Seq<char>), y: (Seq<char>, Seq<char>)| #[trigger]
        leq(x, y) || #[trigger] leq(y, x) by {
        lemma_precedes_total(x, y);
    }
    assert(strongly_connected(leq));
}

/// The index at which the identity keeps the list in order.
fn place_for(list: &Vec<(String, String)>, item: &(String, String)) -> (r: usize)
    requires
        sorted_by(textmap::pairs(list@), in_order()),
    ensures
        r <= list@.len(),
        forall|i: int|
            0 <= i < r ==> in_order()(#[trigger] textmap::pairs(list@)[i], (item.0@, item.1@)),
        forall|i: int|
            r <= i < list@.len() ==> in_order()(
                (item.0@, item.1@),
                #[trigger] textmap::pairs(list@)[i],
            ),
{
    let ghost view = textmap::pairs(list@);
    let ghost new = (item.0@, item.1@);
    let ghost leq = in_order();
    let mut i: usize = list.len();
    while i > 0 && comes_before(item, &list[i - 1])
        invariant
            i <= list@.len(),
            view == textmap::pairs(list@),
            new == (item.0@, item.1@),
            leq == in_order(),
            forall|k: int| i <= k < list@.len() ==> leq(new, #[trigger] view[k]),
        decreases i,
    {
        assert(view[i - 1] == (list@[i - 1].0@, list@[i - 1].1@));
        i = i - 1;
    }
    proof {
        lemma_in_order_is_total();
        assert forall|k: int| 0 <= k < i implies leq(#[trigger] view[k], new) by {
            assert(view[i - 1] == (list@[i - 1].0@, list@[i - 1].1@));
            lemma_precedes_total(view[i - 1], new);
            assert(leq(view[i - 1], new));
            if k < i - 1 {
                assert(leq(view[k], view[i - 1]));
            }
        }
    }
    i
}

/// The identities in the order in which aliases are given out.
fn lined_up(contenders: &Vec<ContenderResult>) -> (r: Vec<(String, String)>)
    ensures
        textmap::pairs(r@) == lineup(crate::model::contender_views(contenders@)),
{
    let ghost all = identities(crate::model::contender_views(contenders@));
    let ghost leq = in_order();
    let mut out: Vec<(String, String)> = Vec::new();
    let mut i: usize = 0;
    assert(all.take(0) =~= Seq::empty());
    assert(textmap::pairs(out@) =~= Seq::empty());
    while i < contenders.len()
        invariant
            i <= contenders@.len(),
            leq == in_order(),
            all == identities(crate::model::contender_views(contenders@)),
            sorted_by(textmap::pairs(out@), leq),
            textmap::pairs(out@).to_multiset() == all.take(i as int).to_multiset(),
        decreases contenders@.len() - i,
    {
        let item: (String, String) = (contenders[i].id.clone(), contenders[i].adapter.clone());
        let ghost new = (item.0@, item.1@);
        let ghost before = textmap::pairs(out@);
        let at: usize = place_for(&out, &item);
        out.insert(at, item);
        let ghost now = textmap::pairs(out@);
        proof {
            assert(now =~= before.insert(at as int, new));
            vstd::seq_lib::to_multiset_insert(before, at as int, new);
            assert(all[i as int] == new);
            assert(all.take(i + 1) =~= all.take(i as int).push(new));
            all.take(i as int).to_multiset_ensures();
            assert forall|a: int, b: int| 0 <= a < b < now.len() implies #[trigger] leq(
                now[a],
                now[b],
            ) by {
                let p = if a > at { a - 1 } else { a };
                let q = if b > at { b - 1 } else { b };
                if a == at {
                    assert(now[b] == before[q]);
                } else if b == at {
                    assert(now[a] == before[p]);
                } else {
                    assert(leq(before[p], before[q]));
                }
            }
        }
        i = i + 1;
    }
    proof {
        assert(all.take(i as int) =~= all);
        lemma_in_order_is_total();
        all.lemma_sort_by_ensures(leq);
        vstd::seq_lib::lemma_sorted_unique(textmap::pairs(out@), all.sort_by(leq), leq);
    }
    out
}

/// How many of the first `upto` have the adapter.
fn count_of(list: &Vec<(String, String)>, adapter: &str, upto: usize) -> (r: usize)
    requires
        upto <= list@.len(),
    ensures
        r == seen(textmap::pairs(list@), adapter@, upto as int),
        r <= upto,
{
    let ghost view = textmap::pairs(list@);
    let mut count: usize = 0;
    let mut i: usize = 0;
    while i < upto
        invariant
            i <= upto <= list@.len(),
            view == textmap::pairs(list@),
            count == seen(view, adapter@, i as int),
            count <= i,
        decreases upto - i,
    {
        assert(view[i as int].1 == list@[i as int].1@);
        if text::same(list[i].1.as_str(), adapter) {
            count = count + 1;
        }
        i = i + 1;
    }
    count
}

fn repeated(list: &Vec<(String, String)>, at: usize) -> (r: bool)
    requires
        at < list@.len(),
    ensures
        r == exists|j: int|
            0 <= j < at && (#[trigger] textmap::pairs(list@)[j]).0 == textmap::pairs(list@)[at as
            int].0,
{
    let ghost view = textmap::pairs(list@);
    let mut j: usize = 0;
    while j < at
        invariant
            j <= at < list@.len(),
            view == textmap::pairs(list@),
            forall|k: int| 0 <= k < j ==> (#[trigger] view[k]).0 != view[at as int].0,
        decreases at - j,
    {
        assert(view[j as int].0 == list@[j as int].0@);
        assert(view[at as int].0 == list@[at as int].0@);
        if text::same(list[j].0.as_str(), list[at].0.as_str()) {
            return true;
        }
        j = j + 1;
    }
    false
}

proof fn lemma_fault_stays(list: Seq<(Seq<char>, Seq<char>)>, i: int, upto: int)
    requires
        0 <= i <= upto,
        fault(list, i) is Some,
    ensures
        fault(list, upto) == fault(list, i),
    decreases upto,
{
    if i < upto {
        lemma_fault_stays(list, i, upto - 1);
    }
}

/// Gives each contender its alias. The first fault in the order of the lineup is reported.
pub fn assign(contenders: &Vec<ContenderResult>) -> (r: Result<Vec<(String, String)>, String>)
    ensures
        ({
            let list = lineup(crate::model::contender_views(contenders@));
            match r {
                Ok(done) => fault(list, list.len() as int) is None && textmap::pairs(done@)
                    == assigned(list),
                Err(e) => fault(list, list.len() as int) == Some(e@),
            }
        }),
{
    let list: Vec<(String, String)> = lined_up(contenders);
    let ghost view = textmap::pairs(list@);
    let mut out: Vec<(String, String)> = Vec::new();
    let mut i: usize = 0;
    while i < list.len()
        invariant
            i <= list@.len(),
            view == textmap::pairs(list@),
            view == lineup(crate::model::contender_views(contenders@)),
            fault(view, i as int) is None,
            textmap::pairs(out@) =~= assigned(view).take(i as int),
        decreases list@.len() - i,
    {
        let ghost item = view[i as int];
        assert(item == (list@[i as int].0@, list@[i as int].1@));
        if !is_supported(list[i].1.as_str()) {
            proof {
                lemma_fault_stays(view, i + 1, view.len() as int);
            }
            return Err(UNSUPPORTED_ADAPTER.to_owned());
        }
        if repeated(&list, i) {
            proof {
                lemma_fault_stays(view, i + 1, view.len() as int);
            }
            return Err(DUPLICATE_IDENTITY.to_owned());
        }
        let number: usize = count_of(&list, list[i].1.as_str(), i + 1);
        let name: String = if number == 1 {
            list[i].1.clone()
        } else {
            text::cat(
                text::cat(list[i].1.clone(), "-"),
                decimal::decimal_text(number as u64).as_str(),
            )
        };
        let ghost before = textmap::pairs(out@);
        let entry: (String, String) = (list[i].0.clone(), name);
        assert((entry.0@, entry.1@) == assigned(view)[i as int]);
        out.push(entry);
        assert(textmap::pairs(out@) =~= before.push(assigned(view)[i as int]));
        i = i + 1;
    }
    assert(assigned(view).take(i as int) =~= assigned(view));
    Ok(out)
}

/// The alias of the identifier.
pub fn lookup(list: &Vec<(String, String)>, id: &str) -> (r: Option<String>)
    ensures
        text::opt_text(r) == alias_of(textmap::pairs(list@), id@),
{
    let ghost view = textmap::pairs(list@);
    let mut i: usize = 0;
    assert(view.skip(0) =~= view);
    while i < list.len()
        invariant
            i <= list@.len(),
            view == textmap::pairs(list@),
            alias_of(view, id@) == alias_of(view.skip(i as int), id@),
        decreases list@.len() - i,
    {
        assert(view[i as int] == (list@[i as int].0@, list@[i as int].1@));
        assert(view.skip(i as int)[0] == view[i as int]);
        if text::same(list[i].0.as_str(), id) {
            return Some(list[i].1.clone());
        }
        assert(view.skip(i as int).skip(1) =~= view.skip(i + 1));
        i = i + 1;
    }
    None
}

/// The aliases of those that have one, in the same order.
pub fn lookup_all(list: &Vec<(String, String)>, ids: &Vec<String>) -> (r: Vec<String>)
    ensures
        text::texts(r@) == aliases_of(textmap::pairs(list@), text::texts(ids@)),
{
    let ghost view = textmap::pairs(list@);
    let ghost all = text::texts(ids@);
    let mut out: Vec<String> = Vec::new();
    let mut i: usize = 0;
    assert(all.take(0) =~= Seq::empty());
    while i < ids.len()
        invariant
            i <= ids@.len(),
            view == textmap::pairs(list@),
            all == text::texts(ids@),
            text::texts(out@) =~= aliases_of(view, all.take(i as int)),
        decreases ids@.len() - i,
    {
        let ghost before = text::texts(out@);
        assert(all.take(i + 1).drop_last() =~= all.take(i as int));
        assert(all.take(i + 1).last() == ids@[i as int]@);
        match lookup(list, ids[i].as_str()) {
            Some(a) => {
                out.push(a);
                assert(text::texts(out@) =~= before.push(a@));
            },
            None => {},
        }
        i = i + 1;
    }
    assert(all.take(i as int) =~= all);
    out
}

// ---------------------------------------------------------------------------------------------
// Laws
// ---------------------------------------------------------------------------------------------

proof fn lemma_seen(list: Seq<(Seq<char>, Seq<char>)>, adapter: Seq<char>, i: int, j: int)
    requires
        0 <= i <= j,
    ensures
        seen(list, adapter, i) <= seen(list, adapter, j),
        seen(list, adapter, j) <= j,
    decreases j,
{
    if i < j {
        lemma_seen(list, adapter, i, j - 1);
    } else if i > 0 {
        lemma_seen(list, adapter, i - 1, j - 1);
    }
}

/// A lineup without a fault has supported adapters only, and no identifier twice.
proof fn lemma_faultless(list: Seq<(Seq<char>, Seq<char>)>, upto: int)
    requires
        upto <= list.len(),
        fault(list, upto) is None,
    ensures
        forall|i: int| 0 <= i < upto ==> supported((#[trigger] list[i]).1),
        forall|i: int, j: int|
            0 <= i < j < upto ==> (#[trigger] list[i]).0 != (#[trigger] list[j]).0,
    decreases upto,
{
    if upto > 0 {
        lemma_faultless(list, upto - 1);
        assert(fault_at(list, upto - 1) is None);
    }
}

proof fn lemma_without_fault(list: Seq<(Seq<char>, Seq<char>)>, upto: int)
    requires
        upto <= list.len(),
        forall|i: int| 0 <= i < upto ==> supported((#[trigger] list[i]).1),
        forall|i: int, j: int|
            0 <= i < j < upto ==> (#[trigger] list[i]).0 != (#[trigger] list[j]).0,
    ensures
        fault(list, upto) is None,
    decreases upto,
{
    if upto > 0 {
        lemma_without_fault(list, upto - 1);
        assert(supported(list[upto - 1].1));
    }
}

/// The number can be read back from the alias.
proof fn lemma_alias_rank(adapter: Seq<char>, number: nat)
    requires
        1 <= number <= usize::MAX,
    ensures
        rank(alias(adapter, number), adapter) == number,
{
    if number > 1 {
        let digits = decimal::decimal(number);
        let id = alias(adapter, number);
        decimal::lemma_decimal(number);
        reveal_strlit("-");
        assert(id.take(adapter.len() as int) =~= adapter);
        let rest = id.skip(adapter.len() as int);
        assert(rest =~= "-"@ + digits);
        assert(rest.take(1) =~= "-"@);
        assert(rest.skip(1) =~= digits);
        assert(id != adapter) by {
            assert(id.len() > adapter.len());
        }
    }
}

/// The adapter can be told from the alias.
proof fn lemma_alias_adapter(a: Seq<char>, m: nat, b: Seq<char>, n: nat)
    requires
        supported(a),
        supported(b),
        alias(a, m) == alias(b, n),
    ensures
        a == b,
{
    reveal_strlit("uniterm");
    reveal_strlit("herdr");
    reveal_strlit("tmux");
    assert(alias(a, m)[0] == a[0]);
    assert(alias(b, n)[0] == b[0]);
}

/// No two contenders get the same alias.
pub proof fn law_aliases_are_distinct(list: Seq<(Seq<char>, Seq<char>)>, i: int, j: int)
    requires
        list.len() <= usize::MAX,
        fault(list, list.len() as int) is None,
        0 <= i < j < list.len(),
    ensures
        assigned(list)[i].1 != assigned(list)[j].1,
{
    lemma_faultless(list, list.len() as int);
    let (a, b) = (list[i].1, list[j].1);
    let m = seen(list, a, i + 1);
    let n = seen(list, b, j + 1);
    assert(supported(a) && supported(b));
    lemma_seen(list, a, i + 1, i + 1);
    lemma_seen(list, b, j + 1, j + 1);
    if alias(a, m) == alias(b, n) {
        lemma_alias_adapter(a, m, b, n);
        lemma_seen(list, a, i + 1, j);
        lemma_alias_rank(a, m);
        lemma_alias_rank(b, n);
    }
}

proof fn lemma_alias_at(assigned: Seq<(Seq<char>, Seq<char>)>, i: int)
    requires
        0 <= i < assigned.len(),
        forall|a: int, b: int|
            0 <= a < b < assigned.len() ==> (#[trigger] assigned[a]).0 != (#[trigger]
            assigned[b]).0,
    ensures
        alias_of(assigned, assigned[i].0) == Some(assigned[i].1),
    decreases assigned.len(),
{
    if i > 0 {
        assert(assigned[0].0 != assigned[i].0);
        let rest = assigned.skip(1);
        assert forall|a: int, b: int| 0 <= a < b < rest.len() implies (#[trigger] rest[a]).0 != (
        #[trigger] rest[b]).0 by {
            assert(rest[a] == assigned[a + 1] && rest[b] == assigned[b + 1]);
        }
        lemma_alias_at(rest, i - 1);
    }
}

/// Rearranging a list rearranges what is made of its items.
proof fn lemma_rearranged<A, B>(a: Seq<A>, b: Seq<A>, f: spec_fn(A) -> B)
    requires
        a.to_multiset() == b.to_multiset(),
    ensures
        a.map_values(f).to_multiset() == b.map_values(f).to_multiset(),
    decreases a.len(),
{
    a.to_multiset_ensures();
    b.to_multiset_ensures();
    if a.len() == 0 {
        assert(a.map_values(f) =~= b.map_values(f));
    } else {
        let x = a.last();
        let rest = a.drop_last();
        assert(a[a.len() - 1] == x);
        assert(a.contains(x));
        assert(b.to_multiset().count(x) > 0);
        let i = choose|i: int| 0 <= i < b.len() && b[i] == x;
        assert(rest =~= a.remove(a.len() - 1));
        assert(rest.to_multiset() =~= b.remove(i).to_multiset());
        lemma_rearranged(rest, b.remove(i), f);
        let fa = a.map_values(f);
        let fb = b.map_values(f);
        fa.to_multiset_ensures();
        fb.to_multiset_ensures();
        assert(rest.map_values(f) =~= fa.remove(fa.len() - 1));
        assert(b.remove(i).map_values(f) =~= fb.remove(i));
        assert(fa[fa.len() - 1] == f(x) && fb[i] == f(x));
        assert(fa.contains(f(x)) && fb.contains(f(x)));
        assert(fa.to_multiset() =~= fa.remove(fa.len() - 1).to_multiset().insert(f(x)));
        assert(fb.to_multiset() =~= fb.remove(i).to_multiset().insert(f(x)));
    }
}

/// The lineup with each identifier replaced by its alias.
spec fn renamed_lineup(list: Seq<(Seq<char>, Seq<char>)>) -> Seq<(Seq<char>, Seq<char>)> {
    Seq::new(list.len(), |i: int| (assigned(list)[i].1, list[i].1))
}

/// The identity with its identifier replaced by its alias.
spec fn renaming(list: Seq<(Seq<char>, Seq<char>)>) -> spec_fn((Seq<char>, Seq<char>)) -> (
    Seq<char>,
    Seq<char>,
) {
    |p: (Seq<char>, Seq<char>)|
        (
            match alias_of(assigned(list), p.0) {
                Some(a) => a,
                None => p.0,
            },
            p.1,
        )
}

proof fn lemma_seen_same(
    a: Seq<(Seq<char>, Seq<char>)>,
    b: Seq<(Seq<char>, Seq<char>)>,
    adapter: Seq<char>,
    upto: int,
)
    requires
        upto <= a.len(),
        a.len() == b.len(),
        forall|i: int| 0 <= i < a.len() ==> (#[trigger] a[i]).1 == (#[trigger] b[i]).1,
    ensures
        seen(a, adapter, upto) == seen(b, adapter, upto),
    decreases upto,
{
    if upto > 0 {
        lemma_seen_same(a, b, adapter, upto - 1);
        assert(a[upto - 1].1 == b[upto - 1].1);
    }
}

proof fn lemma_renamed_lineup_sorted(list: Seq<(Seq<char>, Seq<char>)>)
    requires
        list.len() <= usize::MAX,
        fault(list, list.len() as int) is None,
        sorted_by(list, in_order()),
    ensures
        sorted_by(renamed_lineup(list), in_order()),
{
    let leq = in_order();
    let new = renamed_lineup(list);
    assert forall|i: int, j: int| 0 <= i < j < new.len() implies #[trigger] leq(new[i], new[j]) by {
        assert(leq(list[i], list[j]));
        let (a, b) = (list[i].1, list[j].1);
        if a == b {
            lemma_seen(list, a, i + 1, i + 1);
            lemma_seen(list, a, i + 1, j);
            lemma_seen(list, a, j + 1, j + 1);
            lemma_alias_rank(a, seen(list, a, i + 1));
            lemma_alias_rank(a, seen(list, a, j + 1));
        }
    }
}

/// Every alias of the first assignment is its own alias in the second.
pub open spec fn keeps(
    given: Seq<(Seq<char>, Seq<char>)>,
    again: Seq<(Seq<char>, Seq<char>)>,
) -> bool {
    forall|id: Seq<char>|
        (#[trigger] alias_of(given, id)) is Some ==> alias_of(again, alias_of(given, id).unwrap())
            == alias_of(given, id)
}

/// Giving out aliases to contenders that are already named by their aliases changes nothing.
pub proof fn law_aliases_stay(
    contenders: Seq<ContenderResultModel>,
    renamed: Seq<ContenderResultModel>,
)
    requires
        contenders.len() <= usize::MAX,
        fault(lineup(contenders), lineup(contenders).len() as int) is None,
        renamed.len() == contenders.len(),
        forall|k: int|
            0 <= k < contenders.len() ==> alias_of(
                assigned(lineup(contenders)),
                (#[trigger] contenders[k]).id,
            ) == Some(renamed[k].id) && renamed[k].adapter == contenders[k].adapter,
    ensures
        fault(lineup(renamed), lineup(renamed).len() as int) is None,
        keeps(assigned(lineup(contenders)), assigned(lineup(renamed))),
{
    let list = lineup(contenders);
    let ids = identities(contenders);
    let leq = in_order();
    let new = renamed_lineup(list);
    let f = renaming(list);
    lemma_in_order_is_total();
    ids.lemma_sort_by_ensures(leq);
    ids.to_multiset_ensures();
    list.to_multiset_ensures();
    lemma_faultless(list, list.len() as int);
    lemma_renamed_lineup_sorted(list);
    let given = assigned(list);
    assert(list.map_values(f) =~= new) by {
        assert forall|i: int| 0 <= i < list.len() implies f(list[i]) == #[trigger] new[i] by {
            assert forall|a: int, b: int| 0 <= a < b < given.len() implies (#[trigger] given[a]).0
                != (#[trigger] given[b]).0 by {
                assert(list[a].0 != list[b].0);
            }
            lemma_alias_at(given, i);
            assert(given[i].0 == list[i].0);
        }
    }
    assert(ids.map_values(f) =~= identities(renamed)) by {
        assert forall|k: int| 0 <= k < ids.len() implies f(ids[k]) == #[trigger] identities(
            renamed,
        )[k] by {
            assert(ids[k] == (contenders[k].id, contenders[k].adapter));
        }
    }
    lemma_rearranged(ids, list, f);
    identities(renamed).lemma_sort_by_ensures(leq);
    vstd::seq_lib::lemma_sorted_unique(lineup(renamed), new, leq);
    assert(lineup(renamed) == new);
    assert forall|i: int| 0 <= i < new.len() implies supported((#[trigger] new[i]).1) by {
        assert(supported(list[i].1));
    }
    assert forall|i: int, j: int| 0 <= i < j < new.len() implies (#[trigger] new[i]).0 != (
    #[trigger] new[j]).0 by {
        law_aliases_are_distinct(list, i, j);
    }
    lemma_without_fault(new, new.len() as int);
    let again = assigned(new);
    assert forall|id: Seq<char>| (#[trigger] alias_of(given, id)) is Some implies alias_of(
        again,
        alias_of(given, id).unwrap(),
    ) == alias_of(given, id) by {
        let a = alias_of(given, id).unwrap();
        let i = lemma_alias_source(given, id);
        lemma_seen_same(list, new, list[i].1, i + 1);
        assert(again[i] == (a, a));
        assert forall|p: int, q: int| 0 <= p < q < again.len() implies (#[trigger] again[p]).0 != (
        #[trigger] again[q]).0 by {
            assert(again[p].0 == new[p].0 && again[q].0 == new[q].0);
        }
        lemma_alias_at(again, i);
    }
}

/// An alias that was found stands in the list.
proof fn lemma_alias_source(given: Seq<(Seq<char>, Seq<char>)>, id: Seq<char>) -> (i: int)
    requires
        alias_of(given, id) is Some,
    ensures
        0 <= i < given.len(),
        given[i].0 == id,
        alias_of(given, id) == Some(given[i].1),
    decreases given.len(),
{
    if given[0].0 == id {
        0
    } else {
        let i = lemma_alias_source(given.skip(1), id);
        i + 1
    }
}

/// The alias of a contender is made of its adapter, and of a number where there are several of it.
pub proof fn lemma_alias_names_its_adapter(contenders: Seq<ContenderResultModel>, k: int)
    requires
        0 <= k < contenders.len(),
        fault(lineup(contenders), lineup(contenders).len() as int) is None,
    ensures
        ({
            let id = alias_of(assigned(lineup(contenders)), contenders[k].id).unwrap();
            let adapter = contenders[k].adapter;
            id == adapter || exists|n: nat| id == adapter + "-"@ + #[trigger] decimal::decimal(n)
        }),
{
    let ids = identities(contenders);
    let list = lineup(contenders);
    let given = assigned(list);
    lemma_in_order_is_total();
    ids.lemma_sort_by_ensures(in_order());
    ids.to_multiset_ensures();
    list.to_multiset_ensures();
    lemma_faultless(list, list.len() as int);
    assert(ids[k] == (contenders[k].id, contenders[k].adapter));
    assert(ids.contains(ids[k]));
    assert(list.to_multiset().count(ids[k]) > 0);
    let i = choose|i: int| 0 <= i < list.len() && list[i] == ids[k];
    assert forall|a: int, b: int| 0 <= a < b < given.len() implies (#[trigger] given[a]).0 != (
    #[trigger] given[b]).0 by {
        assert(list[a].0 != list[b].0);
    }
    lemma_alias_at(given, i);
    assert(given[i].0 == contenders[k].id);
    let n = seen(list, list[i].1, i + 1);
    assert(given[i].1 == alias(contenders[k].adapter, n));
    if n != 1 {
        let digits = decimal::decimal(n);
        assert(given[i].1 == contenders[k].adapter + "-"@ + digits);
    }
}

/// Two identifiers with the same alias are the same identifier.
pub proof fn lemma_alias_tells(
    contenders: Seq<ContenderResultModel>,
    x: Seq<char>,
    y: Seq<char>,
)
    requires
        contenders.len() <= usize::MAX,
        fault(lineup(contenders), lineup(contenders).len() as int) is None,
        alias_of(assigned(lineup(contenders)), x) is Some,
        alias_of(assigned(lineup(contenders)), x) == alias_of(assigned(lineup(contenders)), y),
    ensures
        x == y,
{
    let list = lineup(contenders);
    let given = assigned(list);
    lemma_in_order_is_total();
    identities(contenders).lemma_sort_by_ensures(in_order());
    identities(contenders).to_multiset_ensures();
    list.to_multiset_ensures();
    let i = lemma_alias_source(given, x);
    let j = lemma_alias_source(given, y);
    if i < j {
        law_aliases_are_distinct(list, i, j);
    } else if j < i {
        law_aliases_are_distinct(list, j, i);
    }
}

/// Where the contenders of one run have the identifiers and the adapters of the contenders of
/// another, both runs line up in the same way, and give out the same aliases.
pub proof fn lemma_lineups_agree(a: Seq<ContenderResultModel>, b: Seq<ContenderResultModel>)
    requires
        fault(lineup(a), lineup(a).len() as int) is None,
        fault(lineup(b), lineup(b).len() as int) is None,
        forall|k: int|
            0 <= k < a.len() ==> identities(b).contains(
                ((#[trigger] a[k]).id, a[k].adapter),
            ),
        forall|m: int|
            0 <= m < b.len() ==> exists|k: int|
                0 <= k < a.len() && (#[trigger] a[k]).id == (#[trigger] b[m]).id,
    ensures
        lineup(a) == lineup(b),
{
    let (left, right) = (lineup(a), lineup(b));
    let leq = in_order();
    lemma_in_order_is_total();
    identities(a).lemma_sort_by_ensures(leq);
    identities(b).lemma_sort_by_ensures(leq);
    identities(a).to_multiset_ensures();
    identities(b).to_multiset_ensures();
    left.to_multiset_ensures();
    right.to_multiset_ensures();
    lemma_faultless(left, left.len() as int);
    lemma_faultless(right, right.len() as int);
    assert forall|x: (Seq<char>, Seq<char>)| #[trigger] left.contains(x) implies right.contains(
        x,
    ) by {
        assert(identities(a).to_multiset().count(x) > 0);
        let k = choose|k: int| 0 <= k < identities(a).len() && identities(a)[k] == x;
        assert(x == (a[k].id, a[k].adapter));
        assert(identities(b).to_multiset().count(x) > 0);
    }
    assert forall|x: (Seq<char>, Seq<char>)| #[trigger] right.contains(x) implies left.contains(
        x,
    ) by {
        assert(identities(b).to_multiset().count(x) > 0);
        let m = choose|m: int| 0 <= m < identities(b).len() && identities(b)[m] == x;
        assert(x == (b[m].id, b[m].adapter));
        let k = choose|k: int| 0 <= k < a.len() && (#[trigger] a[k]).id == b[m].id;
        let y = (a[k].id, a[k].adapter);
        assert(identities(a)[k] == y);
        assert(identities(a).contains(y));
        assert(left.to_multiset().count(y) > 0);
        assert(left.contains(y));
        assert(right.contains(y));
        let i = choose|i: int| 0 <= i < right.len() && right[i] == x;
        let j = choose|j: int| 0 <= j < right.len() && right[j] == y;
        assert(i == j) by {
            if i < j {
                assert(right[i].0 != right[j].0);
            } else if j < i {
                assert(right[j].0 != right[i].0);
            }
        }
    }
    assert(left.no_duplicates());
    assert(right.no_duplicates());
    left.lemma_multiset_has_no_duplicates();
    right.lemma_multiset_has_no_duplicates();
    assert(left.to_multiset() =~= right.to_multiset()) by {
        assert forall|x: (Seq<char>, Seq<char>)| #[trigger]
            left.to_multiset().count(x) == right.to_multiset().count(x) by {
            assert(left.contains(x) == right.contains(x));
            if left.contains(x) {
                assert(left.to_multiset().contains(x));
                assert(right.to_multiset().contains(x));
            }
        }
    }
    vstd::seq_lib::lemma_sorted_unique(left, right, leq);
}

/// Every contender is in the lineup, so each has an alias, and in a lineup without a fault each has
/// a supported adapter.
pub proof fn lemma_every_contender_has_an_alias(contenders: Seq<ContenderResultModel>, k: int)
    requires
        0 <= k < contenders.len(),
    ensures
        alias_of(assigned(lineup(contenders)), contenders[k].id) is Some,
        fault(lineup(contenders), lineup(contenders).len() as int) is None ==> supported(
            contenders[k].adapter,
        ),
{
    let ids = identities(contenders);
    let list = lineup(contenders);
    lemma_in_order_is_total();
    ids.lemma_sort_by_ensures(in_order());
    ids.to_multiset_ensures();
    list.to_multiset_ensures();
    assert(ids[k] == (contenders[k].id, contenders[k].adapter));
    assert(ids.contains(ids[k]));
    assert(list.to_multiset().count(ids[k]) > 0);
    let i = choose|i: int| 0 <= i < list.len() && list[i] == ids[k];
    lemma_alias_present(assigned(list), i);
    assert(assigned(list)[i].0 == contenders[k].id);
    if !supported(contenders[k].adapter) {
        assert(fault(list, i + 1) is Some);
        lemma_fault_stays(list, i + 1, list.len() as int);
    }
}

proof fn lemma_alias_present(given: Seq<(Seq<char>, Seq<char>)>, i: int)
    requires
        0 <= i < given.len(),
    ensures
        alias_of(given, given[i].0) is Some,
    decreases given.len(),
{
    if given[0].0 != given[i].0 {
        lemma_alias_present(given.skip(1), i - 1);
    }
}

/// A list of aliases that each keep their name keeps its names.
pub proof fn lemma_aliases_kept(
    given: Seq<(Seq<char>, Seq<char>)>,
    again: Seq<(Seq<char>, Seq<char>)>,
    ids: Seq<Seq<char>>,
)
    requires
        keeps(given, again),
    ensures
        aliases_of(again, aliases_of(given, ids)) == aliases_of(given, ids),
    decreases ids.len(),
{
    if ids.len() > 0 {
        lemma_aliases_kept(given, again, ids.drop_last());
        let front = aliases_of(given, ids.drop_last());
        match alias_of(given, ids.last()) {
            Some(a) => {
                assert(alias_of(again, a) == Some(a));
                assert(front.push(a).drop_last() =~= front);
            },
            None => {},
        }
    }
}

} // verus!
