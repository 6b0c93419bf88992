//! Named values that accompany a measurement, kept in the order of their names.

use vstd::prelude::*;
use crate::text;

verus! {

/// The views of a list of pairs of strings.
pub open spec fn pairs(list: Seq<(String, String)>) -> Seq<(Seq<char>, Seq<char>)> {
    list.map_values(|p: (String, String)| (p.0@, p.1@))
}

/// The names rise strictly, so none occurs twice.
pub open spec fn ascending(list: Seq<(Seq<char>, Seq<char>)>) -> bool {
    forall|i: int, j: int|
        0 <= i < j < list.len() ==> text::before((#[trigger] list[i]).0, (#[trigger] list[j]).0)
}

pub open spec fn named(list: Seq<(Seq<char>, Seq<char>)>, key: Seq<char>) -> bool {
    exists|i: int| 0 <= i < list.len() && (#[trigger] list[i]).0 == key
}

/// The value under the name.
pub open spec fn value_of(list: Seq<(Seq<char>, Seq<char>)>, key: Seq<char>) -> Option<Seq<char>> {
    if named(list, key) {
        Some(list[choose|i: int| 0 <= i < list.len() && (#[trigger] list[i]).0 == key].1)
    } else {
        None
    }
}

pub proof fn lemma_value_at(list: Seq<(Seq<char>, Seq<char>)>, i: int)
    requires
        ascending(list),
        0 <= i < list.len(),
    ensures
        value_of(list, list[i].0) == Some(list[i].1),
{
    let key = list[i].0;
    assert(named(list, key));
    let k = choose|k: int| 0 <= k < list.len() && (#[trigger] list[k]).0 == key;
    text::lemma_before_irreflexive(key);
    if k < i {
        assert(text::before(list[k].0, list[i].0));
    } else if i < k {
        assert(text::before(list[i].0, list[k].0));
    }
}

/// Named values. Each name occurs once and the names rise.
#[derive(Debug)]
pub struct TextMap {
    entries: Vec<(String, String)>,
}

impl View for TextMap {
    type V = Seq<(Seq<char>, Seq<char>)>;

    closed spec fn view(&self) -> Seq<(Seq<char>, Seq<char>)> {
        pairs(self.entries@)
    }
}

impl TextMap {
    #[verifier::type_invariant]
    spec fn inv(self) -> bool {
        ascending(pairs(self.entries@))
    }

    pub fn new() -> (r: TextMap)
        ensures
            r@.len() == 0,
    {
        TextMap { entries: Vec::new() }
    }

    pub fn len(&self) -> (r: usize)
        ensures
            r == self@.len(),
            ascending(self@),
    {
        proof {
            use_type_invariant(self);
        }
        self.entries.len()
    }

    pub fn key(&self, i: usize) -> (r: &str)
        requires
            i < self@.len(),
        ensures
            r@ == self@[i as int].0,
    {
        self.entries[i].0.as_str()
    }

    pub fn value(&self, i: usize) -> (r: &str)
        requires
            i < self@.len(),
        ensures
            r@ == self@[i as int].1,
    {
        self.entries[i].1.as_str()
    }

    /// The value under the name.
    pub fn get(&self, key: &str) -> (r: Option<String>)
        ensures
            text::opt_text(r) == value_of(self@, key@),
    {
        proof {
            use_type_invariant(self);
        }
        let mut i: usize = 0;
        while i < self.entries.len()
            invariant
                i <= self.entries@.len(),
                self@ == pairs(self.entries@),
                ascending(self@),
                forall|k: int| 0 <= k < i ==> (#[trigger] self@[k]).0 != key@,
            decreases self.entries@.len() - i,
        {
            if text::same(self.entries[i].0.as_str(), key) {
                proof {
                    assert(self@[i as int].0 == key@);
                    lemma_value_at(self@, i as int);
                }
                return Some(self.entries[i].1.clone());
            }
            i = i + 1;
        }
        None
    }

    /// Adds a value whose name comes after all names so far.
    pub fn append(&mut self, key: &str, value: &str)
        requires
            old(self)@.len() > 0 ==> text::before(old(self)@.last().0, key@),
        ensures
            final(self)@ == old(self)@.push((key@, value@)),
    {
        let mut entries: Vec<(String, String)> = self.copied_entries(self.entries.len());
        proof {
            use_type_invariant(&*self);
        }
        let ghost before = pairs(entries@);
        assert(before =~= self@);
        entries.push((key.to_owned(), value.to_owned()));
        assert(pairs(entries@) =~= before.push((key@, value@)));
        proof {
            let now = pairs(entries@);
            assert forall|i: int, j: int| 0 <= i < j < now.len() implies text::before(
                (#[trigger] now[i]).0,
                (#[trigger] now[j]).0,
            ) by {
                if j < before.len() {
                    assert(text::before(before[i].0, before[j].0));
                } else if i < before.len() - 1 {
                    text::lemma_before_transitive(before[i].0, before.last().0, key@);
                }
            }
        }
        self.entries = entries;
    }

    fn copied_entries(&self, count: usize) -> (r: Vec<(String, String)>)
        requires
            count <= self.entries@.len(),
        ensures
            pairs(r@) == pairs(self.entries@).take(count as int),
    {
        let mut out: Vec<(String, String)> = Vec::new();
        let mut i: usize = 0;
        while i < count
            invariant
                i <= count <= self.entries@.len(),
                pairs(out@) =~= pairs(self.entries@).take(i as int),
            decreases count - i,
        {
            let ghost before = pairs(out@);
            out.push((self.entries[i].0.clone(), self.entries[i].1.clone()));
            assert(pairs(out@) =~= before.push(pairs(self.entries@)[i as int]));
            i = i + 1;
        }
        out
    }

    /// A copy.
    pub fn copied(&self) -> (r: TextMap)
        ensures
            r@ == self@,
    {
        proof {
            use_type_invariant(self);
        }
        let entries: Vec<(String, String)> = self.copied_entries(self.entries.len());
        assert(pairs(entries@) =~= pairs(self.entries@));
        TextMap { entries }
    }

    /// Sets the value under the name, in place of an earlier one.
    pub fn insert(&mut self, key: &str, value: &str)
        ensures
            ascending(final(self)@),
            forall|k: Seq<char>| #[trigger]
                value_of(final(self)@, k) == if k == key@ {
                    Some(value@)
                } else {
                    value_of(old(self)@, k)
                },
    {
        let total: usize = self.len();
        let ghost all = self@;
        let mut out: TextMap = TextMap::new();
        let mut i: usize = 0;
        while i < total && text::is_before(self.key(i), key)
            invariant
                i <= total,
                total == all.len(),
                self@ == all,
                ascending(all),
                out@ == all.take(i as int),
                i > 0 ==> text::before(all[i - 1].0, key@),
            decreases total - i,
        {
            proof {
                if i > 0 {
                    assert(text::before(all[i - 1].0, all[i as int].0));
                }
            }
            out.append(self.key(i), self.value(i));
            i = i + 1;
            assert(all.take(i as int) =~= all.take(i - 1).push(all[i - 1]));
        }
        let ghost at = i as int;
        out.append(key, value);
        proof {
            if at < total {
                text::lemma_before_total(all[at].0, key@);
            }
        }
        if i < total && text::same(self.key(i), key) {
            i = i + 1;
        }
        let ghost resumed = i as int;
        let ghost front = all.take(at).push((key@, value@));
        proof {
            if resumed < total {
                if resumed > at {
                    assert(text::before(all[at].0, all[resumed].0));
                }
                assert(text::before(key@, all[resumed].0));
            }
        }
        while i < total
            invariant
                0 <= at <= resumed <= i <= total,
                resumed <= at + 1,
                total == all.len(),
                self@ == all,
                ascending(all),
                front == all.take(at).push((key@, value@)),
                out@ =~= front + all.subrange(resumed, i as int),
                resumed < total ==> text::before(key@, all[resumed].0),
                resumed > at ==> all[at].0 == key@,
            decreases total - i,
        {
            proof {
                if i > resumed {
                    assert(text::before(all[i - 1].0, all[i as int].0));
                    assert(out@.last() == all[i - 1]);
                } else {
                    assert(out@.last() == (key@, value@));
                }
            }
            out.append(self.key(i), self.value(i));
            i = i + 1;
            assert(all.subrange(resumed, i as int) =~= all.subrange(resumed, i - 1).push(
                all[i - 1],
            ));
        }
        let _rising: usize = out.len();
        proof {
            lemma_replaced(all, out@, at, resumed, key@, value@);
        }
        *self = out;
    }
}

proof fn lemma_replaced(
    all: Seq<(Seq<char>, Seq<char>)>,
    now: Seq<(Seq<char>, Seq<char>)>,
    at: int,
    resumed: int,
    key: Seq<char>,
    value: Seq<char>,
)
    requires
        ascending(all),
        ascending(now),
        0 <= at <= resumed <= all.len(),
        resumed <= at + 1,
        resumed > at ==> all[at].0 == key,
        now == all.take(at).push((key, value)) + all.subrange(resumed, all.len() as int),
    ensures
        forall|k: Seq<char>| #[trigger]
            value_of(now, k) == if k == key {
                Some(value)
            } else {
                value_of(all, k)
            },
{
    assert forall|k: Seq<char>| #[trigger]
        value_of(now, k) == if k == key {
            Some(value)
        } else {
            value_of(all, k)
        } by {
        if k == key {
            assert(now[at] == (key, value));
            lemma_value_at(now, at);
        } else {
            if named(all, k) {
                let i = choose|i: int| 0 <= i < all.len() && (#[trigger] all[i]).0 == k;
                let j = if i < at {
                    i
                } else {
                    i - resumed + at + 1
                };
                assert(now[j] == all[i]);
                lemma_value_at(all, i);
                lemma_value_at(now, j);
            }
            if named(now, k) {
                let j = choose|j: int| 0 <= j < now.len() && (#[trigger] now[j]).0 == k;
                assert(j != at);
                let i = if j < at {
                    j
                } else {
                    j - at - 1 + resumed
                };
                assert(all[i] == now[j]);
            }
        }
    }
}

} // verus!
