//! How files and private directories come to be: names that are used once, never an existing file
//! or directory, and nothing left behind by what fails.

use vstd::prelude::*;
use crate::decimal;
use crate::text;

verus! {

/// How many names are tried.
pub const ATTEMPTS: usize = 128;

/// What came of a step.
#[derive(Debug)]
pub enum StorageEvent {
    Done,
    /// Something of that name is there already.
    Exists,
    Failed { error: String },
}

/// What a `StorageEvent` says.
pub ghost enum StorageEventModel {
    Done,
    Exists,
    Failed { error: Seq<char> },
}

impl View for StorageEvent {
    type V = StorageEventModel;

    open spec fn view(&self) -> StorageEventModel {
        match self {
            StorageEvent::Done => StorageEventModel::Done,
            StorageEvent::Exists => StorageEventModel::Exists,
            StorageEvent::Failed { error } => StorageEventModel::Failed { error: error@ },
        }
    }
}

pub open spec fn events_of(list: Seq<StorageEvent>) -> Seq<StorageEventModel> {
    list.map_values(|e: StorageEvent| e@)
}

/// Whether the step at the index was taken and was not done.
pub open spec fn undone(events: Seq<StorageEventModel>, i: int) -> bool {
    0 <= i < events.len() && !(events[i] is Done)
}

pub open spec fn error_at(events: Seq<StorageEventModel>, i: int) -> Seq<char> {
    match events[i] {
        StorageEventModel::Failed { error } => error,
        _ => ""@,
    }
}

/// The index of the first name, from `from` on, that was not taken: at most `left` are tried.
pub open spec fn free_at(events: Seq<StorageEventModel>, from: int, left: nat) -> int
    decreases left,
{
    if left == 0 || from < 0 || from >= events.len() || !(events[from] is Exists) {
        from
    } else {
        free_at(events, from + 1, (left - 1) as nat)
    }
}

fn is_undone(events: &Vec<StorageEvent>, i: usize) -> (r: bool)
    ensures
        r == undone(events_of(events@), i as int),
{
    assert(events_of(events@).len() == events@.len());
    if i >= events.len() {
        return false;
    }
    assert(events_of(events@)[i as int] == events@[i as int]@);
    match &events[i] {
        StorageEvent::Done => false,
        _ => true,
    }
}

fn error_of(events: &Vec<StorageEvent>, i: usize) -> (r: String)
    requires
        i < events@.len(),
    ensures
        r@ == error_at(events_of(events@), i as int),
{
    assert(events_of(events@)[i as int] == events@[i as int]@);
    match &events[i] {
        StorageEvent::Failed { error } => error.clone(),
        _ => "".to_owned(),
    }
}

fn find_free(events: &Vec<StorageEvent>, from: usize) -> (r: usize)
    requires
        from <= 1,
    ensures
        r == free_at(events_of(events@), from as int, ATTEMPTS as nat),
        from <= r <= from + ATTEMPTS,
        r <= events@.len() || r == from,
{
    let ghost view = events_of(events@);
    assert(view.len() == events@.len());
    let mut tried: usize = 0;
    while tried < ATTEMPTS
        invariant
            from <= 1,
            tried <= ATTEMPTS,
            view == events_of(events@),
            view.len() == events@.len(),
            tried > 0 ==> from + tried <= events@.len(),
            free_at(view, from as int, ATTEMPTS as nat) == free_at(
                view,
                from + tried,
                (ATTEMPTS - tried) as nat,
            ),
        decreases ATTEMPTS - tried,
    {
        let i: usize = from + tried;
        if i >= events.len() {
            return i;
        }
        assert(view[i as int] == events@[i as int]@);
        match &events[i] {
            StorageEvent::Exists => {},
            _ => {
                return i;
            },
        }
        tried = tried + 1;
    }
    from + ATTEMPTS
}

// ---------------------------------------------------------------------------------------------
// Files
// ---------------------------------------------------------------------------------------------

pub const NO_TEMPORARY: &'static str = "could not create output temporary file";

pub const NOT_WRITTEN: &'static str = "could not write or replace output file";

/// A step of writing a file.
#[derive(Debug, Clone, Copy, PartialEq, Eq, Structural)]
pub enum WriteStep {
    /// Creates the directory of the file.
    Directory,
    /// Creates a temporary file beside the file, under a name that was not used yet.
    Create,
    /// Writes everything to the temporary file.
    Write,
    /// Waits until it is stored.
    Sync,
    /// Puts the temporary file in the place of the file.
    Rename,
    /// Removes the temporary file.
    Remove,
}

pub open spec fn temporary_named(pid: u32, nonce: u64) -> Seq<char> {
    ".ut-compare-"@ + decimal::decimal(pid as nat) + "-"@ + decimal::decimal(nonce as nat) + ".tmp"@
}

/// A name for a temporary file: the process and a number that is used once.
pub fn temporary_name(pid: u32, nonce: u64) -> (r: String)
    ensures
        r@ == temporary_named(pid, nonce),
{
    let head: String = text::cat(
        text::cat(".ut-compare-".to_owned(), decimal::decimal_text(pid as u64).as_str()),
        "-",
    );
    text::cat(text::cat(head, decimal::decimal_text(nonce).as_str()), ".tmp")
}

/// The index of the temporary file that was created, or of the first name that is left to try.
pub open spec fn created_at(events: Seq<StorageEventModel>) -> int {
    free_at(events, 1, ATTEMPTS as nat)
}

/// The steps: the directory, a temporary file of its own, everything into it, and only then the
/// replacement. What fails after the temporary file is there removes it.
pub open spec fn write_plan(events: Seq<StorageEventModel>) -> Option<WriteStep> {
    let n = events.len() as int;
    let at = created_at(events);
    if n == 0 {
        Some(WriteStep::Directory)
    } else if undone(events, 0) {
        None
    } else if n <= at {
        if at <= ATTEMPTS {
            Some(WriteStep::Create)
        } else {
            None
        }
    } else if at > ATTEMPTS || undone(events, at) {
        None
    } else if undone(events, at + 1) {
        if n == at + 2 {
            Some(WriteStep::Remove)
        } else {
            None
        }
    } else if undone(events, at + 2) {
        if n == at + 3 {
            Some(WriteStep::Remove)
        } else {
            None
        }
    } else if undone(events, at + 3) {
        if n == at + 4 {
            Some(WriteStep::Remove)
        } else {
            None
        }
    } else if n == at + 1 {
        Some(WriteStep::Write)
    } else if n == at + 2 {
        Some(WriteStep::Sync)
    } else if n == at + 3 {
        Some(WriteStep::Rename)
    } else {
        None
    }
}

/// Why the file was not written, where it was not.
pub open spec fn write_outcome(parent: Seq<char>, events: Seq<StorageEventModel>) -> Option<
    Seq<char>,
> {
    let at = created_at(events);
    if undone(events, 0) {
        Some("could not create "@ + parent + ": "@ + error_at(events, 0))
    } else if at > ATTEMPTS || undone(events, at) {
        Some(NO_TEMPORARY@)
    } else if undone(events, at + 1) || undone(events, at + 2) || undone(events, at + 3) {
        Some(NOT_WRITTEN@)
    } else {
        None
    }
}

/// The next step of writing a file.
pub fn write_next(events: &Vec<StorageEvent>) -> (r: Option<WriteStep>)
    ensures
        r == write_plan(events_of(events@)),
{
    let n: usize = events.len();
    assert(events_of(events@).len() == n);
    if n == 0 {
        return Some(WriteStep::Directory);
    }
    if is_undone(events, 0) {
        return None;
    }
    let at: usize = find_free(events, 1);
    if n <= at {
        if at <= ATTEMPTS {
            return Some(WriteStep::Create);
        }
        return None;
    }
    if at > ATTEMPTS || is_undone(events, at) {
        return None;
    }
    let later: usize = n - at;
    if is_undone(events, at + 1) {
        if later == 2 {
            Some(WriteStep::Remove)
        } else {
            None
        }
    } else if is_undone(events, at + 2) {
        if later == 3 {
            Some(WriteStep::Remove)
        } else {
            None
        }
    } else if is_undone(events, at + 3) {
        if later == 4 {
            Some(WriteStep::Remove)
        } else {
            None
        }
    } else if later == 1 {
        Some(WriteStep::Write)
    } else if later == 2 {
        Some(WriteStep::Sync)
    } else if later == 3 {
        Some(WriteStep::Rename)
    } else {
        None
    }
}

/// What came of writing a file, once no step is left.
pub fn written(parent: &str, events: &Vec<StorageEvent>) -> (r: Result<(), String>)
    requires
        write_plan(events_of(events@)) is None,
    ensures
        match r {
            Ok(_) => write_outcome(parent@, events_of(events@)) is None,
            Err(error) => write_outcome(parent@, events_of(events@)) == Some(error@),
        },
{
    if is_undone(events, 0) {
        let head: String = text::cat(text::cat("could not create ".to_owned(), parent), ": ");
        return Err(text::cat(head, error_of(events, 0).as_str()));
    }
    let at: usize = find_free(events, 1);
    if at > ATTEMPTS || is_undone(events, at) {
        return Err(NO_TEMPORARY.to_owned());
    }
    if is_undone(events, at + 1) || is_undone(events, at + 2) || is_undone(events, at + 3) {
        return Err(NOT_WRITTEN.to_owned());
    }
    Ok(())
}

proof fn lemma_free_of_prefix(events: Seq<StorageEventModel>, from: int, left: nat, n: int)
    requires
        0 <= from,
        0 <= n <= events.len(),
        free_at(events, from, left) <= n,
    ensures
        free_at(events.take(n), from, left) == free_at(events, from, left),
        free_at(events, from, left) >= from,
    decreases left,
{
    if left > 0 && from < events.len() && events[from] is Exists {
        lemma_free_from(events, from + 1, (left - 1) as nat);
        lemma_free_of_prefix(events, from + 1, (left - 1) as nat, n);
    }
}

proof fn lemma_free_from(events: Seq<StorageEventModel>, from: int, left: nat)
    ensures
        from <= free_at(events, from, left),
    decreases left,
{
    if left > 0 && 0 <= from < events.len() && events[from] is Exists {
        lemma_free_from(events, from + 1, (left - 1) as nat);
    }
}

/// A file that was not written leaves nothing behind: once the temporary file is there, the last
/// step of every write that fails removes it.
pub proof fn law_failed_writes_leave_nothing(parent: Seq<char>, events: Seq<StorageEventModel>)
    requires
        write_plan(events) is None,
        write_outcome(parent, events) is Some,
        1 <= created_at(events) <= ATTEMPTS,
        created_at(events) < events.len(),
        !undone(events, 0),
        !undone(events, created_at(events)),
        write_plan(events.drop_last()) is Some,
    ensures
        write_plan(events.drop_last()) == Some(WriteStep::Remove),
{
    let at = created_at(events);
    let front = events.drop_last();
    let n = front.len() as int;
    assert(front =~= events.take(n));
    if n >= at {
        lemma_free_of_prefix(events, 1, ATTEMPTS as nat, n);
    }
    assert forall|i: int| 0 <= i < n implies undone(front, i) == #[trigger] undone(events, i) by {
        assert(front[i] == events[i]);
    }
}

/// A file is replaced only by one that was created for it, written in full and stored.
pub proof fn law_files_are_replaced_only_when_complete(events: Seq<StorageEventModel>)
    requires
        write_plan(events) == Some(WriteStep::Rename),
    ensures
        ({
            let at = created_at(events);
            &&& 1 <= at <= ATTEMPTS
            &&& events.len() == at + 3
            &&& events[at] is Done
            &&& events[at + 1] is Done
            &&& events[at + 2] is Done
            &&& write_plan(events.take(at)) == Some(WriteStep::Create)
            &&& write_plan(events.take(at + 1)) == Some(WriteStep::Write)
            &&& write_plan(events.take(at + 2)) == Some(WriteStep::Sync)
        }),
{
    let at = created_at(events);
    lemma_free_from(events, 1, ATTEMPTS as nat);
    lemma_free_of_prefix(events, 1, ATTEMPTS as nat, at);
    lemma_free_of_prefix(events, 1, ATTEMPTS as nat, at + 1);
    lemma_free_of_prefix(events, 1, ATTEMPTS as nat, at + 2);
    assert(!undone(events, 0));
    assert(!undone(events, at));
    assert(!undone(events, at + 1));
    assert(!undone(events, at + 2));
    assert(events.take(at)[0] == events[0]);
    assert(events.take(at + 1)[0] == events[0]);
    assert(events.take(at + 1)[at] == events[at]);
    assert(events.take(at + 2)[0] == events[0]);
    assert(events.take(at + 2)[at] == events[at]);
    assert(events.take(at + 2)[at + 1] == events[at + 1]);
}

// ---------------------------------------------------------------------------------------------
// Private directories
// ---------------------------------------------------------------------------------------------

/// A private tree has so many directories.
pub const CHILDREN: usize = 4;

/// A step of making a private tree.
#[derive(Debug, Clone, Copy, PartialEq, Eq, Structural)]
pub enum TreeStep {
    /// Creates the tree's own directory under a name that was not used yet.
    Root,
    /// Creates the directory of that number in it.
    Child { index: usize },
    /// Removes the tree with everything in it.
    Remove,
}

/// The index of the directory that was created, or of the first name that is left to try.
pub open spec fn rooted_at(events: Seq<StorageEventModel>) -> int {
    free_at(events, 0, ATTEMPTS as nat)
}

/// The index of the first directory in the tree, from `from` on, that was not created.
pub open spec fn broken_at(events: Seq<StorageEventModel>, from: int, left: nat) -> Option<int>
    decreases left,
{
    if left == 0 || from >= events.len() {
        None
    } else if undone(events, from) {
        Some(from)
    } else {
        broken_at(events, from + 1, (left - 1) as nat)
    }
}

/// The steps: the tree's own directory, never one that is there already, and the directories in
/// it. A tree that cannot be completed is removed.
pub open spec fn tree_plan(events: Seq<StorageEventModel>) -> Option<TreeStep> {
    let n = events.len() as int;
    let at = rooted_at(events);
    if n <= at {
        if at < ATTEMPTS {
            Some(TreeStep::Root)
        } else {
            None
        }
    } else if at >= ATTEMPTS || undone(events, at) {
        None
    } else {
        match broken_at(events, at + 1, CHILDREN as nat) {
            Some(i) => if n == i + 1 {
                Some(TreeStep::Remove)
            } else {
                None
            },
            None => if n - at - 1 < CHILDREN {
                Some(TreeStep::Child { index: (n - at - 1) as usize })
            } else {
                None
            },
        }
    }
}

/// Why there is no tree, where there is none.
pub open spec fn tree_outcome(events: Seq<StorageEventModel>) -> Option<Seq<char>> {
    let at = rooted_at(events);
    if at >= ATTEMPTS {
        Some("could not create a unique private workdir"@)
    } else if undone(events, at) {
        Some("could not create private workdir: "@ + error_at(events, at))
    } else {
        match broken_at(events, at + 1, CHILDREN as nat) {
            Some(i) => Some("could not create private workdir child: "@ + error_at(events, i)),
            None => None,
        }
    }
}

fn find_broken(events: &Vec<StorageEvent>, from: usize) -> (r: Option<usize>)
    requires
        from <= ATTEMPTS,
    ensures
        match r {
            Some(i) => broken_at(events_of(events@), from as int, CHILDREN as nat) == Some(i as int)
                && i < events@.len(),
            None => broken_at(events_of(events@), from as int, CHILDREN as nat) is None,
        },
{
    let ghost view = events_of(events@);
    assert(view.len() == events@.len());
    let mut k: usize = 0;
    while k < CHILDREN
        invariant
            from <= ATTEMPTS,
            k <= CHILDREN,
            view == events_of(events@),
            view.len() == events@.len(),
            broken_at(view, from as int, CHILDREN as nat) == broken_at(
                view,
                from + k,
                (CHILDREN - k) as nat,
            ),
        decreases CHILDREN - k,
    {
        let i: usize = from + k;
        if i >= events.len() {
            return None;
        }
        if is_undone(events, i) {
            return Some(i);
        }
        k = k + 1;
    }
    None
}

/// The next step of making a private tree.
pub fn tree_next(events: &Vec<StorageEvent>) -> (r: Option<TreeStep>)
    ensures
        r == tree_plan(events_of(events@)),
{
    let n: usize = events.len();
    assert(events_of(events@).len() == n);
    let at: usize = find_free(events, 0);
    if n <= at {
        if at < ATTEMPTS {
            return Some(TreeStep::Root);
        }
        return None;
    }
    if at >= ATTEMPTS || is_undone(events, at) {
        return None;
    }
    match find_broken(events, at + 1) {
        Some(i) => if n - i == 1 {
            Some(TreeStep::Remove)
        } else {
            None
        },
        None => if n - at - 1 < CHILDREN {
            Some(TreeStep::Child { index: n - at - 1 })
        } else {
            None
        },
    }
}

/// What came of making a private tree, once no step is left.
pub fn planted(events: &Vec<StorageEvent>) -> (r: Result<(), String>)
    requires
        tree_plan(events_of(events@)) is None,
    ensures
        match r {
            Ok(_) => tree_outcome(events_of(events@)) is None,
            Err(error) => tree_outcome(events_of(events@)) == Some(error@),
        },
{
    assert(events_of(events@).len() == events@.len());
    let at: usize = find_free(events, 0);
    if at >= ATTEMPTS {
        return Err("could not create a unique private workdir".to_owned());
    }
    if is_undone(events, at) {
        return Err(
            text::cat(
                "could not create private workdir: ".to_owned(),
                error_of(events, at).as_str(),
            ),
        );
    }
    match find_broken(events, at + 1) {
        Some(i) => Err(
            text::cat(
                "could not create private workdir child: ".to_owned(),
                error_of(events, i).as_str(),
            ),
        ),
        None => Ok(()),
    }
}

proof fn lemma_broken(events: Seq<StorageEventModel>, from: int, left: nat, i: int)
    requires
        0 <= from,
        broken_at(events, from, left) is None,
        from <= i < from + left,
        i < events.len(),
    ensures
        !undone(events, i),
    decreases left,
{
    if i > from {
        lemma_broken(events, from + 1, (left - 1) as nat, i);
    }
}

/// An existing directory is never adopted: a tree that is used was created under its name, and so
/// was every directory in it.
pub proof fn law_existing_directories_are_not_adopted(events: Seq<StorageEventModel>, k: int)
    requires
        tree_plan(events) is None,
        tree_outcome(events) is None,
        0 <= k < CHILDREN,
    ensures
        rooted_at(events) < ATTEMPTS,
        rooted_at(events) + 1 + k < events.len(),
        events[rooted_at(events)] is Done,
        events[rooted_at(events) + 1 + k] is Done,
{
    let at = rooted_at(events);
    lemma_free_from(events, 0, ATTEMPTS as nat);
    assert(!undone(events, at));
    assert(events.len() - at - 1 >= CHILDREN);
    lemma_broken(events, at + 1, CHILDREN as nat, at + 1 + k);
}

/// A tree that cannot be completed is removed: that is the last step wherever a directory in it
/// could not be created.
pub proof fn law_incomplete_trees_are_removed(events: Seq<StorageEventModel>)
    requires
        tree_plan(events) is None,
        rooted_at(events) < ATTEMPTS,
        rooted_at(events) < events.len(),
        !undone(events, rooted_at(events)),
        tree_outcome(events) is Some,
        tree_plan(events.drop_last()) is Some,
    ensures
        tree_plan(events.drop_last()) == Some(TreeStep::Remove),
{
    let at = rooted_at(events);
    let front = events.drop_last();
    let n = front.len() as int;
    assert(front =~= events.take(n));
    lemma_free_from(events, 0, ATTEMPTS as nat);
    let i = broken_at(events, at + 1, CHILDREN as nat).unwrap();
    lemma_broken_in_front(events, at + 1, CHILDREN as nat);
    if n >= at {
        lemma_free_of_prefix(events, 0, ATTEMPTS as nat, n);
    }
    if n > at {
        assert(front[at] == events[at]);
        lemma_broken_of_prefix(events, at + 1, CHILDREN as nat, n);
    }
}

proof fn lemma_broken_in_front(events: Seq<StorageEventModel>, from: int, left: nat)
    ensures
        broken_at(events, from, left) matches Some(i) ==> from <= i < events.len(),
    decreases left,
{
    if left > 0 && from < events.len() && !undone(events, from) {
        lemma_broken_in_front(events, from + 1, (left - 1) as nat);
    }
}

proof fn lemma_broken_of_prefix(events: Seq<StorageEventModel>, from: int, left: nat, n: int)
    requires
        0 <= from,
        0 <= n <= events.len(),
    ensures
        broken_at(events.take(n), from, left) == match broken_at(events, from, left) {
            Some(i) => if i < n {
                Some(i)
            } else {
                None
            },
            None => None,
        },
    decreases left,
{
    if left > 0 && from < events.len() {
        lemma_broken_in_front(events, from + 1, (left - 1) as nat);
        if from < n {
            assert(events.take(n)[from] == events[from]);
        }
        lemma_broken_of_prefix(events, from + 1, (left - 1) as nat, n);
    }
}

} // verus!
