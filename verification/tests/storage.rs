use ut_compare::storage::{
    planted, temporary_name, tree_next, write_next, written, StorageEvent, TreeStep, WriteStep,
    ATTEMPTS,
};

fn failed() -> StorageEvent {
    StorageEvent::Failed {
        error: "denied".to_owned(),
    }
}

/// The steps of a write whose events are given, and what came of it.
fn write(list: Vec<StorageEvent>) -> (Vec<WriteStep>, Result<(), String>) {
    let mut asked = Vec::new();
    let mut events = Vec::new();
    let mut list = list.into_iter();
    while let Some(step) = write_next(&events) {
        asked.push(step);
        events.push(list.next().unwrap_or(StorageEvent::Done));
    }
    (asked, written("reports", &events))
}

fn tree(list: Vec<StorageEvent>) -> (Vec<TreeStep>, Result<(), String>) {
    let mut asked = Vec::new();
    let mut events = Vec::new();
    let mut list = list.into_iter();
    while let Some(step) = tree_next(&events) {
        asked.push(step);
        events.push(list.next().unwrap_or(StorageEvent::Done));
    }
    (asked, planted(&events))
}

#[test]
fn files_are_written_beside_and_put_in_place() {
    let (asked, outcome) = write(vec![]);
    assert_eq!(
        asked,
        vec![
            WriteStep::Directory,
            WriteStep::Create,
            WriteStep::Write,
            WriteStep::Sync,
            WriteStep::Rename,
        ]
    );
    assert!(outcome.is_ok());
    assert_eq!(temporary_name(12, 3), ".ut-compare-12-3.tmp");
}

#[test]
fn failed_writes_remove_the_temporary_file() {
    for broken in 2..5 {
        let mut list = Vec::new();
        for i in 0..broken + 1 {
            list.push(if i == broken { failed() } else { StorageEvent::Done });
        }
        let (asked, outcome) = write(list);
        assert_eq!(asked.len(), broken + 2);
        assert_eq!(asked.last(), Some(&WriteStep::Remove));
        assert_eq!(outcome.unwrap_err(), "could not write or replace output file");
    }
}

#[test]
fn taken_names_are_passed_over() {
    let (asked, outcome) = write(vec![
        StorageEvent::Done,
        StorageEvent::Exists,
        StorageEvent::Exists,
    ]);
    assert_eq!(asked[1..4], [WriteStep::Create; 3]);
    assert_eq!(asked.last(), Some(&WriteStep::Rename));
    assert!(outcome.is_ok());

    let mut list = vec![StorageEvent::Done];
    for _ in 0..ATTEMPTS {
        list.push(StorageEvent::Exists);
    }
    let (asked, outcome) = write(list);
    assert_eq!(asked.len(), ATTEMPTS + 1);
    assert_eq!(outcome.unwrap_err(), "could not create output temporary file");

    let (asked, outcome) = write(vec![StorageEvent::Done, failed()]);
    assert_eq!(asked.len(), 2);
    assert_eq!(outcome.unwrap_err(), "could not create output temporary file");

    let (asked, outcome) = write(vec![failed()]);
    assert_eq!(asked, vec![WriteStep::Directory]);
    assert_eq!(outcome.unwrap_err(), "could not create reports: denied");
}

#[test]
fn private_trees_are_new_and_whole() {
    let (asked, outcome) = tree(vec![StorageEvent::Exists]);
    assert_eq!(
        asked,
        vec![
            TreeStep::Root,
            TreeStep::Root,
            TreeStep::Child { index: 0 },
            TreeStep::Child { index: 1 },
            TreeStep::Child { index: 2 },
            TreeStep::Child { index: 3 },
        ]
    );
    assert!(outcome.is_ok());

    let (asked, outcome) = tree(vec![StorageEvent::Done, StorageEvent::Done, failed()]);
    assert_eq!(asked.len(), 4);
    assert_eq!(asked.last(), Some(&TreeStep::Remove));
    assert_eq!(
        outcome.unwrap_err(),
        "could not create private workdir child: denied"
    );

    let (asked, outcome) = tree(vec![failed()]);
    assert_eq!(asked.len(), 1);
    assert_eq!(
        outcome.unwrap_err(),
        "could not create private workdir: denied"
    );

    let mut list = Vec::new();
    for _ in 0..ATTEMPTS {
        list.push(StorageEvent::Exists);
    }
    let (asked, outcome) = tree(list);
    assert_eq!(asked.len(), ATTEMPTS);
    assert_eq!(
        outcome.unwrap_err(),
        "could not create a unique private workdir"
    );
}
