//! Whom to terminate on quit.

use std::collections::HashMap;

use logtui::upstream::{console_list, may_signal_group, pipeline_siblings, ConsoleList};

#[test]
fn a_group_shared_with_the_parent_is_left_alone() {
    assert!(may_signal_group(10, 20));
    assert!(!may_signal_group(10, 10));
    assert!(may_signal_group(10, -1));
}

#[test]
fn console_lists() {
    assert_eq!(console_list(0, 64), ConsoleList::Failed);
    assert_eq!(console_list(1, 64), ConsoleList::Complete);
    assert_eq!(console_list(64, 64), ConsoleList::Complete);
    assert_eq!(console_list(65, 64), ConsoleList::TooShort);
}

#[test]
fn siblings_share_console_and_parent() {
    let shell = 100;
    let me = 200;
    let parent_of: HashMap<u32, u32> = HashMap::from([
        (me, shell),
        (201, shell), // the producer
        (202, shell), // another part of the pipeline
        (300, 201),   // a child of the producer
        (shell, 1),
        (400, 1),
    ]);
    let pids = vec![me, 400, 202, shell, 201, 300, 999];
    assert_eq!(pipeline_siblings(&pids, &parent_of, me), vec![202, 201]);
    // not on this console: left alone
    assert_eq!(pipeline_siblings(&vec![me, shell], &parent_of, me), Vec::<u32>::new());
    // the own parent is not known: nothing is terminated
    assert_eq!(pipeline_siblings(&pids, &parent_of, 999), Vec::<u32>::new());
}

#[test]
fn a_shell_that_is_its_own_parent_is_spared() {
    let parent_of: HashMap<u32, u32> = HashMap::from([(5, 7), (7, 7), (9, 7)]);
    assert_eq!(pipeline_siblings(&vec![5, 7, 9], &parent_of, 5), vec![9]);
}
