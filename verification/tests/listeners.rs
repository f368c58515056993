use xilem_radio::listeners::{paths_equal, ChangeListeners};

#[test]
fn first_registration_appends() {
    let mut l = ChangeListeners::new();
    assert_eq!(l.register(vec![1, 2]), Some(0));
    assert_eq!(l.register(vec![1, 3]), Some(1));
    assert_eq!(l.len(), 2);
    assert_eq!(l.entries, vec![Some(vec![1, 2]), Some(vec![1, 3])]);
}

#[test]
fn registering_twice_changes_nothing() {
    let mut l = ChangeListeners::new();
    assert_eq!(l.register(vec![4, 5, 6]), Some(0));
    assert_eq!(l.register(vec![4, 5, 6]), None);
    assert_eq!(l.entries, vec![Some(vec![4, 5, 6])]);
}

#[test]
fn first_free_slot_is_reused() {
    let mut l = ChangeListeners {
        entries: vec![Some(vec![1]), None, Some(vec![2]), None],
    };
    assert_eq!(l.register(vec![3]), Some(1));
    assert_eq!(l.entries, vec![Some(vec![1]), Some(vec![3]), Some(vec![2]), None]);
    assert_eq!(l.register(vec![4]), Some(3));
    assert_eq!(l.register(vec![5]), Some(4));
}

#[test]
fn listed_path_after_a_free_slot_is_found() {
    let mut l = ChangeListeners {
        entries: vec![None, Some(vec![7, 8])],
    };
    assert_eq!(l.register(vec![7, 8]), None);
    assert_eq!(l.entries, vec![None, Some(vec![7, 8])]);
}

#[test]
fn empty_path_is_a_path() {
    let mut l = ChangeListeners::new();
    assert_eq!(l.register(vec![]), Some(0));
    assert_eq!(l.register(vec![]), None);
}

#[test]
fn paths_compare_by_ids() {
    assert!(paths_equal(&vec![1, 2, 3], &vec![1, 2, 3]));
    assert!(!paths_equal(&vec![1, 2, 3], &vec![1, 2]));
    assert!(!paths_equal(&vec![1, 2, 3], &vec![1, 2, 4]));
    assert!(paths_equal(&vec![], &vec![]));
}
