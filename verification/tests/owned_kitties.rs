use kitties::owned_kitties::{LinkedItem, OwnedKitties};

fn item(prev: Option<u32>, next: Option<u32>) -> LinkedItem {
    LinkedItem { prev, next }
}

#[test]
fn kitties_owned_kitties_can_append_values() {
    let mut owned = OwnedKitties::new();
    owned.append(&0, 1);

    assert_eq!(owned.get(&(0, None)), Some(LinkedItem { prev: Some(1), next: Some(1) }));
    assert_eq!(owned.get(&(0, Some(1))), Some(LinkedItem { prev: None, next: None }));

    owned.append(&0, 2);

    assert_eq!(owned.get(&(0, None)), Some(LinkedItem { prev: Some(2), next: Some(1) }));
    assert_eq!(owned.get(&(0, Some(1))), Some(LinkedItem { prev: None, next: Some(2) }));
    assert_eq!(owned.get(&(0, Some(2))), Some(LinkedItem { prev: Some(1), next: None }));

    owned.append(&0, 3);

    assert_eq!(owned.get(&(0, None)), Some(LinkedItem { prev: Some(3), next: Some(1) }));
    assert_eq!(owned.get(&(0, Some(1))), Some(LinkedItem { prev: None, next: Some(2) }));
    assert_eq!(owned.get(&(0, Some(2))), Some(LinkedItem { prev: Some(1), next: Some(3) }));
    assert_eq!(owned.get(&(0, Some(3))), Some(LinkedItem { prev: Some(2), next: None }));
}

#[test]
fn owned_kitties_can_remove_values() {
    let mut owned = OwnedKitties::new();
    owned.append(&0, 1);
    owned.append(&0, 2);
    owned.append(&0, 3);

    owned.remove(&0, 2);

    assert_eq!(owned.get(&(0, None)), Some(LinkedItem { prev: Some(3), next: Some(1) }));
    assert_eq!(owned.get(&(0, Some(1))), Some(LinkedItem { prev: None, next: Some(3) }));
    assert_eq!(owned.get(&(0, Some(2))), None);
    assert_eq!(owned.get(&(0, Some(3))), Some(LinkedItem { prev: Some(1), next: None }));

    owned.remove(&0, 1);

    assert_eq!(owned.get(&(0, None)), Some(LinkedItem { prev: Some(3), next: Some(3) }));
    assert_eq!(owned.get(&(0, Some(1))), None);
    assert_eq!(owned.get(&(0, Some(2))), None);
    assert_eq!(owned.get(&(0, Some(3))), Some(LinkedItem { prev: None, next: None }));

    owned.remove(&0, 3);

    assert_eq!(owned.get(&(0, None)), Some(LinkedItem { prev: None, next: None }));
    assert_eq!(owned.get(&(0, Some(1))), None);
    assert_eq!(owned.get(&(0, Some(2))), None);
    assert_eq!(owned.get(&(0, Some(2))), None);
}

#[test]
fn substratekitties_owned_kitties_can_append_values() {
    let mut owned = OwnedKitties::new();
    owned.append(&0, 1);

    assert_eq!(owned.read(&0, None), LinkedItem { prev: Some(1), next: Some(1) });
    assert_eq!(owned.read(&0, Some(1)), LinkedItem { prev: None, next: None });

    owned.append(&0, 2);

    assert_eq!(owned.read(&0, None), LinkedItem { prev: Some(2), next: Some(1) });
    assert_eq!(owned.read(&0, Some(1)), LinkedItem { prev: None, next: Some(2) });
    assert_eq!(owned.read(&0, Some(2)), LinkedItem { prev: Some(1), next: None });

    owned.append(&0, 3);

    assert_eq!(owned.read(&0, None), LinkedItem { prev: Some(3), next: Some(1) });
    assert_eq!(owned.read(&0, Some(1)), LinkedItem { prev: None, next: Some(2) });
}

#[test]
fn read_of_missing_node_is_empty() {
    let owned = OwnedKitties::new();
    assert_eq!(owned.read(&7, None), item(None, None));
    assert_eq!(owned.read(&7, Some(3)), item(None, None));
    assert_eq!(owned.get(&(7, None)), None);
}

#[test]
fn lists_of_accounts_are_independent() {
    let mut owned = OwnedKitties::new();
    owned.append(&1, 10);
    owned.append(&2, 20);
    owned.append(&1, 11);
    assert_eq!(owned.read(&1, None), item(Some(11), Some(10)));
    assert_eq!(owned.read(&2, None), item(Some(20), Some(20)));
    owned.remove(&2, 20);
    assert_eq!(owned.read(&1, None), item(Some(11), Some(10)));
    assert_eq!(owned.read(&1, Some(10)), item(None, Some(11)));
    assert_eq!(owned.read(&2, None), item(None, None));
}

#[test]
fn remove_of_absent_kitty_changes_nothing() {
    let mut owned = OwnedKitties::new();
    owned.append(&0, 1);
    owned.append(&0, 2);
    owned.remove(&0, 9);
    owned.remove(&5, 1);
    assert_eq!(owned.read(&0, None), item(Some(2), Some(1)));
    assert_eq!(owned.read(&0, Some(1)), item(None, Some(2)));
    assert_eq!(owned.read(&0, Some(2)), item(Some(1), None));
}

#[test]
fn remove_undoes_append() {
    let mut owned = OwnedKitties::new();
    owned.append(&0, 1);
    owned.append(&0, 2);
    owned.append(&0, 3);
    owned.remove(&0, 3);
    assert_eq!(owned.read(&0, None), item(Some(2), Some(1)));
    assert_eq!(owned.read(&0, Some(1)), item(None, Some(2)));
    assert_eq!(owned.read(&0, Some(2)), item(Some(1), None));
    assert_eq!(owned.get(&(0, Some(3))), None);
}

#[test]
fn remove_first_kitty_links_head_to_second() {
    let mut owned = OwnedKitties::new();
    owned.append(&0, 1);
    owned.append(&0, 2);
    owned.append(&0, 3);
    owned.remove(&0, 1);
    assert_eq!(owned.read(&0, None), item(Some(3), Some(2)));
    assert_eq!(owned.read(&0, Some(2)), item(None, Some(3)));
    assert_eq!(owned.read(&0, Some(3)), item(Some(2), None));
}
