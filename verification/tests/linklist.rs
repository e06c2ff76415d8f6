use kitties::linklist::List;

#[test]
fn new_list_is_empty() {
    let l = List::new();
    assert_eq!(l.len(), 0);
}

#[test]
fn prepend_adds_one() {
    let l = List::new().prepend(((1, 0), 5)).prepend(((1, 1), 6));
    assert_eq!(l.len(), 2);
}

#[test]
fn remove_deletes_first_match_only() {
    let l = List::new().prepend(((1, 0), 5)).prepend(((2, 0), 7)).prepend(((1, 0), 5));
    let l = l.remove(((1, 0), 5));
    assert_eq!(l.len(), 2);
    let l = l.remove(((9, 9), 9));
    assert_eq!(l.len(), 2);
    let l = l.remove(((1, 0), 5));
    assert_eq!(l.len(), 1);
    let l = l.remove(((2, 0), 7));
    assert_eq!(l.len(), 0);
}

#[test]
fn remove_undoes_prepend() {
    let l = List::new().prepend(((3, 1), 4)).prepend(((3, 2), 5));
    let l = l.prepend(((7, 7), 7)).remove(((7, 7), 7));
    assert_eq!(l.len(), 2);
    let l = l.remove(((3, 2), 5));
    assert_eq!(l.len(), 1);
}
