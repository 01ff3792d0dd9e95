use sshh::stateful_list::StatefulList;

#[test]
fn select_previous_wraps_from_first_to_last() {
    let mut list: StatefulList<u32> = StatefulList::new();
    list.set_data(vec![10, 20, 30]);
    list.select_first();
    assert_eq!(list.selected_index(), Some(0));
    list.select_previous();
    assert_eq!(list.selected_index(), Some(2));
    assert_eq!(list.current(), Some(&30));
}

#[test]
fn select_next_wraps_from_last_to_first() {
    let mut list: StatefulList<u32> = StatefulList::new();
    list.set_data(vec![10, 20, 30]);
    list.select_first();
    list.select_previous();
    assert_eq!(list.selected_index(), Some(2));
    list.select_next();
    assert_eq!(list.selected_index(), Some(0));
    assert_eq!(list.current(), Some(&10));
}

#[test]
fn navigation_is_a_no_op_on_an_empty_list() {
    let mut list: StatefulList<u32> = StatefulList::new();
    list.select_next();
    assert_eq!(list.selected_index(), None);
    list.select_previous();
    assert_eq!(list.selected_index(), None);
    assert_eq!(list.current(), None);
}

#[test]
fn select_first_on_empty_list_gives_no_current_item() {
    let mut list: StatefulList<u32> = StatefulList::new();
    list.select_first();
    assert_eq!(list.selected_index(), Some(0));
    assert_eq!(list.current(), None);
}

#[test]
fn navigation_from_unset_cursor_lands_on_first() {
    let mut list: StatefulList<u32> = StatefulList::new();
    list.set_data(vec![1, 2]);
    assert_eq!(list.selected_index(), None);
    list.select_next();
    assert_eq!(list.selected_index(), Some(0));
    list.set_data(vec![1, 2]);
    list.select_previous();
    assert_eq!(list.selected_index(), Some(0));
}

#[test]
fn set_data_clears_the_cursor() {
    let mut list: StatefulList<u32> = StatefulList::new();
    list.set_data(vec![1, 2, 3]);
    list.select_first();
    list.set_data(vec![4]);
    assert_eq!(list.selected_index(), None);
    assert_eq!(list.current(), None);
    assert_eq!(list.len(), 1);
    assert_eq!(list.get(0), Some(&4));
    assert_eq!(list.get(1), None);
}
