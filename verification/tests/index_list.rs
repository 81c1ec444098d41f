use crafting::IndexList;

#[test]
fn index_list_keeps_pushed_order() {
    let mut list = IndexList::new();
    list.push(7);
    list.push(3);
    list.push(7);
    assert_eq!(list.len(), 3);
    assert_eq!(list.get(0), 7);
    assert_eq!(list.get(1), 3);
    assert_eq!(list.to_vec(), vec![7, 3, 7]);
}

#[test]
fn index_list_from_vec_round_trips() {
    let list = IndexList::from_vec(&vec![4, 5, 6]);
    assert_eq!(list.to_vec(), vec![4, 5, 6]);
    assert_eq!(IndexList::new().to_vec(), Vec::<usize>::new());
}
