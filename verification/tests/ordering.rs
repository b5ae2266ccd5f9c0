use arch_live::order::stable_desc_order;

#[test]
fn descending_order_keeps_ties_in_place() {
    assert_eq!(stable_desc_order(&vec![1, 3, 1, 7, 3]), vec![3, 1, 4, 0, 2]);
    assert_eq!(stable_desc_order(&vec![]), Vec::<usize>::new());
    assert_eq!(stable_desc_order(&vec![5, 5, 5]), vec![0, 1, 2]);
}
