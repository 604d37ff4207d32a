use patronus::parray::PArray;

#[test]
fn array_from_vector_is_fresh() {
    let array = PArray::from(vec![10u32, 20, 30]);
    assert_eq!(array.len(), 3);
    assert_eq!(array.consumed_len(), 0);
    assert!(!array.is_released());
    assert!(!array.is_exhausted());
    assert!(array.context() >= 3);
    assert_eq!(*array.get(1), 20);
}

#[test]
fn array_keeps_the_context_it_was_given() {
    let array = PArray::with_context(vec![1u8, 2], 0xdead_beef);
    assert_eq!(array.context(), 0xdead_beef);
    assert_eq!(array.len(), 2);
    assert_eq!(array.consumed_len(), 0);
    assert!(!array.is_released());
}

#[test]
fn array_is_read_in_order_and_then_released() {
    let mut array = PArray::from(vec!['a', 'b', 'c']);
    let mut read = Vec::new();
    while !array.is_exhausted() {
        read.push(*array.next());
    }
    assert_eq!(read, vec!['a', 'b', 'c']);
    assert_eq!(array.consumed_len(), 3);
    assert!(!array.is_released());
    array.release();
    assert!(array.is_released());
    assert_eq!(array.consumed_len(), 3);
    assert_eq!(array.len(), 3);
}

#[test]
fn elements_can_be_changed_in_place_while_reading() {
    let mut array = PArray::from(vec![1u32, 2, 3]);
    *array.next_mut() += 10;
    assert_eq!(array.consumed_len(), 1);
    *array.get_mut(2) = 7;
    assert_eq!(array.consumed_len(), 1);
    assert_eq!(*array.get(0), 11);
    assert_eq!(*array.get(1), 2);
    assert_eq!(*array.get(2), 7);
}

#[test]
fn empty_array_is_exhausted_at_once() {
    let mut array: PArray<u8> = PArray::from(Vec::new());
    assert_eq!(array.len(), 0);
    assert!(array.is_exhausted());
    array.release();
    assert!(array.is_released());
}

#[test]
fn rest_of_an_array_can_be_passed_over() {
    let mut array = PArray::from(vec![1u8, 2, 3, 4]);
    array.next();
    array.skip_to_end();
    assert!(array.is_exhausted());
    assert_eq!(array.consumed_len(), 4);
    array.release();
    assert!(array.is_released());
}
