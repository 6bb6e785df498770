use array_helpers::utils::{extract, pull_maybe_uninit, push_maybe_uninit};

#[test]
fn widening_a_present_block_occupies_every_slot() {
    let slots = push_maybe_uninit(Some([1, 2, 3]));
    assert_eq!(slots, [Some(1), Some(2), Some(3)]);
}

#[test]
fn widening_an_absent_block_leaves_every_slot_empty() {
    let slots: [Option<String>; 4] = push_maybe_uninit(None);
    assert_eq!(slots, [None, None, None, None]);
}

#[test]
fn widening_keeps_the_order_of_non_copy_elements() {
    let slots = push_maybe_uninit(Some(["a".to_string(), "b".to_string()]));
    assert_eq!(slots, [Some("a".to_string()), Some("b".to_string())]);
}

#[test]
fn narrowing_full_slots_gives_the_block() {
    let whole = pull_maybe_uninit([Some('x'), Some('y'), Some('z')]);
    assert_eq!(whole, Some(['x', 'y', 'z']));
}

#[test]
fn narrowing_with_an_empty_slot_gives_no_block() {
    assert_eq!(pull_maybe_uninit([Some(1), None, Some(3)]), None);
    assert_eq!(pull_maybe_uninit([None, Some(2), Some(3)]), None);
    assert_eq!(pull_maybe_uninit([Some(1), Some(2), None]), None);
    assert_eq!(pull_maybe_uninit::<i32, 2>([None, None]), None);
}

#[test]
fn narrowing_no_slots_gives_the_empty_block() {
    let slots: [Option<u8>; 0] = [];
    assert_eq!(pull_maybe_uninit(slots), Some([]));
    let widened: [Option<u8>; 0] = push_maybe_uninit(None);
    assert_eq!(pull_maybe_uninit(widened), Some([]));
}

#[test]
fn widen_then_narrow_gives_the_block_back() {
    let block = [vec![1], vec![2, 2], vec![3, 3, 3]];
    let back = pull_maybe_uninit(push_maybe_uninit(Some(block.clone())));
    assert_eq!(back, Some(block));
    let absent: Option<[u8; 3]> = None;
    assert_eq!(pull_maybe_uninit(push_maybe_uninit(absent)), None);
}

#[test]
fn filling_every_slot_by_index_then_narrowing_equals_the_direct_block() {
    let direct = [100u32, 101, 102, 103, 104];
    let mut slots: [Option<u32>; 5] = push_maybe_uninit(None);
    for i in 0..5 {
        slots[i] = Some(100 + i as u32);
    }
    assert_eq!(slots, push_maybe_uninit(Some(direct)));
    assert_eq!(pull_maybe_uninit(slots), Some(direct));
}

#[test]
fn filling_all_but_one_slot_gives_no_block() {
    let mut slots: [Option<u32>; 5] = push_maybe_uninit(None);
    for i in 0..4 {
        slots[i] = Some(i as u32);
    }
    assert_eq!(pull_maybe_uninit(slots), None);
}

#[test]
fn extract_takes_the_value_and_empties_the_slot() {
    let mut slots = push_maybe_uninit(Some([10, 20, 30]));
    assert_eq!(extract(&mut slots, 1), 20);
    assert_eq!(slots, [Some(10), None, Some(30)]);
    assert_eq!(extract(&mut slots, 0), 10);
    assert_eq!(extract(&mut slots, 2), 30);
    assert_eq!(slots, [None, None, None]);
}

#[test]
fn extract_then_refill_then_extract_again() {
    let mut slots = push_maybe_uninit(Some(["p".to_string()]));
    assert_eq!(extract(&mut slots, 0), "p");
    slots[0] = Some("q".to_string());
    assert_eq!(extract(&mut slots, 0), "q");
    assert_eq!(slots, [None]);
}
