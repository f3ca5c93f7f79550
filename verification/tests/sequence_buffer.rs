use naia::sequence_buffer::SequenceBuffer;

#[test]
fn a_new_buffer_holds_nothing() {
    let buffer: SequenceBuffer<u32> = SequenceBuffer::with_capacity(64);
    assert_eq!(buffer.sequence_num(), 0);
    assert_eq!(buffer.len(), 64);
    assert_eq!(buffer.get(0), None);
    assert!(!buffer.contains(0));
    assert_eq!(buffer.get_entries_count(), 0);
    assert_eq!(buffer.ticks(false), Vec::<u16>::new());
}

#[test]
fn get_returns_what_insert_stored() {
    let mut buffer: SequenceBuffer<u32> = SequenceBuffer::with_capacity(64);
    assert!(buffer.insert(5, 50));
    assert_eq!(buffer.get(5), Some(&50));
    assert_eq!(buffer.sequence_num(), 5);
    assert_eq!(buffer.get(4), None);
    assert_eq!(buffer.get(6), None);
}

#[test]
fn insert_overwrites_the_value_of_its_tick() {
    let mut buffer: SequenceBuffer<u32> = SequenceBuffer::with_capacity(64);
    assert!(buffer.insert(5, 50));
    assert!(buffer.insert(5, 51));
    assert_eq!(buffer.get(5), Some(&51));
    assert_eq!(buffer.get_entries_count(), 1);
}

#[test]
fn a_slot_answers_only_for_the_tick_last_written_to_it() {
    let mut buffer: SequenceBuffer<u32> = SequenceBuffer::with_capacity(4);
    assert!(buffer.insert(1, 10));
    assert!(buffer.insert(5, 50));
    // 1 and 5 share slot 1 of 4
    assert_eq!(buffer.get(1), None);
    assert_eq!(buffer.get(5), Some(&50));
}

#[test]
fn moving_the_head_evicts_what_leaves_the_window() {
    let mut buffer: SequenceBuffer<u32> = SequenceBuffer::with_capacity(4);
    assert!(buffer.insert(1, 10));
    assert!(buffer.insert(2, 20));
    assert!(buffer.insert(3, 30));
    assert!(buffer.insert(6, 60));
    // the window is now 3..=6
    assert_eq!(buffer.sequence_num(), 6);
    assert_eq!(buffer.get(1), None);
    assert_eq!(buffer.get(2), None);
    assert_eq!(buffer.get(3), Some(&30));
    assert_eq!(buffer.get(6), Some(&60));
    assert_eq!(buffer.ticks(false), vec![3, 6]);
}

#[test]
fn a_tick_behind_the_window_is_refused() {
    let mut buffer: SequenceBuffer<u32> = SequenceBuffer::with_capacity(4);
    assert!(buffer.insert(10, 100));
    assert!(!buffer.insert(6, 60));
    assert_eq!(buffer.get(6), None);
    assert_eq!(buffer.sequence_num(), 10);
    assert!(buffer.insert(7, 70));
    assert_eq!(buffer.get(7), Some(&70));
    assert_eq!(buffer.sequence_num(), 10);
}

#[test]
fn only_the_last_64_ticks_are_addressable() {
    let mut buffer: SequenceBuffer<u32> = SequenceBuffer::with_capacity(64);
    for tick in 0..100u16 {
        assert!(buffer.insert(tick, tick as u32));
    }
    assert_eq!(buffer.sequence_num(), 99);
    assert_eq!(buffer.get(35), None);
    assert_eq!(buffer.get(36), Some(&36));
    assert_eq!(buffer.get(99), Some(&99));
    assert_eq!(buffer.get_entries_count(), 64);
}

#[test]
fn remove_until_forgets_the_tick_and_all_earlier() {
    let mut buffer: SequenceBuffer<u32> = SequenceBuffer::with_capacity(64);
    for tick in 10..16u16 {
        assert!(buffer.insert(tick, tick as u32));
    }
    buffer.remove_until(12);
    assert_eq!(buffer.get(10), None);
    assert_eq!(buffer.get(11), None);
    assert_eq!(buffer.get(12), None);
    assert_eq!(buffer.get(13), Some(&13));
    assert_eq!(buffer.get(15), Some(&15));
    assert_eq!(buffer.sequence_num(), 15);
    assert_eq!(buffer.ticks(false), vec![13, 14, 15]);
}

#[test]
fn insert_after_remove_until_is_visible_again() {
    let mut buffer: SequenceBuffer<u32> = SequenceBuffer::with_capacity(64);
    assert!(buffer.insert(10, 1));
    buffer.remove_until(10);
    assert_eq!(buffer.get(10), None);
    assert!(buffer.insert(10, 2));
    assert_eq!(buffer.get(10), Some(&2));
}

#[test]
fn remove_takes_one_value_out() {
    let mut buffer: SequenceBuffer<u32> = SequenceBuffer::with_capacity(8);
    assert!(buffer.insert(3, 30));
    assert!(buffer.insert(4, 40));
    assert_eq!(buffer.remove(3), Some(30));
    assert_eq!(buffer.remove(3), None);
    assert_eq!(buffer.get(4), Some(&40));
}

#[test]
fn replace_swaps_a_stored_value_and_hands_back_an_unused_one() {
    let mut buffer: SequenceBuffer<u32> = SequenceBuffer::with_capacity(8);
    assert!(buffer.insert(3, 30));
    assert_eq!(buffer.replace(3, 31), Ok(30));
    assert_eq!(buffer.get(3), Some(&31));
    assert_eq!(buffer.replace(4, 40), Err(40));
    assert_eq!(buffer.get(4), None);
}

#[test]
fn iteration_goes_by_tick_and_can_be_reversed() {
    let mut buffer: SequenceBuffer<u32> = SequenceBuffer::with_capacity(8);
    assert!(buffer.insert(7, 0));
    assert!(buffer.insert(5, 0));
    assert!(buffer.insert(6, 0));
    assert_eq!(buffer.ticks(false), vec![5, 6, 7]);
    assert_eq!(buffer.ticks(true), vec![7, 6, 5]);
    assert_eq!(buffer.get_entries_count(), 3);
}

#[test]
fn ticks_wrap_around_the_end_of_the_range() {
    let mut buffer: SequenceBuffer<u32> = SequenceBuffer::with_capacity(64);
    assert!(buffer.insert(0, 1));
    // 65535 is one tick before 0: still inside the window, older than the head
    assert!(buffer.insert(65535, 2));
    assert_eq!(buffer.sequence_num(), 0);
    assert_eq!(buffer.get(65535), Some(&2));
    assert!(buffer.insert(3, 3));
    assert_eq!(buffer.sequence_num(), 3);
    assert_eq!(buffer.ticks(false), vec![65535, 0, 3]);
    buffer.remove_until(0);
    assert_eq!(buffer.ticks(false), vec![3]);
}

#[test]
fn the_first_insert_is_taken_whatever_its_tick() {
    let mut buffer: SequenceBuffer<u32> = SequenceBuffer::with_capacity(64);
    assert!(buffer.insert(40000, 4));
    assert_eq!(buffer.sequence_num(), 40000);
    assert_eq!(buffer.get(40000), Some(&4));
    assert_eq!(buffer.get_entries_count(), 1);
    assert_eq!(buffer.ticks(false), vec![40000]);
    // from then on the window hangs on that head
    assert!(buffer.insert(39999, 3));
    assert!(buffer.insert(39937, 1));
    assert!(!buffer.insert(39936, 0));
    assert!(!buffer.insert(20000, 0));
    assert_eq!(buffer.sequence_num(), 40000);
    assert!(buffer.insert(40001, 5));
    assert_eq!(buffer.sequence_num(), 40001);
    assert_eq!(buffer.get(39937), None);
    assert_eq!(buffer.ticks(false), vec![39999, 40000, 40001]);
}

#[test]
fn the_first_insert_may_be_half_the_range_away() {
    let mut buffer: SequenceBuffer<u32> = SequenceBuffer::with_capacity(4);
    assert!(buffer.insert(32768, 1));
    assert_eq!(buffer.sequence_num(), 32768);
    assert_eq!(buffer.get(32768), Some(&1));
    assert_eq!(buffer.get(0), None);

    let mut other: SequenceBuffer<u32> = SequenceBuffer::with_capacity(4);
    assert!(other.insert(65000, 7));
    assert_eq!(other.sequence_num(), 65000);
    assert_eq!(other.ticks(true), vec![65000]);
}

#[test]
fn a_buffer_that_was_emptied_still_has_its_head() {
    let mut buffer: SequenceBuffer<u32> = SequenceBuffer::with_capacity(4);
    assert!(buffer.insert(100, 1));
    buffer.remove_until(100);
    assert_eq!(buffer.get_entries_count(), 0);
    assert_eq!(buffer.sequence_num(), 100);
    assert!(!buffer.insert(40000, 2));
    assert!(!buffer.insert(96, 2));
    assert!(buffer.insert(97, 2));
}

#[test]
fn iteration_hands_out_each_entry_with_its_tick() {
    let mut buffer: SequenceBuffer<u32> = SequenceBuffer::with_capacity(8);
    assert!(buffer.iter(false).is_empty());
    assert!(buffer.insert(65535, 50));
    assert!(buffer.insert(1, 70));
    assert!(buffer.insert(0, 60));
    assert_eq!(buffer.iter(false), vec![(65535, &50), (0, &60), (1, &70)]);
    assert_eq!(buffer.iter(true), vec![(1, &70), (0, &60), (65535, &50)]);
    buffer.remove_until(65535);
    assert_eq!(buffer.iter(false), vec![(0, &60), (1, &70)]);
}
