use caption_engine::chunking::drain_chunks;

#[test]
fn whole_windows_leave_oldest_first() {
    let mut buffer: Vec<i16> = (0..10).collect();
    let chunks = drain_chunks(&mut buffer, 4);
    assert_eq!(chunks, vec![vec![0, 1, 2, 3], vec![4, 5, 6, 7]]);
    assert_eq!(buffer, vec![8, 9]);
}

#[test]
fn short_buffer_is_left_alone() {
    let mut buffer: Vec<i16> = vec![5, 6, 7];
    let chunks = drain_chunks(&mut buffer, 4);
    assert!(chunks.is_empty());
    assert_eq!(buffer, vec![5, 6, 7]);
}

#[test]
fn exact_multiple_leaves_nothing() {
    let mut buffer: Vec<i16> = vec![1, 2, 3, 4, 5, 6];
    let chunks = drain_chunks(&mut buffer, 3);
    assert_eq!(chunks, vec![vec![1, 2, 3], vec![4, 5, 6]]);
    assert!(buffer.is_empty());
}

#[test]
fn window_of_one_sample() {
    let mut buffer: Vec<i16> = vec![9, 8];
    let chunks = drain_chunks(&mut buffer, 1);
    assert_eq!(chunks, vec![vec![9], vec![8]]);
    assert!(buffer.is_empty());
}

#[test]
fn empty_buffer_gives_no_chunk() {
    let mut buffer: Vec<i16> = Vec::new();
    assert!(drain_chunks(&mut buffer, 7).is_empty());
    assert!(buffer.is_empty());
}
