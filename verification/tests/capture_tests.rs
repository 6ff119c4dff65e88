use bellanote::capture::{
    interleaved_stereo_offsets, planar_frame_count, whole_frame_bytes, BoundedQueue, GroupsOfThree, MAX_QUEUE_FRAMES, MIX_CHUNK_FRAMES, PLAYBACK_RATE, SAMPLE_RATE,
    SPECTRUM_WINDOW,
};

#[test]
fn mix_chunk_is_ten_ms_at_playback_rate() {
    assert_eq!(MIX_CHUNK_FRAMES, PLAYBACK_RATE as usize / 100);
}

#[test]
fn rates_and_sizes() {
    assert_eq!(SAMPLE_RATE, 16_000);
    assert_eq!(PLAYBACK_RATE, 48_000);
    assert_eq!(MAX_QUEUE_FRAMES, 4_800);
    assert_eq!(SPECTRUM_WINDOW, 1_024);
}

#[test]
fn bounded_queue_keeps_the_newest_items() {
    let mut q: BoundedQueue<u32> = BoundedQueue::new(3);
    q.push_slice(&[1, 2]);
    assert_eq!(q.len(), 2);
    q.push_slice(&[3, 4, 5]);
    assert_eq!(q.len(), 3);
    assert_eq!(q.get(0), 3);
    assert_eq!(q.get(2), 5);
    assert_eq!(q.pop_front_or(0), 3);
    assert_eq!(q.pop_front_or(0), 4);
    assert_eq!(q.pop_front_or(0), 5);
    assert!(q.is_empty());
    assert_eq!(q.pop_front_or(9), 9);
}

#[test]
fn bounded_queue_of_stereo_frames_drops_oldest() {
    let mut q: BoundedQueue<[f32; 2]> = BoundedQueue::new(MAX_QUEUE_FRAMES);
    let frames: Vec<[f32; 2]> = (0..5_000).map(|i| [i as f32, 0.0]).collect();
    q.push_slice(&frames);
    assert_eq!(q.len(), MAX_QUEUE_FRAMES);
    assert_eq!(q.get(0)[0], 200.0);
    q.clear();
    assert_eq!(q.pop_front_or([0.0, 0.0]), [0.0, 0.0]);
}

#[test]
fn groups_of_three_wait_for_the_rest() {
    let mut g: GroupsOfThree<u8> = GroupsOfThree::new();
    let out = g.push(&[1, 2, 3, 4]);
    assert_eq!(out, vec![(1, 2, 3)]);
    let out = g.push(&[5]);
    assert!(out.is_empty());
    let out = g.push(&[6, 7]);
    assert_eq!(out, vec![(4, 5, 6)]);
}

#[test]
fn interleaved_frames_take_the_first_two_channels() {
    assert_eq!(interleaved_stereo_offsets(16, 2, 4), vec![(0, 4), (8, 12)]);
    assert_eq!(interleaved_stereo_offsets(6, 1, 2), vec![(0, 0), (2, 2), (4, 4)]);
    assert_eq!(interleaved_stereo_offsets(7, 2, 2), vec![(0, 2)]);
    assert_eq!(interleaved_stereo_offsets(24, 6, 2), vec![(0, 2), (12, 14)]);
    assert!(interleaved_stereo_offsets(3, 2, 2).is_empty());
}

#[test]
fn planar_buffers_hold_their_shortest_length() {
    assert_eq!(planar_frame_count(&[8, 6], 2), 3);
    assert_eq!(planar_frame_count(&[8], 4), 2);
    assert_eq!(planar_frame_count(&[], 2), 0);
}

#[test]
fn only_whole_frames_are_taken_from_the_queue() {
    assert_eq!(whole_frame_bytes(10, 4), 8);
    assert_eq!(whole_frame_bytes(3, 4), 0);
    assert_eq!(whole_frame_bytes(16, 8), 16);
}
