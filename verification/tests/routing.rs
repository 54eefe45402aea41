use bedterm_core::dcs::located_step;
use bedterm_core::routing::{feed_plan, FeedStep};

#[test]
fn plain_chunk_is_dispatched_and_captured_whole() {
    assert_eq!(feed_plan(5, &vec![]), vec![FeedStep::Dispatch(0, 5), FeedStep::Capture(0, 5)]);
    assert_eq!(feed_plan(0, &vec![]), vec![FeedStep::Dispatch(0, 0)]);
}

#[test]
fn frames_split_the_chunk_and_are_not_captured() {
    // "ab" then a frame at 2..9, then "cd".
    let plan = feed_plan(11, &vec![(Some(2), 9)]);
    assert_eq!(
        plan,
        vec![
            FeedStep::Dispatch(0, 9),
            FeedStep::Capture(0, 2),
            FeedStep::Apply(0),
            FeedStep::Dispatch(9, 11),
            FeedStep::Capture(9, 11),
        ]
    );
    // A frame whose start lay in an earlier chunk, directly followed by another.
    let plan = feed_plan(8, &vec![(None, 3), (Some(3), 8)]);
    assert_eq!(
        plan,
        vec![
            FeedStep::Dispatch(0, 3),
            FeedStep::Capture(0, 3),
            FeedStep::Apply(0),
            FeedStep::Dispatch(3, 8),
            FeedStep::Apply(1),
            FeedStep::Dispatch(8, 8),
        ]
    );
}

#[test]
fn located_step_skips_the_backslash_of_a_seven_bit_terminator() {
    let bytes = [b'x', 0x1B, b'\\', b'y'];
    assert_eq!(located_step(&bytes, 0, 0, 0), (1, false, false));
    assert_eq!(located_step(&bytes, 1, 0, 1), (3, true, true));
    assert_eq!(located_step(&[0x9C], 0, 2, 3), (1, false, true));
}
