//! How the terminal handles one chunk of host output around the
//! shell-integration frames completed inside it: the bytes up to and
//! including each frame go to the emulator, the bytes before the frame are
//! also kept as the running block's output, then the frame's event is
//! applied to the block store; what follows the last frame is handled the
//! same way, without an event.

use vstd::prelude::*;

verus! {

/// One thing to do with the chunk, on a byte range `from..to` of it.
#[derive(Clone, Copy, Debug, PartialEq, Eq, Structural)]
pub enum FeedStep {
    /// Feed `from..to` to the emulator (nothing when the range is empty).
    Dispatch(usize, usize),
    /// Keep `from..to` as the running block's output.
    Capture(usize, usize),
    /// Apply the `k`-th completed frame's event.
    Apply(usize),
}

/// Frames located in a chunk: where each frame's `ESC` starts, when it
/// starts inside this chunk, and the offset just past its terminator; in
/// order, inside the chunk.
pub open spec fn frames_ok(len: nat, frames: Seq<(Option<usize>, usize)>) -> bool {
    &&& forall|k: int| 0 <= k < frames.len() ==> (#[trigger] frames[k]).1 <= len
    &&& forall|k: int| 0 < k < frames.len() ==> frames[k - 1].1 <= (#[trigger] frames[k]).1
    &&& forall|k: int| 0 <= k < frames.len() ==> match (#[trigger] frames[k]).0 {
        Some(s) => s <= frames[k].1,
        None => true,
    }
}

/// The steps for the frames, and the offset after the last one.
pub open spec fn frame_steps(frames: Seq<(Option<usize>, usize)>) -> (Seq<FeedStep>, usize)
    decreases frames.len(),
{
    if frames.len() == 0 {
        (Seq::empty(), 0)
    } else {
        let (steps, cursor) = frame_steps(frames.drop_last());
        let (start, end) = frames.last();
        let content_end = match start {
            Some(s) => s,
            None => end,
        };
        let capture = if content_end > cursor { seq![FeedStep::Capture(cursor, content_end)] } else { Seq::empty() };
        (steps + seq![FeedStep::Dispatch(cursor, end)] + capture + seq![FeedStep::Apply((frames.len() - 1) as usize)], end)
    }
}

/// All steps for a chunk of `len` bytes.
pub open spec fn spec_feed_plan(len: usize, frames: Seq<(Option<usize>, usize)>) -> Seq<FeedStep> {
    let (steps, cursor) = frame_steps(frames);
    let tail = if cursor < len { seq![FeedStep::Capture(cursor, len)] } else { Seq::empty() };
    steps + seq![FeedStep::Dispatch(cursor, len)] + tail
}

/// The steps for a chunk of `len` bytes holding the completed `frames`.
pub fn feed_plan(len: usize, frames: &Vec<(Option<usize>, usize)>) -> (r: Vec<FeedStep>)
    requires
        frames_ok(len as nat, frames@),
    ensures
        r@ == spec_feed_plan(len, frames@),
{
    let mut steps: Vec<FeedStep> = Vec::new();
    let mut cursor: usize = 0;
    let mut k: usize = 0;
    while k < frames.len()
        invariant
            k <= frames@.len(),
            frames_ok(len as nat, frames@),
            (steps@, cursor) == frame_steps(frames@.subrange(0, k as int)),
            cursor <= len,
            k > 0 ==> cursor == frames@[k - 1].1,
            k == 0 ==> cursor == 0,
        decreases frames@.len() - k,
    {
        let ghost pre = frames@.subrange(0, k as int);
        let (start, end) = frames[k];
        let content_end = match start {
            Some(s) => s,
            None => end,
        };
        steps.push(FeedStep::Dispatch(cursor, end));
        if content_end > cursor {
            steps.push(FeedStep::Capture(cursor, content_end));
        }
        steps.push(FeedStep::Apply(k));
        proof {
            let next = frames@.subrange(0, k as int + 1);
            assert(next.drop_last() =~= pre);
            assert(next.last() == frames@[k as int]);
            if k > 0 {
                assert(frames@[k as int - 1].1 <= frames@[k as int].1);
            }
            let capture = if content_end > cursor { seq![FeedStep::Capture(cursor, content_end)] } else {
                Seq::empty()
            };
            assert(steps@ =~= frame_steps(pre).0 + seq![FeedStep::Dispatch(cursor, end)] + capture + seq![
                FeedStep::Apply(k)]);
        }
        cursor = end;
        k = k + 1;
    }
    assert(frames@.subrange(0, frames@.len() as int) =~= frames@);
    let ghost body = steps@;
    steps.push(FeedStep::Dispatch(cursor, len));
    if cursor < len {
        steps.push(FeedStep::Capture(cursor, len));
    }
    proof {
        let tail = if cursor < len { seq![FeedStep::Capture(cursor, len)] } else { Seq::empty() };
        assert(steps@ =~= body + seq![FeedStep::Dispatch(cursor, len)] + tail);
    }
    steps
}

} // verus!
