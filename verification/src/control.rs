use vstd::prelude::*;

verus! {

/// The shortest time between the starts of two simulated frames, in
/// nanoseconds: frames are held to sixty a second.
pub const FRAME_INTERVAL_NANOS: u128 = 16666667;

/// A window event, as far as the frame loop tells events apart.
pub enum WindowInput {
    CloseRequested,
    EscapePressed,
    Resized { width: u32, height: u32 },
    RedrawRequested,
    Other,
}

/// What the frame loop does in answer to an event.
#[derive(PartialEq, Eq, Structural)]
pub enum LoopAction {
    /// Leave the event loop.
    Exit,
    /// Resize the surface.
    Resize { width: u32, height: u32 },
    /// Consider drawing a frame.
    Redraw,
    /// Nothing.
    Continue,
}

/// The loop's answer to `input`, where `handled` says whether the renderer
/// already consumed the event (cursor and wheel input).
pub open spec fn window_action(input: WindowInput, handled: bool) -> LoopAction {
    if handled {
        LoopAction::Continue
    } else {
        match input {
            WindowInput::CloseRequested => LoopAction::Exit,
            WindowInput::EscapePressed => LoopAction::Exit,
            WindowInput::Resized { width, height } => LoopAction::Resize { width, height },
            WindowInput::RedrawRequested => LoopAction::Redraw,
            WindowInput::Other => LoopAction::Continue,
        }
    }
}

/// Decides what the frame loop does with a window event.
pub fn window_event_action(input: WindowInput, handled: bool) -> (action: LoopAction)
    ensures
        action == window_action(input, handled),
{
    if handled {
        return LoopAction::Continue;
    }
    match input {
        WindowInput::CloseRequested => LoopAction::Exit,
        WindowInput::EscapePressed => LoopAction::Exit,
        WindowInput::Resized { width, height } => LoopAction::Resize { width, height },
        WindowInput::RedrawRequested => LoopAction::Redraw,
        WindowInput::Other => LoopAction::Continue,
    }
}

/// Why presenting a frame failed.
pub enum SurfaceFailure {
    Lost,
    Outdated,
    OutOfMemory,
    Timeout,
    Other,
}

/// How the frame loop answers a failure to present.
#[derive(PartialEq, Eq, Structural)]
pub enum SurfaceResponse {
    /// Configure the surface again at the current size.
    Reconfigure,
    /// Report the error and leave the loop.
    Exit,
    /// Report a warning and go on.
    Warn,
}

/// The answer to a failure to present: a lost or outdated surface is
/// configured again, running out of memory ends the loop, and a timeout or
/// an unexpected error is only reported.
pub fn surface_failure_response(failure: SurfaceFailure) -> (response: SurfaceResponse)
    ensures
        response == (match failure {
            SurfaceFailure::Lost => SurfaceResponse::Reconfigure,
            SurfaceFailure::Outdated => SurfaceResponse::Reconfigure,
            SurfaceFailure::OutOfMemory => SurfaceResponse::Exit,
            SurfaceFailure::Timeout => SurfaceResponse::Warn,
            SurfaceFailure::Other => SurfaceResponse::Warn,
        }),
{
    match failure {
        SurfaceFailure::Lost => SurfaceResponse::Reconfigure,
        SurfaceFailure::Outdated => SurfaceResponse::Reconfigure,
        SurfaceFailure::OutOfMemory => SurfaceResponse::Exit,
        SurfaceFailure::Timeout => SurfaceResponse::Warn,
        SurfaceFailure::Other => SurfaceResponse::Warn,
    }
}

/// A window of `width` by `height` pixels can be rendered to: a surface of
/// zero width or height is never configured.
pub fn resize_accepted(width: u32, height: u32) -> (accepted: bool)
    ensures
        accepted == (width > 0 && height > 0),
{
    width > 0 && height > 0
}

/// One redraw request, checked at clock reading `now` (in nanoseconds),
/// with `frame` frames begun so far, the last of them at `last`: once the
/// frame interval has passed since `last`, a new frame begins, and its start
/// is the clock reading `start` taken after the check.
pub open spec fn pace_step(frame: int, last: int, now: int, start: int) -> (int, int) {
    if now - last >= FRAME_INTERVAL_NANOS {
        (frame + 1, start)
    } else {
        (frame, last)
    }
}

/// Frames begun, and the start of the last of them, after redraw requests
/// with the clock readings `readings` (each a check reading and the reading
/// taken after it), from no frames and a clock started at `start`.
pub open spec fn paced(readings: Seq<(int, int)>, start: int) -> (int, int)
    decreases readings.len(),
{
    if readings.len() == 0 {
        (0, start)
    } else {
        let before = paced(readings.drop_last(), start);
        pace_step(before.0, before.1, readings.last().0, readings.last().1)
    }
}

/// One more redraw request advances the count by exactly one `pace_step`,
/// which is what `State::begin_frame` does.
pub proof fn lemma_paced_push(readings: Seq<(int, int)>, start: int, now: int, frame_start: int)
    ensures
        paced(readings.push((now, frame_start)), start) == pace_step(
            paced(readings, start).0,
            paced(readings, start).1,
            now,
            frame_start,
        ),
{
    assert(readings.push((now, frame_start)).drop_last() =~= readings);
}

/// Clock readings that never go back and never precede `start`: within a
/// request and from one request to the next.
pub open spec fn readings_ordered(readings: Seq<(int, int)>, start: int) -> bool {
    &&& forall|i: int|
        0 <= i < readings.len() ==> start <= (#[trigger] readings[i]).0 <= readings[i].1
    &&& forall|i: int, j: int| 0 <= i < j < readings.len() ==> readings[i].1 <= readings[j].0
}

/// Frames are held to one per frame interval: however the redraw requests
/// fall, the frames begun up to a clock reading `t` are at most the number
/// of whole intervals between the start of the clock and `t`.
pub proof fn lemma_frames_paced(readings: Seq<(int, int)>, start: int)
    requires
        readings_ordered(readings, start),
    ensures
        paced(readings, start).0 >= 0,
        paced(readings, start).0 * FRAME_INTERVAL_NANOS <= paced(readings, start).1 - start,
        readings.len() == 0 ==> paced(readings, start).1 == start,
        readings.len() > 0 ==> paced(readings, start).1 <= readings.last().1,
        readings.len() > 0 ==> paced(readings, start).0 * FRAME_INTERVAL_NANOS
            <= readings.last().1 - start,
    decreases readings.len(),
{
    if readings.len() > 0 {
        let prefix = readings.drop_last();
        assert(readings_ordered(prefix, start)) by {
            assert forall|i: int| 0 <= i < prefix.len() implies start <= (
            #[trigger] prefix[i]).0 <= prefix[i].1 by {
                assert(prefix[i] == readings[i]);
            }
            assert forall|i: int, j: int| 0 <= i < j < prefix.len() implies prefix[i].1
                <= prefix[j].0 by {
                assert(prefix[i] == readings[i] && prefix[j] == readings[j]);
            }
        }
        lemma_frames_paced(prefix, start);
        let last_index = readings.len() - 1;
        assert(readings.last() == readings[last_index]);
        assert(start <= readings[last_index].0 <= readings[last_index].1);
        if prefix.len() > 0 {
            assert(prefix.last() == readings[last_index - 1]);
            assert(readings[last_index - 1].1 <= readings[last_index].0);
        }
    }
}

/// A frame begins at the `i`-th redraw request.
pub open spec fn frame_begun_at(readings: Seq<(int, int)>, start: int, i: int) -> bool {
    paced(readings.take(i + 1), start).0 == paced(readings.take(i), start).0 + 1
}

proof fn lemma_paced_take_step(readings: Seq<(int, int)>, start: int, i: int)
    requires
        0 <= i < readings.len(),
    ensures
        paced(readings.take(i + 1), start) == pace_step(
            paced(readings.take(i), start).0,
            paced(readings.take(i), start).1,
            readings[i].0,
            readings[i].1,
        ),
{
    assert(readings.take(i + 1).drop_last() =~= readings.take(i));
    assert(readings.take(i + 1).last() == readings[i]);
}

/// A frame begins exactly when its check reading is at least a frame
/// interval after the start of the last frame, and the frame it begins
/// starts at that request's second reading, however late the request.
pub proof fn lemma_frame_starts_at_its_reading(readings: Seq<(int, int)>, start: int, i: int)
    requires
        0 <= i < readings.len(),
    ensures
        frame_begun_at(readings, start, i) <==> readings[i].0 - paced(readings.take(i), start).1
            >= FRAME_INTERVAL_NANOS,
        frame_begun_at(readings, start, i) ==> paced(readings.take(i + 1), start).1
            == readings[i].1,
        !frame_begun_at(readings, start, i) ==> paced(readings.take(i + 1), start) == paced(
            readings.take(i),
            start,
        ),
{
    lemma_paced_take_step(readings, start, i);
}

/// Once a frame has begun at request `i`, the start of the last frame is
/// never earlier than that frame's start.
proof fn lemma_last_start_not_before(readings: Seq<(int, int)>, start: int, i: int, p: int)
    requires
        readings_ordered(readings, start),
        0 <= i < p <= readings.len(),
        frame_begun_at(readings, start, i),
    ensures
        paced(readings.take(p), start).1 >= readings[i].1,
    decreases p - i,
{
    if p == i + 1 {
        lemma_frame_starts_at_its_reading(readings, start, i);
    } else {
        lemma_last_start_not_before(readings, start, i, p - 1);
        lemma_frame_starts_at_its_reading(readings, start, p - 1);
        assert(readings[i].1 <= readings[p - 1].0);
        assert(readings[p - 1].0 <= readings[p - 1].1);
    }
}

/// No two frames begin less than a frame interval apart: the check reading
/// of every frame begun is at least a frame interval after the start of
/// every earlier one.
pub proof fn lemma_frames_spaced(readings: Seq<(int, int)>, start: int, i: int, j: int)
    requires
        readings_ordered(readings, start),
        0 <= i < j < readings.len(),
        frame_begun_at(readings, start, i),
        frame_begun_at(readings, start, j),
    ensures
        readings[j].0 - readings[i].1 >= FRAME_INTERVAL_NANOS,
{
    lemma_last_start_not_before(readings, start, i, j);
    lemma_frame_starts_at_its_reading(readings, start, j);
}

/// The simulation's state between frames: the world, how many frames have
/// been simulated, and the clock reading at which the last one began.
pub struct State<W> {
    world: W,
    frame: u32,
    last_frame_nanos: u128,
}

impl<W> State<W> {
    /// The number of frames simulated so far.
    pub closed spec fn frame_count(&self) -> u32 {
        self.frame
    }

    /// The simulated world.
    pub closed spec fn world_state(&self) -> W {
        self.world
    }

    /// The clock reading, in nanoseconds, at which the last frame began, or
    /// at which the clock was started.
    pub closed spec fn last_frame_time(&self) -> u128 {
        self.last_frame_nanos
    }

    /// A state holding `world`, before its first frame, with its clock at
    /// zero.
    pub fn new(world: W) -> (state: Self)
        ensures
            state.frame_count() == 0,
            state.world_state() == world,
            state.last_frame_time() == 0,
    {
        State { world, frame: 0, last_frame_nanos: 0 }
    }

    /// Starts the frame clock at the reading `now_nanos`: the first frame
    /// waits a full interval from it.
    pub fn start_clock(&mut self, now_nanos: u128)
        ensures
            final(self).last_frame_time() == now_nanos,
            final(self).frame_count() == old(self).frame_count(),
            final(self).world_state() == old(self).world_state(),
    {
        self.last_frame_nanos = now_nanos;
    }

    /// The number of frames simulated so far.
    pub fn frame(&self) -> (frame: u32)
        ensures
            frame == self.frame_count(),
    {
        self.frame
    }

    /// The clock reading, in nanoseconds, at which the last frame began, or
    /// at which the clock was started.
    pub fn last_frame_start(&self) -> (nanos: u128)
        ensures
            nanos == self.last_frame_time(),
    {
        self.last_frame_nanos
    }

    /// The simulated world.
    pub fn world(&self) -> (world: &W)
        ensures
            *world == self.world_state(),
    {
        &self.world
    }

    /// The simulated world, to be advanced.
    pub fn world_mut(&mut self) -> (world: &mut W)
        ensures
            *world == old(self).world_state(),
            final(self).world_state() == *final(world),
            final(self).frame_count() == old(self).frame_count(),
            final(self).last_frame_time() == old(self).last_frame_time(),
    {
        &mut self.world
    }

    /// Asked to redraw, with the clock reading `now_nanos` to check and the
    /// reading `start_nanos` taken after it: once the frame interval has
    /// passed since the last frame began, starts the next frame at
    /// `start_nanos` and says so; otherwise leaves everything as it is. A
    /// check reading before the last frame's start is refused.
    pub fn begin_frame(&mut self, now_nanos: u128, start_nanos: u128) -> (started: bool)
        requires
            now_nanos >= old(self).last_frame_time(),
            now_nanos - old(self).last_frame_time() >= FRAME_INTERVAL_NANOS ==> old(
                self,
            ).frame_count() < u32::MAX,
        ensures
            started == (now_nanos - old(self).last_frame_time() >= FRAME_INTERVAL_NANOS),
            (final(self).frame_count() as int, final(self).last_frame_time() as int) == pace_step(
                old(self).frame_count() as int,
                old(self).last_frame_time() as int,
                now_nanos as int,
                start_nanos as int,
            ),
            started ==> final(self).frame_count() == old(self).frame_count() + 1
                && final(self).last_frame_time() == start_nanos,
            !started ==> final(self).frame_count() == old(self).frame_count()
                && final(self).last_frame_time() == old(self).last_frame_time(),
            final(self).world_state() == old(self).world_state(),
    {
        let elapsed = now_nanos - self.last_frame_nanos;
        if elapsed < FRAME_INTERVAL_NANOS {
            false
        } else {
            self.frame = self.frame + 1;
            self.last_frame_nanos = start_nanos;
            true
        }
    }
}

} // verus!
