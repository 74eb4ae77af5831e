use vstd::prelude::*;
use crate::media::TimeBase;

verus! {

/// Phase of a keyframe-aligned cut.
#[derive(Clone, Copy, Debug, PartialEq, Eq, Structural)]
pub enum TrimMode {
    /// Before the segment: every packet is discarded.
    Skipping,
    /// Inside the segment: routed packets are written.
    Forwarding,
    /// Past the segment: the run stops.
    Halted,
}

/// What to do with one packet.
#[derive(Clone, Copy, Debug, PartialEq, Eq, Structural)]
pub enum Verdict {
    Drop,
    Forward,
    Halt,
}

/// Microseconds per second; skip and duration are given in microseconds.
pub const MICROS: i128 = 1_000_000;

/// The time from tick `from` to tick `to`, in base `tb`, is at least `us` microseconds.
pub open spec fn reaches(from: int, to: int, tb: TimeBase, us: int) -> bool {
    (to - from) * tb.num * 1_000_000 >= us * tb.den
}

/// The time from tick `from` to tick `to`, in base `tb`, is more than `us` microseconds.
pub open spec fn exceeds(from: int, to: int, tb: TimeBase, us: int) -> bool {
    (to - from) * tb.num * 1_000_000 > us * tb.den
}

/// State of the trim policy, driven by the packets of the first video track.
/// Times are ticks of that track's time base.
#[derive(Clone, Copy, Debug, PartialEq, Eq, Structural)]
pub struct TrimState {
    pub mode: TrimMode,
    /// Offset from the first video packet before which nothing is kept, in microseconds.
    pub skip_us: i64,
    /// Length of the segment in microseconds; zero or less means to the end.
    pub duration_us: i64,
    /// Time base of the video track.
    pub time_base: TimeBase,
    /// Time of the first video packet seen.
    pub stream_start: Option<i64>,
    /// Time of the keyframe that opened the segment.
    pub segment_start: i64,
}

/// The trim step for a packet of the video track at time `t`.
pub open spec fn video_step(s: TrimState, t: int, key: bool) -> (TrimState, Verdict) {
    let start: int = match s.stream_start {
        Some(v) => v as int,
        None => t,
    };
    let s1 = TrimState { stream_start: Some(start as i64), ..s };
    match s.mode {
        TrimMode::Skipping => if reaches(start, t, s.time_base, s.skip_us as int) && key {
            (TrimState { mode: TrimMode::Forwarding, segment_start: t as i64, ..s1 }, Verdict::Forward)
        } else {
            (s1, Verdict::Drop)
        },
        TrimMode::Forwarding => if s.duration_us > 0 && exceeds(
            s.segment_start as int,
            t,
            s.time_base,
            s.duration_us as int,
        ) {
            (TrimState { mode: TrimMode::Halted, ..s1 }, Verdict::Halt)
        } else {
            (s1, Verdict::Forward)
        },
        TrimMode::Halted => (s1, Verdict::Halt),
    }
}

/// The trim verdict for a routed packet of any other track.
pub open spec fn other_step(s: TrimState) -> Verdict {
    match s.mode {
        TrimMode::Skipping => Verdict::Drop,
        TrimMode::Forwarding => Verdict::Forward,
        TrimMode::Halted => Verdict::Halt,
    }
}

/// `(to - from) * tb.num * 10^6` and `us * tb.den`, exactly.
fn scaled_elapsed(from: i64, to: i64, tb: TimeBase, us: i64) -> (r: (i128, i128))
    ensures
        r.0 as int == (to - from) * tb.num * 1_000_000,
        r.1 as int == us * tb.den,
{
    let diff: i128 = to as i128 - from as i128;
    let num: i128 = tb.num as i128;
    let den: i128 = tb.den as i128;
    let u: i128 = us as i128;
    assert(-0x1_0000_0000_0000_0000 <= diff <= 0x1_0000_0000_0000_0000);
    assert(-0x1_0000_0000_0000_0000 * 0x8000_0000 <= diff * num <= 0x1_0000_0000_0000_0000
        * 0x8000_0000) by (nonlinear_arith)
        requires
            -0x1_0000_0000_0000_0000 <= diff <= 0x1_0000_0000_0000_0000,
            -0x8000_0000 <= num <= 0x8000_0000,
    ;
    let dn: i128 = diff * num;
    assert(-0x1_0000_0000_0000_0000 * 0x8000_0000 * 1_000_000 <= dn * MICROS
        <= 0x1_0000_0000_0000_0000 * 0x8000_0000 * 1_000_000) by (nonlinear_arith)
        requires
            -0x1_0000_0000_0000_0000 * 0x8000_0000 <= dn <= 0x1_0000_0000_0000_0000 * 0x8000_0000,
            MICROS == 1_000_000,
    ;
    let lhs: i128 = dn * MICROS;
    assert(-0x8000_0000_0000_0000 * 0x8000_0000 <= u * den <= 0x8000_0000_0000_0000 * 0x8000_0000)
        by (nonlinear_arith)
        requires
            -0x8000_0000_0000_0000 <= u <= 0x8000_0000_0000_0000,
            -0x8000_0000 <= den <= 0x8000_0000,
    ;
    let rhs: i128 = u * den;
    (lhs, rhs)
}

impl TrimState {
    /// A trim that keeps `duration_us` microseconds (to the end when zero or
    /// less) from the first keyframe at least `skip_us` microseconds after the
    /// first video packet.
    pub fn new(skip_us: i64, duration_us: i64, time_base: TimeBase) -> (r: TrimState)
        ensures
            r == (TrimState {
                mode: TrimMode::Skipping,
                skip_us,
                duration_us,
                time_base,
                stream_start: None,
                segment_start: 0,
            }),
    {
        TrimState {
            mode: TrimMode::Skipping,
            skip_us,
            duration_us,
            time_base,
            stream_start: None,
            segment_start: 0,
        }
    }

    /// Advances on a packet of the video track at time `t`.
    pub fn on_video(&mut self, t: i64, key: bool) -> (v: Verdict)
        ensures
            (*final(self), v) == video_step(*old(self), t as int, key),
    {
        let start: i64 = match self.stream_start {
            Some(v) => v,
            None => t,
        };
        self.stream_start = Some(start);
        match self.mode {
            TrimMode::Skipping => {
                let (lhs, rhs) = scaled_elapsed(start, t, self.time_base, self.skip_us);
                if lhs >= rhs && key {
                    self.mode = TrimMode::Forwarding;
                    self.segment_start = t;
                    Verdict::Forward
                } else {
                    Verdict::Drop
                }
            },
            TrimMode::Forwarding => {
                if self.duration_us > 0 {
                    let (lhs, rhs) = scaled_elapsed(
                        self.segment_start,
                        t,
                        self.time_base,
                        self.duration_us,
                    );
                    if lhs > rhs {
                        self.mode = TrimMode::Halted;
                        return Verdict::Halt;
                    }
                }
                Verdict::Forward
            },
            TrimMode::Halted => Verdict::Halt,
        }
    }

    /// The verdict for a routed packet of a track other than the video track.
    pub fn on_other(&self) -> (v: Verdict)
        ensures
            v == other_step(*self),
    {
        match self.mode {
            TrimMode::Skipping => Verdict::Drop,
            TrimMode::Forwarding => Verdict::Forward,
            TrimMode::Halted => Verdict::Halt,
        }
    }
}

} // verus!
