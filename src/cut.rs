use vstd::prelude::*;
use crate::media::{Delivery, MediaKind, PacketInfo, TimeBase, TrackInfo};
use crate::rescale::{rescale, rescale_spec};
use crate::routing::{
    first_video, is_first_video, keeps, kept_before, route_of, RoutePolicy, Routing,
};
use crate::cut_laws::{lemma_cut_writes_ordered, lemma_state_step, lemma_writes_stop};
use crate::trim::{other_step, video_step, TrimMode, TrimState, Verdict};

verus! {

/// The first video track of `tracks`, which drives the trim.
pub open spec fn video_track(tracks: Seq<TrackInfo>) -> Option<int> {
    if exists|v: int| is_first_video(tracks, v) {
        Some(choose|v: int| is_first_video(tracks, v))
    } else {
        None
    }
}

/// The packet belongs to the first video track.
pub open spec fn is_video_packet(tracks: Seq<TrackInfo>, p: PacketInfo) -> bool {
    video_track(tracks) == Some(p.track as int)
}

/// The packet belongs to a video, audio or subtitle track.
pub open spec fn is_routed(tracks: Seq<TrackInfo>, p: PacketInfo) -> bool {
    p.track < tracks.len() && keeps(RoutePolicy::AllMedia, tracks[p.track as int].kind)
}

/// The trim state before the first packet of a cut.
pub open spec fn cut_start(tracks: Seq<TrackInfo>, skip_us: i64, duration_us: i64) -> TrimState {
    TrimState {
        mode: TrimMode::Skipping,
        skip_us,
        duration_us,
        time_base: match video_track(tracks) {
            Some(v) => tracks[v].time_base,
            None => TimeBase { num: 1, den: 1 },
        },
        stream_start: None,
        segment_start: 0,
    }
}

/// One step of a cut: dropped tracks are ignored, the video track drives the
/// trim, and the other routed tracks follow its phase.
pub open spec fn cut_step(tracks: Seq<TrackInfo>, s: TrimState, p: PacketInfo) -> (TrimState, Verdict) {
    if !is_routed(tracks, p) {
        (s, Verdict::Drop)
    } else if is_video_packet(tracks, p) {
        video_step(s, p.time(), p.key)
    } else {
        (s, other_step(s))
    }
}

/// The trim state after the packets `ps`.
pub open spec fn cut_state(tracks: Seq<TrackInfo>, s0: TrimState, ps: Seq<PacketInfo>) -> TrimState
    decreases ps.len(),
{
    if ps.len() == 0 {
        s0
    } else {
        cut_step(tracks, cut_state(tracks, s0, ps.drop_last()), ps.last()).0
    }
}

/// The verdict on packet `i` of `ps`.
pub open spec fn cut_verdict(tracks: Seq<TrackInfo>, s0: TrimState, ps: Seq<PacketInfo>, i: int) -> Verdict {
    cut_step(tracks, cut_state(tracks, s0, ps.take(i)), ps[i]).1
}

/// The packets among the first `n` that a cut writes, in input order, each
/// with its output stream.
pub open spec fn cut_writes(tracks: Seq<TrackInfo>, s0: TrimState, ps: Seq<PacketInfo>, n: int) -> Seq<Delivery>
    decreases n,
{
    if n <= 0 {
        Seq::empty()
    } else {
        cut_writes(tracks, s0, ps, n - 1) + if cut_verdict(tracks, s0, ps, n - 1) == Verdict::Forward {
            seq![Delivery {
                packet: (n - 1) as usize,
                output: kept_before(tracks, ps[n - 1].track as int, RoutePolicy::AllMedia) as usize,
            }]
        } else {
            Seq::empty()
        }
    }
}

/// Packet `f` is the first one written.
pub open spec fn first_forward(tracks: Seq<TrackInfo>, s0: TrimState, ps: Seq<PacketInfo>, f: int) -> bool {
    &&& 0 <= f < ps.len()
    &&& cut_verdict(tracks, s0, ps, f) == Verdict::Forward
    &&& forall|k: int| 0 <= k < f ==> cut_verdict(tracks, s0, ps, k) != Verdict::Forward
}

/// Packet `v` is the first packet of the video track.
pub open spec fn first_video_packet(tracks: Seq<TrackInfo>, ps: Seq<PacketInfo>, v: int) -> bool {
    &&& 0 <= v < ps.len()
    &&& is_video_packet(tracks, ps[v])
    &&& forall|k: int| 0 <= k < v ==> !is_video_packet(tracks, ps[k])
}

/// What the caller does with one packet of a cut.
#[derive(Clone, Copy, Debug, PartialEq, Eq, Structural)]
pub enum CutAction {
    /// Discard the packet.
    Drop,
    /// Write the packet to output stream `stream` with the rescaled
    /// timestamps and an unknown position.
    Write { stream: usize, pts: Option<i64>, dts: Option<i64> },
    /// Stop reading: the segment is complete.
    Stop,
}

/// A timestamp carried from base `src` to base `dst`.
pub open spec fn moved_ts(ts: Option<i64>, src: TimeBase, dst: TimeBase) -> Option<i64> {
    match ts {
        Some(t) => rescale_spec(t as int, src, dst),
        None => None,
    }
}

fn move_ts(ts: Option<i64>, src: TimeBase, dst: TimeBase) -> (r: Option<i64>)
    ensures
        r == moved_ts(ts, src, dst),
{
    match ts {
        Some(t) => rescale(t, src, dst),
        None => None,
    }
}

/// The routing table's video track is the first video track.
pub proof fn lemma_video_track(tracks: Seq<TrackInfo>, v: Option<usize>)
    requires
        first_video(tracks, v),
    ensures
        video_track(tracks) == match v {
            Some(x) => Some(x as int),
            None => None::<int>,
        },
{
    match v {
        Some(x) => {
            assert(is_first_video(tracks, x as int));
            let c = choose|c: int| is_first_video(tracks, c);
            if c < x {
                assert(tracks[c].kind != MediaKind::Video);
            } else if c > x {
                assert(tracks[x as int].kind != MediaKind::Video);
            }
        },
        None => {
            assert(!exists|c: int| is_first_video(tracks, c));
        },
    }
}

/// The video track that drives the trim is the first video track, and there
/// is one whenever some track is video.
pub proof fn lemma_video_track_is_video(tracks: Seq<TrackInfo>)
    ensures
        match video_track(tracks) {
            Some(v) => is_first_video(tracks, v),
            None => forall|j: int| 0 <= j < tracks.len() ==> tracks[j].kind != MediaKind::Video,
        },
{
    if video_track(tracks) is None {
        assert forall|j: int| 0 <= j < tracks.len() implies tracks[j].kind != MediaKind::Video by {
            if tracks[j].kind == MediaKind::Video {
                lemma_least_video(tracks, j);
            }
        }
    }
}

proof fn lemma_least_video(tracks: Seq<TrackInfo>, j: int)
    requires
        0 <= j < tracks.len(),
        tracks[j].kind == MediaKind::Video,
    ensures
        exists|v: int| is_first_video(tracks, v),
    decreases j,
{
    if forall|k: int| 0 <= k < j ==> tracks[k].kind != MediaKind::Video {
        assert(is_first_video(tracks, j));
    } else {
        let k = choose|k: int| 0 <= k < j && tracks[k].kind == MediaKind::Video;
        lemma_least_video(tracks, k);
    }
}

/// The state of one cut: the routing table, the input time bases and the trim.
pub struct CutSession {
    pub routing: Routing,
    pub in_bases: Vec<TimeBase>,
    pub trim: TrimState,
    pub tracks: Ghost<Seq<TrackInfo>>,
}

impl CutSession {
    pub open spec fn wf(&self) -> bool {
        &&& self.routing.is_routing_of(self.tracks@, RoutePolicy::AllMedia)
        &&& self.routing.wf()
        &&& self.in_bases@.len() == self.tracks@.len()
        &&& forall|i: int| 0 <= i < self.tracks@.len() ==> self.in_bases@[i] == self.tracks@[i].time_base
    }

    /// Starts a cut of `tracks` that skips `skip_us` microseconds and keeps
    /// `duration_us` microseconds (to the end when zero or less).
    pub fn new(tracks: &Vec<TrackInfo>, skip_us: i64, duration_us: i64) -> (r: CutSession)
        ensures
            r.wf(),
            r.tracks@ == tracks@,
            r.trim == cut_start(tracks@, skip_us, duration_us),
    {
        let routing = Routing::new(tracks, RoutePolicy::AllMedia);
        proof {
            lemma_video_track(tracks@, routing.video);
        }
        let mut in_bases: Vec<TimeBase> = Vec::new();
        let mut i: usize = 0;
        while i < tracks.len()
            invariant
                i <= tracks@.len(),
                in_bases@.len() == i,
                forall|j: int| 0 <= j < i ==> in_bases@[j] == tracks@[j].time_base,
            decreases tracks.len() - i,
        {
            in_bases.push(tracks[i].time_base);
            i = i + 1;
        }
        let time_base = match routing.video {
            Some(v) => tracks[v].time_base,
            None => TimeBase::new(1, 1),
        };
        let trim = TrimState::new(skip_us, duration_us, time_base);
        CutSession { routing, in_bases, trim, tracks: Ghost(tracks@) }
    }

    /// Number of output streams.
    pub fn outputs(&self) -> (r: usize)
        ensures
            r == self.routing.outputs,
    {
        self.routing.outputs
    }

    /// Advances the trim on packet `p` and returns its verdict.
    pub fn verdict(&mut self, p: &PacketInfo) -> (v: Verdict)
        requires
            old(self).wf(),
        ensures
            final(self).wf(),
            final(self).tracks == old(self).tracks,
            final(self).routing == old(self).routing,
            final(self).in_bases == old(self).in_bases,
            (final(self).trim, v) == cut_step(old(self).tracks@, old(self).trim, *p),
    {
        proof {
            lemma_video_track(self.tracks@, self.routing.video);
            if p.track < self.routing.routes@.len() {
                assert(self.routing.routes@[p.track as int] == route_of(
                    self.tracks@,
                    p.track as int,
                    RoutePolicy::AllMedia,
                ));
            }
        }
        match self.routing.destination(p.track) {
            None => Verdict::Drop,
            Some(_) => {
                let is_video = match self.routing.video {
                    Some(v) => v == p.track,
                    None => false,
                };
                if is_video {
                    self.trim.on_video(p.time_ticks(), p.key)
                } else {
                    self.trim.on_other()
                }
            },
        }
    }

    /// Decides what to do with packet `p`; `out_bases` are the time bases of
    /// the output streams as the muxer set them.
    pub fn on_packet(&mut self, p: &PacketInfo, out_bases: &Vec<TimeBase>) -> (a: CutAction)
        requires
            old(self).wf(),
            out_bases@.len() == old(self).routing.outputs,
        ensures
            final(self).wf(),
            final(self).tracks == old(self).tracks,
            final(self).routing == old(self).routing,
            final(self).trim == cut_step(old(self).tracks@, old(self).trim, *p).0,
            a == match cut_step(old(self).tracks@, old(self).trim, *p).1 {
                Verdict::Drop => CutAction::Drop,
                Verdict::Halt => CutAction::Stop,
                Verdict::Forward => {
                    let stream = kept_before(old(self).tracks@, p.track as int, RoutePolicy::AllMedia) as usize;
                    let src = old(self).tracks@[p.track as int].time_base;
                    let dst = out_bases@[stream as int];
                    CutAction::Write {
                        stream,
                        pts: moved_ts(p.pts, src, dst),
                        dts: moved_ts(p.dts, src, dst),
                    }
                },
            },
    {
        let v = self.verdict(p);
        match v {
            Verdict::Drop => CutAction::Drop,
            Verdict::Halt => CutAction::Stop,
            Verdict::Forward => {
                proof {
                    assert(is_routed(self.tracks@, *p));
                    assert(self.routing.routes@[p.track as int] == route_of(
                        self.tracks@,
                        p.track as int,
                        RoutePolicy::AllMedia,
                    ));
                }
                let stream = self.routing.destination(p.track).unwrap();
                let src = self.in_bases[p.track];
                let dst = out_bases[stream];
                CutAction::Write {
                    stream,
                    pts: move_ts(p.pts, src, dst),
                    dts: move_ts(p.dts, src, dst),
                }
            },
        }
    }
}

/// The writes of a cut of `packets` over `tracks`, without the payloads:
/// which packets go to which output stream, in the order they are written.
pub fn plan_cut(tracks: &Vec<TrackInfo>, packets: &Vec<PacketInfo>, skip_us: i64, duration_us: i64) -> (r: Vec<Delivery>)
    ensures
        r@ == cut_writes(tracks@, cut_start(tracks@, skip_us, duration_us), packets@, packets@.len() as int),
        forall|a: int, b: int| 0 <= a < b < r@.len() ==> r@[a].packet < r@[b].packet,
{
    let ghost s0 = cut_start(tracks@, skip_us, duration_us);
    let mut session = CutSession::new(tracks, skip_us, duration_us);
    let mut out: Vec<Delivery> = Vec::new();
    let mut i: usize = 0;
    proof {
        assert(packets@.take(0).len() == 0);
    }
    while i < packets.len()
        invariant
            i <= packets@.len(),
            s0 == cut_start(tracks@, skip_us, duration_us),
            session.wf(),
            session.tracks@ == tracks@,
            session.trim == cut_state(tracks@, s0, packets@.take(i as int)),
            out@ == cut_writes(tracks@, s0, packets@, i as int),
        decreases packets.len() - i,
    {
        proof {
            lemma_state_step(tracks@, skip_us, duration_us, packets@, i as int);
        }
        let p = packets[i];
        let v = session.verdict(&p);
        match v {
            Verdict::Forward => {
                proof {
                    assert(is_routed(tracks@, p));
                    assert(session.routing.routes@[p.track as int] == route_of(
                        tracks@,
                        p.track as int,
                        RoutePolicy::AllMedia,
                    ));
                }
                let output = session.routing.destination(p.track).unwrap();
                out.push(Delivery { packet: i, output });
            },
            Verdict::Drop => {},
            Verdict::Halt => {
                proof {
                    if i + 1 < packets@.len() {
                        lemma_writes_stop(tracks@, skip_us, duration_us, packets@, i as int, packets@.len() as int);
                    }
                    assert(cut_writes(tracks@, s0, packets@, i + 1) =~= cut_writes(tracks@, s0, packets@, i as int));
                    lemma_writes_stop(tracks@, skip_us, duration_us, packets@, i as int, i + 1);
                }
                proof {
                    lemma_cut_writes_ordered(tracks@, skip_us, duration_us, packets@, packets@.len() as int);
                }
                return out;
            },
        }
        i = i + 1;
    }
    proof {
        lemma_cut_writes_ordered(tracks@, skip_us, duration_us, packets@, packets@.len() as int);
    }
    out
}

} // verus!
