use vstd::prelude::*;
use crate::cut::moved_ts;
use crate::media::{Delivery, MediaKind, PacketInfo, TimeBase, TrackInfo};
use crate::rescale::rescale;
use crate::routing::{keeps, kept_before, lemma_kept_before_mono, route_of, RoutePolicy, Routing};

verus! {

/// The packet belongs to an audio track.
pub open spec fn is_audio_packet(tracks: Seq<TrackInfo>, p: PacketInfo) -> bool {
    p.track < tracks.len() && tracks[p.track as int].kind == MediaKind::Audio
}

/// The output container of an audio track: the number of audio tracks before it.
pub open spec fn split_output(tracks: Seq<TrackInfo>, track: int) -> usize {
    kept_before(tracks, track, RoutePolicy::AudioOnly) as usize
}

/// Number of audio tracks, which is the number of outputs of a split.
pub open spec fn audio_count(tracks: Seq<TrackInfo>) -> nat {
    kept_before(tracks, tracks.len() as int, RoutePolicy::AudioOnly)
}

/// The packets among the first `n` that a split writes, in input order, each
/// with its output container.
pub open spec fn split_writes(tracks: Seq<TrackInfo>, ps: Seq<PacketInfo>, n: int) -> Seq<Delivery>
    decreases n,
{
    if n <= 0 {
        Seq::empty()
    } else {
        split_writes(tracks, ps, n - 1) + if is_audio_packet(tracks, ps[n - 1]) {
            seq![Delivery { packet: (n - 1) as usize, output: split_output(tracks, ps[n - 1].track as int) }]
        } else {
            Seq::empty()
        }
    }
}

/// Distinct audio tracks go to distinct output containers, numbered in input
/// order below the number of audio tracks.
pub proof fn lemma_split_outputs_distinct(tracks: Seq<TrackInfo>, t1: int, t2: int)
    requires
        0 <= t1 < t2 < tracks.len() <= usize::MAX,
        tracks[t1].kind == MediaKind::Audio,
        tracks[t2].kind == MediaKind::Audio,
    ensures
        split_output(tracks, t1) < split_output(tracks, t2) < audio_count(tracks),
{
    let p = RoutePolicy::AudioOnly;
    lemma_kept_before_mono(tracks, p, t1 + 1, t2);
    lemma_kept_before_mono(tracks, p, 0, t2);
    lemma_kept_before_mono(tracks, p, t2 + 1, tracks.len() as int);
    assert(keeps(p, tracks[t1].kind));
    assert(kept_before(tracks, t1 + 1, p) == kept_before(tracks, t1, p) + 1);
    assert(kept_before(tracks, t2 + 1, p) == kept_before(tracks, t2, p) + 1);
}

/// A split writes exactly the audio packets, each once, in input order, each
/// to the output container of its track; other tracks reach no output.
pub proof fn lemma_split_complete(tracks: Seq<TrackInfo>, ps: Seq<PacketInfo>, n: int)
    requires
        0 <= n <= ps.len() <= usize::MAX,
        tracks.len() <= usize::MAX,
    ensures
        forall|a: int|
            #![trigger split_writes(tracks, ps, n)[a]]
            0 <= a < split_writes(tracks, ps, n).len() ==> {
                let w = split_writes(tracks, ps, n)[a];
                &&& w.packet < n
                &&& is_audio_packet(tracks, ps[w.packet as int])
                &&& w.output == split_output(tracks, ps[w.packet as int].track as int)
                &&& w.output < audio_count(tracks)
            },
        forall|i: int|
            0 <= i < n && is_audio_packet(tracks, ps[i]) ==> exists|a: int|
                0 <= a < split_writes(tracks, ps, n).len() && split_writes(tracks, ps, n)[a].packet == i,
        forall|a: int, b: int|
            0 <= a < b < split_writes(tracks, ps, n).len() ==> split_writes(tracks, ps, n)[a].packet
                < split_writes(tracks, ps, n)[b].packet,
    decreases n,
{
    if n > 0 {
        lemma_split_complete(tracks, ps, n - 1);
        let w = split_writes(tracks, ps, n - 1);
        let all = split_writes(tracks, ps, n);
        let pol = RoutePolicy::AudioOnly;
        assert forall|a: int| 0 <= a < all.len() implies (a < w.len() ==> all[a] == w[a]) && (a >= w.len()
            ==> all[a].packet == n - 1) by {
            if a < w.len() {
                assert(all[a] == w[a]);
            }
        }
        if is_audio_packet(tracks, ps[n - 1]) {
            let t = ps[n - 1].track as int;
            lemma_kept_before_mono(tracks, pol, t + 1, tracks.len() as int);
            lemma_kept_before_mono(tracks, pol, 0, t);
            assert(kept_before(tracks, t + 1, pol) == kept_before(tracks, t, pol) + 1);
            assert(all[w.len() as int].packet == n - 1);
        }
        assert forall|i: int| 0 <= i < n && is_audio_packet(tracks, ps[i]) implies exists|a: int|
            0 <= a < all.len() && all[a].packet == i by {
            if i < n - 1 {
                let a0 = choose|a: int| 0 <= a < w.len() && w[a].packet == i;
                assert(all[a0] == w[a0]);
            } else {
                assert(all[w.len() as int].packet == i);
            }
        }
    }
}

/// What the caller does with one packet of a split.
#[derive(Clone, Copy, Debug, PartialEq, Eq, Structural)]
pub enum SplitAction {
    /// Discard the packet.
    Drop,
    /// Write the packet as stream 0 of output container `output`, with the
    /// rescaled timestamps and an unknown position.
    Write { output: usize, pts: Option<i64>, dts: Option<i64> },
}

/// The state of one split: the routing table and the input time bases.
pub struct SplitSession {
    pub routing: Routing,
    pub in_bases: Vec<TimeBase>,
    pub tracks: Ghost<Seq<TrackInfo>>,
}

impl SplitSession {
    pub open spec fn wf(&self) -> bool {
        &&& self.routing.is_routing_of(self.tracks@, RoutePolicy::AudioOnly)
        &&& self.routing.wf()
        &&& self.in_bases@.len() == self.tracks@.len()
        &&& forall|i: int| 0 <= i < self.tracks@.len() ==> self.in_bases@[i] == self.tracks@[i].time_base
    }

    /// Starts a split of the audio tracks among `tracks`, one output container each.
    pub fn new(tracks: &Vec<TrackInfo>) -> (r: SplitSession)
        ensures
            r.wf(),
            r.tracks@ == tracks@,
    {
        let routing = Routing::new(tracks, RoutePolicy::AudioOnly);
        let mut in_bases: Vec<TimeBase> = Vec::new();
        let mut i: usize = 0;
        while i < tracks.len()
            invariant
                i <= tracks@.len(),
                in_bases@.len() == i,
                forall|j: int| 0 <= j < i ==> in_bases@[j] == tracks@[j].time_base,
            decreases tracks.len() - i,
        {
            in_bases.push(tracks[i].time_base);
            i = i + 1;
        }
        SplitSession { routing, in_bases, tracks: Ghost(tracks@) }
    }

    /// Number of output containers: one per audio track.
    pub fn outputs(&self) -> (r: usize)
        requires
            self.wf(),
        ensures
            r == audio_count(self.tracks@),
    {
        self.routing.outputs
    }

    /// The output container of input track `track`, if it is an audio track.
    pub fn destination(&self, track: usize) -> (r: Option<usize>)
        requires
            self.wf(),
        ensures
            r == (if track < self.tracks@.len() && self.tracks@[track as int].kind == MediaKind::Audio {
                Some(split_output(self.tracks@, track as int))
            } else {
                None
            }),
    {
        proof {
            if track < self.tracks@.len() {
                assert(self.routing.routes@[track as int] == route_of(
                    self.tracks@,
                    track as int,
                    RoutePolicy::AudioOnly,
                ));
            }
        }
        self.routing.destination(track)
    }

    /// Decides what to do with packet `p`; `out_bases[o]` is the time base of
    /// the single stream of output container `o` as the muxer set it.
    pub fn on_packet(&self, p: &PacketInfo, out_bases: &Vec<TimeBase>) -> (a: SplitAction)
        requires
            self.wf(),
            out_bases@.len() == self.routing.outputs,
        ensures
            a == if is_audio_packet(self.tracks@, *p) {
                let output = split_output(self.tracks@, p.track as int);
                let src = self.tracks@[p.track as int].time_base;
                let dst = out_bases@[output as int];
                SplitAction::Write {
                    output,
                    pts: moved_ts(p.pts, src, dst),
                    dts: moved_ts(p.dts, src, dst),
                }
            } else {
                SplitAction::Drop
            },
    {
        match self.destination(p.track) {
            None => SplitAction::Drop,
            Some(output) => {
                proof {
                    assert(self.routing.routes@[p.track as int] == route_of(
                        self.tracks@,
                        p.track as int,
                        RoutePolicy::AudioOnly,
                    ));
                }
                let src = self.in_bases[p.track];
                let dst = out_bases[output];
                let pts = match p.pts {
                    Some(t) => rescale(t, src, dst),
                    None => None,
                };
                let dts = match p.dts {
                    Some(t) => rescale(t, src, dst),
                    None => None,
                };
                SplitAction::Write { output, pts, dts }
            },
        }
    }
}

/// The writes of a split of `packets` over `tracks`, without the payloads:
/// which packets go to which output container, in the order they are written.
pub fn plan_split(tracks: &Vec<TrackInfo>, packets: &Vec<PacketInfo>) -> (r: Vec<Delivery>)
    ensures
        r@ == split_writes(tracks@, packets@, packets@.len() as int),
{
    let session = SplitSession::new(tracks);
    let mut out: Vec<Delivery> = Vec::new();
    let mut i: usize = 0;
    while i < packets.len()
        invariant
            i <= packets@.len(),
            session.wf(),
            session.tracks@ == tracks@,
            out@ == split_writes(tracks@, packets@, i as int),
        decreases packets.len() - i,
    {
        let p = packets[i];
        match session.destination(p.track) {
            Some(output) => {
                out.push(Delivery { packet: i, output });
            },
            None => {},
        }
        i = i + 1;
    }
    out
}

} // verus!
