use vstd::prelude::*;
use crate::media::{MediaKind, TrackInfo};

verus! {

/// Which input tracks an operation keeps.
#[derive(Clone, Copy, Debug, PartialEq, Eq, Structural)]
pub enum RoutePolicy {
    /// Keep video, audio and subtitle tracks, all into one output container.
    AllMedia,
    /// Keep audio tracks, each into an output container of its own.
    AudioOnly,
}

pub open spec fn keeps(policy: RoutePolicy, kind: MediaKind) -> bool {
    match policy {
        RoutePolicy::AllMedia => kind != MediaKind::Other,
        RoutePolicy::AudioOnly => kind == MediaKind::Audio,
    }
}

/// Number of tracks among the first `n` that `policy` keeps.
pub open spec fn kept_before(tracks: Seq<TrackInfo>, n: int, policy: RoutePolicy) -> nat
    decreases n,
{
    if n <= 0 {
        0
    } else {
        kept_before(tracks, n - 1, policy) + if keeps(policy, tracks[n - 1].kind) {
            1nat
        } else {
            0nat
        }
    }
}

/// The count of kept tracks grows with the prefix, and by at most one per track.
pub proof fn lemma_kept_before_mono(tracks: Seq<TrackInfo>, policy: RoutePolicy, j: int, k: int)
    requires
        0 <= j <= k,
    ensures
        kept_before(tracks, j, policy) <= kept_before(tracks, k, policy),
        kept_before(tracks, k, policy) <= kept_before(tracks, j, policy) + (k - j),
    decreases k - j,
{
    if j < k {
        lemma_kept_before_mono(tracks, policy, j, k - 1);
    }
}

/// The destination of track `i`: the number of kept tracks before it, or
/// `None` when the track is dropped.
pub open spec fn route_of(tracks: Seq<TrackInfo>, i: int, policy: RoutePolicy) -> Option<usize> {
    if keeps(policy, tracks[i].kind) {
        Some(kept_before(tracks, i, policy) as usize)
    } else {
        None
    }
}

/// `v` is the first video track.
pub open spec fn is_first_video(tracks: Seq<TrackInfo>, v: int) -> bool {
    0 <= v < tracks.len() && tracks[v].kind == MediaKind::Video && forall|j: int|
        0 <= j < v ==> tracks[j].kind != MediaKind::Video
}

/// The first video track, which alone drives trim alignment.
pub open spec fn first_video(tracks: Seq<TrackInfo>, v: Option<usize>) -> bool {
    match v {
        Some(v) => is_first_video(tracks, v as int),
        None => forall|j: int| 0 <= j < tracks.len() ==> tracks[j].kind != MediaKind::Video,
    }
}

/// The routing table of a run, fixed before the first packet is read.
#[derive(Debug)]
pub struct Routing {
    /// One entry per input track: the destination index, or `None` when dropped.
    pub routes: Vec<Option<usize>>,
    /// Number of destinations.
    pub outputs: usize,
    /// The first video track, if any.
    pub video: Option<usize>,
}

impl Routing {
    /// The table that `policy` gives for `tracks`.
    pub open spec fn is_routing_of(&self, tracks: Seq<TrackInfo>, policy: RoutePolicy) -> bool {
        &&& self.routes@.len() == tracks.len()
        &&& forall|i: int| 0 <= i < tracks.len() ==> self.routes@[i] == route_of(tracks, i, policy)
        &&& self.outputs == kept_before(tracks, tracks.len() as int, policy)
        &&& first_video(tracks, self.video)
    }

    /// Destinations are dense and below `outputs`.
    pub open spec fn wf(&self) -> bool {
        forall|i: int|
            0 <= i < self.routes@.len() && self.routes@[i] is Some ==> (self.routes@[i]->0 as int)
                < self.outputs
    }

    /// Builds the routing table: kept tracks get destinations 0, 1, ... in
    /// input order; the first video track is recorded.
    pub fn new(tracks: &Vec<TrackInfo>, policy: RoutePolicy) -> (r: Routing)
        ensures
            r.is_routing_of(tracks@, policy),
            r.wf(),
    {
        let mut routes: Vec<Option<usize>> = Vec::new();
        let mut count: usize = 0;
        let mut video: Option<usize> = None;
        let mut i: usize = 0;
        while i < tracks.len()
            invariant
                i <= tracks@.len(),
                routes@.len() == i,
                count == kept_before(tracks@, i as int, policy),
                count <= i,
                forall|j: int| 0 <= j < i ==> routes@[j] == route_of(tracks@, j, policy),
                forall|j: int| 0 <= j < i && routes@[j] is Some ==> (routes@[j]->0 as int) < count,
                match video {
                    Some(v) => is_first_video(tracks@, v as int) && v < i,
                    None => forall|j: int| 0 <= j < i ==> tracks@[j].kind != MediaKind::Video,
                },
            decreases tracks.len() - i,
        {
            let kind = tracks[i].kind;
            let keep = match policy {
                RoutePolicy::AllMedia => !matches!(kind, MediaKind::Other),
                RoutePolicy::AudioOnly => matches!(kind, MediaKind::Audio),
            };
            if keep {
                routes.push(Some(count));
                count = count + 1;
            } else {
                routes.push(None);
            }
            if video.is_none() && matches!(kind, MediaKind::Video) {
                video = Some(i);
            }
            i = i + 1;
        }
        Routing { routes, outputs: count, video }
    }

    /// The destination of input track `track`; `None` when it is dropped or
    /// out of range.
    pub fn destination(&self, track: usize) -> (r: Option<usize>)
        ensures
            r == (if track < self.routes@.len() { self.routes@[track as int] } else { None }),
    {
        if track < self.routes.len() {
            self.routes[track]
        } else {
            None
        }
    }
}

} // verus!
