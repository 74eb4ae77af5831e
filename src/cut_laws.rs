use vstd::prelude::*;
use crate::cut::{
    cut_start, cut_state, cut_step, cut_verdict, cut_writes, first_forward, first_video_packet,
    is_routed, is_video_packet, lemma_video_track_is_video, video_track,
};
use crate::media::{PacketInfo, TrackInfo};
use crate::trim::{exceeds, reaches, TrimMode, Verdict};

verus! {

pub(crate) proof fn lemma_state_step(tracks: Seq<TrackInfo>, skip_us: i64, duration_us: i64, ps: Seq<PacketInfo>, n: int)
    requires
        0 <= n < ps.len(),
    ensures
        cut_state(tracks, cut_start(tracks, skip_us, duration_us), ps.take(n + 1)) == cut_step(
            tracks,
            cut_state(tracks, cut_start(tracks, skip_us, duration_us), ps.take(n)),
            ps[n],
        ).0,
{
    assert(ps.take(n + 1).drop_last() =~= ps.take(n));
    assert(ps.take(n + 1).last() == ps[n]);
}

proof fn lemma_video_routed(tracks: Seq<TrackInfo>, p: PacketInfo)
    requires
        is_video_packet(tracks, p),
    ensures
        is_routed(tracks, p),
{
    lemma_video_track_is_video(tracks);
}

/// What the trim state records after the first `n` packets of a cut.
proof fn lemma_cut_invariant(tracks: Seq<TrackInfo>, skip_us: i64, duration_us: i64, ps: Seq<PacketInfo>, n: int)
    requires
        0 <= n <= ps.len(),
    ensures
        ({
            let s0 = cut_start(tracks, skip_us, duration_us);
            let s = cut_state(tracks, s0, ps.take(n));
            &&& s.skip_us == skip_us
            &&& s.duration_us == duration_us
            &&& s.time_base == s0.time_base
            &&& (s.mode == TrimMode::Skipping <==> forall|k: int|
                0 <= k < n ==> cut_verdict(tracks, s0, ps, k) != Verdict::Forward)
            &&& (s.mode != TrimMode::Skipping ==> forall|f: int|
                #![trigger first_forward(tracks, s0, ps, f)]
                first_forward(tracks, s0, ps, f) && f < n ==> s.segment_start as int == ps[f].time())
            &&& (s.stream_start is None <==> forall|k: int|
                0 <= k < n ==> !is_video_packet(tracks, ps[k]))
            &&& (s.stream_start is Some ==> forall|v: int|
                #![trigger first_video_packet(tracks, ps, v)]
                first_video_packet(tracks, ps, v) && v < n ==> s.stream_start->0 as int == ps[v].time())
            &&& (duration_us <= 0 ==> s.mode != TrimMode::Halted)
            &&& (forall|k: int|
                0 <= k < n && cut_verdict(tracks, s0, ps, k) == Verdict::Halt ==> s.mode == TrimMode::Halted)
            &&& (s.mode == TrimMode::Halted ==> exists|k: int|
                0 <= k < n && cut_verdict(tracks, s0, ps, k) == Verdict::Halt)
        }),
    decreases n,
{
    let s0 = cut_start(tracks, skip_us, duration_us);
    if n == 0 {
        assert(ps.take(0).len() == 0);
    } else {
        let m = n - 1;
        lemma_cut_invariant(tracks, skip_us, duration_us, ps, m);
        lemma_state_step(tracks, skip_us, duration_us, ps, m);
        let s = cut_state(tracks, s0, ps.take(m));
        let s1 = cut_state(tracks, s0, ps.take(n));
        let p = ps[m];
        let v = cut_verdict(tracks, s0, ps, m);
        assert(v == cut_step(tracks, s, p).1);
        if is_video_packet(tracks, p) {
            lemma_video_routed(tracks, p);
        }
        assert((s1.mode == TrimMode::Skipping) == (forall|k: int|
            0 <= k < n ==> cut_verdict(tracks, s0, ps, k) != Verdict::Forward)) by {
            if s1.mode == TrimMode::Skipping {
                assert(s.mode == TrimMode::Skipping);
                assert(v != Verdict::Forward);
            } else if s.mode == TrimMode::Skipping {
                assert(v == Verdict::Forward);
            } else {
                let k0 = choose|k: int| 0 <= k < m && cut_verdict(tracks, s0, ps, k) == Verdict::Forward;
                assert(0 <= k0 < n && cut_verdict(tracks, s0, ps, k0) == Verdict::Forward);
            }
        }
        if s1.mode != TrimMode::Skipping {
            assert forall|f: int| #![trigger first_forward(tracks, s0, ps, f)]
                first_forward(tracks, s0, ps, f) && f < n implies s1.segment_start as int == ps[f].time() by {
                if s.mode == TrimMode::Skipping {
                    if f < m {
                        assert(cut_verdict(tracks, s0, ps, f) != Verdict::Forward);
                    }
                } else {
                    if f == m {
                        assert(forall|k: int| 0 <= k < m ==> cut_verdict(tracks, s0, ps, k) != Verdict::Forward);
                    }
                }
            }
        }
        assert((s1.stream_start is None) == (forall|k: int|
            0 <= k < n ==> !is_video_packet(tracks, ps[k]))) by {
            if s1.stream_start is None {
                assert(s.stream_start is None);
                assert(!is_video_packet(tracks, p));
            } else if s.stream_start is None {
                assert(is_video_packet(tracks, p));
            } else {
                let k0 = choose|k: int| 0 <= k < m && is_video_packet(tracks, ps[k]);
                assert(0 <= k0 < n && is_video_packet(tracks, ps[k0]));
            }
        }
        if s1.mode == TrimMode::Halted {
            if s.mode == TrimMode::Halted {
                let k0 = choose|k: int| 0 <= k < m && cut_verdict(tracks, s0, ps, k) == Verdict::Halt;
                assert(0 <= k0 < n && cut_verdict(tracks, s0, ps, k0) == Verdict::Halt);
            } else {
                assert(v == Verdict::Halt);
            }
        }
        if s1.stream_start is Some {
            assert forall|w: int| #![trigger first_video_packet(tracks, ps, w)]
                first_video_packet(tracks, ps, w) && w < n implies s1.stream_start->0 as int == ps[w].time() by {
                if w == m {
                    assert(forall|k: int| 0 <= k < m ==> !is_video_packet(tracks, ps[k]));
                } else {
                    assert(is_video_packet(tracks, ps[w]));
                }
            }
        }
    }
}

/// The first packet a cut writes is a keyframe of the first video track, and
/// its time lies at least the skip offset after the first video packet.
pub proof fn lemma_cut_starts_at_keyframe(
    tracks: Seq<TrackInfo>,
    skip_us: i64,
    duration_us: i64,
    ps: Seq<PacketInfo>,
    f: int,
    v: int,
)
    requires
        first_forward(tracks, cut_start(tracks, skip_us, duration_us), ps, f),
        first_video_packet(tracks, ps, v),
    ensures
        is_video_packet(tracks, ps[f]),
        ps[f].key,
        v <= f,
        reaches(ps[v].time(), ps[f].time(), cut_start(tracks, skip_us, duration_us).time_base, skip_us as int),
{
    let s0 = cut_start(tracks, skip_us, duration_us);
    lemma_cut_invariant(tracks, skip_us, duration_us, ps, f);
    let s = cut_state(tracks, s0, ps.take(f));
    assert(s.mode == TrimMode::Skipping);
    if is_video_packet(tracks, ps[f]) {
        lemma_video_routed(tracks, ps[f]);
    }
    assert(is_video_packet(tracks, ps[f]));
    if v > f {
        assert(!is_video_packet(tracks, ps[f]));
    }
    if v < f {
        assert(first_video_packet(tracks, ps, v) && v < f);
        assert(s.stream_start is Some);
    } else {
        assert(s.stream_start is None);
    }
}

/// Packet `f` is the first one written and packet `h` the first that ends
/// the segment.
pub open spec fn first_halt(tracks: Seq<TrackInfo>, skip_us: i64, duration_us: i64, ps: Seq<PacketInfo>, h: int) -> bool {
    let s0 = cut_start(tracks, skip_us, duration_us);
    &&& 0 <= h < ps.len()
    &&& cut_verdict(tracks, s0, ps, h) == Verdict::Halt
    &&& forall|k: int| 0 <= k < h ==> cut_verdict(tracks, s0, ps, k) != Verdict::Halt
}

pub open spec fn bases_valid(tracks: Seq<TrackInfo>) -> bool {
    forall|i: int| 0 <= i < tracks.len() ==> tracks[i].time_base.valid()
}

/// With a positive duration, every video packet written lies at most the
/// duration after the first packet written.
pub proof fn lemma_cut_within_duration(
    tracks: Seq<TrackInfo>,
    skip_us: i64,
    duration_us: i64,
    ps: Seq<PacketInfo>,
    f: int,
    i: int,
)
    requires
        bases_valid(tracks),
        duration_us > 0,
        first_forward(tracks, cut_start(tracks, skip_us, duration_us), ps, f),
        0 <= i < ps.len(),
        cut_verdict(tracks, cut_start(tracks, skip_us, duration_us), ps, i) == Verdict::Forward,
        is_video_packet(tracks, ps[i]),
    ensures
        f <= i,
        !exceeds(ps[f].time(), ps[i].time(), cut_start(tracks, skip_us, duration_us).time_base, duration_us as int),
{
    let s0 = cut_start(tracks, skip_us, duration_us);
    lemma_cut_invariant(tracks, skip_us, duration_us, ps, i);
    lemma_video_track_is_video(tracks);
    lemma_video_routed(tracks, ps[i]);
    let s = cut_state(tracks, s0, ps.take(i));
    let tb = s0.time_base;
    assert(tb.valid());
    if s.mode == TrimMode::Skipping {
        if f < i {
            assert(cut_verdict(tracks, s0, ps, f) != Verdict::Forward);
        }
        if f > i {
            assert(cut_verdict(tracks, s0, ps, i) != Verdict::Forward);
        }
        assert(f == i);
        assert((ps[i].time() - ps[i].time()) * tb.num * 1_000_000 == 0);
        assert(duration_us as int * tb.den > 0) by (nonlinear_arith)
            requires duration_us > 0, tb.den > 0;
    } else {
        let k0 = choose|k: int| 0 <= k < i && cut_verdict(tracks, s0, ps, k) == Verdict::Forward;
        if f >= i {
            assert(cut_verdict(tracks, s0, ps, k0) != Verdict::Forward);
        }
    }
}

/// With a positive duration, the run ends on a video packet that lies more
/// than the duration after the first packet written.
pub proof fn lemma_cut_halts_past_duration(
    tracks: Seq<TrackInfo>,
    skip_us: i64,
    duration_us: i64,
    ps: Seq<PacketInfo>,
    f: int,
    h: int,
)
    requires
        first_forward(tracks, cut_start(tracks, skip_us, duration_us), ps, f),
        first_halt(tracks, skip_us, duration_us, ps, h),
    ensures
        duration_us > 0,
        f < h,
        is_video_packet(tracks, ps[h]),
        exceeds(ps[f].time(), ps[h].time(), cut_start(tracks, skip_us, duration_us).time_base, duration_us as int),
{
    let s0 = cut_start(tracks, skip_us, duration_us);
    lemma_cut_invariant(tracks, skip_us, duration_us, ps, h);
    let s = cut_state(tracks, s0, ps.take(h));
    if is_video_packet(tracks, ps[h]) {
        lemma_video_routed(tracks, ps[h]);
    }
    if s.mode == TrimMode::Halted {
        let k0 = choose|k: int| 0 <= k < h && cut_verdict(tracks, s0, ps, k) == Verdict::Halt;
        assert(cut_verdict(tracks, s0, ps, k0) != Verdict::Halt);
    }
    assert(s.mode == TrimMode::Forwarding);
    let k0 = choose|k: int| 0 <= k < h && cut_verdict(tracks, s0, ps, k) == Verdict::Forward;
    if f >= h {
        assert(cut_verdict(tracks, s0, ps, k0) != Verdict::Forward);
    }
}

/// With a positive duration, a video packet after the first packet written
/// that lies more than the duration after it is not written: it ends the run.
pub proof fn lemma_cut_halts_on_excess(
    tracks: Seq<TrackInfo>,
    skip_us: i64,
    duration_us: i64,
    ps: Seq<PacketInfo>,
    f: int,
    i: int,
)
    requires
        duration_us > 0,
        first_forward(tracks, cut_start(tracks, skip_us, duration_us), ps, f),
        f < i < ps.len(),
        is_video_packet(tracks, ps[i]),
        exceeds(ps[f].time(), ps[i].time(), cut_start(tracks, skip_us, duration_us).time_base, duration_us as int),
    ensures
        cut_verdict(tracks, cut_start(tracks, skip_us, duration_us), ps, i) == Verdict::Halt,
{
    let s0 = cut_start(tracks, skip_us, duration_us);
    lemma_cut_invariant(tracks, skip_us, duration_us, ps, i);
    lemma_video_routed(tracks, ps[i]);
    let s = cut_state(tracks, s0, ps.take(i));
    assert(s.mode != TrimMode::Skipping);
}

/// Once a packet ends the segment, no later packet is written.
pub proof fn lemma_cut_nothing_after_halt(
    tracks: Seq<TrackInfo>,
    skip_us: i64,
    duration_us: i64,
    ps: Seq<PacketInfo>,
    h: int,
    j: int,
)
    requires
        0 <= h < j < ps.len(),
        cut_verdict(tracks, cut_start(tracks, skip_us, duration_us), ps, h) == Verdict::Halt,
    ensures
        cut_verdict(tracks, cut_start(tracks, skip_us, duration_us), ps, j) != Verdict::Forward,
{
    lemma_cut_invariant(tracks, skip_us, duration_us, ps, j);
}

/// With a duration of zero or less, nothing ends the run, and every routed
/// packet from the first one written to the end of the input is written.
pub proof fn lemma_cut_unbounded(
    tracks: Seq<TrackInfo>,
    skip_us: i64,
    duration_us: i64,
    ps: Seq<PacketInfo>,
    f: int,
    i: int,
)
    requires
        duration_us <= 0,
        first_forward(tracks, cut_start(tracks, skip_us, duration_us), ps, f),
        0 <= i < ps.len(),
    ensures
        cut_verdict(tracks, cut_start(tracks, skip_us, duration_us), ps, i) != Verdict::Halt,
        f <= i && is_routed(tracks, ps[i]) ==> cut_verdict(
            tracks,
            cut_start(tracks, skip_us, duration_us),
            ps,
            i,
        ) == Verdict::Forward,
{
    let s0 = cut_start(tracks, skip_us, duration_us);
    lemma_cut_invariant(tracks, skip_us, duration_us, ps, i);
    let s = cut_state(tracks, s0, ps.take(i));
    if f < i {
        assert(s.mode != TrimMode::Skipping);
    }
}

pub(crate) proof fn lemma_writes_stop(
    tracks: Seq<TrackInfo>,
    skip_us: i64,
    duration_us: i64,
    ps: Seq<PacketInfo>,
    h: int,
    n: int,
)
    requires
        0 <= h < n <= ps.len(),
        cut_verdict(tracks, cut_start(tracks, skip_us, duration_us), ps, h) == Verdict::Halt,
    ensures
        cut_writes(tracks, cut_start(tracks, skip_us, duration_us), ps, n) == cut_writes(
            tracks,
            cut_start(tracks, skip_us, duration_us),
            ps,
            h,
        ),
    decreases n,
{
    let s0 = cut_start(tracks, skip_us, duration_us);
    if n - 1 > h {
        lemma_writes_stop(tracks, skip_us, duration_us, ps, h, n - 1);
        lemma_cut_nothing_after_halt(tracks, skip_us, duration_us, ps, h, n - 1);
    }
    assert(cut_writes(tracks, s0, ps, n) =~= cut_writes(tracks, s0, ps, n - 1));
}

/// A cut writes packets in input order: the packet indices of its writes
/// strictly increase, so each track keeps its order.
pub proof fn lemma_cut_writes_ordered(
    tracks: Seq<TrackInfo>,
    skip_us: i64,
    duration_us: i64,
    ps: Seq<PacketInfo>,
    n: int,
)
    requires
        0 <= n <= ps.len(),
        ps.len() <= usize::MAX,
    ensures
        forall|a: int, b: int|
            0 <= a < b < cut_writes(tracks, cut_start(tracks, skip_us, duration_us), ps, n).len()
                ==> cut_writes(tracks, cut_start(tracks, skip_us, duration_us), ps, n)[a].packet
                < cut_writes(tracks, cut_start(tracks, skip_us, duration_us), ps, n)[b].packet,
        forall|a: int|
            0 <= a < cut_writes(tracks, cut_start(tracks, skip_us, duration_us), ps, n).len()
                ==> cut_writes(tracks, cut_start(tracks, skip_us, duration_us), ps, n)[a].packet < n,
    decreases n,
{
    if n > 0 {
        let s0 = cut_start(tracks, skip_us, duration_us);
        lemma_cut_writes_ordered(tracks, skip_us, duration_us, ps, n - 1);
        let w = cut_writes(tracks, s0, ps, n - 1);
        let all = cut_writes(tracks, s0, ps, n);
        assert forall|a: int| 0 <= a < all.len() implies all[a].packet < n && (a < w.len() ==> all[a] == w[a])
            && (a >= w.len() ==> all[a].packet == n - 1) by {
            if a < w.len() {
                assert(all[a] == w[a]);
            }
        }
    }
}

} // verus!
