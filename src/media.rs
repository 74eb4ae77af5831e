use vstd::prelude::*;

verus! {

/// The kind of an elementary stream in a container.
#[derive(Clone, Copy, Debug, PartialEq, Eq, Structural)]
pub enum MediaKind {
    Video,
    Audio,
    Subtitle,
    Other,
}

/// A rational time base: one timestamp unit lasts `num / den` seconds.
#[derive(Clone, Copy, Debug, PartialEq, Eq, Structural)]
pub struct TimeBase {
    pub num: i32,
    pub den: i32,
}

impl TimeBase {
    /// A time base that denotes a positive duration.
    pub open spec fn valid(self) -> bool {
        self.num > 0 && self.den > 0
    }

    pub fn new(num: i32, den: i32) -> (r: TimeBase)
        ensures
            r.num == num,
            r.den == den,
    {
        TimeBase { num, den }
    }

    pub fn is_valid(&self) -> (r: bool)
        ensures
            r == self.valid(),
    {
        self.num > 0 && self.den > 0
    }
}

/// What the remuxing logic reads of an input track.
#[derive(Clone, Copy, Debug, PartialEq, Eq, Structural)]
pub struct TrackInfo {
    pub kind: MediaKind,
    pub time_base: TimeBase,
}

/// What the remuxing logic reads of a demuxed packet. The payload never
/// leaves the caller.
#[derive(Clone, Copy, Debug, PartialEq, Eq, Structural)]
pub struct PacketInfo {
    /// Index of the input track the packet belongs to.
    pub track: usize,
    /// Presentation timestamp, in the track's time base.
    pub pts: Option<i64>,
    /// Decode timestamp, in the track's time base.
    pub dts: Option<i64>,
    /// Whether the packet is decodable on its own.
    pub key: bool,
}

impl PacketInfo {
    /// The presentation time used for trimming; an absent timestamp counts as zero.
    pub open spec fn time(self) -> int {
        match self.pts {
            Some(t) => t as int,
            None => 0,
        }
    }

    pub fn time_ticks(&self) -> (r: i64)
        ensures
            r as int == self.time(),
    {
        match self.pts {
            Some(t) => t,
            None => 0,
        }
    }
}

} // verus!

verus! {

/// One packet handed to one output: the packet's index in the input order
/// and the index of its destination.
#[derive(Clone, Copy, Debug, PartialEq, Eq, Structural)]
pub struct Delivery {
    pub packet: usize,
    pub output: usize,
}

} // verus!
