//! Compressed audio packets and their mathematical model.
//!
//! A packet is one compressed access unit: an owned copy of its payload
//! bytes together with its timing metadata. Timestamps are tick counts of
//! the stream's timebase; an unset timestamp is `None`, never a sentinel
//! number.

use vstd::prelude::*;

verus! {

/// The model of a packet: the same fields with the payload as a `Seq`.
pub struct PacketModel {
    pub pts: Option<i64>,
    pub dts: Option<i64>,
    pub duration: Option<i64>,
    pub flags: i32,
    pub data: Seq<u8>,
}

/// One compressed access unit with timing metadata and an owned payload.
pub struct Packet {
    /// Presentation timestamp, in ticks of the stream timebase.
    pub pts: Option<i64>,
    /// Decode timestamp, in ticks of the stream timebase.
    pub dts: Option<i64>,
    /// Duration in ticks; `None` when the demuxer left it unset.
    pub duration: Option<i64>,
    /// Container flags, carried through unread.
    pub flags: i32,
    /// The payload, copied out of the demuxer's transient buffer.
    pub data: Vec<u8>,
}

impl View for Packet {
    type V = PacketModel;

    open spec fn view(&self) -> PacketModel {
        PacketModel {
            pts: self.pts,
            dts: self.dts,
            duration: self.duration,
            flags: self.flags,
            data: self.data@,
        }
    }
}

/// The presentation timestamp used for boundary comparisons: an unset
/// timestamp counts as zero there, and only there.
pub open spec fn eff_pts(p: PacketModel) -> int {
    match p.pts {
        Some(v) => v as int,
        None => 0,
    }
}

/// The models of a sequence of packets.
pub open spec fn models(s: Seq<Packet>) -> Seq<PacketModel> {
    s.map_values(|p: Packet| p@)
}

/// An owned copy of a byte buffer, element for element.
pub fn copy_bytes(v: &Vec<u8>) -> (r: Vec<u8>)
    ensures
        r@ == v@,
{
    let mut r: Vec<u8> = Vec::new();
    let mut i: usize = 0;
    while i < v.len()
        invariant
            0 <= i <= v.len(),
            r@ == v@.subrange(0, i as int),
        decreases v.len() - i,
    {
        r.push(v[i]);
        proof {
            assert(r@ =~= v@.subrange(0, i + 1));
        }
        i += 1;
    }
    proof {
        assert(r@ =~= v@);
    }
    r
}

impl Packet {
    /// A deep copy: the payload bytes are duplicated, since the source
    /// buffer they came from may be reused by the demuxer.
    pub fn deep_copy(&self) -> (r: Packet)
        ensures
            r@ == self@,
    {
        Packet {
            pts: self.pts,
            dts: self.dts,
            duration: self.duration,
            flags: self.flags,
            data: copy_bytes(&self.data),
        }
    }
}

} // verus!
