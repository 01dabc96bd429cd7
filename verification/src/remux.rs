//! The compute half of writing a batch: timestamp conversion.
//!
//! Before a finalized batch is handed to a container writer, every packet's
//! pts, dts and duration are rescaled from the source timebase to the output
//! stream's timebase. An unset pts or dts stays unset through the rescale;
//! an unset duration is normalized to zero afterwards, so that the writer
//! never sees a sentinel there.

use vstd::prelude::*;

use crate::packet::Packet;
use crate::packet::PacketModel;
use crate::timing::Rational;
use crate::timing::rescale_spec;
use crate::timing::rescale_ts;
use crate::timing::ts_rescalable;
use crate::timing::ts_rescalable_check;
use crate::packet::copy_bytes;

verus! {

/// Every set timestamp of `p` can be carried from `src` to `dst`.
pub open spec fn packet_rescalable(p: PacketModel, src: Rational, dst: Rational) -> bool {
    &&& (p.pts matches Some(v) ==> ts_rescalable(v, src, dst))
    &&& (p.dts matches Some(v) ==> ts_rescalable(v, src, dst))
    &&& (p.duration matches Some(v) ==> ts_rescalable(v, src, dst))
}

/// The model of a packet after rescaling: set timestamps are rescaled,
/// unset pts and dts stay unset, and an unset duration becomes zero.
pub open spec fn rescaled_packet(p: PacketModel, src: Rational, dst: Rational) -> PacketModel {
    PacketModel {
        pts: match p.pts {
            Some(v) => Some(rescale_spec(v as int, src, dst) as i64),
            None => None,
        },
        dts: match p.dts {
            Some(v) => Some(rescale_spec(v as int, src, dst) as i64),
            None => None,
        },
        duration: match p.duration {
            Some(v) => Some(rescale_spec(v as int, src, dst) as i64),
            None => Some(0i64),
        },
        flags: p.flags,
        data: p.data,
    }
}

/// Rescale one set-or-unset timestamp, keeping `None` as `None`.
fn rescale_opt(t: Option<i64>, src: Rational, dst: Rational) -> (r: Option<i64>)
    requires
        src.wf(),
        dst.wf(),
        t matches Some(v) ==> ts_rescalable(v, src, dst),
    ensures
        r == match t {
            Some(v) => Some(rescale_spec(v as int, src, dst) as i64),
            None => None::<i64>,
        },
{
    match t {
        Some(v) => Some(rescale_ts(v, src, dst)),
        None => None,
    }
}

/// Rescale one packet's timing from `src` to `dst`. The payload is copied,
/// not shared, so the original batch stays intact.
pub fn rescale_packet(p: &Packet, src: Rational, dst: Rational) -> (r: Packet)
    requires
        src.wf(),
        dst.wf(),
        packet_rescalable(p@, src, dst),
    ensures
        r@ == rescaled_packet(p@, src, dst),
{
    let duration: Option<i64> = match rescale_opt(p.duration, src, dst) {
        Some(d) => Some(d),
        None => Some(0),
    };
    Packet {
        pts: rescale_opt(p.pts, src, dst),
        dts: rescale_opt(p.dts, src, dst),
        duration,
        flags: p.flags,
        data: copy_bytes(&p.data),
    }
}

/// Every packet of the batch is rescalable from `src` to `dst`.
pub open spec fn batch_rescalable(batch: Seq<PacketModel>, src: Rational, dst: Rational) -> bool {
    forall|i: int| 0 <= i < batch.len() ==> packet_rescalable(#[trigger] batch[i], src, dst)
}

/// Decide `batch_rescalable` for a concrete batch.
pub fn batch_rescalable_check(batch: &Vec<Packet>, src: Rational, dst: Rational) -> (b: bool)
    requires
        src.wf(),
        dst.wf(),
    ensures
        b == batch_rescalable(crate::packet::models(batch@), src, dst),
{
    let mut i: usize = 0;
    while i < batch.len()
        invariant
            src.wf(),
            dst.wf(),
            0 <= i <= batch.len(),
            forall|j: int| 0 <= j < i ==> packet_rescalable(
                #[trigger] crate::packet::models(batch@)[j],
                src,
                dst,
            ),
        decreases batch.len() - i,
    {
        let p = &batch[i];
        let ok_pts: bool = match p.pts {
            Some(v) => ts_rescalable_check(v, src, dst),
            None => true,
        };
        let ok_dts: bool = match p.dts {
            Some(v) => ts_rescalable_check(v, src, dst),
            None => true,
        };
        let ok_dur: bool = match p.duration {
            Some(v) => ts_rescalable_check(v, src, dst),
            None => true,
        };
        if !(ok_pts && ok_dts && ok_dur) {
            proof {
                assert(!packet_rescalable(crate::packet::models(batch@)[i as int], src, dst));
            }
            return false;
        }
        proof {
            assert(packet_rescalable(crate::packet::models(batch@)[i as int], src, dst));
        }
        i += 1;
    }
    true
}

/// Rescale a whole batch from `src` to `dst`, in order.
pub fn rescale_batch(batch: &Vec<Packet>, src: Rational, dst: Rational) -> (r: Vec<Packet>)
    requires
        src.wf(),
        dst.wf(),
        batch_rescalable(crate::packet::models(batch@), src, dst),
    ensures
        r@.len() == batch@.len(),
        forall|i: int| 0 <= i < batch@.len() ==> (#[trigger] r@[i])@ == rescaled_packet(
            batch@[i]@,
            src,
            dst,
        ),
{
    let mut r: Vec<Packet> = Vec::new();
    let mut i: usize = 0;
    while i < batch.len()
        invariant
            src.wf(),
            dst.wf(),
            batch_rescalable(crate::packet::models(batch@), src, dst),
            0 <= i <= batch.len(),
            r@.len() == i,
            forall|j: int| 0 <= j < i ==> (#[trigger] r@[j])@ == rescaled_packet(
                batch@[j]@,
                src,
                dst,
            ),
        decreases batch.len() - i,
    {
        proof {
            assert(crate::packet::models(batch@)[i as int] == batch@[i as int]@);
        }
        let q = rescale_packet(&batch[i], src, dst);
        r.push(q);
        i += 1;
    }
    r
}

} // verus!
