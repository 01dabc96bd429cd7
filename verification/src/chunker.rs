//! The segment producer: batching packets by elapsed presentation time.
//!
//! `AudioChunks` accumulates the selected stream's packets into batches. A
//! batch closes when an incoming packet's presentation time lies at least
//! one threshold past the batch's first packet; the incoming packet then
//! opens the next batch. At end of stream whatever remains is finalized.
//! Writing a finalized batch into a standalone container is the driver's
//! native-library work; a write failure is recorded here and halts the
//! producer for good.

use vstd::prelude::*;

use crate::packet::Packet;
use crate::packet::PacketModel;
use crate::packet::eff_pts;
use crate::packet::models;
use crate::timing::Rational;
use crate::timing::duration_ticks_spec;
use crate::timing::duration_to_ticks;

verus! {

/// Why a segmentation run stopped. Every kind is terminal for the source:
/// it means unsupported input or a failed native write, never a condition
/// worth retrying.
#[derive(Clone, Copy, Debug, PartialEq, Eq, Structural)]
pub enum ChunkError {
    /// The source path names no existing file.
    FileNotFound,
    /// The source container could not be probed or opened.
    FormatOpenError,
    /// The source holds no audio stream.
    NoAudioStream,
    /// Copying the codec parameter block to the output stream failed.
    ParameterCopyError,
    /// The output format rejected the parameter set while writing the header.
    HeaderWriteError,
    /// Writing a packet into the output container failed.
    PacketWriteError,
    /// Finalizing the output container's trailer failed.
    TrailerWriteError,
    /// Allocating the in-memory output buffer failed.
    BufferAllocError,
}

impl ChunkError {
    /// What each kind means, as one spec-level phrase.
    pub open spec fn message_spec(self) -> Seq<char> {
        match self {
            ChunkError::FileNotFound => "file not found"@,
            ChunkError::FormatOpenError => "could not open container"@,
            ChunkError::NoAudioStream => "no audio stream found"@,
            ChunkError::ParameterCopyError => "could not copy codec parameters"@,
            ChunkError::HeaderWriteError => "could not write header"@,
            ChunkError::PacketWriteError => "could not write packet"@,
            ChunkError::TrailerWriteError => "could not write trailer"@,
            ChunkError::BufferAllocError => "could not allocate output buffer"@,
        }
    }

    /// A short description of the error.
    pub fn message(&self) -> (r: &'static str)
        ensures
            r@ == self.message_spec(),
    {
        match self {
            ChunkError::FileNotFound => "file not found",
            ChunkError::FormatOpenError => "could not open container",
            ChunkError::NoAudioStream => "no audio stream found",
            ChunkError::ParameterCopyError => "could not copy codec parameters",
            ChunkError::HeaderWriteError => "could not write header",
            ChunkError::PacketWriteError => "could not write packet",
            ChunkError::TrailerWriteError => "could not write trailer",
            ChunkError::BufferAllocError => "could not allocate output buffer",
        }
    }
}

/// The incoming packet `pm` closes the open batch `cur`: the batch is
/// non-empty and the packet's presentation time lies at least `thr` ticks
/// past the batch's first packet.
pub open spec fn boundary_at(cur: Seq<PacketModel>, thr: int, pm: PacketModel) -> bool {
    cur.len() > 0 && eff_pts(pm) - eff_pts(cur[0]) >= thr
}

/// `a` and `b` occur as an adjacent pair somewhere in `s`.
pub open spec fn adjacent_in(s: Seq<PacketModel>, a: PacketModel, b: PacketModel) -> bool {
    exists|j: int| 0 <= j < s.len() - 1 && #[trigger] s[j] == a && s[j + 1] == b
}

/// Mapping a pushed packet sequence to models appends the packet's model.
proof fn lemma_models_push(s: Seq<Packet>, p: Packet)
    ensures
        models(s.push(p)) == models(s).push(p@),
{
    assert(models(s.push(p)) =~= models(s).push(p@));
}

/// An adjacent pair stays adjacent when the sequence grows at the end.
proof fn lemma_adjacent_push(s: Seq<PacketModel>, a: PacketModel, b: PacketModel, x: PacketModel)
    requires
        adjacent_in(s, a, b),
    ensures
        adjacent_in(s.push(x), a, b),
{
    let j = choose|j: int| 0 <= j < s.len() - 1 && #[trigger] s[j] == a && s[j + 1] == b;
    assert(s.push(x)[j] == a && s.push(x)[j + 1] == b);
}

/// The fixed parameters of a run: source path, configured duration,
/// selected stream, timebase and derived threshold.
pub open spec fn same_config(a: AudioChunks, b: AudioChunks) -> bool {
    &&& b.path_chars() == a.path_chars()
    &&& b.duration_ms_spec() == a.duration_ms_spec()
    &&& b.audio_stream() == a.audio_stream()
    &&& b.time_base_spec() == a.time_base_spec()
    &&& b.threshold_ticks() == a.threshold_ticks()
}

/// The producer of packet batches for one source.
///
/// The ghost history records every accepted packet of the selected stream
/// (`seen`) and every finalized batch (`batches`); the well-formedness
/// invariant ties the two together: the finalized batches followed by the
/// open batch partition the accepted packets, no finalized batch is empty,
/// each batch spans less than one threshold, and consecutive batch heads
/// are at least one threshold apart.
pub struct AudioChunks {
    path: String,
    chunk_duration_ms: u64,
    audio_stream_index: usize,
    time_base: Rational,
    chunk_duration_tb: i64,
    current_packets: Vec<Packet>,
    chunk_start_pts: Option<i64>,
    exhausted: bool,
    failure: Option<ChunkError>,
    seen: Ghost<Seq<PacketModel>>,
    batches: Ghost<Seq<Seq<PacketModel>>>,
}

impl AudioChunks {
    /// Every packet of the selected stream handed in so far, in order.
    pub closed spec fn accepted(self) -> Seq<PacketModel> {
        self.seen@
    }

    /// Every finalized batch so far, in order.
    pub closed spec fn emitted(self) -> Seq<Seq<PacketModel>> {
        self.batches@
    }

    /// The batch currently being filled.
    pub closed spec fn current_batch(self) -> Seq<PacketModel> {
        models(self.current_packets@)
    }

    /// The boundary threshold, in ticks of the stream timebase.
    pub closed spec fn threshold_ticks(self) -> int {
        self.chunk_duration_tb as int
    }

    /// The index of the selected audio stream.
    pub closed spec fn audio_stream(self) -> usize {
        self.audio_stream_index
    }

    /// The configured chunk duration, in milliseconds.
    pub closed spec fn duration_ms_spec(self) -> u64 {
        self.chunk_duration_ms
    }

    /// The source path this run was opened for.
    pub closed spec fn path_chars(self) -> Seq<char> {
        self.path@
    }

    /// The selected stream's timebase.
    pub closed spec fn time_base_spec(self) -> Rational {
        self.time_base
    }

    /// The producer yields nothing further.
    pub closed spec fn is_exhausted(self) -> bool {
        self.exhausted
    }

    /// The recorded write failure, if any.
    pub closed spec fn failure_spec(self) -> Option<ChunkError> {
        self.failure
    }

    /// The run ended regularly: exhausted, nothing left open, no failure.
    pub open spec fn done(self) -> bool {
        &&& self.is_exhausted()
        &&& self.current_batch().len() == 0
        &&& self.failure_spec() is None
    }

    /// The producer's invariant.
    pub closed spec fn wf(self) -> bool {
        let a = self.seen@;
        let b = self.batches@;
        let cur = models(self.current_packets@);
        let thr = self.chunk_duration_tb as int;
        &&& self.time_base.wf()
        &&& self.chunk_duration_ms >= 1
        &&& self.chunk_duration_tb as int == duration_ticks_spec(
            self.chunk_duration_ms,
            self.time_base,
        )
        &&& (self.failure matches Some(_) ==> self.exhausted)
        // the recorded start is the open batch's first presentation time
        &&& match self.chunk_start_pts {
            Some(s) => cur.len() > 0 && s as int == eff_pts(cur[0]),
            None => cur.len() == 0,
        }
        // no finalized batch is empty
        &&& forall|k: int| 0 <= k < b.len() ==> (#[trigger] b[k]).len() > 0
        // finalized batches plus the open batch partition the accepted packets
        &&& b.flatten() + cur == a
        // within a batch, presentation time stays under one threshold
        &&& forall|k: int, i: int|
            0 <= k < b.len() && 1 <= i < b[k].len() ==> eff_pts(#[trigger] b[k][i]) - eff_pts(
                b[k][0],
            ) < thr
        &&& forall|i: int| 1 <= i < cur.len() ==> eff_pts(#[trigger] cur[i]) - eff_pts(cur[0]) < thr
        // consecutive batch heads are at least one threshold apart
        &&& forall|k: int|
            1 <= k < b.len() ==> eff_pts(#[trigger] b[k][0]) - eff_pts(b[k - 1][0]) >= thr
        &&& (b.len() > 0 && cur.len() > 0 ==> eff_pts(cur[0]) - eff_pts(b.last()[0]) >= thr)
        // each batch head follows the previous batch's tail among the accepted packets
        &&& forall|k: int|
            1 <= k < b.len() ==> adjacent_in(a, (#[trigger] b[k - 1]).last(), b[k][0])
        &&& (b.len() > 0 && cur.len() > 0 ==> adjacent_in(a, b.last().last(), cur[0]))
        // the most recent accepted packet sits at the tail of the open batch,
        // or of the last finalized batch once the open batch is empty
        &&& (cur.len() > 0 ==> a.len() > 0 && a.last() == cur.last())
        &&& (b.len() > 0 && cur.len() == 0 ==> a.len() > 0 && a.last() == b.last().last())
        // while the producer runs, finalizing always reopens a batch
        &&& (!self.exhausted && b.len() > 0 ==> cur.len() > 0)
    }

    /// Start a run over the stream `audio_stream_index` of timebase
    /// `time_base`, closing batches every `chunk_duration_ms` milliseconds
    /// of presentation time.
    pub fn new(
        path: String,
        chunk_duration_ms: u64,
        audio_stream_index: usize,
        time_base: Rational,
    ) -> (r: AudioChunks)
        requires
            chunk_duration_ms >= 1,
            time_base.wf(),
            duration_ticks_spec(chunk_duration_ms, time_base) <= i64::MAX,
        ensures
            r.wf(),
            !r.is_exhausted(),
            r.failure_spec() is None,
            r.accepted() == Seq::<PacketModel>::empty(),
            r.emitted() == Seq::<Seq<PacketModel>>::empty(),
            r.current_batch() == Seq::<PacketModel>::empty(),
            r.path_chars() == path@,
            r.duration_ms_spec() == chunk_duration_ms,
            r.audio_stream() == audio_stream_index,
            r.time_base_spec() == time_base,
            r.threshold_ticks() == duration_ticks_spec(chunk_duration_ms, time_base),
    {
        let chunk_duration_tb: i64 = duration_to_ticks(chunk_duration_ms, time_base);
        let r = AudioChunks {
            path,
            chunk_duration_ms,
            audio_stream_index,
            time_base,
            chunk_duration_tb,
            current_packets: Vec::new(),
            chunk_start_pts: None,
            exhausted: false,
            failure: None,
            seen: Ghost(Seq::empty()),
            batches: Ghost(Seq::empty()),
        };
        proof {
            assert(models(r.current_packets@) =~= Seq::<PacketModel>::empty());
            assert(r.batches@.flatten() =~= Seq::<PacketModel>::empty());
            assert(r.batches@.flatten() + models(r.current_packets@) =~= r.seen@);
        }
        r
    }

    /// The source path this run was opened for.
    pub fn path(&self) -> (r: &String)
        ensures
            r@ == self.path_chars(),
    {
        &self.path
    }

    /// The configured chunk duration, in milliseconds.
    pub fn chunk_duration_ms(&self) -> (r: u64)
        ensures
            r == self.duration_ms_spec(),
    {
        self.chunk_duration_ms
    }

    /// Whether the producer yields anything further.
    pub fn exhausted(&self) -> (r: bool)
        ensures
            r == self.is_exhausted(),
    {
        self.exhausted
    }

    /// The recorded write failure, if any.
    pub fn last_failure(&self) -> (r: Option<ChunkError>)
        ensures
            r == self.failure_spec(),
    {
        self.failure
    }

    /// Hand the producer the next demuxed packet with the index of the
    /// stream it came from. A packet of another stream is discarded. A
    /// packet that closes the open batch returns that batch finalized and
    /// itself opens the next one; any other packet joins the open batch.
    #[verifier::rlimit(60)]
    pub fn push_packet(&mut self, stream_index: usize, p: Packet) -> (r: Option<Vec<Packet>>)
        requires
            old(self).wf(),
            !old(self).is_exhausted(),
        ensures
            final(self).wf(),
            !final(self).is_exhausted(),
            final(self).failure_spec() == old(self).failure_spec(),
            same_config(*old(self), *final(self)),
            stream_index != old(self).audio_stream() ==> {
                &&& r is None
                &&& final(self).accepted() == old(self).accepted()
                &&& final(self).emitted() == old(self).emitted()
                &&& final(self).current_batch() == old(self).current_batch()
            },
            stream_index == old(self).audio_stream() ==> final(self).accepted() == old(
                self,
            ).accepted().push(p@),
            stream_index == old(self).audio_stream() && boundary_at(
                old(self).current_batch(),
                old(self).threshold_ticks(),
                p@,
            ) ==> {
                &&& r matches Some(batch) && models(batch@) == old(self).current_batch()
                &&& final(self).emitted() == old(self).emitted().push(old(self).current_batch())
                &&& final(self).current_batch() == seq![p@]
            },
            stream_index == old(self).audio_stream() && !boundary_at(
                old(self).current_batch(),
                old(self).threshold_ticks(),
                p@,
            ) ==> {
                &&& r is None
                &&& final(self).emitted() == old(self).emitted()
                &&& final(self).current_batch() == old(self).current_batch().push(p@)
            },
    {
        if stream_index != self.audio_stream_index {
            return None;
        }
        let ghost pm = p@;
        let pts_eff: i64 = match p.pts {
            Some(v) => v,
            None => 0,
        };
        let boundary: bool = match self.chunk_start_pts {
            Some(start) => (pts_eff as i128) - (start as i128) >= (self.chunk_duration_tb as i128)
                && self.current_packets.len() > 0,
            None => false,
        };
        proof {
            assert(pts_eff as int == eff_pts(pm));
            assert(boundary == boundary_at(
                old(self).current_batch(),
                old(self).threshold_ticks(),
                pm,
            ));
        }
        if boundary {
            let mut batch: Vec<Packet> = Vec::new();
            core::mem::swap(&mut batch, &mut self.current_packets);
            self.chunk_start_pts = Some(pts_eff);
            self.current_packets.push(p);
            self.seen = Ghost(self.seen@.push(pm));
            self.batches = Ghost(self.batches@.push(models(batch@)));
            proof {
                let a0 = old(self).seen@;
                let b0 = old(self).batches@;
                let cur0 = models(old(self).current_packets@);
                let thr = old(self).chunk_duration_tb as int;
                let a1 = self.seen@;
                let b1 = self.batches@;
                let cur1 = models(self.current_packets@);
                lemma_models_push(Seq::<Packet>::empty(), p);
                assert(cur1 =~= seq![pm]);
                b0.lemma_flatten_push(cur0);
                assert(b1.flatten() + cur1 =~= a1);
                assert forall|k: int| 0 <= k < b1.len() implies (#[trigger] b1[k]).len() > 0 by {
                    if k < b0.len() {
                        assert(b1[k] == b0[k]);
                    } else {
                        assert(b1[k] == cur0);
                    }
                }
                assert forall|k: int, i: int|
                    0 <= k < b1.len() && 1 <= i < b1[k].len() implies eff_pts(#[trigger] b1[k][i])
                    - eff_pts(b1[k][0]) < thr by {
                    if k < b0.len() {
                        assert(b1[k] == b0[k]);
                    } else {
                        assert(b1[k] == cur0);
                    }
                }
                assert forall|k: int|
                    1 <= k < b1.len() implies eff_pts(#[trigger] b1[k][0]) - eff_pts(b1[k - 1][0])
                    >= thr by {
                    if k < b0.len() {
                        assert(b1[k] == b0[k] && b1[k - 1] == b0[k - 1]);
                    } else {
                        assert(b1[k] == cur0 && b1[k - 1] == b0[k - 1] && b0[k - 1] == b0.last());
                    }
                }
                assert forall|k: int|
                    1 <= k < b1.len() implies adjacent_in(
                    a1,
                    (#[trigger] b1[k - 1]).last(),
                    b1[k][0],
                ) by {
                    if k < b0.len() {
                        assert(b1[k] == b0[k] && b1[k - 1] == b0[k - 1]);
                        lemma_adjacent_push(a0, b0[k - 1].last(), b0[k][0], pm);
                    } else {
                        assert(b1[k] == cur0 && b1[k - 1] == b0[k - 1] && b0[k - 1] == b0.last());
                        lemma_adjacent_push(a0, b0.last().last(), cur0[0], pm);
                    }
                }
                // the new open batch's head follows the finalized batch's tail
                let j = a0.len() - 1;
                assert(a1[j] == a0.last() && a0.last() == cur0.last());
                assert(a1[j + 1] == pm);
                assert(adjacent_in(a1, b1.last().last(), cur1[0]));
                assert(self.wf());
            }
            Some(batch)
        } else {
            if self.chunk_start_pts.is_none() {
                self.chunk_start_pts = Some(pts_eff);
            }
            self.current_packets.push(p);
            self.seen = Ghost(self.seen@.push(pm));
            proof {
                let a0 = old(self).seen@;
                let b0 = old(self).batches@;
                let cur0 = models(old(self).current_packets@);
                let thr = old(self).chunk_duration_tb as int;
                let a1 = self.seen@;
                let cur1 = models(self.current_packets@);
                lemma_models_push(old(self).current_packets@, p);
                assert(cur1 == cur0.push(pm));
                assert(b0.flatten() + cur1 =~= a1);
                assert forall|i: int|
                    1 <= i < cur1.len() implies eff_pts(#[trigger] cur1[i]) - eff_pts(cur1[0])
                    < thr by {
                    if i < cur0.len() {
                        assert(cur1[i] == cur0[i] && cur1[0] == cur0[0]);
                    } else {
                        assert(cur1[i] == pm && cur1[0] == cur0[0]);
                    }
                }
                assert forall|k: int|
                    1 <= k < b0.len() implies adjacent_in(
                    a1,
                    (#[trigger] b0[k - 1]).last(),
                    b0[k][0],
                ) by {
                    lemma_adjacent_push(a0, b0[k - 1].last(), b0[k][0], pm);
                }
                if b0.len() > 0 && cur0.len() > 0 {
                    lemma_adjacent_push(a0, b0.last().last(), cur0[0], pm);
                }
                assert(self.wf());
            }
            None
        }
    }

    /// End of stream: finalize whatever remains. The producer is exhausted
    /// afterwards; an empty remainder yields nothing.
    pub fn finish(&mut self) -> (r: Option<Vec<Packet>>)
        requires
            old(self).wf(),
            !old(self).is_exhausted(),
        ensures
            final(self).wf(),
            final(self).done(),
            same_config(*old(self), *final(self)),
            final(self).accepted() == old(self).accepted(),
            final(self).current_batch() == Seq::<PacketModel>::empty(),
            old(self).current_batch().len() > 0 ==> {
                &&& r matches Some(batch) && models(batch@) == old(self).current_batch()
                &&& final(self).emitted() == old(self).emitted().push(old(self).current_batch())
            },
            old(self).current_batch().len() == 0 ==> {
                &&& r is None
                &&& final(self).emitted() == old(self).emitted()
            },
            final(self).emitted().flatten() == final(self).accepted(),
    {
        self.exhausted = true;
        if self.current_packets.len() == 0 {
            proof {
                let b0 = self.batches@;
                let cur0 = models(self.current_packets@);
                assert(cur0 =~= Seq::<PacketModel>::empty());
                assert(b0.flatten() + cur0 =~= b0.flatten());
                assert(self.wf());
            }
            return None;
        }
        let mut batch: Vec<Packet> = Vec::new();
        core::mem::swap(&mut batch, &mut self.current_packets);
        self.chunk_start_pts = None;
        self.batches = Ghost(self.batches@.push(models(batch@)));
        proof {
            let a0 = old(self).seen@;
            let b0 = old(self).batches@;
            let cur0 = models(old(self).current_packets@);
            let thr = old(self).chunk_duration_tb as int;
            let b1 = self.batches@;
            let cur1 = models(self.current_packets@);
            assert(cur1 =~= Seq::<PacketModel>::empty());
            b0.lemma_flatten_push(cur0);
            assert(b1.flatten() + cur1 =~= a0);
            assert(b1.flatten() =~= a0);
            assert forall|k: int| 0 <= k < b1.len() implies (#[trigger] b1[k]).len() > 0 by {
                if k < b0.len() {
                    assert(b1[k] == b0[k]);
                } else {
                    assert(b1[k] == cur0);
                }
            }
            assert forall|k: int, i: int|
                0 <= k < b1.len() && 1 <= i < b1[k].len() implies eff_pts(#[trigger] b1[k][i])
                - eff_pts(b1[k][0]) < thr by {
                if k < b0.len() {
                    assert(b1[k] == b0[k]);
                } else {
                    assert(b1[k] == cur0);
                }
            }
            assert forall|k: int|
                1 <= k < b1.len() implies eff_pts(#[trigger] b1[k][0]) - eff_pts(b1[k - 1][0])
                >= thr by {
                if k < b0.len() {
                    assert(b1[k] == b0[k] && b1[k - 1] == b0[k - 1]);
                } else {
                    assert(b1[k] == cur0 && b1[k - 1] == b0[k - 1] && b0[k - 1] == b0.last());
                }
            }
            assert forall|k: int|
                1 <= k < b1.len() implies adjacent_in(
                a0,
                (#[trigger] b1[k - 1]).last(),
                b1[k][0],
            ) by {
                if k < b0.len() {
                    assert(b1[k] == b0[k] && b1[k - 1] == b0[k - 1]);
                } else {
                    assert(b1[k] == cur0 && b1[k - 1] == b0[k - 1] && b0[k - 1] == b0.last());
                }
            }
            assert(a0.last() == cur0.last() && b1.last() == cur0);
            assert(self.wf());
        }
        Some(batch)
    }

    /// Record a native write failure: the producer transitions straight to
    /// exhausted, and the failure stays as the run's last word.
    pub fn record_failure(&mut self, err: ChunkError)
        requires
            old(self).wf(),
            !old(self).is_exhausted(),
        ensures
            final(self).wf(),
            final(self).is_exhausted(),
            final(self).failure_spec() == Some(err),
            same_config(*old(self), *final(self)),
            final(self).accepted() == old(self).accepted(),
            final(self).emitted() == old(self).emitted(),
            final(self).current_batch() == old(self).current_batch(),
    {
        self.exhausted = true;
        self.failure = Some(err);
    }
}

/// Presentation times never decrease along `s`.
pub open spec fn eff_sorted(s: Seq<PacketModel>) -> bool {
    forall|i: int, j: int|
        0 <= i <= j < s.len() ==> eff_pts(#[trigger] s[i]) <= eff_pts(#[trigger] s[j])
}

/// Consecutive packets of `s` lie at most `delta` ticks apart.
pub open spec fn eff_spacing(s: Seq<PacketModel>, delta: int) -> bool {
    forall|j: int| 1 <= j < s.len() ==> eff_pts(#[trigger] s[j]) - eff_pts(s[j - 1]) <= delta
}

/// No finalized batch is ever empty.
pub proof fn lemma_no_empty_batch(c: AudioChunks)
    requires
        c.wf(),
    ensures
        forall|k: int| 0 <= k < c.emitted().len() ==> (#[trigger] c.emitted()[k]).len() > 0,
{
}

/// Lossless recombination of a completed run, at the packet level: the
/// finalized batches, concatenated in emission order, are exactly the
/// accepted packets of the selected stream — payload bytes, timestamps
/// and order all preserved, nothing dropped and nothing duplicated.
pub proof fn lemma_lossless_partition(c: AudioChunks)
    requires
        c.wf(),
        c.done(),
    ensures
        c.emitted().flatten() == c.accepted(),
{
    assert(c.current_batch() =~= Seq::<PacketModel>::empty());
    assert(c.emitted().flatten() + c.current_batch() == c.accepted());
    assert(c.emitted().flatten() =~= c.accepted());
}

/// Within any finalized batch, every packet's presentation time lies less
/// than one threshold past the batch's first packet.
pub proof fn lemma_batch_width(c: AudioChunks)
    requires
        c.wf(),
    ensures
        forall|k: int, i: int|
            0 <= k < c.emitted().len() && 1 <= i < c.emitted()[k].len() ==> eff_pts(
                #[trigger] c.emitted()[k][i],
            ) - eff_pts(c.emitted()[k][0]) < c.threshold_ticks(),
{
}

/// Consecutive finalized batches open at least one threshold apart.
pub proof fn lemma_batch_starts_apart(c: AudioChunks)
    requires
        c.wf(),
    ensures
        forall|k: int|
            1 <= k < c.emitted().len() ==> eff_pts(#[trigger] c.emitted()[k][0]) - eff_pts(
                c.emitted()[k - 1][0],
            ) >= c.threshold_ticks(),
{
}

/// The presentation span of each non-final batch, measured from its head
/// to the next batch's head: at least the threshold, and short of the
/// threshold plus one packet gap. This is the tick-level form of the
/// configured chunk duration: a non-final chunk covers its target within
/// one packet of slack.
pub proof fn lemma_batch_spans(c: AudioChunks, delta: int, k: int)
    requires
        c.wf(),
        c.threshold_ticks() >= 1,
        delta >= 0,
        eff_spacing(c.accepted(), delta),
        0 <= k < c.emitted().len() - 1,
    ensures
        c.threshold_ticks() <= eff_pts(c.emitted()[k + 1][0]) - eff_pts(c.emitted()[k][0]),
        eff_pts(c.emitted()[k + 1][0]) - eff_pts(c.emitted()[k][0]) < c.threshold_ticks() + delta,
{
    let a = c.accepted();
    let b = c.emitted();
    let thr = c.threshold_ticks();
    // the next batch's head sits right after this batch's tail
    assert(adjacent_in(a, b[k].last(), b[k + 1][0]));
    let j = choose|j: int|
        0 <= j < a.len() - 1 && #[trigger] a[j] == b[k].last() && a[j + 1] == b[k + 1][0];
    assert(eff_pts(a[j + 1]) - eff_pts(a[j]) <= delta);
    // this batch spans less than one threshold
    let bk = b[k];
    assert(bk.len() > 0);
    if bk.len() == 1 {
        assert(bk.last() == bk[0]);
    } else {
        assert(eff_pts(bk[bk.len() - 1]) - eff_pts(bk[0]) < thr);
    }
    assert(eff_pts(bk.last()) - eff_pts(bk[0]) < thr);
}

proof fn lemma_sorted_split(x: Seq<PacketModel>, y: Seq<PacketModel>)
    requires
        eff_sorted(x + y),
    ensures
        eff_sorted(x),
        eff_sorted(y),
{
    assert forall|i: int, j: int| 0 <= i <= j < x.len() implies eff_pts(#[trigger] x[i]) <= eff_pts(
        #[trigger] x[j],
    ) by {
        assert(x[i] == (x + y)[i] && x[j] == (x + y)[j]);
    }
    assert forall|i: int, j: int| 0 <= i <= j < y.len() implies eff_pts(#[trigger] y[i]) <= eff_pts(
        #[trigger] y[j],
    ) by {
        assert(y[i] == (x + y)[x.len() + i] && y[j] == (x + y)[x.len() + j]);
    }
}

proof fn lemma_flatten_sorted(bs: Seq<Seq<PacketModel>>)
    requires
        eff_sorted(bs.flatten()),
    ensures
        forall|k: int| 0 <= k < bs.len() ==> eff_sorted(#[trigger] bs[k]),
    decreases bs.len(),
{
    if bs.len() > 0 {
        assert(bs.flatten() == bs.first() + bs.drop_first().flatten());
        lemma_sorted_split(bs.first(), bs.drop_first().flatten());
        lemma_flatten_sorted(bs.drop_first());
        assert forall|k: int| 0 <= k < bs.len() implies eff_sorted(#[trigger] bs[k]) by {
            if k > 0 {
                assert(bs[k] == bs.drop_first()[k - 1]);
            }
        }
    }
}

/// A batch inherits the source's packet order: when the accepted packets
/// carry non-decreasing presentation times, so does every batch, finalized
/// or still open.
pub proof fn lemma_batches_sorted(c: AudioChunks)
    requires
        c.wf(),
        eff_sorted(c.accepted()),
    ensures
        forall|k: int| 0 <= k < c.emitted().len() ==> eff_sorted(#[trigger] c.emitted()[k]),
        eff_sorted(c.current_batch()),
{
    assert(c.emitted().flatten() + c.current_batch() == c.accepted());
    lemma_sorted_split(c.emitted().flatten(), c.current_batch());
    lemma_flatten_sorted(c.emitted());
}

proof fn lemma_start_chain_lower(c: AudioChunks, k: int)
    requires
        c.wf(),
        0 <= k < c.emitted().len(),
    ensures
        eff_pts(c.emitted()[k][0]) - eff_pts(c.emitted()[0][0]) >= k * c.threshold_ticks(),
    decreases k,
{
    let b = c.emitted();
    let thr = c.threshold_ticks();
    if k == 0 {
        assert(k * thr == 0) by (nonlinear_arith)
            requires
                k == 0,
        ;
    } else {
        lemma_start_chain_lower(c, k - 1);
        assert(eff_pts(b[k][0]) - eff_pts(b[k - 1][0]) >= thr);
        assert((k - 1) * thr + thr == k * thr) by (nonlinear_arith);
    }
}

proof fn lemma_start_chain_upper(c: AudioChunks, delta: int, k: int)
    requires
        c.wf(),
        0 <= k < c.emitted().len(),
        c.threshold_ticks() >= 1,
        delta >= 0,
        eff_spacing(c.accepted(), delta),
    ensures
        eff_pts(c.emitted()[k][0]) - eff_pts(c.emitted()[0][0]) <= k * (c.threshold_ticks()
            + delta),
    decreases k,
{
    let a = c.accepted();
    let b = c.emitted();
    let thr = c.threshold_ticks();
    if k == 0 {
        assert(k * (thr + delta) == 0) by (nonlinear_arith)
            requires
                k == 0,
        ;
    } else {
        lemma_start_chain_upper(c, delta, k - 1);
        // the head of batch k sits right after the tail of batch k - 1
        assert(adjacent_in(a, b[k - 1].last(), b[k][0]));
        let j = choose|j: int|
            0 <= j < a.len() - 1 && #[trigger] a[j] == b[k - 1].last() && a[j + 1] == b[k][0];
        assert(eff_pts(a[j + 1]) - eff_pts(a[j]) <= delta);
        // batch k - 1 spans less than one threshold
        let bk = b[k - 1];
        assert(bk.len() > 0);
        if bk.len() == 1 {
            assert(bk.last() == bk[0]);
        } else {
            assert(eff_pts(bk[bk.len() - 1]) - eff_pts(bk[0]) < thr);
        }
        assert(eff_pts(bk.last()) - eff_pts(bk[0]) < thr);
        assert((k - 1) * (thr + delta) + (thr + delta) == k * (thr + delta)) by (nonlinear_arith);
    }
}

/// The batch count of a completed run. For a source whose packets carry
/// non-decreasing presentation times at most `delta` ticks apart, with
/// `S` the source's presentation span, `T` the threshold and `N` the
/// number of finalized batches:
///
/// `(N - 1) * T <= S < N * T + (N - 1) * delta`.
///
/// With packets dense against the threshold — `delta` far under `T`, as
/// for compressed audio frames against a chunk duration — `N` is the
/// number of whole-or-part thresholds that cover the span: the configured
/// duration divides the source within one unit of packet alignment.
pub proof fn lemma_chunk_count(c: AudioChunks, delta: int)
    requires
        c.wf(),
        c.done(),
        c.threshold_ticks() >= 1,
        c.accepted().len() > 0,
        delta >= 0,
        eff_sorted(c.accepted()),
        eff_spacing(c.accepted(), delta),
    ensures
        c.emitted().len() >= 1,
        (c.emitted().len() - 1) * c.threshold_ticks() <= eff_pts(c.accepted().last()) - eff_pts(
            c.accepted()[0],
        ),
        eff_pts(c.accepted().last()) - eff_pts(c.accepted()[0]) < c.emitted().len()
            * c.threshold_ticks() + (c.emitted().len() - 1) * delta,
{
    let a = c.accepted();
    let b = c.emitted();
    let thr = c.threshold_ticks();
    lemma_lossless_partition(c);
    if b.len() == 0 {
        assert(b.flatten() =~= Seq::<PacketModel>::empty());
        assert(false);
    }
    let n = b.len() as int;
    // the first accepted packet heads the first batch
    assert(b.flatten() == b.first() + b.drop_first().flatten());
    assert(b[0].len() > 0);
    assert(a[0] == b[0][0]);
    // the last accepted packet tails the last batch
    assert(a.last() == b.last().last());
    assert(b.last() == b[n - 1]);
    // lower bound: chain the batch heads, then climb to the last packet
    lemma_start_chain_lower(c, n - 1);
    assert(a.last() == a[a.len() - 1]);
    if n >= 2 {
        assert(adjacent_in(a, b[n - 2].last(), b[n - 1][0]));
        let j = choose|j: int|
            0 <= j < a.len() - 1 && #[trigger] a[j] == b[n - 2].last() && a[j + 1] == b[n - 1][0];
        assert(eff_pts(a[j + 1]) <= eff_pts(a[a.len() - 1]));
    } else {
        assert(eff_pts(a[0]) <= eff_pts(a[a.len() - 1]));
    }
    // upper bound: the last batch's width, plus the chained heads
    lemma_start_chain_upper(c, delta, n - 1);
    let bl = b[n - 1];
    assert(bl.len() > 0);
    if bl.len() == 1 {
        assert(bl.last() == bl[0]);
    } else {
        assert(eff_pts(bl[bl.len() - 1]) - eff_pts(bl[0]) < thr);
    }
    assert(eff_pts(bl.last()) - eff_pts(bl[0]) < thr);
    assert((n - 1) * (thr + delta) + thr == n * thr + (n - 1) * delta) by (nonlinear_arith);
}

} // verus!
