//! Segmentation scenarios over a synthetic source: uniform 24 ms frames
//! covering 213,072 ms in a millisecond timebase, the shape of a typical
//! frame-based audio file.

use stt::chunker::AudioChunks;
use stt::chunker::ChunkError;
use stt::packet::Packet;
use stt::timing::Rational;

const SOURCE_DURATION_MS: u64 = 213_072;
const FRAME_MS: i64 = 24;

fn tb_ms() -> Rational {
    Rational { num: 1, den: 1000 }
}

fn frame(pts: i64, tag: u8) -> Packet {
    Packet {
        pts: Some(pts),
        dts: Some(pts),
        duration: Some(FRAME_MS),
        flags: 0,
        data: vec![tag, tag.wrapping_add(1)],
    }
}

fn source_packets() -> Vec<Packet> {
    let mut v = Vec::new();
    let mut pts: i64 = 0;
    let mut tag: u8 = 0;
    while pts < SOURCE_DURATION_MS as i64 {
        v.push(frame(pts, tag));
        pts += FRAME_MS;
        tag = tag.wrapping_add(1);
    }
    v
}

fn collect_batches(chunk_duration_ms: u64) -> Vec<Vec<Packet>> {
    let mut c = AudioChunks::new(String::from("speech.mp3"), chunk_duration_ms, 0, tb_ms());
    let mut out = Vec::new();
    for p in source_packets() {
        if let Some(b) = c.push_packet(0, p) {
            out.push(b);
        }
    }
    if let Some(b) = c.finish() {
        out.push(b);
    }
    out
}

fn expected_chunk_count(chunk_duration_ms: u64) -> usize {
    SOURCE_DURATION_MS.div_ceil(chunk_duration_ms) as usize
}

fn batch_duration_ms(b: &[Packet]) -> u64 {
    let first = b.first().unwrap().pts.unwrap();
    let last = b.last().unwrap();
    (last.pts.unwrap() + last.duration.unwrap() - first) as u64
}

fn assert_chunk_durations(batches: &[Vec<Packet>], target_ms: u64) {
    let tolerance: u64 = 500;
    for (i, b) in batches.iter().enumerate() {
        let duration = batch_duration_ms(b);
        if i < batches.len() - 1 {
            assert!(
                (target_ms - tolerance..=target_ms + tolerance).contains(&duration),
                "Chunk {i} duration {duration}ms not in range {}..={}ms",
                target_ms - tolerance,
                target_ms + tolerance
            );
        } else {
            assert!(
                duration <= target_ms + tolerance,
                "Final chunk duration {duration}ms exceeds {}ms",
                target_ms + tolerance
            );
        }
    }
}

fn is_valid_batch(b: &[Packet]) -> bool {
    !b.is_empty() && b.iter().all(|p| p.pts.is_some() && !p.data.is_empty())
        && b.windows(2).all(|w| w[0].pts.unwrap() <= w[1].pts.unwrap())
}

#[test]
fn test_chunk_count_10s() {
    let chunks = collect_batches(10_000);
    assert_eq!(chunks.len(), expected_chunk_count(10_000)); // 22
}

#[test]
fn test_chunk_count_30s() {
    let chunks = collect_batches(30_000);
    assert_eq!(chunks.len(), expected_chunk_count(30_000)); // 8
}

#[test]
fn test_chunk_count_60s() {
    let chunks = collect_batches(60_000);
    assert_eq!(chunks.len(), expected_chunk_count(60_000)); // 4
}

#[test]
fn test_chunk_durations_10s() {
    let chunks = collect_batches(10_000);
    assert_chunk_durations(&chunks, 10_000);
}

#[test]
fn test_chunk_durations_30s() {
    let chunks = collect_batches(30_000);
    assert_chunk_durations(&chunks, 30_000);
}

#[test]
fn test_all_chunks_are_valid_audio() {
    let chunks = collect_batches(30_000);
    for (i, chunk) in chunks.iter().enumerate() {
        assert!(is_valid_batch(chunk), "Chunk {i} is not valid audio");
    }
}

#[test]
fn test_total_duration_coverage() {
    let chunks = collect_batches(30_000);
    let total_duration: u64 = chunks.iter().map(|c| batch_duration_ms(c)).sum();
    let diff = total_duration.abs_diff(SOURCE_DURATION_MS);
    assert!(
        diff < 1000,
        "Total duration {total_duration}ms differs from source {SOURCE_DURATION_MS}ms by {diff}ms"
    );
}

#[test]
fn test_lossless_recombination_of_payloads() {
    // concatenating the batches reproduces the accepted packets exactly
    let chunks = collect_batches(10_000);
    let recombined: Vec<Packet> = chunks.into_iter().flatten().collect();
    let original = source_packets();
    assert_eq!(recombined.len(), original.len());
    for (a, b) in recombined.iter().zip(original.iter()) {
        assert_eq!(a.pts, b.pts);
        assert_eq!(a.data, b.data);
    }
}

#[test]
fn test_no_chunk_of_zero_packets() {
    for chunk_ms in [1, 24, 10_000, 300_000, 1_000_000] {
        for batch in collect_batches(chunk_ms) {
            assert!(!batch.is_empty());
        }
    }
}

#[test]
fn test_empty_source_yields_nothing() {
    let mut c = AudioChunks::new(String::from("empty.mp3"), 10_000, 0, tb_ms());
    assert!(c.finish().is_none());
    assert!(c.exhausted());
}

#[test]
fn test_short_source_yields_single_chunk() {
    // a whole file shorter than one threshold is one legitimate chunk
    let mut c = AudioChunks::new(String::from("short.mp3"), 10_000, 0, tb_ms());
    assert!(c.push_packet(0, frame(0, 1)).is_none());
    assert!(c.push_packet(0, frame(24, 2)).is_none());
    let last = c.finish().expect("the remainder is finalized");
    assert_eq!(last.len(), 2);
}

#[test]
fn test_other_streams_are_discarded() {
    let mut c = AudioChunks::new(String::from("mixed.mkv"), 10_000, 3, tb_ms());
    assert!(c.push_packet(0, frame(0, 1)).is_none());
    assert!(c.push_packet(3, frame(0, 2)).is_none());
    assert!(c.push_packet(1, frame(50_000, 3)).is_none());
    let last = c.finish().expect("only the selected stream is batched");
    assert_eq!(last.len(), 1);
    assert_eq!(last[0].data, vec![2, 3]);
}

#[test]
fn test_boundary_packet_opens_next_chunk() {
    // the packet that crosses the boundary is not part of the closed batch
    let mut c = AudioChunks::new(String::from("speech.mp3"), 10_000, 0, tb_ms());
    assert!(c.push_packet(0, frame(0, 1)).is_none());
    assert!(c.push_packet(0, frame(9_999, 2)).is_none());
    let first = c.push_packet(0, frame(10_000, 3)).expect("boundary crossed");
    assert_eq!(first.len(), 2);
    let last = c.finish().expect("the boundary packet opened a new batch");
    assert_eq!(last.len(), 1);
    assert_eq!(last[0].data, vec![3, 4]);
}

#[test]
fn test_unset_pts_counts_as_zero() {
    let mut c = AudioChunks::new(String::from("speech.mp3"), 10_000, 0, tb_ms());
    let no_pts = Packet { pts: None, dts: None, duration: None, flags: 0, data: vec![9] };
    assert!(c.push_packet(0, no_pts).is_none());
    let first = c.push_packet(0, frame(10_000, 1)).expect("10000 - 0 reaches the threshold");
    assert_eq!(first.len(), 1);
    assert_eq!(first[0].data, vec![9]);
}

#[test]
fn test_write_failure_halts_producer() {
    let mut c = AudioChunks::new(String::from("speech.mp3"), 10_000, 0, tb_ms());
    assert!(c.push_packet(0, frame(0, 1)).is_none());
    assert!(!c.exhausted());
    assert_eq!(c.last_failure(), None);
    c.record_failure(ChunkError::PacketWriteError);
    assert!(c.exhausted());
    assert_eq!(c.last_failure(), Some(ChunkError::PacketWriteError));
}

#[test]
fn test_path_and_duration_getters() {
    let c = AudioChunks::new(String::from("speech.mp3"), 30_000, 0, tb_ms());
    assert_eq!(c.path(), "speech.mp3");
    assert_eq!(c.chunk_duration_ms(), 30_000);
}
