//! Timestamp arithmetic, packet conversion and error descriptions.

use stt::chunker::ChunkError;
use stt::packet::Packet;
use stt::remux::batch_rescalable_check;
use stt::remux::rescale_batch;
use stt::remux::rescale_packet;
use stt::timing::Rational;
use stt::timing::duration_to_ticks;
use stt::timing::rescale_ts;
use stt::timing::ts_rescalable_check;
use stt::whisper::WhisperError;
use stt::whisper::join_segments;

fn ms() -> Rational {
    Rational { num: 1, den: 1000 }
}

fn hz44100() -> Rational {
    Rational { num: 1, den: 44_100 }
}

#[test]
fn test_duration_to_ticks_values() {
    // floor((duration_ms * den) / (1000 * num))
    assert_eq!(duration_to_ticks(10_000, ms()), 10_000);
    assert_eq!(duration_to_ticks(10_000, hz44100()), 441_000);
    assert_eq!(duration_to_ticks(1, Rational { num: 1, den: 90_000 }), 90);
    assert_eq!(duration_to_ticks(999, Rational { num: 1, den: 1 }), 0);
    assert_eq!(duration_to_ticks(30_000, Rational { num: 3, den: 1000 }), 10_000);
}

#[test]
fn test_rescale_rounds_half_away_from_zero() {
    // 5 ms at 44100 Hz is 220.5 ticks: away from zero on both sides
    assert_eq!(rescale_ts(5, ms(), hz44100()), 221);
    assert_eq!(rescale_ts(-5, ms(), hz44100()), -221);
    // 220 / 441 rounds down, 221 / 441 rounds up
    assert_eq!(rescale_ts(220, hz44100(), ms()), 5);
    assert_eq!(rescale_ts(221, hz44100(), ms()), 5);
    assert_eq!(rescale_ts(441, hz44100(), ms()), 10);
}

#[test]
fn test_rescale_identity_and_zero() {
    assert_eq!(rescale_ts(0, ms(), hz44100()), 0);
    assert_eq!(rescale_ts(123_456, ms(), ms()), 123_456);
    assert_eq!(rescale_ts(-7, hz44100(), hz44100()), -7);
}

#[test]
fn test_rescalable_check() {
    assert!(ts_rescalable_check(1_000_000, ms(), hz44100()));
    // the unset sentinel is never rescaled
    assert!(!ts_rescalable_check(i64::MIN, ms(), ms()));
    // scaling near the top of the range overflows 64 bits
    assert!(!ts_rescalable_check(i64::MAX, ms(), hz44100()));
    assert!(ts_rescalable_check(i64::MAX, ms(), ms()));
}

#[test]
fn test_rescale_packet_keeps_unset_and_normalizes_duration() {
    let p = Packet { pts: None, dts: Some(1000), duration: None, flags: 5, data: vec![1, 2, 3] };
    let q = rescale_packet(&p, ms(), hz44100());
    assert_eq!(q.pts, None);
    assert_eq!(q.dts, Some(44_100));
    // an unset duration leaves as an explicit zero, never a sentinel
    assert_eq!(q.duration, Some(0));
    assert_eq!(q.flags, 5);
    assert_eq!(q.data, vec![1, 2, 3]);
}

#[test]
fn test_rescale_batch_in_order() {
    let batch = vec![
        Packet { pts: Some(0), dts: Some(0), duration: Some(24), flags: 0, data: vec![0] },
        Packet { pts: Some(24), dts: Some(24), duration: Some(24), flags: 0, data: vec![1] },
        Packet { pts: Some(48), dts: None, duration: None, flags: 0, data: vec![2] },
    ];
    assert!(batch_rescalable_check(&batch, ms(), hz44100()));
    let out = rescale_batch(&batch, ms(), hz44100());
    assert_eq!(out.len(), 3);
    assert_eq!(out[0].pts, Some(0));
    assert_eq!(out[1].pts, Some(1_058)); // 24 * 44.1 = 1058.4
    assert_eq!(out[2].pts, Some(2_117)); // 48 * 44.1 = 2116.8
    assert_eq!(out[2].dts, None);
    assert_eq!(out[2].duration, Some(0));
    assert_eq!(out[1].data, vec![1]);
}

#[test]
fn test_batch_rescalable_check_rejects_overflow() {
    let batch = vec![
        Packet { pts: Some(0), dts: None, duration: None, flags: 0, data: vec![] },
        Packet { pts: Some(i64::MAX), dts: None, duration: None, flags: 0, data: vec![] },
    ];
    assert!(!batch_rescalable_check(&batch, ms(), hz44100()));
}

#[test]
fn test_deep_copy_duplicates_payload() {
    let p = Packet { pts: Some(7), dts: None, duration: Some(3), flags: 1, data: vec![4, 5] };
    let q = p.deep_copy();
    assert_eq!(q.pts, Some(7));
    assert_eq!(q.duration, Some(3));
    assert_eq!(q.data, p.data);
}

#[test]
fn test_chunk_error_messages() {
    assert_eq!(ChunkError::FileNotFound.message(), "file not found");
    assert_eq!(ChunkError::FormatOpenError.message(), "could not open container");
    assert_eq!(ChunkError::NoAudioStream.message(), "no audio stream found");
    assert_eq!(ChunkError::ParameterCopyError.message(), "could not copy codec parameters");
    assert_eq!(ChunkError::HeaderWriteError.message(), "could not write header");
    assert_eq!(ChunkError::PacketWriteError.message(), "could not write packet");
    assert_eq!(ChunkError::TrailerWriteError.message(), "could not write trailer");
    assert_eq!(ChunkError::BufferAllocError.message(), "could not allocate output buffer");
}

#[test]
fn test_whisper_error_messages() {
    let e = WhisperError::ModelLoad(String::from("no such file"));
    assert_eq!(e.message(), "failed to load model: no such file");
    let e = WhisperError::Transcription(String::from("state failed"));
    assert_eq!(e.message(), "transcription failed: state failed");
    assert_eq!(WhisperError::Closed.message(), "context already closed");
}

#[test]
fn test_join_segments() {
    let segments = vec![String::from("hello"), String::from(" "), String::from("world")];
    assert_eq!(join_segments(&segments), "hello world");
    let empty: Vec<String> = Vec::new();
    assert_eq!(join_segments(&empty), "");
}
