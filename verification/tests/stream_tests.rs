use iris::capture::CaptureFrame;
use iris::device::PixelFormat;
use iris::error::IrisError;
use iris::ring_buffer::RingBuffer;
use iris::stream::{latency_us, SendOutcome, StreamCore, StreamEvent, StreamMode, SubscriberId};
use std::str::FromStr;

fn frame(sequence: u64, byte: u8) -> CaptureFrame {
    CaptureFrame {
        sequence,
        width: 4,
        height: 2,
        format: PixelFormat::Rgb24,
        data: vec![byte; 4 * 2 * 3],
        timestamp_us: CaptureFrame::now_us(),
        is_cropped: false,
    }
}

fn usage(rb: &RingBuffer) -> f32 {
    rb.len() as f32 / rb.capacity() as f32
}

#[test]
fn every_named_mode_parses_and_round_trips() {
    for (text, mode) in [
        ("pull", StreamMode::Pull),
        ("push", StreamMode::Push),
        ("shared_memory", StreamMode::SharedMemory),
        ("ipc", StreamMode::Ipc),
    ] {
        assert_eq!(StreamMode::from_str(text).unwrap(), mode);
        assert_eq!(mode.as_str(), text);
    }
    assert_eq!(StreamMode::from_str("SharedMemory").unwrap(), StreamMode::SharedMemory);
    assert!(StreamMode::from_str("carrier_pigeon").is_err());
}

#[test]
fn an_unknown_mode_names_what_was_expected() {
    assert_eq!(
        StreamMode::from_str("  Carrier_Pigeon ").unwrap_err(),
        "unknown stream mode \"carrier_pigeon\" (expected pull, push, shared_memory or ipc)"
    );
    assert_eq!(StreamMode::from_str(" SHM ").unwrap(), StreamMode::SharedMemory);
}

#[test]
fn only_the_built_modes_report_themselves_implemented() {
    assert!(StreamMode::Pull.is_implemented());
    assert!(StreamMode::Push.is_implemented());
    assert!(!StreamMode::SharedMemory.is_implemented());
    assert!(!StreamMode::Ipc.is_implemented());
}

#[test]
fn an_empty_ring_reads_nothing() {
    let rb = RingBuffer::new(4);
    assert!(rb.read_latest().is_none());
    assert!(rb.read_by_age(0).is_none());
    assert!(rb.is_empty());
    assert_eq!(usage(&rb), 0.0);
}

#[test]
fn the_latest_frame_is_the_last_written() {
    let mut rb = RingBuffer::new(4);
    for i in 1..=3 {
        rb.write(&frame(i, i as u8));
    }
    let latest = rb.read_latest().expect("a frame");
    assert_eq!(latest.sequence, 3);
    assert_eq!(latest.data[0], 3);
    assert_eq!(rb.len(), 3);
    assert_eq!(rb.total_written(), 3);
    assert_eq!(rb.overflow_count(), 0, "nothing was overwritten yet");
}

#[test]
fn reading_by_age_survives_a_wrap() {
    let mut rb = RingBuffer::new(3);
    for i in 1..=5 {
        rb.write(&frame(i, i as u8));
    }
    assert_eq!(rb.read_by_age(0).expect("oldest").sequence, 3);
    assert_eq!(rb.read_by_age(1).expect("middle").sequence, 4);
    assert_eq!(rb.read_by_age(2).expect("newest").sequence, 5);
    assert_eq!(rb.read_latest().expect("latest").sequence, 5);
    assert!(rb.read_by_age(3).is_none(), "only three are held");
}

#[test]
fn overwriting_counts_as_overflow() {
    let mut rb = RingBuffer::new(2);
    rb.write(&frame(1, 1));
    rb.write(&frame(2, 2));
    assert_eq!(rb.overflow_count(), 0);
    rb.write(&frame(3, 3));
    assert_eq!(rb.overflow_count(), 1, "the third write displaced the first");
    assert_eq!(usage(&rb), 1.0);
}

#[test]
fn the_ring_preserves_the_pixel_format() {
    let mut rb = RingBuffer::new(2);
    let mut f = frame(1, 9);
    f.format = PixelFormat::Mjpeg;
    rb.write(&f);
    assert_eq!(rb.read_latest().unwrap().format, PixelFormat::Mjpeg);
}

#[test]
fn the_subscriber_limit_is_enforced_and_explained() {
    let mut core: StreamCore<()> = StreamCore::new(StreamMode::Push, 2);
    assert_eq!(core.subscribe(()).unwrap().0, SubscriberId(1));
    let (id2, ev) = core.subscribe(()).unwrap();
    assert_eq!(id2, SubscriberId(2));
    assert_eq!(ev, StreamEvent::SubscriberAdded { id: 2, total: 2 });
    match core.subscribe(()) {
        Err(IrisError::Stream(m)) => assert_eq!(m, "at the subscriber limit (2); unsubscribe one first"),
        other => panic!("expected a refusal, got {:?}", other.map(|x| x.0)),
    }
}

#[test]
fn subscribe_and_remove_are_reported() {
    let mut core: StreamCore<()> = StreamCore::new(StreamMode::Push, 4);
    core.subscribe(()).unwrap();
    core.subscribe(()).unwrap();
    assert_eq!(core.remove_subscriber(SubscriberId(1)), Some(StreamEvent::SubscriberRemoved { id: 1, total: 1 }));
    assert_eq!(core.remove_subscriber(SubscriberId(1)), None, "removing twice reports nothing");
    let (id3, _) = core.subscribe(()).unwrap();
    assert_eq!(id3, SubscriberId(3), "ids are never reused");
}

#[test]
fn a_slow_subscriber_drops_only_its_own_frames() {
    let mut core: StreamCore<()> = StreamCore::new(StreamMode::Push, 4);
    for _ in 0..3 {
        core.subscribe(()).unwrap();
    }
    let gone = core.record_push(&vec![SendOutcome::Sent, SendOutcome::Full, SendOutcome::Closed]);
    assert_eq!(gone, vec![SubscriberId(3)]);
    let stats = core.subscriber_stats();
    assert_eq!((stats[0].delivered, stats[0].dropped), (1, 0));
    assert_eq!((stats[1].delivered, stats[1].dropped), (0, 1));
    assert_eq!((core.total_delivered, core.total_dropped), (1, 1));
}

#[test]
fn an_unimplemented_mode_is_refused_not_silently_substituted() {
    let mut core: StreamCore<()> = StreamCore::new(StreamMode::Pull, 4);
    let err = core.set_mode(StreamMode::Ipc).unwrap_err();
    assert_eq!(
        err,
        IrisError::Stream("stream mode ipc is not implemented \u{2014} refusing rather than silently running as another mode".into())
    );
    assert_eq!(core.mode, StreamMode::Pull);
}

#[test]
fn switching_between_implemented_modes_is_allowed() {
    let mut core: StreamCore<()> = StreamCore::new(StreamMode::Pull, 4);
    core.set_mode(StreamMode::Push).unwrap();
    assert_eq!(core.mode, StreamMode::Push);
    core.set_mode(StreamMode::Pull).unwrap();
    assert_eq!(core.mode, StreamMode::Pull);
}

#[test]
fn delivery_latency_never_goes_negative() {
    assert_eq!(latency_us(1_000, 400), 600);
    assert_eq!(latency_us(400, 1_000), 0);
    assert_eq!(SubscriberId(7).display(), "subscriber 7");
}

#[test]
fn after_n_writes_the_ring_holds_the_last_ones_by_age() {
    for cap in 2..=4usize {
        for n in 0..=9u64 {
            let mut rb = RingBuffer::new(cap);
            for i in 1..=n {
                rb.write(&frame(i, i as u8));
            }
            let k = (n as usize).min(cap);
            assert_eq!(rb.len(), k);
            assert_eq!(rb.total_written(), n);
            assert_eq!(rb.overflow_count(), n - k as u64);
            for i in 0..k {
                assert_eq!(rb.read_by_age(i).expect("held").sequence, n - k as u64 + 1 + i as u64);
            }
            assert!(rb.read_by_age(k).is_none());
            assert_eq!(rb.read_latest().map(|s| s.sequence), if n > 0 { Some(n) } else { None });
        }
    }
}
