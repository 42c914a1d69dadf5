use phone_control::recording::{FeedAction, Recorder, Sample};

const CONFIG: &[u8] = &[0, 0, 0, 1, 0x67, 1, 0, 0, 0, 1, 0x68, 2];

fn recorder() -> Recorder {
    Recorder::new("/tmp/out.mp4".to_string(), "task".to_string())
}

fn sample(a: FeedAction) -> Sample {
    match a {
        FeedAction::Write(s) => s,
        _ => panic!("expected a frame to write"),
    }
}

fn skipped(a: FeedAction) -> bool {
    matches!(a, FeedAction::Skip)
}

/// A recorder whose file was opened by a keyframe of time `pts_us`.
fn started(pts_us: u64) -> Recorder {
    let mut r = recorder();
    assert!(skipped(r.feed(true, false, 0, 0, 0, CONFIG, None)));
    match r.feed(false, true, pts_us, 216, 480, &[9], None) {
        FeedAction::Open { width, height } => assert_eq!((width, height), (216, 480)),
        _ => panic!("expected to open the file"),
    }
    let first = r.muxer_opened(pts_us, &[9]);
    assert_eq!(first.pts_us, 0);
    assert!(first.is_key);
    assert_eq!(first.data, [CONFIG, &[9][..]].concat());
    r.written();
    r
}

fn delta(r: &mut Recorder, pts_us: u64) -> u128 {
    let s = sample(r.feed(false, false, pts_us, 216, 480, &[7], None));
    assert_eq!(s.data, [7]);
    assert!(!s.is_key);
    r.written();
    s.pts_us
}

#[test]
fn the_file_opens_on_a_keyframe_with_size_and_config() {
    let mut r = recorder();
    // No config yet.
    assert!(skipped(r.feed(false, true, 5, 216, 480, &[9], None)));
    assert!(skipped(r.feed(true, false, 5, 216, 480, CONFIG, None)));
    // No keyframe, no width, no height.
    assert!(skipped(r.feed(false, false, 6, 216, 480, &[9], None)));
    assert!(skipped(r.feed(false, true, 7, 0, 480, &[9], None)));
    assert!(skipped(r.feed(false, true, 8, 216, 0, &[9], None)));
    assert!(matches!(
        r.feed(false, true, 9, 216, 480, &[9], None),
        FeedAction::Open { width: 216, height: 480 }
    ));
    // The file could not be opened: the next keyframe tries again.
    assert!(matches!(
        r.feed(false, true, 10, 216, 480, &[9], None),
        FeedAction::Open { .. }
    ));
}

#[test]
fn timestamps_start_at_zero_and_strictly_increase() {
    let mut r = started(1_000_000);
    assert_eq!(delta(&mut r, 1_033_000), 33_000);
    // Duplicates and regressions are nudged by a microsecond.
    assert_eq!(delta(&mut r, 1_033_000), 33_001);
    assert_eq!(delta(&mut r, 900_000), 33_002);
    assert_eq!(delta(&mut r, 1_066_000), 66_000);
    assert_eq!(r.frames(), 5);
}

#[test]
fn keyframes_carry_the_latest_config() {
    let mut r = started(0);
    assert!(skipped(r.feed(true, false, 1, 216, 480, &[5, 5], None)));
    let s = sample(r.feed(false, true, 2, 216, 480, &[9], None));
    assert_eq!(s.data, [5, 5, 9]);
    assert!(s.is_key);
}

#[test]
fn a_late_recorder_adopts_the_config_of_the_stream() {
    let mut r = recorder();
    assert!(matches!(
        r.feed(false, true, 3, 216, 480, &[9], Some(&[4])),
        FeedAction::Open { .. }
    ));
    assert_eq!(r.muxer_opened(3, &[9]).data, [4, 9]);
    // Its own config, once there, is not replaced that way.
    let s = sample(r.feed(false, true, 4, 216, 480, &[9], Some(&[6])));
    assert_eq!(s.data, [4, 9]);
}

#[test]
fn a_failed_write_counts_for_nothing() {
    let mut r = started(0);
    let lost = sample(r.feed(false, false, 10, 216, 480, &[7], None));
    assert_eq!(lost.pts_us, 10);
    // Not reported as written, so the next frame may show at the same time.
    let next = sample(r.feed(false, false, 10, 216, 480, &[7], None));
    assert_eq!(next.pts_us, 10);
    assert_eq!(r.frames(), 1);
}

#[test]
fn finishing() {
    let r = started(0);
    assert_eq!(r.path(), "/tmp/out.mp4");
    assert_eq!(r.task_id, "task");
    assert_eq!(r.finish(Ok(())), Ok(("/tmp/out.mp4".to_string(), 1)));
    assert_eq!(
        started(0).finish(Err("disk full".to_string())),
        Err("disk full".to_string())
    );
    // A file that was never opened cannot fail to close.
    assert_eq!(
        recorder().finish(Err("unused".to_string())),
        Ok(("/tmp/out.mp4".to_string(), 0))
    );
}

#[test]
fn extreme_timestamps_do_not_overflow() {
    let mut r = started(0);
    assert_eq!(delta(&mut r, u64::MAX), u64::MAX as u128);
    assert_eq!(delta(&mut r, u64::MAX), u64::MAX as u128 + 1);
}

#[test]
fn good_timestamps_are_kept() {
    let mut r = started(500);
    for pts in [533, 566, 600, 1_000_000] {
        assert_eq!(delta(&mut r, pts), pts as u128 - 500);
    }
}
