use hiroz::tf::broadcast::{
    outgoing, topic_name, topic_qos, transient_local_qos, volatile_qos, zero_timestamps,
    QosDurability, QosHistory, QosReliability,
};
use hiroz::tf::buffer::BufferInner;
use hiroz::tf::listener::{keep_waiting, Buffer, WaitError, WaitStep};
use hiroz::tf::lookup::LookupError;
use hiroz::tf::message::{
    compose_stamped, Header, TFMessage, TransformExpr, TransformStamped,
};
use hiroz::tf::time::{stamp_to_ztime, ztime_to_stamp, Time, ZTime};

#[derive(Clone, Copy)]
struct Transform {
    x: f64,
    w: f64,
}

fn stored(parent: &str, child: &str, sec: i32, nanosec: u32, x: f64) -> TransformStamped<Transform> {
    TransformStamped {
        header: Header { frame_id: parent.to_string(), stamp: Time { sec, nanosec } },
        child_frame_id: child.to_string(),
        transform: Transform { x, w: 1.0 },
    }
}

fn make_tf(parent: &str, child: &str, sec: i32) -> TransformStamped<Transform> {
    stored(parent, child, sec, 0, 1.0)
}

fn make_tf_at(parent: &str, child: &str, sec: i32, x: f64) -> TransformStamped<Transform> {
    stored(parent, child, sec, 0, x)
}

fn message(tf: TransformStamped<Transform>) -> TFMessage<Transform> {
    TFMessage { transforms: vec![tf] }
}

fn t(sec: i32) -> ZTime {
    ZTime::from_unix_nanos(sec as i64 * 1_000_000_000)
}

/// The value of an expression, for transforms without a rotation.
fn value(e: &TransformExpr<'_, Transform>) -> Transform {
    match e {
        TransformExpr::Identity => Transform { x: 0.0, w: 1.0 },
        TransformExpr::Stored(t) => **t,
        TransformExpr::Between { before, after, elapsed, span } => {
            let f = *elapsed as f64 / *span as f64;
            Transform { x: before.x + f * (after.x - before.x), w: 1.0 }
        }
        TransformExpr::Compose(a, b) => Transform { x: value(a).x + value(b).x, w: 1.0 },
        TransformExpr::Invert(a) => Transform { x: -value(a).x, w: 1.0 },
    }
}

// Stamps

#[test]
fn stamps_count_nanoseconds() {
    assert_eq!(stamp_to_ztime(&Time { sec: 2, nanosec: 5 }).as_unix_nanos(), 2_000_000_005);
    assert_eq!(ZTime::zero().as_unix_nanos(), 0);
}

#[test]
fn stamps_come_back() {
    let stamp = Time { sec: 17, nanosec: 999_999_999 };
    assert_eq!(ztime_to_stamp(stamp_to_ztime(&stamp)), stamp);
}

// Broadcasting

#[test]
fn zero_timestamps_clears_all_stamps() {
    let tfs = vec![
        stored("map", "odom", 10, 500, 1.0),
        stored("odom", "base_link", 20, 500, 1.0),
    ];
    let zeroed = zero_timestamps(tfs);
    assert_eq!(zeroed.len(), 2);
    for tf in &zeroed {
        assert_eq!(tf.header.stamp.sec, 0);
        assert_eq!(tf.header.stamp.nanosec, 0);
    }
}

#[test]
fn zero_timestamps_preserves_other_fields() {
    let tfs = vec![stored("map", "sensor", 5, 500, 1.0)];
    let zeroed = zero_timestamps(tfs);
    assert_eq!(zeroed[0].header.frame_id, "map");
    assert_eq!(zeroed[0].child_frame_id, "sensor");
    assert!((zeroed[0].transform.x - 1.0).abs() < 1e-10);
}

#[test]
fn only_static_transforms_lose_their_stamps() {
    let kept = outgoing(vec![stored("map", "odom", 5, 500, 1.0)], false);
    assert_eq!(kept.transforms[0].header.stamp, Time { sec: 5, nanosec: 500 });
    let lost = outgoing(vec![stored("map", "odom", 5, 500, 1.0)], true);
    assert_eq!(lost.transforms[0].header.stamp, Time { sec: 0, nanosec: 0 });
}

#[test]
fn topics_and_their_qualities() {
    assert_eq!(topic_name(false), "/tf");
    assert_eq!(topic_name(true), "/tf_static");
    assert_eq!(topic_qos(false), volatile_qos());
    assert_eq!(topic_qos(true), transient_local_qos());
    assert_eq!(volatile_qos().durability, QosDurability::Volatile);
    assert_eq!(transient_local_qos().durability, QosDurability::TransientLocal);
    assert_eq!(volatile_qos().reliability, QosReliability::Reliable);
    assert_eq!(volatile_qos().history, QosHistory::KeepLast(100));
}

// The buffer

#[test]
fn add_dynamic_transform_inserts_entry() {
    let mut buf = BufferInner::default();
    buf.add_message(message(make_tf("map", "odom", 100)), false);
    assert!(buf.dynamic.contains("odom"));
}

#[test]
fn add_static_transform_overwrites_previous() {
    let mut buf = BufferInner::default();
    buf.add_message(message(make_tf("map", "sensor", 1)), true);
    buf.add_message(message(make_tf("world", "sensor", 2)), true);
    assert_eq!(buf.static_.get("sensor").unwrap().header.frame_id, "world");
}

#[test]
fn prune_removes_old_entries() {
    let mut buf = BufferInner { max_history_nanos: 5_000_000_000, ..Default::default() };
    buf.add_message(message(make_tf("map", "odom", 0)), false);
    buf.add_message(message(make_tf("map", "odom", 100)), false);
    let entries = buf.dynamic.get("odom").unwrap();
    let oldest_sec = entries.first().map(|(_, tf)| tf.header.stamp.sec).unwrap();
    assert!(oldest_sec > 0, "old entry at t=0 should have been pruned");
}

#[test]
fn recent_entries_are_kept() {
    let mut buf = BufferInner::default();
    buf.add_message(message(make_tf("map", "odom", 91)), false);
    buf.add_message(message(make_tf("map", "odom", 100)), false);
    let entries = buf.dynamic.get("odom").unwrap();
    assert_eq!(entries.first().unwrap().0, 91_000_000_000);
    assert_eq!(entries.last().unwrap().0, 100_000_000_000);
}

#[test]
fn a_very_long_history_keeps_everything() {
    for nanos in [i64::MAX as u128 + 1, u64::MAX as u128, u128::MAX] {
        let mut buf = BufferInner { max_history_nanos: nanos, ..Default::default() };
        buf.add_message(message(make_tf("map", "odom", 0)), false);
        buf.add_message(message(make_tf("map", "odom", i32::MAX)), false);
        let entries = buf.dynamic.get("odom").unwrap();
        assert_eq!(entries.first().unwrap().0, 0);
        assert_eq!(entries.last().unwrap().1.header.stamp.sec, i32::MAX);
    }
}

#[test]
fn the_longest_path() {
    let mut buf = BufferInner::default();
    for i in 0..150 {
        let tf = make_tf(&format!("f{}", i + 1), &format!("f{}", i), 1);
        buf.add_message(message(tf), true);
    }
    let path = buf.path_to_root("f0");
    assert_eq!(path.len(), 100);
    assert_eq!(path[99], "f99");
}

#[test]
fn path_to_root_single_hop() {
    let mut buf = BufferInner::default();
    buf.add_message(message(make_tf("map", "odom", 1)), false);
    let path = buf.path_to_root("odom");
    assert_eq!(path, vec!["odom", "map"]);
}

#[test]
fn path_to_root_two_hops() {
    let mut buf = BufferInner::default();
    buf.add_message(message(make_tf("map", "odom", 1)), false);
    buf.add_message(message(make_tf("odom", "base_link", 1)), false);
    let path = buf.path_to_root("base_link");
    assert_eq!(path, vec!["base_link", "odom", "map"]);
}

#[test]
fn path_to_root_unknown_frame_is_just_itself() {
    let buf: BufferInner<Transform> = BufferInner::default();
    let path = buf.path_to_root("unknown");
    assert_eq!(path, vec!["unknown"]);
}

#[test]
fn a_cycle_of_frames_ends_the_path() {
    let mut buf = BufferInner::default();
    buf.add_message(message(make_tf("b", "a", 1)), false);
    buf.add_message(message(make_tf("a", "b", 1)), false);
    let path = buf.path_to_root("a");
    assert_eq!(path, vec!["a", "b"]);
}

#[test]
fn all_frames_includes_both_static_and_dynamic() {
    let mut buf = BufferInner::default();
    buf.add_message(message(make_tf("map", "odom", 1)), false);
    buf.add_message(message(make_tf("map", "sensor", 1)), true);
    let frames = buf.all_frames();
    assert!(frames.contains(&"odom".to_string()));
    assert!(frames.contains(&"sensor".to_string()));
}

// Lookup

#[test]
fn lookup_unknown_frame_errors() {
    let buf: BufferInner<Transform> = BufferInner::default();
    assert!(matches!(
        buf.lookup("map", "base_link", ZTime::zero()),
        Err(LookupError::UnknownFrame(_))
    ));
}

#[test]
fn lookup_same_frame_is_identity() {
    let buf: BufferInner<Transform> = BufferInner::default();
    let tf = buf.lookup("map", "map", ZTime::zero()).unwrap();
    assert!((value(&tf.transform).x).abs() < 1e-10);
    assert!((value(&tf.transform).w - 1.0).abs() < 1e-10);
}

#[test]
fn lookup_direct_edge_returns_latest() {
    let mut buf = BufferInner::default();
    buf.add_message(message(make_tf_at("map", "odom", 10, 5.0)), false);
    let tf = buf.lookup("map", "odom", ZTime::zero()).unwrap();
    assert!((value(&tf.transform).x - 5.0).abs() < 1e-10);
    assert_eq!(tf.header.frame_id, "map");
    assert_eq!(tf.child_frame_id, "odom");
}

#[test]
fn lookup_interpolates_at_midpoint() {
    let mut buf = BufferInner::default();
    buf.add_message(message(make_tf_at("map", "odom", 10, 0.0)), false);
    buf.add_message(message(make_tf_at("map", "odom", 20, 10.0)), false);
    let tf = buf.lookup("map", "odom", t(15)).unwrap();
    assert!((value(&tf.transform).x - 5.0).abs() < 1e-6);
}

#[test]
fn interpolation_is_by_the_time_that_has_passed() {
    let mut buf = BufferInner::default();
    buf.add_message(message(make_tf_at("map", "odom", 10, 0.0)), false);
    buf.add_message(message(make_tf_at("map", "odom", 20, 10.0)), false);
    let tf = buf.lookup("map", "odom", t(12)).unwrap();
    assert!((value(&tf.transform).x - 2.0).abs() < 1e-6);
}

#[test]
fn lookup_at_a_stored_time_is_the_stored_transform() {
    let mut buf = BufferInner::default();
    buf.add_message(message(make_tf_at("map", "odom", 10, 0.0)), false);
    buf.add_message(message(make_tf_at("map", "odom", 15, 4.0)), false);
    buf.add_message(message(make_tf_at("map", "odom", 20, 10.0)), false);
    let tf = buf.lookup("map", "odom", t(15)).unwrap();
    assert!((value(&tf.transform).x - 4.0).abs() < 1e-10);
}

#[test]
fn lookup_extrapolation_error_outside_window() {
    let mut buf = BufferInner::default();
    buf.add_message(message(make_tf_at("map", "odom", 10, 0.0)), false);
    assert!(matches!(
        buf.lookup("map", "odom", t(5)),
        Err(LookupError::ExtrapolationError { .. })
    ));
    match buf.lookup("map", "odom", t(11)) {
        Err(LookupError::ExtrapolationError { frame, requested, oldest, newest }) => {
            assert_eq!(frame, "odom");
            assert_eq!(requested, t(11));
            assert_eq!(oldest, t(10));
            assert_eq!(newest, t(10));
        }
        _ => panic!("the time is after the newest entry"),
    }
}

#[test]
fn lookup_two_hop_chain() {
    let mut buf = BufferInner::default();
    buf.add_message(message(make_tf_at("map", "odom", 10, 1.0)), false);
    buf.add_message(message(make_tf_at("odom", "base_link", 10, 2.0)), false);
    let tf = buf.lookup("map", "base_link", ZTime::zero()).unwrap();
    assert!((value(&tf.transform).x - 3.0).abs() < 1e-6);
}

#[test]
fn lookup_static_transform_at_any_time() {
    let mut buf = BufferInner::default();
    buf.add_message(message(make_tf_at("map", "sensor", 0, 0.5)), true);
    let tf = buf.lookup("map", "sensor", t(9999)).unwrap();
    assert!((value(&tf.transform).x - 0.5).abs() < 1e-10);
}

#[test]
fn lookup_no_common_ancestor_errors() {
    let mut buf = BufferInner::default();
    buf.add_message(message(make_tf_at("world_a", "odom_a", 10, 1.0)), false);
    buf.add_message(message(make_tf_at("world_b", "odom_b", 10, 1.0)), false);
    assert!(matches!(
        buf.lookup("odom_a", "odom_b", ZTime::zero()),
        Err(LookupError::NoCommonAncestor { .. })
    ));
}

#[test]
fn lookup_inverse_direction() {
    let mut buf = BufferInner::default();
    buf.add_message(message(make_tf_at("map", "odom", 10, 5.0)), false);
    let tf = buf.lookup("odom", "map", ZTime::zero()).unwrap();
    assert!((value(&tf.transform).x - (-5.0)).abs() < 1e-6);
}

#[test]
fn lookup_across_the_tree() {
    let mut buf = BufferInner::default();
    buf.add_message(message(make_tf_at("map", "odom", 10, 1.0)), false);
    buf.add_message(message(make_tf_at("map", "camera", 10, 3.0)), false);
    let there = buf.lookup("camera", "odom", ZTime::zero()).unwrap();
    let back = buf.lookup("odom", "camera", ZTime::zero()).unwrap();
    assert!((value(&there.transform).x - (-2.0)).abs() < 1e-6);
    assert!((value(&back.transform).x - 2.0).abs() < 1e-6);
}

#[test]
fn lookup_full_via_fixed_frame() {
    let mut buf = BufferInner::default();
    buf.add_message(message(make_tf_at("map", "odom", 10, 1.0)), false);
    buf.add_message(message(make_tf_at("map", "camera", 10, 3.0)), false);

    let t = ZTime::zero();
    let t1 = buf.lookup("map", "odom", t).unwrap();
    let t2 = buf.lookup("camera", "map", t).unwrap();
    let result = compose_stamped(t2, t1, "camera", "odom");
    assert!(
        (value(&result.transform).x - (-2.0)).abs() < 1e-5,
        "expected x=-2.0, got {}",
        value(&result.transform).x
    );
    assert_eq!(result.header.frame_id, "camera");
    assert_eq!(result.child_frame_id, "odom");
}

#[test]
fn a_frame_without_transforms_is_unknown() {
    let mut buf = BufferInner::default();
    buf.add_message(message(make_tf_at("map", "a", 1, 1.0)), false);
    assert!(buf.frame_exists_anywhere("a"));
    buf.add_message(message(make_tf_at("map", "b", 100, 1.0)), false);
    assert!(!buf.frame_exists_anywhere("a"));
    assert_eq!(buf.all_frames(), vec!["a", "b"]);
    assert_eq!(buf.known_frames(), vec!["b", "map"]);
    match buf.lookup("map", "a", ZTime::zero()) {
        Err(LookupError::UnknownFrame(frame)) => assert_eq!(frame, "a"),
        _ => panic!("all transforms of the frame were too old"),
    }
    let mut buffer: Buffer<Transform> = Buffer::new();
    buffer.receive(message(make_tf_at("map", "a", 1, 1.0)), false);
    buffer.receive(message(make_tf_at("map", "b", 100, 1.0)), false);
    assert!(matches!(
        buffer.wait_for_transform("map", "a", ZTime::zero()),
        WaitStep::Pending
    ));
}

#[test]
fn the_parent_of_any_stored_transform_is_known() {
    let mut buf = BufferInner::default();
    buf.add_message(message(make_tf_at("old_parent", "c", 10, 1.0)), false);
    buf.add_message(message(make_tf_at("map", "c", 12, 1.0)), false);
    assert!(buf.frame_exists_anywhere("old_parent"));
    assert!(buf.frame_exists_anywhere("map"));
    assert!(buf.frame_exists_anywhere("c"));
    assert!(!buf.frame_exists_anywhere("d"));
    assert_eq!(buf.known_frames(), vec!["c", "map", "old_parent"]);
    assert_eq!(buf.all_frames(), vec!["c"]);
}

// The listener

#[test]
fn all_known_frames_are_listed() {
    let mut buffer: Buffer<Transform> = Buffer::new();
    assert!(buffer.all_frames().is_empty());
    buffer.receive(message(make_tf_at("map", "odom", 10, 1.0)), false);
    assert_eq!(buffer.all_frames(), vec!["map", "odom"]);
    assert!(buffer.can_transform("odom", "map", ZTime::zero()));
}

#[test]
fn a_listener_answers_what_it_received() {
    let mut buffer: Buffer<Transform> = Buffer::new();
    assert!(!buffer.can_transform("map", "odom", ZTime::zero()));
    buffer.receive(message(make_tf_at("map", "odom", 10, 1.0)), false);
    buffer.receive(message(make_tf_at("map", "camera", 10, 3.0)), true);
    assert!(buffer.can_transform("map", "odom", ZTime::zero()));
    assert_eq!(buffer.all_frames().len(), 3);
    let tf = buffer.lookup_transform("map", "odom", t(10)).unwrap();
    assert!((value(&tf.transform).x - 1.0).abs() < 1e-10);
    let full = buffer.lookup_transform_full("camera", t(50), "odom", t(10), "map").unwrap();
    assert!((value(&full.transform).x - (-2.0)).abs() < 1e-10);
    assert_eq!(full.header.frame_id, "camera");
    assert_eq!(full.child_frame_id, "odom");
    assert!(matches!(
        buffer.lookup_transform_full("camera", t(50), "odom", t(50), "map"),
        Err(LookupError::ExtrapolationError { .. })
    ));
}

#[test]
fn waiting_ends_where_it_cannot_help() {
    let mut buffer: Buffer<Transform> = Buffer::new();
    assert!(matches!(buffer.wait_for_transform("map", "odom", t(10)), WaitStep::Pending));
    buffer.receive(message(make_tf_at("map", "odom", 10, 1.0)), false);
    assert!(matches!(buffer.wait_for_transform("map", "odom", t(10)), WaitStep::Ready(_)));
    buffer.receive(message(make_tf_at("world", "base", 10, 1.0)), false);
    match buffer.wait_for_transform("odom", "base", t(10)) {
        WaitStep::Failed(e) => {
            assert!(matches!(e, WaitError::Lookup(LookupError::NoCommonAncestor { .. })));
            assert_eq!(
                e.describe("no common ancestor between 'base' and 'odom'"),
                "lookup failed permanently: no common ancestor between 'base' and 'odom'"
            );
        }
        _ => panic!("the frames never meet"),
    }
    assert!(matches!(buffer.wait_for_transform("map", "odom", t(99)), WaitStep::Pending));
}

#[test]
fn waiting_is_over_when_no_time_is_left() {
    let buffer: Buffer<Transform> = Buffer::new();
    assert_eq!(buffer.wait_timeout(None), 10_000_000_000);
    assert_eq!(buffer.wait_timeout(Some(7)), 7);
    assert!(keep_waiting(1).is_ok());
    match keep_waiting(0) {
        Err(e) => {
            assert!(matches!(e, WaitError::Timeout));
            assert_eq!(e.describe(""), "wait_for_transform timed out");
        }
        Ok(()) => panic!("no time is left"),
    }
}

#[test]
fn lookup_errors_are_described() {
    let unknown = LookupError::UnknownFrame("odom".to_string());
    assert_eq!(unknown.describe("", "", ""), "frame 'odom' has no known transforms");
    let apart =
        LookupError::NoCommonAncestor { source: "a".to_string(), target: "b".to_string() };
    assert_eq!(apart.describe("", "", ""), "no common ancestor between 'a' and 'b'");
    let outside = LookupError::ExtrapolationError {
        frame: "odom".to_string(),
        requested: t(1),
        oldest: t(2),
        newest: t(3),
    };
    assert_eq!(
        outside.describe("1s", "2s", "3s"),
        "requested time 1s for frame 'odom' is outside buffer window [2s, 3s]"
    );
}
