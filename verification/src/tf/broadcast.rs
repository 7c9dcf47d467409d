//! What a transform broadcaster puts on the wire.

use crate::tf::message::{Header, TFMessage, TransformStamped};
use crate::tf::time::Time;
use vstd::prelude::*;

verus! {

#[derive(Clone, Copy, PartialEq, Eq, Structural, Debug)]
pub enum QosReliability {
    Reliable,
    BestEffort,
}

#[derive(Clone, Copy, PartialEq, Eq, Structural, Debug)]
pub enum QosDurability {
    Volatile,
    TransientLocal,
}

#[derive(Clone, Copy, PartialEq, Eq, Structural, Debug)]
pub enum QosHistory {
    KeepLast(usize),
    KeepAll,
}

/// The delivery settings of a topic.
#[derive(Clone, Copy, PartialEq, Eq, Structural, Debug)]
pub struct QosProfile {
    pub reliability: QosReliability,
    pub durability: QosDurability,
    pub history: QosHistory,
}

/// The settings of `/tf`: late subscribers get nothing that was sent before.
pub fn volatile_qos() -> (q: QosProfile)
    ensures
        q == (QosProfile {
            reliability: QosReliability::Reliable,
            durability: QosDurability::Volatile,
            history: QosHistory::KeepLast(100),
        }),
{
    QosProfile {
        reliability: QosReliability::Reliable,
        durability: QosDurability::Volatile,
        history: QosHistory::KeepLast(100),
    }
}

/// The settings of `/tf_static`: late subscribers get what was sent before.
pub fn transient_local_qos() -> (q: QosProfile)
    ensures
        q == (QosProfile {
            reliability: QosReliability::Reliable,
            durability: QosDurability::TransientLocal,
            history: QosHistory::KeepLast(100),
        }),
{
    QosProfile {
        reliability: QosReliability::Reliable,
        durability: QosDurability::TransientLocal,
        history: QosHistory::KeepLast(100),
    }
}

/// The topic that dynamic or static transforms travel on.
pub open spec fn topic_of(is_static: bool) -> Seq<char> {
    if is_static {
        "/tf_static"@
    } else {
        "/tf"@
    }
}

/// The settings of the topic that dynamic or static transforms travel on.
pub open spec fn qos_of(is_static: bool) -> QosProfile {
    QosProfile {
        reliability: QosReliability::Reliable,
        durability: if is_static {
            QosDurability::TransientLocal
        } else {
            QosDurability::Volatile
        },
        history: QosHistory::KeepLast(100),
    }
}

/// The transforms of the message that carries `transforms`.
pub open spec fn carried<T>(transforms: Seq<TransformStamped<T>>, is_static: bool) -> Seq<
    TransformStamped<T>,
> {
    if is_static {
        transforms.map_values(|tf: TransformStamped<T>| zeroed(tf))
    } else {
        transforms
    }
}

/// The topic that dynamic or static transforms travel on.
pub fn topic_name(is_static: bool) -> (s: &'static str)
    ensures
        s@ == topic_of(is_static),
{
    if is_static {
        "/tf_static"
    } else {
        "/tf"
    }
}

/// The settings of the topic that dynamic or static transforms travel on.
pub fn topic_qos(is_static: bool) -> (q: QosProfile)
    ensures
        q == qos_of(is_static),
{
    if is_static {
        transient_local_qos()
    } else {
        volatile_qos()
    }
}

/// `tf` with the stamp zero.
pub open spec fn zeroed<T>(tf: TransformStamped<T>) -> TransformStamped<T> {
    TransformStamped {
        header: Header { frame_id: tf.header.frame_id, stamp: Time { sec: 0, nanosec: 0 } },
        child_frame_id: tf.child_frame_id,
        transform: tf.transform,
    }
}

/// Sets every stamp to zero, as `/tf_static` asks, and leaves all else as it
/// is.
pub fn zero_timestamps<T>(transforms: Vec<TransformStamped<T>>) -> (r: Vec<TransformStamped<T>>)
    ensures
        r@ == transforms@.map_values(|tf: TransformStamped<T>| zeroed(tf)),
{
    let ghost given = transforms@;
    let mut r: Vec<TransformStamped<T>> = Vec::new();
    for tf in it: transforms
        invariant
            it.seq() == given,
            r@.len() == it.index(),
            forall|i: int| 0 <= i < r@.len() ==> #[trigger] r@[i] == zeroed(given[i]),
    {
        r.push(
            TransformStamped {
                header: Header {
                    frame_id: tf.header.frame_id,
                    stamp: Time { sec: 0, nanosec: 0 },
                },
                child_frame_id: tf.child_frame_id,
                transform: tf.transform,
            },
        );
    }
    assert(r@ =~= given.map_values(|tf: TransformStamped<T>| zeroed(tf)));
    r
}

/// The message that carries `transforms`. Static transforms are sent with the
/// stamp zero.
pub fn outgoing<T>(transforms: Vec<TransformStamped<T>>, is_static: bool) -> (m: TFMessage<T>)
    ensures
        m.transforms@ == carried(transforms@, is_static),
{
    if is_static {
        TFMessage { transforms: zero_timestamps(transforms) }
    } else {
        TFMessage { transforms }
    }
}

} // verus!
