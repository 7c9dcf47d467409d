//! Transform messages.
//!
//! `T` is the transform value itself. Nothing in this crate looks inside it:
//! where a result is made out of several transforms, a [`TransformExpr`] says
//! which operations make it, in which order.

use crate::tf::laws;
use crate::tf::time::Time;
use vstd::prelude::*;

verus! {

/// The frame a message is expressed in, and when.
pub struct Header {
    pub frame_id: String,
    pub stamp: Time,
}

/// A transform from `child_frame_id` to the frame of the header.
pub struct TransformStamped<T> {
    pub header: Header,
    pub child_frame_id: String,
    pub transform: T,
}

/// A batch of transforms, as it travels on `/tf` and `/tf_static`.
pub struct TFMessage<T> {
    pub transforms: Vec<TransformStamped<T>>,
}

/// How a transform is made out of stored ones.
pub enum TransformExpr<'a, T> {
    /// The identity transform.
    Identity,
    /// A stored transform as it is.
    Stored(&'a T),
    /// The stored transforms `before` and `after`, interpolated at the factor
    /// `elapsed / span`.
    Between { before: &'a T, after: &'a T, elapsed: i64, span: i64 },
    /// The first transform, and then the second.
    Compose(Box<TransformExpr<'a, T>>, Box<TransformExpr<'a, T>>),
    /// The inverse of a transform.
    Invert(Box<TransformExpr<'a, T>>),
}

/// Puts two stamped transforms one after the other: `t1` leads from the source
/// frame to some frame, `t2` from there to the target frame. The stamp is that
/// of `t2`.
pub fn compose_stamped<'a, T>(
    t2: TransformStamped<TransformExpr<'a, T>>,
    t1: TransformStamped<TransformExpr<'a, T>>,
    target_frame: &str,
    source_frame: &str,
) -> (r: TransformStamped<TransformExpr<'a, T>>)
    ensures
        r.header.frame_id@ == target_frame@,
        r.header.stamp == t2.header.stamp,
        r.child_frame_id@ == source_frame@,
        r.transform == TransformExpr::Compose(Box::new(t1.transform), Box::new(t2.transform)),
        laws::steps(r.transform) == laws::steps(t1.transform) + laws::steps(t2.transform),
{
    TransformStamped {
        header: Header { frame_id: target_frame.to_owned(), stamp: t2.header.stamp },
        child_frame_id: source_frame.to_owned(),
        transform: TransformExpr::Compose(Box::new(t1.transform), Box::new(t2.transform)),
    }
}

} // verus!
