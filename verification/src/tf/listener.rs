//! The transform listener: the buffer with its lookups, and the decisions of a
//! wait for a transform.

use crate::text;
use crate::tf::buffer::{BufferInner, TfState, DEFAULT_MAX_HISTORY_NANOS};
use crate::tf::lookup;
use crate::tf::lookup::{Failure, LookupError};
use crate::tf::message::{compose_stamped, TFMessage, TransformExpr, TransformStamped};
use crate::tf::time::ZTime;
use vstd::prelude::*;
use vstd::string::*;

verus! {

/// Why a wait for a transform ended without one.
#[derive(Debug)]
pub enum WaitError {
    /// The time ran out.
    Timeout,
    /// The lookup failed in a way that waiting does not mend.
    Lookup(LookupError),
}

/// The message of a failure. `requested`, `oldest` and `newest` are the texts in
/// which the times of an extrapolation error are shown.
pub open spec fn described(
    e: Failure,
    requested: Seq<char>,
    oldest: Seq<char>,
    newest: Seq<char>,
) -> Seq<char> {
    match e {
        Failure::UnknownFrame(frame) => "frame '"@ + frame + "' has no known transforms"@,
        Failure::NoCommonAncestor { source, target } => "no common ancestor between '"@ + source
            + "' and '"@ + target + "'"@,
        Failure::ExtrapolationError { frame, .. } => "requested time "@ + requested
            + " for frame '"@ + frame + "' is outside buffer window ["@ + oldest + ", "@ + newest
            + "]"@,
    }
}

impl LookupError {
    /// The message of the error. `requested`, `oldest` and `newest` are the
    /// texts in which the times of an extrapolation error are shown.
    pub fn describe(&self, requested: &str, oldest: &str, newest: &str) -> (s: String)
        ensures
            s@ == described(self@, requested@, oldest@, newest@),
    {
        let mut s = String::new();
        match self {
            LookupError::UnknownFrame(frame) => {
                s.append("frame '");
                s.append(frame.as_str());
                s.append("' has no known transforms");
            },
            LookupError::NoCommonAncestor { source, target } => {
                s.append("no common ancestor between '");
                s.append(source.as_str());
                s.append("' and '");
                s.append(target.as_str());
                s.append("'");
            },
            LookupError::ExtrapolationError { frame, .. } => {
                s.append("requested time ");
                s.append(requested);
                s.append(" for frame '");
                s.append(frame.as_str());
                s.append("' is outside buffer window [");
                s.append(oldest);
                s.append(", ");
                s.append(newest);
                s.append("]");
            },
        }
        s
    }
}

impl WaitError {
    /// The message of the error. `cause` is the message of the lookup error in
    /// it.
    pub fn describe(&self, cause: &str) -> (s: String)
        ensures
            s@ == match *self {
                WaitError::Timeout => "wait_for_transform timed out"@,
                WaitError::Lookup(_) => "lookup failed permanently: "@ + cause@,
            },
    {
        match self {
            WaitError::Timeout => "wait_for_transform timed out".to_owned(),
            WaitError::Lookup(_) => text::join2("lookup failed permanently: ", cause),
        }
    }
}

/// Where a wait for a transform stands after a lookup.
pub enum WaitStep<'a, T> {
    /// The transform is there.
    Ready(TransformStamped<TransformExpr<'a, T>>),
    /// No transform will come.
    Failed(WaitError),
    /// It may still come.
    Pending,
}

/// `r` is what a lookup by way of `fixed` gives in the state `s`: from the source
/// to the fixed frame at the time of the source, and on to the target at the time
/// of the target.
pub open spec fn is_full_lookup<'a, T>(
    s: TfState<T>,
    target: Seq<char>,
    target_time: ZTime,
    source: Seq<char>,
    source_time: ZTime,
    fixed: Seq<char>,
    r: Result<TransformStamped<TransformExpr<'a, T>>, LookupError>,
) -> bool {
    match (s.found(fixed, source, source_time), s.found(target, fixed, target_time)) {
        (Err(e), _) => r matches Err(f) && f@ == e,
        (Ok(_), Err(e)) => r matches Err(f) && f@ == e,
        (Ok(x1), Ok(x2)) => r matches Ok(tf) && {
            &&& tf.header.frame_id@ == target
            &&& tf.header.stamp == lookup::result_stamp(target, fixed, target_time)
            &&& tf.child_frame_id@ == source
            &&& tf.transform == TransformExpr::Compose(Box::new(x1), Box::new(x2))
        },
    }
}

/// `r` is what one look at the state `s` gives in a wait for a transform.
pub open spec fn is_look<'a, T>(
    s: TfState<T>,
    target: Seq<char>,
    source: Seq<char>,
    time: ZTime,
    r: WaitStep<'a, T>,
) -> bool {
    match s.found(target, source, time) {
        Ok(_) => r matches WaitStep::Ready(tf) && lookup::is_lookup(
            s,
            target,
            source,
            time,
            Ok::<TransformStamped<TransformExpr<'a, T>>, LookupError>(tf),
        ),
        Err(e) => if e is NoCommonAncestor {
            r matches WaitStep::Failed(w) && w matches WaitError::Lookup(f) && f@ == e
        } else {
            r is Pending
        },
    }
}

/// How long a wait lasts, in nanoseconds: as long as is asked for, or else as
/// the buffer reaches back.
pub open spec fn timeout_of(timeout_nanos: Option<u128>, buffer_duration_nanos: u128) -> u128 {
    match timeout_nanos {
        Some(t) => t,
        None => buffer_duration_nanos,
    }
}

/// A transform listener: what it has received, and how long a wait lasts where
/// nothing else is said.
pub struct Buffer<T> {
    pub inner: BufferInner<T>,
    pub buffer_duration_nanos: u128,
}

impl<T> Buffer<T> {
    /// A listener that has received nothing.
    pub fn new() -> (b: Self)
        ensures
            b.inner@ == (TfState {
                dynamic: Map::<Seq<char>, Map<i64, TransformStamped<T>>>::empty(),
                static_: Map::<Seq<char>, TransformStamped<T>>::empty(),
                history: 10_000_000_000,
            }),
            b.buffer_duration_nanos == DEFAULT_MAX_HISTORY_NANOS,
    {
        Buffer { inner: BufferInner::default(), buffer_duration_nanos: DEFAULT_MAX_HISTORY_NANOS }
    }

    /// Takes in a message from `/tf`, or from `/tf_static`.
    pub fn receive(&mut self, msg: TFMessage<T>, is_static: bool)
        ensures
            final(self).inner@ == old(self).inner@.added_all(msg.transforms@, is_static),
            final(self).buffer_duration_nanos == old(self).buffer_duration_nanos,
    {
        self.inner.add_message(msg, is_static);
    }

    /// The transform that maps a point from `source` to `target` coordinates at
    /// `time`; time zero means the latest available.
    pub fn lookup_transform<'a>(&'a self, target: &str, source: &str, time: ZTime) -> (r: Result<
        TransformStamped<TransformExpr<'a, T>>,
        LookupError,
    >)
        ensures
            lookup::is_lookup(self.inner@, target@, source@, time, r),
    {
        self.inner.lookup(target, source, time)
    }

    /// Whether [`lookup_transform`](Self::lookup_transform) finds a transform.
    pub fn can_transform(&self, target: &str, source: &str, time: ZTime) -> (r: bool)
        ensures
            r == self.inner@.found(target@, source@, time) is Ok,
    {
        self.inner.lookup(target, source, time).is_ok()
    }

    /// Every frame that the buffer knows, as a child or as a parent, once.
    pub fn all_frames(&self) -> (v: Vec<String>)
        ensures
            text::texts(v@).to_set() == Set::new(|f: Seq<char>| self.inner@.knows(f)),
            text::texts(v@).no_duplicates(),
    {
        self.inner.known_frames()
    }

    /// The transform from `source` at `source_time` to `target` at
    /// `target_time`, by way of `fixed_frame`.
    pub fn lookup_transform_full<'a>(
        &'a self,
        target: &str,
        target_time: ZTime,
        source: &str,
        source_time: ZTime,
        fixed_frame: &str,
    ) -> (r: Result<TransformStamped<TransformExpr<'a, T>>, LookupError>)
        ensures
            is_full_lookup(
                self.inner@,
                target@,
                target_time,
                source@,
                source_time,
                fixed_frame@,
                r,
            ),
    {
        let t1 = match self.inner.lookup(fixed_frame, source, source_time) {
            Ok(t1) => t1,
            Err(e) => {
                return Err(e);
            },
        };
        let t2 = match self.inner.lookup(target, fixed_frame, target_time) {
            Ok(t2) => t2,
            Err(e) => {
                return Err(e);
            },
        };
        Ok(compose_stamped(t2, t1, target, source))
    }

    /// How long a wait lasts, in nanoseconds.
    pub fn wait_timeout(&self, timeout_nanos: Option<u128>) -> (n: u128)
        ensures
            n == timeout_of(timeout_nanos, self.buffer_duration_nanos),
    {
        match timeout_nanos {
            Some(t) => t,
            None => self.buffer_duration_nanos,
        }
    }

    /// One look at the buffer in a wait for a transform. Frames in trees that
    /// do not meet end the wait; every other failure may pass.
    pub fn wait_for_transform<'a>(&'a self, target: &str, source: &str, time: ZTime) -> (r: WaitStep<
        'a,
        T,
    >)
        ensures
            is_look(self.inner@, target@, source@, time, r),
    {
        match self.inner.lookup(target, source, time) {
            Ok(tf) => WaitStep::Ready(tf),
            Err(e) => match e {
                LookupError::NoCommonAncestor { source, target } => WaitStep::Failed(
                    WaitError::Lookup(LookupError::NoCommonAncestor { source, target }),
                ),
                _ => WaitStep::Pending,
            },
        }
    }
}

/// `r` says whether a wait goes on, with `remaining_nanos` left of it.
pub open spec fn is_waiting_on(remaining_nanos: u128, r: Result<(), WaitError>) -> bool {
    &&& remaining_nanos > 0 ==> r is Ok
    &&& remaining_nanos == 0 ==> (r matches Err(e) && e is Timeout)
}

/// After a look that left the wait pending: whether to go on waiting, with
/// `remaining_nanos` left until the deadline.
pub fn keep_waiting(remaining_nanos: u128) -> (r: Result<(), WaitError>)
    ensures
        is_waiting_on(remaining_nanos, r),
{
    if remaining_nanos == 0 {
        Err(WaitError::Timeout)
    } else {
        Ok(())
    }
}

} // verus!
