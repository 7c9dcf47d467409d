//! Lookups: the transform from one frame to another at a time.

use crate::text;
use crate::text::{position_text, text_eq};
use crate::tf::buffer::{BufferInner, TfState};
use crate::tf::message::{Header, TransformExpr, TransformStamped};
use crate::tf::time;
use crate::tf::time::{ztime_to_stamp, Time, ZTime};
use crate::tf::timeline;
use vstd::prelude::*;

verus! {

/// Why a lookup failed.
#[derive(Debug)]
pub enum LookupError {
    /// The frame has no known transforms.
    UnknownFrame(String),
    /// `source` and `target` are in trees that do not meet.
    NoCommonAncestor { source: String, target: String },
    /// The requested time is outside the stored history of `frame`.
    ExtrapolationError { frame: String, requested: ZTime, oldest: ZTime, newest: ZTime },
}

/// A [`LookupError`], with its frames as texts.
pub enum Failure {
    UnknownFrame(Seq<char>),
    NoCommonAncestor { source: Seq<char>, target: Seq<char> },
    ExtrapolationError { frame: Seq<char>, requested: ZTime, oldest: ZTime, newest: ZTime },
}

impl View for LookupError {
    type V = Failure;

    open spec fn view(&self) -> Failure {
        match *self {
            LookupError::UnknownFrame(f) => Failure::UnknownFrame(f@),
            LookupError::NoCommonAncestor { source, target } => Failure::NoCommonAncestor {
                source: source@,
                target: target@,
            },
            LookupError::ExtrapolationError {
                frame,
                requested,
                oldest,
                newest,
            } => Failure::ExtrapolationError { frame: frame@, requested, oldest, newest },
        }
    }
}

/// `r` is the result `want`, with errors compared as texts.
pub open spec fn agrees<V>(r: Result<V, LookupError>, want: Result<V, Failure>) -> bool {
    match (r, want) {
        (Ok(a), Ok(b)) => a == b,
        (Err(a), Err(b)) => a@ == b,
        _ => false,
    }
}

impl<T> TfState<T> {
    /// The transform from `child` to its parent at `time`.
    ///
    /// A static transform holds at every time. Of the dynamic ones, time zero
    /// asks for the latest; any other time has to be inside the stored history,
    /// and falls on a stored transform or between two of them.
    pub open spec fn edge<'a>(self, child: Seq<char>, time: ZTime) -> Result<
        TransformExpr<'a, T>,
        Failure,
    > {
        let line = self.line(child);
        let t = time.nanos;
        if self.static_.contains_key(child) {
            Ok(TransformExpr::Stored(&self.static_[child].transform))
        } else if line == Map::<i64, TransformStamped<T>>::empty() {
            Err(Failure::UnknownFrame(child))
        } else if t == 0 {
            Ok(TransformExpr::Stored(&line[timeline::newest(line)].transform))
        } else if t < timeline::oldest(line) || timeline::newest(line) < t {
            Err(
                Failure::ExtrapolationError {
                    frame: child,
                    requested: time,
                    oldest: ZTime { nanos: timeline::oldest(line) },
                    newest: ZTime { nanos: timeline::newest(line) },
                },
            )
        } else if line.contains_key(t) {
            Ok(TransformExpr::Stored(&line[t].transform))
        } else {
            let t0 = timeline::last_before(line, t);
            let t1 = timeline::first_from(line, t);
            Ok(
                TransformExpr::Between {
                    before: &line[t0].transform,
                    after: &line[t1].transform,
                    elapsed: (t - t0) as i64,
                    span: (t1 - t0) as i64,
                },
            )
        }
    }

    /// The transform from `path[0]` to `path[n]`: the transforms of the first
    /// `n` frames of the path, one after the other.
    pub open spec fn chain<'a>(self, path: Seq<Seq<char>>, n: nat, time: ZTime) -> Result<
        TransformExpr<'a, T>,
        Failure,
    >
        decreases n,
    {
        if n == 0 {
            Ok(TransformExpr::Identity)
        } else {
            match self.chain(path, (n - 1) as nat, time) {
                Err(e) => Err(e),
                Ok(acc) => match self.edge(path[n - 1], time) {
                    Err(e) => Err(e),
                    Ok(x) => Ok(TransformExpr::Compose(Box::new(acc), Box::new(x))),
                },
            }
        }
    }

    /// `i` is the place in `from` of the first frame that is also in `to`.
    pub open spec fn meets_at(from: Seq<Seq<char>>, to: Seq<Seq<char>>, i: int) -> bool {
        &&& 0 <= i < from.len()
        &&& to.contains(from[i])
        &&& forall|j: int| 0 <= j < i ==> !to.contains(#[trigger] from[j])
    }

    /// The transform from `source` to `target` at `time`: up from the source to
    /// the first frame that both paths share, and down to the target.
    pub open spec fn found<'a>(self, target: Seq<char>, source: Seq<char>, time: ZTime) -> Result<
        TransformExpr<'a, T>,
        Failure,
    > {
        let up = self.path(source);
        let down = self.path(target);
        if target == source {
            Ok(TransformExpr::Identity)
        } else if !self.knows(source) {
            Err(Failure::UnknownFrame(source))
        } else if !self.knows(target) {
            Err(Failure::UnknownFrame(target))
        } else if forall|i: int| 0 <= i < up.len() ==> !down.contains(#[trigger] up[i]) {
            Err(Failure::NoCommonAncestor { source, target })
        } else {
            let i = choose|i: int| Self::meets_at(up, down, i);
            let j = down.index_of_first(up[i]).unwrap();
            match self.chain(up, i as nat, time) {
                Err(e) => Err(e),
                Ok(from_source) => match self.chain(down, j as nat, time) {
                    Err(e) => Err(e),
                    Ok(from_target) => Ok(
                        TransformExpr::Compose(
                            Box::new(from_source),
                            Box::new(TransformExpr::Invert(Box::new(from_target))),
                        ),
                    ),
                },
            }
        }
    }
}

/// The stamp of a lookup's result: zero where the frames are the same, else
/// that of the requested time.
pub open spec fn result_stamp(target: Seq<char>, source: Seq<char>, time: ZTime) -> Time {
    if target == source {
        Time { sec: 0, nanosec: 0 }
    } else {
        time::stamp_of(time)
    }
}

/// `r` is what a lookup in the state `s` gives.
pub open spec fn is_lookup<'a, T>(
    s: TfState<T>,
    target: Seq<char>,
    source: Seq<char>,
    time: ZTime,
    r: Result<TransformStamped<TransformExpr<'a, T>>, LookupError>,
) -> bool {
    match (r, s.found(target, source, time)) {
        (Ok(tf), Ok(x)) => {
            &&& tf.header.frame_id@ == target
            &&& tf.header.stamp == result_stamp(target, source, time)
            &&& tf.child_frame_id@ == source
            &&& tf.transform == x
        },
        (Err(a), Err(b)) => a@ == b,
        _ => false,
    }
}

/// The transform from a frame to itself.
pub fn identity_stamped<'a, T>(frame: &str) -> (r: TransformStamped<TransformExpr<'a, T>>)
    ensures
        r.header.frame_id@ == frame@,
        r.header.stamp == (Time { sec: 0, nanosec: 0 }),
        r.child_frame_id@ == frame@,
        r.transform == TransformExpr::<'a, T>::Identity,
{
    TransformStamped {
        header: Header { frame_id: frame.to_owned(), stamp: Time { sec: 0, nanosec: 0 } },
        child_frame_id: frame.to_owned(),
        transform: TransformExpr::Identity,
    }
}

impl<T> BufferInner<T> {
    /// The transform from `source` to `target` at `time`; time zero means the
    /// latest available.
    pub fn lookup<'a>(&'a self, target: &str, source: &str, time: ZTime) -> (r: Result<
        TransformStamped<TransformExpr<'a, T>>,
        LookupError,
    >)
        ensures
            is_lookup(self@, target@, source@, time, r),
    {
        if text_eq(target, source) {
            return Ok(identity_stamped(target));
        }
        let source_path = self.path_to_root(source);
        let target_path = self.path_to_root(target);
        if !self.frame_exists_anywhere(source) {
            return Err(LookupError::UnknownFrame(source.to_owned()));
        }
        if !self.frame_exists_anywhere(target) {
            return Err(LookupError::UnknownFrame(target.to_owned()));
        }
        let ghost up = text::texts(source_path@);
        let ghost down = text::texts(target_path@);
        let (i, j) = match meeting(&source_path, &target_path) {
            Some(at) => at,
            None => {
                return Err(
                    LookupError::NoCommonAncestor {
                        source: source.to_owned(),
                        target: target.to_owned(),
                    },
                );
            },
        };
        proof {
            assert(TfState::<T>::meets_at(up, down, i as int));
            let k = choose|k: int| TfState::<T>::meets_at(up, down, k);
            assert(k == i) by {
                if k < i {
                    assert(!down.contains(up[k]));
                } else if i < k {
                    assert(!down.contains(up[i as int]));
                }
            }
            assert(!(forall|i: int| 0 <= i < up.len() ==> !down.contains(#[trigger] up[i])));
        }
        let from_source = match self.chain_to(&source_path, i, time) {
            Ok(x) => x,
            Err(e) => {
                return Err(e);
            },
        };
        let from_target = match self.chain_to(&target_path, j, time) {
            Ok(x) => x,
            Err(e) => {
                return Err(e);
            },
        };
        Ok(
            TransformStamped {
                header: Header { frame_id: target.to_owned(), stamp: ztime_to_stamp(time) },
                child_frame_id: source.to_owned(),
                transform: TransformExpr::Compose(
                    Box::new(from_source),
                    Box::new(TransformExpr::Invert(Box::new(from_target))),
                ),
            },
        )
    }

    /// The transform from `path[0]` to `path[n]`.
    fn chain_to<'a>(&'a self, path: &Vec<String>, n: usize, time: ZTime) -> (r: Result<
        TransformExpr<'a, T>,
        LookupError,
    >)
        requires
            n < path@.len(),
        ensures
            agrees(r, self@.chain(text::texts(path@), n as nat, time)),
    {
        let ghost frames = text::texts(path@);
        let mut acc: TransformExpr<'a, T> = TransformExpr::Identity;
        let mut k: usize = 0;
        while k < n
            invariant
                k <= n < path@.len(),
                frames == text::texts(path@),
                self@.chain(frames, k as nat, time) == Ok::<TransformExpr<'a, T>, Failure>(acc),
            decreases n - k,
        {
            assert(frames[k as int] == path@[k as int]@);
            match self.interpolate_edge(path[k].as_str(), time) {
                Ok(x) => {
                    acc = TransformExpr::Compose(Box::new(acc), Box::new(x));
                },
                Err(e) => {
                    proof {
                        self@.chain_error(frames, (k + 1) as nat, n as nat, time);
                    }
                    return Err(e);
                },
            }
            k += 1;
        }
        Ok(acc)
    }

    /// The transform from `child` to its parent at `time`.
    pub fn interpolate_edge<'a>(&'a self, child: &str, time: ZTime) -> (r: Result<
        TransformExpr<'a, T>,
        LookupError,
    >)
        ensures
            agrees(r, self@.edge(child@, time)),
    {
        match self.static_.get(child) {
            Some(tf) => {
                return Ok(TransformExpr::Stored(&tf.transform));
            },
            None => {},
        }
        let line = match self.dynamic.get(child) {
            Some(line) => line,
            None => {
                return Err(LookupError::UnknownFrame(child.to_owned()));
            },
        };
        let (first, last) = match (line.first(), line.last()) {
            (Some(first), Some(last)) => (first, last),
            _ => {
                return Err(LookupError::UnknownFrame(child.to_owned()));
            },
        };
        proof {
            assert(line@.contains_key(first.0));
        }
        if time.nanos == 0 {
            return Ok(TransformExpr::Stored(&last.1.transform));
        }
        if time.nanos < first.0 || last.0 < time.nanos {
            return Err(
                LookupError::ExtrapolationError {
                    frame: child.to_owned(),
                    requested: time,
                    oldest: ZTime::from_unix_nanos(first.0),
                    newest: ZTime::from_unix_nanos(last.0),
                },
            );
        }
        match line.at(time.nanos) {
            Some(tf) => {
                return Ok(TransformExpr::Stored(&tf.transform));
            },
            None => {},
        }
        match (line.before(time.nanos), line.from(time.nanos)) {
            (Some(before), Some(after)) => {
                let _empty = line.is_empty();
                proof {
                    line.facts();
                }
                Ok(
                    TransformExpr::Between {
                        before: &before.1.transform,
                        after: &after.1.transform,
                        elapsed: time.nanos - before.0,
                        span: after.0 - before.0,
                    },
                )
            },
            _ => {
                proof {
                    assert(line@.contains_key(first.0) && line@.contains_key(last.0));
                    assert(false);
                }
                Err(LookupError::UnknownFrame(child.to_owned()))
            },
        }
    }
}

impl<T> TfState<T> {
    /// A chain that fails at some frame fails in the same way when it goes on.
    proof fn chain_error(self, path: Seq<Seq<char>>, k: nat, n: nat, time: ZTime)
        requires
            k <= n,
            self.chain(path, k, time) is Err,
        ensures
            self.chain(path, n, time) == self.chain(path, k, time),
        decreases n - k,
    {
        if k < n {
            self.chain_error(path, k, (n - 1) as nat, time);
        }
    }
}

/// The place in `from` of the first frame that is also in `to`, and its first
/// place in `to`.
fn meeting(from: &Vec<String>, to: &Vec<String>) -> (r: Option<(usize, usize)>)
    ensures
        ({
            let up = text::texts(from@);
            let down = text::texts(to@);
            match r {
                Some((i, j)) => {
                    &&& 0 <= i < up.len()
                    &&& down.contains(up[i as int])
                    &&& forall|k: int| 0 <= k < i ==> !down.contains(#[trigger] up[k])
                    &&& j < down.len()
                    &&& down.index_of_first(up[i as int]) == Some(j as int)
                },
                None => forall|k: int| 0 <= k < up.len() ==> !down.contains(#[trigger] up[k]),
            }
        }),
{
    let ghost up = text::texts(from@);
    let ghost down = text::texts(to@);
    let mut i: usize = 0;
    while i < from.len()
        invariant
            i <= from@.len(),
            up == text::texts(from@),
            down == text::texts(to@),
            forall|k: int| 0 <= k < i ==> !down.contains(#[trigger] up[k]),
        decreases from@.len() - i,
    {
        match position_text(to, from[i].as_str()) {
            Some(j) => {
                proof {
                    let x = up[i as int];
                    assert(down[j as int] == x);
                    down.index_of_first_ensures(x);
                    let f = down.index_of_first(x).unwrap();
                    if f < j {
                        assert(to@[f]@ != x);
                        assert(down[f] == to@[f]@);
                    }
                }
                return Some((i, j));
            },
            None => {},
        }
        i += 1;
    }
    None
}

} // verus!
