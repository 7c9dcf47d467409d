//! What holds of every transform buffer.

use crate::text;
use crate::text_laws;
use crate::tf::broadcast;
use crate::tf::buffer;
use crate::tf::buffer::TfState;
use crate::tf::listener;
use crate::tf::lookup;
use crate::tf::lookup::{Failure, LookupError};
use crate::tf::message::{TransformExpr, TransformStamped};
use crate::tf::time;
use crate::tf::time::{Time, ZTime};
use crate::tf::timeline;
use vstd::prelude::*;

verus! {

// ---------------------------------------------------------------------------
// Storing
// ---------------------------------------------------------------------------

/// Storing a message and then another is storing the transforms of both in one.
pub proof fn messages_in_sequence<T>(
    s: TfState<T>,
    first: Seq<TransformStamped<T>>,
    second: Seq<TransformStamped<T>>,
    is_static: bool,
)
    ensures
        s.added_all(first, is_static).added_all(second, is_static) == s.added_all(
            first + second,
            is_static,
        ),
    decreases second.len(),
{
    if second.len() == 0 {
        assert(first + second =~= first);
    } else {
        messages_in_sequence(s, first, second.drop_last(), is_static);
        assert((first + second).drop_last() =~= first + second.drop_last());
        assert((first + second).last() == second.last());
    }
}

/// Once a dynamic transform is stored, nothing dynamic is left that is older
/// than its stamp by more than the history that is kept.
pub proof fn history_is_bounded<T>(
    s: TfState<T>,
    tf: TransformStamped<T>,
    child: Seq<char>,
    t: i64,
)
    requires
        s.added(tf, false).dynamic.contains_key(child),
        s.added(tf, false).dynamic[child].contains_key(t),
    ensures
        s.cutoff(time::stamp_nanos(tf.header.stamp)) <= t,
{
}

/// A dynamic transform is there once it is stored, in place of what stood at its
/// time.
pub proof fn stored_dynamic<T>(s: TfState<T>, tf: TransformStamped<T>)
    ensures
        ({
            let stamp = time::stamp_nanos(tf.header.stamp) as i64;
            let line = s.added(tf, false).line(tf.child_frame_id@);
            line.contains_key(stamp) && line[stamp] == tf
        }),
{
}

/// A static transform takes the place of the static transform of the same child
/// before it, and touches nothing else.
pub proof fn static_overwrites<T>(s: TfState<T>, first: TransformStamped<T>, second: TransformStamped<T>)
    requires
        first.child_frame_id@ == second.child_frame_id@,
    ensures
        s.added(first, true).added(second, true) == s.added(second, true),
        s.added(second, true).static_[second.child_frame_id@] == second,
        s.added(second, true).dynamic == s.dynamic,
{
    assert(s.added(first, true).added(second, true) =~= s.added(second, true));
}

/// What is within the history that is kept stays, and stays as it was, when a
/// transform of another time or another frame is stored.
pub proof fn recent_entries_stay<T>(s: TfState<T>, tf: TransformStamped<T>, child: Seq<char>, t: i64)
    requires
        s.dynamic.contains_key(child),
        s.dynamic[child].contains_key(t),
        s.cutoff(time::stamp_nanos(tf.header.stamp)) <= t,
        child != tf.child_frame_id@ || t != time::stamp_nanos(tf.header.stamp),
    ensures
        s.added(tf, false).dynamic.contains_key(child),
        s.added(tf, false).dynamic[child].contains_key(t),
        s.added(tf, false).dynamic[child][t] == s.dynamic[child][t],
        s.added(tf, false).static_ == s.static_,
{
}

/// A frame is known while a transform of it is stored, and so is the frame that
/// any stored transform hangs from.
pub proof fn stored_child_is_known<T>(s: TfState<T>, child: Seq<char>, t: i64)
    ensures
        s.static_.contains_key(child) ==> s.knows(child) && s.knows(
            s.static_[child].header.frame_id@,
        ),
        s.line(child).contains_key(t) ==> s.knows(child) && s.knows(
            s.line(child)[t].header.frame_id@,
        ),
{
    if s.line(child).contains_key(t) {
        assert(s.line(child) != Map::<i64, TransformStamped<T>>::empty());
        assert(s.dynamic.contains_key(child) && timeline::hangs_from(
            s.dynamic[child],
            s.line(child)[t].header.frame_id@,
        ));
    }
}

/// Both frames of a transform are known once it is stored.
pub proof fn storing_makes_known<T>(s: TfState<T>, tf: TransformStamped<T>, is_static: bool)
    ensures
        s.added(tf, is_static).knows(tf.child_frame_id@),
        s.added(tf, is_static).knows(tf.header.frame_id@),
{
    if !is_static {
        stored_dynamic(s, tf);
    }
    stored_child_is_known(
        s.added(tf, is_static),
        tf.child_frame_id@,
        time::stamp_nanos(tf.header.stamp) as i64,
    );
}

/// A frame whose transforms have all grown too old, and from which none hangs,
/// is not known any more.
pub proof fn pruned_frames_are_unknown<T>(s: TfState<T>, frame: Seq<char>)
    requires
        !s.static_.contains_key(frame),
        forall|t: i64| !#[trigger] s.line(frame).contains_key(t),
        forall|c: Seq<char>, t: i64| #[trigger]
            s.line(c).contains_key(t) ==> s.line(c)[t].header.frame_id@ != frame,
        forall|c: Seq<char>| #[trigger]
            s.static_.contains_key(c) ==> s.static_[c].header.frame_id@ != frame,
    ensures
        !s.knows(frame),
{
    assert(s.line(frame) =~= Map::<i64, TransformStamped<T>>::empty());
    assert forall|c: Seq<char>| #[trigger] s.dynamic.contains_key(c) implies !timeline::hangs_from(
        s.dynamic[c],
        frame,
    ) by {
        assert(s.line(c) == s.dynamic[c]);
    }
}

/// A static broadcast carries the stamp zero, keeps frames and transform, and
/// changes nothing when done twice.
pub proof fn zeroing<T>(tf: TransformStamped<T>)
    ensures
        time::stamp_nanos(broadcast::zeroed(tf).header.stamp) == 0,
        broadcast::zeroed(tf).header.frame_id == tf.header.frame_id,
        broadcast::zeroed(tf).child_frame_id == tf.child_frame_id,
        broadcast::zeroed(tf).transform == tf.transform,
        broadcast::zeroed(broadcast::zeroed(tf)) == broadcast::zeroed(tf),
{
}

// ---------------------------------------------------------------------------
// Paths
// ---------------------------------------------------------------------------

/// `path` goes from frame to parent and passes no frame twice.
pub open spec fn is_way_up<T>(s: TfState<T>, path: Seq<Seq<char>>) -> bool {
    &&& 0 < path.len() <= 100
    &&& path.no_duplicates()
    &&& forall|i: int|
        0 <= i < path.len() - 1 ==> s.parent(#[trigger] path[i]) == Some(path[i + 1])
}

/// `path` has nowhere to go on to: its last frame has no parent, or one that
/// the path has passed, or the path is as long as paths get.
pub open spec fn has_ended<T>(s: TfState<T>, path: Seq<Seq<char>>) -> bool {
    ||| path.len() == 100
    ||| s.parent(path.last()) is None
    ||| (s.parent(path.last()) matches Some(p) && path.contains(p))
}

proof fn followed_facts<T>(s: TfState<T>, path: Seq<Seq<char>>)
    requires
        is_way_up(s, path),
    ensures
        is_way_up(s, s.followed(path)),
        has_ended(s, s.followed(path)),
        path.is_prefix_of(s.followed(path)),
    decreases buffer::MAX_TREE_DEPTH - path.len(),
{
    if path.len() < buffer::MAX_TREE_DEPTH {
        match s.parent(path.last()) {
            None => {},
            Some(p) => {
                if !path.contains(p) {
                    let longer = path.push(p);
                    assert forall|i: int| 0 <= i < longer.len() - 1 implies s.parent(
                        #[trigger] longer[i],
                    ) == Some(longer[i + 1]) by {
                        if i < path.len() - 1 {
                            assert(s.parent(path[i]) == Some(path[i + 1]));
                        }
                    }
                    assert(longer.no_duplicates());
                    followed_facts(s, longer);
                    let all = s.followed(longer);
                    assert(path =~= all.subrange(0, path.len() as int)) by {
                        assert(longer =~= all.subrange(0, longer.len() as int));
                        assert forall|i: int| 0 <= i < path.len() implies path[i] == all[i] by {
                            assert(longer[i] == all.subrange(0, longer.len() as int)[i]);
                        }
                    }
                }
            },
        }
    }
}

/// The path of a frame starts at the frame, goes from frame to parent, passes
/// no frame twice, is never longer than the greatest depth, and stops only
/// where it has to.
pub proof fn path_facts<T>(s: TfState<T>, frame: Seq<char>)
    ensures
        s.path(frame)[0] == frame,
        is_way_up(s, s.path(frame)),
        has_ended(s, s.path(frame)),
{
    let start = seq![frame];
    assert(is_way_up(s, start));
    followed_facts(s, start);
    assert(start[0] == s.path(frame).subrange(0, 1)[0]);
}

/// The frame `n` steps above `frame`.
pub open spec fn ancestor<T>(s: TfState<T>, frame: Seq<char>, n: nat) -> Option<Seq<char>>
    decreases n,
{
    if n == 0 {
        Some(frame)
    } else {
        match ancestor(s, frame, (n - 1) as nat) {
            None => None,
            Some(f) => s.parent(f),
        }
    }
}

proof fn ancestor_of_ancestor<T>(s: TfState<T>, frame: Seq<char>, n: nat, m: nat)
    requires
        ancestor(s, frame, n) is Some,
    ensures
        ancestor(s, frame, n + m) == ancestor(s, ancestor(s, frame, n).unwrap(), m),
    decreases m,
{
    if m > 0 {
        ancestor_of_ancestor(s, frame, n, (m - 1) as nat);
    }
}

proof fn along_path<T>(s: TfState<T>, path: Seq<Seq<char>>, i: int, k: nat)
    requires
        is_way_up(s, path),
        0 <= i,
        i + k < path.len(),
    ensures
        ancestor(s, path[i], k) == Some(path[i + k]),
    decreases k,
{
    if k > 0 {
        along_path(s, path, i, (k - 1) as nat);
        assert(s.parent(path[i + k - 1]) == Some(path[i + k - 1 + 1]));
    }
}

/// No frame is above itself.
pub open spec fn is_forest<T>(s: TfState<T>) -> bool {
    forall|f: Seq<char>, n: nat| n > 0 ==> #[trigger] ancestor(s, f, n) != Some(f)
}

/// In a forest two paths that share a frame first meet at the same frame,
/// whichever of the two is followed.
pub proof fn paths_meet_once<T>(s: TfState<T>, a: Seq<char>, b: Seq<char>, i: int, j: int)
    requires
        is_forest(s),
        TfState::<T>::meets_at(s.path(a), s.path(b), i),
        TfState::<T>::meets_at(s.path(b), s.path(a), j),
    ensures
        s.path(a)[i] == s.path(b)[j],
{
    path_facts(s, a);
    path_facts(s, b);
    let up = s.path(a);
    let down = s.path(b);
    let x = up[i];
    let y = down[j];
    let xd = down.index_of(x);
    let yu = up.index_of(y);
    assert(down[xd] == x && 0 <= xd < down.len());
    assert(up[yu] == y && 0 <= yu < up.len());
    if x != y {
        // Along `up` the frame x comes first, along `down` the frame y: each is
        // then above the other.
        assert(i <= yu) by {
            if yu < i {
                assert(!down.contains(up[yu]));
                assert(down.contains(y)) by {
                    assert(down[j] == y);
                }
            }
        }
        assert(j <= xd) by {
            if xd < j {
                assert(!up.contains(down[xd]));
                assert(up.contains(x)) by {
                    assert(up[i] == x);
                }
            }
        }
        let k = (yu - i) as nat;
        let m = (xd - j) as nat;
        along_path(s, up, i, k);
        along_path(s, down, j, m);
        ancestor_of_ancestor(s, x, k, m);
        assert(ancestor(s, x, k + m) == Some(x));
        assert(k + m > 0);
    }
}

// ---------------------------------------------------------------------------
// Lookups
// ---------------------------------------------------------------------------

/// From a frame to itself the transform is the identity, whatever is stored.
pub proof fn same_frame_is_identity<T>(s: TfState<T>, frame: Seq<char>, at: ZTime)
    ensures
        s.found(frame, frame, at) == Ok::<TransformExpr<T>, Failure>(TransformExpr::Identity),
{
}

/// A static transform holds at every time, and goes before a dynamic one.
pub proof fn static_at_any_time<T>(s: TfState<T>, child: Seq<char>, at: ZTime)
    requires
        s.static_.contains_key(child),
    ensures
        s.edge(child, at) == Ok::<TransformExpr<T>, Failure>(
            TransformExpr::Stored(&s.static_[child].transform),
        ),
{
}

proof fn last_before_exists<T>(m: Map<i64, T>, t: i64, k: i64)
    requires
        m.contains_key(k),
        k < t,
    ensures
        timeline::is_last_before(m, t, timeline::last_before(m, t)),
    decreases t - k,
{
    if exists|j: i64| #[trigger] m.contains_key(j) && k < j < t {
        let j = choose|j: i64| #[trigger] m.contains_key(j) && k < j < t;
        last_before_exists(m, t, j);
    } else {
        assert(timeline::is_last_before(m, t, k));
    }
}

proof fn first_from_exists<T>(m: Map<i64, T>, t: i64, k: i64)
    requires
        m.contains_key(k),
        t <= k,
    ensures
        timeline::is_first_from(m, t, timeline::first_from(m, t)),
    decreases k - t,
{
    if exists|j: i64| #[trigger] m.contains_key(j) && t <= j < k {
        let j = choose|j: i64| #[trigger] m.contains_key(j) && t <= j < k;
        first_from_exists(m, t, j);
    } else {
        assert(timeline::is_first_from(m, t, k));
    }
}

proof fn newest_exists<T>(m: Map<i64, T>, k: i64)
    requires
        m.contains_key(k),
    ensures
        timeline::is_newest(m, timeline::newest(m)),
    decreases i64::MAX - k,
{
    if exists|j: i64| #[trigger] m.contains_key(j) && k < j {
        let j = choose|j: i64| #[trigger] m.contains_key(j) && k < j;
        newest_exists(m, j);
    } else {
        assert(timeline::is_newest(m, k));
    }
}

proof fn oldest_exists<T>(m: Map<i64, T>, k: i64)
    requires
        m.contains_key(k),
    ensures
        timeline::is_oldest(m, timeline::oldest(m)),
    decreases k - i64::MIN,
{
    if exists|j: i64| #[trigger] m.contains_key(j) && j < k {
        let j = choose|j: i64| #[trigger] m.contains_key(j) && j < k;
        oldest_exists(m, j);
    } else {
        assert(timeline::is_oldest(m, k));
    }
}

/// Time zero asks for the latest stored transform: no stored one is later.
pub proof fn zero_is_latest<T>(s: TfState<T>, child: Seq<char>, t: i64)
    requires
        !s.static_.contains_key(child),
        s.line(child).contains_key(t),
    ensures
        ({
            let line = s.line(child);
            &&& s.edge(child, ZTime { nanos: 0 }) == Ok::<TransformExpr<T>, Failure>(
                TransformExpr::Stored(&line[timeline::newest(line)].transform),
            )
            &&& line.contains_key(timeline::newest(line))
            &&& t <= timeline::newest(line)
        }),
{
    newest_exists(s.line(child), t);
}

/// A transform that was stored is found again at its own time.
pub proof fn exact_time_is_stored<T>(s: TfState<T>, child: Seq<char>, at: ZTime)
    requires
        !s.static_.contains_key(child),
        s.line(child).contains_key(at.nanos),
        at.nanos != 0,
    ensures
        s.edge(child, at) == Ok::<TransformExpr<T>, Failure>(
            TransformExpr::Stored(&s.line(child)[at.nanos].transform),
        ),
{
    newest_exists(s.line(child), at.nanos);
    oldest_exists(s.line(child), at.nanos);
}

/// A dynamic transform is available at a time other than zero exactly where the
/// time is neither before the earliest nor after the latest stored one.
pub proof fn available_inside_the_window<T>(s: TfState<T>, child: Seq<char>, at: ZTime, t: i64)
    requires
        !s.static_.contains_key(child),
        s.line(child).contains_key(t),
        at.nanos != 0,
    ensures
        ({
            let line = s.line(child);
            &&& timeline::is_oldest(line, timeline::oldest(line))
            &&& timeline::is_newest(line, timeline::newest(line))
            &&& (s.edge(child, at) is Ok <==> timeline::oldest(line) <= at.nanos
                <= timeline::newest(line))
            &&& (s.edge(child, at) matches Err(e) ==> e == Failure::ExtrapolationError {
                frame: child,
                requested: at,
                oldest: ZTime { nanos: timeline::oldest(line) },
                newest: ZTime { nanos: timeline::newest(line) },
            })
        }),
{
    newest_exists(s.line(child), t);
    oldest_exists(s.line(child), t);
}

/// Between stored times the neighbours on both sides are interpolated, at a
/// factor strictly between zero and one.
pub proof fn interpolation_is_bracketed<T>(s: TfState<T>, child: Seq<char>, at: ZTime)
    requires
        forall|t: i64| #[trigger]
            s.line(child).contains_key(t) ==> t == time::stamp_nanos(
                s.line(child)[t].header.stamp,
            ),
        s.edge(child, at) matches Ok(x) && x is Between,
    ensures
        ({
            let line = s.line(child);
            let t0 = timeline::last_before(line, at.nanos);
            let t1 = timeline::first_from(line, at.nanos);
            &&& timeline::is_last_before(line, at.nanos, t0)
            &&& timeline::is_first_from(line, at.nanos, t1)
            &&& t0 < at.nanos < t1
            &&& s.edge(child, at) matches Ok(x) && x == (TransformExpr::Between {
                before: &line[t0].transform,
                after: &line[t1].transform,
                elapsed: (at.nanos - t0) as i64,
                span: (t1 - t0) as i64,
            })
            &&& 0 < ((at.nanos - t0) as i64) < ((t1 - t0) as i64)
            &&& ((at.nanos - t0) as i64) == at.nanos - t0
            &&& ((t1 - t0) as i64) == t1 - t0
        }),
{
    let line = s.line(child);
    assert(exists|t: i64| #[trigger] line.contains_key(t)) by {
        if forall|t: i64| !(#[trigger] line.contains_key(t)) {
            assert(line =~= Map::<i64, TransformStamped<T>>::empty());
        }
    }
    let t = choose|t: i64| #[trigger] line.contains_key(t);
    newest_exists(line, t);
    oldest_exists(line, t);
    last_before_exists(line, at.nanos, timeline::oldest(line));
    first_from_exists(line, at.nanos, timeline::newest(line));
}

/// A lookup between different frames fails with the unknown frame, the source
/// before the target.
pub proof fn unknown_frames_fail<T>(s: TfState<T>, target: Seq<char>, source: Seq<char>, at: ZTime)
    requires
        target != source,
        !s.knows(source) || !s.knows(target),
    ensures
        s.found(target, source, at) == Err::<TransformExpr<T>, Failure>(
            Failure::UnknownFrame(if !s.knows(source) { source } else { target }),
        ),
{
}

proof fn knows_ends<T>(s: TfState<T>, frame: Seq<char>, p: Seq<char>)
    requires
        s.parent(frame) == Some(p),
    ensures
        s.knows(frame),
        s.knows(p),
{
    if s.static_.contains_key(frame) {
        stored_child_is_known(s, frame, 0);
    } else {
        let line = s.line(frame);
        assert(exists|k: i64| #[trigger] line.contains_key(k)) by {
            if forall|k: i64| !#[trigger] line.contains_key(k) {
                assert(line =~= Map::<i64, TransformStamped<T>>::empty());
            }
        }
        let k = choose|k: i64| #[trigger] line.contains_key(k);
        newest_exists(line, k);
        stored_child_is_known(s, frame, timeline::newest(line));
    }
}

proof fn chain_of_one<T>(s: TfState<T>, path: Seq<Seq<char>>, at: ZTime)
    ensures
        s.chain(path, 1, at) == (match s.edge(path[0], at) {
            Ok(x) => Ok::<TransformExpr<T>, Failure>(
                TransformExpr::Compose(Box::new(TransformExpr::Identity), Box::new(x)),
            ),
            Err(e) => Err::<TransformExpr<T>, Failure>(e),
        }),
{
    assert(s.chain(path, 0, at) == Ok::<TransformExpr<T>, Failure>(TransformExpr::Identity));
}

proof fn first_step_up<T>(s: TfState<T>, parent: Seq<char>, child: Seq<char>)
    requires
        s.parent(child) == Some(parent),
        !s.path(parent).contains(child),
    ensures
        s.path(child)[0] == child,
        s.path(child)[1] == parent,
        s.path(parent)[0] == parent,
        s.path(parent).len() > 0,
        parent != child,
        TfState::<T>::meets_at(s.path(child), s.path(parent), 1),
{
    path_facts(s, parent);
    path_facts(s, child);
    let up = s.path(child);
    let down = s.path(parent);
    assert(down.contains(parent)) by {
        assert(down[0] == parent);
    }
    assert(up.len() > 1) by {
        if up.len() == 1 {
            assert(up.last() == child);
            assert(up.contains(parent));
            assert(up[up.index_of(parent)] == parent);
        }
    }
    assert(s.parent(up[0]) == Some(up[1]));
}

/// From a frame to its parent, where the parent is not below it, a lookup is
/// the one edge between them.
pub proof fn direct_edge<T>(s: TfState<T>, parent: Seq<char>, child: Seq<char>, at: ZTime)
    requires
        s.parent(child) == Some(parent),
        !s.path(parent).contains(child),
    ensures
        match s.edge(child, at) {
            Ok(x) => s.found(parent, child, at) == Ok::<TransformExpr<T>, Failure>(
                TransformExpr::Compose(
                    Box::new(
                        TransformExpr::Compose(Box::new(TransformExpr::Identity), Box::new(x)),
                    ),
                    Box::new(TransformExpr::Invert(Box::new(TransformExpr::Identity))),
                ),
            ),
            Err(e) => s.found(parent, child, at) == Err::<TransformExpr<T>, Failure>(e),
        },
{
    knows_ends(s, child, parent);
    first_step_up(s, parent, child);
    assert(parent != child);
    lookup_via_meeting(s, parent, child, at, 1, 0);
    chain_of_one(s, s.path(child), at);
    assert(s.chain(s.path(parent), 0, at) == Ok::<TransformExpr<T>, Failure>(
        TransformExpr::Identity,
    ));
}

/// The ways up from the source and from the target to the frame where they
/// meet, put together.
pub open spec fn via_meeting<'a, T>(
    from_source: Result<TransformExpr<'a, T>, Failure>,
    from_target: Result<TransformExpr<'a, T>, Failure>,
) -> Result<TransformExpr<'a, T>, Failure> {
    match from_source {
        Err(e) => Err(e),
        Ok(up) => match from_target {
            Err(e) => Err(e),
            Ok(down) => Ok(
                TransformExpr::Compose(
                    Box::new(up),
                    Box::new(TransformExpr::Invert(Box::new(down))),
                ),
            ),
        },
    }
}

/// A lookup between known frames whose paths meet goes up both paths to the
/// first shared frame.
pub proof fn lookup_via_meeting<T>(
    s: TfState<T>,
    target: Seq<char>,
    source: Seq<char>,
    at: ZTime,
    i: int,
    j: int,
)
    requires
        target != source,
        s.knows(source),
        s.knows(target),
        TfState::<T>::meets_at(s.path(source), s.path(target), i),
        0 <= j < s.path(target).len(),
        s.path(target)[j] == s.path(source)[i],
    ensures
        s.found(target, source, at) == via_meeting(
            s.chain(s.path(source), i as nat, at),
            s.chain(s.path(target), j as nat, at),
        ),
{
    path_facts(s, target);
    let up = s.path(source);
    let down = s.path(target);
    let i0 = choose|k: int| TfState::<T>::meets_at(up, down, k);
    assert(i0 == i) by {
        if i0 < i {
            assert(!down.contains(up[i0]));
        } else if i < i0 {
            assert(!down.contains(up[i]));
        }
    }
    down.index_of_first_ensures(up[i]);
    let j0 = down.index_of_first(up[i]).unwrap();
    assert(down[j0] == down[j] && 0 <= j0 < down.len());
    assert(j0 == j);
    assert(down.contains(up[i]));
}

/// Where the two paths first meet at the same frame, the lookup in the other
/// direction succeeds exactly when this one does, and exchanges the two ways up.
pub proof fn lookup_reversed<T>(
    s: TfState<T>,
    target: Seq<char>,
    source: Seq<char>,
    at: ZTime,
    i: int,
    j: int,
)
    requires
        target != source,
        TfState::<T>::meets_at(s.path(source), s.path(target), i),
        TfState::<T>::meets_at(s.path(target), s.path(source), j),
        s.path(source)[i] == s.path(target)[j],
    ensures
        s.found(target, source, at) is Ok <==> s.found(source, target, at) is Ok,
        s.found(target, source, at) matches Ok(x) ==> {
            &&& x matches TransformExpr::Compose(up, back)
            &&& *back matches TransformExpr::Invert(down)
            &&& s.found(source, target, at) == Ok::<TransformExpr<T>, Failure>(
                TransformExpr::Compose(down, Box::new(TransformExpr::Invert(up))),
            )
        },
{
    if s.knows(source) && s.knows(target) {
        lookup_via_meeting(s, target, source, at, i, j);
        lookup_via_meeting(s, source, target, at, j, i);
    } else {
        unknown_frames_fail(s, target, source, at);
        unknown_frames_fail(s, source, target, at);
    }
}

// ---------------------------------------------------------------------------
// The order in which transforms apply
// ---------------------------------------------------------------------------

/// The stored transforms that `x` is made of, in the order in which they apply;
/// with each, whether its inverse is meant.
pub open spec fn steps<'a, T>(x: TransformExpr<'a, T>) -> Seq<(TransformExpr<'a, T>, bool)>
    decreases x,
{
    match x {
        TransformExpr::Identity => seq![],
        TransformExpr::Stored(_) => seq![(x, false)],
        TransformExpr::Between { .. } => seq![(x, false)],
        TransformExpr::Compose(first, second) => steps(*first) + steps(*second),
        TransformExpr::Invert(inner) => backwards(steps(*inner)),
    }
}

/// The steps undone: the last one first, each the other way round.
pub open spec fn backwards<'a, T>(all: Seq<(TransformExpr<'a, T>, bool)>) -> Seq<
    (TransformExpr<'a, T>, bool),
> {
    Seq::new(all.len(), |k: int| (all[all.len() - 1 - k].0, !all[all.len() - 1 - k].1))
}

/// The edges of the first `n` frames of `path`, the first frame's first.
pub open spec fn edges_up<'a, T>(s: TfState<T>, path: Seq<Seq<char>>, n: nat, at: ZTime) -> Seq<
    (TransformExpr<'a, T>, bool),
> {
    Seq::new(n, |k: int| (s.edge(path[k], at)->Ok_0, false))
}

/// The inverses of the edges of the first `n` frames of `path`, the first
/// frame's last.
pub open spec fn edges_down<'a, T>(s: TfState<T>, path: Seq<Seq<char>>, n: nat, at: ZTime) -> Seq<
    (TransformExpr<'a, T>, bool),
> {
    Seq::new(n, |k: int| (s.edge(path[n - 1 - k], at)->Ok_0, true))
}

/// The edges of the first `n` frames of `path` are all available.
pub open spec fn all_available<T>(s: TfState<T>, path: Seq<Seq<char>>, n: nat, at: ZTime) -> bool {
    forall|k: int| 0 <= k < n ==> (#[trigger] s.edge(path[k], at)) is Ok
}

/// `e` is what the first edge that is missing among the first `n` frames of
/// `path` fails with.
pub open spec fn first_missing<T>(
    s: TfState<T>,
    path: Seq<Seq<char>>,
    n: nat,
    at: ZTime,
    e: Failure,
) -> bool {
    exists|k: nat|
        k < n && #[trigger] all_available(s, path, k, at) && s.edge(path[k as int], at) == Err::<
            TransformExpr<T>,
            Failure,
        >(e)
}

/// The way up one frame more is the way up so far, and then the edge of the
/// frame that was reached.
pub proof fn one_frame_further<T>(s: TfState<T>, path: Seq<Seq<char>>, n: nat, at: ZTime)
    requires
        s.chain(path, n, at) is Ok,
        s.edge(path[n as int], at) is Ok,
    ensures
        s.chain(path, n + 1, at) matches Ok(x) && steps(x) == steps(s.chain(path, n, at)->Ok_0).push(
            (s.edge(path[n as int], at)->Ok_0, false),
        ),
{
    assert(steps(s.chain(path, n + 1, at)->Ok_0) =~= steps(s.chain(path, n, at)->Ok_0).push(
        (s.edge(path[n as int], at)->Ok_0, false),
    )) by {
        reveal_with_fuel(steps, 3);
    }
}

/// Along a path the stored transforms apply in the order of the path: the way
/// up `n` frames is made of the edges of the first `n` frames, each once. It is
/// there exactly where all of them are; otherwise the first that is missing
/// decides the error.
pub proof fn path_order_is_kept<T>(s: TfState<T>, path: Seq<Seq<char>>, n: nat, at: ZTime)
    ensures
        match s.chain(path, n, at) {
            Ok(x) => all_available(s, path, n, at) && steps(x) == edges_up(s, path, n, at),
            Err(e) => first_missing(s, path, n, at, e),
        },
    decreases n,
{
    if n == 0 {
        assert(s.chain(path, 0, at) == Ok::<TransformExpr<T>, Failure>(TransformExpr::Identity));
        assert(steps(TransformExpr::<T>::Identity) =~= edges_up(s, path, 0, at));
    } else {
        let m = (n - 1) as nat;
        path_order_is_kept(s, path, m, at);
        match s.chain(path, m, at) {
            Ok(_) => {
                match s.edge(path[m as int], at) {
                    Ok(_) => {
                        one_frame_further(s, path, m, at);
                        assert(edges_up(s, path, n, at) =~= edges_up(s, path, m, at).push(
                            (s.edge(path[m as int], at)->Ok_0, false),
                        ));
                    },
                    Err(e) => {
                        assert(all_available(s, path, m, at));
                        assert(first_missing(s, path, n, at, e));
                    },
                }
            },
            Err(e) => {
                let k = choose|k: nat|
                    k < m && #[trigger] all_available(s, path, k, at) && s.edge(path[k as int], at)
                        == Err::<TransformExpr<T>, Failure>(e);
                assert(k < n && all_available(s, path, k, at));
            },
        }
    }
}

proof fn steps_of_both<'a, T>(up: TransformExpr<'a, T>, down: TransformExpr<'a, T>)
    ensures
        steps(TransformExpr::Compose(Box::new(up), Box::new(TransformExpr::Invert(Box::new(down)))))
            == steps(up) + backwards(steps(down)),
{
    reveal_with_fuel(steps, 3);
}

/// A lookup between two known frames applies the edges from the source up to
/// the first frame of its path that the target's path has too, in the order of
/// the path, and then the inverses of the edges from there down to the target.
/// It succeeds exactly where all these edges are available; otherwise it fails
/// as the first missing one does, those of the source's path before those of
/// the target's.
pub proof fn lookup_order_is_kept<T>(
    s: TfState<T>,
    target: Seq<char>,
    source: Seq<char>,
    at: ZTime,
    i: nat,
    j: nat,
)
    requires
        target != source,
        s.knows(source),
        s.knows(target),
        i < s.path(source).len(),
        j < s.path(target).len(),
        s.path(source)[i as int] == s.path(target)[j as int],
        forall|k: int, m: int|
            0 <= k < i && 0 <= m < s.path(target).len() ==> (#[trigger] s.path(source)[k]) != (
            #[trigger] s.path(target)[m]),
    ensures
        match s.found(target, source, at) {
            Ok(x) => {
                &&& all_available(s, s.path(source), i, at)
                &&& all_available(s, s.path(target), j, at)
                &&& steps(x) == edges_up(s, s.path(source), i, at) + edges_down(
                    s,
                    s.path(target),
                    j,
                    at,
                )
            },
            Err(e) => {
                ||| first_missing(s, s.path(source), i, at, e)
                ||| all_available(s, s.path(source), i, at) && first_missing(
                    s,
                    s.path(target),
                    j,
                    at,
                    e,
                )
            },
        },
{
    let up = s.path(source);
    let down = s.path(target);
    assert(TfState::<T>::meets_at(up, down, i as int));
    lookup_via_meeting(s, target, source, at, i as int, j as int);
    path_order_is_kept(s, up, i, at);
    path_order_is_kept(s, down, j, at);
    if s.chain(up, i, at) is Ok && s.chain(down, j, at) is Ok {
        steps_of_both(s.chain(up, i, at)->Ok_0, s.chain(down, j, at)->Ok_0);
        assert(backwards(edges_up(s, down, j, at)) =~= edges_down(s, down, j, at));
    }
}

/// A lookup between two different known frames says that there is no common
/// ancestor exactly where the two paths share no frame.
pub proof fn apart_exactly_without_a_shared_frame<T>(
    s: TfState<T>,
    target: Seq<char>,
    source: Seq<char>,
    at: ZTime,
)
    requires
        target != source,
        s.knows(source),
        s.knows(target),
    ensures
        (forall|k: int, m: int|
            0 <= k < s.path(source).len() && 0 <= m < s.path(target).len() ==> (#[trigger] s.path(
                source,
            )[k]) != (#[trigger] s.path(target)[m])) <==> s.found(target, source, at) == Err::<
            TransformExpr<T>,
            Failure,
        >(Failure::NoCommonAncestor { source, target }),
{
    let up = s.path(source);
    let down = s.path(target);
    if forall|k: int, m: int|
        0 <= k < up.len() && 0 <= m < down.len() ==> (#[trigger] up[k]) != (#[trigger] down[m]) {
        assert forall|k: int| 0 <= k < up.len() implies !down.contains(#[trigger] up[k]) by {
            if down.contains(up[k]) {
                assert(down[down.index_of(up[k])] == up[k]);
            }
        }
    } else {
        let (k, m) = choose|k: int, m: int|
            0 <= k < up.len() && 0 <= m < down.len() && (#[trigger] up[k]) == (#[trigger] down[m]);
        assert(down.contains(up[k]));
        first_shared(s, up, down, k);
        let i = choose|i: int| TfState::<T>::meets_at(up, down, i);
        let j = down.index_of(up[i]);
        lookup_via_meeting(s, target, source, at, i, j);
        path_order_is_kept(s, up, i as nat, at);
        path_order_is_kept(s, down, j as nat, at);
    }
}

proof fn first_shared<T>(s: TfState<T>, up: Seq<Seq<char>>, down: Seq<Seq<char>>, k: int)
    requires
        0 <= k < up.len(),
        down.contains(up[k]),
    ensures
        exists|i: int| TfState::<T>::meets_at(up, down, i),
    decreases k,
{
    if exists|m: int| 0 <= m < k && down.contains(#[trigger] up[m]) {
        let m = choose|m: int| 0 <= m < k && down.contains(#[trigger] up[m]);
        first_shared(s, up, down, m);
    } else {
        assert(TfState::<T>::meets_at(up, down, k));
    }
}

// ---------------------------------------------------------------------------
// What one edge is
// ---------------------------------------------------------------------------

/// Without a transform of its own a frame has no edge and no parent.
pub proof fn nothing_stored_is_no_edge<T>(s: TfState<T>, child: Seq<char>, at: ZTime)
    requires
        !s.static_.contains_key(child),
        s.dynamic.contains_key(child) ==> forall|t: i64| !s.dynamic[child].contains_key(t),
    ensures
        s.edge(child, at) == Err::<TransformExpr<T>, Failure>(Failure::UnknownFrame(child)),
        s.parent(child) is None,
{
    assert(s.line(child) =~= Map::<i64, TransformStamped<T>>::empty());
}

/// The static transform of a frame decides its edge at every time and its
/// parent, whatever dynamic ones there are.
pub proof fn static_comes_first<T>(s: TfState<T>, child: Seq<char>, at: ZTime)
    requires
        s.static_.contains_key(child),
    ensures
        s.edge(child, at) == Ok::<TransformExpr<T>, Failure>(
            TransformExpr::Stored(&s.static_[child].transform),
        ),
        s.parent(child) == Some(s.static_[child].header.frame_id@),
{
}

/// The dynamic transform that none is later than is the edge at time zero, and
/// its frame is the parent.
pub proof fn latest_decides<T>(s: TfState<T>, child: Seq<char>, last: i64)
    requires
        !s.static_.contains_key(child),
        s.dynamic.contains_key(child),
        s.dynamic[child].contains_key(last),
        forall|t: i64| #[trigger] s.dynamic[child].contains_key(t) ==> t <= last,
    ensures
        s.edge(child, ZTime { nanos: 0 }) == Ok::<TransformExpr<T>, Failure>(
            TransformExpr::Stored(&s.dynamic[child][last].transform),
        ),
        s.parent(child) == Some(s.dynamic[child][last].header.frame_id@),
{
    newest_exists(s.line(child), last);
    assert(timeline::newest(s.line(child)) == last);
}

/// A time other than zero that no transform of the frame has, with `before` and
/// `after` the stored times next to it, gives these two transforms, at the part
/// of the way from one to the other that the time has gone.
pub proof fn neighbours_are_interpolated<T>(
    s: TfState<T>,
    child: Seq<char>,
    at: ZTime,
    before: i64,
    after: i64,
)
    requires
        !s.static_.contains_key(child),
        at.nanos != 0,
        s.dynamic.contains_key(child),
        s.dynamic[child].contains_key(before),
        s.dynamic[child].contains_key(after),
        before < at.nanos < after,
        forall|t: i64| #[trigger]
            s.dynamic[child].contains_key(t) ==> t <= before || after <= t,
    ensures
        s.edge(child, at) matches Ok(x) && (x matches TransformExpr::Between {
            before: a,
            after: b,
            elapsed,
            span,
        } && {
            &&& a == &s.dynamic[child][before].transform
            &&& b == &s.dynamic[child][after].transform
            &&& elapsed == (at.nanos - before) as i64
            &&& span == (after - before) as i64
            &&& after - before <= i64::MAX ==> elapsed == at.nanos - before && span == after
                - before && 0 < elapsed < span
        }),
{
    let line = s.line(child);
    newest_exists(line, after);
    oldest_exists(line, before);
    last_before_exists(line, at.nanos, before);
    first_from_exists(line, at.nanos, after);
    assert(timeline::last_before(line, at.nanos) == before);
    assert(timeline::first_from(line, at.nanos) == after);
    assert(!line.contains_key(at.nanos));
}

/// A time other than zero outside of what is stored for the frame fails, and
/// the error tells the frame, the time asked for, and the two ends of what is
/// stored.
pub proof fn outside_the_history_fails<T>(
    s: TfState<T>,
    child: Seq<char>,
    at: ZTime,
    first: i64,
    last: i64,
)
    requires
        !s.static_.contains_key(child),
        at.nanos != 0,
        s.dynamic.contains_key(child),
        s.dynamic[child].contains_key(first),
        s.dynamic[child].contains_key(last),
        forall|t: i64| #[trigger] s.dynamic[child].contains_key(t) ==> first <= t <= last,
        at.nanos < first || last < at.nanos,
    ensures
        s.edge(child, at) == Err::<TransformExpr<T>, Failure>(
            Failure::ExtrapolationError {
                frame: child,
                requested: at,
                oldest: ZTime { nanos: first },
                newest: ZTime { nanos: last },
            },
        ),
{
    let line = s.line(child);
    newest_exists(line, last);
    oldest_exists(line, first);
    assert(timeline::newest(line) == last && timeline::oldest(line) == first);
}

/// A result of a lookup leads from the source frame to the target frame. Between
/// different frames its stamp stands for the time asked for, as long as that is
/// a time that a stamp can hold; from a frame to itself it is zero.
pub proof fn result_says_from_where_to_where<'a, T>(
    s: TfState<T>,
    target: Seq<char>,
    source: Seq<char>,
    at: ZTime,
    tf: TransformStamped<TransformExpr<'a, T>>,
)
    requires
        lookup::is_lookup(s, target, source, at, Ok(tf)),
    ensures
        tf.header.frame_id@ == target,
        tf.child_frame_id@ == source,
        target == source ==> steps(tf.transform).len() == 0 && time::stamp_nanos(tf.header.stamp)
            == 0,
        target != source && 0 <= at.nanos < 0x8000_0000 * 1_000_000_000 ==> time::stamp_nanos(
            tf.header.stamp,
        ) == at.nanos,
        tf.header.stamp.nanosec < 1_000_000_000,
{
    if 0 <= at.nanos < 0x8000_0000 * 1_000_000_000 {
        time::time_round_trip(at);
    }
}

// ---------------------------------------------------------------------------
// What storing keeps and drops
// ---------------------------------------------------------------------------

/// Storing a dynamic transform keeps exactly the transforms whose time is no
/// further back from its stamp than the history that is kept: the new one, and
/// of those before it each that it does not replace, as it was.
pub proof fn kept_as_far_as_history_reaches<T>(
    s: TfState<T>,
    tf: TransformStamped<T>,
    child: Seq<char>,
    t: i64,
)
    ensures
        ({
            let stamp = time::stamp_nanos(tf.header.stamp);
            let was = s.dynamic.contains_key(child) && s.dynamic[child].contains_key(t);
            let is_new = child == tf.child_frame_id@ && t == stamp;
            let after = s.added(tf, false);
            let is = after.dynamic.contains_key(child) && after.dynamic[child].contains_key(t);
            &&& is <==> is_new || (was && stamp - s.history <= t)
            &&& is ==> after.dynamic[child][t] == if is_new {
                tf
            } else {
                s.dynamic[child][t]
            }
            &&& after.static_ == s.static_
            &&& after.history == s.history
        }),
{
}

/// Dropping what is too old at `now` drops exactly the dynamic transforms that
/// lie further back than the history that is kept.
pub proof fn pruning_drops_only_what_is_too_old<T>(
    s: TfState<T>,
    now: i64,
    child: Seq<char>,
    t: i64,
)
    ensures
        ({
            let was = s.dynamic.contains_key(child) && s.dynamic[child].contains_key(t);
            let after = s.pruned(now as int);
            let is = after.dynamic.contains_key(child) && after.dynamic[child].contains_key(t);
            &&& is <==> was && now - s.history <= t
            &&& is ==> after.dynamic[child][t] == s.dynamic[child][t]
            &&& after.static_ == s.static_
            &&& after.history == s.history
        }),
{
}

/// A static transform is never too old, and storing one leaves all other
/// transforms as they are.
pub proof fn storing_static_touches_one<T>(s: TfState<T>, tf: TransformStamped<T>, child: Seq<char>)
    ensures
        s.added(tf, true).static_.contains_key(child) <==> s.static_.contains_key(child) || child
            == tf.child_frame_id@,
        s.added(tf, true).static_[tf.child_frame_id@] == tf,
        child != tf.child_frame_id@ && s.static_.contains_key(child) ==> s.added(
            tf,
            true,
        ).static_[child] == s.static_[child],
        s.added(tf, true).dynamic == s.dynamic,
        s.added(tf, true).history == s.history,
{
}

/// All the transforms of a static message are there once it is stored, each
/// unless a later one of the message has the same child frame.
pub proof fn static_message_is_stored<T>(s: TfState<T>, tfs: Seq<TransformStamped<T>>, i: int)
    requires
        0 <= i < tfs.len(),
        forall|k: int|
            i < k < tfs.len() ==> (#[trigger] tfs[k]).child_frame_id@ != tfs[i].child_frame_id@,
    ensures
        s.added_all(tfs, true).static_.contains_key(tfs[i].child_frame_id@),
        s.added_all(tfs, true).static_[tfs[i].child_frame_id@] == tfs[i],
        s.added_all(tfs, true).dynamic == s.dynamic,
    decreases tfs.len(),
{
    static_leaves_dynamic(s, tfs);
    if i < tfs.len() - 1 {
        assert(tfs.drop_last()[i] == tfs[i]);
        static_message_is_stored(s, tfs.drop_last(), i);
    }
}

proof fn static_leaves_dynamic<T>(s: TfState<T>, tfs: Seq<TransformStamped<T>>)
    ensures
        s.added_all(tfs, true).dynamic == s.dynamic,
    decreases tfs.len(),
{
    if tfs.len() > 0 {
        static_leaves_dynamic(s, tfs.drop_last());
    }
}

/// A transform of a dynamic message is there once the message is stored, unless
/// a later one of the message takes its place or makes it too old.
pub proof fn dynamic_message_is_stored<T>(s: TfState<T>, tfs: Seq<TransformStamped<T>>, i: int)
    requires
        0 <= i < tfs.len(),
        forall|k: int|
            i < k < tfs.len() ==> {
                ||| (#[trigger] tfs[k]).child_frame_id@ != tfs[i].child_frame_id@
                ||| time::stamp_nanos(tfs[k].header.stamp) != time::stamp_nanos(tfs[i].header.stamp)
            },
        forall|k: int|
            i < k < tfs.len() ==> time::stamp_nanos((#[trigger] tfs[k]).header.stamp) - s.history
                <= time::stamp_nanos(tfs[i].header.stamp),
    ensures
        ({
            let t = time::stamp_nanos(tfs[i].header.stamp) as i64;
            let after = s.added_all(tfs, false);
            &&& after.dynamic.contains_key(tfs[i].child_frame_id@)
            &&& after.dynamic[tfs[i].child_frame_id@].contains_key(t)
            &&& after.dynamic[tfs[i].child_frame_id@][t] == tfs[i]
            &&& after.static_ == s.static_
            &&& after.history == s.history
        }),
    decreases tfs.len(),
{
    let t = time::stamp_nanos(tfs[i].header.stamp) as i64;
    dynamic_leaves_static(s, tfs);
    let before = s.added_all(tfs.drop_last(), false);
    dynamic_leaves_static(s, tfs.drop_last());
    if i < tfs.len() - 1 {
        assert(tfs.drop_last()[i] == tfs[i]);
        dynamic_message_is_stored(s, tfs.drop_last(), i);
    }
    kept_as_far_as_history_reaches(before, tfs.last(), tfs[i].child_frame_id@, t);
}

proof fn dynamic_leaves_static<T>(s: TfState<T>, tfs: Seq<TransformStamped<T>>)
    ensures
        s.added_all(tfs, false).static_ == s.static_,
        s.added_all(tfs, false).history == s.history,
    decreases tfs.len(),
{
    if tfs.len() > 0 {
        dynamic_leaves_static(s, tfs.drop_last());
    }
}

// ---------------------------------------------------------------------------
// Stamps
// ---------------------------------------------------------------------------

/// A stamp a second later stands for a time a thousand million nanoseconds
/// later, one a nanosecond later for the next time, and the stamp zero for the
/// epoch.
pub proof fn stamps_count_nanoseconds(a: Time, b: Time)
    ensures
        time::stamp_nanos(a) - time::stamp_nanos(b) == (a.sec - b.sec) * 1_000_000_000 + (a.nanosec
            - b.nanosec),
        time::stamp_nanos(Time { sec: 0, nanosec: 0 }) == 0,
{
}

/// Times before the epoch have the stamp of the epoch; all others have stamps
/// whose nanoseconds are below a second, and the stamp of the next second
/// differs from it in nothing but the seconds.
pub proof fn stamps_of_times(t: ZTime, later: ZTime)
    requires
        later.nanos == t.nanos + 1_000_000_000,
    ensures
        t.nanos <= 0 ==> time::stamp_of(t) == (Time { sec: 0, nanosec: 0 }),
        time::stamp_of(t).nanosec < 1_000_000_000,
        t.nanos >= 0 ==> time::stamp_of(later).nanosec == time::stamp_of(t).nanosec,
        t.nanos >= 0 && time::stamp_of(t).sec < i32::MAX ==> time::stamp_of(later).sec
            == time::stamp_of(t).sec + 1,
        t.nanos >= 0 && time::stamp_of(t).sec == i32::MAX ==> time::stamp_of(later).sec == i32::MIN,
{
    if t.nanos >= 0 {
        let n = t.nanos as int;
        assert((n + 1_000_000_000) / 1_000_000_000 == n / 1_000_000_000 + 1);
        assert((n + 1_000_000_000) % 1_000_000_000 == n % 1_000_000_000);
    }
}

// ---------------------------------------------------------------------------
// The listener
// ---------------------------------------------------------------------------

/// A lookup by way of a fixed frame applies what leads from the source to the
/// fixed frame at the time of the source, and then what leads from there to the
/// target at the time of the target. It fails where one of the two fails, and as
/// the first of them does.
pub proof fn full_lookup_goes_by_the_fixed_frame<'a, T>(
    s: TfState<T>,
    target: Seq<char>,
    target_time: ZTime,
    source: Seq<char>,
    source_time: ZTime,
    fixed: Seq<char>,
    r: Result<TransformStamped<TransformExpr<'a, T>>, LookupError>,
)
    requires
        listener::is_full_lookup(s, target, target_time, source, source_time, fixed, r),
    ensures
        r is Ok <==> s.found(fixed, source, source_time) is Ok && s.found(
            target,
            fixed,
            target_time,
        ) is Ok,
        r matches Ok(tf) ==> {
            &&& steps(tf.transform) == steps(s.found(fixed, source, source_time)->Ok_0) + steps(
                s.found(target, fixed, target_time)->Ok_0,
            )
            &&& tf.child_frame_id@ == source
            &&& tf.header.frame_id@ == target
            &&& target != fixed && 0 <= target_time.nanos < 0x8000_0000 * 1_000_000_000
                ==> time::stamp_nanos(tf.header.stamp) == target_time.nanos
        },
        r matches Err(e) ==> e@ == if s.found(fixed, source, source_time) is Err {
            s.found(fixed, source, source_time)->Err_0
        } else {
            s.found(target, fixed, target_time)->Err_0
        },
{
    if 0 <= target_time.nanos < 0x8000_0000 * 1_000_000_000 {
        time::time_round_trip(target_time);
    }
}

/// By way of the source, or of the target, a lookup applies what the plain
/// lookup does.
pub proof fn fixed_frame_at_an_end<'a, T>(
    s: TfState<T>,
    target: Seq<char>,
    target_time: ZTime,
    source: Seq<char>,
    source_time: ZTime,
    r: Result<TransformStamped<TransformExpr<'a, T>>, LookupError>,
)
    ensures
        listener::is_full_lookup(s, target, target_time, source, source_time, source, r) ==> match (
            r,
            s.found(target, source, target_time),
        ) {
            (Ok(tf), Ok(x)) => steps(tf.transform) == steps(x),
            (Err(e), Err(f)) => e@ == f,
            _ => false,
        },
        listener::is_full_lookup(s, target, target_time, source, source_time, target, r) ==> match (
            r,
            s.found(target, source, source_time),
        ) {
            (Ok(tf), Ok(x)) => steps(tf.transform) == steps(x),
            (Err(e), Err(f)) => e@ == f,
            _ => false,
        },
{
    same_frame_is_identity(s, source, source_time);
    same_frame_is_identity(s, target, target_time);
    if let Ok(x) = s.found(target, source, target_time) {
        assert(steps(TransformExpr::<T>::Identity) + steps(x) =~= steps(x));
    }
    if let Ok(x) = s.found(target, source, source_time) {
        assert(steps(x) + steps(TransformExpr::<T>::Identity) =~= steps(x));
    }
}

/// A wait is over with the transform as soon as a lookup finds it, and without
/// one only where both frames are known and their paths share no frame. A frame
/// that is not known yet, and a time that is not reached yet, are waited for.
pub proof fn waits_end_only_for_good<'a, T>(
    s: TfState<T>,
    target: Seq<char>,
    source: Seq<char>,
    at: ZTime,
    r: listener::WaitStep<'a, T>,
)
    requires
        listener::is_look(s, target, source, at, r),
    ensures
        match r {
            listener::WaitStep::Ready(tf) => {
                &&& s.found(target, source, at) == Ok::<TransformExpr<T>, Failure>(tf.transform)
                &&& tf.header.frame_id@ == target
                &&& tf.child_frame_id@ == source
            },
            listener::WaitStep::Failed(e) => {
                &&& e matches listener::WaitError::Lookup(f) && f@ == (Failure::NoCommonAncestor {
                    source,
                    target,
                })
                &&& s.knows(source) && s.knows(target)
                &&& forall|k: int, m: int|
                    0 <= k < s.path(source).len() && 0 <= m < s.path(target).len() ==> (
                    #[trigger] s.path(source)[k]) != (#[trigger] s.path(target)[m])
            },
            listener::WaitStep::Pending => {
                &&& s.found(target, source, at) is Err
                &&& s.found(target, source, at) matches Err(e) && (e is UnknownFrame
                    || e is ExtrapolationError)
            },
        },
{
    if target != source && s.knows(source) && s.knows(target) {
        apart_exactly_without_a_shared_frame(s, target, source, at);
        failures_between_known_frames(s, target, source, at);
    }
}

proof fn failures_between_known_frames<T>(
    s: TfState<T>,
    target: Seq<char>,
    source: Seq<char>,
    at: ZTime,
)
    requires
        target != source,
        s.knows(source),
        s.knows(target),
    ensures
        s.found(target, source, at) matches Err(e) ==> e is UnknownFrame || e is ExtrapolationError
            || e == (Failure::NoCommonAncestor { source, target }),
{
    let up = s.path(source);
    let down = s.path(target);
    if exists|k: int| 0 <= k < up.len() && down.contains(#[trigger] up[k]) {
        let k = choose|k: int| 0 <= k < up.len() && down.contains(#[trigger] up[k]);
        first_shared(s, up, down, k);
        let i = choose|i: int| TfState::<T>::meets_at(up, down, i);
        let j = down.index_of(up[i]);
        lookup_via_meeting(s, target, source, at, i, j);
        path_order_is_kept(s, up, i as nat, at);
        path_order_is_kept(s, down, j as nat, at);
    }
}

proof fn regrouped(
    a: Seq<char>,
    b: Seq<char>,
    c: Seq<char>,
    d: Seq<char>,
    e: Seq<char>,
    f: Seq<char>,
    g: Seq<char>,
    h: Seq<char>,
    i: Seq<char>,
)
    ensures
        a + b + (c + d + e) + f + (e + g + h) + i == (a + b + c) + d + (e + f + e) + g + (h + i),
{
    assert(a + b + (c + d + e) + f + (e + g + h) + i =~= (a + b + c) + d + (e + f + e) + g + (h
        + i));
}

proof fn all_three_occur(
    first: Seq<char>,
    link: Seq<char>,
    second: Seq<char>,
    next: Seq<char>,
    third: Seq<char>,
)
    ensures
        text::occurs_in(first + link + second + next + third, first),
        text::occurs_in(first + link + second + next + third, second),
        text::occurs_in(first + link + second + next + third, third),
{
    let s = first + link + second + next + third;
    text_laws::occurs_in_the_middle(seq![], first, link + second + next + third);
    assert(s =~= seq![] + first + (link + second + next + third));
    text_laws::occurs_in_the_middle(first + link, second, next + third);
    assert(s =~= (first + link) + second + (next + third));
    text_laws::occurs_in_the_middle(first + link + second + next, third, seq![]);
    assert(s =~= (first + link + second + next) + third + seq![]);
}

proof fn tail_grouped(p: Seq<char>, a: Seq<char>, b: Seq<char>, c: Seq<char>, d: Seq<char>)
    ensures
        p + a + b + c + d == p + (a + b + c + d),
{
    assert(p + a + b + c + d =~= p + (a + b + c + d));
}

proof fn quoted_after(before: Seq<char>, part: Seq<char>, after: Seq<char>)
    ensures
        text::occurs_in((before + "'"@) + part + ("'"@ + after), "'"@ + part + "'"@),
{
    text_laws::occurs_in_the_middle(before, "'"@ + part + "'"@, after);
    assert((before + "'"@) + part + ("'"@ + after) =~= before + ("'"@ + part + "'"@) + after);
}

proof fn literal_links()
    ensures
        " for frame '"@ == " "@ + "for frame "@ + "'"@,
        "' is outside buffer window ["@ == "'"@ + " is outside buffer window "@ + "["@,
        "frame '"@ == "frame "@ + "'"@,
        "' has no known transforms"@ == "'"@ + " has no known transforms"@,
        "no common ancestor between '"@ == "no common ancestor between "@ + "'"@,
{
    reveal_strlit("frame ");
    reveal_strlit("frame '");
    reveal_strlit(" has no known transforms");
    reveal_strlit("' has no known transforms");
    reveal_strlit("no common ancestor between ");
    reveal_strlit("no common ancestor between '");
    assert("frame '"@ =~= "frame "@ + "'"@) by {
        reveal_strlit("'");
    }
    assert("' has no known transforms"@ =~= "'"@ + " has no known transforms"@) by {
        reveal_strlit("'");
    }
    assert("no common ancestor between '"@ =~= "no common ancestor between "@ + "'"@) by {
        reveal_strlit("'");
    }
    reveal_strlit(" ");
    reveal_strlit("'");
    reveal_strlit("[");
    reveal_strlit("for frame ");
    reveal_strlit(" for frame '");
    reveal_strlit(" is outside buffer window ");
    reveal_strlit("' is outside buffer window [");
    assert(" for frame '"@ =~= " "@ + "for frame "@ + "'"@);
    assert("' is outside buffer window ["@ =~= "'"@ + " is outside buffer window "@ + "["@);
}

proof fn extrapolations_name_all(
    requested: Seq<char>,
    frame: Seq<char>,
    oldest: Seq<char>,
    newest: Seq<char>,
)
    ensures
        ({
            let s = "requested time "@ + requested + " for frame '"@ + frame
                + "' is outside buffer window ["@ + oldest + ", "@ + newest + "]"@;
            &&& text::occurs_in(s, "requested time "@ + requested + " "@)
            &&& text::occurs_in(s, "'"@ + frame + "'"@)
            &&& text::occurs_in(s, "["@ + oldest + ", "@ + newest + "]"@)
        }),
{
    let first = "requested time "@ + requested + " "@;
    let second = "'"@ + frame + "'"@;
    let span = oldest + ", "@ + newest + "]"@;
    let link = "for frame "@;
    let next = " is outside buffer window "@;
    literal_links();
    tail_grouped(
        "requested time "@ + requested + " for frame '"@ + frame
            + "' is outside buffer window ["@,
        oldest,
        ", "@,
        newest,
        "]"@,
    );
    tail_grouped("["@, oldest, ", "@, newest, "]"@);
    regrouped("requested time "@, requested, " "@, link, "'"@, frame, next, "["@, span);
    all_three_occur(first, link, second, next, "["@ + span);
}

/// The message of a failed lookup names the frames that it is about, and of an
/// extrapolation also the time that was asked for and the times that are held.
pub proof fn messages_name_their_frames(
    e: Failure,
    requested: Seq<char>,
    oldest: Seq<char>,
    newest: Seq<char>,
)
    ensures
        ({
            let s = listener::described(e, requested, oldest, newest);
            match e {
                Failure::UnknownFrame(frame) => text::occurs_in(s, "'"@ + frame + "'"@),
                Failure::NoCommonAncestor { source, target } => text::occurs_in(
                    s,
                    "'"@ + source + "' and '"@ + target + "'"@,
                ),
                Failure::ExtrapolationError { frame, .. } => {
                    &&& text::occurs_in(s, "requested time "@ + requested + " "@)
                    &&& text::occurs_in(s, "'"@ + frame + "'"@)
                    &&& text::occurs_in(s, "["@ + oldest + ", "@ + newest + "]"@)
                },
            }
        }),
{
    literal_links();
    match e {
        Failure::UnknownFrame(frame) => {
            quoted_after("frame "@, frame, " has no known transforms"@);
        },
        Failure::NoCommonAncestor { source, target } => {
            let part = "'"@ + source + "' and '"@ + target + "'"@;
            let before = "no common ancestor between "@;
            text_laws::occurs_in_the_middle(before, part, seq![]);
            tail_grouped(before + "'"@, source, "' and '"@, target, "'"@);
            tail_grouped("'"@, source, "' and '"@, target, "'"@);
            let rest = source + "' and '"@ + target + "'"@;
            assert(before + "'"@ + rest =~= before + ("'"@ + rest) + seq![]);
        },
        Failure::ExtrapolationError { frame, .. } => {
            extrapolations_name_all(requested, frame, oldest, newest);
        },
    }
}

// ---------------------------------------------------------------------------
// Frames and messages
// ---------------------------------------------------------------------------

/// A frame counts as a child exactly if transforms have been stored for it,
/// dynamic or static ones.
pub proof fn children_are_those_stored<T>(s: TfState<T>, tf: TransformStamped<T>, frame: Seq<char>)
    ensures
        s.children().contains(frame) <==> s.dynamic.contains_key(frame) || s.static_.contains_key(
            frame,
        ),
        s.added(tf, true).children().contains(frame) <==> s.children().contains(frame) || frame
            == tf.child_frame_id@,
        s.added(tf, false).children().contains(frame) <==> s.children().contains(frame) || frame
            == tf.child_frame_id@,
{
}

/// What is sent keeps every transform, its frames and its order. On the static
/// topic the stamps are zero; on the other nothing changes.
pub proof fn sending_keeps_the_transforms<T>(
    transforms: Seq<TransformStamped<T>>,
    is_static: bool,
    i: int,
)
    requires
        0 <= i < transforms.len(),
    ensures
        ({
            let sent = broadcast::carried(transforms, is_static);
            &&& sent.len() == transforms.len()
            &&& sent[i].transform == transforms[i].transform
            &&& sent[i].child_frame_id == transforms[i].child_frame_id
            &&& sent[i].header.frame_id == transforms[i].header.frame_id
            &&& is_static ==> time::stamp_nanos(sent[i].header.stamp) == 0
            &&& !is_static ==> sent[i] == transforms[i]
        }),
{
}

/// Static transforms travel on a topic of their own, which keeps them for late
/// subscribers; dynamic ones are not kept. Both are reliable.
pub proof fn static_topics_keep_what_was_sent(is_static: bool)
    ensures
        broadcast::topic_of(true) != broadcast::topic_of(false),
        text::begins_with(broadcast::topic_of(is_static), "/tf"@),
        text::finishes_with(broadcast::topic_of(is_static), "_static"@) <==> is_static,
        broadcast::qos_of(is_static).durability == broadcast::QosDurability::TransientLocal
            <==> is_static,
        broadcast::qos_of(is_static).reliability == broadcast::QosReliability::Reliable,
        broadcast::qos_of(is_static).history == broadcast::QosHistory::KeepLast(100),
{
    reveal_strlit("/tf_static");
    reveal_strlit("/tf");
    reveal_strlit("_static");
    assert("/tf_static"@.len() == 10 && "/tf"@.len() == 3);
    assert("/tf_static"@.subrange(0, 3) =~= "/tf"@);
    assert("/tf"@.subrange(0, 3) =~= "/tf"@);
    assert("/tf_static"@.subrange(3, 10) =~= "_static"@);
}

/// A wait lasts as long as is asked for; only where nothing is asked for the
/// buffer's own duration counts.
pub proof fn waits_last_as_asked(asked: u128, own: u128, other: u128)
    ensures
        listener::timeout_of(Some(asked), own) == asked,
        listener::timeout_of(Some(asked), own) == listener::timeout_of(Some(asked), other),
        listener::timeout_of(None, own) == own,
{
}

/// A wait goes on exactly while there is time left; then it ends with a timeout.
pub proof fn waits_go_on_while_there_is_time(left: u128, r: Result<(), listener::WaitError>)
    requires
        listener::is_waiting_on(left, r),
    ensures
        r is Ok <==> left > 0,
        r matches Err(e) ==> e is Timeout,
{
}

/// By default a buffer reaches back ten seconds.
pub proof fn buffers_reach_back_ten_seconds(stamp: Time, later: Time)
    requires
        time::stamp_nanos(later) == time::stamp_nanos(stamp) + buffer::DEFAULT_MAX_HISTORY_NANOS,
    ensures
        later.sec - stamp.sec == 10 ==> later.nanosec == stamp.nanosec,
        later.nanosec == stamp.nanosec ==> later.sec - stamp.sec == 10,
{
}

/// A lookup gives the transform that is found, or fails as that does; an error
/// names the frames and times of the failure that it stands for.
pub proof fn lookups_give_what_is_found<'a, T>(
    s: TfState<T>,
    target: Seq<char>,
    source: Seq<char>,
    at: ZTime,
    r: Result<TransformStamped<TransformExpr<'a, T>>, LookupError>,
)
    requires
        lookup::is_lookup(s, target, source, at, r),
    ensures
        r is Ok <==> s.found(target, source, at) is Ok,
        r matches Ok(tf) ==> s.found(target, source, at) == Ok::<TransformExpr<T>, Failure>(
            tf.transform,
        ),
        r matches Err(LookupError::UnknownFrame(f)) ==> s.found(target, source, at) == Err::<
            TransformExpr<T>,
            Failure,
        >(Failure::UnknownFrame(f@)),
        r matches Err(LookupError::NoCommonAncestor { source: a, target: b }) ==> s.found(
            target,
            source,
            at,
        ) == Err::<TransformExpr<T>, Failure>(Failure::NoCommonAncestor { source: a@, target: b@ }),
        r matches Err(LookupError::ExtrapolationError { frame, requested, oldest, newest })
            ==> s.found(target, source, at) == Err::<TransformExpr<T>, Failure>(
            Failure::ExtrapolationError { frame: frame@, requested, oldest, newest },
        ),
{
}

} // verus!
