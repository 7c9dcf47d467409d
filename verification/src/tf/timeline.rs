//! The stored history of one frame, ordered by time.

use crate::names::NameMap;
use crate::text::text_eq;
use crate::tf::message::TransformStamped;
use crate::tf::time;
use crate::tf::time::stamp_to_ztime;
use vstd::prelude::*;

verus! {

/// The transforms of one child frame, each under the time of its stamp.
pub struct Timeline<T> {
    entries: Vec<(i64, TransformStamped<T>)>,
}

/// `entries` are in strictly ascending order of time.
spec fn in_order<T>(entries: Seq<(i64, TransformStamped<T>)>) -> bool {
    forall|i: int, j: int|
        0 <= i < j < entries.len() ==> (#[trigger] entries[i]).0 < (#[trigger] entries[j]).0
}

/// Each entry stands under the time of its own stamp.
spec fn stamped<T>(entries: Seq<(i64, TransformStamped<T>)>) -> bool {
    forall|i: int|
        0 <= i < entries.len() ==> (#[trigger] entries[i]).0 == time::stamp_nanos(
            entries[i].1.header.stamp,
        )
}

/// `i` is the place of the entry at time `t`.
spec fn stands_at<T>(entries: Seq<(i64, TransformStamped<T>)>, t: i64, i: int) -> bool {
    0 <= i < entries.len() && entries[i].0 == t
}

/// The map from times to transforms.
spec fn by_time<T>(entries: Seq<(i64, TransformStamped<T>)>) -> Map<i64, TransformStamped<T>> {
    Map::new(
        |t: i64| exists|i: int| stands_at(entries, t, i),
        |t: i64| entries[choose|i: int| stands_at(entries, t, i)].1,
    )
}

proof fn by_time_at<T>(entries: Seq<(i64, TransformStamped<T>)>, i: int)
    requires
        in_order(entries),
        0 <= i < entries.len(),
    ensures
        by_time(entries).contains_key(entries[i].0),
        by_time(entries)[entries[i].0] == entries[i].1,
{
    let t = entries[i].0;
    assert(stands_at(entries, t, i));
    let j = choose|j: int| stands_at(entries, t, j);
    if j < i {
        assert(entries[j].0 < entries[i].0);
    } else if i < j {
        assert(entries[i].0 < entries[j].0);
    }
}

// ---------------------------------------------------------------------------
// Times in a history
// ---------------------------------------------------------------------------

/// `k` is the latest time in `m`.
pub open spec fn is_newest<T>(m: Map<i64, T>, k: i64) -> bool {
    m.contains_key(k) && forall|j: i64| #[trigger] m.contains_key(j) ==> j <= k
}

/// `k` is the earliest time in `m`.
pub open spec fn is_oldest<T>(m: Map<i64, T>, k: i64) -> bool {
    m.contains_key(k) && forall|j: i64| #[trigger] m.contains_key(j) ==> k <= j
}

/// `k` is the latest time in `m` before `t`.
pub open spec fn is_last_before<T>(m: Map<i64, T>, t: i64, k: i64) -> bool {
    m.contains_key(k) && k < t && forall|j: i64| #[trigger] m.contains_key(j) && j < t ==> j <= k
}

/// `k` is the earliest time in `m` at or after `t`.
pub open spec fn is_first_from<T>(m: Map<i64, T>, t: i64, k: i64) -> bool {
    m.contains_key(k) && t <= k && forall|j: i64| #[trigger] m.contains_key(j) && t <= j ==> k <= j
}

/// The latest time in `m`.
pub open spec fn newest<T>(m: Map<i64, T>) -> i64 {
    choose|k: i64| is_newest(m, k)
}

/// The earliest time in `m`.
pub open spec fn oldest<T>(m: Map<i64, T>) -> i64 {
    choose|k: i64| is_oldest(m, k)
}

/// The latest time in `m` before `t`.
pub open spec fn last_before<T>(m: Map<i64, T>, t: i64) -> i64 {
    choose|k: i64| is_last_before(m, t, k)
}

/// The earliest time in `m` at or after `t`.
pub open spec fn first_from<T>(m: Map<i64, T>, t: i64) -> i64 {
    choose|k: i64| is_first_from(m, t, k)
}

/// `m` without the times before `cutoff`.
pub open spec fn pruned<T>(m: Map<i64, T>, cutoff: i64) -> Map<i64, T> {
    Map::new(|t: i64| m.contains_key(t) && cutoff <= t, |t: i64| m[t])
}

/// Some transform in `m` hangs from `frame`.
pub open spec fn hangs_from<T>(m: Map<i64, TransformStamped<T>>, frame: Seq<char>) -> bool {
    exists|t: i64| #[trigger] m.contains_key(t) && m[t].header.frame_id@ == frame
}

impl<T> Timeline<T> {
    /// The entries are in order of time, each under the time of its stamp.
    #[verifier::type_invariant]
    pub closed spec fn valid(&self) -> bool {
        in_order(self.entries@) && stamped(self.entries@)
    }
}

impl<T> View for Timeline<T> {
    type V = Map<i64, TransformStamped<T>>;

    closed spec fn view(&self) -> Map<i64, TransformStamped<T>> {
        by_time(self.entries@)
    }
}

impl<T> Timeline<T> {
    /// In a history every transform stands under the time of its stamp, and
    /// every history but the empty one has an earliest and a latest time.
    pub proof fn facts(&self)
        requires
            self.valid(),
        ensures
            forall|t: i64| #[trigger]
                self@.contains_key(t) ==> t == time::stamp_nanos(self@[t].header.stamp),
            forall|t: i64| #[trigger]
                self@.contains_key(t) ==> is_newest(self@, newest(self@)) && is_oldest(
                    self@,
                    oldest(self@),
                ) && oldest(self@) <= t <= newest(self@),
    {
        self.bounds();
        assert forall|t: i64| #[trigger] self@.contains_key(t) implies t == time::stamp_nanos(
            self@[t].header.stamp,
        ) by {
            let i = choose|i: int| stands_at(self.entries@, t, i);
            by_time_at(self.entries@, i);
        }
        assert forall|t: i64| #[trigger] self@.contains_key(t) implies is_newest(
            self@,
            newest(self@),
        ) && is_oldest(self@, oldest(self@)) by {
            let i = choose|i: int| stands_at(self.entries@, t, i);
            assert(0 < self.entries@.len());
        }
    }

    proof fn bounds(&self)
        requires
            self.valid(),
        ensures
            self.entries@.len() == 0 ==> self@ =~= Map::<i64, TransformStamped<T>>::empty(),
            self.entries@.len() > 0 ==> {
                &&& is_oldest(self@, self.entries@[0].0)
                &&& oldest(self@) == self.entries@[0].0
                &&& is_newest(self@, self.entries@.last().0)
                &&& newest(self@) == self.entries@.last().0
            },
            self.entries@.len() > 0 <==> self@ != Map::<i64, TransformStamped<T>>::empty(),
    {
        let es = self.entries@;
        if es.len() > 0 {
            by_time_at(es, 0);
            by_time_at(es, es.len() - 1);
            assert forall|j: i64| #[trigger] self@.contains_key(j) implies es[0].0 <= j <= es.last().0 by {
                let i = choose|i: int| stands_at(es, j, i);
                if 0 < i {
                    assert(es[0].0 < es[i].0);
                }
                if i < es.len() - 1 {
                    assert(es[i].0 < es[es.len() - 1].0);
                }
            }
            assert(is_oldest(self@, es[0].0));
            assert(is_newest(self@, es.last().0));
        } else {
            assert(self@ =~= Map::<i64, TransformStamped<T>>::empty());
        }
    }

    /// The empty history.
    pub fn new() -> (t: Self)
        ensures
            t@ == Map::<i64, TransformStamped<T>>::empty(),
            t.valid(),
    {
        let t = Timeline { entries: Vec::new() };
        proof {
            t.bounds();
        }
        t
    }

    /// Whether nothing is stored.
    pub fn is_empty(&self) -> (r: bool)
        ensures
            r == (self@ == Map::<i64, TransformStamped<T>>::empty()),
            self.valid(),
    {
        proof {
            use_type_invariant(self);
            self.bounds();
        }
        self.entries.len() == 0
    }

    /// The first place whose time is `t` or later.
    fn lower_bound(&self, t: i64) -> (at: usize)
        ensures
            at <= self.entries@.len(),
            forall|i: int| 0 <= i < at ==> (#[trigger] self.entries@[i]).0 < t,
            forall|i: int| at <= i < self.entries@.len() ==> t <= (#[trigger] self.entries@[i]).0,
    {
        proof {
            use_type_invariant(self);
        }
        let mut lo: usize = 0;
        let mut hi: usize = self.entries.len();
        while lo < hi
            invariant
                lo <= hi <= self.entries@.len(),
                in_order(self.entries@),
                forall|i: int| 0 <= i < lo ==> (#[trigger] self.entries@[i]).0 < t,
                forall|i: int| hi <= i < self.entries@.len() ==> t <= (#[trigger] self.entries@[i]).0,
            decreases hi - lo,
        {
            let mid: usize = lo + (hi - lo) / 2;
            if self.entries[mid].0 < t {
                lo = mid + 1;
            } else {
                hi = mid;
            }
        }
        lo
    }

    /// The transform stored at time `t`.
    pub fn at(&self, t: i64) -> (r: Option<&TransformStamped<T>>)
        ensures
            match r {
                Some(tf) => self@.contains_key(t) && *tf == self@[t],
                None => !self@.contains_key(t),
            },
    {
        proof {
            use_type_invariant(self);
        }
        let i = self.lower_bound(t);
        if i < self.entries.len() && self.entries[i].0 == t {
            proof {
                by_time_at(self.entries@, i as int);
            }
            Some(&self.entries[i].1)
        } else {
            proof {
                if self@.contains_key(t) {
                    let j = choose|j: int| stands_at(self.entries@, t, j);
                    assert(i as int <= j);
                    if (i as int) < j {
                        assert(self.entries@[i as int].0 < self.entries@[j].0);
                    }
                }
            }
            None
        }
    }

    /// The earliest time and its transform.
    pub fn first(&self) -> (r: Option<(i64, &TransformStamped<T>)>)
        ensures
            match r {
                Some(e) => is_oldest(self@, e.0) && e.0 == oldest(self@) && *e.1 == self@[e.0],
                None => self@ == Map::<i64, TransformStamped<T>>::empty(),
            },
    {
        proof {
            use_type_invariant(self);
            self.bounds();
        }
        if self.entries.len() == 0 {
            None
        } else {
            proof {
                by_time_at(self.entries@, 0);
            }
            Some((self.entries[0].0, &self.entries[0].1))
        }
    }

    /// The latest time and its transform.
    pub fn last(&self) -> (r: Option<(i64, &TransformStamped<T>)>)
        ensures
            match r {
                Some(e) => is_newest(self@, e.0) && e.0 == newest(self@) && *e.1 == self@[e.0],
                None => self@ == Map::<i64, TransformStamped<T>>::empty(),
            },
    {
        proof {
            use_type_invariant(self);
            self.bounds();
        }
        let n = self.entries.len();
        if n == 0 {
            None
        } else {
            proof {
                by_time_at(self.entries@, n - 1);
            }
            Some((self.entries[n - 1].0, &self.entries[n - 1].1))
        }
    }

    /// The latest entry before `t`.
    pub fn before(&self, t: i64) -> (r: Option<(i64, &TransformStamped<T>)>)
        ensures
            match r {
                Some(e) => is_last_before(self@, t, e.0) && e.0 == last_before(self@, t) && *e.1
                    == self@[e.0],
                None => forall|j: i64| #[trigger] self@.contains_key(j) ==> t <= j,
            },
    {
        proof {
            use_type_invariant(self);
        }
        let at = self.lower_bound(t);
        if at == 0 {
            proof {
                assert forall|j: i64| #[trigger] self@.contains_key(j) implies t <= j by {
                    let i = choose|i: int| stands_at(self.entries@, j, i);
                    assert(t <= self.entries@[i].0);
                }
            }
            None
        } else {
            proof {
                let es = self.entries@;
                by_time_at(es, at - 1);
                assert forall|j: i64| #[trigger] self@.contains_key(j) && j < t implies j <= es[at - 1].0 by {
                    let i = choose|i: int| stands_at(es, j, i);
                    assert(i < at);
                    if i < at - 1 {
                        assert(es[i].0 < es[at - 1].0);
                    }
                }
                assert(is_last_before(self@, t, es[at - 1].0));
            }
            Some((self.entries[at - 1].0, &self.entries[at - 1].1))
        }
    }

    /// The earliest entry at or after `t`.
    pub fn from(&self, t: i64) -> (r: Option<(i64, &TransformStamped<T>)>)
        ensures
            match r {
                Some(e) => is_first_from(self@, t, e.0) && e.0 == first_from(self@, t) && *e.1
                    == self@[e.0],
                None => forall|j: i64| #[trigger] self@.contains_key(j) ==> j < t,
            },
    {
        proof {
            use_type_invariant(self);
        }
        let at = self.lower_bound(t);
        if at == self.entries.len() {
            proof {
                assert forall|j: i64| #[trigger] self@.contains_key(j) implies j < t by {
                    let i = choose|i: int| stands_at(self.entries@, j, i);
                    assert(self.entries@[i].0 < t);
                }
            }
            None
        } else {
            proof {
                let es = self.entries@;
                by_time_at(es, at as int);
                assert forall|j: i64| #[trigger] self@.contains_key(j) && t <= j implies es[at as int].0 <= j by {
                    let i = choose|i: int| stands_at(es, j, i);
                    assert(at <= i);
                    if at < i {
                        assert(es[at as int].0 < es[i].0);
                    }
                }
                assert(is_first_from(self@, t, es[at as int].0));
            }
            Some((self.entries[at].0, &self.entries[at].1))
        }
    }

    /// Stores `tf` under the time of its stamp, in place of what stood there.
    pub fn insert(&mut self, tf: TransformStamped<T>)
        ensures
            final(self)@ == old(self)@.insert(time::stamp_nanos(tf.header.stamp) as i64, tf),
    {
        proof {
            use_type_invariant(&*self);
        }
        let t: i64 = stamp_to_ztime(&tf.header.stamp).nanos;
        let at = self.lower_bound(t);
        let ghost es = self.entries@;
        let mut entries: Vec<(i64, TransformStamped<T>)> = Vec::new();
        std::mem::swap(&mut entries, &mut self.entries);
        if at < entries.len() && entries[at].0 == t {
            entries.set(at, (t, tf));
        } else {
            entries.insert(at, (t, tf));
        }
        proof {
            let ns = entries@;
            assert(in_order(ns)) by {
                assert forall|i: int, j: int| 0 <= i < j < ns.len() implies (#[trigger] ns[i]).0 < (
                #[trigger] ns[j]).0 by {
                    if ns.len() == es.len() {
                        assert(es[i].0 < es[j].0);
                    } else {
                        let a = if i < at { i } else { i - 1 };
                        let b = if j < at { j } else { j - 1 };
                        if i != at && j != at {
                            assert(es[a].0 < es[b].0);
                        } else if i == at {
                            assert(t <= es[b].0);
                            if at < b {
                                assert(es[at as int].0 < es[b].0);
                            }
                        } else {
                            assert(es[a].0 < t);
                        }
                    }
                }
            }
            assert(stamped(ns)) by {
                assert forall|i: int| 0 <= i < ns.len() implies (#[trigger] ns[i]).0
                    == time::stamp_nanos(ns[i].1.header.stamp) by {
                    if i != at {
                        let a = if ns.len() == es.len() || i < at { i } else { i - 1 };
                        assert(ns[i] == es[a]);
                    }
                }
            }
            let old_map = by_time(es);
            let new_map = by_time(ns);
            by_time_at(ns, at as int);
            assert forall|k: i64| #[trigger] new_map.contains_key(k) implies old_map.insert(t, tf).contains_key(k)
                && new_map[k] == old_map.insert(t, tf)[k] by {
                let i = choose|i: int| stands_at(ns, k, i);
                by_time_at(ns, i);
                if i != at {
                    let a = if ns.len() == es.len() || i < at { i } else { i - 1 };
                    assert(ns[i] == es[a]);
                    by_time_at(es, a);
                    if i < at {
                        assert(ns[i].0 < ns[at as int].0);
                    } else {
                        assert(ns[at as int].0 < ns[i].0);
                    }
                }
            }
            assert forall|k: i64| #[trigger] old_map.insert(t, tf).contains_key(k) implies new_map.contains_key(k) by {
                if k != t {
                    let a = choose|a: int| stands_at(es, k, a);
                    let i = if ns.len() == es.len() || a < at { a } else { a + 1 };
                    assert(ns[i] == es[a]);
                    by_time_at(ns, i);
                }
            }
            assert(new_map.dom() =~= old_map.insert(t, tf).dom());
            assert(new_map =~= old_map.insert(t, tf));
        }
        self.entries = entries;
    }

    /// Drops what was stored before `cutoff`.
    pub fn prune(&mut self, cutoff: i64)
        ensures
            final(self)@ == pruned(old(self)@, cutoff),
    {
        proof {
            use_type_invariant(&*self);
        }
        let at = self.lower_bound(cutoff);
        let ghost es = self.entries@;
        let mut entries: Vec<(i64, TransformStamped<T>)> = Vec::new();
        std::mem::swap(&mut entries, &mut self.entries);
        let kept = entries.split_off(at);
        proof {
            let ks = kept@;
            assert forall|i: int| 0 <= i < ks.len() implies #[trigger] ks[i] == es[i + at] by {}
            assert(in_order(ks));
            assert(stamped(ks));
            let old_map = by_time(es);
            let new_map = by_time(ks);
            assert forall|k: i64| #[trigger] new_map.contains_key(k) implies pruned(old_map, cutoff).contains_key(k)
                && new_map[k] == pruned(old_map, cutoff)[k] by {
                let i = choose|i: int| stands_at(ks, k, i);
                by_time_at(ks, i);
                by_time_at(es, i + at);
            }
            assert forall|k: i64| #[trigger] pruned(old_map, cutoff).contains_key(k) implies new_map.contains_key(k) by {
                let a = choose|a: int| stands_at(es, k, a);
                assert(at <= a);
                by_time_at(ks, a - at);
            }
            assert(new_map.dom() =~= pruned(old_map, cutoff).dom());
            assert(new_map =~= pruned(old_map, cutoff));
        }
        self.entries = kept;
    }

    /// Whether some stored transform hangs from `frame`.
    pub fn has_parent(&self, frame: &str) -> (r: bool)
        ensures
            r == hangs_from(self@, frame@),
    {
        proof {
            use_type_invariant(self);
        }
        let mut i: usize = 0;
        while i < self.entries.len()
            invariant
                i <= self.entries@.len(),
                in_order(self.entries@),
                forall|j: int|
                    0 <= j < i ==> (#[trigger] self.entries@[j]).1.header.frame_id@ != frame@,
            decreases self.entries@.len() - i,
        {
            if text_eq(self.entries[i].1.header.frame_id.as_str(), frame) {
                proof {
                    by_time_at(self.entries@, i as int);
                }
                return true;
            }
            i += 1;
        }
        proof {
            assert forall|t: i64| #[trigger] self@.contains_key(t) implies self@[t].header.frame_id@
                != frame@ by {
                let j = choose|j: int| stands_at(self.entries@, t, j);
                by_time_at(self.entries@, j);
            }
        }
        false
    }

    /// Adds the frames that the stored transforms hang from to `names`.
    pub fn add_parents(&self, names: &mut NameMap<()>)
        ensures
            forall|p: Seq<char>| #[trigger]
                final(names)@.contains_key(p) <==> old(names)@.contains_key(p) || hangs_from(
                    self@,
                    p,
                ),
    {
        proof {
            use_type_invariant(self);
        }
        let ghost start = names@;
        let mut i: usize = 0;
        while i < self.entries.len()
            invariant
                i <= self.entries@.len(),
                in_order(self.entries@),
                forall|p: Seq<char>| #[trigger]
                    names@.contains_key(p) <==> start.contains_key(p) || exists|j: int|
                        0 <= j < i && (#[trigger] self.entries@[j]).1.header.frame_id@ == p,
            decreases self.entries@.len() - i,
        {
            let ghost before = names@;
            names.insert(self.entries[i].1.header.frame_id.clone(), ());
            assert forall|p: Seq<char>| #[trigger]
                names@.contains_key(p) <==> start.contains_key(p) || exists|j: int|
                    0 <= j < i + 1 && (#[trigger] self.entries@[j]).1.header.frame_id@ == p by {
                assert(names@.contains_key(p) <==> before.contains_key(p) || p
                    == self.entries@[i as int].1.header.frame_id@);
            }
            i += 1;
        }
        proof {
            assert forall|p: Seq<char>| #[trigger]
                names@.contains_key(p) <==> start.contains_key(p) || hangs_from(self@, p) by {
                if exists|j: int|
                    0 <= j < i && (#[trigger] self.entries@[j]).1.header.frame_id@ == p {
                    let j = choose|j: int|
                        0 <= j < i && (#[trigger] self.entries@[j]).1.header.frame_id@ == p;
                    by_time_at(self.entries@, j);
                }
                if hangs_from(self@, p) {
                    let t = choose|t: i64| #[trigger]
                        self@.contains_key(t) && self@[t].header.frame_id@ == p;
                    let j = choose|j: int| stands_at(self.entries@, t, j);
                    by_time_at(self.entries@, j);
                }
            }
        }
    }
}

} // verus!
