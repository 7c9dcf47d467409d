//! The tree of frames that a transform listener keeps.

use crate::names::NameMap;
use crate::text;
use crate::text::{contains_text, text_eq};
use crate::tf::message::{TFMessage, TransformStamped};
use crate::tf::time;
use crate::tf::time::{stamp_to_ztime, ZTime};
use crate::tf::timeline;
use crate::tf::timeline::Timeline;
use vstd::prelude::*;

verus! {

/// How long dynamic transforms are kept by default: ten seconds.
pub const DEFAULT_MAX_HISTORY_NANOS: u128 = 10_000_000_000;

/// The longest way up the tree that is followed.
pub const MAX_TREE_DEPTH: usize = 100;

/// What a transform listener has stored: the transforms of every child frame,
/// with a history for the dynamic ones.
pub struct BufferInner<T> {
    /// Dynamic transforms by child frame.
    pub dynamic: NameMap<Timeline<T>>,
    /// Static transforms by child frame.
    pub static_: NameMap<TransformStamped<T>>,
    /// How far back dynamic transforms are kept, in nanoseconds.
    pub max_history_nanos: u128,
}

/// The contents of a buffer.
#[verifier::ext_equal]
pub struct TfState<T> {
    pub dynamic: Map<Seq<char>, Map<i64, TransformStamped<T>>>,
    pub static_: Map<Seq<char>, TransformStamped<T>>,
    pub history: nat,
}

/// `x`, held inside the range of `i64`.
pub open spec fn clamped_i64(x: int) -> i64 {
    if x < i64::MIN {
        i64::MIN
    } else if x > i64::MAX {
        i64::MAX
    } else {
        x as i64
    }
}

impl<T> TfState<T> {
    /// The earliest time that is kept once a transform of time `now` is in.
    pub open spec fn cutoff(self, now: int) -> i64 {
        clamped_i64(now - self.history)
    }

    /// The state without the dynamic transforms that are too old at `now`.
    pub open spec fn pruned(self, now: int) -> TfState<T> {
        let cutoff = self.cutoff(now);
        TfState {
            dynamic: self.dynamic.map_values(
                |m: Map<i64, TransformStamped<T>>| timeline::pruned(m, cutoff),
            ),
            ..self
        }
    }

    /// The history of a child frame; empty where there is none.
    pub open spec fn line(self, child: Seq<char>) -> Map<i64, TransformStamped<T>> {
        if self.dynamic.contains_key(child) {
            self.dynamic[child]
        } else {
            Map::empty()
        }
    }

    /// The state once `tf` has been stored. A static transform takes the place
    /// of the one before it; a dynamic one joins the history of its frame, and
    /// what is too old by its stamp goes.
    pub open spec fn added(self, tf: TransformStamped<T>, is_static: bool) -> TfState<T> {
        let child = tf.child_frame_id@;
        if is_static {
            TfState { static_: self.static_.insert(child, tf), ..self }
        } else {
            let stamp = time::stamp_nanos(tf.header.stamp);
            TfState {
                dynamic: self.dynamic.insert(child, self.line(child).insert(stamp as i64, tf)),
                ..self
            }.pruned(stamp)
        }
    }

    /// The state once the transforms have been stored one after the other.
    pub open spec fn added_all(self, tfs: Seq<TransformStamped<T>>, is_static: bool) -> TfState<T>
        decreases tfs.len(),
    {
        if tfs.len() == 0 {
            self
        } else {
            self.added_all(tfs.drop_last(), is_static).added(tfs.last(), is_static)
        }
    }

    /// The frame that `frame` hangs from: that of its static transform, or else
    /// that of its latest dynamic one.
    pub open spec fn parent(self, frame: Seq<char>) -> Option<Seq<char>> {
        if self.static_.contains_key(frame) {
            Some(self.static_[frame].header.frame_id@)
        } else {
            let line = self.line(frame);
            if line == Map::<i64, TransformStamped<T>>::empty() {
                None
            } else {
                Some(line[timeline::newest(line)].header.frame_id@)
            }
        }
    }

    /// The path `path`, followed on from its last frame: up to the root, to a
    /// frame that the path has already passed, or to the greatest depth.
    pub open spec fn followed(self, path: Seq<Seq<char>>) -> Seq<Seq<char>>
        decreases MAX_TREE_DEPTH - path.len(),
    {
        if path.len() >= MAX_TREE_DEPTH {
            path
        } else {
            match self.parent(path.last()) {
                None => path,
                Some(p) => if path.contains(p) {
                    path
                } else {
                    self.followed(path.push(p))
                },
            }
        }
    }

    /// The way from `frame` up to the root.
    pub open spec fn path(self, frame: Seq<char>) -> Seq<Seq<char>> {
        self.followed(seq![frame])
    }

    /// The frames that transforms have been stored for, as children.
    pub open spec fn children(self) -> Set<Seq<char>> {
        self.dynamic.dom().union(self.static_.dom())
    }

    /// A transform of `frame` is stored, or one that hangs from `frame`.
    pub open spec fn knows(self, frame: Seq<char>) -> bool {
        ||| self.static_.contains_key(frame)
        ||| self.line(frame) != Map::<i64, TransformStamped<T>>::empty()
        ||| exists|c: Seq<char>| #[trigger]
            self.dynamic.contains_key(c) && timeline::hangs_from(self.dynamic[c], frame)
        ||| exists|c: Seq<char>| #[trigger]
            self.static_.contains_key(c) && self.static_[c].header.frame_id@ == frame
    }
}

impl<T> View for BufferInner<T> {
    type V = TfState<T>;

    open spec fn view(&self) -> TfState<T> {
        TfState {
            dynamic: self.dynamic@.map_values(|l: Timeline<T>| l@),
            static_: self.static_@,
            history: self.max_history_nanos as nat,
        }
    }
}

impl<T> Default for BufferInner<T> {
    fn default() -> (r: Self)
        ensures
            r@ == (TfState {
                dynamic: Map::<Seq<char>, Map<i64, TransformStamped<T>>>::empty(),
                static_: Map::<Seq<char>, TransformStamped<T>>::empty(),
                history: 10_000_000_000,
            }),
            r.max_history_nanos == DEFAULT_MAX_HISTORY_NANOS,
    {
        let r = BufferInner {
            dynamic: NameMap::new(),
            static_: NameMap::new(),
            max_history_nanos: DEFAULT_MAX_HISTORY_NANOS,
        };
        assert(r@.dynamic =~= Map::<Seq<char>, Map<i64, TransformStamped<T>>>::empty());
        r
    }
}

impl<T> BufferInner<T> {
    /// Stores every transform of a message.
    pub fn add_message(&mut self, msg: TFMessage<T>, is_static: bool)
        ensures
            final(self)@ == old(self)@.added_all(msg.transforms@, is_static),
            final(self).max_history_nanos == old(self).max_history_nanos,
    {
        let ghost tfs = msg.transforms@;
        let ghost before = self@;
        let ghost kept = self.max_history_nanos;
        for tf in it: msg.transforms
            invariant
                it.seq() == tfs,
                self@ == before.added_all(tfs.take(it.index()), is_static),
                self.max_history_nanos == kept,
        {
            proof {
                let n = it.index();
                assert(tfs.take(n + 1).drop_last() =~= tfs.take(n));
                assert(tfs.take(n + 1).last() == tf);
            }
            self.add_transform(tf, is_static);
        }
        assert(tfs.take(tfs.len() as int) =~= tfs);
    }

    /// Stores one transform.
    pub fn add_transform(&mut self, tf: TransformStamped<T>, is_static: bool)
        ensures
            final(self)@ == old(self)@.added(tf, is_static),
            final(self).max_history_nanos == old(self).max_history_nanos,
    {
        let ghost before = self@;
        let child = tf.child_frame_id.clone();
        if is_static {
            self.static_.insert(child, tf);
        } else {
            let stamp = stamp_to_ztime(&tf.header.stamp);
            let mut line = match self.dynamic.remove(child.as_str()) {
                Some(line) => line,
                None => Timeline::new(),
            };
            line.insert(tf);
            self.dynamic.insert(child, line);
            proof {
                assert(self@.dynamic =~= before.dynamic.insert(
                    child@,
                    before.line(child@).insert(stamp.nanos, tf),
                ));
            }
            self.prune_old_entries(stamp);
        }
    }

    /// Drops the dynamic transforms that are too old at `now`.
    pub fn prune_old_entries(&mut self, now: ZTime)
        ensures
            final(self)@ == old(self)@.pruned(now.nanos as int),
            final(self).max_history_nanos == old(self).max_history_nanos,
    {
        let ghost before = *self;
        let cutoff: i64 = cutoff_at(now.nanos, self.max_history_nanos);
        let n = self.dynamic.len();
        proof {
            self.dynamic.layout();
        }
        let mut i: usize = 0;
        while i < n
            invariant
                i <= n == before.dynamic.keys().len(),
                before.dynamic.valid(),
                self.static_ == before.static_,
                self.max_history_nanos == before.max_history_nanos,
                self.dynamic.keys() == before.dynamic.keys(),
                self.dynamic.values().len() == n,
                before.dynamic.values().len() == n,
                forall|j: int|
                    0 <= j < i ==> (#[trigger] self.dynamic.values()[j])@ == timeline::pruned(
                        before.dynamic.values()[j]@,
                        cutoff,
                    ),
                forall|j: int|
                    i <= j < n ==> #[trigger] self.dynamic.values()[j] == before.dynamic.values()[j],
            decreases n - i,
        {
            let mut line = self.dynamic.replace_at(i, Timeline::new());
            line.prune(cutoff);
            self.dynamic.replace_at(i, line);
            i += 1;
        }
        proof {
            let keys = before.dynamic.keys();
            let goal = before@.pruned(now.nanos as int).dynamic;
            assert forall|k: Seq<char>| #[trigger] goal.contains_key(k) implies self@.dynamic[k]
                == goal[k] by {
                let j = keys.index_of(k);
                assert(keys[j] == k);
                assert(self.dynamic.values()[j]@ == timeline::pruned(
                    before.dynamic.values()[j]@,
                    cutoff,
                ));
            }
            assert(self@.dynamic =~= goal);
        }
    }

    /// Every frame that transforms have been stored for as a child, dynamic or
    /// static, once.
    pub fn all_frames(&self) -> (v: Vec<String>)
        ensures
            text::texts(v@).to_set() == self@.children(),
            text::texts(v@).no_duplicates(),
    {
        let mut frames: NameMap<()> = NameMap::new();
        let n = self.dynamic.len();
        let mut i: usize = 0;
        proof {
            self.dynamic.layout();
        }
        while i < n
            invariant
                i <= n == self.dynamic.keys().len(),
                frames@.dom() =~= self.dynamic.keys().take(i as int).to_set(),
            decreases n - i,
        {
            frames.insert(self.dynamic.key_at(i).clone(), ());
            proof {
                assert(self.dynamic.keys().take(i + 1) =~= self.dynamic.keys().take(i as int).push(
                    self.dynamic.keys()[i as int],
                ));
                in_push(self.dynamic.keys().take(i as int), self.dynamic.keys()[i as int]);
            }
            i += 1;
        }
        assert(self.dynamic.keys().take(n as int) =~= self.dynamic.keys());
        let m = self.static_.len();
        proof {
            self.static_.layout();
        }
        let mut j: usize = 0;
        while j < m
            invariant
                j <= m == self.static_.keys().len(),
                frames@.dom() =~= self.dynamic@.dom().union(
                    self.static_.keys().take(j as int).to_set(),
                ),
            decreases m - j,
        {
            frames.insert(self.static_.key_at(j).clone(), ());
            proof {
                assert(self.static_.keys().take(j + 1) =~= self.static_.keys().take(j as int).push(
                    self.static_.keys()[j as int],
                ));
                in_push(self.static_.keys().take(j as int), self.static_.keys()[j as int]);
            }
            j += 1;
        }
        assert(self.static_.keys().take(m as int) =~= self.static_.keys());
        let v = frames.key_list();
        assert(self@.children() =~= frames@.dom());
        v
    }

    /// The frame that `frame` hangs from.
    pub fn parent_of(&self, frame: &str) -> (r: Option<String>)
        ensures
            match r {
                Some(p) => self@.parent(frame@) == Some(p@),
                None => self@.parent(frame@) is None,
            },
    {
        match self.static_.get(frame) {
            Some(tf) => Some(tf.header.frame_id.clone()),
            None => match self.dynamic.get(frame) {
                Some(line) => match line.last() {
                    Some(e) => Some(e.1.header.frame_id.clone()),
                    None => None,
                },
                None => None,
            },
        }
    }

    /// The path `[frame, parent(frame), parent(parent(frame)), ..., root]`.
    pub fn path_to_root(&self, frame: &str) -> (path: Vec<String>)
        ensures
            text::texts(path@) == self@.path(frame@),
            1 <= path@.len() <= MAX_TREE_DEPTH,
    {
        let mut path: Vec<String> = Vec::new();
        path.push(frame.to_owned());
        assert(text::texts(path@) =~= seq![frame@]);
        while path.len() < MAX_TREE_DEPTH
            invariant
                1 <= path@.len() <= MAX_TREE_DEPTH,
                self@.followed(text::texts(path@)) == self@.path(frame@),
            ensures
                1 <= path@.len() <= MAX_TREE_DEPTH,
                text::texts(path@) == self@.path(frame@),
            decreases MAX_TREE_DEPTH - path@.len(),
        {
            assert(text::texts(path@).last() == path@.last()@);
            match self.parent_of(path[path.len() - 1].as_str()) {
                None => {
                    break;
                },
                Some(p) => {
                    if contains_text(&path, p.as_str()) {
                        break;
                    }
                    let ghost was = text::texts(path@);
                    path.push(p);
                    assert(text::texts(path@) =~= was.push(p@));
                },
            }
        }
        path
    }

    /// Whether `frame` appears in the tree: as the child of some stored
    /// transform, or as the parent of one.
    pub fn frame_exists_anywhere(&self, frame: &str) -> (r: bool)
        ensures
            r == self@.knows(frame@),
    {
        if self.static_.contains(frame) {
            return true;
        }
        match self.dynamic.get(frame) {
            Some(line) => {
                if !line.is_empty() {
                    return true;
                }
            },
            None => {},
        }
        let n = self.dynamic.len();
        proof {
            self.dynamic.layout();
        }
        let mut i: usize = 0;
        while i < n
            invariant
                i <= n == self.dynamic.keys().len(),
                self.dynamic.valid(),
                forall|j: int|
                    #![trigger self.dynamic.keys()[j]]
                    0 <= j < i ==> !timeline::hangs_from(
                        self.dynamic@[self.dynamic.keys()[j]]@,
                        frame@,
                    ),
            decreases n - i,
        {
            let ghost c = self.dynamic.keys()[i as int];
            if self.dynamic.value_at(i).has_parent(frame) {
                proof {
                    self.dynamic.layout();
                    assert(self@.dynamic.contains_key(c));
                }
                return true;
            }
            i += 1;
        }
        let m = self.static_.len();
        proof {
            self.static_.layout();
        }
        let mut k: usize = 0;
        while k < m
            invariant
                k <= m == self.static_.keys().len(),
                self.static_.valid(),
                forall|j: int|
                    #![trigger self.static_.keys()[j]]
                    0 <= j < k ==> self.static_@[self.static_.keys()[j]].header.frame_id@ != frame@,
            decreases m - k,
        {
            let ghost c = self.static_.keys()[k as int];
            if text_eq(self.static_.value_at(k).header.frame_id.as_str(), frame) {
                proof {
                    self.static_.layout();
                    assert(self@.static_.contains_key(c));
                }
                return true;
            }
            k += 1;
        }
        proof {
            assert forall|c: Seq<char>| #[trigger]
                self@.dynamic.contains_key(c) implies !timeline::hangs_from(
                self@.dynamic[c],
                frame@,
            ) by {
                let j = self.dynamic.keys().index_of(c);
                assert(self.dynamic.keys()[j] == c);
            }
            assert forall|c: Seq<char>| #[trigger]
                self@.static_.contains_key(c) implies self@.static_[c].header.frame_id@ != frame@ by {
                let j = self.static_.keys().index_of(c);
                assert(self.static_.keys()[j] == c);
            }
        }
        false
    }

    /// Every frame that is known, as a child or as a parent, once.
    pub fn known_frames(&self) -> (v: Vec<String>)
        ensures
            text::texts(v@).to_set() == Set::new(|f: Seq<char>| self@.knows(f)),
            text::texts(v@).no_duplicates(),
    {
        let mut frames: NameMap<()> = NameMap::new();
        let n = self.dynamic.len();
        proof {
            self.dynamic.layout();
        }
        let mut i: usize = 0;
        while i < n
            invariant
                i <= n == self.dynamic.keys().len(),
                self.dynamic.valid(),
                forall|f: Seq<char>| #[trigger]
                    frames@.contains_key(f) <==> exists|j: int|
                        0 <= j < i && self.brings(#[trigger] self.dynamic.keys()[j], f),
            decreases n - i,
        {
            let ghost before = frames@;
            let ghost c = self.dynamic.keys()[i as int];
            let line = self.dynamic.value_at(i);
            if !line.is_empty() {
                frames.insert(self.dynamic.key_at(i).clone(), ());
            }
            let ghost middle = frames@;
            line.add_parents(&mut frames);
            proof {
                assert forall|f: Seq<char>| #[trigger]
                    frames@.contains_key(f) <==> exists|j: int|
                        0 <= j < i + 1 && self.brings(#[trigger] self.dynamic.keys()[j], f) by {
                    assert(middle.contains_key(f) <==> before.contains_key(f) || (f == c && line@
                        != Map::<i64, TransformStamped<T>>::empty()));
                    assert(frames@.contains_key(f) <==> before.contains_key(f) || self.brings(c, f));
                }
            }
            i += 1;
        }
        let ghost dynamic = frames@;
        let m = self.static_.len();
        proof {
            self.static_.layout();
        }
        let mut k: usize = 0;
        while k < m
            invariant
                k <= m == self.static_.keys().len(),
                self.static_.valid(),
                forall|f: Seq<char>| #[trigger]
                    frames@.contains_key(f) <==> dynamic.contains_key(f) || exists|j: int|
                        0 <= j < k && self.brings_static(#[trigger] self.static_.keys()[j], f),
            decreases m - k,
        {
            let ghost before = frames@;
            let ghost c = self.static_.keys()[k as int];
            frames.insert(self.static_.key_at(k).clone(), ());
            let ghost middle = frames@;
            frames.insert(self.static_.value_at(k).header.frame_id.clone(), ());
            proof {
                assert forall|f: Seq<char>| #[trigger]
                    frames@.contains_key(f) <==> dynamic.contains_key(f) || exists|j: int|
                        0 <= j < k + 1 && self.brings_static(
                            #[trigger] self.static_.keys()[j],
                            f,
                        ) by {
                    assert(middle.contains_key(f) <==> before.contains_key(f) || f == c);
                    assert(frames@.contains_key(f) <==> before.contains_key(f)
                        || self.brings_static(c, f));
                }
            }
            k += 1;
        }
        let v = frames.key_list();
        proof {
            self.dynamic.layout();
            assert forall|f: Seq<char>| frames@.contains_key(f) <==> self@.knows(f) by {
                self.knows_by_place(f);
            }
            assert(frames@.dom() =~= Set::new(|f: Seq<char>| self@.knows(f)));
        }
        v
    }

    /// The dynamic transforms of the child `c` make `f` known.
    spec fn brings(&self, c: Seq<char>, f: Seq<char>) -> bool {
        let line = self.dynamic@[c]@;
        (f == c && line != Map::<i64, TransformStamped<T>>::empty()) || timeline::hangs_from(
            line,
            f,
        )
    }

    /// The static transform of the child `c` makes `f` known.
    spec fn brings_static(&self, c: Seq<char>, f: Seq<char>) -> bool {
        f == c || f == self.static_@[c].header.frame_id@
    }

    proof fn knows_by_place(&self, f: Seq<char>)
        requires
            self.dynamic.valid(),
            self.static_.valid(),
        ensures
            self@.knows(f) <==> {
                ||| exists|j: int|
                    0 <= j < self.dynamic.keys().len() && self.brings(
                        #[trigger] self.dynamic.keys()[j],
                        f,
                    )
                ||| exists|j: int|
                    0 <= j < self.static_.keys().len() && self.brings_static(
                        #[trigger] self.static_.keys()[j],
                        f,
                    )
            },
    {
        self.dynamic.layout();
        self.static_.layout();
        let dk = self.dynamic.keys();
        let sk = self.static_.keys();
        if self@.knows(f) {
            if self.static_@.contains_key(f) {
                assert(sk[sk.index_of(f)] == f);
            } else if self@.line(f) != Map::<i64, TransformStamped<T>>::empty() {
                assert(dk[dk.index_of(f)] == f);
            } else if exists|c: Seq<char>| #[trigger]
                self@.dynamic.contains_key(c) && timeline::hangs_from(self@.dynamic[c], f) {
                let c = choose|c: Seq<char>| #[trigger]
                    self@.dynamic.contains_key(c) && timeline::hangs_from(self@.dynamic[c], f);
                assert(dk[dk.index_of(c)] == c);
            } else {
                let c = choose|c: Seq<char>| #[trigger]
                    self@.static_.contains_key(c) && self@.static_[c].header.frame_id@ == f;
                assert(sk[sk.index_of(c)] == c);
            }
        }
        if exists|j: int| 0 <= j < dk.len() && self.brings(#[trigger] dk[j], f) {
            let j = choose|j: int| 0 <= j < dk.len() && self.brings(#[trigger] dk[j], f);
            assert(self@.dynamic.contains_key(dk[j]));
        }
        if exists|j: int| 0 <= j < sk.len() && self.brings_static(#[trigger] sk[j], f) {
            let j = choose|j: int| 0 <= j < sk.len() && self.brings_static(#[trigger] sk[j], f);
            assert(self@.static_.contains_key(sk[j]));
        }
    }
}

proof fn in_push(s: Seq<Seq<char>>, x: Seq<char>)
    ensures
        s.push(x).to_set() =~= s.to_set().insert(x),
{
    assert forall|y: Seq<char>| s.to_set().insert(x).contains(y) implies s.push(x).to_set().contains(
        y,
    ) by {
        if s.contains(y) {
            let i = s.index_of(y);
            assert(s.push(x)[i] == y);
        } else {
            assert(s.push(x)[s.len() as int] == x);
        }
    }
}

/// The time that is `history` nanoseconds before `now`, held inside the range of
/// `i64`.
fn cutoff_at(now: i64, history: u128) -> (t: i64)
    ensures
        t == clamped_i64(now - history),
{
    if history > 0x1_0000_0000_0000_0000 {
        return i64::MIN;
    }
    let diff: i128 = now as i128 - history as i128;
    if diff < i64::MIN as i128 {
        i64::MIN
    } else {
        diff as i64
    }
}

} // verus!
