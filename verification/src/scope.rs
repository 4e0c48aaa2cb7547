//! Variable scopes: a stack of frames, each mapping names to values.
//!
//! A name is looked up from the innermost frame outwards; a declaration
//! goes into the innermost frame; an assignment changes the innermost frame
//! that declares the name.

use vstd::prelude::*;

use crate::value::ValueRef;

verus! {

/// The model of a frame: the values of the names it declares.
pub type FrameView = Map<Seq<char>, ValueRef>;

/// The value of `name` in the innermost frame of `fs` that declares it.
pub open spec fn lookup(fs: Seq<FrameView>, name: Seq<char>) -> Option<ValueRef>
    decreases fs.len(),
{
    if fs.len() == 0 {
        None
    } else if fs.last().contains_key(name) {
        Some(fs.last()[name])
    } else {
        lookup(fs.drop_last(), name)
    }
}

/// The frames after declaring `name` with `value` in the innermost frame.
pub open spec fn declare(fs: Seq<FrameView>, name: Seq<char>, value: ValueRef) -> Seq<FrameView> {
    fs.update(fs.len() - 1, fs.last().insert(name, value))
}

/// The frames after giving `name` the value `value` in the innermost frame
/// that declares it, or `None` when no frame declares it.
pub open spec fn assign(fs: Seq<FrameView>, name: Seq<char>, value: ValueRef) -> Option<Seq<FrameView>>
    decreases fs.len(),
{
    if fs.len() == 0 {
        None
    } else if fs.last().contains_key(name) {
        Some(fs.update(fs.len() - 1, fs.last().insert(name, value)))
    } else {
        match assign(fs.drop_last(), name, value) {
            Some(inner) => Some(inner.push(fs.last())),
            None => None,
        }
    }
}

/// The model of a frame's entries.
pub open spec fn frame_map(e: Seq<(String, ValueRef)>) -> FrameView
    decreases e.len(),
{
    if e.len() == 0 {
        Map::empty()
    } else {
        frame_map(e.drop_last()).insert(e.last().0@, e.last().1)
    }
}

/// No name occurs twice among a frame's entries.
pub open spec fn distinct_names(e: Seq<(String, ValueRef)>) -> bool {
    forall|i: int, j: int| 0 <= i < j < e.len() ==> e[i].0@ != e[j].0@
}

pub proof fn lemma_frame_map(e: Seq<(String, ValueRef)>)
    requires
        distinct_names(e),
    ensures
        forall|k: Seq<char>| #[trigger]
            frame_map(e).contains_key(k) <==> exists|i: int| #![trigger e[i]] 0 <= i < e.len() && e[i].0@ == k,
        forall|i: int| 0 <= i < e.len() ==> #[trigger] frame_map(e)[e[i].0@] == e[i].1,
    decreases e.len(),
{
    if e.len() > 0 {
        let d = e.drop_last();
        assert(distinct_names(d));
        lemma_frame_map(d);
        assert(frame_map(e) == frame_map(d).insert(e.last().0@, e.last().1));
        assert forall|k: Seq<char>| #[trigger]
            frame_map(e).contains_key(k) <==> exists|i: int| #![trigger e[i]] 0 <= i < e.len() && e[i].0@ == k by {
            if frame_map(e).contains_key(k) && k != e.last().0@ {
                assert(frame_map(d).contains_key(k));
                let i = choose|i: int| 0 <= i < d.len() && d[i].0@ == k;
                assert(e[i].0@ == k);
            }
            if exists|i: int| 0 <= i < e.len() && e[i].0@ == k {
                let i = choose|i: int| 0 <= i < e.len() && e[i].0@ == k;
                if i < e.len() - 1 {
                    assert(d[i].0@ == k);
                }
            }
        }
        assert forall|i: int| 0 <= i < e.len() implies #[trigger] frame_map(e)[e[i].0@] == e[i].1 by {
            if i < e.len() - 1 {
                assert(d[i].0@ == e[i].0@);
            }
        }
    }
}

/// A frame of variables.
pub struct Frame {
    entries: Vec<(String, ValueRef)>,
}

/// A stack of frames, the innermost last.
pub struct Scope {
    frames: Vec<Frame>,
}

impl Frame {
    pub closed spec fn wf(self) -> bool {
        distinct_names(self.entries@)
    }

    pub closed spec fn view(self) -> FrameView {
        frame_map(self.entries@)
    }

    /// All values this frame holds.
    pub closed spec fn refs(self) -> Seq<ValueRef> {
        self.entries@.map_values(|e: (String, ValueRef)| e.1)
    }

    fn empty() -> (r: Frame)
        ensures
            r.wf(),
            r.view() == Map::<Seq<char>, ValueRef>::empty(),
            r.refs().len() == 0,
    {
        Frame { entries: Vec::new() }
    }

    /// The position of `name` among the entries, if it is declared here.
    fn find(&self, name: &String) -> (r: Option<usize>)
        requires
            self.wf(),
        ensures
            match r {
                Some(i) => i < self.entries.len() && self.entries@[i as int].0@ == name@,
                None => forall|i: int| 0 <= i < self.entries.len() ==> self.entries@[i].0@ != name@,
            },
            r is Some <==> self.view().contains_key(name@),
    {
        proof {
            lemma_frame_map(self.entries@);
        }
        let mut i: usize = 0;
        while i < self.entries.len()
            invariant
                0 <= i <= self.entries.len(),
                self.wf(),
                forall|j: int| 0 <= j < i ==> self.entries@[j].0@ != name@,
            decreases self.entries.len() - i,
        {
            if self.entries[i].0 == *name {
                proof {
                    lemma_frame_map(self.entries@);
                    assert(frame_map(self.entries@).contains_key(self.entries@[i as int].0@));
                }
                return Some(i);
            }
            i = i + 1;
        }
        None
    }

    /// Gives `name` the value `value` in this frame.  `true` if the frame
    /// did not declare it before.
    fn insert(&mut self, name: String, value: ValueRef) -> (r: bool)
        requires
            old(self).wf(),
        ensures
            final(self).wf(),
            final(self).view() == old(self).view().insert(name@, value),
            r == !old(self).view().contains_key(name@),
            forall|v: ValueRef| #[trigger] final(self).refs().contains(v) ==> v == value || old(
                self,
            ).refs().contains(v),
    {
        proof {
            lemma_frame_map(self.entries@);
        }
        let ghost old_e = self.entries@;
        match self.find(&name) {
            Some(i) => {
                self.entries.remove(i);
                self.entries.push((name, value));
                proof {
                    let e = self.entries@;
                    assert(distinct_names(e)) by {
                        assert forall|a: int, b: int| 0 <= a < b < e.len() implies e[a].0@ != e[b].0@ by {
                            let oa = if a < i { a } else { a + 1 };
                            if b < e.len() - 1 {
                                let ob = if b < i { b } else { b + 1 };
                                assert(e[a] == old_e[oa] && e[b] == old_e[ob]);
                            } else {
                                assert(e[a] == old_e[oa]);
                            }
                        }
                    }
                    lemma_frame_map(e);
                    assert(frame_map(e) =~= frame_map(old_e).insert(name@, value)) by {
                        assert forall|k: Seq<char>| #[trigger] frame_map(e).contains_key(k)
                            <==> frame_map(old_e).insert(name@, value).contains_key(k) by {
                            if exists|j: int| 0 <= j < old_e.len() && old_e[j].0@ == k {
                                let j = choose|j: int| 0 <= j < old_e.len() && old_e[j].0@ == k;
                                if j < i {
                                    assert(e[j] == old_e[j]);
                                } else if j > i {
                                    assert(e[j - 1] == old_e[j]);
                                }
                            }
                        }
                        assert forall|k: Seq<char>| #[trigger] frame_map(e).contains_key(k)
                            implies frame_map(e)[k] == frame_map(old_e).insert(name@, value)[k] by {
                            let j = choose|j: int| 0 <= j < e.len() && e[j].0@ == k;
                            if j < e.len() - 1 {
                                let oj = if j < i { j } else { j + 1 };
                                assert(e[j] == old_e[oj]);
                            }
                        }
                    }
                    assert forall|v: ValueRef| #[trigger] self.refs().contains(v) implies v == value
                        || old(self).refs().contains(v) by {
                        let j = choose|j: int| 0 <= j < self.refs().len() && self.refs()[j] == v;
                        if j < e.len() - 1 {
                            let oj = if j < i { j } else { j + 1 };
                            assert(old(self).refs()[oj] == v);
                        }
                    }
                }
                false
            },
            None => {
                self.entries.push((name, value));
                proof {
                    let e = self.entries@;
                    assert(e.drop_last() =~= old_e);
                    assert(distinct_names(e));
                    assert forall|v: ValueRef| #[trigger] self.refs().contains(v) implies v == value
                        || old(self).refs().contains(v) by {
                        let j = choose|j: int| 0 <= j < self.refs().len() && self.refs()[j] == v;
                        if j < e.len() - 1 {
                            assert(old(self).refs()[j] == v);
                        }
                    }
                }
                true
            },
        }
    }
}

/// The models of a sequence of frames.
pub open spec fn frames_view(fs: Seq<Frame>) -> Seq<FrameView> {
    fs.map_values(|f: Frame| f.view())
}

impl Scope {
    pub closed spec fn wf(self) -> bool {
        &&& self.frames.len() >= 1
        &&& forall|i: int| 0 <= i < self.frames.len() ==> #[trigger] self.frames@[i].wf()
    }

    /// The frames, the innermost last.
    pub closed spec fn view(self) -> Seq<FrameView> {
        frames_view(self.frames@)
    }

    /// Whether every value the frames hold is one for which `valid` holds.
    pub closed spec fn all_refs(self, valid: spec_fn(ValueRef) -> bool) -> bool {
        forall|i: int, v: ValueRef|
            0 <= i < self.frames.len() && #[trigger] self.frames@[i].refs().contains(v) ==> valid(v)
    }

    /// A scope of one empty frame.
    pub fn new() -> (r: Scope)
        ensures
            r.wf(),
            r@ == seq![Map::<Seq<char>, ValueRef>::empty()],
    {
        let mut frames: Vec<Frame> = Vec::new();
        frames.push(Frame::empty());
        let r = Scope { frames };
        assert(r@ =~= seq![Map::<Seq<char>, ValueRef>::empty()]);
        r
    }

    /// The value of `var` in the innermost frame that declares it.
    pub fn get_var(&self, var: &str) -> (r: Option<ValueRef>)
        requires
            self.wf(),
        ensures
            r == lookup(self@, var@),
    {
        let name = var.to_owned();
        let mut i = self.frames.len();
        assert(self@.take(i as int) =~= self@);
        while i > 0
            invariant
                0 <= i <= self.frames.len(),
                self.wf(),
                name@ == var@,
                lookup(self@, var@) == lookup(self@.take(i as int), var@),
            decreases i,
        {
            let f = &self.frames[i - 1];
            proof {
                assert(self.frames@[i - 1].wf());
                assert(self@.take(i as int).drop_last() =~= self@.take(i - 1));
                assert(self@.take(i as int).last() == f.view());
            }
            match f.find(&name) {
                Some(j) => {
                    proof {
                        lemma_frame_map(f.entries@);
                    }
                    return Some(f.entries[j].1);
                },
                None => {},
            }
            i = i - 1;
        }
        None
    }

    /// Declares `var` with `value` in the innermost frame, replacing an
    /// earlier declaration there.  Returns false if the variable was already
    /// declared in that frame.
    pub fn declare_var(&mut self, var: String, value: ValueRef) -> (r: bool)
        requires
            old(self).wf(),
        ensures
            final(self).wf(),
            final(self)@ == declare(old(self)@, var@, value),
            r == !old(self)@.last().contains_key(var@),
            forall|valid: spec_fn(ValueRef) -> bool|
                old(self).all_refs(valid) && valid(value) ==> #[trigger] final(self).all_refs(valid),
    {
        let ghost old_frames = self.frames@;
        let mut f = self.frames.pop().unwrap();
        assert(old_frames[old_frames.len() - 1] == f);
        let r = f.insert(var, value);
        self.frames.push(f);
        proof {
            assert(self.frames@ =~= old_frames.update(old_frames.len() - 1, f));
            assert(self@ =~= declare(frames_view(old_frames), var@, value));
            assert forall|valid: spec_fn(ValueRef) -> bool|
                old(self).all_refs(valid) && valid(value) implies #[trigger] self.all_refs(valid) by {
                assert forall|i: int, v: ValueRef|
                    0 <= i < self.frames.len() && #[trigger] self.frames@[i].refs().contains(v)
                    implies valid(v) by {
                    if i < self.frames.len() - 1 {
                        assert(self.frames@[i] == old_frames[i]);
                        assert(old(self).frames@[i].refs().contains(v));
                    } else if v != value {
                        assert(old(self).frames@[i].refs().contains(v));
                    }
                }
            }
        }
        r
    }

    /// Gives `var` the value `value` in the innermost frame that declares
    /// it.  `Err` if no frame declares it.
    pub fn set_var(&mut self, var: &str, value: ValueRef) -> (r: Result<(), ()>)
        requires
            old(self).wf(),
        ensures
            final(self).wf(),
            match assign(old(self)@, var@, value) {
                Some(fs) => r is Ok && final(self)@ == fs,
                None => r is Err && final(self)@ == old(self)@,
            },
            forall|valid: spec_fn(ValueRef) -> bool|
                old(self).all_refs(valid) && valid(value) ==> #[trigger] final(self).all_refs(valid),
    {
        let name = var.to_owned();
        let ghost fs0 = self@;
        let ghost old_frames = self.frames@;
        let mut i = self.frames.len();
        while i > 0
            invariant
                0 <= i <= self.frames.len(),
                self.wf(),
                self.frames@ == old_frames,
                old_frames == old(self).frames@,
                fs0 == old(self)@,
                self@ == fs0,
                name@ == var@,
                forall|k: int| i <= k < fs0.len() ==> !(#[trigger] fs0[k]).contains_key(var@),
            decreases i,
        {
            proof {
                assert(self.frames@[i - 1].wf());
            }
            match self.frames[i - 1].find(&name) {
                Some(_) => {
                    let mut f = self.frames.remove(i - 1);
                    f.insert(name, value);
                    self.frames.insert(i - 1, f);
                    proof {
                        lemma_assign_at(fs0, var@, value, i - 1);
                        assert(self.frames@ =~= old_frames.update(i - 1, f));
                        assert(self@ =~= fs0.update(i - 1, fs0[i - 1].insert(var@, value)));
                        assert forall|valid: spec_fn(ValueRef) -> bool|
                            old(self).all_refs(valid) && valid(value) implies #[trigger] self.all_refs(
                            valid,
                        ) by {
                            assert forall|k: int, v: ValueRef|
                                0 <= k < self.frames.len() && #[trigger] self.frames@[k].refs().contains(v)
                                implies valid(v) by {
                                if k != i - 1 {
                                    assert(self.frames@[k] == old_frames[k]);
                                    assert(old(self).frames@[k].refs().contains(v));
                                } else if v != value {
                                    assert(old(self).frames@[k].refs().contains(v));
                                }
                            }
                        }
                    }
                    return Ok(());
                },
                None => {},
            }
            i = i - 1;
        }
        proof {
            lemma_assign_none(fs0, var@, value);
        }
        Err(())
    }

    /// Opens a new innermost frame.
    pub fn new_child(&mut self)
        requires
            old(self).wf(),
        ensures
            final(self).wf(),
            final(self)@ == old(self)@.push(Map::empty()),
            forall|valid: spec_fn(ValueRef) -> bool|
                old(self).all_refs(valid) ==> #[trigger] final(self).all_refs(valid),
    {
        let ghost old_frames = self.frames@;
        self.frames.push(Frame::empty());
        proof {
            assert(self@ =~= old(self)@.push(Map::empty()));
            assert forall|valid: spec_fn(ValueRef) -> bool|
                old(self).all_refs(valid) implies #[trigger] self.all_refs(valid) by {
                assert forall|k: int, v: ValueRef|
                    0 <= k < self.frames.len() && #[trigger] self.frames@[k].refs().contains(v)
                    implies valid(v) by {
                    if k < old_frames.len() {
                        assert(self.frames@[k] == old_frames[k]);
                        assert(old(self).frames@[k].refs().contains(v));
                    }
                }
            }
        }
    }

    /// Closes the innermost frame, which is not the only one.
    pub fn drop_child(&mut self)
        requires
            old(self).wf(),
            old(self)@.len() > 1,
        ensures
            final(self).wf(),
            final(self)@ == old(self)@.drop_last(),
            forall|valid: spec_fn(ValueRef) -> bool|
                old(self).all_refs(valid) ==> #[trigger] final(self).all_refs(valid),
    {
        let ghost old_frames = self.frames@;
        let _ = self.frames.pop();
        proof {
            assert(self.frames@ =~= old_frames.drop_last());
            assert(self@ =~= old(self)@.drop_last());
            assert forall|valid: spec_fn(ValueRef) -> bool|
                old(self).all_refs(valid) implies #[trigger] self.all_refs(valid) by {
                assert forall|k: int, v: ValueRef|
                    0 <= k < self.frames.len() && #[trigger] self.frames@[k].refs().contains(v)
                    implies valid(v) by {
                    assert(self.frames@[k] == old_frames[k]);
                    assert(old(self).frames@[k].refs().contains(v));
                }
            }
        }
    }
}

/// Assigning to a name whose innermost declaring frame is `k` changes that
/// frame only.
pub proof fn lemma_assign_at(fs: Seq<FrameView>, name: Seq<char>, value: ValueRef, k: int)
    requires
        0 <= k < fs.len(),
        fs[k].contains_key(name),
        forall|j: int| k < j < fs.len() ==> !(#[trigger] fs[j]).contains_key(name),
    ensures
        assign(fs, name, value) == Some(fs.update(k, fs[k].insert(name, value))),
        lookup(fs, name) == Some(fs[k][name]),
    decreases fs.len(),
{
    if k < fs.len() - 1 {
        let d = fs.drop_last();
        lemma_assign_at(d, name, value, k);
        assert(d.update(k, fs[k].insert(name, value)).push(fs.last()) =~= fs.update(
            k,
            fs[k].insert(name, value),
        ));
    }
}

/// Assigning to a name that no frame declares fails.
pub proof fn lemma_assign_none(fs: Seq<FrameView>, name: Seq<char>, value: ValueRef)
    requires
        forall|j: int| 0 <= j < fs.len() ==> !(#[trigger] fs[j]).contains_key(name),
    ensures
        assign(fs, name, value) is None,
        lookup(fs, name) is None,
    decreases fs.len(),
{
    if fs.len() > 0 {
        lemma_assign_none(fs.drop_last(), name, value);
    }
}

/// A read gives back what a declaration wrote: after declaring `name` with
/// `value`, looking `name` up gives `value`, and every other name keeps the
/// value it had.
pub proof fn law_lookup_after_declare(fs: Seq<FrameView>, name: Seq<char>, value: ValueRef, other: Seq<char>)
    requires
        fs.len() >= 1,
    ensures
        lookup(declare(fs, name, value), name) == Some(value),
        other != name ==> lookup(declare(fs, name, value), other) == lookup(fs, other),
{
    let d = declare(fs, name, value);
    assert(d.drop_last() =~= fs.drop_last());
}

/// An assignment succeeds exactly when some frame declares the name; then
/// looking the name up gives the assigned value, every other name keeps the
/// value it had, and no frame is added or removed.
pub proof fn law_assign(fs: Seq<FrameView>, name: Seq<char>, value: ValueRef, other: Seq<char>)
    ensures
        (assign(fs, name, value) is Some) == (lookup(fs, name) is Some),
        assign(fs, name, value) matches Some(after) ==> {
            &&& lookup(after, name) == Some(value)
            &&& other != name ==> lookup(after, other) == lookup(fs, other)
            &&& after.len() == fs.len()
        },
    decreases fs.len(),
{
    if fs.len() > 0 {
        if fs.last().contains_key(name) {
            let after = fs.update(fs.len() - 1, fs.last().insert(name, value));
            assert(after.drop_last() =~= fs.drop_last());
        } else {
            law_assign(fs.drop_last(), name, value, other);
            if let Some(inner) = assign(fs.drop_last(), name, value) {
                let after = inner.push(fs.last());
                assert(after.drop_last() =~= inner);
            }
        }
    }
}

/// A child frame sees every variable of the frames around it, a
/// declaration in it hides an outer one of the same name, and once it is
/// dropped the frames around it are as they were.
pub proof fn law_child_frame(fs: Seq<FrameView>, name: Seq<char>, value: ValueRef, other: Seq<char>)
    requires
        fs.len() >= 1,
    ensures
        lookup(fs.push(Map::empty()), other) == lookup(fs, other),
        lookup(declare(fs.push(Map::empty()), name, value), name) == Some(value),
        declare(fs.push(Map::empty()), name, value).drop_last() == fs,
{
    let c = fs.push(Map::empty());
    assert(c.drop_last() =~= fs);
    assert(declare(c, name, value).drop_last() =~= fs);
}

/// Whether every value the frames hold is a cell below `n`.
pub open spec fn frames_below(fs: Seq<FrameView>, n: nat) -> bool {
    forall|i: int, k: Seq<char>|
        0 <= i < fs.len() && #[trigger] fs[i].contains_key(k) ==> fs[i][k].0 < n
}

/// A name looked up in frames whose values are cells below `n` is a cell
/// below `n`.
pub proof fn lemma_lookup_below(fs: Seq<FrameView>, name: Seq<char>, n: nat)
    requires
        frames_below(fs, n),
    ensures
        lookup(fs, name) matches Some(r) ==> r.0 < n,
    decreases fs.len(),
{
    if fs.len() > 0 {
        if fs.last().contains_key(name) {
            assert(fs[fs.len() - 1].contains_key(name));
        } else {
            assert(frames_below(fs.drop_last(), n)) by {
                assert forall|i: int, k: Seq<char>|
                    0 <= i < fs.drop_last().len() && #[trigger] fs.drop_last()[i].contains_key(k) implies fs.drop_last()[i][k].0 < n by {
                    assert(fs[i] == fs.drop_last()[i]);
                }
            }
            lemma_lookup_below(fs.drop_last(), name, n);
        }
    }
}

/// Declaring a name with a cell below `n` keeps every value below `n`.
pub proof fn lemma_declare_below(fs: Seq<FrameView>, name: Seq<char>, value: ValueRef, n: nat)
    requires
        frames_below(fs, n),
        fs.len() >= 1,
        value.0 < n,
    ensures
        frames_below(declare(fs, name, value), n),
        declare(fs, name, value).len() == fs.len(),
{
    let d = declare(fs, name, value);
    assert forall|i: int, k: Seq<char>| 0 <= i < d.len() && #[trigger] d[i].contains_key(k) implies d[i][k].0 < n by {
        if i != fs.len() - 1 {
            assert(d[i] == fs[i]);
        } else if k != name {
            assert(fs[i].contains_key(k));
        }
    }
}

/// Assigning a cell below `n` keeps every value below `n`, and keeps the
/// number of frames.
pub proof fn lemma_assign_below(fs: Seq<FrameView>, name: Seq<char>, value: ValueRef, n: nat)
    requires
        frames_below(fs, n),
        value.0 < n,
    ensures
        assign(fs, name, value) matches Some(g) ==> frames_below(g, n) && g.len() == fs.len(),
    decreases fs.len(),
{
    if fs.len() > 0 {
        if fs.last().contains_key(name) {
            lemma_declare_below(fs, name, value, n);
            assert(assign(fs, name, value) == Some(declare(fs, name, value)));
        } else {
            let d = fs.drop_last();
            assert(frames_below(d, n)) by {
                assert forall|i: int, k: Seq<char>| 0 <= i < d.len() && #[trigger] d[i].contains_key(k) implies d[i][k].0 < n by {
                    assert(fs[i] == d[i]);
                }
            }
            lemma_assign_below(d, name, value, n);
            if let Some(inner) = assign(d, name, value) {
                let g = inner.push(fs.last());
                assert forall|i: int, k: Seq<char>| 0 <= i < g.len() && #[trigger] g[i].contains_key(k) implies g[i][k].0 < n by {
                    if i == g.len() - 1 {
                        assert(fs[fs.len() - 1].contains_key(k));
                    } else {
                        assert(g[i] == inner[i]);
                    }
                }
            }
        }
    }
}

impl Scope {
    /// A well-formed scope has at least one frame.
    pub proof fn lemma_nonempty(&self)
        requires
            self.wf(),
        ensures
            self@.len() >= 1,
    {
    }
}

} // verus!
