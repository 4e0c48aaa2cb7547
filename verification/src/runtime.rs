//! The interpreter's state: the heap of cells, the variable frames, the
//! printed lines, and the cells being read; with the operations on it that
//! evaluation is built from.

use vstd::prelude::*;

use crate::ast::same_names;
use crate::scope::{
    Scope, assign, declare, frames_below, lemma_assign_below, lemma_declare_below,
    lemma_lookup_below, lookup,
};
use crate::semantics::{EvalPanic, SError, State, allocate, cell, same_items, same_value, show_list, show_value};
use crate::text::{push_int, push_str, string_from_chars};
use crate::value::{NativeFn, SValue, Value, ValueRef, heap_ok, refs_below, refs_of};

verus! {

/// Why the evaluation of an expression failed.
#[derive(Debug, PartialEq, Eq)]
pub enum EvalError {
    /// The left side of an assignment is not a variable.
    ExpectedVar,
    ExpectedBool(Value),
    ExpectedInt(Value),
    ExpectedArray(Value),
    ExpectedFunction(Value),
    OutOfBounds { max: usize, idx: i32 },
    UndefinedVariable(String),
    UnknownField(Value, String),
    /// An operation that Rust code would panic on.
    Panic(EvalPanic),
    /// The evaluation budget ran out.
    OutOfFuel,
}

impl View for EvalError {
    type V = SError;

    open spec fn view(&self) -> SError {
        match self {
            EvalError::ExpectedVar => SError::ExpectedVar,
            EvalError::ExpectedBool(v) => SError::ExpectedBool(v@),
            EvalError::ExpectedInt(v) => SError::ExpectedInt(v@),
            EvalError::ExpectedArray(v) => SError::ExpectedArray(v@),
            EvalError::ExpectedFunction(v) => SError::ExpectedFunction(v@),
            EvalError::OutOfBounds { max, idx } => SError::OutOfBounds(*max, *idx),
            EvalError::UndefinedVariable(n) => SError::UndefinedVariable(n@),
            EvalError::UnknownField(v, f) => SError::UnknownField(v@, f@),
            EvalError::Panic(p) => SError::Panic(*p),
            EvalError::OutOfFuel => SError::OutOfFuel,
        }
    }
}

/// The model of an evaluation result.
pub open spec fn result_view(r: Result<ValueRef, EvalError>) -> Result<ValueRef, SError> {
    match r {
        Ok(v) => Ok(v),
        Err(e) => Err(e@),
    }
}

/// The models of the cells.
pub open spec fn heap_view(h: Seq<Value>) -> Seq<SValue> {
    h.map_values(|v: Value| v@)
}

/// The models of printed lines.
pub open spec fn lines_view(o: Seq<String>) -> Seq<Seq<char>> {
    o.map_values(|s: String| s@)
}

/// Whether every cell in `rs` is below `n`.
pub open spec fn cells_below(rs: Seq<ValueRef>, n: nat) -> bool {
    forall|i: int| 0 <= i < rs.len() ==> (#[trigger] rs[i]).0 < n
}

/// The invariant of the interpreter's state: every reference, in a cell, a
/// frame or the list of cells being read, is to a cell of the heap; and
/// there is at least one frame.
pub open spec fn state_ok(s: State) -> bool {
    &&& heap_ok(s.heap)
    &&& frames_below(s.frames, s.heap.len())
    &&& s.frames.len() >= 1
    &&& cells_below(s.borrowed, s.heap.len())
}

/// The state of a new interpreter: no cells, one empty frame, nothing
/// printed, nothing being read.
pub open spec fn initial_state() -> State {
    State {
        heap: Seq::empty(),
        frames: seq![Map::empty()],
        output: Seq::empty(),
        borrowed: Seq::empty(),
    }
}

/// The interpreter's state.
pub struct Runtime {
    heap: Vec<Value>,
    scope: Scope,
    output: Vec<String>,
    borrowed: Vec<ValueRef>,
}

impl View for Runtime {
    type V = State;

    closed spec fn view(&self) -> State {
        State {
            heap: heap_view(self.heap@),
            frames: self.scope@,
            output: lines_view(self.output@),
            borrowed: self.borrowed@,
        }
    }
}

impl Runtime {
    pub closed spec fn wf(&self) -> bool {
        &&& self.scope.wf()
        &&& state_ok(self@)
    }

    /// A well-formed interpreter's state meets the invariant.
    pub proof fn lemma_wf(&self)
        requires
            self.wf(),
        ensures
            state_ok(self@),
    {
    }

    /// An interpreter with no cells and no variables.
    pub fn new() -> (r: Runtime)
        ensures
            r.wf(),
            r@ == initial_state(),
    {
        let r = Runtime { heap: Vec::new(), scope: Scope::new(), output: Vec::new(), borrowed: Vec::new() };
        assert(r@ =~= initial_state());
        r
    }

    /// An interpreter whose variables are `print`, the native function that
    /// prints its arguments, and `debug`, which is `true`.
    pub fn with_prelude() -> (r: Runtime)
        ensures
            r.wf(),
            r@.heap == seq![SValue::NativeFn(NativeFn::Print), SValue::Bool(true)],
            r@.frames == seq![Map::<Seq<char>, ValueRef>::empty().insert("print"@, ValueRef(0)).insert(
                "debug"@,
                ValueRef(1),
            )],
            r@.output.len() == 0,
            r@.borrowed.len() == 0,
    {
        let mut r = Runtime::new();
        let p = r.allocate(Value::NativeFn(NativeFn::Print));
        r.declare(String::from_str("print"), p);
        let d = r.allocate(Value::Bool(true));
        r.declare(String::from_str("debug"), d);
        proof {
            reveal_strlit("print");
            reveal_strlit("debug");
        }
        assert(r@.frames =~= seq![Map::<Seq<char>, ValueRef>::empty().insert("print"@, ValueRef(0)).insert(
            "debug"@,
            ValueRef(1),
        )]);
        assert(r@.heap =~= seq![SValue::NativeFn(NativeFn::Print), SValue::Bool(true)]);
        r
    }

    /// The value in the cell `r`.
    pub fn cell(&self, r: ValueRef) -> (v: &Value)
        requires
            self.wf(),
            r.0 < self@.heap.len(),
        ensures
            v@ == cell(self@, r),
            refs_below(v@, self@.heap.len()),
    {
        &self.heap[r.0]
    }

    /// The value of the variable `name`: the cell it has in the innermost
    /// frame that declares it.
    pub fn get_var(&self, name: &str) -> (r: Option<ValueRef>)
        requires
            self.wf(),
        ensures
            r == lookup(self@.frames, name@),
            r matches Some(c) ==> c.0 < self@.heap.len(),
    {
        proof {
            lemma_lookup_below(self@.frames, name@, self@.heap.len());
        }
        self.scope.get_var(name)
    }

    /// Whether the variable `debug` is the boolean `true`.
    pub fn debug_enabled(&self) -> (r: bool)
        requires
            self.wf(),
        ensures
            r == (lookup(self@.frames, "debug"@) matches Some(c) && cell(self@, c) == SValue::Bool(true)),
    {
        match self.get_var("debug") {
            Some(c) => self.cell(c).equals_bool(true),
            None => false,
        }
    }

    /// The lines printed so far, which are then forgotten.
    pub fn take_output(&mut self) -> (lines: Vec<String>)
        requires
            old(self).wf(),
        ensures
            final(self).wf(),
            lines_view(lines@) == old(self)@.output,
            final(self)@ == (State { output: Seq::empty(), ..old(self)@ }),
    {
        let mut lines: Vec<String> = Vec::new();
        std::mem::swap(&mut lines, &mut self.output);
        assert(self@ =~= (State { output: Seq::empty(), ..old(self)@ }));
        lines
    }

    /// Stores `v` in a new cell.
    pub(crate) fn allocate(&mut self, v: Value) -> (r: ValueRef)
        requires
            old(self).wf(),
            refs_below(v@, old(self)@.heap.len()),
        ensures
            final(self).wf(),
            (r, final(self)@) == allocate(old(self)@, v@),
    {
        let r = ValueRef(self.heap.len());
        let ghost old_heap = self@.heap;
        self.heap.push(v);
        proof {
            assert(self@.heap =~= old_heap.push(v@));
            let h = self@.heap;
            assert forall|i: int| 0 <= i < h.len() implies refs_below(#[trigger] h[i], h.len()) by {
                if i < old_heap.len() {
                    assert(refs_below(old_heap[i], old_heap.len()));
                }
            }
        }
        assert(self@ =~= allocate(old(self)@, v@).1);
        r
    }

    /// Declares `name` with the cell `v` in the innermost frame.
    pub(crate) fn declare(&mut self, name: String, v: ValueRef)
        requires
            old(self).wf(),
            v.0 < old(self)@.heap.len(),
        ensures
            final(self).wf(),
            final(self)@ == (State { frames: declare(old(self)@.frames, name@, v), ..old(self)@ }),
            final(self)@.frames.len() == old(self)@.frames.len(),
    {
        proof {
            lemma_declare_below(self@.frames, name@, v, self@.heap.len());
        }
        let _ = self.scope.declare_var(name, v);
        assert(self@ =~= (State { frames: declare(old(self)@.frames, name@, v), ..old(self)@ }));
    }

    /// Gives `name` the cell `v` in the innermost frame that declares it;
    /// `Err` if none does.
    pub(crate) fn assign(&mut self, name: &str, v: ValueRef) -> (r: Result<(), ()>)
        requires
            old(self).wf(),
            v.0 < old(self)@.heap.len(),
        ensures
            final(self).wf(),
            match assign(old(self)@.frames, name@, v) {
                Some(fs) => r is Ok && final(self)@ == (State { frames: fs, ..old(self)@ }),
                None => r is Err && final(self)@ == old(self)@,
            },
            final(self)@.frames.len() == old(self)@.frames.len(),
    {
        proof {
            lemma_assign_below(self@.frames, name@, v, self@.heap.len());
        }
        let r = self.scope.set_var(name, v);
        proof {
            if let Some(fs) = assign(old(self)@.frames, name@, v) {
                assert(self@ =~= (State { frames: fs, ..old(self)@ }));
            } else {
                assert(self@ =~= old(self)@);
            }
        }
        r
    }

    /// Opens a new innermost frame.
    pub(crate) fn push_frame(&mut self)
        requires
            old(self).wf(),
        ensures
            final(self).wf(),
            final(self)@ == (State { frames: old(self)@.frames.push(Map::empty()), ..old(self)@ }),
            final(self)@.frames.len() >= 2,
    {
        self.scope.new_child();
        proof {
            old(self).scope.lemma_nonempty();
            let fs = self@.frames;
            assert forall|i: int, k: Seq<char>| 0 <= i < fs.len() && #[trigger] fs[i].contains_key(k) implies fs[i][k].0 < self@.heap.len() by {
                if i < fs.len() - 1 {
                    assert(fs[i] == old(self)@.frames[i]);
                }
            }
        }
        assert(self@ =~= (State { frames: old(self)@.frames.push(Map::empty()), ..old(self)@ }));
    }

    /// Closes the innermost frame, which is not the only one.
    pub(crate) fn pop_frame(&mut self)
        requires
            old(self).wf(),
            old(self)@.frames.len() > 1,
        ensures
            final(self).wf(),
            final(self)@ == (State { frames: old(self)@.frames.drop_last(), ..old(self)@ }),
    {
        self.scope.drop_child();
        proof {
            let fs = self@.frames;
            assert forall|i: int, k: Seq<char>| 0 <= i < fs.len() && #[trigger] fs[i].contains_key(k) implies fs[i][k].0 < self@.heap.len() by {
                assert(fs[i] == old(self)@.frames[i]);
            }
        }
        assert(self@ =~= (State { frames: old(self)@.frames.drop_last(), ..old(self)@ }));
    }

    /// Marks the cell `r` as being read.
    pub(crate) fn push_borrow(&mut self, r: ValueRef)
        requires
            old(self).wf(),
            r.0 < old(self)@.heap.len(),
        ensures
            final(self).wf(),
            final(self)@ == (State { borrowed: old(self)@.borrowed.push(r), ..old(self)@ }),
    {
        self.borrowed.push(r);
        assert(self@ =~= (State { borrowed: old(self)@.borrowed.push(r), ..old(self)@ }));
    }

    /// Ends the last read that `push_borrow` began.
    pub(crate) fn pop_borrow(&mut self)
        requires
            old(self).wf(),
            old(self)@.borrowed.len() > 0,
        ensures
            final(self).wf(),
            final(self)@ == (State { borrowed: old(self)@.borrowed.drop_last(), ..old(self)@ }),
    {
        let _ = self.borrowed.pop();
        assert(self@ =~= (State { borrowed: old(self)@.borrowed.drop_last(), ..old(self)@ }));
    }

    /// Whether the cell `r` is being read.
    pub(crate) fn is_borrowed(&self, r: ValueRef) -> (b: bool)
        ensures
            b == self@.borrowed.contains(r),
    {
        let mut i: usize = 0;
        while i < self.borrowed.len()
            invariant
                0 <= i <= self.borrowed.len(),
                forall|j: int| 0 <= j < i ==> self.borrowed@[j] != r,
            decreases self.borrowed.len() - i,
        {
            if self.borrowed[i] == r {
                assert(self@.borrowed[i as int] == r);
                return true;
            }
            i = i + 1;
        }
        false
    }

    /// Adds a printed line.
    pub(crate) fn print_line(&mut self, line: String)
        requires
            old(self).wf(),
        ensures
            final(self).wf(),
            final(self)@ == (State { output: old(self)@.output.push(line@), ..old(self)@ }),
    {
        self.output.push(line);
        assert(self@ =~= (State { output: old(self)@.output.push(line@), ..old(self)@ }));
    }

    /// Appends the cells `refs` to the array in the cell `t`.
    pub(crate) fn extend_array(&mut self, t: ValueRef, refs: &Vec<ValueRef>)
        requires
            old(self).wf(),
            t.0 < old(self)@.heap.len(),
            cell(old(self)@, t) is Array,
            cells_below(refs@, old(self)@.heap.len()),
        ensures
            final(self).wf(),
            final(self)@ == (State {
                heap: old(self)@.heap.update(
                    t.0 as int,
                    SValue::Array(cell(old(self)@, t)->Array_0 + refs@),
                ),
                ..old(self)@
            }),
    {
        let ghost h0 = self@.heap;
        let mut v = Value::Unit;
        std::mem::swap(&mut v, &mut self.heap[t.0]);
        let ghost h1 = self.heap@;
        match v {
            Value::Array(mut items) => {
                let ghost start = items@;
                let mut i: usize = 0;
                while i < refs.len()
                    invariant
                        0 <= i <= refs.len(),
                        items@ == start + refs@.take(i as int),
                    decreases refs.len() - i,
                {
                    items.push(refs[i]);
                    i = i + 1;
                    assert(items@ =~= start + refs@.take(i as int));
                }
                assert(refs@.take(refs.len() as int) =~= refs@);
                self.heap[t.0] = Value::Array(items);
            },
            _ => {
                assert(false);
            },
        }
        proof {
            let nh = old(self)@.heap.update(t.0 as int, SValue::Array(cell(old(self)@, t)->Array_0 + refs@));
            assert(self@.heap =~= nh);
            assert forall|i: int| 0 <= i < nh.len() implies refs_below(#[trigger] nh[i], nh.len()) by {
                if i != t.0 {
                    assert(refs_below(h0[i], h0.len()));
                } else {
                    assert(refs_below(h0[i], h0.len()));
                    assert forall|j: int| 0 <= j < refs_of(nh[i]).len() implies (#[trigger] refs_of(nh[i])[j]).0 < nh.len() by {
                        let old_items = cell(old(self)@, t)->Array_0;
                        if j < old_items.len() {
                            assert(refs_of(h0[i])[j] == old_items[j]);
                        } else {
                            assert(refs_of(nh[i])[j] == refs@[j - old_items.len()]);
                        }
                    }
                }
            }
        }
        assert(self@ =~= (State {
            heap: old(self)@.heap.update(t.0 as int, SValue::Array(cell(old(self)@, t)->Array_0 + refs@)),
            ..old(self)@
        }));
    }
}

/// Changing one cell changes its model only.
pub proof fn lemma_heap_view_update(h: Seq<Value>, i: int)
    requires
        0 <= i < h.len(),
    ensures
        forall|v: Value| #[trigger] heap_view(h.update(i, v)) == heap_view(h).update(i, v@),
{
    assert forall|v: Value| #[trigger] heap_view(h.update(i, v)) == heap_view(h).update(i, v@) by {
        assert(heap_view(h.update(i, v)) =~= heap_view(h).update(i, v@));
    }
}

impl ValueRef {
    /// The value in this cell.
    pub fn borrow<'a>(&self, rt: &'a Runtime) -> (v: &'a Value)
        requires
            rt.wf(),
            self.0 < rt@.heap.len(),
        ensures
            v@ == cell(rt@, *self),
    {
        rt.cell(*self)
    }

    /// The value in this cell, to be changed in place.
    pub fn borrow_mut<'a>(&self, rt: &'a mut Runtime) -> (v: &'a mut Value)
        requires
            self.0 < old(rt)@.heap.len(),
        ensures
            v@ == cell(old(rt)@, *self),
            final(rt)@ == (State { heap: old(rt)@.heap.update(self.0 as int, final(v)@), ..old(rt)@ }),
    {
        proof {
            lemma_heap_view_update(rt.heap@, self.0 as int);
        }
        &mut rt.heap[self.0]
    }
}

/// If a prefix of a list cannot be shown within the budget, neither can the
/// list.
pub proof fn lemma_show_list_fails(h: Seq<SValue>, xs: Seq<ValueRef>, sep: Seq<char>, fuel: nat, k: int)
    requires
        0 <= k <= xs.len(),
        show_list(h, xs.take(k), sep, fuel) is None,
    ensures
        show_list(h, xs, sep, fuel) is None,
    decreases xs.len() - k,
{
    if k == xs.len() {
        assert(xs.take(k) =~= xs);
    } else {
        let t = xs.take(k + 1);
        assert(t.subrange(0, t.len() - 1) =~= xs.take(k));
        if k == 0 {
            assert(xs.take(0) =~= Seq::<ValueRef>::empty());
        }
        lemma_show_list_fails(h, xs, sep, fuel, k + 1);
    }
}

impl Runtime {
    /// Appends what `print` writes for `v`; `false` if the budget runs out.
    pub(crate) fn show_value_into(&self, out: &mut Vec<char>, v: &Value, fuel: u64) -> (ok: bool)
        requires
            self.wf(),
            refs_below(v@, self@.heap.len()),
        ensures
            match show_value(self@.heap, v@, fuel as nat) {
                Some(t) => ok && final(out)@ == old(out)@ + t,
                None => !ok,
            },
        decreases fuel, 0nat,
    {
        match v {
            Value::Unit => {
                push_str(out, "()");
                true
            },
            Value::Bool(b) => {
                if *b {
                    push_str(out, "true");
                } else {
                    push_str(out, "false");
                }
                true
            },
            Value::Integer(n) => {
                push_int(out, *n as i64);
                true
            },
            Value::NativeFn(_) => {
                push_str(out, "<native function>");
                true
            },
            Value::LambdaFn { .. } => {
                push_str(out, "<lambda>");
                true
            },
            Value::Array(items) => {
                if fuel == 0 {
                    return false;
                }
                assert(cells_below(items@, self@.heap.len())) by {
                    assert forall|i: int| 0 <= i < items@.len() implies (#[trigger] items@[i]).0 < self@.heap.len() by {
                        assert(refs_of(v@)[i] == items@[i]);
                    }
                }
                push_str(out, "[");
                let ghost mid = out@;
                if !self.show_list_into(out, items, ", ", fuel - 1) {
                    return false;
                }
                push_str(out, "]");
                assert(out@ =~= old(out)@ + show_value(self@.heap, v@, fuel as nat).unwrap());
                true
            },
            Value::Range { range, close_end } => {
                if fuel == 0 {
                    return false;
                }
                assert(refs_of(v@)[0] == range.0 && refs_of(v@)[1] == range.1);
                let a = self.cell(range.0);
                let ghost o0 = out@;
                if !self.show_value_into(out, a, fuel - 1) {
                    return false;
                }
                let ghost o1 = out@;
                if *close_end {
                    push_str(out, "..=");
                } else {
                    push_str(out, "..");
                }
                let b = self.cell(range.1);
                if !self.show_value_into(out, b, fuel - 1) {
                    return false;
                }
                assert(out@ =~= old(out)@ + show_value(self@.heap, v@, fuel as nat).unwrap());
                true
            },
        }
    }

    /// Appends the values in the cells `items`, shown and separated by
    /// `sep`; `false` if the budget runs out.
    pub(crate) fn show_list_into(&self, out: &mut Vec<char>, items: &Vec<ValueRef>, sep: &str, fuel: u64) -> (ok: bool)
        requires
            self.wf(),
            cells_below(items@, self@.heap.len()),
        ensures
            match show_list(self@.heap, items@, sep@, fuel as nat) {
                Some(t) => ok && final(out)@ == old(out)@ + t,
                None => !ok,
            },
        decreases fuel, items@.len(),
    {
        let ghost h = self@.heap;
        let mut i: usize = 0;
        assert(items@.take(0) =~= Seq::<ValueRef>::empty());
        assert(out@ =~= old(out)@ + Seq::<char>::empty());
        while i < items.len()
            invariant
                0 <= i <= items.len(),
                self.wf(),
                h == self@.heap,
                cells_below(items@, h.len()),
                show_list(h, items@.take(i as int), sep@, fuel as nat) is Some,
                out@ == old(out)@ + show_list(h, items@.take(i as int), sep@, fuel as nat).unwrap(),
            decreases items.len() - i,
        {
            let ghost before = out@;
            let ghost t = items@.take(i + 1);
            assert(t.subrange(0, t.len() - 1) =~= items@.take(i as int));
            assert(t.last() == items@[i as int]);
            if i > 0 {
                push_str(out, sep);
            }
            let c = self.cell(items[i]);
            let ghost mid = out@;
            if !self.show_value_into(out, c, fuel) {
                proof {
                    if i == 0 {
                        assert(t =~= seq![items@[0]]);
                    }
                    assert(show_list(h, t, sep@, fuel as nat) is None);
                    lemma_show_list_fails(h, items@, sep@, fuel as nat, i + 1);
                }
                return false;
            }
            proof {
                if i == 0 {
                    assert(t =~= seq![items@[0]]);
                    assert(out@ =~= old(out)@ + show_list(h, t, sep@, fuel as nat).unwrap());
                } else {
                    assert(out@ =~= old(out)@ + show_list(h, t, sep@, fuel as nat).unwrap());
                }
            }
            i = i + 1;
        }
        assert(items@.take(items.len() as int) =~= items@);
        true
    }

    /// What `print` writes for the value in the cell `r`: `None` if the
    /// budget runs out first.
    pub fn display_value(&self, r: ValueRef, fuel: u64) -> (t: Option<String>)
        requires
            self.wf(),
            r.0 < self@.heap.len(),
        ensures
            match show_value(self@.heap, cell(self@, r), fuel as nat) {
                Some(x) => t matches Some(y) && y@ == x,
                None => t is None,
            },
    {
        let mut out: Vec<char> = Vec::new();
        let v = self.cell(r);
        if self.show_value_into(&mut out, v, fuel) {
            assert(out@ =~= show_value(self@.heap, cell(self@, r), fuel as nat).unwrap());
            Some(string_from_chars(&out))
        } else {
            None
        }
    }

    /// Whether the values in the cells `a` and `b` are equal, as the
    /// language's `==` decides; `None` if the budget runs out first.
    pub fn equal_values(&self, a: ValueRef, b: ValueRef, fuel: u64) -> (r: Option<bool>)
        requires
            self.wf(),
            a.0 < self@.heap.len(),
            b.0 < self@.heap.len(),
        ensures
            r == same_value(self@.heap, cell(self@, a), cell(self@, b), fuel as nat),
    {
        self.same_values(self.cell(a), self.cell(b), fuel)
    }

    /// Whether the values `a` and `b` are equal, as `==` decides; `None` if
    /// the budget runs out.
    pub(crate) fn same_values(&self, a: &Value, b: &Value, fuel: u64) -> (r: Option<bool>)
        requires
            self.wf(),
            refs_below(a@, self@.heap.len()),
            refs_below(b@, self@.heap.len()),
        ensures
            r == same_value(self@.heap, a@, b@, fuel as nat),
        decreases fuel, 0nat,
    {
        match (a, b) {
            (Value::Unit, Value::Unit) => Some(true),
            (Value::Bool(x), Value::Bool(y)) => Some(*x == *y),
            (Value::Integer(x), Value::Integer(y)) => Some(*x == *y),
            (Value::NativeFn(_), Value::NativeFn(_)) => Some(false),
            (Value::LambdaFn { args: p, body: q }, Value::LambdaFn { args: p2, body: q2 }) => {
                let same_params = same_names(p, p2);
                Some(same_params && q.same_as(q2))
            },
            (Value::Array(xs), Value::Array(ys)) => {
                if xs.len() != ys.len() {
                    Some(false)
                } else if fuel == 0 {
                    None
                } else {
                    assert(cells_below(xs@, self@.heap.len())) by {
                        assert forall|i: int| 0 <= i < xs@.len() implies (#[trigger] xs@[i]).0 < self@.heap.len() by {
                            assert(refs_of(a@)[i] == xs@[i]);
                        }
                    }
                    assert(cells_below(ys@, self@.heap.len())) by {
                        assert forall|i: int| 0 <= i < ys@.len() implies (#[trigger] ys@[i]).0 < self@.heap.len() by {
                            assert(refs_of(b@)[i] == ys@[i]);
                        }
                    }
                    self.same_item_values(xs, ys, fuel - 1)
                }
            },
            (Value::Range { range: ra, close_end: c }, Value::Range { range: rb, close_end: d }) => {
                if fuel == 0 {
                    return None;
                }
                assert(refs_of(a@)[0] == ra.0 && refs_of(a@)[1] == ra.1);
                assert(refs_of(b@)[0] == rb.0 && refs_of(b@)[1] == rb.1);
                match self.same_values(self.cell(ra.0), self.cell(rb.0), fuel - 1) {
                    Some(true) => match self.same_values(self.cell(ra.1), self.cell(rb.1), fuel - 1) {
                        Some(true) => Some(*c == *d),
                        other => other,
                    },
                    other => other,
                }
            },
            _ => Some(false),
        }
    }

    /// Whether the cells of `xs` and `ys`, which are as many, hold equal
    /// values, compared from the first until one pair differs.
    pub(crate) fn same_item_values(&self, xs: &Vec<ValueRef>, ys: &Vec<ValueRef>, fuel: u64) -> (r: Option<bool>)
        requires
            self.wf(),
            xs.len() == ys.len(),
            cells_below(xs@, self@.heap.len()),
            cells_below(ys@, self@.heap.len()),
        ensures
            r == same_items(self@.heap, xs@, ys@, 0, fuel as nat),
        decreases fuel, xs@.len(),
    {
        let ghost h = self@.heap;
        let mut i: usize = 0;
        while i < xs.len()
            invariant
                0 <= i <= xs.len(),
                xs.len() == ys.len(),
                self.wf(),
                h == self@.heap,
                cells_below(xs@, h.len()),
                cells_below(ys@, h.len()),
                same_items(h, xs@, ys@, 0, fuel as nat) == same_items(h, xs@, ys@, i as int, fuel as nat),
            decreases xs.len() - i,
        {
            let r = self.same_values(self.cell(xs[i]), self.cell(ys[i]), fuel);
            match r {
                Some(true) => {},
                _ => {
                    return r;
                },
            }
            i = i + 1;
        }
        Some(true)
    }
}

} // verus!
