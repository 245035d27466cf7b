//! The scope chain: frames of names and values, the innermost last.

use crate::object::{LoxObject, ObjectView};
use vstd::prelude::*;

verus! {

/// A name with the value bound to it.
pub struct BindingView {
    pub name: Seq<char>,
    pub value: ObjectView,
}

/// The bindings of one frame, in the order in which the names were first
/// defined.
pub type FrameView = Seq<BindingView>;

/// The index of the first binding of `name` in `frame` at or after `from`.
pub open spec fn index_of(frame: FrameView, name: Seq<char>, from: int) -> Option<int>
    decreases frame.len() - from,
{
    if from < 0 || from >= frame.len() {
        None
    } else if frame[from].name == name {
        Some(from)
    } else {
        index_of(frame, name, from + 1)
    }
}

/// The frame after `name` was defined as `value` in it: an existing binding
/// of the name is overwritten, otherwise a new one is added.
pub open spec fn frame_with(frame: FrameView, name: Seq<char>, value: ObjectView) -> FrameView {
    match index_of(frame, name, 0) {
        Some(i) => frame.update(i, BindingView { name, value }),
        None => frame.push(BindingView { name, value }),
    }
}

/// The index of the innermost frame, among those up to `innermost`, that
/// binds `name`.
pub open spec fn holder(scopes: Seq<FrameView>, name: Seq<char>, innermost: int) -> Option<int>
    decreases innermost + 1,
{
    if innermost < 0 || innermost >= scopes.len() {
        None
    } else if index_of(scopes[innermost], name, 0) is Some {
        Some(innermost)
    } else {
        holder(scopes, name, innermost - 1)
    }
}

/// The frame that holds a name is one of the scopes, and binds the name.
pub proof fn lemma_holder_is_a_scope(scopes: Seq<FrameView>, name: Seq<char>, innermost: int)
    ensures
        holder(scopes, name, innermost) matches Some(k) ==> 0 <= k <= innermost && k < scopes.len()
            && index_of(scopes[k], name, 0) is Some,
    decreases innermost + 1,
{
    if 0 <= innermost < scopes.len() && index_of(scopes[innermost], name, 0) is None {
        lemma_holder_is_a_scope(scopes, name, innermost - 1);
    }
}

/// Assignment keeps the number of scopes.
pub proof fn lemma_assignment_keeps_the_scopes(
    scopes: Seq<FrameView>,
    name: Seq<char>,
    value: ObjectView,
)
    ensures
        assigned(scopes, name, value) matches Some(after) ==> after.len() == scopes.len(),
{
    lemma_holder_is_a_scope(scopes, name, scopes.len() - 1);
}

/// The names that a frame binds, in the order of its bindings.
pub open spec fn names_of(frame: FrameView) -> Seq<Seq<char>> {
    Seq::new(frame.len(), |i: int| frame[i].name)
}

/// Whether no name is bound twice in `frame`.
pub open spec fn names_are_unique(frame: FrameView) -> bool {
    forall|i: int, j: int|
        0 <= i < j < frame.len() ==> (#[trigger] frame[i]).name != (#[trigger] frame[j]).name
}

/// The first binding of a name, where there is one, is a binding of that
/// name, and no binding before it is.
pub proof fn lemma_index_of(frame: FrameView, name: Seq<char>, from: int)
    requires
        0 <= from,
    ensures
        match index_of(frame, name, from) {
            Some(i) => from <= i < frame.len() && frame[i].name == name && forall|j: int|
                from <= j < i ==> (#[trigger] frame[j]).name != name,
            None => forall|j: int| from <= j < frame.len() ==> (#[trigger] frame[j]).name != name,
        },
    decreases frame.len() - from,
{
    if from < frame.len() && frame[from].name != name {
        lemma_index_of(frame, name, from + 1);
    }
}

/// Names stay unique within a frame: defining a name that the frame binds
/// overwrites the binding, and only a name that it does not bind adds one.
pub proof fn definition_keeps_names_unique(frame: FrameView, name: Seq<char>, value: ObjectView)
    requires
        names_are_unique(frame),
    ensures
        names_are_unique(frame_with(frame, name, value)),
        index_of(frame, name, 0) is Some ==> names_of(frame_with(frame, name, value)) == names_of(
            frame,
        ),
        index_of(frame, name, 0) is None ==> names_of(frame_with(frame, name, value)) == names_of(
            frame,
        ).push(name),
{
    lemma_index_of(frame, name, 0);
    let after = frame_with(frame, name, value);
    match index_of(frame, name, 0) {
        Some(i) => {
            assert(names_of(after) =~= names_of(frame));
            assert forall|a: int, b: int| 0 <= a < b < after.len() implies (#[trigger] after[a])
                .name != (#[trigger] after[b]).name by {
                assert(after[a].name == frame[a].name);
                assert(after[b].name == frame[b].name);
            }
        },
        None => {
            assert(names_of(after) =~= names_of(frame).push(name));
            assert forall|a: int, b: int| 0 <= a < b < after.len() implies (#[trigger] after[a])
                .name != (#[trigger] after[b]).name by {
                if b < frame.len() {
                    assert(after[a].name == frame[a].name);
                    assert(after[b].name == frame[b].name);
                } else {
                    assert(after[a].name == frame[a].name);
                }
            }
        },
    }
}

/// What was defined is what is retrieved: after a name was defined in the
/// current frame, its value is the one it was defined as.
pub proof fn definition_is_retrieved(scopes: Seq<FrameView>, name: Seq<char>, value: ObjectView)
    requires
        scopes.len() >= 1,
    ensures
        lookup(defined(scopes, name, value), name) == Some(value),
{
    let after = defined(scopes, name, value);
    let last = scopes.len() - 1;
    let frame = frame_with(scopes.last(), name, value);
    lemma_index_of(scopes.last(), name, 0);
    lemma_index_of(frame, name, 0);
    assert(after[last] == frame);
    match index_of(scopes.last(), name, 0) {
        Some(i) => {
            assert(frame[i].name == name);
        },
        None => {
            assert(frame[scopes.last().len() as int].name == name);
        },
    }
    assert(index_of(frame, name, 0) is Some);
    let found = index_of(frame, name, 0)->Some_0;
    assert(frame[found].value == value);
}

/// What was assigned is what is retrieved, and assignment binds no new
/// name: every frame binds the names it bound before.
pub proof fn assignment_is_retrieved(scopes: Seq<FrameView>, name: Seq<char>, value: ObjectView)
    ensures
        match assigned(scopes, name, value) {
            Some(after) => lookup(after, name) == Some(value) && after.len() == scopes.len()
                && forall|k: int|
                0 <= k < scopes.len() ==> names_of(#[trigger] after[k]) == names_of(scopes[k]),
            None => lookup(scopes, name) is None,
        },
{
    lemma_holder_is_a_scope(scopes, name, scopes.len() - 1);
    match holder(scopes, name, scopes.len() - 1) {
        Some(k) => {
            let after = scopes.update(k, frame_with(scopes[k], name, value));
            lemma_index_of(scopes[k], name, 0);
            let i = index_of(scopes[k], name, 0)->Some_0;
            let frame = frame_with(scopes[k], name, value);
            assert(frame[i].name == name);
            lemma_index_of(frame, name, 0);
            assert(index_of(frame, name, 0) == Some(i));
            lemma_holder_after_assignment(scopes, name, value, k, scopes.len() - 1);
            assert(names_of(frame) =~= names_of(scopes[k]));
            assert forall|j: int| 0 <= j < scopes.len() implies names_of(#[trigger] after[j])
                == names_of(scopes[j]) by {
                if j != k {
                    assert(after[j] == scopes[j]);
                }
            }
        },
        None => {},
    }
}

/// The frame that holds a name still holds it after a value was assigned
/// to the name there.
proof fn lemma_holder_after_assignment(
    scopes: Seq<FrameView>,
    name: Seq<char>,
    value: ObjectView,
    k: int,
    innermost: int,
)
    requires
        holder(scopes, name, innermost) == Some(k),
        0 <= k < scopes.len(),
        index_of(scopes[k], name, 0) is Some,
    ensures
        holder(scopes.update(k, frame_with(scopes[k], name, value)), name, innermost) == Some(k),
    decreases innermost + 1,
{
    let after = scopes.update(k, frame_with(scopes[k], name, value));
    let frame = frame_with(scopes[k], name, value);
    lemma_index_of(scopes[k], name, 0);
    let i = index_of(scopes[k], name, 0)->Some_0;
    assert(frame[i].name == name);
    lemma_index_of(frame, name, 0);
    if 0 <= innermost < scopes.len() {
        if innermost == k {
            assert(after[k] == frame);
        } else {
            assert(after[innermost] == scopes[innermost]);
            lemma_holder_after_assignment(scopes, name, value, k, innermost - 1);
        }
    }
}

/// The value of `name`: that of the innermost frame that binds it.
pub open spec fn lookup(scopes: Seq<FrameView>, name: Seq<char>) -> Option<ObjectView> {
    match holder(scopes, name, scopes.len() - 1) {
        Some(k) => Some(scopes[k][index_of(scopes[k], name, 0)->Some_0].value),
        None => None,
    }
}

/// The scopes after `name` was defined as `value` in the innermost frame.
pub open spec fn defined(scopes: Seq<FrameView>, name: Seq<char>, value: ObjectView) -> Seq<
    FrameView,
> {
    scopes.update(scopes.len() - 1, frame_with(scopes.last(), name, value))
}

/// The scopes after `value` was assigned to `name` in the innermost frame
/// that binds it, or `None` where no frame does.
pub open spec fn assigned(scopes: Seq<FrameView>, name: Seq<char>, value: ObjectView) -> Option<
    Seq<FrameView>,
> {
    match holder(scopes, name, scopes.len() - 1) {
        Some(k) => Some(scopes.update(k, frame_with(scopes[k], name, value))),
        None => None,
    }
}

/// One frame: the names bound in it and, at the same indices, their values.
pub struct Frame {
    names: Vec<String>,
    values: Vec<LoxObject>,
}

impl View for Frame {
    type V = FrameView;

    closed spec fn view(&self) -> FrameView {
        Seq::new(
            self.names.len() as nat,
            |i: int| BindingView { name: self.names[i]@, value: self.values[i]@ },
        )
    }
}

impl Frame {
    /// Every name has its value.
    pub closed spec fn well_formed(&self) -> bool {
        self.names.len() == self.values.len()
    }

    /// A frame that binds nothing.
    pub fn new() -> (r: Frame)
        ensures
            r@ == Seq::<BindingView>::empty(),
            r.well_formed(),
    {
        let r = Frame { names: Vec::new(), values: Vec::new() };
        assert(r@ =~= Seq::<BindingView>::empty());
        r
    }

    /// The index of the binding of `name`.
    fn find(&self, name: &str) -> (r: Option<usize>)
        requires
            self.well_formed(),
        ensures
            match r {
                Some(i) => index_of(self@, name@, 0) == Some(i as int) && i < self.names.len(),
                None => index_of(self@, name@, 0) is None,
            },
    {
        let mut i: usize = 0;
        while i < self.names.len()
            invariant
                i <= self.names.len(),
                self.well_formed(),
                index_of(self@, name@, i as int) == index_of(self@, name@, 0),
            decreases self.names.len() - i,
        {
            if crate::token::same_text(&self.names[i], name) {
                return Some(i);
            }
            i += 1;
        }
        None
    }

    /// Binds `name` to `value`, in place of what it was bound to if it was.
    pub fn define(&mut self, name: String, value: LoxObject)
        requires
            old(self).well_formed(),
        ensures
            final(self).well_formed(),
            final(self)@ == frame_with(old(self)@, name@, value@),
    {
        match self.find(name.as_str()) {
            Some(i) => {
                self.names.set(i, name);
                self.values.set(i, value);
                assert(self@ =~= frame_with(old(self)@, name@, value@));
            },
            None => {
                self.names.push(name);
                self.values.push(value);
                assert(self@ =~= frame_with(old(self)@, name@, value@));
            },
        }
    }

    /// A copy of the value bound to `name`.
    pub fn get(&self, name: &str) -> (r: Option<LoxObject>)
        requires
            self.well_formed(),
        ensures
            match index_of(self@, name@, 0) {
                Some(i) => r is Some && r->Some_0@ == self@[i].value,
                None => r is None,
            },
    {
        match self.find(name) {
            Some(i) => Some(self.values[i].duplicate()),
            None => None,
        }
    }

    /// Whether the frame binds `name`.
    pub fn binds(&self, name: &str) -> (r: bool)
        requires
            self.well_formed(),
        ensures
            r == index_of(self@, name@, 0) is Some,
    {
        self.find(name).is_some()
    }

    /// How many names the frame binds.
    pub fn length(&self) -> (r: usize)
        requires
            self.well_formed(),
        ensures
            r == self@.len(),
    {
        self.names.len()
    }
}

/// The views of the frames of `frames`.
pub open spec fn frames_model(frames: Seq<Frame>) -> Seq<FrameView> {
    Seq::new(frames.len(), |k: int| frames[k]@)
}

/// Whether every frame of `frames` is well formed.
pub open spec fn frames_well_formed(frames: Seq<Frame>) -> bool {
    forall|k: int| 0 <= k < frames.len() ==> (#[trigger] frames[k]).well_formed()
}

/// A chain of scopes: the outermost frame first, the current one last.
pub struct Environment {
    frames: Vec<Frame>,
}

impl View for Environment {
    type V = Seq<FrameView>;

    closed spec fn view(&self) -> Seq<FrameView> {
        frames_model(self.frames@)
    }
}

impl Environment {
    /// There is a current frame, and every frame is well formed.
    pub closed spec fn well_formed(&self) -> bool {
        self.frames.len() > 0 && frames_well_formed(self.frames@)
    }

    /// A chain of scopes that are well formed has at least one frame.
    pub proof fn lemma_has_a_frame(&self)
        requires
            self.well_formed(),
        ensures
            self@.len() > 0,
    {
    }

    /// A new current frame, empty, inside `enclosing`; without `enclosing`,
    /// the one frame of a new chain.
    pub fn new(enclosing: Option<Environment>) -> (r: Self)
        requires
            enclosing matches Some(outer) ==> outer.well_formed(),
        ensures
            r.well_formed(),
            r@ == match enclosing {
                Some(outer) => outer@.push(Seq::empty()),
                None => seq![Seq::empty()],
            },
    {
        match enclosing {
            Some(outer) => Self::wrap(outer),
            None => {
                let mut frames: Vec<Frame> = Vec::new();
                frames.push(Frame::new());
                let r = Environment { frames };
                assert(r@ =~= seq![Seq::<BindingView>::empty()]);
                r
            },
        }
    }

    /// Binds `lexeme` to `object` in the current frame. A name that the
    /// frame binds already is bound anew; outer frames are left alone.
    pub fn define(&mut self, lexeme: String, object: LoxObject)
        requires
            old(self).well_formed(),
        ensures
            final(self).well_formed(),
            final(self)@ == defined(old(self)@, lexeme@, object@),
    {
        let last = self.frames.len() - 1;
        let mut frame = Frame::new();
        self.exchange(last, &mut frame);
        frame.define(lexeme, object);
        self.exchange(last, &mut frame);
        assert(self@ =~= defined(old(self)@, lexeme@, object@));
    }

    /// Puts `frame` in the place of the frame at index `k`, and that frame
    /// in `frame`.
    fn exchange(&mut self, k: usize, frame: &mut Frame)
        requires
            k < old(self).frames.len(),
            old(frame).well_formed(),
        ensures
            final(self).frames@ == old(self).frames@.update(k as int, *old(frame)),
            *final(frame) == old(self).frames[k as int],
    {
        let mut taken = Frame::new();
        std::mem::swap(&mut taken, frame);
        self.frames.push(taken);
        let held = self.frames.swap_remove(k);
        *frame = held;
    }

    /// The index of the innermost frame that binds `name`.
    fn find(&self, name: &str) -> (r: Option<usize>)
        requires
            self.well_formed(),
        ensures
            match r {
                Some(k) => holder(self@, name@, self@.len() - 1) == Some(k as int) && k
                    < self.frames.len() && index_of(self@[k as int], name@, 0) is Some,
                None => holder(self@, name@, self@.len() - 1) is None,
            },
    {
        let mut k: usize = self.frames.len();
        while k > 0
            invariant
                k <= self.frames.len(),
                self.well_formed(),
                holder(self@, name@, k - 1) == holder(self@, name@, self@.len() - 1),
            decreases k,
        {
            k -= 1;
            assert(self@[k as int] == self.frames[k as int]@);
            if self.frames[k].binds(name) {
                return Some(k);
            }
        }
        None
    }

    /// Gives `lexeme` the value `object` in the innermost frame that binds
    /// it. Where no frame does, nothing changes and the result is an error.
    pub fn assign(&mut self, lexeme: String, object: LoxObject) -> (r: Result<(), ()>)
        requires
            old(self).well_formed(),
        ensures
            final(self).well_formed(),
            match assigned(old(self)@, lexeme@, object@) {
                Some(scopes) => r is Ok && final(self)@ == scopes,
                None => r is Err && final(self)@ == old(self)@,
            },
    {
        match self.find(lexeme.as_str()) {
            Some(k) => {
                let mut frame = Frame::new();
                self.exchange(k, &mut frame);
                frame.define(lexeme, object);
                self.exchange(k, &mut frame);
                assert(self@ =~= assigned(old(self)@, lexeme@, object@)->Some_0);
                Ok(())
            },
            None => Err(()),
        }
    }

    /// A copy of the value of `lexeme` in the innermost frame that binds
    /// it, or `None` where no frame does.
    pub fn retrieve(&self, lexeme: &str) -> (r: Option<LoxObject>)
        requires
            self.well_formed(),
        ensures
            match lookup(self@, lexeme@) {
                Some(value) => r is Some && r->Some_0@ == value,
                None => r is None,
            },
    {
        match self.find(lexeme) {
            Some(k) => {
                assert(self@[k as int] == self.frames[k as int]@);
                self.frames[k].get(lexeme)
            },
            None => None,
        }
    }

    /// How many names the current frame binds.
    pub fn length(&self) -> (r: usize)
        requires
            self.well_formed(),
        ensures
            r == self@.last().len(),
    {
        self.frames[self.frames.len() - 1].length()
    }

    /// A new current frame, empty, inside `enclosing`.
    pub fn wrap(enclosing: Environment) -> (r: Environment)
        requires
            enclosing.well_formed(),
        ensures
            r.well_formed(),
            r@ == enclosing@.push(Seq::empty()),
    {
        let mut r = enclosing;
        r.enter();
        r
    }

    /// Makes a new, empty frame the current one.
    pub fn enter(&mut self)
        requires
            old(self).well_formed(),
        ensures
            final(self).well_formed(),
            final(self)@ == old(self)@.push(Seq::empty()),
    {
        self.frames.push(Frame::new());
        assert(self@ =~= old(self)@.push(Seq::empty()));
    }

    /// Drops the current frame, and makes the one outside it current. The
    /// outermost frame is never dropped.
    pub fn leave(&mut self)
        requires
            old(self).well_formed(),
        ensures
            final(self).well_formed(),
            final(self)@ == if old(self)@.len() > 1 {
                old(self)@.drop_last()
            } else {
                old(self)@
            },
    {
        if self.frames.len() > 1 {
            let _ = self.frames.pop();
            assert(self@ =~= old(self)@.drop_last());
        }
    }

    /// Sets aside every frame but the outermost, and hands them out.
    pub fn suspend(&mut self) -> (r: Vec<Frame>)
        requires
            old(self).well_formed(),
        ensures
            final(self).well_formed(),
            final(self)@ == old(self)@.subrange(0, 1),
            frames_model(r@) == old(self)@.subrange(1, old(self)@.len() as int),
            frames_well_formed(r@),
    {
        let inner = self.frames.split_off(1);
        assert(self@ =~= old(self)@.subrange(0, 1));
        assert(frames_model(inner@) =~= old(self)@.subrange(1, old(self)@.len() as int));
        inner
    }

    /// Drops every frame but the outermost, and puts `inner` inside it.
    pub fn resume(&mut self, inner: Vec<Frame>)
        requires
            old(self).well_formed(),
            frames_well_formed(inner@),
        ensures
            final(self).well_formed(),
            final(self)@ == old(self)@.subrange(0, 1) + frames_model(inner@),
    {
        let mut moved = inner;
        let ghost given = moved@;
        self.frames.truncate(1);
        self.frames.append(&mut moved);
        assert(self@ =~= old(self)@.subrange(0, 1) + frames_model(given));
    }
}

} // verus!
