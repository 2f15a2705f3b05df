//! An ownership tracker: a small state machine that replays a trace of
//! binding operations (`bind`, `move_binding`, `copy_binding`,
//! `borrow_shared`, `borrow_unique`, `use_binding`, `end_scope`) and
//! rejects, at the point of the offending operation, every step that
//! would violate the aliasing discipline:
//!
//! * an owned value has exactly one owning binding at a time;
//! * at any point, the live references to a value are either none,
//!   any number of shared references, or exactly one unique reference;
//! * a binding that was moved from, or whose scope has ended, can no
//!   longer be used;
//! * a reference whose referent's owning scope has ended is dangling
//!   and is rejected before use.
//!
//! A rejected operation leaves the tracker unchanged: failure is
//! side-effect-free and is reported as a [`TrackerError`] value.

use vstd::prelude::*;

verus! {

/// Whether duplicating a value is allowed (`Copyable`) or the value has
/// exactly one owning binding at a time (`Owned`).
#[derive(Clone, Copy, Debug, PartialEq, Eq, Structural)]
pub enum ValueKind {
    Owned,
    Copyable,
}

/// The payload carried by a value: inline stack data (an integer) or
/// owned heap data (text). The tracker never inspects payloads; they
/// only travel along with the value.
#[derive(Debug)]
pub enum Payload {
    Int(i64),
    Text(String),
}

impl Payload {
    /// Produces an equal, independent duplicate of the payload.
    pub fn duplicate(&self) -> (p: Payload)
        ensures
            p == *self,
    {
        match self {
            Payload::Int(n) => Payload::Int(*n),
            Payload::Text(s) => Payload::Text(s.clone()),
        }
    }
}

/// A value handed to [`Tracker::bind`]: a kind together with a payload.
#[derive(Debug)]
pub struct Value {
    pub kind: ValueKind,
    pub payload: Payload,
}

impl Value {
    /// An owned text value.
    pub fn owned_text(text: String) -> (v: Value)
        ensures
            v.kind == ValueKind::Owned,
            v.payload == Payload::Text(text),
    {
        Value { kind: ValueKind::Owned, payload: Payload::Text(text) }
    }

    /// A copyable integer value.
    pub fn copyable_int(n: i64) -> (v: Value)
        ensures
            v.kind == ValueKind::Copyable,
            v.payload == Payload::Int(n),
    {
        Value { kind: ValueKind::Copyable, payload: Payload::Int(n) }
    }
}

/// The diagnostics the tracker reports. A failed operation never
/// changes the tracker's state.
#[derive(Clone, Copy, Debug, PartialEq, Eq, Structural)]
pub enum TrackerError {
    /// The binding was moved from, or its own scope has ended.
    UseAfterMove,
    /// `copy_binding` was asked to duplicate a value that is not `Copyable`.
    NotCopyable,
    /// The requested borrow or move conflicts with a live reference.
    BorrowConflict,
    /// The reference is live but its referent's owning scope has ended.
    DanglingReference,
    /// No binding with the given name exists, or an id or scope is invalid.
    UnknownBinding,
}

/// What a binding is: the owner of a value, or a view of one.
#[derive(Clone, Copy, Debug, PartialEq, Eq, Structural)]
pub enum Role {
    Owner,
    SharedRef,
    UniqueRef,
}

/// The lifecycle state of a binding. `Moved` and `Dropped` are terminal.
#[derive(Clone, Copy, Debug, PartialEq, Eq, Structural)]
pub enum BindingState {
    Live,
    Moved,
    Dropped,
}

/// One entry of the binding table: a named owner created by `bind`,
/// `move_binding` or `copy_binding`, or a reference created by
/// `borrow_shared` or `borrow_unique`. The index of a binding in the
/// table is its id, handed back to the caller on creation.
pub struct Binding {
    /// The name the binding was created under. For a reference this
    /// records the name that was borrowed; names resolve to owners only.
    pub name: String,
    /// The scope the binding was created in.
    pub scope: usize,
    /// The index of the value the binding owns or refers to.
    pub value: usize,
    pub role: Role,
    pub state: BindingState,
}

/// One entry of the value arena, with the liveness counters the borrow
/// checks consult: the number of live shared references, whether a
/// unique reference is live, and whether the value has been released.
pub struct ValueCell {
    pub kind: ValueKind,
    pub payload: Payload,
    pub shared: usize,
    pub unique: bool,
    pub released: bool,
}

/// Selects which bindings [`count_class`] counts.
#[derive(Clone, Copy, Debug, PartialEq, Eq, Structural)]
pub enum RefClass {
    SharedBorrow,
    UniqueBorrow,
    Ownership,
}

/// Whether a live binding `b` is counted for value `v` in class `c`.
pub open spec fn counted(b: Binding, v: int, c: RefClass) -> bool {
    &&& b.state == BindingState::Live
    &&& b.value == v
    &&& match c {
        RefClass::SharedBorrow => b.role == Role::SharedRef,
        RefClass::UniqueBorrow => b.role == Role::UniqueRef,
        RefClass::Ownership => b.role == Role::Owner,
    }
}

/// The number of live bindings of class `c` for value `v`.
pub open spec fn count_class(bs: Seq<Binding>, v: int, c: RefClass) -> nat
    decreases bs.len(),
{
    if bs.len() == 0 {
        0
    } else {
        count_class(bs.drop_last(), v, c) + (if counted(bs.last(), v, c) {
            1nat
        } else {
            0nat
        })
    }
}

proof fn lemma_count_le_len(bs: Seq<Binding>, v: int, c: RefClass)
    ensures
        count_class(bs, v, c) <= bs.len(),
    decreases bs.len(),
{
    if bs.len() > 0 {
        lemma_count_le_len(bs.drop_last(), v, c);
    }
}

proof fn lemma_count_push(bs: Seq<Binding>, b: Binding, v: int, c: RefClass)
    ensures
        count_class(bs.push(b), v, c) == count_class(bs, v, c) + (if counted(b, v, c) {
            1nat
        } else {
            0nat
        }),
{
    assert(bs.push(b).drop_last() =~= bs);
    assert(bs.push(b).last() == b);
}

proof fn lemma_count_push_all(bs: Seq<Binding>, b: Binding)
    ensures
        forall|v: int, c: RefClass|
            #[trigger] count_class(bs.push(b), v, c) == count_class(bs, v, c) + (if counted(
                b,
                v,
                c,
            ) {
                1nat
            } else {
                0nat
            }),
{
    assert forall|v: int, c: RefClass|
        #[trigger] count_class(bs.push(b), v, c) == count_class(bs, v, c) + (if counted(
            b,
            v,
            c,
        ) {
            1nat
        } else {
            0nat
        }) by {
        lemma_count_push(bs, b, v, c);
    }
}

proof fn lemma_count_update(bs: Seq<Binding>, i: int, b: Binding, v: int, c: RefClass)
    requires
        0 <= i < bs.len(),
    ensures
        count_class(bs.update(i, b), v, c) + (if counted(bs[i], v, c) {
            1nat
        } else {
            0nat
        }) == count_class(bs, v, c) + (if counted(b, v, c) {
            1nat
        } else {
            0nat
        }),
    decreases bs.len(),
{
    if i == bs.len() - 1 {
        assert(bs.update(i, b).drop_last() =~= bs.drop_last());
        assert(bs.update(i, b).last() == b);
    } else {
        assert(bs.update(i, b).drop_last() =~= bs.drop_last().update(i, b));
        assert(bs.update(i, b).last() == bs.last());
        lemma_count_update(bs.drop_last(), i, b, v, c);
    }
}

proof fn lemma_count_update_all(bs: Seq<Binding>, i: int, b: Binding)
    requires
        0 <= i < bs.len(),
    ensures
        forall|v: int, c: RefClass|
            #[trigger] count_class(bs.update(i, b), v, c) + (if counted(bs[i], v, c) {
                1nat
            } else {
                0nat
            }) == count_class(bs, v, c) + (if counted(b, v, c) {
                1nat
            } else {
                0nat
            }),
{
    assert forall|v: int, c: RefClass|
        #[trigger] count_class(bs.update(i, b), v, c) + (if counted(bs[i], v, c) {
            1nat
        } else {
            0nat
        }) == count_class(bs, v, c) + (if counted(b, v, c) {
            1nat
        } else {
            0nat
        }) by {
        lemma_count_update(bs, i, b, v, c);
    }
}

proof fn lemma_count_absent(bs: Seq<Binding>, v: int, c: RefClass)
    requires
        forall|j: int| 0 <= j < bs.len() ==> #[trigger] bs[j].value != v,
    ensures
        count_class(bs, v, c) == 0,
    decreases bs.len(),
{
    if bs.len() > 0 {
        assert(bs.drop_last() =~= bs.subrange(0, bs.len() - 1));
        lemma_count_absent(bs.drop_last(), v, c);
    }
}

/// The latest binding that owns the given name, disregarding its state:
/// a moved-from or dropped binding still occupies its name, and the
/// operation applied to it reports why it cannot be used.
pub open spec fn resolve(bs: Seq<Binding>, name: Seq<char>) -> Option<int>
    decreases bs.len(),
{
    if bs.len() == 0 {
        None
    } else if bs.last().role == Role::Owner && bs.last().name@ == name {
        Some(bs.len() - 1)
    } else {
        resolve(bs.drop_last(), name)
    }
}

proof fn lemma_resolve_in_range(bs: Seq<Binding>, name: Seq<char>)
    ensures
        match resolve(bs, name) {
            Some(i) => 0 <= i < bs.len() && bs[i].role == Role::Owner && bs[i].name@ == name,
            None => true,
        },
    decreases bs.len(),
{
    if bs.len() > 0 {
        lemma_resolve_in_range(bs.drop_last(), name);
    }
}

/// Structural soundness of one binding: its indices are in range, a
/// binding of a dead scope has been dropped, and only owners can be in
/// the moved-from state.
pub open spec fn binding_ok(b: Binding, n_values: int, scopes: Seq<bool>) -> bool {
    &&& b.value < n_values
    &&& b.scope < scopes.len()
    &&& (!scopes[b.scope as int] ==> b.state == BindingState::Dropped)
    &&& (b.role != Role::Owner ==> b.state != BindingState::Moved)
}

/// The liveness counters of one value cell agree with the binding table,
/// the cell is released exactly when it no longer has a live owner, and
/// the reference state is never a mix of shared and unique.
pub open spec fn value_ok(cell: ValueCell, bs: Seq<Binding>, v: int) -> bool {
    &&& cell.shared as nat == count_class(bs, v, RefClass::SharedBorrow)
    &&& (if cell.unique {
        1nat
    } else {
        0nat
    }) == count_class(bs, v, RefClass::UniqueBorrow)
    &&& (if cell.released {
        0nat
    } else {
        1nat
    }) == count_class(bs, v, RefClass::Ownership)
    &&& !(cell.shared > 0 && cell.unique)
}

/// The ownership tracker. A fresh tracker has one live root scope
/// (scope `0`), which never ends; `begin_scope` opens further scopes,
/// and `end_scope` may end them in any order, so a reference can
/// outlive its referent's scope and become dangling.
pub struct Tracker {
    /// The binding table; a binding's id is its index here.
    pub bindings: Vec<Binding>,
    /// The value arena; a binding's `value` field indexes it.
    pub values: Vec<ValueCell>,
    /// Liveness of each scope; a scope's id is its index here.
    pub scopes: Vec<bool>,
    /// The innermost live scope: the greatest index of a live entry of
    /// `scopes`. New bindings and scopes are created here.
    pub current: usize,
}

impl Tracker {
    /// The tracker's invariant. Every operation preserves it, so at any
    /// point of a trace the reference state of every value is one of:
    /// no live references, some shared references, or one unique
    /// reference.
    pub open spec fn wf(self) -> bool {
        &&& self.scopes@.len() >= 1
        &&& self.scopes@[0]
        &&& self.current < self.scopes@.len()
        &&& self.scopes@[self.current as int]
        &&& forall|j: int| self.current < j < self.scopes@.len() ==> !self.scopes@[j]
        &&& forall|i: int|
            0 <= i < self.bindings@.len() ==> binding_ok(
                #[trigger] self.bindings@[i],
                self.values@.len() as int,
                self.scopes@,
            )
        &&& forall|v: int|
            0 <= v < self.values@.len() ==> value_ok(#[trigger] self.values@[v], self.bindings@, v)
    }

    /// The outcome of `use_binding` on binding id `id`, as a function of
    /// the tracker's state: unknown ids are rejected, then moved-from
    /// and dropped bindings, then live references whose referent value
    /// has been released.
    pub open spec fn use_result(self, id: int) -> Result<(), TrackerError> {
        if !(0 <= id < self.bindings@.len()) {
            Err(TrackerError::UnknownBinding)
        } else {
            let b = self.bindings@[id];
            if b.state != BindingState::Live {
                Err(TrackerError::UseAfterMove)
            } else if b.role != Role::Owner && self.values@[b.value as int].released {
                Err(TrackerError::DanglingReference)
            } else {
                Ok(())
            }
        }
    }

    /// The check `move_binding` performs. Live-reference conflicts take
    /// precedence over the moved-from state of the source binding.
    pub open spec fn check_move(self, from: Seq<char>) -> Result<(), TrackerError> {
        match resolve(self.bindings@, from) {
            None => Err(TrackerError::UnknownBinding),
            Some(i) => {
                let b = self.bindings@[i];
                let cell = self.values@[b.value as int];
                if cell.shared > 0 || cell.unique {
                    Err(TrackerError::BorrowConflict)
                } else if b.state != BindingState::Live {
                    Err(TrackerError::UseAfterMove)
                } else {
                    Ok(())
                }
            },
        }
    }

    /// The check `copy_binding` performs: the source must be a usable
    /// binding of a `Copyable` value.
    pub open spec fn check_copy(self, from: Seq<char>) -> Result<(), TrackerError> {
        match resolve(self.bindings@, from) {
            None => Err(TrackerError::UnknownBinding),
            Some(i) => {
                let b = self.bindings@[i];
                if b.state != BindingState::Live {
                    Err(TrackerError::UseAfterMove)
                } else if self.values@[b.value as int].kind != ValueKind::Copyable {
                    Err(TrackerError::NotCopyable)
                } else {
                    Ok(())
                }
            },
        }
    }

    /// The check `borrow_shared` performs: rejected exactly when a
    /// unique reference to the same value is live.
    pub open spec fn check_borrow_shared(self, name: Seq<char>) -> Result<(), TrackerError> {
        match resolve(self.bindings@, name) {
            None => Err(TrackerError::UnknownBinding),
            Some(i) => {
                let b = self.bindings@[i];
                if b.state != BindingState::Live {
                    Err(TrackerError::UseAfterMove)
                } else if self.values@[b.value as int].unique {
                    Err(TrackerError::BorrowConflict)
                } else {
                    Ok(())
                }
            },
        }
    }

    /// The check `borrow_unique` performs: rejected exactly when any
    /// reference to the same value, shared or unique, is live.
    pub open spec fn check_borrow_unique(self, name: Seq<char>) -> Result<(), TrackerError> {
        match resolve(self.bindings@, name) {
            None => Err(TrackerError::UnknownBinding),
            Some(i) => {
                let b = self.bindings@[i];
                if b.state != BindingState::Live {
                    Err(TrackerError::UseAfterMove)
                } else if self.values@[b.value as int].shared > 0 || self.values@[
                    b.value as int
                ].unique {
                    Err(TrackerError::BorrowConflict)
                } else {
                    Ok(())
                }
            },
        }
    }

    /// A fresh tracker: no bindings, no values, one live root scope.
    pub fn new() -> (t: Tracker)
        ensures
            t.wf(),
            t.bindings@.len() == 0,
            t.values@.len() == 0,
            t.scopes@ =~= seq![true],
            t.current == 0,
    {
        let mut scopes: Vec<bool> = Vec::new();
        scopes.push(true);
        Tracker { bindings: Vec::new(), values: Vec::new(), scopes, current: 0 }
    }

    /// Opens a new scope nested in the current one and returns its id.
    pub fn begin_scope(&mut self) -> (s: usize)
        requires
            old(self).wf(),
        ensures
            final(self).wf(),
            s == old(self).scopes@.len(),
            final(self).scopes@ =~= old(self).scopes@.push(true),
            final(self).current == s,
            final(self).bindings@ == old(self).bindings@,
            final(self).values@ == old(self).values@,
    {
        let s = self.scopes.len();
        self.scopes.push(true);
        self.current = s;
        s
    }

    /// Finds the latest owner binding with the given name.
    fn resolve_name(&self, name: &str) -> (r: Option<usize>)
        ensures
            match r {
                Some(i) => resolve(self.bindings@, name@) == Some(i as int),
                None => resolve(self.bindings@, name@) == None::<int>,
            },
    {
        let key: String = name.to_owned();
        let mut i = self.bindings.len();
        proof {
            assert(self.bindings@.subrange(0, i as int) =~= self.bindings@);
        }
        while i > 0
            invariant
                i <= self.bindings@.len(),
                key@ == name@,
                resolve(self.bindings@, name@) == resolve(
                    self.bindings@.subrange(0, i as int),
                    name@,
                ),
            decreases i,
        {
            let prefix_ghost = Ghost(self.bindings@.subrange(0, i as int));
            i = i - 1;
            proof {
                assert(prefix_ghost@.last() == self.bindings@[i as int]);
                assert(prefix_ghost@.drop_last() =~= self.bindings@.subrange(0, i as int));
            }
            let cand = &self.bindings[i];
            if matches!(cand.role, Role::Owner) && cand.name == key {
                return Some(i);
            }
        }
        proof {
            assert(self.bindings@.subrange(0, 0) =~= Seq::<Binding>::empty());
        }
        None
    }

    /// Creates a new owning binding for `value` under `name` in the
    /// current scope and returns its id. Binding always succeeds; a
    /// rebound name shadows the earlier binding.
    pub fn bind(&mut self, name: &str, value: Value) -> (id: usize)
        requires
            old(self).wf(),
        ensures
            final(self).wf(),
            id == old(self).bindings@.len(),
            final(self).bindings@.len() == old(self).bindings@.len() + 1,
            forall|j: int|
                0 <= j < old(self).bindings@.len() ==> final(self).bindings@[j] == old(
                    self,
                ).bindings@[j],
            final(self).bindings@[id as int].name@ == name@,
            final(self).bindings@[id as int].scope == old(self).current,
            final(self).bindings@[id as int].value == old(self).values@.len(),
            final(self).bindings@[id as int].role == Role::Owner,
            final(self).bindings@[id as int].state == BindingState::Live,
            final(self).values@.len() == old(self).values@.len() + 1,
            forall|v: int|
                0 <= v < old(self).values@.len() ==> final(self).values@[v] == old(self).values@[v],
            final(self).values@.last().kind == value.kind,
            final(self).values@.last().payload == value.payload,
            !final(self).values@.last().released,
            final(self).values@.last().shared == 0,
            !final(self).values@.last().unique,
            final(self).scopes@ == old(self).scopes@,
            final(self).current == old(self).current,
            resolve(final(self).bindings@, name@) == Some(id as int),
    {
        let id = self.bindings.len();
        let v = self.values.len();
        let cell = ValueCell {
            kind: value.kind,
            payload: value.payload,
            shared: 0,
            unique: false,
            released: false,
        };
        let b = Binding {
            name: name.to_owned(),
            scope: self.current,
            value: v,
            role: Role::Owner,
            state: BindingState::Live,
        };
        let ghost old_bs = self.bindings@;
        let ghost bspec = b;
        self.values.push(cell);
        self.bindings.push(b);
        proof {
            lemma_count_push_all(old_bs, bspec);
            assert forall|w: int| 0 <= w < self.values@.len() implies value_ok(
                #[trigger] self.values@[w],
                self.bindings@,
                w,
            ) by {
                if w == v as int {
                    assert(forall|j: int|
                        0 <= j < old_bs.len() ==> #[trigger] old_bs[j].value != w);
                    lemma_count_absent(old_bs, w, RefClass::SharedBorrow);
                    lemma_count_absent(old_bs, w, RefClass::UniqueBorrow);
                    lemma_count_absent(old_bs, w, RefClass::Ownership);
                }
            }
            assert(self.bindings@.last() == bspec);
        }
        id
    }

    /// Reports whether the binding or reference with id `id` may be
    /// used: moved-from and dropped bindings are rejected with
    /// `UseAfterMove`, and a live reference whose referent value has
    /// been released is rejected with `DanglingReference`. The tracker
    /// is never changed.
    pub fn use_binding(&self, id: usize) -> (r: Result<(), TrackerError>)
        requires
            self.wf(),
        ensures
            r == self.use_result(id as int),
    {
        if id >= self.bindings.len() {
            return Err(TrackerError::UnknownBinding);
        }
        let b = &self.bindings[id];
        if !matches!(b.state, BindingState::Live) {
            return Err(TrackerError::UseAfterMove);
        }
        if !matches!(b.role, Role::Owner) && self.values[b.value].released {
            return Err(TrackerError::DanglingReference);
        }
        Ok(())
    }

    /// Transfers ownership from the binding named `from` to a new
    /// binding named `to` in the current scope, whose id is returned.
    /// Fails with `BorrowConflict` if any reference to the value is
    /// live (checked before the move state), and with `UseAfterMove` if
    /// `from` was already moved from or dropped. On success `from`
    /// becomes permanently moved-from; on failure nothing changes.
    pub fn move_binding(&mut self, from: &str, to: &str) -> (r: Result<usize, TrackerError>)
        requires
            old(self).wf(),
        ensures
            final(self).wf(),
            r is Ok <==> old(self).check_move(from@) is Ok,
            old(self).check_move(from@) matches Err(e) ==> r == Err::<usize, TrackerError>(e)
                && *final(self) == *old(self),
            r matches Ok(id) ==> {
                let i = resolve(old(self).bindings@, from@)->Some_0;
                &&& id == old(self).bindings@.len()
                &&& final(self).bindings@.len() == old(self).bindings@.len() + 1
                &&& forall|j: int|
                    0 <= j < old(self).bindings@.len() && j != i ==> final(self).bindings@[j]
                        == old(self).bindings@[j]
                &&& final(self).bindings@[i] == Binding {
                    state: BindingState::Moved,
                    ..old(self).bindings@[i]
                }
                &&& final(self).bindings@[id as int].name@ == to@
                &&& final(self).bindings@[id as int].scope == old(self).current
                &&& final(self).bindings@[id as int].value == old(self).bindings@[i].value
                &&& final(self).bindings@[id as int].role == Role::Owner
                &&& final(self).bindings@[id as int].state == BindingState::Live
                &&& final(self).values@ == old(self).values@
                &&& final(self).scopes@ == old(self).scopes@
                &&& final(self).current == old(self).current
            },
    {
        proof {
            lemma_resolve_in_range(self.bindings@, from@);
        }
        let i = match self.resolve_name(from) {
            None => {
                return Err(TrackerError::UnknownBinding);
            },
            Some(i) => i,
        };
        let v = self.bindings[i].value;
        if self.values[v].shared > 0 || self.values[v].unique {
            return Err(TrackerError::BorrowConflict);
        }
        if !matches!(self.bindings[i].state, BindingState::Live) {
            return Err(TrackerError::UseAfterMove);
        }
        let id = self.bindings.len();
        let b = Binding {
            name: to.to_owned(),
            scope: self.current,
            value: v,
            role: Role::Owner,
            state: BindingState::Live,
        };
        let ghost bs0 = self.bindings@;
        let ghost moved = Binding { state: BindingState::Moved, ..bs0[i as int] };
        self.bindings[i].state = BindingState::Moved;
        let ghost bs1 = self.bindings@;
        let ghost bspec = b;
        self.bindings.push(b);
        proof {
            assert(bs1 =~= bs0.update(i as int, moved));
            lemma_count_update_all(bs0, i as int, moved);
            lemma_count_push_all(bs1, bspec);
            assert forall|w: int| 0 <= w < self.values@.len() implies value_ok(
                #[trigger] self.values@[w],
                self.bindings@,
                w,
            ) by {
                assert(value_ok(old(self).values@[w], bs0, w));
            }
            assert(self.bindings@.last() == bspec);
        }
        Ok(id)
    }

    /// Duplicates the `Copyable` value of the binding named `from` into
    /// a fresh value owned by a new binding named `to` in the current
    /// scope; the new binding's id is returned. The source binding and
    /// every other binding stay exactly as they were, so a copy never
    /// invalidates its source. Fails with `NotCopyable` if the value's
    /// kind is `Owned`, and with `UseAfterMove` if `from` was moved from
    /// or dropped; on failure nothing changes.
    pub fn copy_binding(&mut self, from: &str, to: &str) -> (r: Result<usize, TrackerError>)
        requires
            old(self).wf(),
        ensures
            final(self).wf(),
            r is Ok <==> old(self).check_copy(from@) is Ok,
            old(self).check_copy(from@) matches Err(e) ==> r == Err::<usize, TrackerError>(e)
                && *final(self) == *old(self),
            forall|j: int|
                0 <= j < old(self).bindings@.len() ==> final(self).bindings@[j] == old(
                    self,
                ).bindings@[j],
            forall|v: int|
                0 <= v < old(self).values@.len() ==> final(self).values@[v] == old(self).values@[v],
            r matches Ok(id) ==> {
                let i = resolve(old(self).bindings@, from@)->Some_0;
                &&& id == old(self).bindings@.len()
                &&& final(self).bindings@.len() == old(self).bindings@.len() + 1
                &&& final(self).bindings@[id as int].name@ == to@
                &&& final(self).bindings@[id as int].scope == old(self).current
                &&& final(self).bindings@[id as int].value == old(self).values@.len()
                &&& final(self).bindings@[id as int].role == Role::Owner
                &&& final(self).bindings@[id as int].state == BindingState::Live
                &&& final(self).values@.len() == old(self).values@.len() + 1
                &&& final(self).values@.last().kind == ValueKind::Copyable
                &&& final(self).values@.last().payload == old(self).values@[old(
                    self,
                ).bindings@[i].value as int].payload
                &&& final(self).scopes@ == old(self).scopes@
                &&& final(self).current == old(self).current
            },
    {
        proof {
            lemma_resolve_in_range(self.bindings@, from@);
        }
        let i = match self.resolve_name(from) {
            None => {
                return Err(TrackerError::UnknownBinding);
            },
            Some(i) => i,
        };
        if !matches!(self.bindings[i].state, BindingState::Live) {
            return Err(TrackerError::UseAfterMove);
        }
        let v = self.bindings[i].value;
        if !matches!(self.values[v].kind, ValueKind::Copyable) {
            return Err(TrackerError::NotCopyable);
        }
        let id = self.bindings.len();
        let w = self.values.len();
        let cell = ValueCell {
            kind: ValueKind::Copyable,
            payload: self.values[v].payload.duplicate(),
            shared: 0,
            unique: false,
            released: false,
        };
        let b = Binding {
            name: to.to_owned(),
            scope: self.current,
            value: w,
            role: Role::Owner,
            state: BindingState::Live,
        };
        let ghost bs0 = self.bindings@;
        let ghost bspec = b;
        self.values.push(cell);
        self.bindings.push(b);
        proof {
            lemma_count_push_all(bs0, bspec);
            assert forall|u: int| 0 <= u < self.values@.len() implies value_ok(
                #[trigger] self.values@[u],
                self.bindings@,
                u,
            ) by {
                if u == w as int {
                    assert(forall|j: int|
                        0 <= j < bs0.len() ==> #[trigger] bs0[j].value != u);
                    lemma_count_absent(bs0, u, RefClass::SharedBorrow);
                    lemma_count_absent(bs0, u, RefClass::UniqueBorrow);
                    lemma_count_absent(bs0, u, RefClass::Ownership);
                } else {
                    assert(value_ok(old(self).values@[u], bs0, u));
                }
            }
            assert(self.bindings@.last() == bspec);
        }
        Ok(id)
    }

    /// Takes a shared (read-only) reference to the value owned by the
    /// binding named `name`; the reference's id is returned. Any number
    /// of shared references may coexist; the borrow fails with
    /// `BorrowConflict` exactly when a unique reference to the same
    /// value is live. On failure nothing changes.
    pub fn borrow_shared(&mut self, name: &str) -> (r: Result<usize, TrackerError>)
        requires
            old(self).wf(),
        ensures
            final(self).wf(),
            r is Ok <==> old(self).check_borrow_shared(name@) is Ok,
            old(self).check_borrow_shared(name@) matches Err(e) ==> r == Err::<usize, TrackerError>(
                e,
            ) && *final(self) == *old(self),
            r matches Ok(id) ==> {
                let i = resolve(old(self).bindings@, name@)->Some_0;
                let v = old(self).bindings@[i].value as int;
                &&& id == old(self).bindings@.len()
                &&& final(self).bindings@.len() == old(self).bindings@.len() + 1
                &&& forall|j: int|
                    0 <= j < old(self).bindings@.len() ==> final(self).bindings@[j] == old(
                        self,
                    ).bindings@[j]
                &&& final(self).bindings@[id as int].scope == old(self).current
                &&& final(self).bindings@[id as int].value == v
                &&& final(self).bindings@[id as int].role == Role::SharedRef
                &&& final(self).bindings@[id as int].state == BindingState::Live
                &&& final(self).values@.len() == old(self).values@.len()
                &&& forall|u: int|
                    0 <= u < old(self).values@.len() && u != v ==> final(self).values@[u] == old(
                        self,
                    ).values@[u]
                &&& final(self).values@[v] == ValueCell {
                    shared: (old(self).values@[v].shared + 1) as usize,
                    ..old(self).values@[v]
                }
                &&& final(self).scopes@ == old(self).scopes@
                &&& final(self).current == old(self).current
            },
    {
        proof {
            lemma_resolve_in_range(self.bindings@, name@);
        }
        let i = match self.resolve_name(name) {
            None => {
                return Err(TrackerError::UnknownBinding);
            },
            Some(i) => i,
        };
        if !matches!(self.bindings[i].state, BindingState::Live) {
            return Err(TrackerError::UseAfterMove);
        }
        let v = self.bindings[i].value;
        if self.values[v].unique {
            return Err(TrackerError::BorrowConflict);
        }
        let id = self.bindings.len();
        let b = Binding {
            name: name.to_owned(),
            scope: self.current,
            value: v,
            role: Role::SharedRef,
            state: BindingState::Live,
        };
        let ghost bs0 = self.bindings@;
        let ghost bspec = b;
        self.bindings.push(b);
        proof {
            lemma_count_push_all(bs0, bspec);
            lemma_count_le_len(self.bindings@, v as int, RefClass::SharedBorrow);
            vstd::std_specs::vec::axiom_spec_len(&self.bindings);
            assert(value_ok(old(self).values@[v as int], bs0, v as int));
            assert(count_class(self.bindings@, v as int, RefClass::SharedBorrow)
                == count_class(bs0, v as int, RefClass::SharedBorrow) + 1);
            assert(old(self).values@[v as int].shared + 1 <= self.bindings@.len());
            assert(self.bindings@.len() <= usize::MAX);
        }
        let n = self.values[v].shared;
        self.values[v].shared = n + 1;
        proof {
            assert forall|u: int| 0 <= u < self.values@.len() implies value_ok(
                #[trigger] self.values@[u],
                self.bindings@,
                u,
            ) by {
                assert(value_ok(old(self).values@[u], bs0, u));
            }
            assert(self.bindings@.last() == bspec);
        }
        Ok(id)
    }

    /// Takes a unique (read-write) reference to the value owned by the
    /// binding named `name`; the reference's id is returned. The borrow
    /// fails with `BorrowConflict` exactly when any reference to the
    /// same value, shared or unique, is live; on success the new
    /// reference is the sole accessor until it is dropped. On failure
    /// nothing changes.
    pub fn borrow_unique(&mut self, name: &str) -> (r: Result<usize, TrackerError>)
        requires
            old(self).wf(),
        ensures
            final(self).wf(),
            r is Ok <==> old(self).check_borrow_unique(name@) is Ok,
            old(self).check_borrow_unique(name@) matches Err(e) ==> r == Err::<usize, TrackerError>(
                e,
            ) && *final(self) == *old(self),
            r matches Ok(id) ==> {
                let i = resolve(old(self).bindings@, name@)->Some_0;
                let v = old(self).bindings@[i].value as int;
                &&& id == old(self).bindings@.len()
                &&& final(self).bindings@.len() == old(self).bindings@.len() + 1
                &&& forall|j: int|
                    0 <= j < old(self).bindings@.len() ==> final(self).bindings@[j] == old(
                        self,
                    ).bindings@[j]
                &&& final(self).bindings@[id as int].scope == old(self).current
                &&& final(self).bindings@[id as int].value == v
                &&& final(self).bindings@[id as int].role == Role::UniqueRef
                &&& final(self).bindings@[id as int].state == BindingState::Live
                &&& final(self).values@.len() == old(self).values@.len()
                &&& forall|u: int|
                    0 <= u < old(self).values@.len() && u != v ==> final(self).values@[u] == old(
                        self,
                    ).values@[u]
                &&& final(self).values@[v] == ValueCell { unique: true, ..old(self).values@[v] }
                &&& final(self).scopes@ == old(self).scopes@
                &&& final(self).current == old(self).current
            },
    {
        proof {
            lemma_resolve_in_range(self.bindings@, name@);
        }
        let i = match self.resolve_name(name) {
            None => {
                return Err(TrackerError::UnknownBinding);
            },
            Some(i) => i,
        };
        if !matches!(self.bindings[i].state, BindingState::Live) {
            return Err(TrackerError::UseAfterMove);
        }
        let v = self.bindings[i].value;
        if self.values[v].shared > 0 || self.values[v].unique {
            return Err(TrackerError::BorrowConflict);
        }
        let id = self.bindings.len();
        let b = Binding {
            name: name.to_owned(),
            scope: self.current,
            value: v,
            role: Role::UniqueRef,
            state: BindingState::Live,
        };
        let ghost bs0 = self.bindings@;
        let ghost bspec = b;
        self.bindings.push(b);
        self.values[v].unique = true;
        proof {
            lemma_count_push_all(bs0, bspec);
            assert forall|u: int| 0 <= u < self.values@.len() implies value_ok(
                #[trigger] self.values@[u],
                self.bindings@,
                u,
            ) by {
                assert(value_ok(old(self).values@[u], bs0, u));
            }
            assert(self.bindings@.last() == bspec);
        }
        Ok(id)
    }

    /// The check `end_scope` performs: the scope must exist, be live,
    /// and not be the root scope, which lives as long as the tracker.
    pub open spec fn check_end_scope(self, s: int) -> Result<(), TrackerError> {
        if s <= 0 || s >= self.scopes@.len() || !self.scopes@[s] {
            Err(TrackerError::UnknownBinding)
        } else {
            Ok(())
        }
    }

    /// Ends scope `s`: every binding and reference created in `s` that
    /// is not already dropped becomes dropped, in reverse creation
    /// order, mirroring stack unwind order. A value whose live owning
    /// binding is dropped here is released; a value that was moved
    /// elsewhere is not released again. Scopes may be ended in any
    /// order, so a reference can outlive its referent's scope; such a
    /// reference becomes dangling and `use_binding` rejects it. On
    /// failure nothing changes.
    pub fn end_scope(&mut self, s: usize) -> (r: Result<(), TrackerError>)
        requires
            old(self).wf(),
        ensures
            final(self).wf(),
            r is Ok <==> old(self).check_end_scope(s as int) is Ok,
            old(self).check_end_scope(s as int) matches Err(e) ==> r == Err::<(), TrackerError>(e)
                && *final(self) == *old(self),
            r is Ok ==> {
                &&& final(self).scopes@ == old(self).scopes@.update(s as int, false)
                &&& final(self).bindings@.len() == old(self).bindings@.len()
                &&& forall|j: int|
                    0 <= j < old(self).bindings@.len() ==> final(self).bindings@[j]
                        == dropped_in(#[trigger] old(self).bindings@[j], s as int)
                &&& final(self).values@.len() == old(self).values@.len()
                &&& forall|v: int|
                    0 <= v < old(self).values@.len() ==> (#[trigger] final(self).values@[v]).kind
                        == old(self).values@[v].kind && final(self).values@[v].payload == old(
                        self,
                    ).values@[v].payload
            },
    {
        if s == 0 || s >= self.scopes.len() {
            return Err(TrackerError::UnknownBinding);
        }
        if !self.scopes[s] {
            return Err(TrackerError::UnknownBinding);
        }
        self.scopes[s] = false;
        let ghost bs_old = old(self).bindings@;
        let mut i = self.bindings.len();
        while i > 0
            invariant
                i <= self.bindings@.len(),
                s < self.scopes@.len(),
                self.scopes@ == old(self).scopes@.update(s as int, false),
                self.current == old(self).current,
                self.bindings@.len() == bs_old.len(),
                self.values@.len() == old(self).values@.len(),
                forall|j: int| 0 <= j < i ==> self.bindings@[j] == bs_old[j],
                forall|j: int|
                    i <= j < bs_old.len() ==> self.bindings@[j] == dropped_in(
                        #[trigger] bs_old[j],
                        s as int,
                    ),
                forall|v: int|
                    0 <= v < self.values@.len() ==> value_ok(
                        #[trigger] self.values@[v],
                        self.bindings@,
                        v,
                    ) && self.values@[v].kind == old(self).values@[v].kind && self.values@[v].payload
                        == old(self).values@[v].payload,
                forall|j: int|
                    0 <= j < bs_old.len() ==> binding_ok(
                        #[trigger] bs_old[j],
                        self.values@.len() as int,
                        old(self).scopes@,
                    ),
            decreases i,
        {
            i = i - 1;
            proof {
                assert(binding_ok(bs_old[i as int], self.values@.len() as int, old(self).scopes@));
            }
            let drop_here = self.bindings[i].scope == s && !matches!(
                self.bindings[i].state,
                BindingState::Dropped,
            );
            if drop_here {
                let was_live = matches!(self.bindings[i].state, BindingState::Live);
                let role = self.bindings[i].role;
                let v = self.bindings[i].value;
                let ghost bs_before = self.bindings@;
                let ghost vals_before = self.values@;
                let ghost bprev = self.bindings@[i as int];
                let ghost bnew = Binding { state: BindingState::Dropped, ..bprev };
                self.bindings[i].state = BindingState::Dropped;
                proof {
                    assert(self.bindings@ =~= bs_before.update(i as int, bnew));
                    lemma_count_update(bs_before, i as int, bnew, v as int, RefClass::SharedBorrow);
                    lemma_count_update(bs_before, i as int, bnew, v as int, RefClass::UniqueBorrow);
                    lemma_count_update(bs_before, i as int, bnew, v as int, RefClass::Ownership);
                    assert(value_ok(vals_before[v as int], bs_before, v as int));
                }
                if was_live {
                    match role {
                        Role::Owner => {
                            self.values[v].released = true;
                        },
                        Role::SharedRef => {
                            let n = self.values[v].shared;
                            self.values[v].shared = n - 1;
                        },
                        Role::UniqueRef => {
                            self.values[v].unique = false;
                        },
                    }
                }
                proof {
                    assert forall|u: int| 0 <= u < self.values@.len() implies value_ok(
                        #[trigger] self.values@[u],
                        self.bindings@,
                        u,
                    ) by {
                        assert(value_ok(vals_before[u], bs_before, u));
                        lemma_count_update(bs_before, i as int, bnew, u, RefClass::SharedBorrow);
                        lemma_count_update(bs_before, i as int, bnew, u, RefClass::UniqueBorrow);
                        lemma_count_update(bs_before, i as int, bnew, u, RefClass::Ownership);
                        if u != v as int {
                            assert(self.values@[u] == vals_before[u]);
                            assert(!counted(bprev, u, RefClass::SharedBorrow));
                        }
                    }
                }
            }
        }
        if self.current == s {
            let mut c = s - 1;
            while c > 0 && !self.scopes[c]
                invariant
                    c < self.scopes@.len(),
                    self.scopes@[0],
                    forall|j: int| c < j < self.scopes@.len() ==> !self.scopes@[j],
                decreases c,
            {
                c = c - 1;
            }
            self.current = c;
        }
        proof {
            assert forall|j: int| 0 <= j < self.bindings@.len() implies binding_ok(
                #[trigger] self.bindings@[j],
                self.values@.len() as int,
                self.scopes@,
            ) by {
                assert(binding_ok(bs_old[j], self.values@.len() as int, old(self).scopes@));
                assert(self.bindings@[j] == dropped_in(bs_old[j], s as int));
            }
        }
        Ok(())
    }
}

/// The state of binding `b` after scope `s` has ended: dropped if the
/// binding was created in `s`, unchanged otherwise.
pub open spec fn dropped_in(b: Binding, s: int) -> Binding {
    if b.scope == s && b.state != BindingState::Dropped {
        Binding { state: BindingState::Dropped, ..b }
    } else {
        b
    }
}

/// In every well-formed tracker state -- and every operation both
/// requires and preserves well-formedness, so in every state a trace
/// can reach -- the live references to a value are exactly one of: no
/// references, some number of shared references, or a single unique
/// reference. A mix, or two unique references, never occurs, and a
/// value never has more than one live owner.
pub proof fn lemma_reference_state_exclusive(t: Tracker, v: int)
    requires
        t.wf(),
        0 <= v < t.values@.len(),
    ensures
        count_class(t.bindings@, v, RefClass::UniqueBorrow) <= 1,
        count_class(t.bindings@, v, RefClass::UniqueBorrow) == 1 ==> count_class(
            t.bindings@,
            v,
            RefClass::SharedBorrow,
        ) == 0,
        count_class(t.bindings@, v, RefClass::Ownership) <= 1,
{
    assert(value_ok(t.values@[v], t.bindings@, v));
}

/// Live-reference conflicts take precedence over the moved-from state:
/// whenever any reference to the named binding's value is live, a move
/// of that binding reports `BorrowConflict`, even if the binding was
/// also already moved from.
pub proof fn lemma_move_conflict_precedence(t: Tracker, from: Seq<char>)
    requires
        t.wf(),
        resolve(t.bindings@, from) is Some,
        ({
            let b = t.bindings@[resolve(t.bindings@, from)->Some_0];
            t.values@[b.value as int].shared > 0 || t.values@[b.value as int].unique
        }),
    ensures
        t.check_move(from) == Err::<(), TrackerError>(TrackerError::BorrowConflict),
{
}

/// Using a binding whose own scope has ended always fails with
/// `UseAfterMove`; it never silently succeeds.
pub proof fn lemma_use_after_drop(t: Tracker, id: int)
    requires
        0 <= id < t.bindings@.len(),
        t.bindings@[id].state == BindingState::Dropped,
    ensures
        t.use_result(id) == Err::<(), TrackerError>(TrackerError::UseAfterMove),
{
}

/// Combines `end_scope` and `use_binding`: if `t2` is `t1` after scope
/// `s` ended (as `end_scope` ensures), then using any binding that was
/// created in `s` fails with `UseAfterMove`.
pub proof fn lemma_use_after_end_scope(t1: Tracker, t2: Tracker, s: int, id: int)
    requires
        t2.bindings@.len() == t1.bindings@.len(),
        forall|j: int|
            0 <= j < t1.bindings@.len() ==> t2.bindings@[j] == dropped_in(
                #[trigger] t1.bindings@[j],
                s,
            ),
        0 <= id < t1.bindings@.len(),
        t1.bindings@[id].scope == s,
    ensures
        t2.use_result(id) == Err::<(), TrackerError>(TrackerError::UseAfterMove),
{
    assert(t2.bindings@[id] == dropped_in(t1.bindings@[id], s));
}

} // verus!
