//! The collector: reclaims the objects and permissions that nothing live
//! refers to.
//!
//! The roots are the values in the slots of the frames, the values in flight
//! and the values that the caller pins.  From a value the collector reaches
//! its object and its permission, from an object the values in its slots, and
//! from a permission its lessor, so that the ancestors of a live borrow stay.
use vstd::prelude::*;
use crate::machine::Machine;
use crate::marks::{lemma_mark_decreases, no_marks, unmarked};
use crate::model::{MachineModel, Object, Permission, Value};

verus! {

/// Something the collector can reach: an object or a permission.
#[derive(Clone, Copy, Debug, PartialEq, Eq, Structural, Hash)]
pub enum Node {
    Object(Object),
    Permission(Permission),
}

/// Whether `n` is the object or the permission of `value`.
pub open spec fn holds(value: Value, n: Node) -> bool {
    n == Node::Object(value.object) || n == Node::Permission(value.permission)
}

/// Whether `extra[i]` is a value of `n`.
pub open spec fn extra_holds(extra: Seq<Value>, i: int, n: Node) -> bool {
    0 <= i < extra.len() && holds(extra[i], n)
}

/// Whether the marks `objects` and `permissions` mark `n`.
pub open spec fn marked(objects: Seq<bool>, permissions: Seq<bool>, n: Node) -> bool {
    match n {
        Node::Object(o) => o.index < objects.len() && objects[o.index as int],
        Node::Permission(p) => p.index < permissions.len() && permissions[p.index as int],
    }
}

impl MachineModel {
    /// Whether `n` is a handle of the heap or of the permission table.
    pub open spec fn in_range(self, n: Node) -> bool {
        match n {
            Node::Object(o) => o.index < self.objects.len(),
            Node::Permission(p) => p.index < self.permissions.len(),
        }
    }

    /// Whether slot `k` of the object behind `o` holds a value of `n`.
    pub open spec fn slot_holds(self, o: Object, k: int, n: Node) -> bool {
        match self.object_slot(o, k) {
            Some(value) => holds(value, n),
            None => false,
        }
    }

    /// Whether slot `i` of frame `f` holds a value of `n`.
    pub open spec fn variable_holds(self, f: int, i: int, n: Node) -> bool {
        &&& 0 <= f < self.stack.len()
        &&& 0 <= i < self.stack[f].variables.len()
        &&& match self.stack[f].variables[i] {
            Some(value) => holds(value, n),
            None => false,
        }
    }

    /// Whether the value in flight in frame `f` is a value of `n`.
    pub open spec fn in_flight_holds(self, f: int, n: Node) -> bool {
        &&& 0 <= f < self.stack.len()
        &&& match self.stack[f].in_flight_value {
            Some(value) => holds(value, n),
            None => false,
        }
    }

    /// Whether a slot of the object behind `o` holds a value of `n`.
    pub open spec fn object_holds(self, o: Object, n: Node) -> bool {
        exists|k: int| #[trigger] self.slot_holds(o, k, n)
    }

    /// Whether `n` is the lessor of `p`.
    pub open spec fn lessor_is(self, p: Permission, n: Node) -> bool {
        match self.permission(p) {
            Some(data) => match data.lessor {
                Some(l) => n == Node::Permission(l),
                None => false,
            },
            None => false,
        }
    }

    /// Whether the collector goes from `a` to `b` in one step: from an
    /// object to what the values in its slots refer to, and from a permission
    /// to its lessor.
    pub open spec fn edge(self, a: Node, b: Node) -> bool {
        &&& self.in_range(b)
        &&& match a {
            Node::Object(o) => self.object_holds(o, b),
            Node::Permission(p) => self.lessor_is(p, b),
        }
    }

    /// Whether the collector starts from `n`: a value of `n` stands in a slot
    /// of a frame, is in flight, or is among `extra`.
    pub open spec fn is_root(self, extra: Seq<Value>, n: Node) -> bool {
        &&& self.in_range(n)
        &&& {
            ||| exists|f: int, i: int| #[trigger] self.variable_holds(f, i, n)
            ||| exists|f: int| #[trigger] self.in_flight_holds(f, n)
            ||| exists|i: int| #[trigger] extra_holds(extra, i, n)
        }
    }

    /// Whether `path` leads from a root along edges.
    pub open spec fn is_path(self, extra: Seq<Value>, path: Seq<Node>) -> bool {
        &&& path.len() > 0
        &&& self.is_root(extra, path[0])
        &&& forall|i: int| 0 <= i < path.len() - 1 ==> self.edge(#[trigger] path[i], path[i + 1])
    }

    /// Whether the collector reaches `n` from the roots.
    pub open spec fn reachable(self, extra: Seq<Value>, n: Node) -> bool {
        exists|path: Seq<Node>| #[trigger] self.is_path(extra, path) && path.last() == n
    }

    /// The objects that the collector reaches.
    pub open spec fn live_objects(self, extra: Seq<Value>) -> Seq<bool> {
        Seq::new(
            self.objects.len(),
            |i: int| self.reachable(extra, Node::Object(Object { index: i as usize })),
        )
    }

    /// The permissions that the collector reaches.
    pub open spec fn live_permissions(self, extra: Seq<Value>) -> Seq<bool> {
        Seq::new(
            self.permissions.len(),
            |i: int| self.reachable(extra, Node::Permission(Permission { index: i as usize })),
        )
    }

    /// Collects: every object and every permission that is not reachable from
    /// the stack, the values in flight and `extra` is reclaimed.  What is
    /// reachable stays as it is, except that a permission loses a tenant that
    /// was reclaimed.
    pub open spec fn gc(self, extra: Seq<Value>) -> MachineModel {
        self.sweep(self.live_objects(extra), self.live_permissions(extra))
    }

    /// The marks mark only what the collector reaches.
    pub open spec fn marks_sound(self, extra: Seq<Value>, objects: Seq<bool>, permissions: Seq<bool>) -> bool {
        forall|n: Node| #[trigger] marked(objects, permissions, n) ==> self.reachable(extra, n)
    }

    /// The marks mark every root.
    pub open spec fn marks_roots(self, extra: Seq<Value>, objects: Seq<bool>, permissions: Seq<bool>) -> bool {
        forall|n: Node| #[trigger] self.is_root(extra, n) ==> marked(objects, permissions, n)
    }

    /// The marks are closed under the edges.
    pub open spec fn marks_closed(self, objects: Seq<bool>, permissions: Seq<bool>) -> bool {
        forall|a: Node, b: Node|
            marked(objects, permissions, a) && #[trigger] self.edge(a, b) ==> marked(
                objects,
                permissions,
                b,
            )
    }
}

/// From an object the collector goes to what the values in its slots refer
/// to, if that is within the tables.
pub proof fn lemma_edges_from_slot(m: MachineModel, o: Object, k: int, value: Value)
    requires
        m.object_slot(o, k) == Some(value),
        value.object.index < m.objects.len(),
        value.permission.index < m.permissions.len(),
    ensures
        m.edge(Node::Object(o), Node::Object(value.object)),
        m.edge(Node::Object(o), Node::Permission(value.permission)),
{
    assert(m.slot_holds(o, k, Node::Object(value.object)));
    assert(m.slot_holds(o, k, Node::Permission(value.permission)));
    assert(m.object_holds(o, Node::Object(value.object)));
    assert(m.object_holds(o, Node::Permission(value.permission)));
}

/// A root is reachable.
pub proof fn lemma_root_reachable(m: MachineModel, extra: Seq<Value>, n: Node)
    requires
        m.is_root(extra, n),
    ensures
        m.reachable(extra, n),
{
    let path = seq![n];
    assert(m.is_path(extra, path));
    assert(path.last() == n);
}

/// What an edge leads to from something reachable is reachable.
pub proof fn lemma_reachable_step(m: MachineModel, extra: Seq<Value>, a: Node, b: Node)
    requires
        m.reachable(extra, a),
        m.edge(a, b),
    ensures
        m.reachable(extra, b),
{
    let path = choose|path: Seq<Node>| #[trigger] m.is_path(extra, path) && path.last() == a;
    let longer = path.push(b);
    assert forall|i: int| 0 <= i < longer.len() - 1 implies m.edge(#[trigger] longer[i], longer[i + 1]) by {
        if i < path.len() - 1 {
            assert(m.edge(path[i], path[i + 1]));
        }
    }
    assert(m.is_path(extra, longer));
    assert(longer.last() == b);
}

proof fn lemma_path_marked(
    m: MachineModel,
    extra: Seq<Value>,
    objects: Seq<bool>,
    permissions: Seq<bool>,
    path: Seq<Node>,
    k: int,
)
    requires
        m.marks_roots(extra, objects, permissions),
        m.marks_closed(objects, permissions),
        m.is_path(extra, path),
        0 <= k < path.len(),
    ensures
        marked(objects, permissions, path[k]),
    decreases k,
{
    if k > 0 {
        lemma_path_marked(m, extra, objects, permissions, path, k - 1);
        assert(m.edge(path[k - 1], path[k]));
    }
}

/// Marks that mark every root and are closed under the edges mark everything
/// reachable.
pub proof fn lemma_closed_marks_complete(
    m: MachineModel,
    extra: Seq<Value>,
    objects: Seq<bool>,
    permissions: Seq<bool>,
)
    requires
        m.marks_roots(extra, objects, permissions),
        m.marks_closed(objects, permissions),
    ensures
        forall|n: Node| #[trigger] m.reachable(extra, n) ==> marked(objects, permissions, n),
{
    assert forall|n: Node| #[trigger] m.reachable(extra, n) implies marked(objects, permissions, n) by {
        let path = choose|path: Seq<Node>| #[trigger] m.is_path(extra, path) && path.last() == n;
        lemma_path_marked(m, extra, objects, permissions, path, path.len() - 1);
    }
}

/// Whatever the first marks mark, the second marks mark too.
pub open spec fn marks_grow(
    objects: Seq<bool>,
    permissions: Seq<bool>,
    more_objects: Seq<bool>,
    more_permissions: Seq<bool>,
) -> bool {
    forall|n: Node| #[trigger]
        marked(objects, permissions, n) ==> marked(more_objects, more_permissions, n)
}

/// Marks `n`.
fn mark_node(
    machine: &Machine,
    extra: Ghost<Seq<Value>>,
    n: Node,
    objects: &mut Vec<bool>,
    permissions: &mut Vec<bool>,
) -> (changed: bool)
    requires
        old(objects)@.len() == machine@.objects.len(),
        old(permissions)@.len() == machine@.permissions.len(),
        machine@.marks_sound(extra@, old(objects)@, old(permissions)@),
        machine@.in_range(n) ==> machine@.reachable(extra@, n),
    ensures
        final(objects)@.len() == old(objects)@.len(),
        final(permissions)@.len() == old(permissions)@.len(),
        machine@.marks_sound(extra@, final(objects)@, final(permissions)@),
        marks_grow(old(objects)@, old(permissions)@, final(objects)@, final(permissions)@),
        machine@.in_range(n) ==> marked(final(objects)@, final(permissions)@, n),
        !changed ==> final(objects)@ == old(objects)@ && final(permissions)@ == old(permissions)@,
        changed ==> unmarked(final(objects)@) + unmarked(final(permissions)@) < unmarked(
            old(objects)@,
        ) + unmarked(old(permissions)@),
{
    match n {
        Node::Object(o) => {
            if o.index < objects.len() && !objects[o.index] {
                proof {
                    lemma_mark_decreases(objects@, o.index as int);
                }
                objects[o.index] = true;
                proof {
                    assert forall|m: Node| #[trigger]
                        marked(objects@, permissions@, m) implies machine@.reachable(extra@, m) by {
                        if m != n {
                            assert(marked(old(objects)@, old(permissions)@, m));
                        }
                    }
                }
                true
            } else {
                false
            }
        },
        Node::Permission(p) => {
            if p.index < permissions.len() && !permissions[p.index] {
                proof {
                    lemma_mark_decreases(permissions@, p.index as int);
                }
                permissions[p.index] = true;
                proof {
                    assert forall|m: Node| #[trigger]
                        marked(objects@, permissions@, m) implies machine@.reachable(extra@, m) by {
                        if m != n {
                            assert(marked(old(objects)@, old(permissions)@, m));
                        }
                    }
                }
                true
            } else {
                false
            }
        },
    }
}

/// Marks the object and the permission of `value`.
fn mark_value(
    machine: &Machine,
    extra: Ghost<Seq<Value>>,
    value: Value,
    objects: &mut Vec<bool>,
    permissions: &mut Vec<bool>,
) -> (changed: bool)
    requires
        old(objects)@.len() == machine@.objects.len(),
        old(permissions)@.len() == machine@.permissions.len(),
        machine@.marks_sound(extra@, old(objects)@, old(permissions)@),
        forall|n: Node| holds(value, n) && machine@.in_range(n) ==> machine@.reachable(extra@, n),
    ensures
        final(objects)@.len() == old(objects)@.len(),
        final(permissions)@.len() == old(permissions)@.len(),
        machine@.marks_sound(extra@, final(objects)@, final(permissions)@),
        marks_grow(old(objects)@, old(permissions)@, final(objects)@, final(permissions)@),
        forall|n: Node|
            holds(value, n) && machine@.in_range(n) ==> marked(final(objects)@, final(permissions)@, n),
        !changed ==> final(objects)@ == old(objects)@ && final(permissions)@ == old(permissions)@,
        changed ==> unmarked(final(objects)@) + unmarked(final(permissions)@) < unmarked(
            old(objects)@,
        ) + unmarked(old(permissions)@),
{
    assert(holds(value, Node::Object(value.object)));
    assert(holds(value, Node::Permission(value.permission)));
    let first = mark_node(machine, extra, Node::Object(value.object), objects, permissions);
    let ghost middle_objects = objects@;
    let ghost middle_permissions = permissions@;
    let second = mark_node(machine, extra, Node::Permission(value.permission), objects, permissions);
    proof {
        assert forall|n: Node| #[trigger]
            marked(old(objects)@, old(permissions)@, n) implies marked(objects@, permissions@, n) by {
            assert(marked(middle_objects, middle_permissions, n));
        }
        assert(marked(middle_objects, middle_permissions, Node::Object(value.object))
            ==> marked(objects@, permissions@, Node::Object(value.object)));
    }
    first || second
}

impl Machine {
    /// Marks the roots.
    fn mark_roots(&self, extra: &Vec<Value>) -> (marks: (Vec<bool>, Vec<bool>))
        ensures
            marks.0@.len() == self@.objects.len(),
            marks.1@.len() == self@.permissions.len(),
            self@.marks_sound(extra@, marks.0@, marks.1@),
            self@.marks_roots(extra@, marks.0@, marks.1@),
    {
        let mut objects = no_marks(self.object_count());
        let mut permissions = no_marks(self.permission_count());
        let mut f: usize = 0;
        while f < self.stack_len()
            invariant
                f <= self@.stack.len(),
                objects@.len() == self@.objects.len(),
                permissions@.len() == self@.permissions.len(),
                self@.marks_sound(extra@, objects@, permissions@),
                forall|g: int, i: int, n: Node|
                    0 <= g < f && #[trigger] self@.variable_holds(g, i, n) && self@.in_range(n)
                        ==> marked(objects@, permissions@, n),
                forall|g: int, n: Node|
                    0 <= g < f && #[trigger] self@.in_flight_holds(g, n) && self@.in_range(n)
                        ==> marked(objects@, permissions@, n),
            decreases self@.stack.len() - f,
        {
            let frame = self.frame(f);
            let mut i: usize = 0;
            while i < frame.variables.len()
                invariant
                    i <= frame.variables@.len(),
                    f < self@.stack.len(),
                    frame@ == self@.stack[f as int],
                    objects@.len() == self@.objects.len(),
                    permissions@.len() == self@.permissions.len(),
                    self@.marks_sound(extra@, objects@, permissions@),
                    forall|g: int, j: int, n: Node|
                        0 <= g < f && #[trigger] self@.variable_holds(g, j, n) && self@.in_range(n)
                            ==> marked(objects@, permissions@, n),
                    forall|g: int, n: Node|
                        0 <= g < f && #[trigger] self@.in_flight_holds(g, n) && self@.in_range(n)
                            ==> marked(objects@, permissions@, n),
                    forall|j: int, n: Node|
                        0 <= j < i && #[trigger] self@.variable_holds(f as int, j, n)
                            && self@.in_range(n) ==> marked(objects@, permissions@, n),
                decreases frame.variables@.len() - i,
            {
                match frame.variables[i] {
                    Some(value) => {
                        proof {
                            assert forall|n: Node|
                                holds(value, n) && self@.in_range(n) implies self@.reachable(
                                extra@,
                                n,
                            ) by {
                                assert(self@.variable_holds(f as int, i as int, n));
                                lemma_root_reachable(self@, extra@, n);
                            }
                        }
                        mark_value(self, Ghost(extra@), value, &mut objects, &mut permissions);
                    },
                    None => {},
                }
                i += 1;
            }
            match frame.in_flight_value {
                Some(value) => {
                    proof {
                        assert forall|n: Node|
                            holds(value, n) && self@.in_range(n) implies self@.reachable(
                            extra@,
                            n,
                        ) by {
                            assert(self@.in_flight_holds(f as int, n));
                            lemma_root_reachable(self@, extra@, n);
                        }
                    }
                    mark_value(self, Ghost(extra@), value, &mut objects, &mut permissions);
                },
                None => {},
            }
            f += 1;
        }
        let mut i: usize = 0;
        while i < extra.len()
            invariant
                i <= extra@.len(),
                objects@.len() == self@.objects.len(),
                permissions@.len() == self@.permissions.len(),
                self@.marks_sound(extra@, objects@, permissions@),
                forall|g: int, j: int, n: Node| #[trigger]
                    self@.variable_holds(g, j, n) && self@.in_range(n) ==> marked(
                        objects@,
                        permissions@,
                        n,
                    ),
                forall|g: int, n: Node| #[trigger]
                    self@.in_flight_holds(g, n) && self@.in_range(n) ==> marked(
                        objects@,
                        permissions@,
                        n,
                    ),
                forall|j: int, n: Node|
                    0 <= j < i && #[trigger] extra_holds(extra@, j, n) && self@.in_range(n) ==> marked(
                        objects@,
                        permissions@,
                        n,
                    ),
            decreases extra@.len() - i,
        {
            let value = extra[i];
            proof {
                assert forall|n: Node|
                    holds(value, n) && self@.in_range(n) implies self@.reachable(extra@, n) by {
                    assert(extra_holds(extra@, i as int, n));
                    lemma_root_reachable(self@, extra@, n);
                }
            }
            mark_value(self, Ghost(extra@), value, &mut objects, &mut permissions);
            i += 1;
        }
        (objects, permissions)
    }

    /// Goes once over everything marked and marks what an edge leads to.
    fn mark_pass(&self, extra: Ghost<Seq<Value>>, objects: &mut Vec<bool>, permissions: &mut Vec<bool>) -> (changed:
        bool)
        requires
            old(objects)@.len() == self@.objects.len(),
            old(permissions)@.len() == self@.permissions.len(),
            self@.marks_sound(extra@, old(objects)@, old(permissions)@),
        ensures
            final(objects)@.len() == old(objects)@.len(),
            final(permissions)@.len() == old(permissions)@.len(),
            self@.marks_sound(extra@, final(objects)@, final(permissions)@),
            marks_grow(old(objects)@, old(permissions)@, final(objects)@, final(permissions)@),
            !changed ==> self@.marks_closed(final(objects)@, final(permissions)@),
            changed ==> unmarked(final(objects)@) + unmarked(final(permissions)@) < unmarked(
                old(objects)@,
            ) + unmarked(old(permissions)@),
    {
        let ghost start_objects = objects@;
        let ghost start_permissions = permissions@;
        let mut changed = false;
        let mut o: usize = 0;
        while o < objects.len()
            invariant
                o <= objects@.len(),
                objects@.len() == self@.objects.len(),
                permissions@.len() == self@.permissions.len(),
                start_objects.len() == objects@.len(),
                start_permissions.len() == permissions@.len(),
                self@.marks_sound(extra@, objects@, permissions@),
                marks_grow(start_objects, start_permissions, objects@, permissions@),
                !changed ==> objects@ == start_objects && permissions@ == start_permissions,
                changed ==> unmarked(objects@) + unmarked(permissions@) < unmarked(start_objects)
                    + unmarked(start_permissions),
                forall|a: Object, k: int, n: Node|
                    a.index < o && start_objects[a.index as int] && #[trigger] self@.slot_holds(a, k, n)
                        && self@.in_range(n) ==> marked(objects@, permissions@, n),
            decreases objects@.len() - o,
        {
            let object = Object { index: o };
            if objects[o] {
                let count = self.slot_count(object);
                let mut k: usize = 0;
                while k < count
                    invariant
                        k <= count,
                        o < objects@.len(),
                        object == (Object { index: o }),
                        count == match self@.object(object) {
                            Some(data) => data.slots().len(),
                            None => 0,
                        },
                        objects@.len() == self@.objects.len(),
                        permissions@.len() == self@.permissions.len(),
                        start_objects.len() == objects@.len(),
                        start_permissions.len() == permissions@.len(),
                        self@.marks_sound(extra@, objects@, permissions@),
                        objects@[o as int],
                        marks_grow(start_objects, start_permissions, objects@, permissions@),
                        !changed ==> objects@ == start_objects && permissions@ == start_permissions,
                        changed ==> unmarked(objects@) + unmarked(permissions@) < unmarked(
                            start_objects,
                        ) + unmarked(start_permissions),
                        forall|a: Object, j: int, n: Node|
                            a.index < o && start_objects[a.index as int] && #[trigger] self@.slot_holds(
                                a,
                                j,
                                n,
                            ) && self@.in_range(n) ==> marked(objects@, permissions@, n),
                        forall|j: int, n: Node|
                            0 <= j < k && #[trigger] self@.slot_holds(object, j, n) && self@.in_range(
                                n,
                            ) ==> marked(objects@, permissions@, n),
                    decreases count - k,
                {
                    let ghost before_objects = objects@;
                    let ghost before_permissions = permissions@;
                    match self.object_slot(object, k) {
                        Some(value) => {
                            proof {
                                assert(marked(objects@, permissions@, Node::Object(object)));
                                assert forall|n: Node|
                                    holds(value, n) && self@.in_range(n) implies self@.reachable(
                                    extra@,
                                    n,
                                ) by {
                                    assert(self@.slot_holds(object, k as int, n));
                                    lemma_reachable_step(self@, extra@, Node::Object(object), n);
                                }
                            }
                            if mark_value(self, extra, value, objects, permissions) {
                                changed = true;
                            }
                        },
                        None => {},
                    }
                    proof {
                        assert(marks_grow(before_objects, before_permissions, objects@, permissions@));
                        assert(marked(before_objects, before_permissions, Node::Object(object)));
                        assert forall|n: Node| #[trigger]
                            marked(start_objects, start_permissions, n) implies marked(
                            objects@,
                            permissions@,
                            n,
                        ) by {
                            assert(marked(before_objects, before_permissions, n));
                        }
                        assert forall|a: Object, j: int, n: Node|
                            a.index < o && start_objects[a.index as int] && #[trigger] self@.slot_holds(
                                a,
                                j,
                                n,
                            ) && self@.in_range(n) implies marked(objects@, permissions@, n) by {
                            assert(marked(before_objects, before_permissions, n));
                        }
                        assert forall|j: int, n: Node|
                            0 <= j < k + 1 && #[trigger] self@.slot_holds(object, j, n)
                                && self@.in_range(n) implies marked(objects@, permissions@, n) by {
                            if j < k {
                                assert(marked(before_objects, before_permissions, n));
                            }
                        }
                    }
                    k += 1;
                }
            } else {
                proof {
                    if start_objects[o as int] {
                        assert(marked(start_objects, start_permissions, Node::Object(object)));
                    }
                }
            }
            proof {
                assert forall|a: Object, k: int, n: Node|
                    a.index < o + 1 && start_objects[a.index as int] && #[trigger] self@.slot_holds(
                        a,
                        k,
                        n,
                    ) && self@.in_range(n) implies marked(objects@, permissions@, n) by {
                    if a.index == o {
                        assert(a == object);
                    }
                }
            }
            o += 1;
        }
        let mut p: usize = 0;
        while p < permissions.len()
            invariant
                p <= permissions@.len(),
                objects@.len() == self@.objects.len(),
                permissions@.len() == self@.permissions.len(),
                start_objects.len() == objects@.len(),
                start_permissions.len() == permissions@.len(),
                self@.marks_sound(extra@, objects@, permissions@),
                marks_grow(start_objects, start_permissions, objects@, permissions@),
                !changed ==> objects@ == start_objects && permissions@ == start_permissions,
                changed ==> unmarked(objects@) + unmarked(permissions@) < unmarked(start_objects)
                    + unmarked(start_permissions),
                forall|a: Object, k: int, n: Node|
                    a.index < objects@.len() && start_objects[a.index as int]
                        && #[trigger] self@.slot_holds(a, k, n) && self@.in_range(n) ==> marked(
                        objects@,
                        permissions@,
                        n,
                    ),
                forall|a: Permission, n: Node|
                    a.index < p && start_permissions[a.index as int] && #[trigger] self@.edge(
                        Node::Permission(a),
                        n,
                    ) ==> marked(objects@, permissions@, n),
            decreases permissions@.len() - p,
        {
            let permission = Permission { index: p };
            let ghost before_objects = objects@;
            let ghost before_permissions = permissions@;
            if permissions[p] {
                match self.permission(permission) {
                    Some(data) => match data.lessor {
                        Some(l) => {
                            proof {
                                assert(marked(objects@, permissions@, Node::Permission(permission)));
                                if self@.in_range(Node::Permission(l)) {
                                    assert(self@.edge(Node::Permission(permission), Node::Permission(l)));
                                    lemma_reachable_step(
                                        self@,
                                        extra@,
                                        Node::Permission(permission),
                                        Node::Permission(l),
                                    );
                                }
                            }
                            if mark_node(self, extra, Node::Permission(l), objects, permissions) {
                                changed = true;
                            }
                        },
                        None => {},
                    },
                    None => {},
                }
            } else {
                proof {
                    if start_permissions[p as int] {
                        assert(marked(start_objects, start_permissions, Node::Permission(permission)));
                    }
                }
            }
            proof {
                assert(marks_grow(before_objects, before_permissions, objects@, permissions@));
                assert forall|n: Node| #[trigger]
                    marked(start_objects, start_permissions, n) implies marked(
                    objects@,
                    permissions@,
                    n,
                ) by {
                    assert(marked(before_objects, before_permissions, n));
                }
                assert forall|a: Object, k: int, n: Node|
                    a.index < objects@.len() && start_objects[a.index as int]
                        && #[trigger] self@.slot_holds(a, k, n) && self@.in_range(n) implies marked(
                    objects@,
                    permissions@,
                    n,
                ) by {
                    assert(marked(before_objects, before_permissions, n));
                }
                assert forall|a: Permission, n: Node|
                    a.index < p + 1 && start_permissions[a.index as int] && #[trigger] self@.edge(
                        Node::Permission(a),
                        n,
                    ) implies marked(objects@, permissions@, n) by {
                    if a.index == p {
                        assert(a == permission);
                    } else {
                        assert(marked(before_objects, before_permissions, n));
                    }
                }
            }
            p += 1;
        }
        proof {
            if !changed {
                assert forall|a: Node, b: Node|
                    marked(objects@, permissions@, a) && #[trigger] self@.edge(a, b) implies marked(
                    objects@,
                    permissions@,
                    b,
                ) by {
                    match a {
                        Node::Object(o) => {
                            let k = choose|k: int| #[trigger] self@.slot_holds(o, k, b);
                            assert(self@.slot_holds(o, k, b));
                        },
                        Node::Permission(q) => {},
                    }
                }
            }
        }
        changed
    }

    /// Marks what the collector reaches: for each entry of the heap and of
    /// the permission table, whether it is reachable from the stack, the
    /// values in flight and `extra`.
    pub fn mark(&self, extra: &Vec<Value>) -> (marks: (Vec<bool>, Vec<bool>))
        ensures
            marks.0@ == self@.live_objects(extra@),
            marks.1@ == self@.live_permissions(extra@),
    {
        let (mut objects, mut permissions) = self.mark_roots(extra);
        loop
            invariant_except_break
                objects@.len() == self@.objects.len(),
                permissions@.len() == self@.permissions.len(),
                self@.marks_sound(extra@, objects@, permissions@),
                self@.marks_roots(extra@, objects@, permissions@),
            ensures
                objects@.len() == self@.objects.len(),
                permissions@.len() == self@.permissions.len(),
                self@.marks_sound(extra@, objects@, permissions@),
                self@.marks_roots(extra@, objects@, permissions@),
                self@.marks_closed(objects@, permissions@),
            decreases unmarked(objects@) + unmarked(permissions@),
        {
            let changed = self.mark_pass(Ghost(extra@), &mut objects, &mut permissions);
            if !changed {
                break ;
            }
        }
        proof {
            lemma_closed_marks_complete(self@, extra@, objects@, permissions@);
            assert(objects@.len() == objects.len() && permissions@.len() == permissions.len());
            assert forall|i: int| 0 <= i < objects@.len() implies objects@[i] == self@.live_objects(
                extra@,
            )[i] by {
                let n = Node::Object(Object { index: i as usize });
                assert(marked(objects@, permissions@, n) == objects@[i]);
            }
            assert forall|i: int| 0 <= i < permissions@.len() implies permissions@[i]
                == self@.live_permissions(extra@)[i] by {
                let n = Node::Permission(Permission { index: i as usize });
                assert(marked(objects@, permissions@, n) == permissions@[i]);
            }
            assert(objects@ =~= self@.live_objects(extra@));
            assert(permissions@ =~= self@.live_permissions(extra@));
        }
        (objects, permissions)
    }

    /// Collects: reclaims every object and every permission that is not
    /// reachable from the stack, the values in flight and `extra`.
    pub fn gc(&mut self, extra: &Vec<Value>)
        ensures
            final(self)@ == old(self)@.gc(extra@),
    {
        let (objects, permissions) = self.mark(extra);
        self.sweep(&objects, &permissions);
    }
}

} // verus!
