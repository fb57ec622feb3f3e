//! Validation: deciding at run time whether a program and a machine are well
//! formed, for those who get them from somewhere that does not prove it.
use vstd::prelude::*;
use crate::bir::{
    ActionData, BirRecord, ControlPoint, ControlPointData, ExprData, Origins, Place, PlaceData,
    SyntaxExpr, SyntaxTree, Tables, TargetPlaceData, TerminatorData, TerminatorExpr,
};
use crate::class::ClassData;
use crate::db::{str_eq, Db};
use crate::machine::Machine;
use crate::marks::no_marks;
use crate::model::{MachineModel, Object, Permission, PermissionKind, Slot};
use crate::step::links::{entry_linked, links_wf};
use crate::step::unaliased::Location;

verus! {

/// A block that has `n` statements has every smaller number of them.
pub proof fn lemma_block_point_prefix(tables: &Tables, block: ControlPoint, n: nat, m: nat)
    requires
        tables.block_point(block, n) is Some,
        m <= n,
    ensures
        tables.block_point(block, m) is Some,
    decreases m,
{
    if m > 0 {
        match tables.control_points@[block.index as int] {
            ControlPointData::Statement(s) => {
                lemma_block_point_prefix(tables, s.next, (n - 1) as nat, (m - 1) as nat);
            },
            ControlPointData::Terminator(_) => {},
        }
    }
}

/// Whether every place of `places` is in the table of places.
fn places_ok(places: &Vec<Place>, tables: &Tables) -> (r: bool)
    ensures
        r == crate::bir::places_in_range(places@, tables),
{
    let mut i: usize = 0;
    while i < places.len()
        invariant
            i <= places@.len(),
            forall|j: int| 0 <= j < i ==> (#[trigger] places@[j]).index < tables.places@.len(),
        decreases places@.len() - i,
    {
        if places[i].index >= tables.places.len() {
            return false;
        }
        i += 1;
    }
    true
}

/// Whether every label of `labels` is in the table of names.
fn labels_ok(labels: &Vec<Option<crate::bir::Name>>, tables: &Tables) -> (r: bool)
    ensures
        r == (forall|i: int|
            0 <= i < labels@.len() ==> ((#[trigger] labels@[i]) matches Some(n) ==> n.index
                < tables.names@.len())),
{
    let mut i: usize = 0;
    while i < labels.len()
        invariant
            i <= labels@.len(),
            forall|j: int|
                0 <= j < i ==> ((#[trigger] labels@[j]) matches Some(n) ==> n.index
                    < tables.names@.len()),
        decreases labels@.len() - i,
    {
        match labels[i] {
            Some(n) => {
                if n.index >= tables.names.len() {
                    assert(labels@[i as int] == Some(n));
                    return false;
                }
            },
            None => {},
        }
        i += 1;
    }
    true
}

impl ActionData {
    /// Whether the handles in the action are handles of `tables`.
    pub fn validate(&self, tables: &Tables) -> (r: bool)
        ensures
            r == self.wf(tables),
    {
        match *self {
            ActionData::Noop => true,
            ActionData::AssignExpr(target, expr) => target.index < tables.target_places.len()
                && expr.index < tables.exprs.len(),
            ActionData::Clear(local) => local.index < tables.local_variables.len(),
            ActionData::BreakpointStart(_, _) => true,
            ActionData::BreakpointEnd(_, _, _, place) => match place {
                Some(p) => p.index < tables.places.len(),
                None => true,
            },
        }
    }
}

impl TerminatorExpr {
    /// Whether the handles in the expression are handles of `tables`, and
    /// there is one label for each argument.
    pub fn validate(&self, tables: &Tables) -> (r: bool)
        ensures
            r == self.wf(tables),
    {
        match self {
            TerminatorExpr::Await(place) => place.index < tables.places.len(),
            TerminatorExpr::Call { function, arguments, labels } => {
                function.index < tables.places.len() && places_ok(arguments, tables) && labels.len()
                    == arguments.len() && labels_ok(labels, tables)
            },
        }
    }
}

impl TerminatorData {
    /// Whether the handles in the terminator are handles of `tables`.
    pub fn validate(&self, tables: &Tables) -> (r: bool)
        ensures
            r == self.wf(tables),
    {
        let n = tables.control_points.len();
        match self {
            TerminatorData::Goto(b) => b.index < n,
            TerminatorData::If(place, t, f) => place.index < tables.places.len() && t.index < n
                && f.index < n,
            TerminatorData::StartAtomic(b) => b.index < n,
            TerminatorData::EndAtomic(b) => b.index < n,
            TerminatorData::Return(place) => place.index < tables.places.len(),
            TerminatorData::Assign(target, expr, next) => target.index < tables.target_places.len()
                && expr.validate(tables) && next.index < n,
            TerminatorData::Error => true,
            TerminatorData::Panic => true,
        }
    }
}

impl ControlPointData {
    /// Whether the handles in the control point are handles of `tables`.
    pub fn validate(&self, tables: &Tables) -> (r: bool)
        ensures
            r == self.wf(tables),
    {
        match self {
            ControlPointData::Statement(s) => s.action.validate(tables) && s.next.index
                < tables.control_points.len(),
            ControlPointData::Terminator(t) => t.validate(tables),
        }
    }
}

impl ExprData {
    /// Whether the handles in the expression are handles of `tables` and of
    /// `db`.
    pub fn validate(&self, tables: &Tables, db: &Db) -> (r: bool)
        ensures
            r == self.wf(tables, db),
    {
        let n = tables.places.len();
        match self {
            ExprData::StringLiteral(w) => w.index < db.words.len(),
            ExprData::IntoShared(p) => p.index < n,
            ExprData::Share(p) => p.index < n,
            ExprData::Lease(p) => p.index < n,
            ExprData::Give(p) => p.index < n,
            ExprData::Tuple(places) => places_ok(places, tables),
            ExprData::Concatenate(places) => places_ok(places, tables),
            ExprData::Op(lhs, _, rhs) => lhs.index < n && rhs.index < n,
            ExprData::Unary(_, rhs) => rhs.index < n,
            _ => true,
        }
    }
}

impl PlaceData {
    /// Whether the place is well formed at index `at` of its table.
    pub fn validate(&self, at: usize, tables: &Tables, db: &Db) -> (r: bool)
        ensures
            r == self.wf(at as int, tables, db),
    {
        match *self {
            PlaceData::LocalVariable(lv) => lv.index < tables.local_variables.len(),
            PlaceData::Function(f) => f.index < db.functions.len(),
            PlaceData::Class(c) => c.index < db.classes.len(),
            PlaceData::Intrinsic(_) => true,
            PlaceData::Dot(base, w) => base.index < at && w.index < db.words.len(),
        }
    }
}

impl TargetPlaceData {
    /// Whether the handles in the target are handles of `tables` and of `db`.
    pub fn validate(&self, tables: &Tables, db: &Db) -> (r: bool)
        ensures
            r == self.wf(tables, db),
    {
        match *self {
            TargetPlaceData::LocalVariable(lv) => lv.index < tables.local_variables.len(),
            TargetPlaceData::Dot(base, w) => base.index < tables.places.len() && w.index
                < db.words.len(),
        }
    }
}

impl Tables {
    /// Whether every block ends.
    pub fn validate_blocks(&self) -> (r: bool)
        ensures
            r == self.blocks_end(),
    {
        let n = self.control_points.len();
        let mut b: usize = 0;
        while b < n
            invariant
                b <= n,
                n == self.control_points@.len(),
                forall|c: ControlPoint| c.index < b ==> #[trigger] self.block_point(c, n as nat) is None,
            decreases n - b,
        {
            let block = ControlPoint { index: b };
            if self.locate(block, n).is_some() {
                assert(!self.blocks_end()) by {
                    assert(self.block_point(block, n as nat) is Some);
                }
                return false;
            }
            proof {
                assert forall|c: ControlPoint| c.index < b + 1 implies #[trigger] self.block_point(
                    c,
                    n as nat,
                ) is None by {
                    if c.index == b {
                        assert(c == block);
                    }
                }
            }
            b += 1;
        }
        proof {
            assert forall|block: ControlPoint, k: nat| #[trigger]
                self.block_point(block, k) is Some implies k < n by {
                if k >= n {
                    lemma_block_point_prefix(self, block, k, n as nat);
                    assert(block.index < n);
                }
            }
        }
        true
    }

    /// Whether the tables are well formed for `db`.
    pub fn validate(&self, db: &Db) -> (r: bool)
        ensures
            r == self.wf(db),
    {
        if !self.validate_blocks() {
            return false;
        }
        let mut i: usize = 0;
        while i < self.local_variables.len()
            invariant
                i <= self.local_variables@.len(),
                forall|j: int|
                    0 <= j < i ==> ((#[trigger] self.local_variables@[j]).name matches Some(w) ==> w.index
                        < db.words@.len()),
            decreases self.local_variables@.len() - i,
        {
            match self.local_variables[i].name {
                Some(w) => {
                    if w.index >= db.words.len() {
                        return false;
                    }
                },
                None => {},
            }
            i += 1;
        }
        let mut i: usize = 0;
        while i < self.control_points.len()
            invariant
                i <= self.control_points@.len(),
                forall|j: int| 0 <= j < i ==> (#[trigger] self.control_points@[j]).wf(self),
            decreases self.control_points@.len() - i,
        {
            if !self.control_points[i].validate(self) {
                return false;
            }
            i += 1;
        }
        let mut i: usize = 0;
        while i < self.exprs.len()
            invariant
                i <= self.exprs@.len(),
                forall|j: int| 0 <= j < i ==> (#[trigger] self.exprs@[j]).wf(self, db),
            decreases self.exprs@.len() - i,
        {
            if !self.exprs[i].validate(self, db) {
                return false;
            }
            i += 1;
        }
        let mut i: usize = 0;
        while i < self.places.len()
            invariant
                i <= self.places@.len(),
                forall|j: int| 0 <= j < i ==> (#[trigger] self.places@[j]).wf(j, self, db),
            decreases self.places@.len() - i,
        {
            if !self.places[i].validate(i, self, db) {
                return false;
            }
            i += 1;
        }
        let mut i: usize = 0;
        while i < self.target_places.len()
            invariant
                i <= self.target_places@.len(),
                forall|j: int| 0 <= j < i ==> (#[trigger] self.target_places@[j]).wf(self, db),
            decreases self.target_places@.len() - i,
        {
            if !self.target_places[i].validate(self, db) {
                return false;
            }
            i += 1;
        }
        let mut i: usize = 0;
        while i < self.names.len()
            invariant
                i <= self.names@.len(),
                forall|j: int| 0 <= j < i ==> (#[trigger] self.names@[j]).word.index < db.words@.len(),
            decreases self.names@.len() - i,
        {
            if self.names[i].word.index >= db.words.len() {
                return false;
            }
            i += 1;
        }
        true
    }
}

/// Whether every origin of `origins` is an expression of `tree`.
fn origins_ok(origins: &Vec<SyntaxExpr>, tree: &SyntaxTree) -> (r: bool)
    ensures
        r == (forall|i: int| 0 <= i < origins@.len() ==> (#[trigger] origins@[i]).index < tree.spans@.len()),
{
    let mut i: usize = 0;
    while i < origins.len()
        invariant
            i <= origins@.len(),
            forall|j: int| 0 <= j < i ==> (#[trigger] origins@[j]).index < tree.spans@.len(),
        decreases origins@.len() - i,
    {
        if origins[i].index >= tree.spans.len() {
            return false;
        }
        i += 1;
    }
    true
}

impl Origins {
    /// Whether the side tables fit `tables` and `tree`.
    pub fn validate(&self, tables: &Tables, tree: &SyntaxTree) -> (r: bool)
        ensures
            r == self.wf(tables, tree),
    {
        self.control_points.len() == tables.control_points.len() && self.exprs.len()
            == tables.exprs.len() && self.places.len() == tables.places.len()
            && self.target_places.len() == tables.target_places.len() && origins_ok(
            &self.control_points,
            tree,
        ) && origins_ok(&self.exprs, tree) && origins_ok(&self.places, tree) && origins_ok(
            &self.target_places,
            tree,
        )
    }
}

impl BirRecord {
    /// Whether the statements name expressions of the syntax tree.
    pub fn validate_breakpoints(&self) -> (r: bool)
        ensures
            r == self.breakpoints_wf(),
    {
        let points = &self.data.tables.control_points;
        let mut i: usize = 0;
        while i < points.len()
            invariant
                i <= points@.len(),
                points@ == self.data.tables.control_points@,
                forall|j: int|
                    0 <= j < i ==> (#[trigger] points@[j] matches ControlPointData::Statement(s) ==> (
                    s.action matches ActionData::BreakpointEnd(_, _, e, _) ==> e.index
                        < self.syntax_tree.spans@.len())),
            decreases points@.len() - i,
        {
            match &points[i] {
                ControlPointData::Statement(s) => match s.action {
                    ActionData::BreakpointEnd(_, _, e, _) => {
                        if e.index >= self.syntax_tree.spans.len() {
                            return false;
                        }
                    },
                    _ => {},
                },
                ControlPointData::Terminator(_) => {},
            }
            i += 1;
        }
        true
    }

    /// Whether the code is well formed for `db`.
    pub fn validate(&self, db: &Db) -> (r: bool)
        ensures
            r == self.wf(db),
    {
        self.function_name.index < db.words.len() && self.data.tables.validate(db)
            && self.data.num_parameters <= self.data.tables.local_variables.len()
            && self.data.start_point.index < self.data.tables.control_points.len()
            && self.origins.validate(&self.data.tables, &self.syntax_tree)
            && self.validate_breakpoints()
    }
}

impl ClassData {
    /// Whether the class is well formed for `db`.
    pub fn validate(&self, db: &Db) -> (r: bool)
        ensures
            r == self.wf(db),
    {
        if !(self.signature_syntax.name.index < self.signature_syntax.spans.len() && self.name.index
            < db.words.len()) {
            return false;
        }
        let mut i: usize = 0;
        while i < self.fields.len()
            invariant
                i <= self.fields@.len(),
                forall|j: int| 0 <= j < i ==> (#[trigger] self.fields@[j]).index < db.words@.len(),
            decreases self.fields@.len() - i,
        {
            if self.fields[i].index >= db.words.len() {
                return false;
            }
            i += 1;
        }
        true
    }
}

impl Db {
    /// Whether no string is interned twice.
    pub fn validate_words(&self) -> (r: bool)
        ensures
            r == (forall|i: int, j: int|
                0 <= i < j < self.words@.len() ==> (#[trigger] self.words@[i])@ != (
                #[trigger] self.words@[j])@),
    {
        let mut j: usize = 0;
        while j < self.words.len()
            invariant
                j <= self.words@.len(),
                forall|a: int, b: int|
                    0 <= a < b < j ==> (#[trigger] self.words@[a])@ != (#[trigger] self.words@[b])@,
            decreases self.words@.len() - j,
        {
            let mut i: usize = 0;
            while i < j
                invariant
                    i <= j,
                    j < self.words@.len(),
                    forall|a: int| 0 <= a < i ==> (#[trigger] self.words@[a])@ != self.words@[j as int]@,
                decreases j - i,
            {
                if str_eq(self.words[i].as_str(), self.words[j].as_str()) {
                    return false;
                }
                i += 1;
            }
            j += 1;
        }
        true
    }

    /// Whether the program is well formed.
    pub fn validate(&self) -> (r: bool)
        ensures
            r == self.wf(),
    {
        if !self.validate_words() {
            return false;
        }
        let mut i: usize = 0;
        while i < self.classes.len()
            invariant
                i <= self.classes@.len(),
                forall|j: int| 0 <= j < i ==> (#[trigger] self.classes@[j]).wf(self),
            decreases self.classes@.len() - i,
        {
            if !self.classes[i].validate(self) {
                return false;
            }
            i += 1;
        }
        let mut i: usize = 0;
        while i < self.functions.len()
            invariant
                i <= self.functions@.len(),
                forall|j: int| 0 <= j < i ==> (#[trigger] self.functions@[j]).wf(self),
            decreases self.functions@.len() - i,
        {
            let f = &self.functions[i];
            if !(f.name.index < self.words.len() && f.bir.index < self.birs.len()) {
                return false;
            }
            i += 1;
        }
        let mut i: usize = 0;
        while i < self.birs.len()
            invariant
                i <= self.birs@.len(),
                forall|j: int| 0 <= j < i ==> (#[trigger] self.birs@[j]).wf(self),
            decreases self.birs@.len() - i,
        {
            if !self.birs[i].validate(self) {
                return false;
            }
            i += 1;
        }
        true
    }
}

impl Machine {
    /// Whether the stack is well formed for `db`.
    pub fn validate(&self, db: &Db) -> (r: bool)
        ensures
            r == self@.wf(db),
    {
        let n = self.stack_len();
        let mut i: usize = 0;
        while i < n
            invariant
                i <= n,
                n == self@.stack.len(),
                forall|j: int|
                    0 <= j < i ==> (#[trigger] self@.stack[j]).wf(db) && (j + 1 < n
                        ==> self@.stack[j].awaiting(db) is Some),
            decreases n - i,
        {
            let frame = self.frame(i);
            if frame.pc.bir.index >= db.birs.len() {
                assert(!self@.stack[i as int].wf(db));
                return false;
            }
            let tables = &db.birs[frame.pc.bir.index].data.tables;
            let point = match tables.locate(frame.pc.basic_block, frame.pc.statement) {
                Some(point) => point,
                None => {
                    assert(!self@.stack[i as int].wf(db));
                    return false;
                },
            };
            if frame.variables.len() != tables.local_variables.len() {
                assert(!self@.stack[i as int].wf(db));
                return false;
            }
            if i + 1 < n {
                let waits = match &tables.control_points[point.index] {
                    ControlPointData::Terminator(TerminatorData::Assign(_, _, _)) => true,
                    _ => false,
                };
                if !waits {
                    assert(self@.stack[i as int].awaiting(db) is None);
                    return false;
                }
            }
            i += 1;
        }
        true
    }

    /// Whether the permission `p` is linked well.
    fn validate_entry(&self, p: crate::model::Permission) -> (r: bool)
        requires
            p.index < self@.permissions.len(),
        ensures
            r == entry_linked(self@.permissions, p),
    {
        match self.permission(p) {
            Some(data) => {
                let tenant_ok = match data.tenant {
                    Some(t) => p.index < t.index && t.index < self.permission_count() && !data.canceled
                        && match self.permission(t) {
                        Some(tenant) => !tenant.canceled && match tenant.lessor {
                            Some(l) => l == p,
                            None => false,
                        },
                        None => false,
                    },
                    None => true,
                };
                let lessor_ok = match data.lessor {
                    Some(l) => l.index < p.index && (data.kind == crate::model::PermissionKind::Leased
                        || data.kind == crate::model::PermissionKind::Shared) && (data.canceled
                        || match self.permission(l) {
                        Some(lessor) => !lessor.canceled && match lessor.tenant {
                            Some(t) => t == p,
                            None => false,
                        },
                        None => false,
                    }),
                    None => data.kind == crate::model::PermissionKind::My || data.kind
                        == crate::model::PermissionKind::Our,
                };
                tenant_ok && lessor_ok
            },
            None => true,
        }
    }

    /// Whether the links among the permissions are well formed.
    pub fn validate_links(&self) -> (r: bool)
        ensures
            r == self@.links_wf(),
    {
        let n = self.permission_count();
        let mut i: usize = 0;
        while i < n
            invariant
                i <= n,
                n == self@.permissions.len(),
                forall|q: crate::model::Permission| q.index < i ==> #[trigger] entry_linked(self@.permissions, q),
            decreases n - i,
        {
            let p = crate::model::Permission { index: i };
            if !self.validate_entry(p) {
                return false;
            }
            proof {
                assert forall|q: crate::model::Permission| q.index < i + 1 implies #[trigger] entry_linked(
                    self@.permissions,
                    q,
                ) by {
                    if q.index == i {
                        assert(q == p);
                    }
                }
            }
            i += 1;
        }
        true
    }
}

impl Machine {
    /// Whether what `slots` hold is allocated.
    fn validate_slots(&self, slots: &Vec<crate::model::Slot>) -> (r: bool)
        ensures
            r == self@.slots_allocated(slots@),
    {
        let mut k: usize = 0;
        while k < slots.len()
            invariant
                k <= slots@.len(),
                forall|j: int| 0 <= j < k ==> self@.slot_allocated(#[trigger] slots@[j]),
            decreases slots@.len() - k,
        {
            match slots[k] {
                Some(value) => {
                    if self.object(value.object).is_none() || self.permission(value.permission).is_none() {
                        assert(!self@.slot_allocated(slots@[k as int]));
                        return false;
                    }
                },
                None => {},
            }
            k += 1;
        }
        true
    }

    /// Whether nothing that the machine holds dangles.
    pub fn validate_held(&self) -> (r: bool)
        ensures
            r == self@.holds_allocated(),
    {
        let mut f: usize = 0;
        while f < self.stack_len()
            invariant
                f <= self@.stack.len(),
                forall|g: int| 0 <= g < f ==> #[trigger] self@.frame_allocated(g),
            decreases self@.stack.len() - f,
        {
            let frame = self.frame(f);
            let in_flight_ok = match frame.in_flight_value {
                Some(value) => self.object(value.object).is_some() && self.permission(
                    value.permission,
                ).is_some(),
                None => true,
            };
            if !(self.validate_slots(&frame.variables) && in_flight_ok) {
                assert(!self@.frame_allocated(f as int));
                return false;
            }
            f += 1;
        }
        let mut o: usize = 0;
        while o < self.object_count()
            invariant
                o <= self@.objects.len(),
                forall|g: int| 0 <= g < self@.stack.len() ==> #[trigger] self@.frame_allocated(g),
                forall|i: int| 0 <= i < o ==> #[trigger] self@.entry_allocated(i),
            decreases self@.objects.len() - o,
        {
            let ok = match self.object(crate::model::Object { index: o }) {
                Some(crate::machine::ObjectData::Instance(i)) => self.validate_slots(&i.fields),
                Some(crate::machine::ObjectData::Tuple(t)) => self.validate_slots(&t.fields),
                Some(crate::machine::ObjectData::Thunk(t)) => self.validate_slots(&t.arguments),
                _ => true,
            };
            if !ok {
                assert(!self@.entry_allocated(o as int));
                return false;
            }
            o += 1;
        }
        true
    }
}

/// Whether a walk over the frames and then over the heap, which has come to
/// variable `i` of frame `f` or to slot `k` of object `o`, has passed `a`.
pub open spec fn passed(a: Location, f: int, i: int, o: int, k: int) -> bool {
    match a {
        Location::Variable(g, j) => g < f || (g == f && j < i),
        Location::InFlight(g) => g < f,
        Location::Field(x, j) => x < o || (x == o && j < k),
    }
}

impl MachineModel {
    /// What a walk knows when it has come to variable `i` of frame `f` or to
    /// slot `k` of object `o`: `seen` marks the permissions of unique owners
    /// through which the machine holds a value at a location that the walk
    /// has passed, and `holder` gives for each the one such location.
    pub open spec fn noted(
        self,
        seen: Seq<bool>,
        holder: Map<Permission, Location>,
        f: int,
        i: int,
        o: int,
        k: int,
    ) -> bool {
        &&& seen.len() == self.permissions.len()
        &&& forall|p: Permission| #[trigger]
            holder.contains_key(p) <==> p.index < seen.len() && seen[p.index as int]
        &&& forall|p: Permission| #[trigger]
            holder.contains_key(p) ==> passed(holder[p], f, i, o, k) && self.holds_through(holder[p], p)
                && self.owned(p)
        &&& forall|a: Location, p: Permission|
            passed(a, f, i, o, k) && #[trigger] self.holds_through(a, p) && self.owned(p)
                ==> holder.contains_key(p) && holder[p] == a
    }
}

/// Takes note of `slot`, which the machine holds at `here`, as the walk goes
/// on from `from` to `to`.  The answer is whether no location that the walk
/// has passed holds a value through the same unique owner.
fn note(
    machine: &Machine,
    seen: &mut Vec<bool>,
    slot: Slot,
    Ghost(here): Ghost<Location>,
    Ghost(holder): Ghost<Map<Permission, Location>>,
    Ghost(from): Ghost<(int, int, int, int)>,
    Ghost(to): Ghost<(int, int, int, int)>,
) -> (r: (bool, Ghost<Map<Permission, Location>>))
    requires
        machine@.value_at(here) == slot,
        machine@.noted(old(seen)@, holder, from.0, from.1, from.2, from.3),
        !passed(here, from.0, from.1, from.2, from.3),
        passed(here, to.0, to.1, to.2, to.3),
        forall|a: Location| #[trigger]
            passed(a, to.0, to.1, to.2, to.3) ==> passed(a, from.0, from.1, from.2, from.3) || a == here
                || machine@.value_at(a) is None,
        forall|a: Location| #[trigger]
            passed(a, from.0, from.1, from.2, from.3) ==> passed(a, to.0, to.1, to.2, to.3),
    ensures
        r.0 ==> machine@.noted(final(seen)@, r.1@, to.0, to.1, to.2, to.3),
        !r.0 ==> !machine@.unaliased(),
{
    let ghost m = machine@;
    match slot {
        Some(value) => match machine.permission(value.permission) {
            Some(data) => match data.kind {
                PermissionKind::My => {
                    let p = value.permission;
                    assert(m.holds_through(here, p) && m.owned(p));
                    if seen[p.index] {
                        proof {
                            assert(holder.contains_key(p));
                            assert(m.holds_through(holder[p], p));
                            assert(holder[p] != here);
                        }
                        return (false, Ghost(holder));
                    }
                    seen.set(p.index, true);
                    let ghost next = holder.insert(p, here);
                    proof {
                        assert forall|q: Permission| #[trigger]
                            next.contains_key(q) <==> q.index < seen@.len() && seen@[q.index as int] by {
                            assert(holder.contains_key(q) <==> q.index < old(seen)@.len() && old(
                                seen,
                            )@[q.index as int]);
                        }
                        assert forall|q: Permission| #[trigger] next.contains_key(q) implies passed(
                            next[q],
                            to.0,
                            to.1,
                            to.2,
                            to.3,
                        ) && m.holds_through(next[q], q) && m.owned(q) by {
                            if q != p {
                                assert(holder.contains_key(q));
                                assert(passed(holder[q], from.0, from.1, from.2, from.3));
                            }
                        }
                        assert forall|a: Location, q: Permission|
                            passed(a, to.0, to.1, to.2, to.3) && #[trigger] m.holds_through(a, q) && m.owned(
                                q,
                            ) implies next.contains_key(q) && next[q] == a by {
                            if a != here {
                                assert(passed(a, from.0, from.1, from.2, from.3));
                                assert(holder.contains_key(q) && holder[q] == a);
                                assert(q != p);
                            }
                        }
                    }
                    return (true, Ghost(next));
                },
                _ => {},
            },
            None => {},
        },
        None => {},
    }
    proof {
        assert forall|q: Permission| #[trigger] holder.contains_key(q) implies passed(
            holder[q],
            to.0,
            to.1,
            to.2,
            to.3,
        ) by {
            assert(passed(holder[q], from.0, from.1, from.2, from.3));
        }
        assert forall|a: Location, q: Permission|
            passed(a, to.0, to.1, to.2, to.3) && #[trigger] m.holds_through(a, q) && m.owned(
                q,
            ) implies holder.contains_key(q) && holder[q] == a by {
            assert(a != here);
            assert(passed(a, from.0, from.1, from.2, from.3));
        }
    }
    (true, Ghost(holder))
}

impl Machine {
    /// Whether what is uniquely owned is held once.
    pub fn validate_unaliased(&self) -> (r: bool)
        ensures
            r == self@.unaliased(),
    {
        let mut seen = no_marks(self.permission_count());
        let ghost mut holder: Map<Permission, Location> = Map::empty();
        let ghost m = self@;
        let mut f: usize = 0;
        while f < self.stack_len()
            invariant
                m == self@,
                f <= m.stack.len(),
                m.noted(seen@, holder, f as int, 0, 0, 0),
            decreases m.stack.len() - f,
        {
            let frame = self.frame(f);
            let mut i: usize = 0;
            while i < frame.variables.len()
                invariant
                    m == self@,
                    f < m.stack.len(),
                    frame@ == m.stack[f as int],
                    i <= frame.variables@.len(),
                    m.noted(seen@, holder, f as int, i as int, 0, 0),
                decreases frame.variables@.len() - i,
            {
                let (ok, next) = note(
                    self,
                    &mut seen,
                    frame.variables[i],
                    Ghost(Location::Variable(f as int, i as int)),
                    Ghost(holder),
                    Ghost((f as int, i as int, 0, 0)),
                    Ghost((f as int, i + 1, 0, 0)),
                );
                if !ok {
                    return false;
                }
                proof {
                    holder = next@;
                }
                i += 1;
            }
            let (ok, next) = note(
                self,
                &mut seen,
                frame.in_flight_value,
                Ghost(Location::InFlight(f as int)),
                Ghost(holder),
                Ghost((f as int, i as int, 0, 0)),
                Ghost((f + 1, 0, 0, 0)),
            );
            if !ok {
                return false;
            }
            proof {
                holder = next@;
            }
            f += 1;
        }
        let mut o: usize = 0;
        while o < self.object_count()
            invariant
                m == self@,
                f == m.stack.len(),
                o <= m.objects.len(),
                m.noted(seen@, holder, f as int, 0, o as int, 0),
            decreases m.objects.len() - o,
        {
            let object = Object { index: o };
            let count = self.slot_count(object);
            let mut k: usize = 0;
            while k < count
                invariant
                    m == self@,
                    f == m.stack.len(),
                    o < m.objects.len(),
                    object == (Object { index: o }),
                    k <= count,
                    count == match m.object(object) {
                        Some(data) => data.slots().len(),
                        None => 0,
                    },
                    m.noted(seen@, holder, f as int, 0, o as int, k as int),
                decreases count - k,
            {
                let (ok, next) = note(
                    self,
                    &mut seen,
                    self.object_slot(object, k),
                    Ghost(Location::Field(o as int, k as int)),
                    Ghost(holder),
                    Ghost((f as int, 0, o as int, k as int)),
                    Ghost((f as int, 0, o as int, k + 1)),
                );
                if !ok {
                    return false;
                }
                proof {
                    holder = next@;
                }
                k += 1;
            }
            proof {
                assert forall|a: Location, p: Permission|
                    passed(a, f as int, 0, o + 1, 0) && #[trigger] m.holds_through(a, p) && m.owned(
                        p,
                    ) implies holder.contains_key(p) && holder[p] == a by {
                    assert(passed(a, f as int, 0, o as int, k as int));
                }
                assert forall|p: Permission| #[trigger] holder.contains_key(p) implies passed(
                    holder[p],
                    f as int,
                    0,
                    o + 1,
                    0,
                ) by {
                    assert(passed(holder[p], f as int, 0, o as int, k as int));
                }
            }
            o += 1;
        }
        proof {
            assert forall|a: Location, b: Location, p: Permission|
                #[trigger] m.holds_through(a, p) && #[trigger] m.holds_through(b, p) && m.owned(
                    p,
                ) implies a == b by {
                assert(passed(a, f as int, 0, o as int, 0));
                assert(passed(b, f as int, 0, o as int, 0));
                assert(holder[p] == a);
                assert(holder[p] == b);
            }
        }
        true
    }
}

} // verus!
