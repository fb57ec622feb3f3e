//! The base intermediate representation that the interpreter executes.
//!
//! A function's code is a graph of control points.  A statement has one
//! successor; a terminator names its own.  Everything is stored in tables and
//! referred to by handle.
use vstd::prelude::*;
use crate::class::Class;
use crate::db::Db;
use crate::function::{Function, Intrinsic};
use crate::span::{FileSpan, InputFile, Span};
use crate::marks::{lemma_mark_decreases, no_marks, unmarked};
use crate::word::Word;

verus! {

/// Handle of the code of one function in a [`Db`].
#[derive(Clone, Copy, Debug, PartialEq, Eq, Structural, Hash)]
pub struct Bir {
    pub index: usize,
}

/// Handle of an expression in the syntax tree that the code was made from.
#[derive(Clone, Copy, Debug, PartialEq, Eq, Structural, Hash)]
pub struct SyntaxExpr {
    pub index: usize,
}

/// A point in the control-flow graph: either a statement, which has a single
/// successor, or a terminator, which has its own set of successors.
#[derive(Clone, Copy, Debug, PartialEq, Eq, Structural, Hash)]
pub struct ControlPoint {
    pub index: usize,
}

#[derive(Clone, Copy, Debug, PartialEq, Eq, Structural, Hash)]
pub struct LocalVariable {
    pub index: usize,
}

#[derive(Clone, Copy, Debug, PartialEq, Eq, Structural, Hash)]
pub struct Expr {
    pub index: usize,
}

#[derive(Clone, Copy, Debug, PartialEq, Eq, Structural, Hash)]
pub struct Place {
    pub index: usize,
}

#[derive(Clone, Copy, Debug, PartialEq, Eq, Structural, Hash)]
pub struct TargetPlace {
    pub index: usize,
}

#[derive(Clone, Copy, Debug, PartialEq, Eq, Structural, Hash)]
pub struct Name {
    pub index: usize,
}

/// Whether a variable's storage is atomic.
#[derive(Clone, Copy, Debug, PartialEq, Eq, Structural, Hash)]
pub enum Atomic {
    No,
    Yes,
}

/// Binary and unary operators.
#[derive(Clone, Copy, Debug, PartialEq, Eq, Structural, Hash)]
pub enum Op {
    Plus,
    Minus,
    Times,
    DividedBy,
    EqualEqual,
    LessThan,
    GreaterThan,
    LessEqual,
    GreaterEqual,
}

/// Positions in the source of the expressions of a syntax tree.
#[derive(Debug)]
pub struct SyntaxTree {
    pub spans: Vec<Span>,
}

/// The code of one function together with where it came from.
#[derive(Debug)]
pub struct BirRecord {
    /// File containing the code from which this was created.
    pub input_file: InputFile,
    /// Name of the function containing the code from which this was created.
    pub function_name: Word,
    /// Syntax tree from which this was created.
    pub syntax_tree: SyntaxTree,
    /// The code.
    pub data: BirData,
    /// Origins of the code's nodes; used to trace back to a source span.
    pub origins: Origins,
}

/// Stores the code of a function.
#[derive(Debug)]
pub struct BirData {
    /// Tables for expressions and the like.
    pub tables: Tables,
    /// First N local variables are the parameters.
    pub num_parameters: usize,
    /// The starting point in the control flow.
    pub start_point: ControlPoint,
}

/// Tables that store the nodes of the code, each indexed by its handle.
#[derive(Debug)]
pub struct Tables {
    pub local_variables: Vec<LocalVariableData>,
    pub control_points: Vec<ControlPointData>,
    pub exprs: Vec<ExprData>,
    pub places: Vec<PlaceData>,
    pub target_places: Vec<TargetPlaceData>,
    pub names: Vec<NameData>,
}

/// Side tables, parallel to [`Tables`], that give for each node the syntax
/// expression it was made from.  Consulted for diagnostics and snapshots only.
#[derive(Debug)]
pub struct Origins {
    pub control_points: Vec<SyntaxExpr>,
    pub exprs: Vec<SyntaxExpr>,
    pub places: Vec<SyntaxExpr>,
    pub target_places: Vec<SyntaxExpr>,
}

#[derive(Debug)]
pub enum ControlPointData {
    Statement(StatementData),
    Terminator(TerminatorData),
}

#[derive(Clone, Copy, Debug)]
pub struct LocalVariableData {
    /// Name given to this variable by the user.  If it is `None`, then this is
    /// a temporary.
    pub name: Option<Word>,
    pub atomic: Atomic,
}

/// A node in the control-flow graph that performs an action and always has
/// exactly one successor.
#[derive(Clone, Copy, Debug)]
pub struct StatementData {
    /// The action to be performed at this statement.
    pub action: ActionData,
    /// Next point in the control flow.
    pub next: ControlPoint,
}

#[derive(Clone, Copy, Debug)]
pub enum ActionData {
    /// No action.
    Noop,
    /// Assign the result of evaluating an expression to a place.
    AssignExpr(TargetPlace, Expr),
    /// Clears the value from the given local variable.
    Clear(LocalVariable),
    /// No effect on the machine.  Marks the moment when the breakpoint with the
    /// given index in the given file is about to start executing.
    BreakpointStart(InputFile, usize),
    /// No effect on the machine.  Marks the moment when the breakpoint with the
    /// given index in the given file has completed and produced the (optional)
    /// place as its value.  The syntax expression is the one that just
    /// completed.
    BreakpointEnd(InputFile, usize, SyntaxExpr, Option<Place>),
}

#[derive(Debug)]
pub enum TerminatorData {
    Goto(ControlPoint),
    If(Place, ControlPoint, ControlPoint),
    StartAtomic(ControlPoint),
    EndAtomic(ControlPoint),
    Return(Place),
    Assign(TargetPlace, TerminatorExpr, ControlPoint),
    Error,
    Panic,
}

#[derive(Debug)]
pub enum TerminatorExpr {
    Await(Place),
    /// Call `function(arguments...)`.  The `labels` for each argument are
    /// present as well.
    Call { function: Place, arguments: Vec<Place>, labels: Vec<Option<Name>> },
}

#[derive(Debug)]
pub enum ExprData {
    /// true, false
    BooleanLiteral(bool),
    /// `22i`
    SignedIntegerLiteral(i64),
    /// `22u`
    UnsignedIntegerLiteral(u64),
    /// `22`
    IntegerLiteral(u64),
    /// `2.2`, held as the bits of its 64-bit representation
    FloatLiteral(u64),
    /// `"foo"` with no format strings
    StringLiteral(Word),
    /// `<value>.share`
    IntoShared(Place),
    /// `<place>.share`
    Share(Place),
    /// `expr.lease`
    Lease(Place),
    /// `expr.give`
    Give(Place),
    /// `()`
    Unit,
    /// `(a, b, ...)`
    Tuple(Vec<Place>),
    /// Concatenates strings from a format literal like `foo{bar}baz`.
    Concatenate(Vec<Place>),
    /// `a + b`
    Op(Place, Op, Place),
    /// `- 1`
    Unary(Op, Place),
    /// parse or other error
    Error,
}

#[derive(Clone, Copy, Debug)]
pub enum PlaceData {
    LocalVariable(LocalVariable),
    Function(Function),
    Class(Class),
    Intrinsic(Intrinsic),
    Dot(Place, Word),
}

#[derive(Clone, Copy, Debug)]
pub enum TargetPlaceData {
    LocalVariable(LocalVariable),
    Dot(Place, Word),
}

#[derive(Clone, Copy, Debug)]
pub struct NameData {
    pub word: Word,
}

/// All places of `places` are in the table of places.
pub open spec fn places_in_range(places: Seq<Place>, tables: &Tables) -> bool {
    forall|i: int| 0 <= i < places.len() ==> (#[trigger] places[i]).index < tables.places@.len()
}

impl ActionData {
    pub open spec fn wf(&self, tables: &Tables) -> bool {
        match *self {
            ActionData::Noop => true,
            ActionData::AssignExpr(target, expr) => {
                &&& target.index < tables.target_places@.len()
                &&& expr.index < tables.exprs@.len()
            },
            ActionData::Clear(local) => local.index < tables.local_variables@.len(),
            ActionData::BreakpointStart(_, _) => true,
            ActionData::BreakpointEnd(_, _, _, place) => place matches Some(p) ==> p.index
                < tables.places@.len(),
        }
    }
}

impl TerminatorExpr {
    pub open spec fn wf(&self, tables: &Tables) -> bool {
        match *self {
            TerminatorExpr::Await(place) => place.index < tables.places@.len(),
            TerminatorExpr::Call { function, arguments, labels } => {
                &&& function.index < tables.places@.len()
                &&& places_in_range(arguments@, tables)
                &&& labels@.len() == arguments@.len()
                &&& forall|i: int|
                    0 <= i < labels@.len() ==> ((#[trigger] labels@[i]) matches Some(n) ==> n.index
                        < tables.names@.len())
            },
        }
    }
}

impl TerminatorData {
    pub open spec fn wf(&self, tables: &Tables) -> bool {
        match *self {
            TerminatorData::Goto(b) => b.index < tables.control_points@.len(),
            TerminatorData::If(place, t, f) => {
                &&& place.index < tables.places@.len()
                &&& t.index < tables.control_points@.len()
                &&& f.index < tables.control_points@.len()
            },
            TerminatorData::StartAtomic(b) => b.index < tables.control_points@.len(),
            TerminatorData::EndAtomic(b) => b.index < tables.control_points@.len(),
            TerminatorData::Return(place) => place.index < tables.places@.len(),
            TerminatorData::Assign(target, expr, next) => {
                &&& target.index < tables.target_places@.len()
                &&& expr.wf(tables)
                &&& next.index < tables.control_points@.len()
            },
            TerminatorData::Error => true,
            TerminatorData::Panic => true,
        }
    }

    /// The control points that may follow this terminator.
    pub open spec fn spec_successors(&self) -> Seq<ControlPoint> {
        match *self {
            TerminatorData::Goto(c) => seq![c],
            TerminatorData::If(_, a, b) => seq![a, b],
            TerminatorData::StartAtomic(a) => seq![a],
            TerminatorData::EndAtomic(a) => seq![a],
            TerminatorData::Return(_) => seq![],
            TerminatorData::Assign(_, _, a) => seq![a],
            TerminatorData::Error => seq![],
            TerminatorData::Panic => seq![],
        }
    }

    /// The control points that may follow this terminator.
    pub fn successors(&self) -> (r: Vec<ControlPoint>)
        ensures
            r@ == self.spec_successors(),
    {
        let r = match self {
            TerminatorData::Goto(c) => vec![*c],
            TerminatorData::If(_, a, b) => vec![*a, *b],
            TerminatorData::StartAtomic(a) => vec![*a],
            TerminatorData::EndAtomic(a) => vec![*a],
            TerminatorData::Return(_) => vec![],
            TerminatorData::Assign(_, _, a) => vec![*a],
            TerminatorData::Error => vec![],
            TerminatorData::Panic => vec![],
        };
        assert(r@ =~= self.spec_successors());
        r
    }
}

impl ControlPointData {
    pub open spec fn wf(&self, tables: &Tables) -> bool {
        match *self {
            ControlPointData::Statement(s) => s.action.wf(tables) && s.next.index
                < tables.control_points@.len(),
            ControlPointData::Terminator(t) => t.wf(tables),
        }
    }

    /// The control points that may follow this one.
    pub open spec fn spec_successors(&self) -> Seq<ControlPoint> {
        match *self {
            ControlPointData::Statement(s) => seq![s.next],
            ControlPointData::Terminator(t) => t.spec_successors(),
        }
    }
}

impl ExprData {
    pub open spec fn wf(&self, tables: &Tables, db: &Db) -> bool {
        match *self {
            ExprData::StringLiteral(w) => w.index < db.words@.len(),
            ExprData::IntoShared(p) => p.index < tables.places@.len(),
            ExprData::Share(p) => p.index < tables.places@.len(),
            ExprData::Lease(p) => p.index < tables.places@.len(),
            ExprData::Give(p) => p.index < tables.places@.len(),
            ExprData::Tuple(places) => places_in_range(places@, tables),
            ExprData::Concatenate(places) => places_in_range(places@, tables),
            ExprData::Op(lhs, _, rhs) => lhs.index < tables.places@.len() && rhs.index
                < tables.places@.len(),
            ExprData::Unary(_, rhs) => rhs.index < tables.places@.len(),
            _ => true,
        }
    }
}

impl PlaceData {
    /// A place is well formed at index `at` of its table when the handles in
    /// it are valid and the place it projects from, if any, stands before it.
    pub open spec fn wf(&self, at: int, tables: &Tables, db: &Db) -> bool {
        match *self {
            PlaceData::LocalVariable(lv) => lv.index < tables.local_variables@.len(),
            PlaceData::Function(f) => f.valid(db),
            PlaceData::Class(c) => c.valid(db),
            PlaceData::Intrinsic(_) => true,
            PlaceData::Dot(base, w) => base.index < at && w.index < db.words@.len(),
        }
    }
}

impl TargetPlaceData {
    pub open spec fn wf(&self, tables: &Tables, db: &Db) -> bool {
        match *self {
            TargetPlaceData::LocalVariable(lv) => lv.index < tables.local_variables@.len(),
            TargetPlaceData::Dot(base, w) => base.index < tables.places@.len() && w.index
                < db.words@.len(),
        }
    }
}

impl Tables {
    /// The control point reached from the start of `block` after `n`
    /// statements, if the block has that many.
    pub open spec fn block_point(&self, block: ControlPoint, n: nat) -> Option<ControlPoint>
        decreases n,
    {
        if block.index >= self.control_points@.len() {
            None
        } else if n == 0 {
            Some(block)
        } else {
            match self.control_points@[block.index as int] {
                ControlPointData::Statement(s) => self.block_point(s.next, (n - 1) as nat),
                ControlPointData::Terminator(_) => None,
            }
        }
    }

    /// After a statement comes the control point that the statement names.
    pub proof fn lemma_block_point_next(&self, block: ControlPoint, n: nat)
        requires
            self.block_point(block, n) is Some,
            self.control_points@[self.block_point(block, n).unwrap().index as int] is Statement,
            self.control_points@[self.block_point(block, n).unwrap().index as int]->Statement_0.next.index
                < self.control_points@.len(),
        ensures
            self.block_point(block, n + 1) == Some(
                self.control_points@[self.block_point(block, n).unwrap().index as int]->Statement_0.next,
            ),
        decreases n,
    {
        if n > 0 {
            match self.control_points@[block.index as int] {
                ControlPointData::Statement(s) => {
                    self.lemma_block_point_next(s.next, (n - 1) as nat);
                },
                ControlPointData::Terminator(_) => {},
            }
        } else {
            let next = self.control_points@[block.index as int]->Statement_0.next;
            assert(self.block_point(next, 0) == Some(next));
        }
    }

    /// A control point that a block reaches is a handle of the table.
    pub proof fn lemma_block_point_in_range(&self, block: ControlPoint, n: nat)
        requires
            self.block_point(block, n) is Some,
        ensures
            self.block_point(block, n).unwrap().index < self.control_points@.len(),
        decreases n,
    {
        if n > 0 {
            match self.control_points@[block.index as int] {
                ControlPointData::Statement(s) => {
                    self.lemma_block_point_in_range(s.next, (n - 1) as nat);
                },
                ControlPointData::Terminator(_) => {},
            }
        }
    }

    /// Every block ends: no chain of statements is longer than the table of
    /// control points.
    pub open spec fn blocks_end(&self) -> bool {
        forall|block: ControlPoint, n: nat| #[trigger]
            self.block_point(block, n) is Some ==> n < self.control_points@.len()
    }

    /// The control point reached from the start of `block` after `n`
    /// statements, if the block has that many.
    pub fn locate(&self, block: ControlPoint, n: usize) -> (r: Option<ControlPoint>)
        ensures
            r == self.block_point(block, n as nat),
            r matches Some(point) ==> point.index < self.control_points@.len(),
    {
        let mut point = block;
        let mut left: usize = n;
        loop
            invariant
                self.block_point(point, left as nat) == self.block_point(block, n as nat),
            decreases left,
        {
            if point.index >= self.control_points.len() {
                return None;
            }
            if left == 0 {
                return Some(point);
            }
            match &self.control_points[point.index] {
                ControlPointData::Statement(s) => {
                    point = s.next;
                    left -= 1;
                },
                ControlPointData::Terminator(_) => {
                    return None;
                },
            }
        }
    }

    pub open spec fn wf(&self, db: &Db) -> bool {
        &&& self.blocks_end()
        &&& forall|i: int|
            0 <= i < self.local_variables@.len() ==> ((#[trigger] self.local_variables@[i]).name matches Some(
                w,
            ) ==> w.index < db.words@.len())
        &&& forall|i: int|
            0 <= i < self.control_points@.len() ==> (#[trigger] self.control_points@[i]).wf(self)
        &&& forall|i: int| 0 <= i < self.exprs@.len() ==> (#[trigger] self.exprs@[i]).wf(self, db)
        &&& forall|i: int| 0 <= i < self.places@.len() ==> (#[trigger] self.places@[i]).wf(i, self, db)
        &&& forall|i: int|
            0 <= i < self.target_places@.len() ==> (#[trigger] self.target_places@[i]).wf(self, db)
        &&& forall|i: int|
            0 <= i < self.names@.len() ==> (#[trigger] self.names@[i]).word.index < db.words@.len()
    }
}

impl Origins {
    /// The side tables are as long as the tables they belong to and name
    /// expressions of `tree`.
    pub open spec fn wf(&self, tables: &Tables, tree: &SyntaxTree) -> bool {
        &&& self.control_points@.len() == tables.control_points@.len()
        &&& self.exprs@.len() == tables.exprs@.len()
        &&& self.places@.len() == tables.places@.len()
        &&& self.target_places@.len() == tables.target_places@.len()
        &&& forall|i: int|
            0 <= i < self.control_points@.len() ==> (#[trigger] self.control_points@[i]).index
                < tree.spans@.len()
        &&& forall|i: int|
            0 <= i < self.exprs@.len() ==> (#[trigger] self.exprs@[i]).index < tree.spans@.len()
        &&& forall|i: int|
            0 <= i < self.places@.len() ==> (#[trigger] self.places@[i]).index < tree.spans@.len()
        &&& forall|i: int|
            0 <= i < self.target_places@.len() ==> (#[trigger] self.target_places@[i]).index
                < tree.spans@.len()
    }
}

impl BirData {
    pub open spec fn wf(&self, db: &Db) -> bool {
        &&& self.tables.wf(db)
        &&& self.num_parameters <= self.tables.local_variables@.len()
        &&& self.start_point.index < self.tables.control_points@.len()
    }

    pub fn new(tables: Tables, num_parameters: usize, start_point: ControlPoint) -> (r: Self)
        ensures
            r.tables == tables,
            r.num_parameters == num_parameters,
            r.start_point == start_point,
    {
        Self { tables, num_parameters, start_point }
    }

    pub fn tables(&self) -> (r: &Tables)
        ensures
            *r == self.tables,
    {
        &self.tables
    }

    pub fn num_parameters(&self) -> (r: usize)
        ensures
            r == self.num_parameters,
    {
        self.num_parameters
    }

    /// The parameters: the first `num_parameters` local variables, in order.
    pub fn parameters(&self) -> (r: Vec<LocalVariable>)
        ensures
            r@.len() == self.num_parameters,
            forall|i: int| 0 <= i < r@.len() ==> (#[trigger] r@[i]).index == i,
    {
        let mut r: Vec<LocalVariable> = Vec::new();
        let mut i: usize = 0;
        while i < self.num_parameters
            invariant
                i <= self.num_parameters,
                r@.len() == i,
                forall|j: int| 0 <= j < r@.len() ==> (#[trigger] r@[j]).index == j,
            decreases self.num_parameters - i,
        {
            r.push(LocalVariable { index: i });
            i += 1;
        }
        r
    }

    /// The bound of the local variables: every local variable of this code
    /// has a handle strictly below the one returned.
    pub fn max_local_variable(&self) -> (r: LocalVariable)
        ensures
            r.index == self.tables.local_variables@.len(),
    {
        LocalVariable { index: self.tables.local_variables.len() }
    }
}

impl BirData {
    /// Whether `b` is a control point of the code that may follow `a`.
    pub open spec fn follows(&self, a: ControlPoint, b: ControlPoint) -> bool {
        &&& a.index < self.tables.control_points@.len()
        &&& b.index < self.tables.control_points@.len()
        &&& a.spec_successors(self).contains(b)
    }

    /// Whether `path` leads from the start point along successors.
    pub open spec fn is_path(&self, path: Seq<ControlPoint>) -> bool {
        &&& path.len() > 0
        &&& path[0] == self.start_point
        &&& self.start_point.index < self.tables.control_points@.len()
        &&& forall|i: int| 0 <= i < path.len() - 1 ==> self.follows(#[trigger] path[i], path[i + 1])
    }

    /// Whether control can reach `point` from the start point.
    pub open spec fn reaches(&self, point: ControlPoint) -> bool {
        exists|path: Seq<ControlPoint>| #[trigger] self.is_path(path) && path.last() == point
    }

    /// The marks mark only what control can reach.
    pub open spec fn marks_sound(&self, marks: Seq<bool>) -> bool {
        forall|i: int|
            0 <= i < marks.len() && #[trigger] marks[i] ==> self.reaches(
                ControlPoint { index: i as usize },
            )
    }

    /// The marks are closed under successors.
    pub open spec fn marks_closed(&self, marks: Seq<bool>) -> bool {
        forall|a: ControlPoint, b: ControlPoint|
            a.index < marks.len() && marks[a.index as int] && #[trigger] self.follows(a, b)
                ==> marks[b.index as int]
    }

    proof fn lemma_reaches_step(&self, a: ControlPoint, b: ControlPoint)
        requires
            self.reaches(a),
            self.follows(a, b),
        ensures
            self.reaches(b),
    {
        let path = choose|path: Seq<ControlPoint>| #[trigger] self.is_path(path) && path.last() == a;
        let longer = path.push(b);
        assert forall|i: int| 0 <= i < longer.len() - 1 implies self.follows(
            #[trigger] longer[i],
            longer[i + 1],
        ) by {
            if i < path.len() - 1 {
                assert(self.follows(path[i], path[i + 1]));
            }
        }
        assert(self.is_path(longer));
        assert(longer.last() == b);
    }

    proof fn lemma_path_marked(&self, marks: Seq<bool>, path: Seq<ControlPoint>, k: int)
        requires
            marks.len() == self.tables.control_points@.len(),
            self.start_point.index < marks.len() ==> marks[self.start_point.index as int],
            self.marks_closed(marks),
            self.is_path(path),
            0 <= k < path.len(),
        ensures
            path[k].index < marks.len(),
            marks[path[k].index as int],
        decreases k,
    {
        if k > 0 {
            self.lemma_path_marked(marks, path, k - 1);
            assert(self.follows(path[k - 1], path[k]));
        }
    }

    /// Goes once over the marked control points and marks their successors.
    fn mark_pass(&self, marks: &mut Vec<bool>) -> (changed: bool)
        requires
            old(marks)@.len() == self.tables.control_points@.len(),
            self.marks_sound(old(marks)@),
        ensures
            final(marks)@.len() == old(marks)@.len(),
            self.marks_sound(final(marks)@),
            forall|i: int| 0 <= i < old(marks)@.len() && old(marks)@[i] ==> final(marks)@[i],
            !changed ==> self.marks_closed(final(marks)@),
            changed ==> unmarked(final(marks)@) < unmarked(old(marks)@),
    {
        let ghost start = marks@;
        let mut changed = false;
        let mut i: usize = 0;
        while i < marks.len()
            invariant
                i <= marks@.len(),
                marks@.len() == self.tables.control_points@.len(),
                start.len() == marks@.len(),
                self.marks_sound(marks@),
                forall|j: int| 0 <= j < start.len() && start[j] ==> marks@[j],
                !changed ==> marks@ == start,
                changed ==> unmarked(marks@) < unmarked(start),
                forall|a: ControlPoint, b: ControlPoint|
                    a.index < i && start[a.index as int] && #[trigger] self.follows(a, b)
                        ==> marks@[b.index as int],
            decreases marks@.len() - i,
        {
            let point = ControlPoint { index: i };
            if marks[i] {
                let successors = point.successors(self);
                let mut k: usize = 0;
                while k < successors.len()
                    invariant
                        k <= successors@.len(),
                        i < marks@.len(),
                        point == (ControlPoint { index: i }),
                        successors@ == point.spec_successors(self),
                        marks@.len() == self.tables.control_points@.len(),
                        start.len() == marks@.len(),
                        self.marks_sound(marks@),
                        marks@[i as int],
                        forall|j: int| 0 <= j < start.len() && start[j] ==> marks@[j],
                        !changed ==> marks@ == start,
                        changed ==> unmarked(marks@) < unmarked(start),
                        forall|a: ControlPoint, b: ControlPoint|
                            a.index < i && start[a.index as int] && #[trigger] self.follows(a, b)
                                ==> marks@[b.index as int],
                        forall|j: int|
                            0 <= j < k && (#[trigger] successors@[j]).index < marks@.len()
                                ==> marks@[successors@[j].index as int],
                    decreases successors@.len() - k,
                {
                    let next = successors[k];
                    if next.index < marks.len() && !marks[next.index] {
                        proof {
                            lemma_mark_decreases(marks@, next.index as int);
                            assert(self.follows(point, next));
                            assert(self.reaches(point));
                            self.lemma_reaches_step(point, next);
                        }
                        let ghost before = marks@;
                        marks[next.index] = true;
                        proof {
                            assert forall|j: int| 0 <= j < marks@.len() && #[trigger] marks@[j] implies self.reaches(
                                ControlPoint { index: j as usize },
                            ) by {
                                if j != next.index {
                                    assert(before[j]);
                                }
                            }
                        }
                        changed = true;
                    }
                    k += 1;
                }
                proof {
                    assert forall|b: ControlPoint| #[trigger] self.follows(point, b) implies marks@[b.index as int] by {
                        let j = choose|j: int|
                            0 <= j < successors@.len() && successors@[j] == b;
                        assert(successors@[j].index < marks@.len());
                    }
                }
            }
            proof {
                assert forall|a: ControlPoint, b: ControlPoint|
                    a.index < i + 1 && start[a.index as int] && #[trigger] self.follows(
                        a,
                        b,
                    ) implies marks@[b.index as int] by {
                    if a.index == i {
                        assert(a == point);
                    }
                }
            }
            i += 1;
        }
        changed
    }

    /// The control points that control can reach from the start point, each
    /// once, in the order of their handles.
    pub fn control_points(&self) -> (points: Vec<ControlPoint>)
        ensures
            forall|p: ControlPoint| points@.contains(p) <==> self.reaches(p),
            forall|i: int, j: int|
                0 <= i < j < points@.len() ==> (#[trigger] points@[i]).index < (#[trigger] points@[j]).index,
    {
        let n = self.tables.control_points.len();
        let mut marks = no_marks(n);
        if self.start_point.index < n {
            marks[self.start_point.index] = true;
            proof {
                let path = seq![self.start_point];
                assert(self.is_path(path));
                assert(path.last() == self.start_point);
                assert forall|i: int| 0 <= i < marks@.len() && #[trigger] marks@[i] implies self.reaches(
                    ControlPoint { index: i as usize },
                ) by {
                    assert(i == self.start_point.index);
                }
            }
        }
        loop
            invariant_except_break
                marks@.len() == n,
                n == self.tables.control_points@.len(),
                self.marks_sound(marks@),
                self.start_point.index < n ==> marks@[self.start_point.index as int],
            ensures
                marks@.len() == n,
                n == self.tables.control_points@.len(),
                self.marks_sound(marks@),
                self.start_point.index < n ==> marks@[self.start_point.index as int],
                self.marks_closed(marks@),
            decreases unmarked(marks@),
        {
            let changed = self.mark_pass(&mut marks);
            if !changed {
                break ;
            }
        }
        let mut points: Vec<ControlPoint> = Vec::new();
        let mut i: usize = 0;
        while i < n
            invariant
                i <= n,
                marks@.len() == n,
                forall|p: ControlPoint| points@.contains(p) <==> p.index < i && marks@[p.index as int],
                forall|a: int, b: int|
                    0 <= a < b < points@.len() ==> (#[trigger] points@[a]).index < (
                    #[trigger] points@[b]).index,
                forall|a: int| 0 <= a < points@.len() ==> (#[trigger] points@[a]).index < i,
            decreases n - i,
        {
            if marks[i] {
                let ghost before = points@;
                points.push(ControlPoint { index: i });
                proof {
                    assert forall|p: ControlPoint| points@.contains(p) <==> p.index < i + 1
                        && marks@[p.index as int] by {
                        if points@.contains(p) {
                            let k = choose|k: int| 0 <= k < points@.len() && points@[k] == p;
                            if k < before.len() {
                                assert(before.contains(p));
                            }
                        }
                        if p.index < i + 1 && marks@[p.index as int] {
                            if p.index == i {
                                assert(points@[points@.len() - 1] == p);
                            } else {
                                assert(before.contains(p));
                                let k = choose|k: int| 0 <= k < before.len() && before[k] == p;
                                assert(points@[k] == p);
                            }
                        }
                    }
                }
            }
            i += 1;
        }
        proof {
            assert forall|p: ControlPoint| points@.contains(p) <==> self.reaches(p) by {
                if points@.contains(p) {
                    assert(marks@[p.index as int]);
                }
                if self.reaches(p) {
                    let path = choose|path: Seq<ControlPoint>| #[trigger]
                        self.is_path(path) && path.last() == p;
                    self.lemma_path_marked(marks@, path, path.len() - 1);
                }
            }
        }
        points
    }
}

impl ControlPoint {
    /// The control points that may follow this one in `bir_data`.
    pub open spec fn spec_successors(&self, bir_data: &BirData) -> Seq<ControlPoint> {
        bir_data.tables.control_points@[self.index as int].spec_successors()
    }

    /// The control points that may follow this one in `bir_data`.
    pub fn successors(&self, bir_data: &BirData) -> (r: Vec<ControlPoint>)
        requires
            self.index < bir_data.tables.control_points@.len(),
        ensures
            r@ == self.spec_successors(bir_data),
    {
        match &bir_data.tables.control_points[self.index] {
            ControlPointData::Statement(s) => {
                let r = vec![s.next];
                assert(r@ =~= self.spec_successors(bir_data));
                r
            },
            ControlPointData::Terminator(t) => t.successors(),
        }
    }
}

impl BirRecord {
    /// The syntax expressions that the statements of the code name are
    /// expressions of the syntax tree.
    pub open spec fn breakpoints_wf(&self) -> bool {
        forall|i: int|
            0 <= i < self.data.tables.control_points@.len() ==> (
            #[trigger] self.data.tables.control_points@[i] matches ControlPointData::Statement(s)
                ==> (s.action matches ActionData::BreakpointEnd(_, _, e, _) ==> e.index
                < self.syntax_tree.spans@.len()))
    }

    pub open spec fn wf(&self, db: &Db) -> bool {
        &&& self.function_name.index < db.words@.len()
        &&& self.data.wf(db)
        &&& self.origins.wf(&self.data.tables, &self.syntax_tree)
        &&& self.breakpoints_wf()
    }

    /// Where `syntax_node` stands in the source.
    pub open spec fn spec_span_of(&self, syntax_node: SyntaxExpr) -> FileSpan {
        let span = self.syntax_tree.spans@[syntax_node.index as int];
        FileSpan { input_file: self.input_file, start: span.start, end: span.end }
    }
}

impl Bir {
    pub open spec fn valid(self, db: &Db) -> bool {
        self.index < db.birs@.len()
    }

    pub open spec fn record(self, db: &Db) -> BirRecord {
        db.birs@[self.index as int]
    }

    /// The file containing the code from which this was created.
    pub fn input_file(self, db: &Db) -> (file: InputFile)
        requires
            self.valid(db),
        ensures
            file == self.record(db).input_file,
    {
        db.birs[self.index].input_file
    }

    /// Everything the program holds about this code.
    pub fn get<'a>(self, db: &'a Db) -> (r: &'a BirRecord)
        requires
            self.valid(db),
        ensures
            *r == self.record(db),
    {
        &db.birs[self.index]
    }

    /// Given a `syntax_node` of the tree this code was made from, find its
    /// span.
    pub fn span_of(self, db: &Db, syntax_node: SyntaxExpr) -> (r: FileSpan)
        requires
            self.valid(db),
            syntax_node.index < self.record(db).syntax_tree.spans@.len(),
        ensures
            r == self.record(db).spec_span_of(syntax_node),
    {
        let record = &db.birs[self.index];
        record.syntax_tree.spans[syntax_node.index].in_file(record.input_file)
    }
}

} // verus!
