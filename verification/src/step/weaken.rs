//! Revocation only weakens: it cancels permissions and detaches tenants, and
//! does nothing else to the table of permissions.
use vstd::prelude::*;
use crate::bir::LocalVariable;
use crate::model::{MachineModel, Permission, PermissionData, ProgramCounter, Slot};
use crate::step::links::lemma_cancel_chain_only_cancels;
use crate::step::revoke::{cancel_chain, canceled_data};
use crate::step::shape::{lemma_revoke_keeps, lemma_set_slot_keeps_shape};
use crate::step::traversal::SlotAddress;

verus! {

/// Whether `after` is `before`, weakened: it has lost a tenant or not, and
/// has been canceled at `at` or not, and is otherwise what it was.
pub open spec fn entry_weakened(before: PermissionData, after: PermissionData, at: Option<ProgramCounter>) -> bool {
    &&& after.kind == before.kind
    &&& after.lessor == before.lessor
    &&& after.tenant == before.tenant || after.tenant is None
    &&& before.canceled ==> after.canceled && after.canceled_at == before.canceled_at
    &&& after.canceled && !before.canceled ==> after.canceled_at == at
}

/// Whether the table `after` is the table `before` with some entries
/// weakened.
pub open spec fn weakened(
    before: Seq<Option<PermissionData>>,
    after: Seq<Option<PermissionData>>,
    at: Option<ProgramCounter>,
) -> bool {
    &&& after.len() == before.len()
    &&& forall|q: int|
        0 <= q < before.len() ==> match (before[q], #[trigger] after[q]) {
            (Some(b), Some(a)) => entry_weakened(b, a, at),
            (None, None) => true,
            _ => false,
        }
}

/// Weakening twice, with cancellations attributed to the same place, is
/// weakening.
pub proof fn lemma_weakened_trans(
    a: Seq<Option<PermissionData>>,
    b: Seq<Option<PermissionData>>,
    c: Seq<Option<PermissionData>>,
    at: Option<ProgramCounter>,
)
    requires
        weakened(a, b, at),
        weakened(b, c, at),
    ensures
        weakened(a, c, at),
{
    assert forall|q: int| 0 <= q < a.len() implies match (a[q], #[trigger] c[q]) {
        (Some(x), Some(z)) => entry_weakened(x, z, at),
        (None, None) => true,
        _ => false,
    } by {
        assert(match (a[q], b[q]) {
            (Some(x), Some(y)) => entry_weakened(x, y, at),
            (None, None) => true,
            _ => false,
        });
    }
}

/// Revoking weakens, and attributes what it cancels to where the machine
/// stands.
pub proof fn lemma_revoke_weakens(m: MachineModel, p: Permission)
    ensures
        weakened(m.permissions, m.revoke(p).permissions, m.pc()),
        weakened(m.permissions, m.revoke_tenant(p).permissions, m.pc()),
        weakened(m.permissions, m.revoke_leased_tenant(p).permissions, m.pc()),
{
    lemma_revoke_weakens_one(m, p);
    match m.tenant(p) {
        Some(t) => {
            lemma_revoke_weakens_one(m, t);
        },
        None => {},
    }
}

proof fn lemma_revoke_weakens_one(m: MachineModel, p: Permission)
    ensures
        weakened(m.permissions, m.revoke(p).permissions, m.pc()),
{
    let d = m.detach(p);
    let at = m.pc();
    lemma_cancel_chain_only_cancels(d.permissions, p, at);
    let r = cancel_chain(d.permissions, p, at);
    assert forall|q: int| 0 <= q < m.permissions.len() implies match (m.permissions[q], #[trigger] r[q]) {
        (Some(b), Some(a)) => entry_weakened(b, a, at),
        (None, None) => true,
        _ => false,
    } by {
        assert(r[q] == d.permissions[q] || (d.permissions[q] is Some && r[q] == Some(
            canceled_data(d.permissions[q].unwrap(), at),
        )));
    }
}

/// A table is itself, weakened.
pub proof fn lemma_weakened_refl(a: Seq<Option<PermissionData>>, at: Option<ProgramCounter>)
    ensures
        weakened(a, a, at),
{
}

/// Storing into a slot weakens.
pub proof fn lemma_write_slot_weakens(m: MachineModel, address: SlotAddress, slot: Slot)
    ensures
        weakened(m.permissions, m.write_slot(address, slot).permissions, m.pc()),
        m.write_slot(address, slot).pc() == m.pc(),
{
    lemma_set_slot_keeps_shape(m, address, slot);
    match m.slot_at(address) {
        Some(occupant) => {
            lemma_revoke_weakens(m, occupant.permission);
            lemma_revoke_keeps(m, occupant.permission);
        },
        None => {},
    }
    let revoked = match m.slot_at(address) {
        Some(occupant) => match m.permission(occupant.permission) {
            Some(data) => if data.spec_exclusive() {
                m.revoke_tenant(occupant.permission)
            } else {
                m
            },
            None => m,
        },
        None => m,
    };
    assert(revoked.set_slot(address, slot).permissions == revoked.permissions);
    assert(m.same_shape(m.write_slot(address, slot)));
    if m.stack.len() > 0 {
        assert(m.stack[m.stack.len() - 1].pc == m.write_slot(address, slot).stack[m.stack.len() - 1].pc);
    }
}

/// Clearing slots of the top frame weakens.
pub proof fn lemma_clear_from_weakens(m: MachineModel, from: int)
    ensures
        weakened(m.permissions, m.clear_from(from).permissions, m.pc()),
        m.clear_from(from).pc() == m.pc(),
    decreases
        (match m.top_frame() {
            Some(frame) => frame.variables.len() - from,
            None => 0,
        }),
{
    match m.top_frame() {
        Some(frame) => if 0 <= from < frame.variables.len() {
            let local = LocalVariable { index: from as usize };
            lemma_write_slot_weakens(m, SlotAddress::Local(local), None);
            let cleared = m.clear(local);
            if cleared.top_frame() is Some && cleared.top_frame().unwrap().variables.len()
                == frame.variables.len() {
                lemma_clear_from_weakens(cleared, from + 1);
                lemma_weakened_trans(
                    m.permissions,
                    cleared.permissions,
                    cleared.clear_from(from + 1).permissions,
                    m.pc(),
                );
            }
        },
        None => {},
    }
}

/// What dies with a frame is canceled in the callee.
///
/// Clearing the top frame cancels permissions and does nothing else to them.
/// Every permission that it cancels is attributed to the program counter of
/// the frame that is cleared, and popping the frame afterwards changes no
/// permission.
pub proof fn law_clear_frame_cancels_in_callee(m: MachineModel, q: Permission)
    requires
        !m.canceled(q),
        m.clear_frame().canceled(q),
    ensures
        m.clear_frame().permission(q) is Some,
        m.clear_frame().permission(q).unwrap().canceled_at == m.pc(),
        m.clear_frame().pop_frame().permissions == m.clear_frame().permissions,
{
    lemma_clear_from_weakens(m, 0);
    assert(match (m.permissions[q.index as int], m.clear_frame().permissions[q.index as int]) {
        (Some(b), Some(a)) => entry_weakened(b, a, m.pc()),
        (None, None) => true,
        _ => false,
    });
}

} // verus!
