//! What holds of the permission algebra whatever the program.
use vstd::prelude::*;
use crate::fault::{Fault, FaultKind};
use crate::model::{MachineModel, Permission, PermissionData, PermissionKind, Slot, Value};
use crate::span::FileSpan;
use crate::step::gc::{lemma_reachable_step, lemma_root_reachable, Node};
use crate::step::links::{
    entry_linked, lemma_revoke_at, lemma_revoke_links, nth_lessor, nth_tenant,
};
use crate::step::traversal::{ObjectTraversalModel, SlotAddress};

verus! {

/// Going `a` links down the chain of tenants and then `b` more is going
/// `a + b` links down.
pub proof fn lemma_nth_tenant_compose(
    permissions: Seq<Option<PermissionData>>,
    p: Permission,
    a: nat,
    q: Permission,
    b: nat,
)
    requires
        nth_tenant(permissions, p, a) == Some(q),
    ensures
        nth_tenant(permissions, p, a + b) == nth_tenant(permissions, q, b),
    decreases a,
{
    if a > 0 {
        let t = permissions[p.index as int].unwrap().tenant.unwrap();
        lemma_nth_tenant_compose(permissions, t, (a - 1) as nat, q, b);
    }
}

/// A revocation either leaves a chain of tenants as it is or cancels its
/// end.
pub proof fn lemma_revoke_spares_or_cancels(m: MachineModel, x: Permission, from: Permission, n: nat)
    requires
        m.links_wf(),
        nth_tenant(m.permissions, from, n) is Some,
    ensures
        m.revoke(x).canceled(nth_tenant(m.permissions, from, n).unwrap()) || nth_tenant(
            m.revoke(x).permissions,
            from,
            n,
        ) == nth_tenant(m.permissions, from, n),
    decreases n,
{
    let end = nth_tenant(m.permissions, from, n).unwrap();
    lemma_revoke_links(m, x);
    lemma_revoke_at(m, x, from);
    crate::step::links::lemma_cancel_chain_reaches(m.permissions, from, m.pc(), n);
    lemma_revoke_at(m, x, end);
    if n > 0 {
        let t = m.permissions[from.index as int].unwrap().tenant.unwrap();
        let r = m.revoke(x).permissions;
        if r[from.index as int] == m.permissions[from.index as int] {
            lemma_revoke_spares_or_cancels(m, x, t, (n - 1) as nat);
        } else if exists|j: nat| nth_tenant(m.permissions, x, j) == Some(from) {
            // The chain from `x` goes through `from`, and on to the end.
            let j = choose|j: nat| nth_tenant(m.permissions, x, j) == Some(from);
            lemma_nth_tenant_compose(m.permissions, x, j, from, n);
        } else {
            // `from` has lost `x` as its tenant: the chain goes on from `x`.
            assert(t == x);
            assert(nth_tenant(m.permissions, x, (n - 1) as nat) == Some(end));
        }
    }
}

/// Revoking the tenants of a list of permissions that holds `lessor` cancels
/// everything down the chain of tenants from `lessor`.
pub proof fn lemma_revoke_tenants_doom(
    m: MachineModel,
    permissions: Seq<Permission>,
    from: int,
    lessor: Permission,
    n: nat,
    tenant: Permission,
)
    requires
        m.links_wf(),
        0 <= from,
        n >= 1,
        m.canceled(tenant) || (nth_tenant(m.permissions, lessor, n) == Some(tenant) && exists|i: int|
            from <= i < permissions.len() && permissions[i] == lessor),
    ensures
        m.revoke_tenants(permissions, from).links_wf(),
        m.revoke_tenants(permissions, from).canceled(tenant),
    decreases permissions.len() - from,
{
    if from < permissions.len() {
        let first = permissions[from];
        let next = m.revoke_tenant(first);
        match m.tenant(first) {
            Some(t) => {
                lemma_revoke_links(m, t);
                if !m.canceled(tenant) {
                    lemma_revoke_spares_or_cancels(m, t, lessor, n);
                    if first == lessor {
                        // The chain from the tenant of `lessor` reaches `tenant`.
                        assert(entry_linked(m.permissions, lessor));
                        assert(nth_tenant(m.permissions, t, (n - 1) as nat) == Some(tenant));
                        lemma_revoke_at(m, t, tenant);
                    }
                }
            },
            None => {},
        }
        if !m.canceled(tenant) && !next.canceled(tenant) {
            let i = choose|i: int| from <= i < permissions.len() && permissions[i] == lessor;
            assert(i != from);
            assert(from + 1 <= i < permissions.len() && permissions[i] == lessor);
        }
        lemma_revoke_tenants_doom(next, permissions, from + 1, lessor, n, tenant);
    }
}

/// Storing into a slot never revives a permission.
pub proof fn lemma_write_slot_keeps_canceled(m: MachineModel, address: SlotAddress, slot: Slot, p: Permission)
    requires
        m.links_wf(),
        m.canceled(p),
    ensures
        m.write_slot(address, slot).canceled(p),
        m.write_slot(address, slot).links_wf(),
{
    match m.slot_at(address) {
        Some(occupant) => {
            match m.tenant(occupant.permission) {
                Some(t) => {
                    lemma_revoke_links(m, t);
                    assert(m.revoke(t).canceled(p));
                },
                None => {},
            }
        },
        None => {},
    }
    let revoked = match m.slot_at(address) {
        Some(occupant) => match m.permission(occupant.permission) {
            Some(data) => if data.spec_exclusive() {
                m.revoke_tenant(occupant.permission)
            } else {
                m
            },
            None => m,
        },
        None => m,
    };
    assert(revoked.canceled(p));
    assert(revoked.links_wf());
    assert(revoked.set_slot(address, slot).permissions == revoked.permissions);
}

/// Writing through a lessor cancels the leases below it.
///
/// If `tenant` is one link or more down the chain of tenants from `lessor`,
/// and `lessor` is among the permissions `traversed` on the path to a slot,
/// then after the write to the slot `tenant` is canceled, and a traversal that
/// meets a value held through `tenant` faults with a use of a canceled
/// permission.
pub proof fn law_write_cancels_lease(
    m: MachineModel,
    traversed: Seq<Permission>,
    address: SlotAddress,
    slot: Slot,
    lessor: Permission,
    n: nat,
    tenant: Permission,
    value: Value,
    path: Seq<Permission>,
    origin: Option<SlotAddress>,
    span: FileSpan,
)
    requires
        m.links_wf(),
        n >= 1,
        nth_tenant(m.permissions, lessor, n) == Some(tenant),
        traversed.contains(lessor),
        value.permission == tenant,
    ensures
        m.revoke_tenants(traversed, 0).write_slot(address, slot).canceled(tenant),
        m.revoke_tenants(traversed, 0).write_slot(address, slot).found(Some(value), path, origin, span)
            == Err::<ObjectTraversalModel, Fault>(
            Fault { kind: FaultKind::UseOfCanceledPermission, span },
        ),
{
    lemma_revoke_tenants_doom(m, traversed, 0, lessor, n, tenant);
    lemma_write_slot_keeps_canceled(m.revoke_tenants(traversed, 0), address, slot, tenant);
}

/// An assignment through a lessor cancels the leases below it.
///
/// If resolving the target of an assignment meets `lessor` on the path to the
/// slot, and `tenant` is one link or more down the chain of tenants from
/// `lessor`, then `tenant` is canceled once the assignment is done.
pub proof fn law_assignment_cancels_lease(
    m: MachineModel,
    db: &crate::db::Db,
    code: &crate::bir::BirRecord,
    target: crate::bir::TargetPlace,
    value: Value,
    lessor: Permission,
    n: nat,
    tenant: Permission,
)
    requires
        m.traverse_to_place(db, code, target).0.links_wf(),
        m.traverse_to_place(db, code, target).1 is Ok,
        m.traverse_to_place(db, code, target).1.unwrap().traversed.contains(lessor),
        n >= 1,
        nth_tenant(m.traverse_to_place(db, code, target).0.permissions, lessor, n) == Some(tenant),
    ensures
        m.assign_place(db, code, target, value).1 is Ok,
        m.assign_place(db, code, target, value).0.canceled(tenant),
{
    let (m1, r) = m.traverse_to_place(db, code, target);
    let t = r.unwrap();
    lemma_revoke_tenants_doom(m1, t.traversed, 0, lessor, n, tenant);
    lemma_write_slot_keeps_canceled(m1.revoke_tenants(t.traversed, 0), t.address, Some(value), tenant);
}

/// Installing a new tenant cancels the prior tenant and all its transitive
/// tenants.
///
/// If `prior` is the tenant of `lessor` and `descendant` is any number of
/// links down the chain of tenants from `prior`, then after `tenant` has been
/// installed on `lessor`, `descendant` is canceled.
pub proof fn law_install_cancels_subtree(
    m: MachineModel,
    lessor: Permission,
    tenant: Permission,
    prior: Permission,
    n: nat,
    descendant: Permission,
)
    requires
        m.links_wf(),
        m.tenant(lessor) == Some(prior),
        nth_tenant(m.permissions, prior, n) == Some(descendant),
    ensures
        m.install_tenant(lessor, tenant).canceled(descendant),
{
    crate::step::links::lemma_cancel_chain_reaches(m.permissions, prior, m.pc(), n);
    lemma_revoke_at(m, prior, descendant);
    let revoked = m.revoke(prior);
    assert(revoked.canceled(descendant));
    assert(revoked == m.revoke_tenant(lessor));
}

/// Revoking the tenant of any permission leaves an owner as it is, but for
/// its tenant: an owner has no lessor, so it is down no chain of tenants.
pub proof fn lemma_revoke_keeps_owner(m: MachineModel, x: Permission, owner: Permission)
    requires
        m.links_wf(),
        m.permission(owner) is Some,
        m.permission(owner).unwrap().lessor is None,
        m.permission(x) is Some ==> m.permission(x).unwrap().lessor is Some,
    ensures
        m.revoke(x).links_wf(),
        m.revoke(x).permission(owner) is Some,
        m.revoke(x).permission(owner).unwrap().kind == m.permission(owner).unwrap().kind,
        m.revoke(x).permission(owner).unwrap().lessor is None,
        m.revoke(x).permission(owner).unwrap().canceled == m.permission(owner).unwrap().canceled,
{
    lemma_revoke_links(m, x);
    lemma_revoke_at(m, x, owner);
    if exists|n: nat| nth_tenant(m.permissions, x, n) == Some(owner) {
        let n = choose|n: nat| nth_tenant(m.permissions, x, n) == Some(owner);
        if n > 0 {
            crate::step::links::lemma_nth_tenant_pred(m.permissions, x, n);
            let u = nth_tenant(m.permissions, x, (n - 1) as nat).unwrap();
            assert(entry_linked(m.permissions, u));
        }
    }
}

/// Reading through any path leaves an owner as it is, but for its tenant.
pub proof fn lemma_read_keeps_owner(m: MachineModel, permissions: Seq<Permission>, from: int, owner: Permission)
    requires
        m.links_wf(),
        m.permission(owner) is Some,
        m.permission(owner).unwrap().lessor is None,
    ensures
        m.revoke_leased_tenants(permissions, from).links_wf(),
        m.revoke_leased_tenants(permissions, from).permission(owner) is Some,
        m.revoke_leased_tenants(permissions, from).permission(owner).unwrap().kind == m.permission(
            owner,
        ).unwrap().kind,
        m.revoke_leased_tenants(permissions, from).permission(owner).unwrap().lessor is None,
        m.revoke_leased_tenants(permissions, from).permission(owner).unwrap().canceled == m.permission(
            owner,
        ).unwrap().canceled,
    decreases permissions.len() - from,
{
    if 0 <= from < permissions.len() {
        let q = permissions[from];
        match m.tenant(q) {
            Some(x) => {
                assert(entry_linked(m.permissions, q));
                lemma_revoke_keeps_owner(m, x, owner);
            },
            None => {},
        }
        lemma_read_keeps_owner(m.revoke_leased_tenant(q), permissions, from + 1, owner);
    }
}

/// Sharing what is uniquely owned demotes it, and a give that follows
/// duplicates.
///
/// If a traversal finds a value held through a permission `My` that is not
/// canceled, sharing it returns the same value and leaves its permission
/// `Our`.  Giving the value afterwards, from wherever it is found, returns it
/// once more, through the same permission, and changes nothing: the place
/// from which it is given stays initialized.
pub proof fn law_share_then_give_duplicates(
    m: MachineModel,
    traversal: ObjectTraversalModel,
    again: ObjectTraversalModel,
    clearing: bool,
    span: FileSpan,
)
    requires
        m.links_wf(),
        m.permission(traversal.value.permission) is Some,
        m.permission(traversal.value.permission).unwrap().kind == PermissionKind::My,
        !m.permission(traversal.value.permission).unwrap().canceled,
        again.value == traversal.value,
    ensures
        m.share(traversal, span).1 == Ok::<Value, Fault>(traversal.value),
        m.share(traversal, span).0.permission(traversal.value.permission) is Some,
        m.share(traversal, span).0.permission(traversal.value.permission).unwrap().kind
            == PermissionKind::Our,
        !m.share(traversal, span).0.permission(traversal.value.permission).unwrap().canceled,
        m.share(traversal, span).0.give(again, clearing, span) == (
            m.share(traversal, span).0,
            Ok::<Value, Fault>(traversal.value),
        ),
{
    let p = traversal.value.permission;
    assert(entry_linked(m.permissions, p));
    lemma_read_keeps_owner(m, traversal.traversed, 0, p);
}

/// The collector keeps the ancestors of what is live.
///
/// If a value of the permission `p` stands in a slot of a frame, is in
/// flight or is among `extra`, and `ancestor` is any number of links up the
/// chain of lessors from `p`, then collecting does not reclaim `ancestor`:
/// it stays allocated, with its kind, its lessor and its cancellation as they
/// were.
pub proof fn law_gc_keeps_ancestors(
    m: MachineModel,
    extra: Seq<Value>,
    p: Permission,
    n: nat,
    ancestor: Permission,
)
    requires
        m.is_root(extra, Node::Permission(p)),
        nth_lessor(m.permissions, p, n) == Some(ancestor),
    ensures
        m.reachable(extra, Node::Permission(ancestor)),
        m.permission(ancestor) is Some,
        m.gc(extra).permission(ancestor) is Some,
        m.gc(extra).permission(ancestor).unwrap().kind == m.permission(ancestor).unwrap().kind,
        m.gc(extra).permission(ancestor).unwrap().lessor == m.permission(ancestor).unwrap().lessor,
        m.gc(extra).permission(ancestor).unwrap().canceled == m.permission(ancestor).unwrap().canceled,
{
    lemma_root_reachable(m, extra, Node::Permission(p));
    lemma_lessors_reachable(m, extra, p, n);
    assert(ancestor.index < m.permissions.len());
    assert(m.live_permissions(extra)[ancestor.index as int]);
}

/// Whatever is up the chain of lessors from something reachable is reachable.
pub proof fn lemma_lessors_reachable(m: MachineModel, extra: Seq<Value>, p: Permission, n: nat)
    requires
        m.reachable(extra, Node::Permission(p)),
        nth_lessor(m.permissions, p, n) is Some,
    ensures
        m.reachable(extra, Node::Permission(nth_lessor(m.permissions, p, n).unwrap())),
        nth_lessor(m.permissions, p, n).unwrap().index < m.permissions.len(),
        m.permissions[nth_lessor(m.permissions, p, n).unwrap().index as int] is Some,
    decreases n,
{
    if n > 0 {
        let l = m.permissions[p.index as int].unwrap().lessor.unwrap();
        assert(nth_lessor(m.permissions, l, (n - 1) as nat) is Some);
        assert(m.edge(Node::Permission(p), Node::Permission(l)));
        lemma_reachable_step(m, extra, Node::Permission(p), Node::Permission(l));
        lemma_lessors_reachable(m, extra, l, (n - 1) as nat);
    }
}

} // verus!
