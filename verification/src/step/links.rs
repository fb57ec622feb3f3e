//! The links among permissions: what the table of permissions satisfies at
//! all times, and what revoking does to it.
//!
//! A tenant is always made after its lessor, so it has the greater handle.
//! The chain of tenants below a permission therefore has no cycle, and
//! revoking a permission reaches all of it.
use vstd::prelude::*;
use crate::model::{MachineModel, Permission, PermissionData, PermissionKind, ProgramCounter};
use crate::step::revoke::{cancel_chain, canceled_data};

verus! {

/// Entry `p` of the table is linked well.
///
/// Its tenant, if it has one, is an allocated permission with a greater
/// handle that names `p` as its lessor, and neither of the two is canceled.
/// Its lessor, if it has one, has a smaller handle; owners have no lessor and
/// borrows have one.  Unless `p` is canceled, its lessor is allocated, is not
/// canceled, and has `p` as its tenant.
pub open spec fn entry_linked(permissions: Seq<Option<PermissionData>>, p: Permission) -> bool {
    match permissions[p.index as int] {
        Some(data) => {
            &&& match data.tenant {
                Some(t) => {
                    &&& p.index < t.index < permissions.len()
                    &&& !data.canceled
                    &&& match permissions[t.index as int] {
                        Some(tenant) => tenant.lessor == Some(p) && !tenant.canceled,
                        None => false,
                    }
                },
                None => true,
            }
            &&& match data.lessor {
                Some(l) => {
                    &&& l.index < p.index
                    &&& data.kind == PermissionKind::Leased || data.kind == PermissionKind::Shared
                    &&& !data.canceled ==> match permissions[l.index as int] {
                        Some(lessor) => !lessor.canceled && lessor.tenant == Some(p),
                        None => false,
                    }
                },
                None => data.kind == PermissionKind::My || data.kind == PermissionKind::Our,
            }
        },
        None => true,
    }
}

/// Every entry of the table is linked well.
pub open spec fn links_wf(permissions: Seq<Option<PermissionData>>) -> bool {
    forall|p: Permission| p.index < permissions.len() ==> #[trigger] entry_linked(permissions, p)
}

/// The permission `n` links down the chain of tenants from `p`: `p` itself
/// for `n == 0`, its tenant for `n == 1`, and so on.
pub open spec fn nth_tenant(permissions: Seq<Option<PermissionData>>, p: Permission, n: nat) -> Option<
    Permission,
>
    decreases n,
{
    if p.index < permissions.len() {
        match permissions[p.index as int] {
            Some(data) => if n == 0 {
                Some(p)
            } else {
                match data.tenant {
                    Some(t) => if p.index < t.index < permissions.len() {
                        nth_tenant(permissions, t, (n - 1) as nat)
                    } else {
                        None
                    },
                    None => None,
                }
            },
            None => None,
        }
    } else {
        None
    }
}

/// The permission `n` links up the chain of lessors from `p`.
pub open spec fn nth_lessor(permissions: Seq<Option<PermissionData>>, p: Permission, n: nat) -> Option<
    Permission,
>
    decreases n,
{
    if p.index < permissions.len() {
        match permissions[p.index as int] {
            Some(data) => if n == 0 {
                Some(p)
            } else {
                match data.lessor {
                    Some(l) => nth_lessor(permissions, l, (n - 1) as nat),
                    None => None,
                }
            },
            None => None,
        }
    } else {
        None
    }
}

/// Whether `after` is `before` with some entries canceled: every entry is
/// what it was, or what it was, canceled at `at`.
pub open spec fn only_canceled(
    before: Seq<Option<PermissionData>>,
    after: Seq<Option<PermissionData>>,
    at: Option<ProgramCounter>,
) -> bool {
    &&& after.len() == before.len()
    &&& forall|q: int|
        0 <= q < before.len() ==> (#[trigger] after[q]) == before[q] || (before[q] is Some && after[q]
            == Some(canceled_data(before[q].unwrap(), at)))
}

/// Canceling a chain changes nothing below the handle it starts from.
pub proof fn lemma_cancel_chain_below(
    permissions: Seq<Option<PermissionData>>,
    p: Permission,
    at: Option<ProgramCounter>,
)
    ensures
        cancel_chain(permissions, p, at).len() == permissions.len(),
        forall|i: int| 0 <= i < p.index && i < permissions.len() ==> cancel_chain(permissions, p, at)[i] == permissions[i],
    decreases permissions.len() - p.index,
{
    if p.index < permissions.len() {
        match permissions[p.index as int] {
            Some(data) => {
                let canceled = permissions.update(p.index as int, Some(canceled_data(data, at)));
                match data.tenant {
                    Some(t) => if p.index < t.index < permissions.len() {
                        lemma_cancel_chain_below(canceled, t, at);
                        assert(cancel_chain(permissions, p, at) == cancel_chain(canceled, t, at));
                        assert forall|i: int| 0 <= i < p.index && i < permissions.len() implies cancel_chain(
                            permissions,
                            p,
                            at,
                        )[i] == permissions[i] by {
                            assert(cancel_chain(canceled, t, at)[i] == canceled[i]);
                        }
                    } else {
                        assert(cancel_chain(permissions, p, at) == canceled);
                    },
                    None => {
                        assert(cancel_chain(permissions, p, at) == canceled);
                    },
                }
            },
            None => {},
        }
    }
}

/// What canceling a chain does from a handle on depends on the table from
/// that handle on alone.
pub proof fn lemma_cancel_chain_agrees(
    a: Seq<Option<PermissionData>>,
    b: Seq<Option<PermissionData>>,
    p: Permission,
    at: Option<ProgramCounter>,
)
    requires
        a.len() == b.len(),
        forall|i: int| p.index <= i < a.len() ==> a[i] == b[i],
    ensures
        forall|i: int| p.index <= i < a.len() ==> cancel_chain(a, p, at)[i] == cancel_chain(b, p, at)[i],
    decreases a.len() - p.index,
{
    lemma_cancel_chain_below(a, p, at);
    lemma_cancel_chain_below(b, p, at);
    if p.index < a.len() {
        match a[p.index as int] {
            Some(data) => {
                let ca = a.update(p.index as int, Some(canceled_data(data, at)));
                let cb = b.update(p.index as int, Some(canceled_data(data, at)));
                assert(b[p.index as int] == a[p.index as int]);
                match data.tenant {
                    Some(t) => if p.index < t.index < a.len() {
                        lemma_cancel_chain_agrees(ca, cb, t, at);
                        lemma_cancel_chain_below(ca, t, at);
                        lemma_cancel_chain_below(cb, t, at);
                        assert(cancel_chain(a, p, at) == cancel_chain(ca, t, at));
                        assert(cancel_chain(b, p, at) == cancel_chain(cb, t, at));
                        assert forall|i: int| p.index <= i < a.len() implies cancel_chain(a, p, at)[i]
                            == cancel_chain(b, p, at)[i] by {
                            if i < t.index {
                                assert(cancel_chain(ca, t, at)[i] == ca[i]);
                                assert(cancel_chain(cb, t, at)[i] == cb[i]);
                            } else {
                                assert(ca[i] == cb[i]);
                            }
                        }
                    } else {
                        assert(cancel_chain(a, p, at) == ca);
                        assert(cancel_chain(b, p, at) == cb);
                    },
                    None => {
                        assert(cancel_chain(a, p, at) == ca);
                        assert(cancel_chain(b, p, at) == cb);
                    },
                }
            },
            None => {},
        }
    }
}

/// Canceling the chain from an allocated `p` cancels `p` and, everywhere
/// else, does what canceling the chain from the tenant of `p` does.
pub proof fn lemma_cancel_chain_unfold(
    permissions: Seq<Option<PermissionData>>,
    p: Permission,
    at: Option<ProgramCounter>,
)
    requires
        p.index < permissions.len(),
        permissions[p.index as int] is Some,
    ensures
        cancel_chain(permissions, p, at)[p.index as int] == Some(
            canceled_data(permissions[p.index as int].unwrap(), at),
        ),
        match permissions[p.index as int].unwrap().tenant {
            Some(t) => if p.index < t.index < permissions.len() {
                forall|i: int|
                    0 <= i < permissions.len() && i != p.index ==> cancel_chain(permissions, p, at)[i]
                        == cancel_chain(permissions, t, at)[i]
            } else {
                forall|i: int|
                    0 <= i < permissions.len() && i != p.index ==> cancel_chain(permissions, p, at)[i]
                        == permissions[i]
            },
            None => forall|i: int|
                0 <= i < permissions.len() && i != p.index ==> cancel_chain(permissions, p, at)[i]
                    == permissions[i],
        },
{
    let data = permissions[p.index as int].unwrap();
    let canceled = permissions.update(p.index as int, Some(canceled_data(data, at)));
    match data.tenant {
        Some(t) => if p.index < t.index < permissions.len() {
            lemma_cancel_chain_below(canceled, t, at);
            lemma_cancel_chain_below(permissions, t, at);
            lemma_cancel_chain_agrees(canceled, permissions, t, at);
            assert(cancel_chain(permissions, p, at) == cancel_chain(canceled, t, at));
            assert(cancel_chain(canceled, t, at)[p.index as int] == canceled[p.index as int]);
            assert forall|i: int| 0 <= i < permissions.len() && i != p.index implies cancel_chain(
                permissions,
                p,
                at,
            )[i] == cancel_chain(permissions, t, at)[i] by {
                if i < t.index {
                    assert(cancel_chain(canceled, t, at)[i] == canceled[i]);
                    assert(cancel_chain(permissions, t, at)[i] == permissions[i]);
                } else {
                    assert(canceled[i] == permissions[i]);
                }
            }
        } else {
            assert(cancel_chain(permissions, p, at) == canceled);
        },
        None => {
            assert(cancel_chain(permissions, p, at) == canceled);
        },
    }
}

/// Canceling a chain cancels every permission down the chain of tenants.
pub proof fn lemma_cancel_chain_reaches(
    permissions: Seq<Option<PermissionData>>,
    p: Permission,
    at: Option<ProgramCounter>,
    n: nat,
)
    requires
        nth_tenant(permissions, p, n) is Some,
    ensures
        nth_tenant(permissions, p, n).unwrap().index < permissions.len(),
        permissions[nth_tenant(permissions, p, n).unwrap().index as int] is Some,
        cancel_chain(permissions, p, at)[nth_tenant(permissions, p, n).unwrap().index as int] == Some(
            canceled_data(
                permissions[nth_tenant(permissions, p, n).unwrap().index as int].unwrap(),
                at,
            ),
        ),
        nth_tenant(permissions, p, n).unwrap().index >= p.index + n,
    decreases n,
{
    lemma_cancel_chain_unfold(permissions, p, at);
    if n > 0 {
        let t = permissions[p.index as int].unwrap().tenant.unwrap();
        lemma_cancel_chain_reaches(permissions, t, at, (n - 1) as nat);
    }
}

/// Canceling a chain changes only permissions down the chain of tenants, and
/// those it cancels.
pub proof fn lemma_cancel_chain_only(
    permissions: Seq<Option<PermissionData>>,
    p: Permission,
    at: Option<ProgramCounter>,
    q: int,
)
    requires
        0 <= q < permissions.len(),
    ensures
        cancel_chain(permissions, p, at)[q] == permissions[q] || exists|n: nat|
            nth_tenant(permissions, p, n) == Some(Permission { index: q as usize }),
        cancel_chain(permissions, p, at)[q] == permissions[q] || (permissions[q] is Some
            && cancel_chain(permissions, p, at)[q] == Some(canceled_data(permissions[q].unwrap(), at))),
    decreases permissions.len() - p.index,
{
    if p.index < permissions.len() {
        match permissions[p.index as int] {
            Some(data) => {
                lemma_cancel_chain_unfold(permissions, p, at);
                if q == p.index {
                    assert(nth_tenant(permissions, p, 0) == Some(p));
                } else {
                    match data.tenant {
                        Some(t) => if p.index < t.index < permissions.len() {
                            lemma_cancel_chain_only(permissions, t, at, q);
                            if cancel_chain(permissions, t, at)[q] != permissions[q] {
                                let n = choose|n: nat|
                                    nth_tenant(permissions, t, n) == Some(
                                        Permission { index: q as usize },
                                    );
                                assert(nth_tenant(permissions, p, n + 1) == Some(
                                    Permission { index: q as usize },
                                ));
                            }
                        },
                        None => {},
                    }
                }
            },
            None => {},
        }
    }
}

/// Canceling a chain only cancels.
pub proof fn lemma_cancel_chain_only_cancels(
    permissions: Seq<Option<PermissionData>>,
    p: Permission,
    at: Option<ProgramCounter>,
)
    ensures
        only_canceled(permissions, cancel_chain(permissions, p, at), at),
{
    lemma_cancel_chain_below(permissions, p, at);
    assert forall|q: int| 0 <= q < permissions.len() implies (#[trigger] cancel_chain(
        permissions,
        p,
        at,
    )[q]) == permissions[q] || (permissions[q] is Some && cancel_chain(permissions, p, at)[q] == Some(
        canceled_data(permissions[q].unwrap(), at),
    )) by {
        lemma_cancel_chain_only(permissions, p, at, q);
    }
}

/// What is one link or more down the chain of tenants is the tenant of what
/// is one link less down.
pub proof fn lemma_nth_tenant_pred(permissions: Seq<Option<PermissionData>>, p: Permission, n: nat)
    requires
        n > 0,
        nth_tenant(permissions, p, n) is Some,
    ensures
        nth_tenant(permissions, p, (n - 1) as nat) is Some,
        nth_tenant(permissions, p, (n - 1) as nat).unwrap().index < permissions.len(),
        permissions[nth_tenant(permissions, p, (n - 1) as nat).unwrap().index as int] is Some,
        permissions[nth_tenant(permissions, p, (n - 1) as nat).unwrap().index as int].unwrap().tenant
            == nth_tenant(permissions, p, n),
    decreases n,
{
    let t = permissions[p.index as int].unwrap().tenant.unwrap();
    if n == 1 {
        assert(nth_tenant(permissions, t, 0) == Some(t));
        assert(nth_tenant(permissions, p, 0) == Some(p));
    } else {
        lemma_nth_tenant_pred(permissions, t, (n - 1) as nat);
    }
}

/// If `q` is `n` links down the chain of tenants from `p` and `t` is the
/// tenant of `q`, then `t` is `n + 1` links down.
pub proof fn lemma_nth_tenant_step(
    permissions: Seq<Option<PermissionData>>,
    p: Permission,
    n: nat,
    q: Permission,
    t: Permission,
)
    requires
        nth_tenant(permissions, p, n) == Some(q),
        q.index < permissions.len(),
        permissions[q.index as int] is Some,
        permissions[q.index as int].unwrap().tenant == Some(t),
        q.index < t.index < permissions.len(),
        permissions[t.index as int] is Some,
    ensures
        nth_tenant(permissions, p, n + 1) == Some(t),
    decreases n,
{
    if n == 0 {
        assert(nth_tenant(permissions, t, 0) == Some(t));
    } else {
        let next = permissions[p.index as int].unwrap().tenant.unwrap();
        lemma_nth_tenant_step(permissions, next, (n - 1) as nat, q, t);
    }
}

/// The chain of tenants from a handle on depends on the table from that
/// handle on alone.
pub proof fn lemma_nth_tenant_agrees(
    a: Seq<Option<PermissionData>>,
    b: Seq<Option<PermissionData>>,
    p: Permission,
    n: nat,
)
    requires
        a.len() == b.len(),
        forall|i: int| p.index <= i < a.len() ==> a[i] == b[i],
    ensures
        nth_tenant(a, p, n) == nth_tenant(b, p, n),
    decreases n,
{
    if p.index < a.len() && n > 0 {
        match a[p.index as int] {
            Some(data) => match data.tenant {
                Some(t) => if p.index < t.index < a.len() {
                    lemma_nth_tenant_agrees(a, b, t, (n - 1) as nat);
                },
                None => {},
            },
            None => {},
        }
    }
}

impl MachineModel {
    /// The links among the permissions of the machine are well formed.
    pub open spec fn links_wf(self) -> bool {
        links_wf(self.permissions)
    }
}

/// What revoking `x` does to the entry of `q`.
///
/// The entry is what it was; or `q` is the lessor of `x` and has lost `x` as
/// its tenant; or `q` is down the chain of tenants from `x` and has been
/// canceled.  Everything down the chain has been canceled, and the lessor of
/// `x` has lost its tenant.
pub proof fn lemma_revoke_at(m: MachineModel, x: Permission, q: Permission)
    requires
        m.links_wf(),
        q.index < m.permissions.len(),
    ensures
        m.revoke(x).permissions.len() == m.permissions.len(),
        m.revoke(x).stack == m.stack,
        m.revoke(x).objects == m.objects,
        ({
            let r = m.revoke(x).permissions;
            let before = m.permissions[q.index as int];
            ||| r[q.index as int] == before
            ||| (before is Some && r[q.index as int] == Some(
                PermissionData { tenant: None, ..before.unwrap() },
            ) && before.unwrap().tenant == Some(x))
            ||| (before is Some && r[q.index as int] == Some(canceled_data(before.unwrap(), m.pc()))
                && exists|n: nat| nth_tenant(m.permissions, x, n) == Some(q))
        }),
        forall|n: nat|
            nth_tenant(m.permissions, x, n) == Some(q) ==> m.permissions[q.index as int] is Some
                && m.revoke(x).permissions[q.index as int] == Some(
                canceled_data(m.permissions[q.index as int].unwrap(), m.pc()),
            ),
        (m.permission(x) is Some && m.permission(x).unwrap().lessor == Some(q)
            && m.permissions[q.index as int] is Some && m.permissions[q.index as int].unwrap().tenant
            == Some(x)) ==> m.revoke(x).permissions[q.index as int] is Some && m.revoke(
            x,
        ).permissions[q.index as int].unwrap().tenant is None,
{
    let d = m.detach(x);
    let at = m.pc();
    let r = cancel_chain(d.permissions, x, at);
    lemma_cancel_chain_below(d.permissions, x, at);
    if m.permission(x) is Some {
        assert(entry_linked(m.permissions, x));
    }
    // Detaching changes at most the entry of the lessor, which stands before `x`.
    assert forall|i: int| x.index <= i < m.permissions.len() implies d.permissions[i]
        == m.permissions[i] by {
    }
    lemma_cancel_chain_only(d.permissions, x, at, q.index as int);
    if r[q.index as int] != d.permissions[q.index as int] {
        let n = choose|n: nat|
            nth_tenant(d.permissions, x, n) == Some(Permission { index: q.index as int as usize });
        assert(Permission { index: q.index as int as usize } == q);
        lemma_nth_tenant_agrees(d.permissions, m.permissions, x, n);
        lemma_cancel_chain_reaches(d.permissions, x, at, n);
        assert(q.index >= x.index);
    }
    assert forall|n: nat| nth_tenant(m.permissions, x, n) == Some(q) implies m.permissions[q.index as int] is Some
        && m.revoke(x).permissions[q.index as int] == Some(
        canceled_data(m.permissions[q.index as int].unwrap(), m.pc()),
    ) by {
        lemma_nth_tenant_agrees(d.permissions, m.permissions, x, n);
        lemma_cancel_chain_reaches(d.permissions, x, at, n);
    }
}

/// Revoking keeps the entry of `p` linked well.
proof fn lemma_revoke_entry(m: MachineModel, x: Permission, p: Permission)
    requires
        m.links_wf(),
        p.index < m.permissions.len(),
    ensures
        entry_linked(m.revoke(x).permissions, p),
{
    let r = m.revoke(x).permissions;
    let at = m.pc();
    lemma_revoke_at(m, x, p);
    assert(entry_linked(m.permissions, p));
    match r[p.index as int] {
        Some(after) => {
            let before = m.permissions[p.index as int].unwrap();
            match after.tenant {
                Some(t) => {
                    // The entry is as it was, so it had this tenant before.
                    assert(r[p.index as int] == m.permissions[p.index as int]);
                    lemma_revoke_at(m, x, t);
                    assert(entry_linked(m.permissions, t));
                    if r[t.index as int] != m.permissions[t.index as int] && r[t.index as int].unwrap().canceled {
                        // The tenant would be down the chain from `x`.
                        let n = choose|n: nat| nth_tenant(m.permissions, x, n) == Some(t);
                        if n == 0 {
                            // Then the tenant is `x`, and `p` has lost it.
                            assert(t == x);
                        } else {
                            lemma_nth_tenant_pred(m.permissions, x, n);
                            let u = nth_tenant(m.permissions, x, (n - 1) as nat).unwrap();
                            assert(entry_linked(m.permissions, u));
                            assert(u == p);
                            lemma_revoke_at(m, x, u);
                        }
                    }
                },
                None => {},
            }
            match after.lessor {
                Some(l) => {
                    if !after.canceled {
                        lemma_revoke_at(m, x, l);
                        assert(entry_linked(m.permissions, l));
                        let lessor = m.permissions[l.index as int].unwrap();
                        assert(lessor.tenant == Some(p));
                        if r[l.index as int] != m.permissions[l.index as int] {
                            if r[l.index as int] == Some(PermissionData { tenant: None, ..lessor })
                                && lessor.tenant == Some(x) {
                                // The lessor has lost `x`, which is `p`: `p` is canceled.
                                assert(x == p);
                                assert(nth_tenant(m.permissions, x, 0) == Some(p));
                            } else {
                                let n = choose|n: nat| nth_tenant(m.permissions, x, n) == Some(l);
                                lemma_nth_tenant_step(m.permissions, x, n, l, p);
                            }
                        }
                    }
                },
                None => {},
            }
        },
        None => {},
    }
}

/// Revoking keeps the links well formed and never revives a permission; it
/// cancels what it is asked to revoke.
pub proof fn lemma_revoke_links(m: MachineModel, x: Permission)
    requires
        m.links_wf(),
    ensures
        m.revoke(x).links_wf(),
        m.revoke(x).permissions.len() == m.permissions.len(),
        m.revoke(x).stack == m.stack,
        m.revoke(x).objects == m.objects,
        forall|q: Permission| m.canceled(q) ==> #[trigger] m.revoke(x).canceled(q),
        forall|q: Permission| m.permission(q) is Some <==> #[trigger] m.revoke(x).permission(q) is Some,
        m.permission(x) is Some ==> m.revoke(x).canceled(x),
{
    lemma_cancel_chain_below(m.detach(x).permissions, x, m.pc());
    assert forall|p: Permission| p.index < m.revoke(x).permissions.len() implies #[trigger] entry_linked(
        m.revoke(x).permissions,
        p,
    ) by {
        lemma_revoke_entry(m, x, p);
    }
    assert forall|q: Permission| m.canceled(q) implies #[trigger] m.revoke(x).canceled(q) by {
        if q.index < m.permissions.len() {
            lemma_revoke_at(m, x, q);
        }
    }
    assert forall|q: Permission| m.permission(q) is Some <==> #[trigger] m.revoke(x).permission(q) is Some by {
        if q.index < m.permissions.len() {
            lemma_revoke_at(m, x, q);
        }
    }
    if m.permission(x) is Some {
        assert(nth_tenant(m.permissions, x, 0) == Some(x));
        lemma_revoke_at(m, x, x);
    }
}

} // verus!
