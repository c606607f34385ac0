//! What holds of every store: grant, revoke and check, related.
use vstd::prelude::*;
use crate::engine::authorized;
use crate::engine::entry_matches;
use crate::engine::resolves;
use crate::state::granted;
use crate::state::is_member;
use crate::state::revoked;
use crate::state::same_key;
use crate::state::shares_action;
use crate::state::with_member;
use crate::state::StateView;
use crate::types::covered_by;
use crate::types::drop_where;
use crate::types::keep_where;
use crate::types::Action;
use crate::types::PermissionView;
use crate::types::PrincipalView;
use crate::types::ResourceView;
use crate::types::RoleView;

verus! {

/// Every element left by `drop_where` was in `s` and fails `f`.
pub proof fn lemma_drop_where_elements<A>(s: Seq<A>, f: spec_fn(A) -> bool)
    ensures
        forall|i: int|
            0 <= i < drop_where(s, f).len() ==> s.contains(#[trigger] drop_where(s, f)[i]) && !f(
                drop_where(s, f)[i],
            ),
    decreases s.len(),
{
    if s.len() > 0 {
        lemma_drop_where_elements(s.drop_last(), f);
        let d = drop_where(s.drop_last(), f);
        assert forall|i: int| 0 <= i < drop_where(s, f).len() implies s.contains(
            #[trigger] drop_where(s, f)[i],
        ) && !f(drop_where(s, f)[i]) by {
            if i < d.len() {
                assert(drop_where(s, f)[i] == d[i]);
                let w = choose|w: int| 0 <= w < s.drop_last().len() && s.drop_last()[w] == d[i];
                assert(s[w] == d[i]);
            } else {
                assert(drop_where(s, f)[i] == s.last());
                assert(s[s.len() - 1] == s.last());
            }
        }
    }
}

/// Dropping the elements that satisfy `f` when none of them does changes nothing.
pub proof fn lemma_drop_where_none<A>(s: Seq<A>, f: spec_fn(A) -> bool)
    requires
        forall|i: int| 0 <= i < s.len() ==> !f(#[trigger] s[i]),
    ensures
        drop_where(s, f) == s,
    decreases s.len(),
{
    if s.len() > 0 {
        assert(!f(s[s.len() - 1]));
        lemma_drop_where_none(s.drop_last(), f);
        assert(s.drop_last().push(s.last()) =~= s);
    }
}

/// Dropping the elements that satisfy `f` when all of them do leaves nothing.
pub proof fn lemma_drop_where_all<A>(s: Seq<A>, f: spec_fn(A) -> bool)
    requires
        forall|i: int| 0 <= i < s.len() ==> f(#[trigger] s[i]),
    ensures
        drop_where(s, f).len() == 0,
    decreases s.len(),
{
    if s.len() > 0 {
        assert(f(s[s.len() - 1]));
        lemma_drop_where_all(s.drop_last(), f);
    }
}

proof fn lemma_drop_where_push<A>(s: Seq<A>, x: A, f: spec_fn(A) -> bool)
    ensures
        drop_where(s.push(x), f) == if f(x) {
            drop_where(s, f)
        } else {
            drop_where(s, f).push(x)
        },
{
    assert(s.push(x).drop_last() =~= s);
}

/// The entries stored under the key (`principal`, `resource`).
pub open spec fn entries_under(ps: Seq<PermissionView>, principal: PrincipalView, resource: ResourceView) -> Seq<
    PermissionView,
> {
    keep_where(ps, |q: PermissionView| same_key(q, principal, resource))
}

proof fn lemma_granted_entries(ps: Seq<PermissionView>, p: PermissionView)
    ensures
        entries_under(granted(ps, p), p.principal, p.resource) == seq![p],
{
    let k = |q: PermissionView| same_key(q, p.principal, p.resource);
    let nk = |q: PermissionView| !k(q);
    let d = drop_where(ps, k);
    lemma_drop_where_elements(ps, k);
    assert forall|i: int| 0 <= i < d.len() implies nk(#[trigger] d[i]) by {}
    lemma_drop_where_all(d, nk);
    lemma_drop_where_push(d, p, nk);
    assert(drop_where(d, nk) =~= Seq::<PermissionView>::empty());
    assert(keep_where(granted(ps, p), k) == drop_where(d.push(p), nk));
    assert(Seq::<PermissionView>::empty().push(p) =~= seq![p]);
}

/// Granting a permission leaves exactly one entry under its key, the
/// permission itself; granting it again changes nothing.
pub proof fn law_idempotent_grant(ps: Seq<PermissionView>, p: PermissionView)
    ensures
        entries_under(granted(ps, p), p.principal, p.resource) == seq![p],
        granted(granted(ps, p), p) == granted(ps, p),
{
    lemma_granted_entries(ps, p);
    law_override_on_regrant(ps, p, p);
}

/// Granting `second` after `first` under the same key leaves one entry there, `second`
/// with its own actions, grant option and filter; the store is as if `first`
/// had never been granted.
pub proof fn law_override_on_regrant(ps: Seq<PermissionView>, first: PermissionView, second: PermissionView)
    requires
        first.principal == second.principal,
        first.resource == second.resource,
    ensures
        entries_under(granted(granted(ps, first), second), second.principal, second.resource) == seq![second],
        granted(granted(ps, first), second) == granted(ps, second),
{
    let k = |q: PermissionView| same_key(q, second.principal, second.resource);
    let k1 = |q: PermissionView| same_key(q, first.principal, first.resource);
    assert(k1 == k);
    let d = drop_where(ps, k);
    lemma_drop_where_elements(ps, k);
    assert forall|i: int| 0 <= i < d.len() implies !k(#[trigger] d[i]) by {}
    lemma_drop_where_none(d, k);
    lemma_drop_where_push(d, first, k);
    lemma_granted_entries(granted(ps, first), second);
}

/// A grant of an action on a database, with no row filter, allows that
/// action to its grantee on every table of the database.
pub proof fn law_database_coverage(
    st: StateView,
    grantee: PrincipalView,
    database: Seq<char>,
    p: PermissionView,
    table: Seq<char>,
    columns: Option<Seq<Seq<char>>>,
    action: Action,
)
    requires
        p.principal == grantee,
        !(grantee is TaggedPrincipal),
        p.resource == (ResourceView::Database { name: database }),
        p.actions.contains(action),
        p.row_filter is None,
    ensures
        authorized(
            StateView { permissions: granted(st.permissions, p), ..st },
            grantee,
            ResourceView::Table { database, table, columns },
            action,
        ),
{
    let s2 = StateView { permissions: granted(st.permissions, p), ..st };
    let last = s2.permissions.len() - 1;
    assert(s2.permissions[last] == p);
    assert(resolves(grantee, p.principal, st.roles));
    assert(entry_matches(s2, s2.permissions[last], grantee, ResourceView::Table { database, table, columns }, action));
}

/// A grant on one table, made in a store with no other grants, allows
/// nothing on another table of the same database.
pub proof fn law_no_coverage_leak(
    st: StateView,
    p: PermissionView,
    database: Seq<char>,
    table: Seq<char>,
    other: Seq<char>,
    columns: Option<Seq<Seq<char>>>,
    requester: PrincipalView,
    action: Action,
)
    requires
        st.permissions.len() == 0,
        p.resource matches ResourceView::Table { database: d, table: t, .. } && d == database && t == table,
        other != table,
    ensures
        !authorized(
            StateView { permissions: granted(st.permissions, p), ..st },
            requester,
            ResourceView::Table { database, table: other, columns },
            action,
        ),
{
    let k = |q: PermissionView| same_key(q, p.principal, p.resource);
    assert(drop_where(st.permissions, k) =~= st.permissions);
    assert(granted(st.permissions, p) =~= seq![p]);
}

/// In a store with no grants, every request is denied.
pub proof fn law_fail_closed(st: StateView, requester: PrincipalView, resource: ResourceView, action: Action)
    requires
        st.permissions.len() == 0,
    ensures
        !authorized(st, requester, resource, action),
{
}

/// After creating role `role`, adding `user` to it and granting the role an
/// action on a resource, the user is allowed that action there; starting
/// from an empty store, any other user is not.
pub proof fn law_role_indirection(
    st: StateView,
    role: Seq<char>,
    user: Seq<char>,
    other: Seq<char>,
    p: PermissionView,
    action: Action,
)
    requires
        p.principal == PrincipalView::Role(role),
        p.actions.contains(action),
        p.row_filter is None,
        covered_by(p.resource, p.resource),
        other != user,
    ensures
        ({
            let roles1 = drop_where(st.roles, |r: RoleView| r.name == role).push(
                RoleView { name: role, members: Seq::empty() },
            );
            let roles2 = with_member(roles1, role, user);
            let s3 = StateView { roles: roles2, permissions: granted(st.permissions, p), ..st };
            &&& authorized(s3, PrincipalView::User(user), p.resource, action)
            &&& (st.permissions.len() == 0 && st.roles.len() == 0) ==> !authorized(
                s3,
                PrincipalView::User(other),
                p.resource,
                action,
            )
        }),
{
    let roles1 = drop_where(st.roles, |r: RoleView| r.name == role).push(
        RoleView { name: role, members: Seq::empty() },
    );
    let roles2 = with_member(roles1, role, user);
    let s3 = StateView { roles: roles2, permissions: granted(st.permissions, p), ..st };
    let last = roles1.len() - 1;
    assert(roles1[last] == RoleView { name: role, members: Seq::<Seq<char>>::empty() });
    assert(!roles1[last].members.contains(user));
    assert(roles2[last].members == seq![user]) by {
        assert(Seq::<Seq<char>>::empty().push(user) =~= seq![user]);
    }
    assert(roles2[last].members[0] == user);
    assert(is_member(roles2, role, user));
    let lp = s3.permissions.len() - 1;
    assert(s3.permissions[lp] == p);
    assert(entry_matches(s3, s3.permissions[lp], PrincipalView::User(user), p.resource, action));
    if st.permissions.len() == 0 && st.roles.len() == 0 {
        let k = |q: PermissionView| same_key(q, p.principal, p.resource);
        assert(drop_where(st.permissions, k) =~= st.permissions);
        assert(s3.permissions =~= seq![p]);
        let f = |r: RoleView| r.name == role;
        assert(drop_where(st.roles, f) =~= st.roles);
        assert(roles2.len() == 1);
        if is_member(roles2, role, other) {
            let i = choose|i: int|
                0 <= i < roles2.len() && (#[trigger] roles2[i]).name == role && roles2[i].members.contains(other);
            assert(i == 0);
            let j = choose|j: int| 0 <= j < roles2[i].members.len() && roles2[i].members[j] == other;
            assert(roles2[0].members[j] == user);
        }
        assert(!resolves(PrincipalView::User(other), p.principal, roles2));
        if authorized(s3, PrincipalView::User(other), p.resource, action) {
            let i = choose|i: int|
                0 <= i < s3.permissions.len() && entry_matches(
                    s3,
                    #[trigger] s3.permissions[i],
                    PrincipalView::User(other),
                    p.resource,
                    action,
                );
            assert(i == 0);
        }
    }
}

/// Revoking any one action that a grant holds, under the grant's key,
/// removes the whole entry: nothing is left under that key, not even the
/// actions the revoke did not name.
pub proof fn law_revoke_removes_whole_entry(ps: Seq<PermissionView>, p: PermissionView, actions: Seq<Action>)
    requires
        shares_action(actions, p.actions),
    ensures
        entries_under(
            revoked(granted(ps, p), p.principal, p.resource, actions),
            p.principal,
            p.resource,
        ).len() == 0,
{
    let k = |q: PermissionView| same_key(q, p.principal, p.resource);
    let h = |q: PermissionView| same_key(q, p.principal, p.resource) && shares_action(actions, q.actions);
    let nk = |q: PermissionView| !k(q);
    let d = drop_where(ps, k);
    lemma_drop_where_elements(ps, k);
    lemma_drop_where_push(d, p, h);
    let e = drop_where(d, h);
    lemma_drop_where_elements(d, h);
    assert forall|i: int| 0 <= i < e.len() implies nk(#[trigger] e[i]) by {
        let w = choose|w: int| 0 <= w < d.len() && d[w] == e[i];
        assert(!k(d[w]));
    }
    lemma_drop_where_all(e, nk);
    assert(revoked(granted(ps, p), p.principal, p.resource, actions) == e);
}


/// No two entries share a (principal, resource) key.
pub open spec fn unique_keys(ps: Seq<PermissionView>) -> bool {
    forall|i: int, j: int|
        0 <= i < j < ps.len() ==> !same_key(ps[i], ps[j].principal, ps[j].resource)
}

proof fn lemma_drop_where_unique(ps: Seq<PermissionView>, f: spec_fn(PermissionView) -> bool)
    requires
        unique_keys(ps),
    ensures
        unique_keys(drop_where(ps, f)),
    decreases ps.len(),
{
    if ps.len() > 0 {
        let front = ps.drop_last();
        assert(unique_keys(front)) by {
            assert forall|i: int, j: int| 0 <= i < j < front.len() implies !same_key(
                front[i],
                front[j].principal,
                front[j].resource,
            ) by {
                assert(front[i] == ps[i] && front[j] == ps[j]);
            }
        }
        lemma_drop_where_unique(front, f);
        if !f(ps.last()) {
            let d = drop_where(front, f);
            lemma_drop_where_elements(front, f);
            let x = ps.last();
            assert forall|i: int, j: int| 0 <= i < j < d.push(x).len() implies !same_key(
                d.push(x)[i],
                d.push(x)[j].principal,
                d.push(x)[j].resource,
            ) by {
                if j == d.len() {
                    assert(d.push(x)[i] == d[i]);
                    let w = choose|w: int| 0 <= w < front.len() && front[w] == d[i];
                    assert(front[w] == ps[w]);
                    assert(!same_key(ps[w], ps[ps.len() - 1].principal, ps[ps.len() - 1].resource));
                } else {
                    assert(d.push(x)[i] == d[i] && d.push(x)[j] == d[j]);
                }
            }
        }
    }
}

/// Granting and revoking keep at most one entry per (principal, resource)
/// key.
pub proof fn law_keys_stay_unique(
    ps: Seq<PermissionView>,
    p: PermissionView,
    principal: PrincipalView,
    resource: ResourceView,
    actions: Seq<Action>,
)
    requires
        unique_keys(ps),
    ensures
        unique_keys(granted(ps, p)),
        unique_keys(revoked(ps, principal, resource, actions)),
{
    let k = |q: PermissionView| same_key(q, p.principal, p.resource);
    lemma_drop_where_unique(ps, k);
    let d = drop_where(ps, k);
    lemma_drop_where_elements(ps, k);
    assert forall|i: int, j: int| 0 <= i < j < d.push(p).len() implies !same_key(
        d.push(p)[i],
        d.push(p)[j].principal,
        d.push(p)[j].resource,
    ) by {
        if j == d.len() {
            assert(d.push(p)[i] == d[i]);
            assert(!k(d[i]));
        } else {
            assert(d.push(p)[i] == d[i] && d.push(p)[j] == d[j]);
        }
    }
    lemma_drop_where_unique(
        ps,
        |q: PermissionView| same_key(q, principal, resource) && shares_action(actions, q.actions),
    );
}

} // verus!
