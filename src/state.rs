//! The permission store: permissions, roles, tags and session context, and
//! the mutations on them.
use vstd::prelude::*;
use crate::error::LakeError;
use crate::strmap::StrMap;
use crate::types::drop_where;
use crate::types::lemma_unique_drop;
use crate::types::lemma_unique_push;
use crate::types::lemma_unique_replace;
use crate::types::unique_by;
use crate::strmap::keys_unique;
use crate::types::has_str;
use crate::types::perms;
use crate::types::strs;
use crate::types::clone_permissions;
use crate::types::Action;
use crate::types::LfTag;
use crate::types::LfTagView;
use crate::types::Permission;
use crate::types::PermissionView;
use crate::types::Principal;
use crate::types::PrincipalView;
use crate::types::Resource;
use crate::types::ResourceView;
use crate::types::Role;
use crate::types::RoleView;

verus! {

/// The store as plain values.
pub struct StateView {
    pub permissions: Seq<PermissionView>,
    pub roles: Seq<RoleView>,
    pub tags: Seq<LfTagView>,
    pub session_context: Seq<(Seq<char>, Seq<char>)>,
}

/// Whether `p` is stored under the key (`principal`, `resource`).
pub open spec fn same_key(p: PermissionView, principal: PrincipalView, resource: ResourceView) -> bool {
    p.principal == principal && p.resource == resource
}

/// Whether two action lists share an action.
pub open spec fn shares_action(a: Seq<Action>, b: Seq<Action>) -> bool {
    exists|i: int| 0 <= i < a.len() && b.contains(#[trigger] a[i])
}

/// The permissions after granting `p`: any entry under its key is replaced.
pub open spec fn granted(ps: Seq<PermissionView>, p: PermissionView) -> Seq<PermissionView> {
    drop_where(ps, |q: PermissionView| same_key(q, p.principal, p.resource)).push(p)
}

/// The permissions after revoking `actions`: every entry under the key that
/// holds any of them is removed whole.
pub open spec fn revoked(
    ps: Seq<PermissionView>,
    principal: PrincipalView,
    resource: ResourceView,
    actions: Seq<Action>,
) -> Seq<PermissionView> {
    drop_where(
        ps,
        |q: PermissionView| same_key(q, principal, resource) && shares_action(actions, q.actions),
    )
}

/// Whether a role named `role` lists `user` as a member.
pub open spec fn is_member(roles: Seq<RoleView>, role: Seq<char>, user: Seq<char>) -> bool {
    exists|i: int| 0 <= i < roles.len() && (#[trigger] roles[i]).name == role && roles[i].members.contains(user)
}

/// Whether a role named `name` exists.
pub open spec fn has_role(roles: Seq<RoleView>, name: Seq<char>) -> bool {
    exists|i: int| 0 <= i < roles.len() && (#[trigger] roles[i]).name == name
}

/// The roles after adding `user` to every role named `name`.
pub open spec fn with_member(roles: Seq<RoleView>, name: Seq<char>, user: Seq<char>) -> Seq<RoleView> {
    roles.map_values(
        |r: RoleView|
            if r.name == name && !r.members.contains(user) {
                RoleView { name: r.name, members: r.members.push(user) }
            } else {
                r
            },
    )
}

/// The test for the member `user`.
pub open spec fn is_user(user: Seq<char>) -> spec_fn(Seq<char>) -> bool {
    |m: Seq<char>| m == user
}

/// The roles after removing `user` from every role named `name`.
pub open spec fn without_member(roles: Seq<RoleView>, name: Seq<char>, user: Seq<char>) -> Seq<RoleView> {
    roles.map_values(
        |r: RoleView|
            if r.name == name {
                RoleView { name: r.name, members: drop_where(r.members, is_user(user)) }
            } else {
                r
            },
    )
}


/// Roles with distinct names, each listing a member at most once.
pub open spec fn roles_ok(rs: Seq<RoleView>) -> bool {
    &&& unique_by(rs, |r: RoleView| r.name)
    &&& forall|i: int| 0 <= i < rs.len() ==> unique_by(#[trigger] rs[i].members, |m: Seq<char>| m)
}

/// The store's own invariant: distinct role names, members listed once per
/// role, distinct tag keys, distinct session-context keys, and at most one
/// permission per (principal, resource) key.
pub open spec fn state_wf(st: StateView) -> bool {
    &&& roles_ok(st.roles)
    &&& unique_by(st.tags, |t: LfTagView| t.key)
    &&& keys_unique(st.session_context)
    &&& unique_by(st.permissions, |p: PermissionView| (p.principal, p.resource))
}

proof fn lemma_roles_drop(rs: Seq<RoleView>, f: spec_fn(RoleView) -> bool)
    requires
        roles_ok(rs),
    ensures
        roles_ok(drop_where(rs, f)),
{
    lemma_unique_drop(rs, f, |r: RoleView| r.name);
    crate::laws::lemma_drop_where_elements(rs, f);
    let d = drop_where(rs, f);
    assert forall|i: int| 0 <= i < d.len() implies unique_by(#[trigger] d[i].members, |m: Seq<char>| m) by {
        assert(rs.contains(d[i]));
        let w = choose|w: int| 0 <= w < rs.len() && rs[w] == d[i];
        assert(unique_by(rs[w].members, |m: Seq<char>| m));
    }
}

proof fn lemma_roles_create(rs: Seq<RoleView>, name: Seq<char>)
    requires
        roles_ok(rs),
    ensures
        roles_ok(
            drop_where(rs, |r: RoleView| r.name == name).push(RoleView { name, members: Seq::empty() }),
        ),
{
    let x = RoleView { name, members: Seq::empty() };
    let key = |r: RoleView| r.name;
    lemma_roles_drop(rs, |r: RoleView| r.name == name);
    lemma_unique_replace(rs, x, key);
    assert((|a: RoleView| key(a) == key(x)) =~= (|r: RoleView| r.name == name));
    let d = drop_where(rs, |r: RoleView| r.name == name);
    assert forall|i: int| 0 <= i < d.push(x).len() implies unique_by(#[trigger] d.push(x)[i].members, |m: Seq<char>| m) by {
        if i < d.len() {
            assert(d.push(x)[i] == d[i]);
        }
    }
}

proof fn lemma_roles_with_member(rs: Seq<RoleView>, name: Seq<char>, user: Seq<char>)
    requires
        roles_ok(rs),
    ensures
        roles_ok(with_member(rs, name, user)),
{
    let w = with_member(rs, name, user);
    assert forall|i: int, j: int| 0 <= i < j < w.len() implies w[i].name != w[j].name by {
        assert(w[i].name == rs[i].name && w[j].name == rs[j].name);
    }
    assert forall|i: int| 0 <= i < w.len() implies unique_by(#[trigger] w[i].members, |m: Seq<char>| m) by {
        assert(unique_by(rs[i].members, |m: Seq<char>| m));
        if rs[i].name == name && !rs[i].members.contains(user) {
            assert forall|k: int| 0 <= k < rs[i].members.len() implies (|m: Seq<char>| m)(
                #[trigger] rs[i].members[k],
            ) != (|m: Seq<char>| m)(user) by {}
            lemma_unique_push(rs[i].members, user, |m: Seq<char>| m);
        }
    }
}

proof fn lemma_roles_without_member(rs: Seq<RoleView>, name: Seq<char>, user: Seq<char>)
    requires
        roles_ok(rs),
    ensures
        roles_ok(without_member(rs, name, user)),
{
    let w = without_member(rs, name, user);
    assert forall|i: int, j: int| 0 <= i < j < w.len() implies w[i].name != w[j].name by {
        assert(w[i].name == rs[i].name && w[j].name == rs[j].name);
    }
    assert forall|i: int| 0 <= i < w.len() implies unique_by(#[trigger] w[i].members, |m: Seq<char>| m) by {
        assert(unique_by(rs[i].members, |m: Seq<char>| m));
        let f = is_user(user);
        if rs[i].name == name {
            lemma_unique_drop(rs[i].members, f, |m: Seq<char>| m);
            assert(w[i].members == drop_where(rs[i].members, f));
        } else {
            assert(w[i] == rs[i]);
        }
    }
}

proof fn lemma_tags_replace(ts: Seq<LfTagView>, t: LfTagView)
    requires
        unique_by(ts, |x: LfTagView| x.key),
    ensures
        unique_by(drop_where(ts, |x: LfTagView| x.key == t.key).push(t), |x: LfTagView| x.key),
{
    let key = |x: LfTagView| x.key;
    lemma_unique_replace(ts, t, key);
    assert((|a: LfTagView| key(a) == key(t)) =~= (|x: LfTagView| x.key == t.key));
}

proof fn lemma_permissions_grant(ps: Seq<PermissionView>, p: PermissionView)
    requires
        unique_by(ps, |q: PermissionView| (q.principal, q.resource)),
    ensures
        unique_by(granted(ps, p), |q: PermissionView| (q.principal, q.resource)),
{
    let key = |q: PermissionView| (q.principal, q.resource);
    lemma_unique_replace(ps, p, key);
    assert((|a: PermissionView| key(a) == key(p)) =~= (|q: PermissionView| same_key(q, p.principal, p.resource)));
}

/// The complete state of the store.
#[derive(Debug)]
pub struct EmulatorState {
    /// Granted permissions, in the order they were granted.
    pub permissions: Vec<Permission>,
    /// Roles and their members.
    pub roles: Vec<Role>,
    /// Declared tags.
    pub tags: Vec<LfTag>,
    /// Session context consulted by row filters.
    pub session_context: StrMap,
}

impl View for EmulatorState {
    type V = StateView;

    open spec fn view(&self) -> StateView {
        StateView {
            permissions: perms(self.permissions@),
            roles: self.roles@.map_values(|r: Role| r@),
            tags: self.tags@.map_values(|t: LfTag| t@),
            session_context: self.session_context@,
        }
    }
}

impl Clone for EmulatorState {
    fn clone(&self) -> (r: EmulatorState)
        ensures
            r@ == self@,
    {
        let mut roles: Vec<Role> = Vec::new();
        let mut i: usize = 0;
        while i < self.roles.len()
            invariant
                0 <= i <= self.roles.len(),
                roles@.map_values(|r: Role| r@) == self.roles@.map_values(|r: Role| r@).subrange(
                    0,
                    i as int,
                ),
            decreases self.roles.len() - i,
        {
            let ghost pre = roles@;
            let r = self.roles[i].clone();
            roles.push(r);
            proof {
                assert(roles@.map_values(|r: Role| r@) =~= pre.map_values(|r: Role| r@).push(r@));
                assert(self.roles@.map_values(|r: Role| r@).subrange(0, i + 1) =~= self.roles@.map_values(
                    |r: Role| r@,
                ).subrange(0, i as int).push(r@));
            }
            i = i + 1;
        }
        let mut tags: Vec<LfTag> = Vec::new();
        let mut j: usize = 0;
        while j < self.tags.len()
            invariant
                0 <= j <= self.tags.len(),
                tags@.map_values(|t: LfTag| t@) == self.tags@.map_values(|t: LfTag| t@).subrange(
                    0,
                    j as int,
                ),
            decreases self.tags.len() - j,
        {
            let ghost pre = tags@;
            let t = self.tags[j].clone();
            tags.push(t);
            proof {
                assert(tags@.map_values(|t: LfTag| t@) =~= pre.map_values(|t: LfTag| t@).push(t@));
                assert(self.tags@.map_values(|t: LfTag| t@).subrange(0, j + 1) =~= self.tags@.map_values(
                    |t: LfTag| t@,
                ).subrange(0, j as int).push(t@));
            }
            j = j + 1;
        }
        proof {
            assert(roles@.map_values(|r: Role| r@) =~= self.roles@.map_values(|r: Role| r@));
            assert(tags@.map_values(|t: LfTag| t@) =~= self.tags@.map_values(|t: LfTag| t@));
        }
        EmulatorState {
            permissions: clone_permissions(&self.permissions),
            roles,
            tags,
            session_context: self.session_context.clone(),
        }
    }
}

/// Which permissions a removal takes out.
enum Removal<'a> {
    SameKey(&'a Principal, &'a Resource),
    Revoked(&'a Principal, &'a Resource, &'a [Action]),
    OfRole(&'a str),
}

spec fn removes(d: Removal, p: PermissionView) -> bool {
    match d {
        Removal::SameKey(pr, res) => same_key(p, pr@, res@),
        Removal::Revoked(pr, res, acts) => same_key(p, pr@, res@) && shares_action(acts@, p.actions),
        Removal::OfRole(name) => p.principal == PrincipalView::Role(name@),
    }
}

fn shares_action_exec(a: &[Action], b: &Vec<Action>) -> (r: bool)
    ensures
        r == shares_action(a@, b@),
{
    let mut i: usize = 0;
    while i < a.len()
        invariant
            0 <= i <= a.len(),
            forall|k: int| 0 <= k < i ==> !b@.contains(#[trigger] a@[k]),
        decreases a.len() - i,
    {
        if crate::types::has_action(b, a[i]) {
            return true;
        }
        i = i + 1;
    }
    false
}

fn is_removed(d: &Removal, p: &Permission) -> (r: bool)
    ensures
        r == removes(*d, p@),
{
    match d {
        Removal::SameKey(pr, res) => p.principal == **pr && p.resource == **res,
        Removal::Revoked(pr, res, acts) => p.principal == **pr && p.resource == **res
            && shares_action_exec(acts, &p.actions),
        Removal::OfRole(name) => match &p.principal {
            Principal::Role(n) => crate::text::str_eq(n.as_str(), name),
            _ => false,
        },
    }
}

/// Removes from `v` the permissions that `d` selects, keeping the order of the rest.
fn remove_permissions(v: &mut Vec<Permission>, d: &Removal)
    ensures
        perms(final(v)@) == drop_where(perms(old(v)@), |p: PermissionView| removes(*d, p)),
{
    let ghost all = perms(v@);
    let ghost f = |p: PermissionView| removes(*d, p);
    let mut kept: Vec<Permission> = Vec::new();
    let mut i: usize = 0;
    while i < v.len()
        invariant
            0 <= i <= v.len(),
            all == perms(v@),
            f == (|p: PermissionView| removes(*d, p)),
            perms(kept@) == drop_where(all.subrange(0, i as int), f),
        decreases v.len() - i,
    {
        proof {
            assert(all.subrange(0, i + 1).drop_last() =~= all.subrange(0, i as int));
        }
        if !is_removed(d, &v[i]) {
            let ghost pre = kept@;
            let p = v[i].clone();
            kept.push(p);
            proof {
                assert(perms(kept@) =~= perms(pre).push(p@));
            }
        }
        i = i + 1;
    }
    assert(all.subrange(0, v.len() as int) =~= all);
    *v = kept;
}

impl EmulatorState {
    /// The store's own invariant holds.
    pub open spec fn wf(&self) -> bool {
        state_wf(self@)
    }

    pub fn new() -> (r: EmulatorState)
        ensures
            r.wf(),
            r@.permissions.len() == 0,
            r@.roles.len() == 0,
            r@.tags.len() == 0,
            r@.session_context.len() == 0,
    {
        EmulatorState {
            permissions: Vec::new(),
            roles: Vec::new(),
            tags: Vec::new(),
            session_context: StrMap::new(),
        }
    }

    /// Stores `permission`, replacing whatever was stored under its
    /// (principal, resource) key.
    pub fn grant(&mut self, permission: Permission)
        ensures
            old(self).wf() ==> final(self).wf(),
            final(self)@ == (StateView {
                permissions: granted(old(self)@.permissions, permission@),
                ..old(self)@
            }),
    {
        remove_permissions(
            &mut self.permissions,
            &Removal::SameKey(&permission.principal, &permission.resource),
        );
        let ghost pre = self.permissions@;
        self.permissions.push(permission);
        proof {
            assert(perms(self.permissions@) =~= perms(pre).push(permission@));
            let f1 = |p: PermissionView|
                removes(Removal::SameKey(&permission.principal, &permission.resource), p);
            let f2 = |q: PermissionView|
                same_key(q, permission@.principal, permission@.resource);
            assert(f1 == f2);
        }
        proof {
            if old(self).wf() {
                lemma_permissions_grant(old(self)@.permissions, permission@);
            }
        }
    }

    /// Removes every permission under (`principal`, `resource`) that holds
    /// any of `actions`, whole.
    pub fn revoke(&mut self, principal: &Principal, resource: &Resource, actions: &[Action])
        ensures
            old(self).wf() ==> final(self).wf(),
            final(self)@ == (StateView {
                permissions: revoked(old(self)@.permissions, principal@, resource@, actions@),
                ..old(self)@
            }),
    {
        remove_permissions(&mut self.permissions, &Removal::Revoked(principal, resource, actions));
        proof {
            let f1 = |p: PermissionView| removes(Removal::Revoked(principal, resource, actions), p);
            let f2 = |q: PermissionView|
                same_key(q, principal@, resource@) && shares_action(actions@, q.actions);
            assert(f1 == f2);
        }
        proof {
            if old(self).wf() {
                lemma_unique_drop(
                    old(self)@.permissions,
                    |q: PermissionView| same_key(q, principal@, resource@) && shares_action(actions@, q.actions),
                    |q: PermissionView| (q.principal, q.resource),
                );
            }
        }
    }

    /// Creates a role with no members, replacing any role of that name.
    pub fn create_role(&mut self, name: String)
        ensures
            old(self).wf() ==> final(self).wf(),
            final(self)@ == (StateView {
                roles: drop_where(old(self)@.roles, |r: RoleView| r.name == name@).push(
                    RoleView { name: name@, members: Seq::empty() },
                ),
                ..old(self)@
            }),
    {
        self.remove_roles(name.as_str());
        let ghost pre = self.roles@;
        let role = Role { name, members: Vec::new() };
        self.roles.push(role);
        proof {
            assert(strs(role.members@) =~= Seq::<Seq<char>>::empty());
            assert(self.roles@.map_values(|r: Role| r@) =~= pre.map_values(|r: Role| r@).push(
                role@,
            ));
        }
        proof {
            if old(self).wf() {
                lemma_roles_create(old(self)@.roles, name@);
            }
        }
    }

    fn remove_roles(&mut self, name: &str)
        ensures
            final(self)@ == (StateView {
                roles: drop_where(old(self)@.roles, |r: RoleView| r.name == name@),
                ..old(self)@
            }),
    {
        let ghost all = self@.roles;
        let ghost f = |r: RoleView| r.name == name@;
        let mut kept: Vec<Role> = Vec::new();
        let mut i: usize = 0;
        while i < self.roles.len()
            invariant
                0 <= i <= self.roles.len(),
                all == self@.roles,
                f == (|r: RoleView| r.name == name@),
                kept@.map_values(|r: Role| r@) == drop_where(all.subrange(0, i as int), f),
            decreases self.roles.len() - i,
        {
            proof {
                assert(all.subrange(0, i + 1).drop_last() =~= all.subrange(0, i as int));
            }
            if !crate::text::str_eq(self.roles[i].name.as_str(), name) {
                let ghost pre = kept@;
                let r = self.roles[i].clone();
                kept.push(r);
                proof {
                    assert(kept@.map_values(|r: Role| r@) =~= pre.map_values(|r: Role| r@).push(r@));
                }
            }
            i = i + 1;
        }
        assert(all.subrange(0, self.roles.len() as int) =~= all);
        self.roles = kept;
    }

    /// Drops the roles named `name` and every permission granted to them.
    pub fn drop_role(&mut self, name: &str)
        ensures
            old(self).wf() ==> final(self).wf(),
            final(self)@ == (StateView {
                roles: drop_where(old(self)@.roles, |r: RoleView| r.name == name@),
                permissions: drop_where(
                    old(self)@.permissions,
                    |p: PermissionView| p.principal == PrincipalView::Role(name@),
                ),
                ..old(self)@
            }),
    {
        self.remove_roles(name);
        remove_permissions(&mut self.permissions, &Removal::OfRole(name));
        proof {
            let f1 = |p: PermissionView| removes(Removal::OfRole(name), p);
            let f2 = |p: PermissionView| p.principal == PrincipalView::Role(name@);
            assert(f1 == f2);
        }
        proof {
            if old(self).wf() {
                lemma_roles_drop(old(self)@.roles, |r: RoleView| r.name == name@);
                lemma_unique_drop(
                    old(self)@.permissions,
                    |p: PermissionView| p.principal == PrincipalView::Role(name@),
                    |q: PermissionView| (q.principal, q.resource),
                );
            }
        }
    }

    /// Adds `user` to the role `role`; fails when no such role exists.
    pub fn add_member(&mut self, role: &str, user: &str) -> (r: Result<(), LakeError>)
        ensures
            old(self).wf() ==> final(self).wf(),
            has_role(old(self)@.roles, role@) ==> r is Ok && final(self)@ == (StateView {
                roles: with_member(old(self)@.roles, role@, user@),
                ..old(self)@
            }),
            !has_role(old(self)@.roles, role@) ==> (r matches Err(LakeError::RoleNotFound(m))
                && m@ == role@ && final(self)@ == old(self)@),
    {
        let ghost all = self@.roles;
        let mut found = false;
        let mut i: usize = 0;
        while i < self.roles.len()
            invariant
                0 <= i <= self.roles.len(),
                self.roles.len() == all.len(),
                self@.permissions == old(self)@.permissions,
                self@.tags == old(self)@.tags,
                self@.session_context == old(self)@.session_context,
                all == old(self)@.roles,
                found ==> has_role(all, role@),
                !found ==> forall|k: int| 0 <= k < i ==> (#[trigger] all[k]).name != role@,
                forall|k: int| 0 <= k < i ==> #[trigger] self@.roles[k] == with_member(all, role@, user@)[k],
                forall|k: int| i <= k < all.len() ==> #[trigger] self@.roles[k] == all[k],
            decreases self.roles.len() - i,
        {
            let ghost cur = all[i as int];
            assert(self@.roles[i as int] == cur);
            if crate::text::str_eq(self.roles[i].name.as_str(), role) {
                assert(cur.name == role@);
                found = true;
                if !has_str(&self.roles[i].members, user) {
                    let mut r = self.roles[i].clone();
                    let ghost pre = r.members@;
                    r.members.push(String::from_str(user));
                    proof {
                        assert(strs(r.members@) =~= strs(pre).push(user@));
                    }
                    let ghost before = self.roles@;
                    self.roles.set(i, r);
                    proof {
                        assert(self.roles@ == before.update(i as int, r));
                        assert(self@.roles =~= before.map_values(|x: Role| x@).update(i as int, r@));
                    }
                }
            }
            assert(self@.roles[i as int] == with_member(all, role@, user@)[i as int]);
            i = i + 1;
        }
        proof {
            assert(self@.roles =~= with_member(all, role@, user@));
            if !found {
                assert(self@.roles =~= all);
            }
        }
        proof {
            if old(self).wf() {
                lemma_roles_with_member(all, role@, user@);
            }
        }
        if found {
            Ok(())
        } else {
            Err(LakeError::RoleNotFound(String::from_str(role)))
        }
    }

    /// Removes `user` from the role `role`; fails when no such role exists.
    pub fn remove_member(&mut self, role: &str, user: &str) -> (r: Result<(), LakeError>)
        ensures
            old(self).wf() ==> final(self).wf(),
            has_role(old(self)@.roles, role@) ==> r is Ok && final(self)@ == (StateView {
                roles: without_member(old(self)@.roles, role@, user@),
                ..old(self)@
            }),
            !has_role(old(self)@.roles, role@) ==> (r matches Err(LakeError::RoleNotFound(m))
                && m@ == role@ && final(self)@ == old(self)@),
    {
        let ghost all = self@.roles;
        let mut found = false;
        let mut i: usize = 0;
        while i < self.roles.len()
            invariant
                0 <= i <= self.roles.len(),
                self.roles.len() == all.len(),
                self@.permissions == old(self)@.permissions,
                self@.tags == old(self)@.tags,
                self@.session_context == old(self)@.session_context,
                all == old(self)@.roles,
                found ==> has_role(all, role@),
                !found ==> forall|k: int| 0 <= k < i ==> (#[trigger] all[k]).name != role@,
                forall|k: int| 0 <= k < i ==> #[trigger] self@.roles[k] == without_member(all, role@, user@)[k],
                forall|k: int| i <= k < all.len() ==> #[trigger] self@.roles[k] == all[k],
            decreases self.roles.len() - i,
        {
            let ghost cur = all[i as int];
            assert(self@.roles[i as int] == cur);
            if crate::text::str_eq(self.roles[i].name.as_str(), role) {
                assert(cur.name == role@);
                found = true;
                let mut r = self.roles[i].clone();
                r.members = drop_str(&self.roles[i].members, user);
                let ghost before = self.roles@;
                self.roles.set(i, r);
                proof {
                    assert(self.roles@ == before.update(i as int, r));
                    assert(self@.roles =~= before.map_values(|x: Role| x@).update(i as int, r@));
                }
            }
            assert(self@.roles[i as int] == without_member(all, role@, user@)[i as int]);
            i = i + 1;
        }
        proof {
            assert(self@.roles =~= without_member(all, role@, user@));
            if !found {
                assert(self@.roles =~= all);
            }
        }
        proof {
            if old(self).wf() {
                lemma_roles_without_member(all, role@, user@);
            }
        }
        if found {
            Ok(())
        } else {
            Err(LakeError::RoleNotFound(String::from_str(role)))
        }
    }

    /// Stores `tag`, replacing any tag with the same key.
    pub fn create_tag(&mut self, tag: LfTag)
        ensures
            old(self).wf() ==> final(self).wf(),
            final(self)@ == (StateView {
                tags: drop_where(old(self)@.tags, |t: LfTagView| t.key == tag@.key).push(tag@),
                ..old(self)@
            }),
    {
        self.remove_tags(tag.key.as_str());
        let ghost pre = self.tags@;
        self.tags.push(tag);
        proof {
            assert(self.tags@.map_values(|t: LfTag| t@) =~= pre.map_values(|t: LfTag| t@).push(
                tag@,
            ));
        }
        proof {
            if old(self).wf() {
                lemma_tags_replace(old(self)@.tags, tag@);
            }
        }
    }

    /// Deletes the tag with key `key`. Permissions are left as they are.
    pub fn delete_tag(&mut self, key: &str)
        ensures
            old(self).wf() ==> final(self).wf(),
            final(self)@ == (StateView {
                tags: drop_where(old(self)@.tags, |t: LfTagView| t.key == key@),
                ..old(self)@
            }),
    {
        self.remove_tags(key);
        proof {
            if old(self).wf() {
                lemma_unique_drop(old(self)@.tags, |t: LfTagView| t.key == key@, |t: LfTagView| t.key);
            }
        }
    }

    fn remove_tags(&mut self, key: &str)
        ensures
            final(self)@ == (StateView {
                tags: drop_where(old(self)@.tags, |t: LfTagView| t.key == key@),
                ..old(self)@
            }),
    {
        let ghost all = self@.tags;
        let ghost f = |t: LfTagView| t.key == key@;
        let mut kept: Vec<LfTag> = Vec::new();
        let mut i: usize = 0;
        while i < self.tags.len()
            invariant
                0 <= i <= self.tags.len(),
                all == self@.tags,
                f == (|t: LfTagView| t.key == key@),
                kept@.map_values(|t: LfTag| t@) == drop_where(all.subrange(0, i as int), f),
            decreases self.tags.len() - i,
        {
            proof {
                assert(all.subrange(0, i + 1).drop_last() =~= all.subrange(0, i as int));
            }
            if !crate::text::str_eq(self.tags[i].key.as_str(), key) {
                let ghost pre = kept@;
                let t = self.tags[i].clone();
                kept.push(t);
                proof {
                    assert(kept@.map_values(|t: LfTag| t@) =~= pre.map_values(|t: LfTag| t@).push(t@));
                }
            }
            i = i + 1;
        }
        assert(all.subrange(0, self.tags.len() as int) =~= all);
        self.tags = kept;
    }

    /// Replaces the whole session context.
    pub fn set_session_context(&mut self, context: StrMap)
        ensures
            old(self).wf() && context.wf() ==> final(self).wf(),
            final(self)@ == (StateView { session_context: context@, ..old(self)@ }),
    {
        self.session_context = context;
    }
}

impl Default for EmulatorState {
    fn default() -> (r: EmulatorState)
        ensures
            r@.permissions.len() == 0,
            r@.roles.len() == 0,
            r@.tags.len() == 0,
            r@.session_context.len() == 0,
    {
        EmulatorState::new()
    }
}

/// `v` without the strings equal to `s`.
fn drop_str(v: &Vec<String>, s: &str) -> (r: Vec<String>)
    ensures
        strs(r@) == drop_where(strs(v@), is_user(s@)),
{
    let ghost all = strs(v@);
    let ghost f = is_user(s@);
    let mut kept: Vec<String> = Vec::new();
    let mut i: usize = 0;
    while i < v.len()
        invariant
            0 <= i <= v.len(),
            all == strs(v@),
            f == is_user(s@),
            strs(kept@) == drop_where(all.subrange(0, i as int), f),
        decreases v.len() - i,
    {
        proof {
            assert(all.subrange(0, i + 1).drop_last() =~= all.subrange(0, i as int));
        }
        if !crate::text::str_eq(v[i].as_str(), s) {
            let ghost pre = kept@;
            let m = v[i].clone();
            kept.push(m);
            proof {
                assert(strs(kept@) =~= strs(pre).push(m@));
            }
        }
        i = i + 1;
    }
    assert(all.subrange(0, v.len() as int) =~= all);
    kept
}

} // verus!
