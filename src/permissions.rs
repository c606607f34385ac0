//! A permission store without roles: grants are matched to principals
//! exactly, through the same evaluation as the full engine.
use vstd::prelude::*;
use crate::backend::for_principal;
use crate::backend::for_resource;
use crate::engine::authorized;
use crate::engine::check_access;
use crate::error::LakeError;
use crate::state::granted;
use crate::state::revoked;
use crate::state::EmulatorState;
use crate::state::StateView;
use crate::strmap::insert_entry;
use crate::types::drop_where;
use crate::types::perms;
use crate::types::Action;
use crate::types::LfTag;
use crate::types::LfTagView;
use crate::types::Permission;
use crate::types::PermissionView;
use crate::types::Principal;
use crate::types::Resource;

verus! {

/// The distinct items of `s`, in order of first appearance.
pub open spec fn distinct<A>(s: Seq<A>) -> Seq<A>
    decreases s.len(),
{
    if s.len() == 0 {
        s
    } else if distinct(s.drop_last()).contains(s.last()) {
        distinct(s.drop_last())
    } else {
        distinct(s.drop_last()).push(s.last())
    }
}

/// Grants, tags and session context, with no roles.
#[derive(Debug)]
pub struct PermissionEngine {
    state: EmulatorState,
}

impl PermissionEngine {
    #[verifier::type_invariant]
    spec fn without_roles(&self) -> bool {
        self.state.roles.len() == 0
    }

    /// The store as plain values. It never holds a role: every operation
    /// states so of the store it leaves or reads.
    pub closed spec fn store(&self) -> StateView {
        self.state@
    }

    pub fn new() -> (r: PermissionEngine)
        ensures
            r.store().permissions.len() == 0,
            r.store().roles.len() == 0,
            r.store().tags.len() == 0,
            r.store().session_context.len() == 0,
    {
        PermissionEngine { state: EmulatorState::new() }
    }

    /// Stores `permission`, replacing any entry under its (principal, resource) key.
    pub fn grant_permission(&mut self, permission: Permission) -> (r: Result<(), LakeError>)
        ensures
            final(self).store().roles.len() == 0,
            r is Ok,
            final(self).store() == (StateView {
                permissions: granted(old(self).store().permissions, permission@),
                ..old(self).store()
            }),
    {
        proof {
            use_type_invariant(&*self);
        }
        let mut st = self.state.clone();
        st.grant(permission);
        assert(st@.roles.len() == st.roles.len());
        assert(self.state@.roles.len() == self.state.roles.len());
        self.state = st;
        Ok(())
    }

    /// Removes, whole, every entry under (`principal`, `resource`) holding any of `actions`.
    pub fn revoke_permission(&mut self, principal: &Principal, resource: &Resource, actions: &[Action]) -> (r: Result<
        (),
        LakeError,
    >)
        ensures
            final(self).store().roles.len() == 0,
            r is Ok,
            final(self).store() == (StateView {
                permissions: revoked(old(self).store().permissions, principal@, resource@, actions@),
                ..old(self).store()
            }),
    {
        proof {
            use_type_invariant(&*self);
        }
        let mut st = self.state.clone();
        st.revoke(principal, resource, actions);
        assert(st@.roles.len() == st.roles.len());
        assert(self.state@.roles.len() == self.state.roles.len());
        self.state = st;
        Ok(())
    }

    /// Whether some stored permission allows `action` on `resource` to
    /// `principal`; with no roles, principals match only themselves.
    pub fn check_permission(&self, principal: &Principal, resource: &Resource, action: &Action) -> (r: bool)
        ensures
            self.store().roles.len() == 0,
            r == authorized(self.store(), principal@, resource@, *action),
    {
        proof {
            use_type_invariant(self);
        }
        check_access(&self.state, principal, resource, action)
    }

    /// Binds `key` to `value` in the session context, keeping the other keys.
    pub fn set_session_context(&mut self, key: String, value: String)
        ensures
            final(self).store().roles.len() == 0,
            final(self).store() == (StateView {
                session_context: insert_entry(old(self).store().session_context, key@, value@),
                ..old(self).store()
            }),
    {
        proof {
            use_type_invariant(&*self);
        }
        let mut st = self.state.clone();
        st.session_context.insert(key, value);
        assert(st@.roles.len() == st.roles.len());
        assert(self.state@.roles.len() == self.state.roles.len());
        self.state = st;
    }

    /// Stores `tag`, replacing any tag with the same key.
    pub fn create_tag(&mut self, tag: LfTag) -> (r: Result<(), LakeError>)
        ensures
            final(self).store().roles.len() == 0,
            r is Ok,
            final(self).store() == (StateView {
                tags: drop_where(old(self).store().tags, |t: LfTagView| t.key == tag@.key).push(tag@),
                ..old(self).store()
            }),
    {
        proof {
            use_type_invariant(&*self);
        }
        let mut st = self.state.clone();
        st.create_tag(tag);
        assert(st@.roles.len() == st.roles.len());
        assert(self.state@.roles.len() == self.state.roles.len());
        self.state = st;
        Ok(())
    }

    /// The stored permissions granted to exactly `principal`, in order.
    pub fn get_permissions_for_principal(&self, principal: &Principal) -> (r: Vec<Permission>)
        ensures
            perms(r@) == for_principal(self.store().permissions, principal@),
    {
        crate::backend::select_permissions(&self.state.permissions, Some(principal), None)
    }

    /// The stored permissions whose resource covers `resource`, in order.
    pub fn get_permissions_for_resource(&self, resource: &Resource) -> (r: Vec<Permission>)
        ensures
            perms(r@) == for_resource(self.store().permissions, resource@),
    {
        crate::backend::select_permissions(&self.state.permissions, None, Some(resource))
    }

    /// The principals that hold a permission, each once, in order of first grant.
    pub fn list_principals(&self) -> (r: Vec<Principal>)
        ensures
            r@.map_values(|p: Principal| p@) == distinct(
                self.store().permissions.map_values(|p: PermissionView| p.principal),
            ),
    {
        let ghost all = self.store().permissions.map_values(|p: PermissionView| p.principal);
        let mut out: Vec<Principal> = Vec::new();
        let mut i: usize = 0;
        while i < self.state.permissions.len()
            invariant
                0 <= i <= self.state.permissions.len(),
                all == perms(self.state.permissions@).map_values(|p: PermissionView| p.principal),
                all == self.store().permissions.map_values(|p: PermissionView| p.principal),
                out@.map_values(|p: Principal| p@) == distinct(all.subrange(0, i as int)),
            decreases self.state.permissions.len() - i,
        {
            let ghost pre = out@;
            let seen = seen_before(&self.state.permissions, i, true);
            proof {
                assert(all.subrange(0, i + 1).drop_last() =~= all.subrange(0, i as int));
                assert(all.subrange(0, i + 1).last() == all[i as int]);
                lemma_distinct_contains(all.subrange(0, i as int), all[i as int]);
            }
            if !seen {
                let c = self.state.permissions[i].principal.clone();
                out.push(c);
                proof {
                    assert(out@.map_values(|q: Principal| q@) =~= pre.map_values(|q: Principal| q@).push(c@));
                }
            }
            i = i + 1;
        }
        assert(all.subrange(0, all.len() as int) =~= all);
        out
    }

    /// The resources that carry a permission, each once, in order of first grant.
    pub fn list_resources(&self) -> (r: Vec<Resource>)
        ensures
            r@.map_values(|x: Resource| x@) == distinct(
                self.store().permissions.map_values(|p: PermissionView| p.resource),
            ),
    {
        let ghost all = self.store().permissions.map_values(|p: PermissionView| p.resource);
        let mut out: Vec<Resource> = Vec::new();
        let mut i: usize = 0;
        while i < self.state.permissions.len()
            invariant
                0 <= i <= self.state.permissions.len(),
                all == perms(self.state.permissions@).map_values(|p: PermissionView| p.resource),
                all == self.store().permissions.map_values(|p: PermissionView| p.resource),
                out@.map_values(|x: Resource| x@) == distinct(all.subrange(0, i as int)),
            decreases self.state.permissions.len() - i,
        {
            let ghost pre = out@;
            let seen = seen_before(&self.state.permissions, i, false);
            proof {
                assert(all.subrange(0, i + 1).drop_last() =~= all.subrange(0, i as int));
                assert(all.subrange(0, i + 1).last() == all[i as int]);
                lemma_distinct_contains(all.subrange(0, i as int), all[i as int]);
            }
            if !seen {
                let c = self.state.permissions[i].resource.clone();
                out.push(c);
                proof {
                    assert(out@.map_values(|q: Resource| q@) =~= pre.map_values(|q: Resource| q@).push(c@));
                }
            }
            i = i + 1;
        }
        assert(all.subrange(0, all.len() as int) =~= all);
        out
    }
}

/// `distinct` drops repeats only.
pub proof fn lemma_distinct_contains<A>(s: Seq<A>, x: A)
    ensures
        distinct(s).contains(x) == s.contains(x),
    decreases s.len(),
{
    if s.len() > 0 {
        let t = s.drop_last();
        let l = s.last();
        lemma_distinct_contains(t, x);
        lemma_distinct_contains(t, l);
        lemma_push_contains(t, l, x);
        assert(s =~= t.push(l));
        if distinct(t).contains(l) {
            assert(distinct(s) == distinct(t));
        } else {
            assert(distinct(s) == distinct(t).push(l));
            lemma_push_contains(distinct(t), l, x);
        }
    }
}

proof fn lemma_push_contains<A>(s: Seq<A>, y: A, x: A)
    ensures
        s.push(y).contains(x) == (s.contains(x) || x == y),
{
    if s.contains(x) {
        let w = choose|w: int| 0 <= w < s.len() && s[w] == x;
        assert(s.push(y)[w] == x);
    }
    if x == y {
        assert(s.push(y)[s.len() as int] == y);
    }
    if s.push(y).contains(x) && x != y {
        let w = choose|w: int| 0 <= w < s.push(y).len() && s.push(y)[w] == x;
        assert(s[w] == x);
    }
}

/// Whether the principal (or else the resource) of entry `i` already appears
/// in an earlier entry.
fn seen_before(ps: &Vec<Permission>, i: usize, principals: bool) -> (r: bool)
    requires
        i < ps.len(),
    ensures
        principals ==> r == perms(ps@).map_values(|p: PermissionView| p.principal).subrange(
            0,
            i as int,
        ).contains(ps@[i as int]@.principal),
        !principals ==> r == perms(ps@).map_values(|p: PermissionView| p.resource).subrange(
            0,
            i as int,
        ).contains(ps@[i as int]@.resource),
{
    let ghost pr = perms(ps@).map_values(|p: PermissionView| p.principal).subrange(0, i as int);
    let ghost rs = perms(ps@).map_values(|p: PermissionView| p.resource).subrange(0, i as int);
    let mut j: usize = 0;
    while j < i
        invariant
            i < ps.len(),
            0 <= j <= i,
            pr == perms(ps@).map_values(|p: PermissionView| p.principal).subrange(0, i as int),
            rs == perms(ps@).map_values(|p: PermissionView| p.resource).subrange(0, i as int),
            principals ==> forall|k: int| 0 <= k < j ==> pr[k] != ps@[i as int]@.principal,
            !principals ==> forall|k: int| 0 <= k < j ==> rs[k] != ps@[i as int]@.resource,
        decreases i - j,
    {
        let same = if principals {
            ps[j].principal == ps[i].principal
        } else {
            ps[j].resource == ps[i].resource
        };
        assert(pr[j as int] == ps@[j as int]@.principal);
        assert(rs[j as int] == ps@[j as int]@.resource);
        if same {
            return true;
        }
        j = j + 1;
    }
    false
}

impl Default for PermissionEngine {
    fn default() -> (r: PermissionEngine)
        ensures
            r.store().permissions.len() == 0,
            r.store().roles.len() == 0,
            r.store().tags.len() == 0,
            r.store().session_context.len() == 0,
    {
        PermissionEngine::new()
    }
}

} // verus!
