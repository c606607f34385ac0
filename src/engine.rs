//! The authorization engine: first-match, allow-list, fail-closed evaluation
//! of a request against a snapshot of the store.
use vstd::prelude::*;
use crate::error::LakeError;
use crate::expression::eval_filter;
use crate::expression::ExpressionEvaluator;
use crate::expression::Pairs;
use crate::state::has_role;
use crate::state::is_member;
use crate::state::with_member;
use crate::state::without_member;
use crate::state::EmulatorState;
use crate::state::StateView;
use crate::strmap::insert_entry;
use crate::strmap::StrMap;
use crate::text::contains;
use crate::types::covered_by;
use crate::types::has_action;
use crate::types::has_str;
use crate::types::keep_where;
use crate::types::perms;
use crate::types::principal_matches;
use crate::types::Action;
use crate::types::Permission;
use crate::types::PermissionView;
use crate::types::Principal;
use crate::types::PrincipalView;
use crate::types::Resource;
use crate::types::ResourceView;
use crate::types::RowFilter;
use crate::types::RowFilterView;

verus! {

/// Whether a request by `req` is answered by a grant to `granted`: the same
/// identity, or a user who is a member of the granted role.
pub open spec fn resolves(req: PrincipalView, granted: PrincipalView, roles: Seq<crate::types::RoleView>) -> bool {
    principal_matches(req, granted) || match (req, granted) {
        (PrincipalView::User(u), PrincipalView::Role(r)) => is_member(roles, r, u),
        _ => false,
    }
}

/// The representative row a filter on `r` is evaluated against.
pub open spec fn sample_row(r: ResourceView) -> Pairs {
    let e = Seq::<(Seq<char>, Seq<char>)>::empty();
    match r {
        ResourceView::Table { database, table, .. } => if database == "sales"@ && table
            == "orders"@ {
            insert_entry(
                insert_entry(
                    insert_entry(
                        insert_entry(insert_entry(e, "region"@, "west"@), "department"@, "sales"@),
                        "customer_id"@,
                        "12345"@,
                    ),
                    "amount"@,
                    "1000.00"@,
                ),
                "status"@,
                "active"@,
            )
        } else if database == "hr"@ && table == "employees"@ {
            insert_entry(
                insert_entry(
                    insert_entry(
                        insert_entry(e, "department"@, "engineering"@),
                        "manager"@,
                        "john_doe"@,
                    ),
                    "level"@,
                    "senior"@,
                ),
                "region"@,
                "west"@,
            )
        } else if database == "finance"@ && table == "transactions"@ {
            insert_entry(
                insert_entry(
                    insert_entry(e, "classification"@, "confidential"@),
                    "department"@,
                    "finance"@,
                ),
                "region"@,
                "east"@,
            )
        } else {
            insert_entry(insert_entry(e, "region"@, "west"@), "department"@, "general"@)
        },
        ResourceView::Database { name } => {
            let base = insert_entry(
                insert_entry(e, "database_owner"@, "admin"@),
                "classification"@,
                "internal"@,
            );
            if contains(name, "finance"@) {
                insert_entry(base, "department"@, "finance"@)
            } else {
                base
            }
        },
        _ => insert_entry(e, "access_level"@, "public"@),
    }
}

/// Whether a row filter lets a request on `r` through: no filter, or one
/// that evaluates to true. A filter that fails to evaluate does not.
pub open spec fn filter_passes(f: Option<RowFilterView>, ctx: Pairs, r: ResourceView) -> bool {
    match f {
        None => true,
        Some(f) => eval_filter(f.expression, ctx, sample_row(r)) == Ok::<bool, crate::expression::FilterFailure>(true),
    }
}

/// Whether the stored permission `p` allows `action` on `res` to `req`.
pub open spec fn entry_matches(
    st: StateView,
    p: PermissionView,
    req: PrincipalView,
    res: ResourceView,
    action: Action,
) -> bool {
    &&& resolves(req, p.principal, st.roles)
    &&& p.actions.contains(action)
    &&& covered_by(res, p.resource)
    &&& filter_passes(p.row_filter, st.session_context, res)
}

/// Whether some stored permission allows the request.
pub open spec fn authorized(st: StateView, req: PrincipalView, res: ResourceView, action: Action) -> bool {
    exists|i: int|
        0 <= i < st.permissions.len() && entry_matches(st, #[trigger] st.permissions[i], req, res, action)
}

pub open spec fn bool_text(b: bool) -> Seq<char> {
    if b {
        "true"@
    } else {
        "false"@
    }
}

/// The decimal digits of `n`.
pub open spec fn decimal(n: nat) -> Seq<char>
    decreases n,
{
    if n < 10 {
        "0123456789"@.subrange(n as int, n + 1 as int)
    } else {
        decimal(n / 10) + "0123456789"@.subrange((n % 10) as int, (n % 10) + 1 as int)
    }
}

/// The trace line of the `i`th stored permission.
pub open spec fn trace_line(st: StateView, i: nat, req: PrincipalView, res: ResourceView, action: Action) -> Seq<char> {
    let p = st.permissions[i as int];
    let pm = resolves(req, p.principal, st.roles);
    let am = p.actions.contains(action);
    let rm = covered_by(res, p.resource);
    let fm = filter_passes(p.row_filter, st.session_context, res);
    "Permission "@ + decimal(i) + ": principal="@ + bool_text(pm) + " action="@ + bool_text(am)
        + " resource="@ + bool_text(rm) + " row_filter="@ + bool_text(fm) + " => "@ + bool_text(
        pm && am && rm && fm,
    )
}

/// The trace lines of the first `n` stored permissions, one per line.
pub open spec fn trace_upto(st: StateView, req: PrincipalView, res: ResourceView, action: Action, n: nat) -> Seq<char>
    decreases n,
{
    if n == 0 {
        Seq::empty()
    } else if n == 1 {
        trace_line(st, 0, req, res, action)
    } else {
        trace_upto(st, req, res, action, (n - 1) as nat) + "\n"@ + trace_line(
            st,
            (n - 1) as nat,
            req,
            res,
            action,
        )
    }
}

pub fn decimal_string(n: usize) -> (r: String)
    ensures
        r@ == decimal(n as nat),
    decreases n,
{
    proof {
        reveal_strlit("0123456789");
    }
    if n < 10 {
        String::from_str("0123456789".substring_char(n, n + 1))
    } else {
        let d = n % 10;
        decimal_string(n / 10).concat("0123456789".substring_char(d, d + 1))
    }
}

fn bool_string(b: bool) -> (r: &'static str)
    ensures
        r@ == bool_text(b),
{
    if b {
        "true"
    } else {
        "false"
    }
}

/// Evaluates permission requests against its own copy of the store.
#[derive(Debug)]
pub struct EmulatorEngine {
    state: EmulatorState,
}

impl EmulatorEngine {
    /// The snapshot the engine evaluates against.
    pub closed spec fn snapshot(&self) -> StateView {
        self.state@
    }

    pub fn new() -> (r: EmulatorEngine)
        ensures
            r.snapshot().permissions.len() == 0,
            r.snapshot().roles.len() == 0,
            r.snapshot().tags.len() == 0,
            r.snapshot().session_context.len() == 0,
    {
        EmulatorEngine { state: EmulatorState::new() }
    }

    /// Replaces the engine's snapshot with a copy of `state`.
    pub fn update_state(&mut self, state: &EmulatorState)
        ensures
            final(self).snapshot() == state@,
    {
        self.state = state.clone();
    }

    /// Whether some stored permission allows `action` on `resource` to `principal`.
    pub fn check_permission(&self, principal: &Principal, resource: &Resource, action: &Action) -> (r: bool)
        ensures
            r == authorized(self.snapshot(), principal@, resource@, *action),
    {
        check_access(&self.state, principal, resource, action)
    }





    /// The stored permissions that a request by `principal` resolves against.
    pub fn get_effective_permissions(&self, principal: &Principal) -> (r: Vec<Permission>)
        ensures
            perms(r@) == keep_where(
                self.snapshot().permissions,
                |p: PermissionView| resolves(principal@, p.principal, self.snapshot().roles),
            ),
    {
        let ghost all = self.snapshot().permissions;
        let ghost f = |p: PermissionView| !resolves(principal@, p.principal, self.snapshot().roles);
        let mut out: Vec<Permission> = Vec::new();
        let mut i: usize = 0;
        while i < self.state.permissions.len()
            invariant
                0 <= i <= self.state.permissions.len(),
                all == self.snapshot().permissions,
                all == perms(self.state.permissions@),
                f == (|p: PermissionView| !resolves(principal@, p.principal, self.snapshot().roles)),
                perms(out@) == crate::types::drop_where(all.subrange(0, i as int), f),
            decreases self.state.permissions.len() - i,
        {
            proof {
                assert(all.subrange(0, i + 1).drop_last() =~= all.subrange(0, i as int));
            }
            if principal_resolves(&self.state, principal, &self.state.permissions[i].principal) {
                let ghost pre = out@;
                let p = self.state.permissions[i].clone();
                out.push(p);
                proof {
                    assert(perms(out@) =~= perms(pre).push(p@));
                }
            }
            i = i + 1;
        }
        assert(all.subrange(0, all.len() as int) =~= all);
        proof {
            let g = |p: PermissionView| resolves(principal@, p.principal, self.snapshot().roles);
            assert((|a: PermissionView| !g(a)) =~= f);
        }
        out
    }

    /// Whether `principal` exists: a role only if it was created, any other
    /// principal always.
    pub fn principal_exists(&self, principal: &Principal) -> (r: bool)
        ensures
            r == match principal@ {
                PrincipalView::Role(name) => has_role(self.snapshot().roles, name),
                _ => true,
            },
    {
        match principal {
            Principal::Role(name) => {
                let roles = &self.state.roles;
                let mut i: usize = 0;
                while i < roles.len()
                    invariant
                        0 <= i <= roles.len(),
                        roles@.map_values(|r: crate::types::Role| r@) == self.snapshot().roles,
                        forall|k: int| 0 <= k < i ==> (#[trigger] self.snapshot().roles[k]).name != name@,
                        principal@ == PrincipalView::Role(name@),
                    decreases roles.len() - i,
                {
                    if crate::text::str_eq(roles[i].name.as_str(), name.as_str()) {
                        assert(self.snapshot().roles[i as int] == roles@[i as int]@);
                        assert(self.snapshot().roles[i as int].name == name@);

                        return true;
                    }
                    i = i + 1;
                }
                false
            },
            _ => true,
        }
    }

    /// Adds `user` to `role` in the engine's snapshot.
    pub fn add_user_to_role(&mut self, user: String, role: String) -> (r: Result<(), LakeError>)
        ensures
            has_role(old(self).snapshot().roles, role@) ==> r is Ok && final(self).snapshot() == (StateView {
                roles: with_member(old(self).snapshot().roles, role@, user@),
                ..old(self).snapshot()
            }),
            !has_role(old(self).snapshot().roles, role@) ==> (r matches Err(LakeError::RoleNotFound(m))
                && m@ == role@ && final(self).snapshot() == old(self).snapshot()),
    {
        self.state.add_member(role.as_str(), user.as_str())
    }

    /// Removes `user` from `role` in the engine's snapshot.
    pub fn remove_user_from_role(&mut self, user: &str, role: &str) -> (r: Result<(), LakeError>)
        ensures
            has_role(old(self).snapshot().roles, role@) ==> r is Ok && final(self).snapshot() == (StateView {
                roles: without_member(old(self).snapshot().roles, role@, user@),
                ..old(self).snapshot()
            }),
            !has_role(old(self).snapshot().roles, role@) ==> (r matches Err(LakeError::RoleNotFound(m))
                && m@ == role@ && final(self).snapshot() == old(self).snapshot()),
    {
        self.state.remove_member(role, user)
    }

    /// The members of the first role named `role`, if there is one.
    pub fn get_role_members(&self, role: &str) -> (r: Option<&Vec<String>>)
        ensures
            r is None <==> !has_role(self.snapshot().roles, role@),
            r matches Some(ms) ==> exists|i: int|
                0 <= i < self.snapshot().roles.len() && (#[trigger] self.snapshot().roles[i]).name
                    == role@ && self.snapshot().roles[i].members == crate::types::strs(ms@),
    {
        let roles = &self.state.roles;
        let mut i: usize = 0;
        while i < roles.len()
            invariant
                0 <= i <= roles.len(),
                roles@.map_values(|r: crate::types::Role| r@) == self.snapshot().roles,
                forall|k: int| 0 <= k < i ==> (#[trigger] self.snapshot().roles[k]).name != role@,
            decreases roles.len() - i,
        {
            if crate::text::str_eq(roles[i].name.as_str(), role) {
                assert(self.snapshot().roles[i as int] == roles@[i as int]@);
                return Some(&roles[i].members);
            }
            i = i + 1;
        }
        None
    }

    /// The decision together with one trace line per permission examined.
    pub fn check_permission_with_reason(
        &self,
        principal: &Principal,
        resource: &Resource,
        action: &Action,
    ) -> (r: (bool, String))
        ensures
            r.0 == authorized(self.snapshot(), principal@, resource@, *action),
            r.0 ==> exists|k: int|
                0 <= k < self.snapshot().permissions.len() && entry_matches(
                    self.snapshot(),
                    #[trigger] self.snapshot().permissions[k],
                    principal@,
                    resource@,
                    *action,
                ) && (forall|j: int| 0 <= j < k ==> !entry_matches(
                    self.snapshot(),
                    #[trigger] self.snapshot().permissions[j],
                    principal@,
                    resource@,
                    *action,
                )) && r.1@ == trace_upto(self.snapshot(), principal@, resource@, *action, (k + 1) as nat),
            !r.0 ==> r.1@ == "DENIED:\n"@ + trace_upto(
                self.snapshot(),
                principal@,
                resource@,
                *action,
                self.snapshot().permissions.len(),
            ),
    {
        let ghost st = self.snapshot();
        let n = self.state.permissions.len();
        let mut reasons = String::new();
        let mut i: usize = 0;
        while i < n
            invariant
                0 <= i <= n,
                st == self.snapshot(),
                n == st.permissions.len(),
                reasons@ == trace_upto(st, principal@, resource@, *action, i as nat),
                forall|k: int| 0 <= k < i ==> !entry_matches(
                    st,
                    #[trigger] st.permissions[k],
                    principal@,
                    resource@,
                    *action,
                ),
            decreases n - i,
        {
            let permission = &self.state.permissions[i];
            assert(st.permissions[i as int] == permission@);
            let principal_match = principal_resolves(&self.state, principal, &permission.principal);
            let action_match = has_action(&permission.actions, *action);
            let resource_match = resource.is_covered_by(&permission.resource);
            let row_filter_match = match &permission.row_filter {
                Some(f) => row_filter_passes(&self.state, f, resource),
                None => true,
            };
            let all = principal_match && action_match && resource_match && row_filter_match;
            let line = String::from_str("Permission ").concat(decimal_string(i).as_str()).concat(
                ": principal=",
            ).concat(bool_string(principal_match)).concat(" action=").concat(
                bool_string(action_match),
            ).concat(" resource=").concat(bool_string(resource_match)).concat(" row_filter=").concat(
                bool_string(row_filter_match),
            ).concat(" => ").concat(bool_string(all));
            assert(line@ == trace_line(st, i as nat, principal@, resource@, *action)) by {
                assert(line@ =~= trace_line(st, i as nat, principal@, resource@, *action));
            }
            if i == 0 {
                reasons = line;
            } else {
                reasons = reasons.concat("\n").concat(line.as_str());
            }
            if all {
                return (true, reasons);
            }
            i = i + 1;
        }
        (false, String::from_str("DENIED:\n").concat(reasons.as_str()))
    }
}

/// Whether some stored permission of `st` allows `action` on `resource` to
/// `principal`: the entries are scanned in order and the first full match
/// allows; with no match the request is denied.
pub fn check_access(st: &EmulatorState, principal: &Principal, resource: &Resource, action: &Action) -> (r: bool)
    ensures
        r == authorized(st@, principal@, resource@, *action),
{
    let n = st.permissions.len();
    let mut i: usize = 0;
    while i < n
        invariant
            0 <= i <= n,
            n == st@.permissions.len(),
            forall|k: int| 0 <= k < i ==> !entry_matches(
                st@,
                #[trigger] st@.permissions[k],
                principal@,
                resource@,
                *action,
            ),
        decreases n - i,
    {
        if permission_applies(st, principal, resource, action, &st.permissions[i]) {
            assert(st@.permissions[i as int] == st.permissions@[i as int]@);
            return true;
        }
        i = i + 1;
    }
    false
}

/// Whether the stored `permission` allows the request: principal
/// resolution, action membership, resource coverage, then the row filter.
pub fn permission_applies(
    st: &EmulatorState,
    principal: &Principal,
    resource: &Resource,
    action: &Action,
    permission: &Permission,
) -> (r: bool)
    ensures
        r == entry_matches(st@, permission@, principal@, resource@, *action),
{
    if !principal_resolves(st, principal, &permission.principal) {
        return false;
    }
    if !has_action(&permission.actions, *action) {
        return false;
    }
    if !resource.is_covered_by(&permission.resource) {
        return false;
    }
    match &permission.row_filter {
        Some(f) => row_filter_passes(st, f, resource),
        None => true,
    }
}

/// Principal resolution, including role membership.
pub fn principal_resolves(st: &EmulatorState, request: &Principal, granted: &Principal) -> (r: bool)
    ensures
        r == resolves(request@, granted@, st@.roles),
{
    if request.matches(granted) {
        return true;
    }
    match (request, granted) {
        (Principal::User(user), Principal::Role(role)) => member_of(st, role.as_str(), user.as_str()),
        _ => false,
    }
}

fn member_of(st: &EmulatorState, role: &str, user: &str) -> (r: bool)
    ensures
        r == is_member(st@.roles, role@, user@),
{
    let roles = &st.roles;
    let mut i: usize = 0;
    while i < roles.len()
        invariant
            0 <= i <= roles.len(),
            roles@.map_values(|r: crate::types::Role| r@) == st@.roles,
            forall|k: int| 0 <= k < i ==> !((#[trigger] st@.roles[k]).name == role@
                && st@.roles[k].members.contains(user@)),
        decreases roles.len() - i,
    {
        if crate::text::str_eq(roles[i].name.as_str(), role) && has_str(&roles[i].members, user) {
            assert(st@.roles[i as int] == roles@[i as int]@);
            return true;
        }
        i = i + 1;
    }
    false
}

/// Evaluates `row_filter` for a request on `resource`; any failure denies.
pub fn row_filter_passes(st: &EmulatorState, row_filter: &RowFilter, resource: &Resource) -> (r: bool)
    ensures
        r == filter_passes(Some(row_filter@), st@.session_context, resource@),
{
    let mut evaluator = ExpressionEvaluator::new();
    evaluator.set_session_context(st.session_context.clone());
    evaluator.set_row_data(create_sample_row_data(resource));
    match evaluator.evaluate_filter(row_filter) {
        Ok(b) => b,
        Err(_) => false,
    }
}

impl Default for EmulatorEngine {
    fn default() -> (r: EmulatorEngine)
        ensures
            r.snapshot().permissions.len() == 0,
            r.snapshot().roles.len() == 0,
            r.snapshot().tags.len() == 0,
            r.snapshot().session_context.len() == 0,
    {
        EmulatorEngine::new()
    }
}

/// The representative row data for `resource`.
fn create_sample_row_data(resource: &Resource) -> (r: StrMap)
    ensures
        r@ == sample_row(resource@),
{
    let mut row = StrMap::new();
    match resource {
        Resource::Table { database, table, .. } => {
            let d = database.as_str();
            let t = table.as_str();
            if crate::text::str_eq(d, "sales") && crate::text::str_eq(t, "orders") {
                row.insert(String::from_str("region"), String::from_str("west"));
                row.insert(String::from_str("department"), String::from_str("sales"));
                row.insert(String::from_str("customer_id"), String::from_str("12345"));
                row.insert(String::from_str("amount"), String::from_str("1000.00"));
                row.insert(String::from_str("status"), String::from_str("active"));
            } else if crate::text::str_eq(d, "hr") && crate::text::str_eq(t, "employees") {
                row.insert(String::from_str("department"), String::from_str("engineering"));
                row.insert(String::from_str("manager"), String::from_str("john_doe"));
                row.insert(String::from_str("level"), String::from_str("senior"));
                row.insert(String::from_str("region"), String::from_str("west"));
            } else if crate::text::str_eq(d, "finance") && crate::text::str_eq(t, "transactions") {
                row.insert(String::from_str("classification"), String::from_str("confidential"));
                row.insert(String::from_str("department"), String::from_str("finance"));
                row.insert(String::from_str("region"), String::from_str("east"));
            } else {
                row.insert(String::from_str("region"), String::from_str("west"));
                row.insert(String::from_str("department"), String::from_str("general"));
            }
        },
        Resource::Database { name } => {
            row.insert(String::from_str("database_owner"), String::from_str("admin"));
            row.insert(String::from_str("classification"), String::from_str("internal"));
            if crate::text::find_str(name.as_str(), "finance").is_some() {
                row.insert(String::from_str("department"), String::from_str("finance"));
            }
        },
        _ => {
            row.insert(String::from_str("access_level"), String::from_str("public"));
        },
    }
    row
}

} // verus!
