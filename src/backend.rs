//! The in-memory backend: statements and mutations applied to the store,
//! and the capability interface every backend offers.
use vstd::prelude::*;
use crate::engine::authorized;
use crate::engine::check_access;
use crate::error::LakeError;
use crate::parser::parse_ddl;
use crate::parser::parse_spec;
use crate::parser::permission_of;
use crate::parser::DdlStatement;
use crate::parser::StatementView;
use crate::state::granted;
use crate::state::revoked;
use crate::state::EmulatorState;
use crate::state::StateView;
use crate::strmap::StrMap;
use crate::types::covered_by;
use crate::types::drop_where;
use crate::types::keep_where;
use crate::types::perms;
use crate::types::principal_matches;
use crate::types::Action;
use crate::types::DdlResult;
use crate::types::LfTag;
use crate::types::LfTagView;
use crate::types::Permission;
use crate::types::PermissionView;
use crate::types::Principal;
use crate::types::PrincipalView;
use crate::types::Resource;
use crate::types::RoleView;
use crate::types::ResourceView;
use crate::engine::decimal;
use crate::export::actions_text;
use crate::export::join;
use crate::export::prefixed;
use crate::export::principal_text;
use crate::export::resource_text;
use crate::text::find;
use crate::text::find_str;
use crate::text::lemma_find_from_bounds;
use crate::text::starts_with;
use crate::text::starts_with_str;
use crate::text::trim;
use crate::text::trim_str;

verus! {

/// Which backend to run, chosen by explicit configuration.
#[derive(Debug, Clone)]
pub enum BackendConfig {
    /// The in-memory emulator, optionally persisted to a file.
    Emulator { state_file: Option<String> },
    /// The managed cloud service.
    Aws { region: Option<String>, profile: Option<String>, endpoint: Option<String> },
}

/// Builds the backend that a configuration selects.
pub struct BackendFactory;

impl BackendFactory {
    /// The in-memory backend, with an empty store, for an emulator
    /// configuration; the managed service cannot be reached from this library.
    pub fn create(config: BackendConfig) -> (r: Result<EmulatorBackend, LakeError>)
        ensures
            config is Emulator ==> (r matches Ok(b) && b.store().permissions.len() == 0
                && b.store().roles.len() == 0 && b.store().tags.len() == 0
                && b.store().session_context.len() == 0),
            config is Aws ==> r matches Err(LakeError::UnsupportedFeature(_)),
    {
        match config {
            BackendConfig::Emulator { state_file } => Ok(EmulatorBackend::new(state_file)),
            BackendConfig::Aws { .. } => Err(
                LakeError::UnsupportedFeature(
                    String::from_str("the managed service backend is not available here"),
                ),
            ),
        }
    }
}

/// The capabilities every backend offers.
pub trait LakeFormationBackend {
    /// Parses and applies one statement.
    fn execute_ddl(&mut self, sql: &str) -> Result<DdlResult, LakeError>;

    fn grant_permissions(&mut self, permission: Permission) -> Result<DdlResult, LakeError>;

    fn revoke_permissions(
        &mut self,
        principal: &Principal,
        resource: &Resource,
        actions: &[Action],
    ) -> Result<DdlResult, LakeError>;

    fn check_permissions(&self, principal: &Principal, resource: &Resource, action: &Action) -> Result<bool, LakeError>;

    fn create_tag(&mut self, tag: LfTag) -> Result<DdlResult, LakeError>;

    fn delete_tag(&mut self, tag_key: &str) -> Result<DdlResult, LakeError>;

    fn list_permissions_for_principal(&self, principal: &Principal) -> Result<Vec<Permission>, LakeError>;

    fn list_permissions_for_resource(&self, resource: &Resource) -> Result<Vec<Permission>, LakeError>;

    fn set_session_context(&mut self, context: StrMap) -> Result<(), LakeError>;
}

/// The store after applying statement `s`; SHOW statements leave it alone.
pub open spec fn apply_statement(st: StateView, s: StatementView) -> StateView {
    match s {
        StatementView::Grant { .. } => StateView {
            permissions: granted(st.permissions, permission_of(s)->Some_0),
            ..st
        },
        StatementView::Revoke { actions, resource, principal } => StateView {
            permissions: revoked(st.permissions, principal, resource, actions),
            ..st
        },
        StatementView::CreateRole { name } => StateView {
            roles: drop_where(st.roles, |r: RoleView| r.name == name).push(
                RoleView { name, members: Seq::empty() },
            ),
            ..st
        },
        StatementView::CreateTag { name, values } => StateView {
            tags: drop_where(st.tags, |t: LfTagView| t.key == name).push(
                LfTagView { key: name, values, description: None },
            ),
            ..st
        },
        StatementView::DropRole { name } => StateView {
            roles: drop_where(st.roles, |r: RoleView| r.name == name),
            permissions: drop_where(
                st.permissions,
                |p: PermissionView| p.principal == PrincipalView::Role(name),
            ),
            ..st
        },
        StatementView::DropTag { name } => StateView {
            tags: drop_where(st.tags, |t: LfTagView| t.key == name),
            ..st
        },
        _ => st,
    }
}

/// The message of a grant.
pub open spec fn grant_message(p: PermissionView) -> Seq<char> {
    "Granted "@ + actions_text(p.actions) + " on "@ + resource_text(p.resource) + " to "@ + principal_text(
        p.principal,
    )
}

/// The message of a revoke that removed `removed` entries.
pub open spec fn revoke_message(removed: nat, principal: PrincipalView, resource: ResourceView) -> Seq<
    char,
> {
    "Revoked "@ + decimal(removed) + " permission(s) for "@ + principal_text(principal) + " on "@
        + resource_text(resource)
}

/// The message of storing tag `t`.
pub open spec fn tag_message(t: LfTagView) -> Seq<char> {
    "Created tag: "@ + t.key + " with values "@ + join(t.values, ", "@)
}

/// The success message of applying `s` to the store `st`.
pub open spec fn outcome_message(st: StateView, s: StatementView) -> Seq<char> {
    match s {
        StatementView::Grant { .. } => grant_message(permission_of(s)->Some_0),
        StatementView::Revoke { actions, resource, principal } => revoke_message(
            (st.permissions.len() - revoked(st.permissions, principal, resource, actions).len()) as nat,
            principal,
            resource,
        ),
        StatementView::CreateRole { name } => "Created role: "@ + name,
        StatementView::CreateTag { name, values } => tag_message(
            LfTagView { key: name, values, description: None },
        ),
        StatementView::DropRole { name } => "Dropped role: "@ + name,
        StatementView::DropTag { name } => "Deleted tag: "@ + name,
        StatementView::ShowPermissions { principal } => "Found "@ + decimal(
            match principal {
                Some(p) => for_principal(st.permissions, p).len(),
                None => st.permissions.len(),
            },
        ) + " permissions"@,
        StatementView::ShowRoles => "Roles:"@ + prefixed(st.roles.map_values(|r: RoleView| r.name), " "@),
        StatementView::ShowTags => "Tags:"@ + prefixed(st.tags.map_values(|t: LfTagView| t.key), " "@),
    }
}

/// The result is a success carrying `message`.
pub open spec fn succeeds_with(r: Result<DdlResult, LakeError>, message: Seq<char>) -> bool {
    r matches Ok(DdlResult::Success { message: m }) && m@ == message
}

/// The permissions of `ps` granted to exactly `p`.
pub open spec fn for_principal(ps: Seq<PermissionView>, p: PrincipalView) -> Seq<PermissionView> {
    keep_where(ps, |q: PermissionView| principal_matches(q.principal, p))
}

/// The permissions of `ps` whose resource covers `r`.
pub open spec fn for_resource(ps: Seq<PermissionView>, r: crate::types::ResourceView) -> Seq<PermissionView> {
    keep_where(ps, |q: PermissionView| covered_by(r, q.resource))
}

/// The permissions granted to `principal`, or else covering `resource`, copied in order.
pub(crate) fn select_permissions(v: &Vec<Permission>, principal: Option<&Principal>, resource: Option<&Resource>) -> (r: Vec<Permission>)
    requires
        principal is Some != resource is Some,
    ensures
        principal matches Some(p) ==> perms(r@) == for_principal(perms(v@), p@),
        resource matches Some(x) ==> perms(r@) == for_resource(perms(v@), x@),
{
    let ghost all = perms(v@);
    let ghost f = |q: PermissionView|
        !(match principal {
            Some(p) => principal_matches(q.principal, p@),
            None => covered_by(resource->Some_0@, q.resource),
        });
    let mut out: Vec<Permission> = Vec::new();
    let mut i: usize = 0;
    while i < v.len()
        invariant
            0 <= i <= v.len(),
            all == perms(v@),
            principal is Some != resource is Some,
            f == (|q: PermissionView|
                !(match principal {
                    Some(p) => principal_matches(q.principal, p@),
                    None => covered_by(resource->Some_0@, q.resource),
                })),
            perms(out@) == drop_where(all.subrange(0, i as int), f),
        decreases v.len() - i,
    {
        proof {
            assert(all.subrange(0, i + 1).drop_last() =~= all.subrange(0, i as int));
        }
        let keep = match principal {
            Some(p) => v[i].principal.matches(p),
            None => match resource {
                Some(x) => x.is_covered_by(&v[i].resource),
                None => false,
            },
        };
        if keep {
            let ghost pre = out@;
            let p = v[i].clone();
            out.push(p);
            proof {
                assert(perms(out@) =~= perms(pre).push(p@));
            }
        }
        i = i + 1;
    }
    assert(all.subrange(0, v.len() as int) =~= all);
    proof {
        match principal {
            Some(p) => {
                let g = |q: PermissionView| principal_matches(q.principal, p@);
                assert((|a: PermissionView| !g(a)) =~= f);
            },
            None => {
                let g = |q: PermissionView| covered_by(resource->Some_0@, q.resource);
                assert((|a: PermissionView| !g(a)) =~= f);
            },
        }
    }
    out
}

/// The in-memory backend: one store, and the file it is kept in, if any.
#[derive(Debug)]
pub struct EmulatorBackend {
    state: EmulatorState,
    state_file: Option<String>,
}

fn success(message: String) -> (r: Result<DdlResult, LakeError>)
    ensures
        r matches Ok(DdlResult::Success { message: m }) && m@ == message@,
{
    Ok(DdlResult::Success { message })
}

impl EmulatorBackend {
    /// The store as plain values.
    pub closed spec fn store(&self) -> StateView {
        self.state@
    }

    /// The file the store is kept in, if any.
    pub closed spec fn file(&self) -> Option<String> {
        self.state_file
    }

    /// A backend with an empty store.
    pub fn new(state_file: Option<String>) -> (r: EmulatorBackend)
        ensures
            r.file() == state_file,
            r.store().permissions.len() == 0,
            r.store().roles.len() == 0,
            r.store().tags.len() == 0,
            r.store().session_context.len() == 0,
    {
        EmulatorBackend { state: EmulatorState::new(), state_file }
    }

    /// A backend over a store loaded from elsewhere.
    pub fn with_state(state: EmulatorState, state_file: Option<String>) -> (r: EmulatorBackend)
        ensures
            r.store() == state@,
            r.file() == state_file,
    {
        EmulatorBackend { state, state_file }
    }

    /// The file the store is kept in, if any.
    pub fn state_file(&self) -> (r: &Option<String>)
        ensures
            *r == self.file(),
    {
        &self.state_file
    }

    /// The current store.
    pub fn get_state(&self) -> (r: &EmulatorState)
        ensures
            r@ == self.store(),
    {
        &self.state
    }

    /// Parses `sql` and applies it; a text outside the grammar is a parse
    /// error and changes nothing.
    pub fn execute_ddl(&mut self, sql: &str) -> (r: Result<DdlResult, LakeError>)
        ensures
            match parse_spec(sql@) {
                Some(s) => succeeds_with(r, outcome_message(old(self).store(), s)) && final(self).store()
                    == apply_statement(old(self).store(), s),
                None => r matches Err(LakeError::ParseError(_)) && final(self).store() == old(self).store(),
            },
    {
        let statement = parse_ddl(sql)?;
        self.execute_ddl_direct(statement)
    }

    /// Applies a parsed statement.
    pub fn execute_ddl_direct(&mut self, statement: DdlStatement) -> (r: Result<DdlResult, LakeError>)
        ensures
            succeeds_with(r, outcome_message(old(self).store(), statement@)),
            final(self).store() == apply_statement(old(self).store(), statement@),
    {
        let ghost sv = statement@;
        match statement {
            DdlStatement::Grant { actions, resource, principal, grant_option, row_filter } => {
                let permission = Permission { principal, resource, actions, grant_option, row_filter };
                self.grant_permissions(permission)
            },
            DdlStatement::Revoke { actions, resource, principal } => {
                self.revoke_permissions(&principal, &resource, actions.as_slice())
            },
            DdlStatement::CreateRole { name } => {
                let message = String::from_str("Created role: ").concat(name.as_str());
                self.state.create_role(name);
                success(message)
            },
            DdlStatement::CreateTag { name, values } => {
                let tag = LfTag { key: name, values, description: None };
                self.create_tag(tag)
            },
            DdlStatement::DropRole { name } => {
                self.state.drop_role(name.as_str());
                success(String::from_str("Dropped role: ").concat(name.as_str()))
            },
            DdlStatement::DropTag { name } => self.delete_tag(name.as_str()),
            DdlStatement::ShowPermissions { principal } => {
                let n = match principal {
                    Some(p) => select_permissions(&self.state.permissions, Some(&p), None).len(),
                    None => self.state.permissions.len(),
                };
                success(
                    String::from_str("Found ").concat(crate::engine::decimal_string(n).as_str()).concat(
                        " permissions",
                    ),
                )
            },
            DdlStatement::ShowRoles => {
                let ghost all = self.store().roles.map_values(|r: RoleView| r.name);
                let mut names = String::from_str("Roles:");
                let mut i: usize = 0;
                while i < self.state.roles.len()
                    invariant
                        0 <= i <= self.state.roles.len(),
                        all == self.store().roles.map_values(|r: RoleView| r.name),
                        all.len() == self.state.roles.len(),
                        names@ == "Roles:"@ + prefixed(all.subrange(0, i as int), " "@),
                    decreases self.state.roles.len() - i,
                {
                    proof {
                        assert(all.subrange(0, i + 1).drop_last() =~= all.subrange(0, i as int));
                        assert(all[i as int] == self.state.roles@[i as int].name@);
                    }
                    names = names.concat(" ").concat(self.state.roles[i].name.as_str());
                    assert(names@ =~= "Roles:"@ + prefixed(all.subrange(0, i + 1), " "@));
                    i = i + 1;
                }
                assert(all.subrange(0, all.len() as int) =~= all);
                success(names)
            },
            DdlStatement::ShowTags => {
                let ghost all = self.store().tags.map_values(|t: LfTagView| t.key);
                let mut keys = String::from_str("Tags:");
                let mut i: usize = 0;
                while i < self.state.tags.len()
                    invariant
                        0 <= i <= self.state.tags.len(),
                        all == self.store().tags.map_values(|t: LfTagView| t.key),
                        all.len() == self.state.tags.len(),
                        keys@ == "Tags:"@ + prefixed(all.subrange(0, i as int), " "@),
                    decreases self.state.tags.len() - i,
                {
                    proof {
                        assert(all.subrange(0, i + 1).drop_last() =~= all.subrange(0, i as int));
                        assert(all[i as int] == self.state.tags@[i as int].key@);
                    }
                    keys = keys.concat(" ").concat(self.state.tags[i].key.as_str());
                    assert(keys@ =~= "Tags:"@ + prefixed(all.subrange(0, i + 1), " "@));
                    i = i + 1;
                }
                assert(all.subrange(0, all.len() as int) =~= all);
                success(keys)
            },
        }
    }

    /// Stores `permission`, replacing any entry under its key.
    pub fn grant_permissions(&mut self, permission: Permission) -> (r: Result<DdlResult, LakeError>)
        ensures
            succeeds_with(r, grant_message(permission@)),
            final(self).store() == (StateView {
                permissions: granted(old(self).store().permissions, permission@),
                ..old(self).store()
            }),
    {
        let message = String::from_str("Granted ").concat(
            crate::export::render_actions(&permission.actions).as_str(),
        ).concat(" on ").concat(crate::export::render_resource(&permission.resource).as_str()).concat(
            " to ",
        ).concat(crate::export::render_principal(&permission.principal).as_str());
        self.state.grant(permission);
        success(message)
    }

    /// Removes, whole, every entry under (`principal`, `resource`) holding any of `actions`.
    pub fn revoke_permissions(&mut self, principal: &Principal, resource: &Resource, actions: &[Action]) -> (r: Result<
        DdlResult,
        LakeError,
    >)
        ensures
            succeeds_with(
                r,
                revoke_message(
                    (old(self).store().permissions.len() - final(self).store().permissions.len()) as nat,
                    principal@,
                    resource@,
                ),
            ),
            final(self).store().permissions.len() <= old(self).store().permissions.len(),
            final(self).store() == (StateView {
                permissions: revoked(old(self).store().permissions, principal@, resource@, actions@),
                ..old(self).store()
            }),
    {
        let before = self.state.permissions.len();
        self.state.revoke(principal, resource, actions);
        proof {
            crate::types::lemma_drop_where_len(
                old(self).store().permissions,
                |q: PermissionView|
                    crate::state::same_key(q, principal@, resource@) && crate::state::shares_action(
                        actions@,
                        q.actions,
                    ),
            );
        }
        let after = self.state.permissions.len();
        let removed = if before >= after {
            before - after
        } else {
            0
        };
        success(
            String::from_str("Revoked ").concat(crate::engine::decimal_string(removed).as_str()).concat(
                " permission(s) for ",
            ).concat(crate::export::render_principal(principal).as_str()).concat(" on ").concat(
                crate::export::render_resource(resource).as_str(),
            ),
        )
    }

    /// Whether the store allows `action` on `resource` to `principal`; never fails.
    pub fn check_permissions(&self, principal: &Principal, resource: &Resource, action: &Action) -> (r: Result<bool, LakeError>)
        ensures
            r == Ok::<bool, LakeError>(authorized(self.store(), principal@, resource@, *action)),
    {
        Ok(check_access(&self.state, principal, resource, action))
    }

    /// Stores `tag`, replacing any tag with the same key.
    pub fn create_tag(&mut self, tag: LfTag) -> (r: Result<DdlResult, LakeError>)
        ensures
            succeeds_with(r, tag_message(tag@)),
            final(self).store() == (StateView {
                tags: drop_where(old(self).store().tags, |t: LfTagView| t.key == tag@.key).push(tag@),
                ..old(self).store()
            }),
    {
        let message = String::from_str("Created tag: ").concat(tag.key.as_str()).concat(" with values ").concat(
            crate::export::render_list(&tag.values, ", ", false).as_str(),
        );
        self.state.create_tag(tag);
        success(message)
    }

    /// Deletes the tag `tag_key`; permissions are left as they are.
    pub fn delete_tag(&mut self, tag_key: &str) -> (r: Result<DdlResult, LakeError>)
        ensures
            succeeds_with(r, "Deleted tag: "@ + tag_key@),
            final(self).store() == (StateView {
                tags: drop_where(old(self).store().tags, |t: LfTagView| t.key == tag_key@),
                ..old(self).store()
            }),
    {
        self.state.delete_tag(tag_key);
        success(String::from_str("Deleted tag: ").concat(tag_key))
    }

    /// The stored permissions granted to exactly `principal`, in order.
    pub fn list_permissions_for_principal(&self, principal: &Principal) -> (r: Result<Vec<Permission>, LakeError>)
        ensures
            r matches Ok(v) && perms(v@) == for_principal(self.store().permissions, principal@),
    {
        Ok(select_permissions(&self.state.permissions, Some(principal), None))
    }

    /// The stored permissions whose resource covers `resource`, in order.
    pub fn list_permissions_for_resource(&self, resource: &Resource) -> (r: Result<Vec<Permission>, LakeError>)
        ensures
            r matches Ok(v) && perms(v@) == for_resource(self.store().permissions, resource@),
    {
        Ok(select_permissions(&self.state.permissions, None, Some(resource)))
    }

    /// Replaces the whole session context.
    pub fn set_session_context(&mut self, context: StrMap) -> (r: Result<(), LakeError>)
        ensures
            r is Ok,
            final(self).store() == (StateView { session_context: context@, ..old(self).store() }),
    {
        self.state.set_session_context(context);
        Ok(())
    }

    /// Replaces the session context, then checks the request against it.
    pub fn test_row_level_security(
        &mut self,
        principal: &Principal,
        resource: &Resource,
        action: &Action,
        session_context: StrMap,
    ) -> (r: Result<bool, LakeError>)
        ensures
            final(self).store() == (StateView { session_context: session_context@, ..old(self).store() }),
            r == Ok::<bool, LakeError>(authorized(final(self).store(), principal@, resource@, *action)),
    {
        self.state.set_session_context(session_context);
        self.check_permissions(principal, resource, action)
    }
}

impl LakeFormationBackend for EmulatorBackend {
    fn execute_ddl(&mut self, sql: &str) -> Result<DdlResult, LakeError> {
        EmulatorBackend::execute_ddl(self, sql)
    }

    fn grant_permissions(&mut self, permission: Permission) -> Result<DdlResult, LakeError> {
        EmulatorBackend::grant_permissions(self, permission)
    }

    fn revoke_permissions(
        &mut self,
        principal: &Principal,
        resource: &Resource,
        actions: &[Action],
    ) -> Result<DdlResult, LakeError> {
        EmulatorBackend::revoke_permissions(self, principal, resource, actions)
    }

    fn check_permissions(&self, principal: &Principal, resource: &Resource, action: &Action) -> Result<bool, LakeError> {
        EmulatorBackend::check_permissions(self, principal, resource, action)
    }

    fn create_tag(&mut self, tag: LfTag) -> Result<DdlResult, LakeError> {
        EmulatorBackend::create_tag(self, tag)
    }

    fn delete_tag(&mut self, tag_key: &str) -> Result<DdlResult, LakeError> {
        EmulatorBackend::delete_tag(self, tag_key)
    }

    fn list_permissions_for_principal(&self, principal: &Principal) -> Result<Vec<Permission>, LakeError> {
        EmulatorBackend::list_permissions_for_principal(self, principal)
    }

    fn list_permissions_for_resource(&self, resource: &Resource) -> Result<Vec<Permission>, LakeError> {
        EmulatorBackend::list_permissions_for_resource(self, resource)
    }

    fn set_session_context(&mut self, context: StrMap) -> Result<(), LakeError> {
        EmulatorBackend::set_session_context(self, context)
    }
}

/// The lines of `s`, split at each newline.
pub open spec fn split_lines(s: Seq<char>) -> Seq<Seq<char>>
    decreases s.len(),
{
    match find(s, "\n"@) {
        Some(i) => if 0 <= i && i + 1 <= s.len() {
            seq![s.subrange(0, i)] + split_lines(s.subrange(i + 1, s.len() as int))
        } else {
            seq![s]
        },
        None => seq![s],
    }
}

/// A line that holds no statement: blank, or a `--` comment.
pub open spec fn is_remark(line: Seq<char>) -> bool {
    trim(line).len() == 0 || starts_with(trim(line), "--"@)
}

/// The store after running each statement line of `ls` in turn, or `None`
/// at the first line that is not a statement.
pub open spec fn run_lines(st: StateView, ls: Seq<Seq<char>>) -> Option<StateView>
    decreases ls.len(),
{
    if ls.len() == 0 {
        Some(st)
    } else if is_remark(ls[0]) {
        run_lines(st, ls.drop_first())
    } else {
        match parse_spec(ls[0]) {
            Some(s) => run_lines(apply_statement(st, s), ls.drop_first()),
            None => None,
        }
    }
}

/// The lines of `s`, as the runner sees them.
fn split_lines_exec(s: &str) -> (r: Vec<&str>)
    ensures
        r@.map_values(|l: &str| l@) == split_lines(s@),
{
    let mut out: Vec<&str> = Vec::new();
    let mut rest = s;
    proof {
        assert(out@.map_values(|l: &str| l@) + split_lines(rest@) =~= split_lines(s@));
    }
    loop
        invariant
            out@.map_values(|l: &str| l@) + split_lines(rest@) == split_lines(s@),
        decreases rest@.len(),
    {
        let ghost pre = out@;
        let n = rest.unicode_len();
        match find_str(rest, "\n") {
            Some(i) => {
                proof {
                    lemma_find_from_bounds(rest@, "\n"@, 0);
                    reveal_strlit("\n");
                }
                let line = rest.substring_char(0, i);
                out.push(line);
                proof {
                    assert(out@.map_values(|l: &str| l@) =~= pre.map_values(|l: &str| l@).push(line@));
                    assert(pre.map_values(|l: &str| l@).push(line@) + split_lines(
                        rest@.subrange(i + 1, n as int),
                    ) =~= pre.map_values(|l: &str| l@) + (seq![line@] + split_lines(
                        rest@.subrange(i + 1, n as int),
                    )));
                }
                rest = rest.substring_char(i + 1, n);
            },
            None => {
                out.push(rest);
                proof {
                    assert(out@.map_values(|l: &str| l@) =~= pre.map_values(|l: &str| l@).push(rest@));
                    assert(pre.map_values(|l: &str| l@) + seq![rest@] =~= pre.map_values(|l: &str| l@).push(rest@));
                }
                return out;
            },
        }
    }
}

fn is_remark_exec(line: &str) -> (r: bool)
    ensures
        r == is_remark(line@),
{
    let t = trim_str(line);
    t.unicode_len() == 0 || starts_with_str(t, "--")
}

impl EmulatorBackend {
    /// Runs a script of statements, one per line, skipping blank lines and
    /// `--` comments; stops at the first line that does not parse, leaving
    /// the statements before it applied. Returns how many statements ran.
    pub fn execute_script(&mut self, script: &str) -> (r: Result<usize, LakeError>)
        ensures
            run_lines(old(self).store(), split_lines(script@)) matches Some(st) ==> r is Ok
                && final(self).store() == st,
            run_lines(old(self).store(), split_lines(script@)) is None ==> r matches Err(
                LakeError::ParseError(_),
            ),
    {
        let ls = split_lines_exec(script);
        let ghost all = ls@.map_values(|l: &str| l@);
        let mut count: usize = 0;
        let mut i: usize = 0;
        assert(all.subrange(0, all.len() as int) =~= all);
        while i < ls.len()
            invariant
                0 <= i <= ls.len(),
                all == ls@.map_values(|l: &str| l@),
                all == split_lines(script@),
                run_lines(old(self).store(), all) == run_lines(self.store(), all.subrange(i as int, all.len() as int)),
            decreases ls.len() - i,
        {
            let ghost rest = all.subrange(i as int, all.len() as int);
            proof {
                assert(rest.drop_first() =~= all.subrange(i + 1, all.len() as int));
                assert(rest[0] == ls@[i as int]@);
            }
            let line = ls[i];
            if !is_remark_exec(line) {
                let statement = parse_ddl(line)?;
                let _ = self.execute_ddl_direct(statement);
                if count < usize::MAX {
                    count = count + 1;
                }
            }
            i = i + 1;
        }
        proof {
            assert(all.subrange(all.len() as int, all.len() as int) =~= Seq::<Seq<char>>::empty());
        }
        Ok(count)
    }
}

} // verus!
