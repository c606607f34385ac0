//! Renders the store as statements that recreate it, and as a short
//! human-readable summary.
use vstd::prelude::*;
use crate::engine::decimal;
use crate::engine::decimal_string;
use crate::state::EmulatorState;
use crate::state::StateView;
use crate::types::strs;
use crate::types::Action;
use crate::types::LfTag;
use crate::types::LfTagView;
use crate::types::Permission;
use crate::types::PermissionView;
use crate::types::Principal;
use crate::types::PrincipalView;
use crate::types::Resource;
use crate::types::ResourceView;
use crate::types::Role;
use crate::types::RoleView;

verus! {

/// The statement keyword of an action.
pub open spec fn action_text(a: Action) -> Seq<char> {
    match a {
        Action::Select => "SELECT"@,
        Action::Insert => "INSERT"@,
        Action::Update => "UPDATE"@,
        Action::Delete => "DELETE"@,
        Action::CreateTable => "CREATE_TABLE"@,
        Action::DropTable => "DROP_TABLE"@,
        Action::AlterTable => "ALTER_TABLE"@,
        Action::Describe => "DESCRIBE"@,
        Action::DataLocationAccess => "DATA_LOCATION_ACCESS"@,
        Action::GrantWithGrantOption => "GRANT_WITH_GRANT_OPTION"@,
    }
}

/// The items of `s` separated by `sep`.
pub open spec fn join(s: Seq<Seq<char>>, sep: Seq<char>) -> Seq<char>
    decreases s.len(),
{
    if s.len() == 0 {
        Seq::empty()
    } else if s.len() == 1 {
        s[0]
    } else {
        join(s.drop_last(), sep) + sep + s.last()
    }
}

/// `s` between single quotes.
pub open spec fn quote(s: Seq<char>) -> Seq<char> {
    "'"@ + s + "'"@
}

pub open spec fn actions_text(a: Seq<Action>) -> Seq<char> {
    join(a.map_values(|x: Action| action_text(x)), ", "@)
}

pub open spec fn principal_text(p: PrincipalView) -> Seq<char> {
    match p {
        PrincipalView::Role(n) => "ROLE "@ + n,
        PrincipalView::User(n) => "USER "@ + quote(n),
        PrincipalView::SamlGroup(n) => "GROUP "@ + quote(n),
        PrincipalView::ExternalAccount(n) => "EXTERNAL_ACCOUNT "@ + quote(n),
        PrincipalView::TaggedPrincipal { tag_key, tag_values } => "TAGGED "@ + tag_key + "="@
            + quote(join(tag_values, ","@)),
    }
}

pub open spec fn condition_text(c: (Seq<char>, Seq<Seq<char>>)) -> Seq<char> {
    c.0 + "="@ + quote(join(c.1, ","@))
}

pub open spec fn resource_text(r: ResourceView) -> Seq<char> {
    match r {
        ResourceView::Database { name } => "DATABASE "@ + name,
        ResourceView::Table { database, table, columns } => match columns {
            Some(cols) => database + "."@ + table + "("@ + join(cols, ", "@) + ")"@,
            None => database + "."@ + table,
        },
        ResourceView::DataLocation { path } => quote(path),
        ResourceView::TaggedResource { tag_conditions } => "RESOURCES TAGGED "@ + join(
            tag_conditions.map_values(|c: (Seq<char>, Seq<Seq<char>>)| condition_text(c)),
            " AND "@,
        ),
    }
}

/// The GRANT statement that recreates `p`, with its final `;`.
pub open spec fn grant_text(p: PermissionView) -> Seq<char> {
    "GRANT "@ + actions_text(p.actions) + " ON "@ + resource_text(p.resource) + " TO "@
        + principal_text(p.principal) + (if p.grant_option {
        " WITH GRANT OPTION"@
    } else {
        Seq::empty()
    }) + match p.row_filter {
        Some(f) => " WHERE "@ + f.expression,
        None => Seq::empty(),
    } + ";"@
}

pub open spec fn role_text(r: RoleView) -> Seq<char> {
    "CREATE ROLE "@ + r.name + ";"@
}

pub open spec fn tag_text(t: LfTagView) -> Seq<char> {
    "CREATE TAG "@ + t.key + " VALUES ("@ + join(t.values.map_values(|v: Seq<char>| quote(v)), ", "@)
        + ");"@
}

/// Each item of `s` preceded by `pre`.
pub open spec fn prefixed(s: Seq<Seq<char>>, pre: Seq<char>) -> Seq<char>
    decreases s.len(),
{
    if s.len() == 0 {
        Seq::empty()
    } else {
        prefixed(s.drop_last(), pre) + pre + s.last()
    }
}

/// Each item of `s` followed by a newline.
pub open spec fn lines(s: Seq<Seq<char>>) -> Seq<char>
    decreases s.len(),
{
    if s.len() == 0 {
        Seq::empty()
    } else {
        lines(s.drop_last()) + s.last() + "\n"@
    }
}

pub open spec fn export_header() -> Seq<char> {
    "-- Lake Formation Emulator State Export\n-- Generated DDL statements to recreate this state\n\n"@
}

/// The statements that recreate `st`: its roles, its tags, then its grants.
pub open spec fn ddl_text(st: StateView) -> Seq<char> {
    export_header() + lines(st.roles.map_values(|r: RoleView| role_text(r))) + "\n"@ + lines(
        st.tags.map_values(|t: LfTagView| tag_text(t)),
    ) + "\n"@ + lines(st.permissions.map_values(|p: PermissionView| grant_text(p)))
}

fn action_str(a: Action) -> (r: &'static str)
    ensures
        r@ == action_text(a),
{
    match a {
        Action::Select => "SELECT",
        Action::Insert => "INSERT",
        Action::Update => "UPDATE",
        Action::Delete => "DELETE",
        Action::CreateTable => "CREATE_TABLE",
        Action::DropTable => "DROP_TABLE",
        Action::AlterTable => "ALTER_TABLE",
        Action::Describe => "DESCRIBE",
        Action::DataLocationAccess => "DATA_LOCATION_ACCESS",
        Action::GrantWithGrantOption => "GRANT_WITH_GRANT_OPTION",
    }
}

fn quote_string(s: &str) -> (r: String)
    ensures
        r@ == quote(s@),
{
    let r = String::from_str("'").concat(s).concat("'");
    assert(r@ =~= quote(s@));
    r
}

/// The actions of `a`, comma separated.
pub fn render_actions(a: &Vec<Action>) -> (r: String)
    ensures
        r@ == actions_text(a@),
{
    let ghost items = a@.map_values(|x: Action| action_text(x));
    let mut out = String::new();
    let mut i: usize = 0;
    while i < a.len()
        invariant
            0 <= i <= a.len(),
            items == a@.map_values(|x: Action| action_text(x)),
            out@ == join(items.subrange(0, i as int), ", "@),
        decreases a.len() - i,
    {
        proof {
            assert(items.subrange(0, i + 1).drop_last() =~= items.subrange(0, i as int));
        }
        if i == 0 {
            out = String::from_str(action_str(a[i]));
            assert(out@ == join(items.subrange(0, 1), ", "@));
        } else {
            out = out.concat(", ").concat(action_str(a[i]));
        }
        i = i + 1;
    }
    assert(items.subrange(0, a.len() as int) =~= items);
    out
}

/// The strings of `v` separated by `sep`, each quoted where `quoted`.
pub(crate) fn render_list(v: &Vec<String>, sep: &str, quoted: bool) -> (r: String)
    ensures
        quoted ==> r@ == join(strs(v@).map_values(|x: Seq<char>| quote(x)), sep@),
        !quoted ==> r@ == join(strs(v@), sep@),
{
    let ghost items = if quoted {
        strs(v@).map_values(|x: Seq<char>| quote(x))
    } else {
        strs(v@)
    };
    let mut out = String::new();
    let mut i: usize = 0;
    while i < v.len()
        invariant
            0 <= i <= v.len(),
            items == if quoted {
                strs(v@).map_values(|x: Seq<char>| quote(x))
            } else {
                strs(v@)
            },
            out@ == join(items.subrange(0, i as int), sep@),
        decreases v.len() - i,
    {
        proof {
            assert(items.subrange(0, i + 1).drop_last() =~= items.subrange(0, i as int));
        }
        let item = if quoted {
            quote_string(v[i].as_str())
        } else {
            v[i].clone()
        };
        assert(item@ == items[i as int]);
        if i == 0 {
            out = item;
            assert(out@ == join(items.subrange(0, 1), sep@));
        } else {
            out = out.concat(sep).concat(item.as_str());
        }
        i = i + 1;
    }
    assert(items.subrange(0, v.len() as int) =~= items);
    out
}

/// The principal as it is written in a statement.
pub fn render_principal(p: &Principal) -> (r: String)
    ensures
        r@ == principal_text(p@),
{
    match p {
        Principal::Role(n) => String::from_str("ROLE ").concat(n.as_str()),
        Principal::User(n) => String::from_str("USER ").concat(quote_string(n.as_str()).as_str()),
        Principal::SamlGroup(n) => String::from_str("GROUP ").concat(quote_string(n.as_str()).as_str()),
        Principal::ExternalAccount(n) => String::from_str("EXTERNAL_ACCOUNT ").concat(
            quote_string(n.as_str()).as_str(),
        ),
        Principal::TaggedPrincipal { tag_key, tag_values } => {
            let r = String::from_str("TAGGED ").concat(tag_key.as_str()).concat("=").concat(
                quote_string(render_list(tag_values, ",", false).as_str()).as_str(),
            );
            assert(r@ =~= principal_text(p@));
            r
        },
    }
}

/// The resource as it is written in a statement.
pub fn render_resource(r: &Resource) -> (s: String)
    ensures
        s@ == resource_text(r@),
{
    match r {
        Resource::Database { name } => String::from_str("DATABASE ").concat(name.as_str()),
        Resource::Table { database, table, columns } => {
            let base = database.clone().concat(".").concat(table.as_str());
            match columns {
                Some(cols) => {
                    let s = base.concat("(").concat(render_list(cols, ", ", false).as_str()).concat(
                        ")",
                    );
                    assert(s@ =~= resource_text(r@));
                    s
                },
                None => base,
            }
        },
        Resource::DataLocation { path } => quote_string(path.as_str()),
        Resource::TaggedResource { tag_conditions } => {
            let ghost items = crate::types::conds(tag_conditions@).map_values(
                |c: (Seq<char>, Seq<Seq<char>>)| condition_text(c),
            );
            let mut out = String::new();
            let mut i: usize = 0;
            while i < tag_conditions.len()
                invariant
                    0 <= i <= tag_conditions.len(),
                    items == crate::types::conds(tag_conditions@).map_values(
                        |c: (Seq<char>, Seq<Seq<char>>)| condition_text(c),
                    ),
                    out@ == join(items.subrange(0, i as int), " AND "@),
                decreases tag_conditions.len() - i,
            {
                proof {
                    assert(items.subrange(0, i + 1).drop_last() =~= items.subrange(0, i as int));
                }
                let c = &tag_conditions[i];
                let item = c.0.clone().concat("=").concat(
                    quote_string(render_list(&c.1, ",", false).as_str()).as_str(),
                );
                assert(item@ =~= items[i as int]);
                if i == 0 {
                    out = item;
                    assert(out@ == join(items.subrange(0, 1), " AND "@));
                } else {
                    out = out.concat(" AND ").concat(item.as_str());
                }
                i = i + 1;
            }
            assert(items.subrange(0, tag_conditions.len() as int) =~= items);
            String::from_str("RESOURCES TAGGED ").concat(out.as_str())
        },
    }
}

/// The GRANT statement that recreates `p`.
pub fn render_grant(p: &Permission) -> (r: String)
    ensures
        r@ == grant_text(p@),
{
    let mut s = String::from_str("GRANT ").concat(render_actions(&p.actions).as_str()).concat(
        " ON ",
    ).concat(render_resource(&p.resource).as_str()).concat(" TO ").concat(
        render_principal(&p.principal).as_str(),
    );
    if p.grant_option {
        s = s.concat(" WITH GRANT OPTION");
    }
    match &p.row_filter {
        Some(f) => {
            s = s.concat(" WHERE ").concat(f.expression.as_str());
        },
        None => {},
    }
    let r = s.concat(";");
    assert(r@ =~= grant_text(p@));
    r
}

fn render_tag(t: &LfTag) -> (r: String)
    ensures
        r@ == tag_text(t@),
{
    let r = String::from_str("CREATE TAG ").concat(t.key.as_str()).concat(" VALUES (").concat(
        render_list(&t.values, ", ", true).as_str(),
    ).concat(");");
    assert(r@ =~= tag_text(t@));
    r
}

/// Renders the store in the statement language and as a summary.
pub struct StateExporter;

impl StateExporter {
    /// Statements that recreate `state`: a comment header, one CREATE ROLE
    /// per role, one CREATE TAG per tag and one GRANT per permission, each on
    /// its own line.
    pub fn to_sql_ddl(state: &EmulatorState) -> (r: String)
        ensures
            r@ == ddl_text(state@),
    {
        let ghost st = state@;
        let mut sql = String::from_str(
            "-- Lake Formation Emulator State Export\n-- Generated DDL statements to recreate this state\n\n",
        );
        let ghost roles = st.roles.map_values(|r: RoleView| role_text(r));
        let mut i: usize = 0;
        while i < state.roles.len()
            invariant
                0 <= i <= state.roles.len(),
                st == state@,
                roles == st.roles.map_values(|r: RoleView| role_text(r)),
                sql@ == export_header() + lines(roles.subrange(0, i as int)),
            decreases state.roles.len() - i,
        {
            proof {
                assert(roles.subrange(0, i + 1).drop_last() =~= roles.subrange(0, i as int));
            }
            let line = String::from_str("CREATE ROLE ").concat(state.roles[i].name.as_str()).concat(";");
            assert(line@ =~= roles[i as int]);
            sql = sql.concat(line.as_str()).concat("\n");
            assert(sql@ =~= export_header() + lines(roles.subrange(0, i + 1)));
            i = i + 1;
        }
        assert(roles.subrange(0, state.roles.len() as int) =~= roles);
        sql = sql.concat("\n");
        let ghost mid = sql@;
        let ghost tags = st.tags.map_values(|t: LfTagView| tag_text(t));
        let mut j: usize = 0;
        while j < state.tags.len()
            invariant
                0 <= j <= state.tags.len(),
                st == state@,
                tags == st.tags.map_values(|t: LfTagView| tag_text(t)),
                sql@ == mid + lines(tags.subrange(0, j as int)),
            decreases state.tags.len() - j,
        {
            proof {
                assert(tags.subrange(0, j + 1).drop_last() =~= tags.subrange(0, j as int));
            }
            let line = render_tag(&state.tags[j]);
            assert(line@ == tags[j as int]);
            sql = sql.concat(line.as_str()).concat("\n");
            assert(sql@ =~= mid + lines(tags.subrange(0, j + 1)));
            j = j + 1;
        }
        assert(tags.subrange(0, state.tags.len() as int) =~= tags);
        sql = sql.concat("\n");
        let ghost mid2 = sql@;
        let ghost grants = st.permissions.map_values(|p: PermissionView| grant_text(p));
        let mut k: usize = 0;
        while k < state.permissions.len()
            invariant
                0 <= k <= state.permissions.len(),
                st == state@,
                grants == st.permissions.map_values(|p: PermissionView| grant_text(p)),
                sql@ == mid2 + lines(grants.subrange(0, k as int)),
            decreases state.permissions.len() - k,
        {
            proof {
                assert(grants.subrange(0, k + 1).drop_last() =~= grants.subrange(0, k as int));
            }
            let line = render_grant(&state.permissions[k]);
            assert(line@ == grants[k as int]);
            sql = sql.concat(line.as_str()).concat("\n");
            assert(sql@ =~= mid2 + lines(grants.subrange(0, k + 1)));
            k = k + 1;
        }
        assert(grants.subrange(0, state.permissions.len() as int) =~= grants);
        assert(sql@ =~= ddl_text(st));
        sql
    }

    /// A human-readable account of `state`: counts, then a section for the
    /// roles with their members, one for the tags with their values, and a
    /// numbered line per permission; a section is left out when it is empty.
    pub fn to_summary(state: &EmulatorState) -> (r: String)
        ensures
            r@ == summary_text(state@),
    {
        let ghost st = state@;
        let mut s = String::from_str(
            "Lake Formation Emulator State Summary\n=========================================\n\n**Statistics:**\n- Permissions: ",
        ).concat(decimal_string(state.permissions.len()).as_str()).concat("\n- Roles: ").concat(
            decimal_string(state.roles.len()).as_str(),
        ).concat("\n- Tags: ").concat(decimal_string(state.tags.len()).as_str()).concat(
            "\n- Session Context Keys: ",
        ).concat(decimal_string(state.session_context.len()).as_str()).concat("\n\n");
        assert(s@ =~= summary_head(st));
        let ghost head = s@;
        if state.roles.len() > 0 {
            s = s.concat("**Roles:**\n");
            let ghost start = s@;
            let ghost roles = st.roles.map_values(|r: RoleView| role_block(r));
            let mut i: usize = 0;
            while i < state.roles.len()
                invariant
                    0 <= i <= state.roles.len(),
                    st == state@,
                    roles == st.roles.map_values(|r: RoleView| role_block(r)),
                    s@ == start + lines(roles.subrange(0, i as int)),
                decreases state.roles.len() - i,
            {
                proof {
                    assert(roles.subrange(0, i + 1).drop_last() =~= roles.subrange(0, i as int));
                }
                let block = render_role(&state.roles[i]);
                assert(block@ == roles[i as int]);
                s = s.concat(block.as_str()).concat("\n");
                assert(s@ =~= start + lines(roles.subrange(0, i + 1)));
                i = i + 1;
            }
            assert(roles.subrange(0, state.roles.len() as int) =~= roles);
            s = s.concat("\n");
        }
        assert(s@ =~= head + roles_section(st));
        let ghost mid = s@;
        if state.tags.len() > 0 {
            s = s.concat("**Tags:**\n");
            let ghost start = s@;
            let ghost tags = st.tags.map_values(|t: LfTagView| tag_line(t));
            let mut j: usize = 0;
            while j < state.tags.len()
                invariant
                    0 <= j <= state.tags.len(),
                    st == state@,
                    tags == st.tags.map_values(|t: LfTagView| tag_line(t)),
                    s@ == start + lines(tags.subrange(0, j as int)),
                decreases state.tags.len() - j,
            {
                proof {
                    assert(tags.subrange(0, j + 1).drop_last() =~= tags.subrange(0, j as int));
                }
                let t = &state.tags[j];
                let line = String::from_str("- ").concat(t.key.as_str()).concat(": ").concat(
                    render_list(&t.values, ", ", false).as_str(),
                );
                assert(line@ =~= tags[j as int]);
                s = s.concat(line.as_str()).concat("\n");
                assert(s@ =~= start + lines(tags.subrange(0, j + 1)));
                j = j + 1;
            }
            assert(tags.subrange(0, state.tags.len() as int) =~= tags);
            s = s.concat("\n");
        }
        assert(s@ =~= mid + tags_section(st));
        let ghost mid2 = s@;
        if state.permissions.len() > 0 {
            s = s.concat("**Permissions:**\n");
            let ghost start = s@;
            let mut k: usize = 0;
            while k < state.permissions.len()
                invariant
                    0 <= k <= state.permissions.len(),
                    st == state@,
                    s@ == start + numbered(st.permissions.subrange(0, k as int)),
                decreases state.permissions.len() - k,
            {
                proof {
                    assert(st.permissions.subrange(0, k + 1).drop_last() =~= st.permissions.subrange(
                        0,
                        k as int,
                    ));
                    assert(st.permissions.subrange(0, k + 1).last() == state.permissions@[k as int]@);
                }
                let p = &state.permissions[k];
                let line = decimal_string(k + 1).concat(". ").concat(
                    render_principal(&p.principal).as_str(),
                ).concat(" -> ").concat(render_actions(&p.actions).as_str()).concat(" -> ").concat(
                    render_resource(&p.resource).as_str(),
                ).concat("\n");
                s = s.concat(line.as_str());
                assert(s@ =~= start + numbered(st.permissions.subrange(0, k + 1)));
                k = k + 1;
            }
            assert(st.permissions.subrange(0, state.permissions.len() as int) =~= st.permissions);
        }
        assert(s@ =~= summary_text(st));
        s
    }
}

fn render_role(r: &Role) -> (s: String)
    ensures
        s@ == role_block(r@),
{
    let mut s = String::from_str("- ").concat(r.name.as_str()).concat(": ").concat(
        decimal_string(r.members.len()).as_str(),
    ).concat(" member(s)");
    let ghost start = s@;
    let ghost ms = strs(r.members@);
    let mut i: usize = 0;
    while i < r.members.len()
        invariant
            0 <= i <= r.members.len(),
            ms == strs(r.members@),
            s@ == start + prefixed(ms.subrange(0, i as int), "\n  * "@),
        decreases r.members.len() - i,
    {
        proof {
            assert(ms.subrange(0, i + 1).drop_last() =~= ms.subrange(0, i as int));
        }
        s = s.concat("\n  * ").concat(r.members[i].as_str());
        assert(s@ =~= start + prefixed(ms.subrange(0, i + 1), "\n  * "@));
        i = i + 1;
    }
    assert(ms.subrange(0, r.members.len() as int) =~= ms);
    assert(s@ =~= role_block(r@));
    s
}

pub open spec fn summary_head(st: StateView) -> Seq<char> {
    "Lake Formation Emulator State Summary\n=========================================\n\n**Statistics:**\n- Permissions: "@
        + decimal(st.permissions.len()) + "\n- Roles: "@ + decimal(st.roles.len()) + "\n- Tags: "@
        + decimal(st.tags.len()) + "\n- Session Context Keys: "@ + decimal(st.session_context.len())
        + "\n\n"@
}

/// A role with its member count, then one line per member.
pub open spec fn role_block(r: RoleView) -> Seq<char> {
    "- "@ + r.name + ": "@ + decimal(r.members.len()) + " member(s)"@ + prefixed(r.members, "\n  * "@)
}

pub open spec fn tag_line(t: LfTagView) -> Seq<char> {
    "- "@ + t.key + ": "@ + join(t.values, ", "@)
}

pub open spec fn permission_summary(p: PermissionView) -> Seq<char> {
    principal_text(p.principal) + " -> "@ + actions_text(p.actions) + " -> "@ + resource_text(p.resource)
}

/// One line per permission, numbered from 1.
pub open spec fn numbered(ps: Seq<PermissionView>) -> Seq<char>
    decreases ps.len(),
{
    if ps.len() == 0 {
        Seq::empty()
    } else {
        numbered(ps.drop_last()) + decimal(ps.len()) + ". "@ + permission_summary(ps.last()) + "\n"@
    }
}

pub open spec fn roles_section(st: StateView) -> Seq<char> {
    if st.roles.len() == 0 {
        Seq::empty()
    } else {
        "**Roles:**\n"@ + lines(st.roles.map_values(|r: RoleView| role_block(r))) + "\n"@
    }
}

pub open spec fn tags_section(st: StateView) -> Seq<char> {
    if st.tags.len() == 0 {
        Seq::empty()
    } else {
        "**Tags:**\n"@ + lines(st.tags.map_values(|t: LfTagView| tag_line(t))) + "\n"@
    }
}

pub open spec fn permissions_section(st: StateView) -> Seq<char> {
    if st.permissions.len() == 0 {
        Seq::empty()
    } else {
        "**Permissions:**\n"@ + numbered(st.permissions)
    }
}

/// The summary of `st`: counts, then the role, tag and permission sections
/// that are not empty.
pub open spec fn summary_text(st: StateView) -> Seq<char> {
    summary_head(st) + roles_section(st) + tags_section(st) + permissions_section(st)
}

} // verus!
