//! The statement grammar: GRANT, REVOKE, CREATE/DROP ROLE, CREATE/DROP TAG
//! and SHOW, over the tokens of the lexer. Keywords match in any case.
use vstd::prelude::*;
use crate::error::LakeError;
use crate::lexer::lex;
use crate::lexer::tokenize;
use crate::lexer::toks;
use crate::lexer::TokView;
use crate::lexer::Token;
use crate::text::contains;
use crate::text::eq_ci;
use crate::text::eq_ci_str;
use crate::text::find;
use crate::text::find_str;
use crate::types::strs;
use crate::types::Action;
use crate::types::Permission;
use crate::types::PermissionView;
use crate::types::Principal;
use crate::types::PrincipalView;
use crate::types::Resource;
use crate::types::ResourceView;
use crate::types::RowFilter;
use crate::types::RowFilterView;

verus! {

/// A statement as plain values.
pub enum StatementView {
    Grant {
        actions: Seq<Action>,
        resource: ResourceView,
        principal: PrincipalView,
        grant_option: bool,
        row_filter: Option<RowFilterView>,
    },
    Revoke { actions: Seq<Action>, resource: ResourceView, principal: PrincipalView },
    CreateRole { name: Seq<char> },
    CreateTag { name: Seq<char>, values: Seq<Seq<char>> },
    DropRole { name: Seq<char> },
    DropTag { name: Seq<char> },
    ShowPermissions { principal: Option<PrincipalView> },
    ShowRoles,
    ShowTags,
}

/// One parsed statement.
#[derive(Debug)]
pub enum DdlStatement {
    Grant {
        actions: Vec<Action>,
        resource: Resource,
        principal: Principal,
        grant_option: bool,
        row_filter: Option<RowFilter>,
    },
    Revoke { actions: Vec<Action>, resource: Resource, principal: Principal },
    CreateRole { name: String },
    CreateTag { name: String, values: Vec<String> },
    DropRole { name: String },
    DropTag { name: String },
    ShowPermissions { principal: Option<Principal> },
    ShowRoles,
    ShowTags,
}

impl View for DdlStatement {
    type V = StatementView;

    open spec fn view(&self) -> StatementView {
        match self {
            DdlStatement::Grant { actions, resource, principal, grant_option, row_filter } =>
                StatementView::Grant {
                actions: actions@,
                resource: resource@,
                principal: principal@,
                grant_option: *grant_option,
                row_filter: match row_filter {
                    Some(f) => Some(f@),
                    None => None,
                },
            },
            DdlStatement::Revoke { actions, resource, principal } => StatementView::Revoke {
                actions: actions@,
                resource: resource@,
                principal: principal@,
            },
            DdlStatement::CreateRole { name } => StatementView::CreateRole { name: name@ },
            DdlStatement::CreateTag { name, values } => StatementView::CreateTag {
                name: name@,
                values: strs(values@),
            },
            DdlStatement::DropRole { name } => StatementView::DropRole { name: name@ },
            DdlStatement::DropTag { name } => StatementView::DropTag { name: name@ },
            DdlStatement::ShowPermissions { principal } => StatementView::ShowPermissions {
                principal: match principal {
                    Some(p) => Some(p@),
                    None => None,
                },
            },
            DdlStatement::ShowRoles => StatementView::ShowRoles,
            DdlStatement::ShowTags => StatementView::ShowTags,
        }
    }
}

/// Token `i` of `t` is the keyword `k`, in any case.
pub open spec fn kw(t: Seq<TokView>, i: int, k: Seq<char>) -> bool {
    0 <= i < t.len() && t[i] is Word && eq_ci(t[i]->Word_0, k)
}

/// The action a word names.
pub open spec fn action_of(w: Seq<char>) -> Option<Action> {
    if eq_ci(w, "SELECT"@) {
        Some(Action::Select)
    } else if eq_ci(w, "INSERT"@) {
        Some(Action::Insert)
    } else if eq_ci(w, "UPDATE"@) {
        Some(Action::Update)
    } else if eq_ci(w, "DELETE"@) {
        Some(Action::Delete)
    } else if eq_ci(w, "CREATE_TABLE"@) {
        Some(Action::CreateTable)
    } else if eq_ci(w, "DROP_TABLE"@) {
        Some(Action::DropTable)
    } else if eq_ci(w, "ALTER_TABLE"@) {
        Some(Action::AlterTable)
    } else if eq_ci(w, "DESCRIBE"@) {
        Some(Action::Describe)
    } else if eq_ci(w, "DATA_LOCATION_ACCESS"@) {
        Some(Action::DataLocationAccess)
    } else if eq_ci(w, "GRANT_WITH_GRANT_OPTION"@) {
        Some(Action::GrantWithGrantOption)
    } else {
        None
    }
}

/// A comma-separated list of actions starting at token `i`, and the index after it.
pub open spec fn p_actions(t: Seq<TokView>, i: int) -> Option<(Seq<Action>, int)>
    decreases t.len() - i,
{
    if 0 <= i < t.len() && t[i] is Word && action_of(t[i]->Word_0) is Some {
        let a = action_of(t[i]->Word_0)->Some_0;
        if i + 1 < t.len() && t[i + 1] is Comma {
            match p_actions(t, i + 2) {
                Some((rest, j)) => Some((seq![a] + rest, j)),
                None => None,
            }
        } else {
            Some((seq![a], i + 1))
        }
    } else {
        None
    }
}

/// A name: a word, or a quoted string without its quotes.
pub open spec fn name_of(t: TokView) -> Option<Seq<char>> {
    match t {
        TokView::Word(w) => Some(w),
        TokView::Quoted(_, s) => Some(s),
        _ => None,
    }
}

/// A comma-separated list of names starting at token `i`, and the index after it.
pub open spec fn p_names(t: Seq<TokView>, i: int, quoted_only: bool) -> Option<(Seq<Seq<char>>, int)>
    decreases t.len() - i,
{
    if 0 <= i < t.len() && name_of(t[i]) is Some && (!quoted_only || t[i] is Quoted) {
        let a = name_of(t[i])->Some_0;
        if i + 1 < t.len() && t[i + 1] is Comma {
            match p_names(t, i + 2, quoted_only) {
                Some((rest, j)) => Some((seq![a] + rest, j)),
                None => None,
            }
        } else {
            Some((seq![a], i + 1))
        }
    } else {
        None
    }
}

/// `database.table`: split at the only dot, both sides non-empty.
pub open spec fn split_dot(w: Seq<char>) -> Option<(Seq<char>, Seq<char>)> {
    match find(w, "."@) {
        Some(k) => if 0 < k && k + 1 < w.len() && !contains(w.subrange(k + 1, w.len() as int), "."@) {
            Some((w.subrange(0, k), w.subrange(k + 1, w.len() as int)))
        } else {
            None
        },
        None => None,
    }
}

/// A resource starting at token `i`, and the index after it.
pub open spec fn p_resource(t: Seq<TokView>, i: int) -> Option<(ResourceView, int)> {
    if kw(t, i, "DATABASE"@) && i + 1 < t.len() && t[i + 1] is Word {
        Some((ResourceView::Database { name: t[i + 1]->Word_0 }, i + 2))
    } else if quoted_at(t, i) is Some {
        Some((ResourceView::DataLocation { path: quoted_at(t, i)->Some_0 }, i + 1))
    } else if 0 <= i < t.len() && t[i] is Word && split_dot(t[i]->Word_0) is Some {
        let (db, tb) = split_dot(t[i]->Word_0)->Some_0;
        if i + 1 < t.len() && t[i + 1] is LParen {
            match p_names(t, i + 2, false) {
                Some((cols, j)) => if j < t.len() && t[j] is RParen {
                    Some((ResourceView::Table { database: db, table: tb, columns: Some(cols) }, j + 1))
                } else {
                    None
                },
                None => None,
            }
        } else {
            Some((ResourceView::Table { database: db, table: tb, columns: None }, i + 1))
        }
    } else {
        None
    }
}

/// A single-quoted string at token `i`.
pub open spec fn quoted_at(t: Seq<TokView>, i: int) -> Option<Seq<char>> {
    if 0 <= i < t.len() && t[i] is Quoted && t[i]->Quoted_0 == '\'' {
        Some(t[i]->Quoted_1)
    } else {
        None
    }
}

/// A principal starting at token `i`, and the index after it.
pub open spec fn p_principal(t: Seq<TokView>, i: int) -> Option<(PrincipalView, int)> {
    if kw(t, i, "ROLE"@) && i + 1 < t.len() && t[i + 1] is Word {
        Some((PrincipalView::Role(t[i + 1]->Word_0), i + 2))
    } else if kw(t, i, "USER"@) && quoted_at(t, i + 1) is Some {
        Some((PrincipalView::User(quoted_at(t, i + 1)->Some_0), i + 2))
    } else if kw(t, i, "GROUP"@) && quoted_at(t, i + 1) is Some {
        Some((PrincipalView::SamlGroup(quoted_at(t, i + 1)->Some_0), i + 2))
    } else if kw(t, i, "EXTERNAL_ACCOUNT"@) && quoted_at(t, i + 1) is Some {
        Some((PrincipalView::ExternalAccount(quoted_at(t, i + 1)->Some_0), i + 2))
    } else {
        None
    }
}

/// The statement ends at token `i`, with or without a `;`.
pub open spec fn at_end(t: Seq<TokView>, i: int) -> bool {
    i == t.len() || (i + 1 == t.len() && t[i] is Semi)
}

/// A word at token `i` that ends the statement.
pub open spec fn last_word(t: Seq<TokView>, i: int) -> Option<Seq<char>> {
    if 0 <= i < t.len() && t[i] is Word && at_end(t, i + 1) {
        Some(t[i]->Word_0)
    } else {
        None
    }
}

/// What follows the principal of a GRANT: an optional `WITH GRANT OPTION`,
/// then an optional `WHERE` filter.
pub open spec fn grant_tail(t: Seq<TokView>, k: int) -> Option<(bool, Option<Seq<char>>)> {
    let go = kw(t, k, "WITH"@) && kw(t, k + 1, "GRANT"@) && kw(t, k + 2, "OPTION"@);
    let k2 = if go {
        k + 3
    } else {
        k
    };
    if kw(t, k2, "WHERE"@) && k2 + 2 == t.len() && t[k2 + 1] is Rest && t[k2 + 1]->Rest_0.len() > 0 {
        Some((go, Some(t[k2 + 1]->Rest_0)))
    } else if at_end(t, k2) {
        Some((go, None))
    } else {
        None
    }
}

/// `<actions> ON <resource> <sep> <principal>` from token 1, and the index after it.
pub open spec fn p_target(t: Seq<TokView>, sep: Seq<char>) -> Option<
    (Seq<Action>, ResourceView, PrincipalView, int),
> {
    match p_actions(t, 1) {
        Some((acts, i)) => if kw(t, i, "ON"@) {
            match p_resource(t, i + 1) {
                Some((res, j)) => if kw(t, j, sep) {
                    match p_principal(t, j + 1) {
                        Some((pr, k)) => Some((acts, res, pr, k)),
                        None => None,
                    }
                } else {
                    None
                },
                None => None,
            }
        } else {
            None
        },
        None => None,
    }
}

/// The statement the tokens `t` spell, if any.
pub open spec fn parse_tokens(t: Seq<TokView>) -> Option<StatementView> {
    if kw(t, 0, "GRANT"@) {
        match p_target(t, "TO"@) {
            Some((acts, res, pr, k)) => match grant_tail(t, k) {
                Some((go, f)) => Some(
                    StatementView::Grant {
                        actions: acts,
                        resource: res,
                        principal: pr,
                        grant_option: go,
                        row_filter: match f {
                            Some(e) => Some(RowFilterView { expression: e, session_context: None }),
                            None => None,
                        },
                    },
                ),
                None => None,
            },
            None => None,
        }
    } else if kw(t, 0, "REVOKE"@) {
        match p_target(t, "FROM"@) {
            Some((acts, res, pr, k)) => if at_end(t, k) {
                Some(StatementView::Revoke { actions: acts, resource: res, principal: pr })
            } else {
                None
            },
            None => None,
        }
    } else if kw(t, 0, "CREATE"@) && kw(t, 1, "ROLE"@) && last_word(t, 2) is Some {
        Some(StatementView::CreateRole { name: last_word(t, 2)->Some_0 })
    } else if kw(t, 0, "CREATE"@) && kw(t, 1, "TAG"@) && 2 < t.len() && t[2] is Word && kw(
        t,
        3,
        "VALUES"@,
    ) && 4 < t.len() && t[4] is LParen {
        if 5 < t.len() && t[5] is RParen && at_end(t, 6) {
            Some(StatementView::CreateTag { name: t[2]->Word_0, values: Seq::empty() })
        } else {
            match p_names(t, 5, true) {
                Some((vals, j)) => if j < t.len() && t[j] is RParen && at_end(t, j + 1) {
                    Some(StatementView::CreateTag { name: t[2]->Word_0, values: vals })
                } else {
                    None
                },
                None => None,
            }
        }
    } else if kw(t, 0, "DROP"@) && kw(t, 1, "ROLE"@) && last_word(t, 2) is Some {
        Some(StatementView::DropRole { name: last_word(t, 2)->Some_0 })
    } else if kw(t, 0, "DROP"@) && kw(t, 1, "TAG"@) && last_word(t, 2) is Some {
        Some(StatementView::DropTag { name: last_word(t, 2)->Some_0 })
    } else if kw(t, 0, "SHOW"@) && kw(t, 1, "PERMISSIONS"@) && at_end(t, 2) {
        Some(StatementView::ShowPermissions { principal: None })
    } else if kw(t, 0, "SHOW"@) && kw(t, 1, "PERMISSIONS"@) && kw(t, 2, "FOR"@) {
        match p_principal(t, 3) {
            Some((pr, k)) => if at_end(t, k) {
                Some(StatementView::ShowPermissions { principal: Some(pr) })
            } else {
                None
            },
            None => None,
        }
    } else if kw(t, 0, "SHOW"@) && kw(t, 1, "ROLES"@) && at_end(t, 2) {
        Some(StatementView::ShowRoles)
    } else if kw(t, 0, "SHOW"@) && kw(t, 1, "TAGS"@) && at_end(t, 2) {
        Some(StatementView::ShowTags)
    } else {
        None
    }
}

/// The statement `sql` spells, if any.
pub open spec fn parse_spec(sql: Seq<char>) -> Option<StatementView> {
    match lex(sql) {
        Some(t) => parse_tokens(t),
        None => None,
    }
}

/// Whether token `i` is the keyword `k`.
fn kw_at(t: &Vec<Token>, i: usize, k: &str) -> (r: bool)
    ensures
        r == kw(toks(t@), i as int, k@),
        r ==> i < t.len(),
{
    if i < t.len() {
        match &t[i] {
            Token::Word(w) => eq_ci_str(w.as_str(), k),
            _ => false,
        }
    } else {
        false
    }
}

/// The action a word names, if any.
pub fn action_word(w: &str) -> (r: Option<Action>)
    ensures
        r == action_of(w@),
{
    if eq_ci_str(w, "SELECT") {
        Some(Action::Select)
    } else if eq_ci_str(w, "INSERT") {
        Some(Action::Insert)
    } else if eq_ci_str(w, "UPDATE") {
        Some(Action::Update)
    } else if eq_ci_str(w, "DELETE") {
        Some(Action::Delete)
    } else if eq_ci_str(w, "CREATE_TABLE") {
        Some(Action::CreateTable)
    } else if eq_ci_str(w, "DROP_TABLE") {
        Some(Action::DropTable)
    } else if eq_ci_str(w, "ALTER_TABLE") {
        Some(Action::AlterTable)
    } else if eq_ci_str(w, "DESCRIBE") {
        Some(Action::Describe)
    } else if eq_ci_str(w, "DATA_LOCATION_ACCESS") {
        Some(Action::DataLocationAccess)
    } else if eq_ci_str(w, "GRANT_WITH_GRANT_OPTION") {
        Some(Action::GrantWithGrantOption)
    } else {
        None
    }
}

fn parse_action_list(t: &Vec<Token>, i: usize) -> (r: Option<(Vec<Action>, usize)>)
    ensures
        match p_actions(toks(t@), i as int) {
            Some((a, j)) => r matches Some((v, k)) && v@ == a && k == j,
            None => r is None,
        },
    decreases t.len() - i,
{
    if i >= t.len() {
        return None;
    }
    let a = match &t[i] {
        Token::Word(w) => match action_word(w.as_str()) {
            Some(a) => a,
            None => {
                return None;
            },
        },
        _ => {
            return None;
        },
    };
    if i + 1 < t.len() && matches!(t[i + 1], Token::Comma) {
        match parse_action_list(t, i + 2) {
            Some((rest, j)) => {
                let mut v: Vec<Action> = Vec::new();
                v.push(a);
                let mut rest = rest;
                let ghost rv = rest@;
                v.append(&mut rest);
                assert(v@ =~= seq![a] + rv);
                Some((v, j))
            },
            None => None,
        }
    } else {
        let mut v: Vec<Action> = Vec::new();
        v.push(a);
        assert(v@ =~= seq![a]);
        Some((v, i + 1))
    }
}

fn name_at(t: &Vec<Token>, i: usize, quoted_only: bool) -> (r: Option<String>)
    requires
        i < t.len(),
    ensures
        match name_of(toks(t@)[i as int]) {
            Some(n) => if !quoted_only || toks(t@)[i as int] is Quoted {
                r matches Some(s) && s@ == n
            } else {
                r is None
            },
            None => r is None,
        },
{
    match &t[i] {
        Token::Word(w) => if quoted_only {
            None
        } else {
            Some(w.clone())
        },
        Token::Quoted(_, s) => Some(s.clone()),
        _ => None,
    }
}

fn parse_names(t: &Vec<Token>, i: usize, quoted_only: bool) -> (r: Option<(Vec<String>, usize)>)
    ensures
        match p_names(toks(t@), i as int, quoted_only) {
            Some((a, j)) => r matches Some((v, k)) && strs(v@) == a && k == j,
            None => r is None,
        },
    decreases t.len() - i,
{
    if i >= t.len() {
        return None;
    }
    let a = match name_at(t, i, quoted_only) {
        Some(a) => a,
        None => {
            return None;
        },
    };
    if i + 1 < t.len() && matches!(t[i + 1], Token::Comma) {
        match parse_names(t, i + 2, quoted_only) {
            Some((rest, j)) => {
                let mut v: Vec<String> = Vec::new();
                v.push(a);
                let mut rest = rest;
                let ghost rv = rest@;
                v.append(&mut rest);
                assert(strs(v@) =~= seq![a@] + strs(rv));
                Some((v, j))
            },
            None => None,
        }
    } else {
        let mut v: Vec<String> = Vec::new();
        v.push(a);
        assert(strs(v@) =~= seq![a@]);
        Some((v, i + 1))
    }
}

/// Exec counterpart of [`split_dot`].
fn split_dot_str(w: &str) -> (r: Option<(String, String)>)
    ensures
        match split_dot(w@) {
            Some((a, b)) => r matches Some((x, y)) && x@ == a && y@ == b,
            None => r is None,
        },
{
    let n = w.unicode_len();
    match find_str(w, ".") {
        Some(k) => {
            if 0 < k && k < n && k + 1 < n {
                let rest = w.substring_char(k + 1, n);
                if find_str(rest, ".").is_none() {
                    return Some((String::from_str(w.substring_char(0, k)), String::from_str(rest)));
                }
            }
            None
        },
        None => None,
    }
}

/// Exec counterpart of [`quoted_at`].
fn quoted_string_at(t: &Vec<Token>, i: usize) -> (r: Option<String>)
    ensures
        match quoted_at(toks(t@), i as int) {
            Some(q) => r matches Some(s) && s@ == q,
            None => r is None,
        },
        r is Some ==> i < t.len(),
{
    if i < t.len() {
        match &t[i] {
            Token::Quoted(q, s) => if *q == '\'' {
                Some(s.clone())
            } else {
                None
            },
            _ => None,
        }
    } else {
        None
    }
}

fn word_at(t: &Vec<Token>, i: usize) -> (r: Option<String>)
    ensures
        0 <= i < t.len() && toks(t@)[i as int] is Word ==> (r matches Some(s) && s@ == toks(
            t@,
        )[i as int]->Word_0),
        !(0 <= i < t.len() && toks(t@)[i as int] is Word) ==> r is None,
{
    if i < t.len() {
        match &t[i] {
            Token::Word(w) => Some(w.clone()),
            _ => None,
        }
    } else {
        None
    }
}

fn parse_resource_at(t: &Vec<Token>, i: usize) -> (r: Option<(Resource, usize)>)
    ensures
        match p_resource(toks(t@), i as int) {
            Some((res, j)) => r matches Some((x, k)) && x@ == res && k == j,
            None => r is None,
        },
{
    if kw_at(t, i, "DATABASE") && i + 1 < t.len() {
        if let Some(name) = word_at(t, i + 1) {
            return Some((Resource::Database { name }, i + 2));
        }
    }
    if let Some(path) = quoted_string_at(t, i) {
        return Some((Resource::DataLocation { path }, i + 1));
    }
    let w = match word_at(t, i) {
        Some(w) => w,
        None => {
            return None;
        },
    };
    let (database, table) = match split_dot_str(w.as_str()) {
        Some(p) => p,
        None => {
            return None;
        },
    };
    if i + 1 < t.len() && matches!(t[i + 1], Token::LParen) {
        match parse_names(t, i + 2, false) {
            Some((cols, j)) => if j < t.len() && matches!(t[j], Token::RParen) {
                Some((Resource::Table { database, table, columns: Some(cols) }, j + 1))
            } else {
                None
            },
            None => None,
        }
    } else {
        Some((Resource::Table { database, table, columns: None }, i + 1))
    }
}

fn parse_principal_at(t: &Vec<Token>, i: usize) -> (r: Option<(Principal, usize)>)
    ensures
        match p_principal(toks(t@), i as int) {
            Some((p, j)) => r matches Some((x, k)) && x@ == p && k == j,
            None => r is None,
        },
{
    if i >= t.len() || i + 1 >= t.len() {
        return None;
    }
    let role = word_at(t, i + 1);
    let q = quoted_string_at(t, i + 1);
    if kw_at(t, i, "ROLE") && role.is_some() {
        match role {
            Some(n) => Some((Principal::Role(n), i + 2)),
            None => None,
        }
    } else if kw_at(t, i, "USER") && q.is_some() {
        match q {
            Some(n) => Some((Principal::User(n), i + 2)),
            None => None,
        }
    } else if kw_at(t, i, "GROUP") && q.is_some() {
        match q {
            Some(n) => Some((Principal::SamlGroup(n), i + 2)),
            None => None,
        }
    } else if kw_at(t, i, "EXTERNAL_ACCOUNT") && q.is_some() {
        match q {
            Some(n) => Some((Principal::ExternalAccount(n), i + 2)),
            None => None,
        }
    } else {
        None
    }
}

fn at_end_exec(t: &Vec<Token>, i: usize) -> (r: bool)
    ensures
        r == at_end(toks(t@), i as int),
{
    i == t.len() || (i < t.len() && i + 1 == t.len() && matches!(t[i], Token::Semi))
}

fn last_word_at(t: &Vec<Token>, i: usize) -> (r: Option<String>)
    ensures
        match last_word(toks(t@), i as int) {
            Some(w) => r matches Some(s) && s@ == w,
            None => r is None,
        },
{
    if i < t.len() && at_end_exec(t, i + 1) {
        word_at(t, i)
    } else {
        None
    }
}

fn parse_grant_tail(t: &Vec<Token>, k: usize) -> (r: Option<(bool, Option<String>)>)
    ensures
        match grant_tail(toks(t@), k as int) {
            Some((go, f)) => r matches Some((g, e)) && g == go && match f {
                Some(x) => e matches Some(y) && y@ == x,
                None => e is None,
            },
            None => r is None,
        },
{
    if k > t.len() {
        return None;
    }
    let go = kw_at(t, k, "WITH") && k + 1 < t.len() && kw_at(t, k + 1, "GRANT") && k + 2 < t.len()
        && kw_at(t, k + 2, "OPTION");
    let k2 = if go {
        k + 3
    } else {
        k
    };
    if kw_at(t, k2, "WHERE") && k2 + 1 < t.len() && k2 + 2 == t.len() {
        if let Token::Rest(e) = &t[k2 + 1] {
            if e.unicode_len() > 0 {
                return Some((go, Some(e.clone())));
            }
        }
    }
    if at_end_exec(t, k2) {
        Some((go, None))
    } else {
        None
    }
}

fn parse_target(t: &Vec<Token>, sep: &str) -> (r: Option<(Vec<Action>, Resource, Principal, usize)>)
    ensures
        match p_target(toks(t@), sep@) {
            Some((a, res, p, k)) => r matches Some((va, vr, vp, vk)) && va@ == a && vr@ == res
                && vp@ == p && vk == k,
            None => r is None,
        },
{
    let (actions, i) = match parse_action_list(t, 1) {
        Some(x) => x,
        None => {
            return None;
        },
    };
    if !kw_at(t, i, "ON") {
        return None;
    }
    let (resource, j) = match parse_resource_at(t, i + 1) {
        Some(x) => x,
        None => {
            return None;
        },
    };
    if !kw_at(t, j, sep) {
        return None;
    }
    match parse_principal_at(t, j + 1) {
        Some((principal, k)) => Some((actions, resource, principal, k)),
        None => None,
    }
}

fn parse_statement(t: &Vec<Token>) -> (r: Option<DdlStatement>)
    ensures
        match parse_tokens(toks(t@)) {
            Some(st) => r matches Some(d) && d@ == st,
            None => r is None,
        },
{
    if kw_at(t, 0, "GRANT") {
        match parse_target(t, "TO") {
            Some((actions, resource, principal, k)) => match parse_grant_tail(t, k) {
                Some((grant_option, f)) => {
                    let row_filter = match f {
                        Some(e) => Some(RowFilter { expression: e, session_context: None }),
                        None => None,
                    };
                    Some(DdlStatement::Grant { actions, resource, principal, grant_option, row_filter })
                },
                None => None,
            },
            None => None,
        }
    } else if kw_at(t, 0, "REVOKE") {
        match parse_target(t, "FROM") {
            Some((actions, resource, principal, k)) => if at_end_exec(t, k) {
                Some(DdlStatement::Revoke { actions, resource, principal })
            } else {
                None
            },
            None => None,
        }
    } else if kw_at(t, 0, "CREATE") && kw_at(t, 1, "ROLE") && last_word_at(t, 2).is_some() {
        match last_word_at(t, 2) {
            Some(name) => Some(DdlStatement::CreateRole { name }),
            None => None,
        }
    } else if kw_at(t, 0, "CREATE") && kw_at(t, 1, "TAG") && word_at(t, 2).is_some() && kw_at(
        t,
        3,
        "VALUES",
    ) && 4 < t.len() && matches!(t[4], Token::LParen) {
        let name = match word_at(t, 2) {
            Some(n) => n,
            None => {
                return None;
            },
        };
        if 5 < t.len() && matches!(t[5], Token::RParen) && at_end_exec(t, 6) {
            let values: Vec<String> = Vec::new();
            assert(strs(values@) =~= Seq::<Seq<char>>::empty());
            Some(DdlStatement::CreateTag { name, values })
        } else {
            match parse_names(t, 5, true) {
                Some((values, j)) => if j < t.len() && matches!(t[j], Token::RParen) && at_end_exec(
                    t,
                    j + 1,
                ) {
                    Some(DdlStatement::CreateTag { name, values })
                } else {
                    None
                },
                None => None,
            }
        }
    } else if kw_at(t, 0, "DROP") && kw_at(t, 1, "ROLE") && last_word_at(t, 2).is_some() {
        match last_word_at(t, 2) {
            Some(name) => Some(DdlStatement::DropRole { name }),
            None => None,
        }
    } else if kw_at(t, 0, "DROP") && kw_at(t, 1, "TAG") && last_word_at(t, 2).is_some() {
        match last_word_at(t, 2) {
            Some(name) => Some(DdlStatement::DropTag { name }),
            None => None,
        }
    } else if kw_at(t, 0, "SHOW") && kw_at(t, 1, "PERMISSIONS") && at_end_exec(t, 2) {
        Some(DdlStatement::ShowPermissions { principal: None })
    } else if kw_at(t, 0, "SHOW") && kw_at(t, 1, "PERMISSIONS") && kw_at(t, 2, "FOR") {
        match parse_principal_at(t, 3) {
            Some((p, k)) => if at_end_exec(t, k) {
                Some(DdlStatement::ShowPermissions { principal: Some(p) })
            } else {
                None
            },
            None => None,
        }
    } else if kw_at(t, 0, "SHOW") && kw_at(t, 1, "ROLES") && at_end_exec(t, 2) {
        Some(DdlStatement::ShowRoles)
    } else if kw_at(t, 0, "SHOW") && kw_at(t, 1, "TAGS") && at_end_exec(t, 2) {
        Some(DdlStatement::ShowTags)
    } else {
        None
    }
}

/// Parses one statement. Fails with a parse error exactly when `sql` is not
/// a statement of the grammar.
pub fn parse_ddl(sql: &str) -> (r: Result<DdlStatement, LakeError>)
    ensures
        match parse_spec(sql@) {
            Some(st) => r matches Ok(d) && d@ == st,
            None => r matches Err(LakeError::ParseError(_)),
        },
{
    let t = match tokenize(sql) {
        Some(t) => t,
        None => {
            return Err(LakeError::ParseError(String::from_str("unterminated quoted string")));
        },
    };
    match parse_statement(&t) {
        Some(st) => Ok(st),
        None => Err(LakeError::ParseError(String::from_str(sql))),
    }
}

/// The grant a statement expresses as a permission.
pub open spec fn permission_of(st: StatementView) -> Option<PermissionView> {
    match st {
        StatementView::Grant { actions, resource, principal, grant_option, row_filter } => Some(
            PermissionView {
                principal,
                resource,
                actions,
                grant_option,
                row_filter,
            },
        ),
        _ => None,
    }
}

impl DdlStatement {
    /// The permission a GRANT statement expresses; any other statement is a
    /// usage error.
    pub fn to_permission(&self) -> (r: Result<Permission, LakeError>)
        ensures
            match permission_of(self@) {
                Some(p) => r matches Ok(x) && x@ == p,
                None => r matches Err(LakeError::Usage(_)),
            },
    {
        match self {
            DdlStatement::Grant { actions, resource, principal, grant_option, row_filter } => {
                Ok(
                    Permission {
                        principal: principal.clone(),
                        resource: resource.clone(),
                        actions: crate::types::clone_actions(actions),
                        grant_option: *grant_option,
                        row_filter: match row_filter {
                            Some(f) => Some(f.clone()),
                            None => None,
                        },
                    },
                )
            },
            _ => Err(
                LakeError::Usage(
                    String::from_str("statement is not a GRANT and cannot be converted to a permission"),
                ),
            ),
        }
    }
}

/// A name at token `i`: a word, or a single-quoted string.
pub open spec fn loose_name_at(t: Seq<TokView>, i: int) -> Option<Seq<char>> {
    if 0 <= i < t.len() && t[i] is Word {
        Some(t[i]->Word_0)
    } else {
        quoted_at(t, i)
    }
}

/// A principal as written on a command line: as in a statement, except that
/// the name after `USER`, `GROUP` or `EXTERNAL_ACCOUNT` may also be a bare word.
pub open spec fn p_principal_loose(t: Seq<TokView>, i: int) -> Option<(PrincipalView, int)> {
    if kw(t, i, "ROLE"@) && i + 1 < t.len() && t[i + 1] is Word {
        Some((PrincipalView::Role(t[i + 1]->Word_0), i + 2))
    } else if kw(t, i, "USER"@) && loose_name_at(t, i + 1) is Some {
        Some((PrincipalView::User(loose_name_at(t, i + 1)->Some_0), i + 2))
    } else if kw(t, i, "GROUP"@) && loose_name_at(t, i + 1) is Some {
        Some((PrincipalView::SamlGroup(loose_name_at(t, i + 1)->Some_0), i + 2))
    } else if kw(t, i, "EXTERNAL_ACCOUNT"@) && loose_name_at(t, i + 1) is Some {
        Some((PrincipalView::ExternalAccount(loose_name_at(t, i + 1)->Some_0), i + 2))
    } else {
        None
    }
}

/// The principal the whole of `s` spells (`ROLE analyst`, `USER 'bob'`,
/// `USER bob@example.com`, ...).
pub open spec fn principal_spec(s: Seq<char>) -> Option<PrincipalView> {
    match lex(s) {
        Some(t) => match p_principal_loose(t, 0) {
            Some((p, k)) => if at_end(t, k) {
                Some(p)
            } else {
                None
            },
            None => None,
        },
        None => None,
    }
}

/// The resource the whole of `s` spells (`DATABASE sales`, `sales.orders`, ...).
pub open spec fn resource_spec(s: Seq<char>) -> Option<ResourceView> {
    match lex(s) {
        Some(t) => match p_resource(t, 0) {
            Some((r, k)) => if at_end(t, k) {
                Some(r)
            } else {
                None
            },
            None => None,
        },
        None => None,
    }
}

fn loose_name(t: &Vec<Token>, i: usize) -> (r: Option<String>)
    ensures
        match loose_name_at(toks(t@), i as int) {
            Some(n) => r matches Some(x) && x@ == n,
            None => r is None,
        },
{
    match word_at(t, i) {
        Some(w) => Some(w),
        None => quoted_string_at(t, i),
    }
}

fn parse_principal_loose_at(t: &Vec<Token>, i: usize) -> (r: Option<(Principal, usize)>)
    ensures
        match p_principal_loose(toks(t@), i as int) {
            Some((p, j)) => r matches Some((x, k)) && x@ == p && k == j,
            None => r is None,
        },
{
    if i >= t.len() || i + 1 >= t.len() {
        return None;
    }
    let role = word_at(t, i + 1);
    let n = loose_name(t, i + 1);
    if kw_at(t, i, "ROLE") && role.is_some() {
        match role {
            Some(x) => Some((Principal::Role(x), i + 2)),
            None => None,
        }
    } else if kw_at(t, i, "USER") && n.is_some() {
        match n {
            Some(x) => Some((Principal::User(x), i + 2)),
            None => None,
        }
    } else if kw_at(t, i, "GROUP") && n.is_some() {
        match n {
            Some(x) => Some((Principal::SamlGroup(x), i + 2)),
            None => None,
        }
    } else if kw_at(t, i, "EXTERNAL_ACCOUNT") && n.is_some() {
        match n {
            Some(x) => Some((Principal::ExternalAccount(x), i + 2)),
            None => None,
        }
    } else {
        None
    }
}

/// Parses a principal as written on a command line (see [`p_principal_loose`]).
pub fn parse_principal(s: &str) -> (r: Result<Principal, LakeError>)
    ensures
        match principal_spec(s@) {
            Some(p) => r matches Ok(x) && x@ == p,
            None => r matches Err(LakeError::UnknownPrincipalKind(m)) && m@ == s@,
        },
{
    if let Some(t) = tokenize(s) {
        if let Some((p, k)) = parse_principal_loose_at(&t, 0) {
            if at_end_exec(&t, k) {
                return Ok(p);
            }
        }
    }
    Err(LakeError::UnknownPrincipalKind(String::from_str(s)))
}

/// Parses a resource written as in a statement.
pub fn parse_resource(s: &str) -> (r: Result<Resource, LakeError>)
    ensures
        match resource_spec(s@) {
            Some(x) => r matches Ok(y) && y@ == x,
            None => r matches Err(LakeError::UnknownResourceKind(m)) && m@ == s@,
        },
{
    if let Some(t) = tokenize(s) {
        if let Some((x, k)) = parse_resource_at(&t, 0) {
            if at_end_exec(&t, k) {
                return Ok(x);
            }
        }
    }
    Err(LakeError::UnknownResourceKind(String::from_str(s)))
}

/// Parses an action keyword, in any case.
pub fn parse_action(s: &str) -> (r: Result<Action, LakeError>)
    ensures
        match action_of(s@) {
            Some(a) => r == Ok::<Action, LakeError>(a),
            None => r matches Err(LakeError::UnknownAction(m)) && m@ == s@,
        },
{
    match action_word(s) {
        Some(a) => Ok(a),
        None => Err(LakeError::UnknownAction(String::from_str(s))),
    }
}

} // verus!
