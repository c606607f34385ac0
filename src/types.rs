//! Actions, principals, resources and permissions, with the matching rules between them.
use vstd::prelude::*;
use crate::strmap::StrMap;
use crate::text::starts_with;
use crate::text::starts_with_str;
use crate::text::str_eq;

verus! {

/// An operation right that can be granted on a resource.
#[derive(Debug, Clone, Copy, PartialEq, Eq, Structural, Hash)]
pub enum Action {
    Select,
    Insert,
    Update,
    Delete,
    CreateTable,
    DropTable,
    AlterTable,
    Describe,
    DataLocationAccess,
    GrantWithGrantOption,
}

/// The characters of each string in `v`.
pub open spec fn strs(v: Seq<String>) -> Seq<Seq<char>> {
    v.map_values(|s: String| s@)
}

/// A copy of a list of strings.
pub fn clone_strs(v: &Vec<String>) -> (r: Vec<String>)
    ensures
        strs(r@) == strs(v@),
{
    let mut r: Vec<String> = Vec::new();
    let mut i: usize = 0;
    while i < v.len()
        invariant
            0 <= i <= v.len(),
            strs(r@) == strs(v@).subrange(0, i as int),
        decreases v.len() - i,
    {
        let ghost pre = r@;
        r.push(v[i].clone());
        proof {
            assert(strs(r@) =~= strs(pre).push(v@[i as int]@));
            assert(strs(v@).subrange(0, i + 1) =~= strs(v@).subrange(0, i as int).push(
                v@[i as int]@,
            ));
        }
        i = i + 1;
    }
    assert(strs(v@).subrange(0, v.len() as int) =~= strs(v@));
    r
}

/// Whether two lists of strings hold the same strings in the same order.
pub fn strs_eq(a: &Vec<String>, b: &Vec<String>) -> (r: bool)
    ensures
        r == (strs(a@) == strs(b@)),
{
    if a.len() != b.len() {
        assert(strs(a@).len() != strs(b@).len());
        return false;
    }
    let mut i: usize = 0;
    while i < a.len()
        invariant
            a.len() == b.len(),
            0 <= i <= a.len(),
            forall|k: int| 0 <= k < i ==> a@[k]@ == b@[k]@,
        decreases a.len() - i,
    {
        if !same(&a[i], &b[i]) {
            assert(strs(a@)[i as int] != strs(b@)[i as int]);
            return false;
        }
        i = i + 1;
    }
    assert(strs(a@) =~= strs(b@));
    true
}

/// Whether two strings hold the same characters.
pub fn same(a: &String, b: &String) -> (r: bool)
    ensures
        r == (a@ == b@),
{
    str_eq(a.as_str(), b.as_str())
}

/// A principal as plain values.
pub enum PrincipalView {
    User(Seq<char>),
    Role(Seq<char>),
    SamlGroup(Seq<char>),
    ExternalAccount(Seq<char>),
    TaggedPrincipal { tag_key: Seq<char>, tag_values: Seq<Seq<char>> },
}

/// An identity that can hold permissions.
#[derive(Debug, Hash)]
pub enum Principal {
    User(String),
    Role(String),
    SamlGroup(String),
    ExternalAccount(String),
    TaggedPrincipal { tag_key: String, tag_values: Vec<String> },
}

impl View for Principal {
    type V = PrincipalView;

    open spec fn view(&self) -> PrincipalView {
        match self {
            Principal::User(s) => PrincipalView::User(s@),
            Principal::Role(s) => PrincipalView::Role(s@),
            Principal::SamlGroup(s) => PrincipalView::SamlGroup(s@),
            Principal::ExternalAccount(s) => PrincipalView::ExternalAccount(s@),
            Principal::TaggedPrincipal { tag_key, tag_values } => PrincipalView::TaggedPrincipal {
                tag_key: tag_key@,
                tag_values: strs(tag_values@),
            },
        }
    }
}

/// Like-kind identity: the same kind and the same name. A tagged principal
/// matches nothing.
pub open spec fn principal_matches(a: PrincipalView, b: PrincipalView) -> bool {
    match (a, b) {
        (PrincipalView::User(x), PrincipalView::User(y)) => x == y,
        (PrincipalView::Role(x), PrincipalView::Role(y)) => x == y,
        (PrincipalView::SamlGroup(x), PrincipalView::SamlGroup(y)) => x == y,
        (PrincipalView::ExternalAccount(x), PrincipalView::ExternalAccount(y)) => x == y,
        _ => false,
    }
}

impl Principal {
    /// Whether this principal and `other` are the same identity of the same kind.
    pub fn matches(&self, other: &Principal) -> (r: bool)
        ensures
            r == principal_matches(self@, other@),
    {
        match (self, other) {
            (Principal::User(a), Principal::User(b)) => same(a, b),
            (Principal::Role(a), Principal::Role(b)) => same(a, b),
            (Principal::SamlGroup(a), Principal::SamlGroup(b)) => same(a, b),
            (Principal::ExternalAccount(a), Principal::ExternalAccount(b)) => same(a, b),
            _ => false,
        }
    }
}

impl PartialEq for Principal {
    fn eq(&self, other: &Principal) -> (r: bool)
        ensures
            r == (self@ == other@),
    {
        match (self, other) {
            (Principal::User(a), Principal::User(b)) => same(a, b),
            (Principal::Role(a), Principal::Role(b)) => same(a, b),
            (Principal::SamlGroup(a), Principal::SamlGroup(b)) => same(a, b),
            (Principal::ExternalAccount(a), Principal::ExternalAccount(b)) => same(a, b),
            (
                Principal::TaggedPrincipal { tag_key: k1, tag_values: v1 },
                Principal::TaggedPrincipal { tag_key: k2, tag_values: v2 },
            ) => same(k1, k2) && strs_eq(v1, v2),
            _ => false,
        }
    }
}

impl vstd::std_specs::cmp::PartialEqSpecImpl for Principal {
    open spec fn obeys_eq_spec() -> bool {
        true
    }

    open spec fn eq_spec(&self, other: &Principal) -> bool {
        self@ == other@
    }
}

impl Eq for Principal {

}

impl Clone for Principal {
    fn clone(&self) -> (r: Principal)
        ensures
            r@ == self@,
    {
        match self {
            Principal::User(s) => Principal::User(s.clone()),
            Principal::Role(s) => Principal::Role(s.clone()),
            Principal::SamlGroup(s) => Principal::SamlGroup(s.clone()),
            Principal::ExternalAccount(s) => Principal::ExternalAccount(s.clone()),
            Principal::TaggedPrincipal { tag_key, tag_values } => Principal::TaggedPrincipal {
                tag_key: tag_key.clone(),
                tag_values: clone_strs(tag_values),
            },
        }
    }
}

/// A tag condition as plain values: a key and its allowed values.
pub open spec fn conds(v: Seq<(String, Vec<String>)>) -> Seq<(Seq<char>, Seq<Seq<char>>)> {
    v.map_values(|c: (String, Vec<String>)| (c.0@, strs(c.1@)))
}

fn clone_conds(v: &Vec<(String, Vec<String>)>) -> (r: Vec<(String, Vec<String>)>)
    ensures
        conds(r@) == conds(v@),
{
    let mut r: Vec<(String, Vec<String>)> = Vec::new();
    let mut i: usize = 0;
    while i < v.len()
        invariant
            0 <= i <= v.len(),
            conds(r@) == conds(v@).subrange(0, i as int),
        decreases v.len() - i,
    {
        let ghost pre = r@;
        let c = (v[i].0.clone(), clone_strs(&v[i].1));
        r.push(c);
        proof {
            assert(conds(r@) =~= conds(pre).push((c.0@, strs(c.1@))));
            assert(conds(v@).subrange(0, i + 1) =~= conds(v@).subrange(0, i as int).push(
                (c.0@, strs(c.1@)),
            ));
        }
        i = i + 1;
    }
    assert(conds(v@).subrange(0, v.len() as int) =~= conds(v@));
    r
}

fn conds_eq(a: &Vec<(String, Vec<String>)>, b: &Vec<(String, Vec<String>)>) -> (r: bool)
    ensures
        r == (conds(a@) == conds(b@)),
{
    if a.len() != b.len() {
        assert(conds(a@).len() != conds(b@).len());
        return false;
    }
    let mut i: usize = 0;
    while i < a.len()
        invariant
            a.len() == b.len(),
            0 <= i <= a.len(),
            forall|k: int| 0 <= k < i ==> #[trigger] conds(a@)[k] == conds(b@)[k],
        decreases a.len() - i,
    {
        if !(same(&a[i].0, &b[i].0) && strs_eq(&a[i].1, &b[i].1)) {
            assert(conds(a@)[i as int] != conds(b@)[i as int]);
            return false;
        }
        i = i + 1;
    }
    assert(conds(a@) =~= conds(b@));
    true
}

/// A resource as plain values.
pub enum ResourceView {
    Database { name: Seq<char> },
    Table { database: Seq<char>, table: Seq<char>, columns: Option<Seq<Seq<char>>> },
    DataLocation { path: Seq<char> },
    TaggedResource { tag_conditions: Seq<(Seq<char>, Seq<Seq<char>>)> },
}

/// A protected object.
#[derive(Debug, Hash)]
pub enum Resource {
    Database { name: String },
    Table { database: String, table: String, columns: Option<Vec<String>> },
    DataLocation { path: String },
    TaggedResource { tag_conditions: Vec<(String, Vec<String>)> },
}

impl View for Resource {
    type V = ResourceView;

    open spec fn view(&self) -> ResourceView {
        match self {
            Resource::Database { name } => ResourceView::Database { name: name@ },
            Resource::Table { database, table, columns } => ResourceView::Table {
                database: database@,
                table: table@,
                columns: match columns {
                    Some(c) => Some(strs(c@)),
                    None => None,
                },
            },
            Resource::DataLocation { path } => ResourceView::DataLocation { path: path@ },
            Resource::TaggedResource { tag_conditions } => ResourceView::TaggedResource {
                tag_conditions: conds(tag_conditions@),
            },
        }
    }
}

/// Whether a request on `r` is covered by a grant on `g`: a table by the same
/// table (columns aside) or by its database, a database only by itself, a
/// data location by any prefix of its path. Tagged resources cover nothing
/// and are covered by nothing.
pub open spec fn covered_by(r: ResourceView, g: ResourceView) -> bool {
    match (r, g) {
        (
            ResourceView::Table { database: d1, table: t1, .. },
            ResourceView::Table { database: d2, table: t2, .. },
        ) => d1 == d2 && t1 == t2,
        (ResourceView::Table { database: d1, .. }, ResourceView::Database { name: d2 }) => d1
            == d2,
        (ResourceView::Database { name: d1 }, ResourceView::Database { name: d2 }) => d1 == d2,
        (ResourceView::DataLocation { path: path }, ResourceView::DataLocation { path: prefix }) =>
            starts_with(path, prefix),
        _ => false,
    }
}

impl Resource {
    /// Whether this resource lies within `other`.
    pub fn is_covered_by(&self, other: &Resource) -> (r: bool)
        ensures
            r == covered_by(self@, other@),
    {
        match (self, other) {
            (
                Resource::Table { database: d1, table: t1, .. },
                Resource::Table { database: d2, table: t2, .. },
            ) => same(d1, d2) && same(t1, t2),
            (Resource::Table { database: d1, .. }, Resource::Database { name: d2 }) => same(d1, d2),
            (Resource::Database { name: d1 }, Resource::Database { name: d2 }) => same(d1, d2),
            (Resource::DataLocation { path: path }, Resource::DataLocation { path: prefix }) => {
                starts_with_str(path.as_str(), prefix.as_str())
            },
            _ => false,
        }
    }
}

impl PartialEq for Resource {
    fn eq(&self, other: &Resource) -> (r: bool)
        ensures
            r == (self@ == other@),
    {
        match (self, other) {
            (Resource::Database { name: a }, Resource::Database { name: b }) => same(a, b),
            (
                Resource::Table { database: d1, table: t1, columns: c1 },
                Resource::Table { database: d2, table: t2, columns: c2 },
            ) => {
                let same_cols = match (c1, c2) {
                    (Some(x), Some(y)) => strs_eq(x, y),
                    (None, None) => true,
                    _ => false,
                };
                same(d1, d2) && same(t1, t2) && same_cols
            },
            (Resource::DataLocation { path: a }, Resource::DataLocation { path: b }) => same(a, b),
            (
                Resource::TaggedResource { tag_conditions: a },
                Resource::TaggedResource { tag_conditions: b },
            ) => conds_eq(a, b),
            _ => false,
        }
    }
}

impl vstd::std_specs::cmp::PartialEqSpecImpl for Resource {
    open spec fn obeys_eq_spec() -> bool {
        true
    }

    open spec fn eq_spec(&self, other: &Resource) -> bool {
        self@ == other@
    }
}

impl Eq for Resource {

}

impl Clone for Resource {
    fn clone(&self) -> (r: Resource)
        ensures
            r@ == self@,
    {
        match self {
            Resource::Database { name } => Resource::Database { name: name.clone() },
            Resource::Table { database, table, columns } => Resource::Table {
                database: database.clone(),
                table: table.clone(),
                columns: match columns {
                    Some(c) => Some(clone_strs(c)),
                    None => None,
                },
            },
            Resource::DataLocation { path } => Resource::DataLocation { path: path.clone() },
            Resource::TaggedResource { tag_conditions } => Resource::TaggedResource {
                tag_conditions: clone_conds(tag_conditions),
            },
        }
    }
}

/// A copy of a list of actions.
pub fn clone_actions(v: &Vec<Action>) -> (r: Vec<Action>)
    ensures
        r@ == v@,
{
    let mut r: Vec<Action> = Vec::new();
    let mut i: usize = 0;
    while i < v.len()
        invariant
            0 <= i <= v.len(),
            r@ == v@.subrange(0, i as int),
        decreases v.len() - i,
    {
        r.push(v[i]);
        proof {
            assert(v@.subrange(0, i + 1) =~= v@.subrange(0, i as int).push(v@[i as int]));
        }
        i = i + 1;
    }
    assert(v@.subrange(0, v.len() as int) =~= v@);
    r
}

/// A row filter as plain values.
pub struct RowFilterView {
    pub expression: Seq<char>,
    pub session_context: Option<Seq<(Seq<char>, Seq<char>)>>,
}

/// A boolean expression restricting which rows a grant applies to. The
/// optional context snapshot is carried along but not consulted when the
/// filter is evaluated.
#[derive(Debug)]
pub struct RowFilter {
    pub expression: String,
    pub session_context: Option<StrMap>,
}

impl View for RowFilter {
    type V = RowFilterView;

    open spec fn view(&self) -> RowFilterView {
        RowFilterView {
            expression: self.expression@,
            session_context: match self.session_context {
                Some(m) => Some(m@),
                None => None,
            },
        }
    }
}

impl Clone for RowFilter {
    fn clone(&self) -> (r: RowFilter)
        ensures
            r@ == self@,
    {
        RowFilter {
            expression: self.expression.clone(),
            session_context: match &self.session_context {
                Some(m) => Some(m.clone()),
                None => None,
            },
        }
    }
}

/// A permission as plain values.
pub struct PermissionView {
    pub principal: PrincipalView,
    pub resource: ResourceView,
    pub actions: Seq<Action>,
    pub grant_option: bool,
    pub row_filter: Option<RowFilterView>,
}

/// A stored grant of actions to a principal on a resource.
#[derive(Debug)]
pub struct Permission {
    pub principal: Principal,
    pub resource: Resource,
    pub actions: Vec<Action>,
    pub grant_option: bool,
    pub row_filter: Option<RowFilter>,
}

impl View for Permission {
    type V = PermissionView;

    open spec fn view(&self) -> PermissionView {
        PermissionView {
            principal: self.principal@,
            resource: self.resource@,
            actions: self.actions@,
            grant_option: self.grant_option,
            row_filter: match self.row_filter {
                Some(f) => Some(f@),
                None => None,
            },
        }
    }
}

impl Clone for Permission {
    fn clone(&self) -> (r: Permission)
        ensures
            r@ == self@,
    {
        Permission {
            principal: self.principal.clone(),
            resource: self.resource.clone(),
            actions: clone_actions(&self.actions),
            grant_option: self.grant_option,
            row_filter: match &self.row_filter {
                Some(f) => Some(f.clone()),
                None => None,
            },
        }
    }
}

/// The permissions of a list as plain values.
pub open spec fn perms(v: Seq<Permission>) -> Seq<PermissionView> {
    v.map_values(|p: Permission| p@)
}

/// A copy of a list of permissions.
pub fn clone_permissions(v: &Vec<Permission>) -> (r: Vec<Permission>)
    ensures
        perms(r@) == perms(v@),
{
    let mut r: Vec<Permission> = Vec::new();
    let mut i: usize = 0;
    while i < v.len()
        invariant
            0 <= i <= v.len(),
            perms(r@) == perms(v@).subrange(0, i as int),
        decreases v.len() - i,
    {
        let ghost pre = r@;
        let p = v[i].clone();
        r.push(p);
        proof {
            assert(perms(r@) =~= perms(pre).push(p@));
            assert(perms(v@).subrange(0, i + 1) =~= perms(v@).subrange(0, i as int).push(p@));
        }
        i = i + 1;
    }
    assert(perms(v@).subrange(0, v.len() as int) =~= perms(v@));
    r
}

/// A tag as plain values.
pub struct LfTagView {
    pub key: Seq<char>,
    pub values: Seq<Seq<char>>,
    pub description: Option<Seq<char>>,
}

/// A declared key with its allowed values.
#[derive(Debug)]
pub struct LfTag {
    pub key: String,
    pub values: Vec<String>,
    pub description: Option<String>,
}

impl View for LfTag {
    type V = LfTagView;

    open spec fn view(&self) -> LfTagView {
        LfTagView {
            key: self.key@,
            values: strs(self.values@),
            description: match self.description {
                Some(d) => Some(d@),
                None => None,
            },
        }
    }
}

impl Clone for LfTag {
    fn clone(&self) -> (r: LfTag)
        ensures
            r@ == self@,
    {
        LfTag {
            key: self.key.clone(),
            values: clone_strs(&self.values),
            description: match &self.description {
                Some(d) => Some(d.clone()),
                None => None,
            },
        }
    }
}

/// A role as plain values.
pub struct RoleView {
    pub name: Seq<char>,
    pub members: Seq<Seq<char>>,
}

/// A named group of user identifiers.
#[derive(Debug)]
pub struct Role {
    pub name: String,
    pub members: Vec<String>,
}

impl View for Role {
    type V = RoleView;

    open spec fn view(&self) -> RoleView {
        RoleView { name: self.name@, members: strs(self.members@) }
    }
}

impl Clone for Role {
    fn clone(&self) -> (r: Role)
        ensures
            r@ == self@,
    {
        Role { name: self.name.clone(), members: clone_strs(&self.members) }
    }
}

/// The outcome of a statement or mutation.
#[derive(Debug, Clone)]
pub enum DdlResult {
    Success { message: String },
    Error { error: String },
    PermissionCheck { allowed: bool, reason: Option<String> },
}

/// `s` without the elements that satisfy `f`, order kept.
pub open spec fn drop_where<A>(s: Seq<A>, f: spec_fn(A) -> bool) -> Seq<A>
    decreases s.len(),
{
    if s.len() == 0 {
        s
    } else if f(s.last()) {
        drop_where(s.drop_last(), f)
    } else {
        drop_where(s.drop_last(), f).push(s.last())
    }
}

/// Dropping elements never makes a sequence longer.
pub proof fn lemma_drop_where_len<A>(s: Seq<A>, f: spec_fn(A) -> bool)
    ensures
        drop_where(s, f).len() <= s.len(),
    decreases s.len(),
{
    if s.len() > 0 {
        lemma_drop_where_len(s.drop_last(), f);
    }
}

/// No two elements of `s` share a key.
pub open spec fn unique_by<A, K>(s: Seq<A>, key: spec_fn(A) -> K) -> bool {
    forall|i: int, j: int| 0 <= i < j < s.len() ==> key(s[i]) != key(s[j])
}

proof fn lemma_drop_where_from<A>(s: Seq<A>, f: spec_fn(A) -> bool)
    ensures
        forall|i: int|
            0 <= i < drop_where(s, f).len() ==> exists|w: int|
                0 <= w < s.len() && s[w] == #[trigger] drop_where(s, f)[i] && !f(s[w]),
        forall|i: int, j: int|
            0 <= i < j < drop_where(s, f).len() ==> exists|v: int, w: int|
                0 <= v < w < s.len() && s[v] == #[trigger] drop_where(s, f)[i] && s[w]
                    == #[trigger] drop_where(s, f)[j],
    decreases s.len(),
{
    if s.len() > 0 {
        let t = s.drop_last();
        let d = drop_where(t, f);
        lemma_drop_where_from(t, f);
        assert forall|i: int| 0 <= i < drop_where(s, f).len() implies exists|w: int|
            0 <= w < s.len() && s[w] == #[trigger] drop_where(s, f)[i] && !f(s[w]) by {
            if i < d.len() {
                let w = choose|w: int| 0 <= w < t.len() && t[w] == d[i] && !f(t[w]);
                assert(s[w] == t[w]);
            } else {
                assert(s[s.len() - 1] == drop_where(s, f)[i]);
            }
        }
        assert forall|i: int, j: int| 0 <= i < j < drop_where(s, f).len() implies exists|v: int, w: int|
            0 <= v < w < s.len() && s[v] == #[trigger] drop_where(s, f)[i] && s[w]
                == #[trigger] drop_where(s, f)[j] by {
            if j < d.len() {
                let (v, w) = choose|v: int, w: int| 0 <= v < w < t.len() && t[v] == d[i] && t[w] == d[j];
                assert(s[v] == t[v] && s[w] == t[w]);
            } else {
                let v = choose|v: int| 0 <= v < t.len() && t[v] == d[i] && !f(t[v]);
                assert(s[v] == t[v]);
                assert(s[s.len() - 1] == drop_where(s, f)[j]);
            }
        }
    }
}

/// Dropping elements keeps keys unique.
pub proof fn lemma_unique_drop<A, K>(s: Seq<A>, f: spec_fn(A) -> bool, key: spec_fn(A) -> K)
    requires
        unique_by(s, key),
    ensures
        unique_by(drop_where(s, f), key),
{
    lemma_drop_where_from(s, f);
    let d = drop_where(s, f);
    assert forall|i: int, j: int| 0 <= i < j < d.len() implies key(d[i]) != key(d[j]) by {
        let (v, w) = choose|v: int, w: int| 0 <= v < w < s.len() && s[v] == d[i] && s[w] == d[j];
    }
}

/// Replacing the elements with `x`'s key by `x` keeps keys unique.
pub proof fn lemma_unique_replace<A, K>(s: Seq<A>, x: A, key: spec_fn(A) -> K)
    requires
        unique_by(s, key),
    ensures
        unique_by(drop_where(s, |a: A| key(a) == key(x)).push(x), key),
{
    let f = |a: A| key(a) == key(x);
    lemma_unique_drop(s, f, key);
    lemma_drop_where_from(s, f);
    let d = drop_where(s, f);
    assert forall|i: int, j: int| 0 <= i < j < d.push(x).len() implies key(d.push(x)[i]) != key(
        d.push(x)[j],
    ) by {
        if j == d.len() {
            assert(d.push(x)[i] == d[i]);
            let w = choose|w: int| 0 <= w < s.len() && s[w] == d[i] && !f(s[w]);
        } else {
            assert(d.push(x)[i] == d[i] && d.push(x)[j] == d[j]);
        }
    }
}

/// Appending an element whose key is new keeps keys unique.
pub proof fn lemma_unique_push<A, K>(s: Seq<A>, x: A, key: spec_fn(A) -> K)
    requires
        unique_by(s, key),
        forall|i: int| 0 <= i < s.len() ==> key(#[trigger] s[i]) != key(x),
    ensures
        unique_by(s.push(x), key),
{
    assert forall|i: int, j: int| 0 <= i < j < s.push(x).len() implies key(s.push(x)[i]) != key(
        s.push(x)[j],
    ) by {
        assert(s.push(x)[i] == s[i]);
        if j < s.len() {
            assert(s.push(x)[j] == s[j]);
        }
    }
}

/// The elements of `s` that satisfy `f`, order kept.
pub open spec fn keep_where<A>(s: Seq<A>, f: spec_fn(A) -> bool) -> Seq<A> {
    drop_where(s, |a: A| !f(a))
}

/// Whether `v` holds `a`.
pub fn has_action(v: &Vec<Action>, a: Action) -> (r: bool)
    ensures
        r == v@.contains(a),
{
    let mut i: usize = 0;
    while i < v.len()
        invariant
            0 <= i <= v.len(),
            forall|k: int| 0 <= k < i ==> v@[k] != a,
        decreases v.len() - i,
    {
        if v[i] == a {
            return true;
        }
        i = i + 1;
    }
    false
}

/// Whether `v` holds a string equal to `s`.
pub fn has_str(v: &Vec<String>, s: &str) -> (r: bool)
    ensures
        r == strs(v@).contains(s@),
{
    let mut i: usize = 0;
    while i < v.len()
        invariant
            0 <= i <= v.len(),
            forall|k: int| 0 <= k < i ==> v@[k]@ != s@,
        decreases v.len() - i,
    {
        if crate::text::str_eq(v[i].as_str(), s) {
            assert(strs(v@)[i as int] == s@);
            return true;
        }
        i = i + 1;
    }
    false
}

} // verus!
