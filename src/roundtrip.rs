//! The exported statements of a store read back as that store.
use vstd::prelude::*;
use crate::backend::apply_statement;
use crate::backend::is_remark;
use crate::backend::run_lines;
use crate::backend::split_lines;
use crate::export::action_text;
use crate::export::actions_text;
use crate::export::ddl_text;
use crate::export::export_header;
use crate::export::grant_text;
use crate::export::join;
use crate::export::lines;
use crate::export::principal_text;
use crate::export::quote;
use crate::export::resource_text;
use crate::export::role_text;
use crate::export::tag_text;
use crate::lexer::TokView;
use crate::lexer::filter_text;
use crate::lexer::is_delim;
use crate::lexer::lex;
use crate::lexer::word_len;
use crate::parser::StatementView;
use crate::parser::action_of;
use crate::parser::kw;
use crate::parser::last_word;
use crate::parser::p_resource;
use crate::parser::parse_spec;
use crate::parser::permission_of;
use crate::parser::split_dot;
use crate::state::StateView;
use crate::text::ci_eq;
use crate::text::eq_ci;
use crate::text::expansion;
use crate::text::lemma_eq_ci_keeps;
use crate::text::lemma_eq_ci_len;
use crate::text::lemma_eq_ci_refl;
use crate::text::no_expansion;
use crate::text::find;
use crate::text::find_from;
use crate::text::is_space;
use crate::text::starts_with;
use crate::text::trim;
use crate::text::trim_end;
use crate::text::trim_start;
use crate::types::Action;
use crate::types::LfTagView;
use crate::types::PermissionView;
use crate::types::PrincipalView;
use crate::types::ResourceView;
use crate::types::RoleView;
use crate::types::RowFilterView;

verus! {

/// Text the lexer reads back as one word: non-empty, without delimiters,
/// and not the keyword `WHERE`.
pub open spec fn plain_word(w: Seq<char>) -> bool {
    &&& w.len() > 0
    &&& forall|i: int| 0 <= i < w.len() ==> !is_delim(#[trigger] w[i])
    &&& !eq_ci(w, "WHERE"@)
}

/// Text that can stand between single quotes on one line.
pub open spec fn plain_text(s: Seq<char>) -> bool {
    forall|i: int| 0 <= i < s.len() ==> (#[trigger] s[i]) != '\'' && s[i] != '\n'
}

/// Lexing `s` gives `ts` followed by what lexing `rest` gives.
pub open spec fn lexes_to(s: Seq<char>, ts: Seq<TokView>, rest: Seq<char>) -> bool {
    forall|r: Seq<TokView>| lex(rest) == Some(r) ==> #[trigger] lex(s) == Some(ts + r)
}

proof fn lemma_word_len(w: Seq<char>, rest: Seq<char>)
    requires
        forall|i: int| 0 <= i < w.len() ==> !is_delim(#[trigger] w[i]),
        rest.len() == 0 || is_delim(rest[0]),
    ensures
        word_len(w + rest) == w.len(),
    decreases w.len(),
{
    if w.len() == 0 {
        assert(w + rest =~= rest);
    } else {
        assert((w + rest).drop_first() =~= w.drop_first() + rest);
        assert((w + rest)[0] == w[0]);
        lemma_word_len(w.drop_first(), rest);
    }
}

pub proof fn lemma_lex_word(w: Seq<char>, rest: Seq<char>)
    requires
        plain_word(w),
        rest.len() == 0 || is_delim(rest[0]),
    ensures
        lexes_to(w + rest, seq![TokView::Word(w)], rest),
{
    let s = w + rest;
    lemma_word_len(w, rest);
    assert(s[0] == w[0]);
    assert(!is_delim(w[0]));
    assert(s.subrange(0, w.len() as int) =~= w);
    assert(s.subrange(w.len() as int, s.len() as int) =~= rest);
    assert forall|r: Seq<TokView>| lex(rest) == Some(r) implies #[trigger] lex(s) == Some(
        seq![TokView::Word(w)] + r,
    ) by {}
}

pub proof fn lemma_lex_skip(c: char, rest: Seq<char>)
    requires
        is_space(c),
    ensures
        lex(seq![c] + rest) == lex(rest),
{
    assert((seq![c] + rest).drop_first() =~= rest);
}

pub proof fn lemma_lex_punct(c: char, t: TokView, rest: Seq<char>)
    requires
        (c == ',' && t == TokView::Comma) || (c == '(' && t == TokView::LParen) || (c == ')' && t
            == TokView::RParen) || (c == ';' && t == TokView::Semi),
    ensures
        lexes_to(seq![c] + rest, seq![t], rest),
{
    assert((seq![c] + rest).drop_first() =~= rest);
    assert forall|r: Seq<TokView>| lex(rest) == Some(r) implies #[trigger] lex(seq![c] + rest)
        == Some(seq![t] + r) by {}
}

proof fn lemma_find_first_from(s: Seq<char>, c: char, rest: Seq<char>, k: int)
    requires
        0 <= k <= s.len(),
        forall|i: int| 0 <= i < s.len() ==> (#[trigger] s[i]) != c,
    ensures
        find_from(s + seq![c] + rest, seq![c], k) == Some(s.len() as int),
    decreases s.len() - k,
{
    let t = s + seq![c] + rest;
    let p = seq![c];
    if k == s.len() {
        assert(t.subrange(k, k + 1) =~= p);
    } else {
        assert(t.subrange(k, k + 1)[0] == s[k]);
        lemma_find_first_from(s, c, rest, k + 1);
    }
}

/// In `s + [c] + rest`, where `s` holds no `c`, the first `c` follows `s`.
pub proof fn lemma_find_first(s: Seq<char>, c: char, rest: Seq<char>)
    requires
        forall|i: int| 0 <= i < s.len() ==> (#[trigger] s[i]) != c,
    ensures
        find(s + seq![c] + rest, seq![c]) == Some(s.len() as int),
{
    lemma_find_first_from(s, c, rest, 0);
}

/// A text holds no `c` exactly when `find` finds none.
pub proof fn lemma_find_none(s: Seq<char>, c: char)
    requires
        forall|i: int| 0 <= i < s.len() ==> (#[trigger] s[i]) != c,
    ensures
        find(s, seq![c]) is None,
{
    crate::text::lemma_find_from_bounds(s, seq![c], 0);
    if find(s, seq![c]) is Some {
        let j = find(s, seq![c])->Some_0;
        assert(s.subrange(j, j + 1)[0] == s[j]);
    }
}

pub proof fn lemma_lex_quoted(s: Seq<char>, rest: Seq<char>)
    requires
        plain_text(s),
    ensures
        lexes_to(seq!['\''] + s + seq!['\''] + rest, seq![TokView::Quoted('\'', s)], rest),
{
    let x = seq!['\''] + s + seq!['\''] + rest;
    assert(x.drop_first() =~= s + seq!['\''] + rest);
    lemma_find_first(s, '\'', rest);
    assert(x[0] == '\'');
    assert(seq![x[0]] =~= seq!['\'']);
    assert(x.subrange(1, s.len() + 1 as int) =~= s);
    assert(x.subrange(s.len() + 2 as int, x.len() as int) =~= rest);
    assert forall|r: Seq<TokView>| lex(rest) == Some(r) implies #[trigger] lex(x) == Some(
        seq![TokView::Quoted('\'', s)] + r,
    ) by {}
}

/// Lexing composes: what `a` lexes to before `b`, then what `b` lexes to.
pub proof fn lemma_lexes_chain(
    a: Seq<char>,
    ta: Seq<TokView>,
    b: Seq<char>,
    tb: Seq<TokView>,
    rest: Seq<char>,
)
    requires
        lexes_to(a, ta, b),
        lexes_to(b, tb, rest),
    ensures
        lexes_to(a, ta + tb, rest),
{
    assert forall|r: Seq<TokView>| lex(rest) == Some(r) implies #[trigger] lex(a) == Some(
        (ta + tb) + r,
    ) by {
        assert(lex(b) == Some(tb + r));
        assert(ta + (tb + r) =~= (ta + tb) + r);
    }
}

/// `join` seen from the front.
pub proof fn lemma_join_front(s: Seq<Seq<char>>, sep: Seq<char>)
    requires
        s.len() >= 2,
    ensures
        join(s, sep) == s[0] + sep + join(s.drop_first(), sep),
    decreases s.len(),
{
    if s.len() == 2 {
        assert(s.drop_last() =~= seq![s[0]]);
        assert(s.drop_first() =~= seq![s[1]]);
        assert(join(s.drop_last(), sep) == s[0]);
        assert(join(s.drop_first(), sep) == s[1]);
    } else {
        lemma_join_front(s.drop_last(), sep);
        assert(s.drop_last().drop_first() =~= s.drop_first().drop_last());
        assert(s.drop_first().last() == s.last());
        assert(join(s.drop_first(), sep) == join(s.drop_first().drop_last(), sep) + sep + s.last());
        assert(s.drop_last()[0] == s[0]);
        let a = join(s.drop_first().drop_last(), sep);
        assert(join(s, sep) == (s[0] + sep + a) + sep + s.last());
        assert((s[0] + sep + a) + sep + s.last() =~= s[0] + sep + (a + sep + s.last()));
    }
}

/// An ASCII word matches itself and, as a keyword, only words of its length.
spec fn ascii_char(c: char) -> bool {
    (c as u32) < 128
}

proof fn lemma_ascii(k: Seq<char>)
    requires
        forall|i: int| 0 <= i < k.len() ==> ascii_char(#[trigger] k[i]),
    ensures
        no_expansion(k),
        eq_ci(k, k),
        forall|b: Seq<char>| #[trigger] eq_ci(k, b) ==> b.len() == k.len(),
{
    assert forall|i: int| 0 <= i < k.len() implies expansion(#[trigger] k[i]) is None by {
        assert(ascii_char(k[i]));
    }
    lemma_eq_ci_refl(k);
    assert forall|b: Seq<char>| #[trigger] eq_ci(k, b) implies b.len() == k.len() by {
        lemma_eq_ci_len(k, b);
    }
}

/// The statement keywords read back as themselves and differ where the
/// grammar tells them apart.
pub proof fn lemma_keywords()
    ensures
        plain_word("CREATE"@),
        plain_word("ROLE"@),
        plain_word("TAG"@),
        plain_word("VALUES"@),
        plain_word("GRANT"@),
        plain_word("ON"@),
        plain_word("TO"@),
        plain_word("WITH"@),
        plain_word("OPTION"@),
        plain_word("DATABASE"@),
        plain_word("USER"@),
        plain_word("GROUP"@),
        plain_word("EXTERNAL_ACCOUNT"@),
        !eq_ci("CREATE"@, "GRANT"@),
        !eq_ci("CREATE"@, "REVOKE"@),
        !eq_ci("TAG"@, "ROLE"@),
        !eq_ci("USER"@, "ROLE"@),
        !eq_ci("GROUP"@, "ROLE"@),
        !eq_ci("GROUP"@, "USER"@),
        !eq_ci("EXTERNAL_ACCOUNT"@, "ROLE"@),
        !eq_ci("EXTERNAL_ACCOUNT"@, "USER"@),
        !eq_ci("EXTERNAL_ACCOUNT"@, "GROUP"@),
        !eq_ci("WHERE"@, "WITH"@),
        eq_ci("WHERE"@, "WHERE"@),
        eq_ci("CREATE"@, "CREATE"@),
        eq_ci("ROLE"@, "ROLE"@),
        eq_ci("TAG"@, "TAG"@),
        eq_ci("VALUES"@, "VALUES"@),
        eq_ci("GRANT"@, "GRANT"@),
        eq_ci("ON"@, "ON"@),
        eq_ci("TO"@, "TO"@),
        eq_ci("WITH"@, "WITH"@),
        eq_ci("OPTION"@, "OPTION"@),
        eq_ci("DATABASE"@, "DATABASE"@),
        eq_ci("USER"@, "USER"@),
        eq_ci("GROUP"@, "GROUP"@),
        eq_ci("EXTERNAL_ACCOUNT"@, "EXTERNAL_ACCOUNT"@),
        "WHERE"@.len() == 5,
        forall|i: int| 0 <= i < 5 ==> !is_delim(#[trigger] "WHERE"@[i]),
        " "@ == seq![' '],
        ";"@ == seq![';'],
        ", "@ == seq![','] + seq![' '],
        "("@ == seq!['('],
        ")"@ == seq![')'],
        "'"@ == seq!['\''],
        "."@ == seq!['.'],
{
    reveal_strlit("CREATE");
    reveal_strlit("ROLE");
    reveal_strlit("TAG");
    reveal_strlit("VALUES");
    reveal_strlit("GRANT");
    reveal_strlit("REVOKE");
    reveal_strlit("ON");
    reveal_strlit("TO");
    reveal_strlit("WITH");
    reveal_strlit("OPTION");
    reveal_strlit("DATABASE");
    reveal_strlit("USER");
    reveal_strlit("GROUP");
    reveal_strlit("EXTERNAL_ACCOUNT");
    reveal_strlit("WHERE");
    reveal_strlit(" ");
    reveal_strlit(";");
    reveal_strlit(", ");
    reveal_strlit("(");
    reveal_strlit(")");
    reveal_strlit("'");
    reveal_strlit(".");
    lemma_ascii("CREATE"@);
    lemma_ascii("ROLE"@);
    lemma_ascii("TAG"@);
    lemma_ascii("VALUES"@);
    lemma_ascii("GRANT"@);
    lemma_ascii("ON"@);
    lemma_ascii("TO"@);
    lemma_ascii("WITH"@);
    lemma_ascii("OPTION"@);
    lemma_ascii("DATABASE"@);
    lemma_ascii("USER"@);
    lemma_ascii("GROUP"@);
    lemma_ascii("EXTERNAL_ACCOUNT"@);
    lemma_ascii("WHERE"@);
    assert(!ci_eq("GRANT"@[0], "WHERE"@[0]));
    assert(!ci_eq("GROUP"@[0], "WHERE"@[0]));
    assert(!ci_eq("CREATE"@[0], "REVOKE"@[0]));
    assert(!ci_eq("USER"@[0], "ROLE"@[0]));
    assert(", "@ =~= seq![','] + seq![' ']);
}

/// Each action keyword reads back as its action.
pub proof fn lemma_action_word(a: Action)
    ensures
        plain_word(action_text(a)),
        action_of(action_text(a)) == Some(a),
{
    reveal_strlit("SELECT");
    reveal_strlit("INSERT");
    reveal_strlit("UPDATE");
    reveal_strlit("DELETE");
    reveal_strlit("CREATE_TABLE");
    reveal_strlit("DROP_TABLE");
    reveal_strlit("ALTER_TABLE");
    reveal_strlit("DESCRIBE");
    reveal_strlit("DATA_LOCATION_ACCESS");
    reveal_strlit("GRANT_WITH_GRANT_OPTION");
    reveal_strlit("WHERE");
    lemma_ascii("SELECT"@);
    lemma_ascii("INSERT"@);
    lemma_ascii("UPDATE"@);
    lemma_ascii("DELETE"@);
    lemma_ascii("CREATE_TABLE"@);
    lemma_ascii("DROP_TABLE"@);
    lemma_ascii("ALTER_TABLE"@);
    lemma_ascii("DESCRIBE"@);
    lemma_ascii("DATA_LOCATION_ACCESS"@);
    lemma_ascii("GRANT_WITH_GRANT_OPTION"@);
    assert(!ci_eq("INSERT"@[0], "SELECT"@[0]));
    assert(!ci_eq("UPDATE"@[0], "SELECT"@[0]));
    assert(!ci_eq("UPDATE"@[0], "INSERT"@[0]));
    assert(!ci_eq("DELETE"@[0], "SELECT"@[0]));
    assert(!ci_eq("DELETE"@[0], "INSERT"@[0]));
    assert(!ci_eq("DELETE"@[0], "UPDATE"@[0]));
}

/// A word followed by one space.
pub proof fn lemma_lex_word_space(w: Seq<char>, rest: Seq<char>)
    requires
        plain_word(w),
    ensures
        lexes_to(w + seq![' '] + rest, seq![TokView::Word(w)], rest),
{
    assert(w + seq![' '] + rest =~= w + (seq![' '] + rest));
    lemma_lex_word(w, seq![' '] + rest);
    lemma_lex_skip(' ', rest);
    assert forall|r: Seq<TokView>| lex(rest) == Some(r) implies #[trigger] lex(w + seq![' '] + rest)
        == Some(seq![TokView::Word(w)] + r) by {
        assert(lex(seq![' '] + rest) == Some(r));
    }
}

/// `CREATE ROLE <name>;` reads back as the statement that creates the role.
pub proof fn lemma_role_statement(name: Seq<char>)
    requires
        plain_word(name),
    ensures
        parse_spec(role_text(RoleView { name, members: Seq::empty() })) == Some(
            StatementView::CreateRole { name },
        ),
        forall|members: Seq<Seq<char>>| #[trigger] role_text(RoleView { name, members }) == role_text(
            RoleView { name, members: Seq::empty() },
        ),
{
    lemma_keywords();
    reveal_strlit("CREATE ROLE ");
    reveal_strlit("CREATE");
    reveal_strlit("ROLE");
    assert("CREATE ROLE "@ =~= "CREATE"@ + seq![' '] + "ROLE"@ + seq![' ']);
    let text = role_text(RoleView { name, members: Seq::empty() });
    let e = Seq::<char>::empty();
    assert(text =~= "CREATE"@ + seq![' '] + ("ROLE"@ + seq![' '] + (name + (seq![';'] + e))));
    lemma_lex_punct(';', TokView::Semi, e);
    lemma_lex_word(name, seq![';'] + e);
    lemma_lexes_chain(name + (seq![';'] + e), seq![TokView::Word(name)], seq![';'] + e, seq![TokView::Semi], e);
    lemma_lex_word_space("ROLE"@, name + (seq![';'] + e));
    lemma_lexes_chain(
        "ROLE"@ + seq![' '] + (name + (seq![';'] + e)),
        seq![TokView::Word("ROLE"@)],
        name + (seq![';'] + e),
        seq![TokView::Word(name)] + seq![TokView::Semi],
        e,
    );
    lemma_lex_word_space("CREATE"@, "ROLE"@ + seq![' '] + (name + (seq![';'] + e)));
    lemma_lexes_chain(
        text,
        seq![TokView::Word("CREATE"@)],
        "ROLE"@ + seq![' '] + (name + (seq![';'] + e)),
        seq![TokView::Word("ROLE"@)] + (seq![TokView::Word(name)] + seq![TokView::Semi]),
        e,
    );
    assert(lex(e) == Some(Seq::<TokView>::empty()));
    let t = seq![TokView::Word("CREATE"@), TokView::Word("ROLE"@), TokView::Word(name), TokView::Semi];
    assert(seq![TokView::Word("CREATE"@)] + (seq![TokView::Word("ROLE"@)] + (seq![TokView::Word(name)]
        + seq![TokView::Semi])) + Seq::<TokView>::empty() =~= t);
    assert(lex(text) == Some(t));
    assert(kw(t, 0, "CREATE"@));
    assert(kw(t, 1, "ROLE"@));
    assert(last_word(t, 2) == Some(name));
}

/// The tokens of a comma-separated list of `items`.
pub open spec fn list_toks(items: Seq<TokView>) -> Seq<TokView>
    decreases items.len(),
{
    if items.len() <= 1 {
        items
    } else {
        seq![items[0], TokView::Comma] + list_toks(items.drop_first())
    }
}

pub open spec fn quoted_toks(vs: Seq<Seq<char>>) -> Seq<TokView> {
    list_toks(vs.map_values(|v: Seq<char>| TokView::Quoted('\'', v)))
}

pub open spec fn word_toks(ws: Seq<Seq<char>>) -> Seq<TokView> {
    list_toks(ws.map_values(|w: Seq<char>| TokView::Word(w)))
}

proof fn lemma_list_toks_len(items: Seq<TokView>)
    ensures
        items.len() >= 1 ==> list_toks(items).len() == 2 * items.len() - 1,
        items.len() == 0 ==> list_toks(items).len() == 0,
    decreases items.len(),
{
    if items.len() > 1 {
        lemma_list_toks_len(items.drop_first());
    }
}

/// A comma-separated list of quoted texts lexes to their tokens.
pub proof fn lemma_lex_quoted_list(vs: Seq<Seq<char>>, rest: Seq<char>)
    requires
        vs.len() >= 1,
        forall|i: int| 0 <= i < vs.len() ==> plain_text(#[trigger] vs[i]),
    ensures
        lexes_to(join(vs.map_values(|v: Seq<char>| quote(v)), ", "@) + rest, quoted_toks(vs), rest),
    decreases vs.len(),
{
    lemma_keywords();
    let qs = vs.map_values(|v: Seq<char>| quote(v));
    let items = vs.map_values(|v: Seq<char>| TokView::Quoted('\'', v));
    assert(plain_text(vs[0]));
    assert(quote(vs[0]) =~= seq!['\''] + vs[0] + seq!['\'']);
    if vs.len() == 1 {
        assert(join(qs, ", "@) == qs[0]);
        assert(quote(vs[0]) + rest =~= seq!['\''] + vs[0] + seq!['\''] + rest);
        lemma_lex_quoted(vs[0], rest);
        assert(quoted_toks(vs) =~= seq![TokView::Quoted('\'', vs[0])]);
    } else {
        lemma_join_front(qs, ", "@);
        assert(qs.drop_first() =~= vs.drop_first().map_values(|v: Seq<char>| quote(v)));
        assert(items.drop_first() =~= vs.drop_first().map_values(|v: Seq<char>| TokView::Quoted('\'', v)));
        let tail = join(vs.drop_first().map_values(|v: Seq<char>| quote(v)), ", "@) + rest;
        lemma_lex_quoted_list(vs.drop_first(), rest);
        lemma_lex_skip(' ', tail);
        lemma_lex_punct(',', TokView::Comma, seq![' '] + tail);
        assert forall|r: Seq<TokView>| lex(tail) == Some(r) implies #[trigger] lex(seq![','] + (seq![' '] + tail))
            == Some(seq![TokView::Comma] + r) by {
            assert(lex(seq![' '] + tail) == Some(r));
        }
        lemma_lex_quoted(vs[0], seq![','] + (seq![' '] + tail));
        let whole = join(qs, ", "@) + rest;
        assert(whole =~= seq!['\''] + vs[0] + seq!['\''] + (seq![','] + (seq![' '] + tail)));
        lemma_lexes_chain(
            whole,
            seq![TokView::Quoted('\'', vs[0])],
            seq![','] + (seq![' '] + tail),
            seq![TokView::Comma],
            tail,
        );
        lemma_lexes_chain(
            whole,
            seq![TokView::Quoted('\'', vs[0])] + seq![TokView::Comma],
            tail,
            quoted_toks(vs.drop_first()),
            rest,
        );
        assert(seq![TokView::Quoted('\'', vs[0])] + seq![TokView::Comma] + quoted_toks(vs.drop_first())
            =~= quoted_toks(vs));
    }
}

/// A comma-separated list of words lexes to their tokens.
pub proof fn lemma_lex_word_list(ws: Seq<Seq<char>>, rest: Seq<char>)
    requires
        ws.len() >= 1,
        forall|i: int| 0 <= i < ws.len() ==> plain_word(#[trigger] ws[i]),
        rest.len() == 0 || is_delim(rest[0]),
    ensures
        lexes_to(join(ws, ", "@) + rest, word_toks(ws), rest),
    decreases ws.len(),
{
    lemma_keywords();
    let items = ws.map_values(|w: Seq<char>| TokView::Word(w));
    assert(plain_word(ws[0]));
    if ws.len() == 1 {
        assert(join(ws, ", "@) == ws[0]);
        lemma_lex_word(ws[0], rest);
        assert(word_toks(ws) =~= seq![TokView::Word(ws[0])]);
    } else {
        lemma_join_front(ws, ", "@);
        assert(items.drop_first() =~= ws.drop_first().map_values(|w: Seq<char>| TokView::Word(w)));
        let tail = join(ws.drop_first(), ", "@) + rest;
        lemma_lex_word_list(ws.drop_first(), rest);
        lemma_lex_skip(' ', tail);
        lemma_lex_punct(',', TokView::Comma, seq![' '] + tail);
        assert forall|r: Seq<TokView>| lex(tail) == Some(r) implies #[trigger] lex(seq![','] + (seq![' '] + tail))
            == Some(seq![TokView::Comma] + r) by {
            assert(lex(seq![' '] + tail) == Some(r));
        }
        let after = seq![','] + (seq![' '] + tail);
        lemma_lex_word(ws[0], after);
        let whole = join(ws, ", "@) + rest;
        assert(whole =~= ws[0] + after);
        lemma_lexes_chain(whole, seq![TokView::Word(ws[0])], after, seq![TokView::Comma], tail);
        lemma_lexes_chain(
            whole,
            seq![TokView::Word(ws[0])] + seq![TokView::Comma],
            tail,
            word_toks(ws.drop_first()),
            rest,
        );
        assert(seq![TokView::Word(ws[0])] + seq![TokView::Comma] + word_toks(ws.drop_first()) =~= word_toks(ws));
    }
}

/// A list of names at token `i`, then no comma, parses to those names.
pub proof fn lemma_p_names(t: Seq<TokView>, i: int, quoted: bool, vs: Seq<Seq<char>>)
    requires
        vs.len() >= 1,
        0 <= i,
        i + 2 * vs.len() - 1 <= t.len(),
        t.subrange(i, i + 2 * vs.len() - 1) == if quoted {
            quoted_toks(vs)
        } else {
            word_toks(vs)
        },
        i + 2 * vs.len() - 1 == t.len() || !(t[i + 2 * vs.len() - 1] is Comma),
    ensures
        crate::parser::p_names(t, i, quoted) == Some((vs, i + 2 * vs.len() - 1)),
    decreases vs.len(),
{
    let items = if quoted {
        vs.map_values(|v: Seq<char>| TokView::Quoted('\'', v))
    } else {
        vs.map_values(|w: Seq<char>| TokView::Word(w))
    };
    assert(t.subrange(i, i + 2 * vs.len() - 1) == list_toks(items));
    assert(t[i] == t.subrange(i, i + 2 * vs.len() - 1)[0]);
    if vs.len() == 1 {
        assert(list_toks(items) == items);
    } else {
        let sub = t.subrange(i, i + 2 * vs.len() - 1);
        assert(sub[1] == TokView::Comma);
        assert(t[i + 1] == sub[1]);
        let items2 = if quoted {
            vs.drop_first().map_values(|v: Seq<char>| TokView::Quoted('\'', v))
        } else {
            vs.drop_first().map_values(|w: Seq<char>| TokView::Word(w))
        };
        assert(items.drop_first() =~= items2);
        assert(t.subrange(i + 2, i + 2 * vs.len() - 1) =~= sub.subrange(2, sub.len() as int));
        assert(sub.subrange(2, sub.len() as int) =~= list_toks(items2));
        lemma_p_names(t, i + 2, quoted, vs.drop_first());
        assert(seq![vs[0]] + vs.drop_first() =~= vs);
    }
}

/// `CREATE TAG <key> VALUES (...);` reads back as the statement that creates the tag.
pub proof fn lemma_tag_statement(key: Seq<char>, vals: Seq<Seq<char>>, description: Option<Seq<char>>)
    requires
        plain_word(key),
        forall|i: int| 0 <= i < vals.len() ==> plain_text(#[trigger] vals[i]),
    ensures
        parse_spec(tag_text(LfTagView { key, values: vals, description })) == Some(
            StatementView::CreateTag { name: key, values: vals },
        ),
{
    lemma_keywords();
    reveal_strlit("CREATE TAG ");
    reveal_strlit(" VALUES (");
    reveal_strlit(");");
    reveal_strlit("CREATE");
    reveal_strlit("TAG");
    reveal_strlit("VALUES");
    assert("CREATE TAG "@ =~= "CREATE"@ + seq![' '] + "TAG"@ + seq![' ']);
    assert(" VALUES ("@ =~= seq![' '] + "VALUES"@ + seq![' '] + seq!['(']);
    assert(");"@ =~= seq![')'] + seq![';']);
    let e = Seq::<char>::empty();
    let j = join(vals.map_values(|v: Seq<char>| quote(v)), ", "@);
    let close = seq![')'] + (seq![';'] + e);
    let text = tag_text(LfTagView { key, values: vals, description });
    let after_paren = j + close;
    let after_values = seq!['('] + after_paren;
    let after_key = "VALUES"@ + seq![' '] + after_values;
    let after_tag = key + seq![' '] + after_key;
    let after_create = "TAG"@ + seq![' '] + after_tag;
    assert(text =~= "CREATE"@ + seq![' '] + after_create);
    lemma_lex_punct(';', TokView::Semi, e);
    lemma_lex_punct(')', TokView::RParen, seq![';'] + e);
    lemma_lexes_chain(close, seq![TokView::RParen], seq![';'] + e, seq![TokView::Semi], e);
    let mid = if vals.len() == 0 {
        Seq::<TokView>::empty()
    } else {
        quoted_toks(vals)
    };
    if vals.len() == 0 {
        assert(j == Seq::<char>::empty());
        assert(after_paren =~= close);
        assert(lexes_to(after_paren, mid, close));
    } else {
        lemma_lex_quoted_list(vals, close);
    }
    lemma_lexes_chain(after_paren, mid, close, seq![TokView::RParen] + seq![TokView::Semi], e);
    lemma_lex_punct('(', TokView::LParen, after_paren);
    lemma_lexes_chain(
        after_values,
        seq![TokView::LParen],
        after_paren,
        mid + (seq![TokView::RParen] + seq![TokView::Semi]),
        e,
    );
    lemma_lex_word_space("VALUES"@, after_values);
    let tv = seq![TokView::LParen] + (mid + (seq![TokView::RParen] + seq![TokView::Semi]));
    lemma_lexes_chain(after_key, seq![TokView::Word("VALUES"@)], after_values, tv, e);
    lemma_lex_word_space(key, after_key);
    let tk = seq![TokView::Word("VALUES"@)] + tv;
    lemma_lexes_chain(after_tag, seq![TokView::Word(key)], after_key, tk, e);
    lemma_lex_word_space("TAG"@, after_tag);
    let tt = seq![TokView::Word(key)] + tk;
    lemma_lexes_chain(after_create, seq![TokView::Word("TAG"@)], after_tag, tt, e);
    lemma_lex_word_space("CREATE"@, after_create);
    let tc = seq![TokView::Word("TAG"@)] + tt;
    lemma_lexes_chain(text, seq![TokView::Word("CREATE"@)], after_create, tc, e);
    assert(lex(e) == Some(Seq::<TokView>::empty()));
    let t = seq![
        TokView::Word("CREATE"@),
        TokView::Word("TAG"@),
        TokView::Word(key),
        TokView::Word("VALUES"@),
        TokView::LParen,
    ] + mid + seq![TokView::RParen, TokView::Semi];
    assert(seq![TokView::Word("CREATE"@)] + tc + Seq::<TokView>::empty() =~= t);
    assert(lex(text) == Some(t));
    assert(kw(t, 0, "CREATE"@));
    assert(!kw(t, 0, "GRANT"@));
    assert(!kw(t, 0, "REVOKE"@));
    assert(!kw(t, 1, "ROLE"@));
    assert(kw(t, 1, "TAG"@));
    assert(kw(t, 3, "VALUES"@));
    assert(t[2] == TokView::Word(key));
    assert(t[4] == TokView::LParen);
    if vals.len() == 0 {
        assert(t[5] == TokView::RParen);
        assert(crate::parser::at_end(t, 6));
        assert(vals =~= Seq::<Seq<char>>::empty());
    } else {
        let items = vals.map_values(|v: Seq<char>| TokView::Quoted('\'', v));
        if items.len() > 1 {
            assert(list_toks(items)[0] == items[0]);
        }
        assert(mid[0] == TokView::Quoted('\'', vals[0]));
        lemma_list_toks_len(vals.map_values(|v: Seq<char>| TokView::Quoted('\'', v)));
        let n = 2 * vals.len() - 1;
        assert(mid.len() == n);
        assert(t.subrange(5, 5 + n) =~= mid);
        assert(t[5 + n] == TokView::RParen);
        lemma_p_names(t, 5, true, vals);
        assert(t[5] == mid[0]);
        assert(crate::parser::at_end(t, 5 + n + 1));
    }
}

/// A name without dots that reads back as one word.
pub open spec fn plain_name(w: Seq<char>) -> bool {
    plain_word(w) && forall|i: int| 0 <= i < w.len() ==> (#[trigger] w[i]) != '.'
}

/// A resource whose text reads back as itself.
pub open spec fn plain_resource(r: ResourceView) -> bool {
    match r {
        ResourceView::Database { name } => plain_word(name),
        ResourceView::Table { database, table, columns } => plain_name(database) && plain_name(table)
            && match columns {
            Some(cs) => cs.len() >= 1 && forall|i: int| 0 <= i < cs.len() ==> plain_word(#[trigger] cs[i]),
            None => true,
        },
        ResourceView::DataLocation { path } => plain_text(path),
        ResourceView::TaggedResource { .. } => false,
    }
}

/// A principal whose text reads back as itself.
pub open spec fn plain_principal(p: PrincipalView) -> bool {
    match p {
        PrincipalView::Role(n) => plain_word(n),
        PrincipalView::User(n) => plain_text(n),
        PrincipalView::SamlGroup(n) => plain_text(n),
        PrincipalView::ExternalAccount(n) => plain_text(n),
        PrincipalView::TaggedPrincipal { .. } => false,
    }
}

pub open spec fn resource_toks(r: ResourceView) -> Seq<TokView> {
    match r {
        ResourceView::Database { name } => seq![TokView::Word("DATABASE"@), TokView::Word(name)],
        ResourceView::Table { database, table, columns } => match columns {
            Some(cs) => seq![TokView::Word(database + "."@ + table), TokView::LParen] + word_toks(cs) + seq![
                TokView::RParen,
            ],
            None => seq![TokView::Word(database + "."@ + table)],
        },
        ResourceView::DataLocation { path } => seq![TokView::Quoted('\'', path)],
        ResourceView::TaggedResource { .. } => Seq::empty(),
    }
}

pub open spec fn principal_toks(p: PrincipalView) -> Seq<TokView> {
    match p {
        PrincipalView::Role(n) => seq![TokView::Word("ROLE"@), TokView::Word(n)],
        PrincipalView::User(n) => seq![TokView::Word("USER"@), TokView::Quoted('\'', n)],
        PrincipalView::SamlGroup(n) => seq![TokView::Word("GROUP"@), TokView::Quoted('\'', n)],
        PrincipalView::ExternalAccount(n) => seq![
            TokView::Word("EXTERNAL_ACCOUNT"@),
            TokView::Quoted('\'', n),
        ],
        PrincipalView::TaggedPrincipal { .. } => Seq::empty(),
    }
}

proof fn lemma_dotted(d: Seq<char>, t: Seq<char>)
    requires
        plain_name(d),
        plain_name(t),
    ensures
        plain_word(d + "."@ + t),
        !eq_ci(d + "."@ + t, "DATABASE"@),
        split_dot(d + "."@ + t) == Some((d, t)),
{
    lemma_keywords();
    reveal_strlit("WHERE");
    reveal_strlit("DATABASE");
    let w = d + "."@ + t;
    assert(w =~= d + seq!['.'] + t);
    assert(w[d.len() as int] == '.');
    assert forall|i: int| 0 <= i < w.len() implies !is_delim(#[trigger] w[i]) by {
        if i < d.len() {
            assert(w[i] == d[i]);
        } else if i > d.len() {
            assert(w[i] == t[i - d.len() - 1]);
        }
    }
    if eq_ci(w, "WHERE"@) {
        lemma_eq_ci_keeps(w, "WHERE"@, d.len() as int);
        let j = choose|j: int| 0 <= j < "WHERE"@.len() && "WHERE"@[j] == '.';
    }
    if eq_ci(w, "DATABASE"@) {
        lemma_eq_ci_keeps(w, "DATABASE"@, d.len() as int);
        let j = choose|j: int| 0 <= j < "DATABASE"@.len() && "DATABASE"@[j] == '.';
    }
    lemma_find_first(d, '.', t);
    assert(w.subrange(0, d.len() as int) =~= d);
    assert(w.subrange(d.len() + 1 as int, w.len() as int) =~= t);
    lemma_find_none(t, '.');
}

pub proof fn lemma_lex_resource(r: ResourceView, rest: Seq<char>)
    requires
        plain_resource(r),
        rest.len() > 0 && is_delim(rest[0]),
    ensures
        lexes_to(resource_text(r) + rest, resource_toks(r), rest),
{
    lemma_keywords();
    match r {
        ResourceView::Database { name } => {
            reveal_strlit("DATABASE ");
            reveal_strlit("DATABASE");
            assert("DATABASE "@ =~= "DATABASE"@ + seq![' ']);
            assert(resource_text(r) + rest =~= "DATABASE"@ + seq![' '] + (name + rest));
            lemma_lex_word(name, rest);
            lemma_lex_word_space("DATABASE"@, name + rest);
            lemma_lexes_chain(
                resource_text(r) + rest,
                seq![TokView::Word("DATABASE"@)],
                name + rest,
                seq![TokView::Word(name)],
                rest,
            );
            assert(seq![TokView::Word("DATABASE"@)] + seq![TokView::Word(name)] =~= resource_toks(r));
        },
        ResourceView::Table { database, table, columns } => {
            lemma_dotted(database, table);
            let w = database + "."@ + table;
            match columns {
                Some(cs) => {
                    let close = seq![')'] + rest;
                    let inner = join(cs, ", "@) + close;
                    assert(resource_text(r) + rest =~= w + (seq!['('] + inner));
                    lemma_lex_punct(')', TokView::RParen, rest);
                    lemma_lex_word_list(cs, close);
                    lemma_lexes_chain(inner, word_toks(cs), close, seq![TokView::RParen], rest);
                    lemma_lex_punct('(', TokView::LParen, inner);
                    lemma_lexes_chain(
                        seq!['('] + inner,
                        seq![TokView::LParen],
                        inner,
                        word_toks(cs) + seq![TokView::RParen],
                        rest,
                    );
                    lemma_lex_word(w, seq!['('] + inner);
                    lemma_lexes_chain(
                        resource_text(r) + rest,
                        seq![TokView::Word(w)],
                        seq!['('] + inner,
                        seq![TokView::LParen] + (word_toks(cs) + seq![TokView::RParen]),
                        rest,
                    );
                    assert(seq![TokView::Word(w)] + (seq![TokView::LParen] + (word_toks(cs) + seq![
                        TokView::RParen,
                    ])) =~= resource_toks(r));
                },
                None => {
                    lemma_lex_word(w, rest);
                },
            }
        },
        ResourceView::DataLocation { path } => {
            assert(resource_text(r) + rest =~= seq!['\''] + path + seq!['\''] + rest);
            lemma_lex_quoted(path, rest);
        },
        ResourceView::TaggedResource { .. } => {},
    }
}

pub proof fn lemma_lex_principal(p: PrincipalView, rest: Seq<char>)
    requires
        plain_principal(p),
        rest.len() > 0 && is_delim(rest[0]),
    ensures
        lexes_to(principal_text(p) + rest, principal_toks(p), rest),
{
    lemma_keywords();
    reveal_strlit("ROLE ");
    reveal_strlit("USER ");
    reveal_strlit("GROUP ");
    reveal_strlit("EXTERNAL_ACCOUNT ");
    reveal_strlit("ROLE");
    reveal_strlit("USER");
    reveal_strlit("GROUP");
    reveal_strlit("EXTERNAL_ACCOUNT");
    match p {
        PrincipalView::Role(n) => {
            assert(principal_text(p) + rest =~= "ROLE"@ + seq![' '] + (n + rest));
            lemma_lex_word(n, rest);
            lemma_lex_word_space("ROLE"@, n + rest);
            lemma_lexes_chain(principal_text(p) + rest, seq![TokView::Word("ROLE"@)], n + rest, seq![TokView::Word(n)], rest);
            assert(seq![TokView::Word("ROLE"@)] + seq![TokView::Word(n)] =~= principal_toks(p));
        },
        PrincipalView::TaggedPrincipal { .. } => {},
        _ => {
            let (k, n) = match p {
                PrincipalView::User(n) => ("USER"@, n),
                PrincipalView::SamlGroup(n) => ("GROUP"@, n),
                PrincipalView::ExternalAccount(n) => ("EXTERNAL_ACCOUNT"@, n),
                _ => ("ROLE"@, Seq::<char>::empty()),
            };
            let q = seq!['\''] + n + seq!['\''] + rest;
            assert(principal_text(p) + rest =~= k + seq![' '] + q);
            lemma_lex_quoted(n, rest);
            lemma_lex_word_space(k, q);
            lemma_lexes_chain(principal_text(p) + rest, seq![TokView::Word(k)], q, seq![TokView::Quoted('\'', n)], rest);
            assert(seq![TokView::Word(k)] + seq![TokView::Quoted('\'', n)] =~= principal_toks(p));
        },
    }
}

/// A list of action keywords at token `i`, then no comma, parses to those actions.
pub proof fn lemma_p_actions(t: Seq<TokView>, i: int, acts: Seq<Action>)
    requires
        acts.len() >= 1,
        0 <= i,
        i + 2 * acts.len() - 1 <= t.len(),
        t.subrange(i, i + 2 * acts.len() - 1) == word_toks(acts.map_values(|a: Action| action_text(a))),
        i + 2 * acts.len() - 1 == t.len() || !(t[i + 2 * acts.len() - 1] is Comma),
    ensures
        crate::parser::p_actions(t, i) == Some((acts, i + 2 * acts.len() - 1)),
    decreases acts.len(),
{
    let ws = acts.map_values(|a: Action| action_text(a));
    let items = ws.map_values(|w: Seq<char>| TokView::Word(w));
    let sub = t.subrange(i, i + 2 * acts.len() - 1);
    assert(sub == list_toks(items));
    assert(t[i] == sub[0]);
    lemma_action_word(acts[0]);
    if acts.len() == 1 {
        assert(list_toks(items) == items);
    } else {
        assert(sub[0] == items[0]);
        assert(sub[1] == TokView::Comma);
        assert(t[i + 1] == sub[1]);
        let ws2 = acts.drop_first().map_values(|a: Action| action_text(a));
        assert(ws.drop_first() =~= ws2);
        assert(items.drop_first() =~= ws2.map_values(|w: Seq<char>| TokView::Word(w)));
        assert(t.subrange(i + 2, i + 2 * acts.len() - 1) =~= sub.subrange(2, sub.len() as int));
        assert(sub.subrange(2, sub.len() as int) =~= list_toks(items.drop_first()));
        lemma_p_actions(t, i + 2, acts.drop_first());
        assert(seq![acts[0]] + acts.drop_first() =~= acts);
    }
}

pub proof fn lemma_p_resource(t: Seq<TokView>, i: int, r: ResourceView)
    requires
        plain_resource(r),
        0 <= i,
        i + resource_toks(r).len() < t.len(),
        t.subrange(i, i + resource_toks(r).len()) == resource_toks(r),
        t[i + resource_toks(r).len()] is Word,
    ensures
        p_resource(t, i) == Some((r, i + resource_toks(r).len())),
{
    lemma_keywords();
    let n = resource_toks(r).len();
    let sub = t.subrange(i, i + n);
    assert(t[i] == sub[0]);
    match r {
        ResourceView::Database { name } => {
            assert(t[i + 1] == sub[1]);
        },
        ResourceView::Table { database, table, columns } => {
            lemma_dotted(database, table);
            let w = database + "."@ + table;
            assert(t[i] == TokView::Word(w));
            match columns {
                Some(cs) => {
                    assert(t[i + 1] == sub[1]);
                    lemma_list_toks_len(cs.map_values(|c: Seq<char>| TokView::Word(c)));
                    let m = 2 * cs.len() - 1;
                    assert(t.subrange(i + 2, i + 2 + m) =~= sub.subrange(2, 2 + m));
                    assert(sub.subrange(2, 2 + m) =~= word_toks(cs));
                    assert(t[i + 2 + m] == sub[2 + m]);
                    lemma_p_names(t, i + 2, false, cs);
                },
                None => {},
            }
        },
        ResourceView::DataLocation { path } => {},
        ResourceView::TaggedResource { .. } => {},
    }
}

pub proof fn lemma_p_principal(t: Seq<TokView>, i: int, p: PrincipalView)
    requires
        plain_principal(p),
        0 <= i,
        i + 2 <= t.len(),
        t.subrange(i, i + 2) == principal_toks(p),
    ensures
        crate::parser::p_principal(t, i) == Some((p, i + 2)),
{
    lemma_keywords();
    let sub = t.subrange(i, i + 2);
    assert(t[i] == sub[0]);
    assert(t[i + 1] == sub[1]);
}

/// A filter text the `WHERE` clause reads back unchanged.
pub open spec fn plain_filter(e: Seq<char>) -> bool {
    &&& e.len() > 0
    &&& !is_space(e[0])
    &&& !is_space(e.last())
    &&& forall|i: int| 0 <= i < e.len() ==> (#[trigger] e[i]) != '\n'
}

/// A permission whose GRANT statement reads back as itself.
pub open spec fn plain_permission(p: PermissionView) -> bool {
    &&& plain_principal(p.principal)
    &&& plain_resource(p.resource)
    &&& p.actions.len() >= 1
    &&& match p.row_filter {
        Some(f) => plain_filter(f.expression),
        None => true,
    }
}

pub proof fn lemma_lex_kw_spaced(k: Seq<char>, rest: Seq<char>)
    requires
        plain_word(k),
    ensures
        lexes_to(seq![' '] + k + seq![' '] + rest, seq![TokView::Word(k)], rest),
{
    lemma_lex_skip(' ', k + seq![' '] + rest);
    assert(seq![' '] + k + seq![' '] + rest =~= seq![' '] + (k + seq![' '] + rest));
    lemma_lex_word_space(k, rest);
}

proof fn lemma_trim_filter(e: Seq<char>)
    requires
        plain_filter(e),
    ensures
        filter_text(seq![' '] + e + seq![';']) == e,
{
    let x = seq![' '] + e + seq![';'];
    assert(x.drop_first() =~= e + seq![';']);
    assert((e + seq![';'])[0] == e[0]);
    assert(trim_start(x) == trim_start(e + seq![';']));
    assert(trim_start(e + seq![';']) == e + seq![';']);
    assert((e + seq![';']).last() == ';');
    assert(trim_end(e + seq![';']) == e + seq![';']);
    assert((e + seq![';']).drop_last() =~= e);
    assert(trim_start(e) == e);
    assert(trim_end(e) == e);
}

/// The part of a GRANT after its principal: an optional `WITH GRANT OPTION`,
/// an optional `WHERE` clause, and the final `;`.
pub open spec fn grant_tail_text(p: PermissionView) -> Seq<char> {
    (if p.grant_option {
        " WITH GRANT OPTION"@
    } else {
        Seq::empty()
    }) + match p.row_filter {
        Some(f) => " WHERE "@ + f.expression,
        None => Seq::empty(),
    } + ";"@
}

pub open spec fn grant_tail_toks(p: PermissionView) -> Seq<TokView> {
    (if p.grant_option {
        seq![TokView::Word("WITH"@), TokView::Word("GRANT"@), TokView::Word("OPTION"@)]
    } else {
        Seq::empty()
    }) + match p.row_filter {
        Some(f) => seq![TokView::Word("WHERE"@), TokView::Rest(f.expression)],
        None => seq![TokView::Semi],
    }
}

proof fn lemma_lex_grant_tail(p: PermissionView)
    requires
        plain_permission(p),
    ensures
        lex(grant_tail_text(p)) == Some(grant_tail_toks(p)),
        grant_tail_text(p).len() > 0 && is_delim(grant_tail_text(p)[0]),
{
    lemma_keywords();
    reveal_strlit(" WITH GRANT OPTION");
    reveal_strlit(" WHERE ");
    reveal_strlit("WITH");
    reveal_strlit("GRANT");
    reveal_strlit("OPTION");
    reveal_strlit("WHERE");
    let e0 = Seq::<char>::empty();
    let ftext = match p.row_filter {
        Some(f) => " WHERE "@ + f.expression,
        None => Seq::<char>::empty(),
    } + ";"@;
    let ftoks = match p.row_filter {
        Some(f) => seq![TokView::Word("WHERE"@), TokView::Rest(f.expression)],
        None => seq![TokView::Semi],
    };
    match p.row_filter {
        Some(f) => {
            let e = f.expression;
            let rest = seq![' '] + e + seq![';'];
            assert(ftext =~= seq![' '] + ("WHERE"@ + rest));
            lemma_lex_skip(' ', "WHERE"@ + rest);
            let s = "WHERE"@ + rest;
            lemma_word_len("WHERE"@, rest);
            assert(s.subrange(0, 5) =~= "WHERE"@);
            assert(s.subrange(5, s.len() as int) =~= rest);
            assert(s[0] == 'W');
            lemma_trim_filter(e);
            assert(lex(s) == Some(seq![TokView::Word("WHERE"@), TokView::Rest(e)]));
        },
        None => {
            assert(ftext =~= seq![';'] + e0);
            lemma_lex_punct(';', TokView::Semi, e0);
            assert(lex(e0) == Some(Seq::<TokView>::empty()));
            assert(seq![TokView::Semi] + Seq::<TokView>::empty() =~= seq![TokView::Semi]);
        },
    }
    assert(lex(ftext) == Some(ftoks));
    assert(ftext[0] == ' ' || ftext[0] == ';');
    if p.grant_option {
        let x = ftext;
        assert(grant_tail_text(p) =~= seq![' '] + "WITH"@ + seq![' '] + ("GRANT"@ + seq![' '] + ("OPTION"@ + x)));
        lemma_lex_word("OPTION"@, x);
        lemma_lex_word_space("GRANT"@, "OPTION"@ + x);
        lemma_lexes_chain("GRANT"@ + seq![' '] + ("OPTION"@ + x), seq![TokView::Word("GRANT"@)], "OPTION"@ + x, seq![TokView::Word("OPTION"@)], x);
        lemma_lex_kw_spaced("WITH"@, "GRANT"@ + seq![' '] + ("OPTION"@ + x));
        lemma_lexes_chain(
            grant_tail_text(p),
            seq![TokView::Word("WITH"@)],
            "GRANT"@ + seq![' '] + ("OPTION"@ + x),
            seq![TokView::Word("GRANT"@)] + seq![TokView::Word("OPTION"@)],
            x,
        );
        assert(seq![TokView::Word("WITH"@)] + (seq![TokView::Word("GRANT"@)] + seq![TokView::Word("OPTION"@)]) + ftoks
            =~= grant_tail_toks(p));
    } else {
        assert(grant_tail_text(p) =~= ftext);
        assert(grant_tail_toks(p) =~= ftoks);
    }
}

pub open spec fn grant_toks(p: PermissionView) -> Seq<TokView> {
    seq![TokView::Word("GRANT"@)] + word_toks(p.actions.map_values(|a: Action| action_text(a))) + seq![
        TokView::Word("ON"@),
    ] + resource_toks(p.resource) + seq![TokView::Word("TO"@)] + principal_toks(p.principal)
        + grant_tail_toks(p)
}

#[verifier::rlimit(40)]
proof fn lemma_lex_grant(p: PermissionView)
    requires
        plain_permission(p),
    ensures
        lex(grant_text(p)) == Some(grant_toks(p)),
{
    lemma_keywords();
    reveal_strlit("GRANT ");
    reveal_strlit(" ON ");
    reveal_strlit(" TO ");
    reveal_strlit("GRANT");
    reveal_strlit("ON");
    reveal_strlit("TO");
    let e0 = Seq::<char>::empty();
    let ws = p.actions.map_values(|a: Action| action_text(a));
    assert forall|i: int| 0 <= i < ws.len() implies plain_word(#[trigger] ws[i]) by {
        lemma_action_word(p.actions[i]);
    }
    let tail = grant_tail_text(p);
    lemma_lex_grant_tail(p);
    let s4 = principal_text(p.principal) + tail;
    lemma_lex_principal(p.principal, tail);
    let s3 = seq![' '] + "TO"@ + seq![' '] + s4;
    lemma_lex_kw_spaced("TO"@, s4);
    let s2 = resource_text(p.resource) + s3;
    lemma_lex_resource(p.resource, s3);
    let s1 = seq![' '] + "ON"@ + seq![' '] + s2;
    lemma_lex_kw_spaced("ON"@, s2);
    let s0 = actions_text(p.actions) + s1;
    lemma_lex_word_list(ws, s1);
    let whole = "GRANT"@ + seq![' '] + s0;
    lemma_lex_word_space("GRANT"@, s0);
    assert(grant_text(p) =~= whole);
    let tt = grant_tail_toks(p);
    assert(lexes_to(tail, tt, e0)) by {
        assert forall|r: Seq<TokView>| lex(e0) == Some(r) implies #[trigger] lex(tail) == Some(tt + r) by {
            assert(r =~= Seq::<TokView>::empty());
            assert(tt + r =~= tt);
        }
    }
    let pt = principal_toks(p.principal);
    lemma_lexes_chain(s4, pt, tail, tt, e0);
    lemma_lexes_chain(s3, seq![TokView::Word("TO"@)], s4, pt + tt, e0);
    let rt = resource_toks(p.resource);
    lemma_lexes_chain(s2, rt, s3, seq![TokView::Word("TO"@)] + (pt + tt), e0);
    lemma_lexes_chain(s1, seq![TokView::Word("ON"@)], s2, rt + (seq![TokView::Word("TO"@)] + (pt + tt)), e0);
    let at = word_toks(ws);
    lemma_lexes_chain(s0, at, s1, seq![TokView::Word("ON"@)] + (rt + (seq![TokView::Word("TO"@)] + (pt + tt))), e0);
    lemma_lexes_chain(
        whole,
        seq![TokView::Word("GRANT"@)],
        s0,
        at + (seq![TokView::Word("ON"@)] + (rt + (seq![TokView::Word("TO"@)] + (pt + tt)))),
        e0,
    );
    assert(lex(e0) == Some(Seq::<TokView>::empty()));
    assert(seq![TokView::Word("GRANT"@)] + (at + (seq![TokView::Word("ON"@)] + (rt + (seq![TokView::Word("TO"@)] + (
    pt + tt))))) + Seq::<TokView>::empty() =~= grant_toks(p));
}

proof fn lemma_grant_target(p: PermissionView)
    requires
        plain_permission(p),
    ensures
        crate::parser::p_target(grant_toks(p), "TO"@) == Some(
            (
                p.actions,
                p.resource,
                p.principal,
                (2 * p.actions.len() + resource_toks(p.resource).len() + 4) as int,
            ),
        ),
{
    lemma_keywords();
    let t = grant_toks(p);
    let ws = p.actions.map_values(|a: Action| action_text(a));
    let items = ws.map_values(|w: Seq<char>| TokView::Word(w));
    lemma_list_toks_len(items);
    let at = word_toks(ws);
    let rt = resource_toks(p.resource);
    let pt = principal_toks(p.principal);
    let a = at.len() as int;
    let r = rt.len() as int;
    assert(pt.len() == 2);
    assert(t.subrange(1, 1 + a) =~= at);
    assert(t[1 + a] == TokView::Word("ON"@));
    lemma_p_actions(t, 1, p.actions);
    assert(t.subrange(2 + a, 2 + a + r) =~= rt);
    assert(t[2 + a + r] == TokView::Word("TO"@));
    lemma_p_resource(t, 2 + a, p.resource);
    assert(t.subrange(3 + a + r, 5 + a + r) =~= pt);
    lemma_p_principal(t, 3 + a + r, p.principal);
    assert(kw(t, 1 + a, "ON"@));
    assert(kw(t, 2 + a + r, "TO"@));
}

proof fn lemma_grant_tail_parse(p: PermissionView)
    requires
        plain_permission(p),
    ensures
        crate::parser::grant_tail(grant_toks(p), (2 * p.actions.len() + resource_toks(p.resource).len() + 4) as int)
            == Some(
            (
                p.grant_option,
                match p.row_filter {
                    Some(f) => Some(f.expression),
                    None => None,
                },
            ),
        ),
{
    lemma_keywords();
    reveal_strlit("WITH");
    reveal_strlit("GRANT");
    reveal_strlit("OPTION");
    let t = grant_toks(p);
    let ws = p.actions.map_values(|a: Action| action_text(a));
    let items = ws.map_values(|w: Seq<char>| TokView::Word(w));
    lemma_list_toks_len(items);
    let tt = grant_tail_toks(p);
    let k = (2 * p.actions.len() + resource_toks(p.resource).len() + 4) as int;
    assert(principal_toks(p.principal).len() == 2);
    assert(t.len() == k + tt.len());
    assert(t.subrange(k, t.len() as int) =~= tt);
    if p.grant_option {
        assert(t[k] == tt[0]);
        assert(t[k + 1] == tt[1]);
        assert(t[k + 2] == tt[2]);
        assert(kw(t, k, "WITH"@));
        assert(kw(t, k + 1, "GRANT"@));
        assert(kw(t, k + 2, "OPTION"@));
    } else {
        assert(t[k] == tt[0]);
        assert(!kw(t, k, "WITH"@));
    }
    let k2 = if p.grant_option {
        k + 3
    } else {
        k
    };
    match p.row_filter {
        Some(f) => {
            assert(t[k2] == tt[k2 - k]);
            assert(t[k2 + 1] == tt[k2 - k + 1]);
            assert(kw(t, k2, "WHERE"@));
        },
        None => {
            assert(t[k2] == tt[k2 - k]);
            assert(!kw(t, k2, "WHERE"@));
        },
    }
}

/// A GRANT statement of an exportable permission reads back as that permission.
/// A permission without the context snapshot of its filter, which the
/// export does not write.
pub open spec fn without_snapshot(p: PermissionView) -> PermissionView {
    PermissionView {
        row_filter: match p.row_filter {
            Some(f) => Some(RowFilterView { expression: f.expression, session_context: None }),
            None => None,
        },
        ..p
    }
}

/// A tag without its description, which the export does not write.
pub open spec fn without_description(t: LfTagView) -> LfTagView {
    LfTagView { description: None, ..t }
}

pub proof fn lemma_grant_statement(p: PermissionView)
    requires
        plain_permission(p),
    ensures
        parse_spec(grant_text(p)) is Some,
        permission_of(parse_spec(grant_text(p))->Some_0) == Some(without_snapshot(p)),
{
    lemma_keywords();
    lemma_lex_grant(p);
    lemma_grant_target(p);
    lemma_grant_tail_parse(p);
    let t = grant_toks(p);
    assert(t[0] == TokView::Word("GRANT"@));
    assert(kw(t, 0, "GRANT"@));
}


/// Text without a newline.
pub open spec fn one_line(s: Seq<char>) -> bool {
    forall|i: int| 0 <= i < s.len() ==> (#[trigger] s[i]) != '\n'
}

proof fn lemma_one_line_concat(a: Seq<char>, b: Seq<char>)
    requires
        one_line(a),
        one_line(b),
    ensures
        one_line(a + b),
{
    assert forall|i: int| 0 <= i < (a + b).len() implies (#[trigger] (a + b)[i]) != '\n' by {
        if i < a.len() {
            assert((a + b)[i] == a[i]);
        } else {
            assert((a + b)[i] == b[i - a.len()]);
        }
    }
}

proof fn lemma_one_line_join(s: Seq<Seq<char>>, sep: Seq<char>)
    requires
        one_line(sep),
        forall|i: int| 0 <= i < s.len() ==> one_line(#[trigger] s[i]),
    ensures
        one_line(join(s, sep)),
    decreases s.len(),
{
    if s.len() > 1 {
        lemma_one_line_join(s.drop_last(), sep);
        assert(one_line(s[s.len() - 1]));
        lemma_one_line_concat(join(s.drop_last(), sep), sep);
        lemma_one_line_concat(join(s.drop_last(), sep) + sep, s.last());
    } else if s.len() == 1 {
        assert(one_line(s[0]));
    }
}

proof fn lemma_word_one_line(w: Seq<char>)
    requires
        plain_word(w),
    ensures
        one_line(w),
{
    assert forall|i: int| 0 <= i < w.len() implies (#[trigger] w[i]) != '\n' by {
        assert(!is_delim(w[i]));
    }
}

proof fn lemma_literals_one_line()
    ensures
        one_line("CREATE ROLE "@),
        one_line(";"@),
        one_line("CREATE TAG "@),
        one_line(" VALUES ("@),
        one_line(");"@),
        one_line(", "@),
        one_line("'"@),
        one_line("GRANT "@),
        one_line(" ON "@),
        one_line(" TO "@),
        one_line(" WITH GRANT OPTION"@),
        one_line(" WHERE "@),
        one_line("DATABASE "@),
        one_line("."@),
        one_line("("@),
        one_line(")"@),
        one_line("ROLE "@),
        one_line("USER "@),
        one_line("GROUP "@),
        one_line("EXTERNAL_ACCOUNT "@),
{
    reveal_strlit("CREATE ROLE ");
    reveal_strlit(";");
    reveal_strlit("CREATE TAG ");
    reveal_strlit(" VALUES (");
    reveal_strlit(");");
    reveal_strlit(", ");
    reveal_strlit("'");
    reveal_strlit("GRANT ");
    reveal_strlit(" ON ");
    reveal_strlit(" TO ");
    reveal_strlit(" WITH GRANT OPTION");
    reveal_strlit(" WHERE ");
    reveal_strlit("DATABASE ");
    reveal_strlit(".");
    reveal_strlit("(");
    reveal_strlit(")");
    reveal_strlit("ROLE ");
    reveal_strlit("USER ");
    reveal_strlit("GROUP ");
    reveal_strlit("EXTERNAL_ACCOUNT ");
}

proof fn lemma_quote_one_line(v: Seq<char>)
    requires
        plain_text(v),
    ensures
        one_line(quote(v)),
{
    lemma_literals_one_line();
    assert(one_line(v));
    lemma_one_line_concat("'"@, v);
    lemma_one_line_concat("'"@ + v, "'"@);
}

proof fn lemma_grant_one_line(p: PermissionView)
    requires
        plain_permission(p),
    ensures
        one_line(grant_text(p)),
{
    lemma_literals_one_line();
    let ws = p.actions.map_values(|a: Action| action_text(a));
    assert forall|i: int| 0 <= i < ws.len() implies one_line(#[trigger] ws[i]) by {
        lemma_action_word(p.actions[i]);
        lemma_word_one_line(ws[i]);
    }
    lemma_one_line_join(ws, ", "@);
    let rt = resource_text(p.resource);
    match p.resource {
        ResourceView::Database { name } => {
            lemma_word_one_line(name);
            lemma_one_line_concat("DATABASE "@, name);
        },
        ResourceView::Table { database, table, columns } => {
            lemma_word_one_line(database);
            lemma_word_one_line(table);
            lemma_one_line_concat(database, "."@);
            lemma_one_line_concat(database + "."@, table);
            match columns {
                Some(cs) => {
                    assert forall|i: int| 0 <= i < cs.len() implies one_line(#[trigger] cs[i]) by {
                        lemma_word_one_line(cs[i]);
                    }
                    lemma_one_line_join(cs, ", "@);
                    lemma_one_line_concat(database + "."@ + table, "("@);
                    lemma_one_line_concat(database + "."@ + table + "("@, join(cs, ", "@));
                    lemma_one_line_concat(database + "."@ + table + "("@ + join(cs, ", "@), ")"@);
                },
                None => {},
            }
        },
        ResourceView::DataLocation { path } => {
            lemma_quote_one_line(path);
        },
        ResourceView::TaggedResource { .. } => {},
    }
    let pt = principal_text(p.principal);
    match p.principal {
        PrincipalView::Role(n) => {
            lemma_word_one_line(n);
            lemma_one_line_concat("ROLE "@, n);
        },
        PrincipalView::User(n) => {
            lemma_quote_one_line(n);
            lemma_one_line_concat("USER "@, quote(n));
        },
        PrincipalView::SamlGroup(n) => {
            lemma_quote_one_line(n);
            lemma_one_line_concat("GROUP "@, quote(n));
        },
        PrincipalView::ExternalAccount(n) => {
            lemma_quote_one_line(n);
            lemma_one_line_concat("EXTERNAL_ACCOUNT "@, quote(n));
        },
        PrincipalView::TaggedPrincipal { .. } => {},
    }
    let go = if p.grant_option {
        " WITH GRANT OPTION"@
    } else {
        Seq::<char>::empty()
    };
    let f = match p.row_filter {
        Some(x) => " WHERE "@ + x.expression,
        None => Seq::<char>::empty(),
    };
    match p.row_filter {
        Some(x) => {
            assert(one_line(x.expression));
            lemma_one_line_concat(" WHERE "@, x.expression);
        },
        None => {},
    }
    let a = actions_text(p.actions);
    lemma_one_line_concat("GRANT "@, a);
    lemma_one_line_concat("GRANT "@ + a, " ON "@);
    lemma_one_line_concat("GRANT "@ + a + " ON "@, rt);
    lemma_one_line_concat("GRANT "@ + a + " ON "@ + rt, " TO "@);
    lemma_one_line_concat("GRANT "@ + a + " ON "@ + rt + " TO "@, pt);
    lemma_one_line_concat("GRANT "@ + a + " ON "@ + rt + " TO "@ + pt, go);
    lemma_one_line_concat("GRANT "@ + a + " ON "@ + rt + " TO "@ + pt + go, f);
    lemma_one_line_concat("GRANT "@ + a + " ON "@ + rt + " TO "@ + pt + go + f, ";"@);
}

proof fn lemma_tag_one_line(t: LfTagView)
    requires
        plain_word(t.key),
        forall|i: int| 0 <= i < t.values.len() ==> plain_text(#[trigger] t.values[i]),
    ensures
        one_line(tag_text(t)),
{
    lemma_literals_one_line();
    let qs = t.values.map_values(|v: Seq<char>| quote(v));
    assert forall|i: int| 0 <= i < qs.len() implies one_line(#[trigger] qs[i]) by {
        lemma_quote_one_line(t.values[i]);
    }
    lemma_one_line_join(qs, ", "@);
    lemma_word_one_line(t.key);
    lemma_one_line_concat("CREATE TAG "@, t.key);
    lemma_one_line_concat("CREATE TAG "@ + t.key, " VALUES ("@);
    lemma_one_line_concat("CREATE TAG "@ + t.key + " VALUES ("@, join(qs, ", "@));
    lemma_one_line_concat("CREATE TAG "@ + t.key + " VALUES ("@ + join(qs, ", "@), ");"@);
}

proof fn lemma_role_one_line(r: RoleView)
    requires
        plain_word(r.name),
    ensures
        one_line(role_text(r)),
{
    lemma_literals_one_line();
    lemma_word_one_line(r.name);
    lemma_one_line_concat("CREATE ROLE "@, r.name);
    lemma_one_line_concat("CREATE ROLE "@ + r.name, ";"@);
}

proof fn lemma_split_line(x: Seq<char>, rest: Seq<char>)
    requires
        one_line(x),
    ensures
        split_lines(x + "\n"@ + rest) == seq![x] + split_lines(rest),
{
    reveal_strlit("\n");
    assert("\n"@ =~= seq!['\n']);
    lemma_find_first(x, '\n', rest);
    let s = x + "\n"@ + rest;
    assert(s.subrange(0, x.len() as int) =~= x);
    assert(s.subrange(x.len() + 1 as int, s.len() as int) =~= rest);
}

proof fn lemma_split_lines(xs: Seq<Seq<char>>, rest: Seq<char>)
    requires
        forall|i: int| 0 <= i < xs.len() ==> one_line(#[trigger] xs[i]),
    ensures
        split_lines(lines(xs) + rest) == xs + split_lines(rest),
    decreases xs.len(),
{
    if xs.len() == 0 {
        assert(lines(xs) + rest =~= rest);
        assert(xs + split_lines(rest) =~= split_lines(rest));
    } else {
        let x = xs.last();
        assert(one_line(xs[xs.len() - 1]));
        let tail = x + "\n"@ + rest;
        assert(lines(xs) + rest =~= lines(xs.drop_last()) + tail);
        lemma_split_lines(xs.drop_last(), tail);
        lemma_split_line(x, rest);
        assert(xs.drop_last() + (seq![x] + split_lines(rest)) =~= xs + split_lines(rest));
    }
}

proof fn lemma_run_concat(st: StateView, a: Seq<Seq<char>>, b: Seq<Seq<char>>)
    ensures
        run_lines(st, a + b) == match run_lines(st, a) {
            Some(s2) => run_lines(s2, b),
            None => None,
        },
    decreases a.len(),
{
    if a.len() > 0 {
        assert((a + b).drop_first() =~= a.drop_first() + b);
        assert((a + b)[0] == a[0]);
        if is_remark(a[0]) {
            lemma_run_concat(st, a.drop_first(), b);
        } else {
            match parse_spec(a[0]) {
                Some(s) => lemma_run_concat(apply_statement(st, s), a.drop_first(), b),
                None => {},
            }
        }
    } else {
        assert(a + b =~= b);
    }
}

/// Text that starts and ends with something other than blank space and does
/// not start with `-` is no remark.
proof fn lemma_not_remark(x: Seq<char>)
    requires
        x.len() > 0,
        !is_space(x[0]),
        x[0] != '-',
        !is_space(x.last()),
    ensures
        !is_remark(x),
{
    reveal_strlit("--");
    assert(trim_start(x) == x);
    assert(trim_end(x) == x);
    assert(trim(x) == x);
    if starts_with(x, "--"@) {
        assert(x.subrange(0, 2)[0] == x[0]);
        assert(x.subrange(0, 2)[0] == "--"@[0]);
    }
}

proof fn lemma_run_one(st: StateView, x: Seq<char>, s: StatementView)
    requires
        !is_remark(x),
        parse_spec(x) == Some(s),
    ensures
        run_lines(st, seq![x]) == Some(apply_statement(st, s)),
{
    assert(seq![x].drop_first() =~= Seq::<Seq<char>>::empty());
    assert(seq![x][0] == x);
    assert(run_lines(apply_statement(st, s), Seq::<Seq<char>>::empty()) == Some(apply_statement(st, s)));
}

/// Roles with no members, as replaying their CREATE ROLE statements leaves them.
pub open spec fn cleared(rs: Seq<RoleView>) -> Seq<RoleView> {
    rs.map_values(|r: RoleView| RoleView { name: r.name, members: Seq::empty() })
}

proof fn lemma_run_roles(st: StateView, rs: Seq<RoleView>)
    requires
        st.roles.len() == 0,
        forall|i: int| 0 <= i < rs.len() ==> plain_word(#[trigger] rs[i].name),
        forall|i: int, j: int| 0 <= i < j < rs.len() ==> rs[i].name != rs[j].name,
    ensures
        run_lines(st, rs.map_values(|r: RoleView| role_text(r))) == Some(
            StateView { roles: cleared(rs), ..st },
        ),
    decreases rs.len(),
{
    let ls = rs.map_values(|r: RoleView| role_text(r));
    if rs.len() == 0 {
        assert(cleared(rs) =~= st.roles);
    } else {
        let front = rs.drop_last();
        let x = rs.last();
        assert(plain_word(rs[rs.len() - 1].name));
        assert(ls =~= front.map_values(|r: RoleView| role_text(r)) + seq![role_text(x)]);
        lemma_run_roles(st, front);
        lemma_run_concat(st, front.map_values(|r: RoleView| role_text(r)), seq![role_text(x)]);
        lemma_role_statement(x.name);
        let x0 = RoleView { name: x.name, members: Seq::empty() };
        assert(role_text(x) == role_text(x0));
        reveal_strlit("CREATE ROLE ");
        reveal_strlit(";");
        assert(role_text(x)[0] == 'C');
        assert(role_text(x).last() == ';');
        lemma_not_remark(role_text(x));
        let mid = StateView { roles: cleared(front), ..st };
        lemma_run_one(mid, role_text(x), StatementView::CreateRole { name: x.name });
        let f = |r: RoleView| r.name == x.name;
        assert forall|i: int| 0 <= i < cleared(front).len() implies !f(#[trigger] cleared(front)[i]) by {
            assert(cleared(front)[i].name == rs[i].name);
        }
        crate::laws::lemma_drop_where_none(cleared(front), f);
        assert(cleared(front).push(x0) =~= cleared(rs));
    }
}

proof fn lemma_run_tags(st: StateView, ts: Seq<LfTagView>)
    requires
        st.tags.len() == 0,
        forall|i: int| 0 <= i < ts.len() ==> plain_word(#[trigger] ts[i].key),
        forall|i: int, k: int| 0 <= i < ts.len() && 0 <= k < ts[i].values.len() ==> plain_text(#[trigger] ts[i].values[k]),
        forall|i: int, j: int| 0 <= i < j < ts.len() ==> ts[i].key != ts[j].key,
    ensures
        run_lines(st, ts.map_values(|t: LfTagView| tag_text(t))) == Some(
            StateView { tags: ts.map_values(|t: LfTagView| without_description(t)), ..st },
        ),
    decreases ts.len(),
{
    let ls = ts.map_values(|t: LfTagView| tag_text(t));
    let nd = ts.map_values(|t: LfTagView| without_description(t));
    if ts.len() == 0 {
        assert(nd =~= st.tags);
    } else {
        let front = ts.drop_last();
        let x = ts.last();
        assert(plain_word(ts[ts.len() - 1].key));
        assert forall|k: int| 0 <= k < x.values.len() implies plain_text(#[trigger] x.values[k]) by {
            assert(plain_text(ts[ts.len() - 1].values[k]));
        }
        assert(ls =~= front.map_values(|t: LfTagView| tag_text(t)) + seq![tag_text(x)]);
        lemma_run_tags(st, front);
        lemma_run_concat(st, front.map_values(|t: LfTagView| tag_text(t)), seq![tag_text(x)]);
        lemma_tag_statement(x.key, x.values, x.description);
        reveal_strlit("CREATE TAG ");
        reveal_strlit(");");
        assert(tag_text(x)[0] == 'C');
        assert(tag_text(x).last() == ';');
        lemma_not_remark(tag_text(x));
        let fnd = front.map_values(|t: LfTagView| without_description(t));
        let mid = StateView { tags: fnd, ..st };
        lemma_run_one(mid, tag_text(x), StatementView::CreateTag { name: x.key, values: x.values });
        let f = |t: LfTagView| t.key == x.key;
        assert forall|i: int| 0 <= i < fnd.len() implies !f(#[trigger] fnd[i]) by {
            assert(fnd[i].key == ts[i].key);
        }
        crate::laws::lemma_drop_where_none(fnd, f);
        assert(fnd.push(LfTagView { key: x.key, values: x.values, description: None }) =~= nd);
    }
}

proof fn lemma_run_grants(st: StateView, ps: Seq<PermissionView>)
    requires
        st.permissions.len() == 0,
        forall|i: int| 0 <= i < ps.len() ==> plain_permission(#[trigger] ps[i]),
        forall|i: int, j: int|
            0 <= i < j < ps.len() ==> !crate::state::same_key(ps[i], ps[j].principal, ps[j].resource),
    ensures
        run_lines(st, ps.map_values(|p: PermissionView| grant_text(p))) == Some(
            StateView { permissions: ps.map_values(|p: PermissionView| without_snapshot(p)), ..st },
        ),
    decreases ps.len(),
{
    let ls = ps.map_values(|p: PermissionView| grant_text(p));
    let ns = ps.map_values(|p: PermissionView| without_snapshot(p));
    if ps.len() == 0 {
        assert(ns =~= st.permissions);
    } else {
        let front = ps.drop_last();
        let x = ps.last();
        assert(plain_permission(ps[ps.len() - 1]));
        assert(ls =~= front.map_values(|p: PermissionView| grant_text(p)) + seq![grant_text(x)]);
        lemma_run_grants(st, front);
        lemma_run_concat(st, front.map_values(|p: PermissionView| grant_text(p)), seq![grant_text(x)]);
        lemma_grant_statement(x);
        let s = parse_spec(grant_text(x))->Some_0;
        assert(s is Grant);
        reveal_strlit("GRANT ");
        reveal_strlit(";");
        assert(grant_text(x)[0] == 'G');
        assert(grant_text(x).last() == ';');
        lemma_not_remark(grant_text(x));
        let fns = front.map_values(|p: PermissionView| without_snapshot(p));
        let mid = StateView { permissions: fns, ..st };
        lemma_run_one(mid, grant_text(x), s);
        let f = |q: PermissionView| crate::state::same_key(q, x.principal, x.resource);
        assert forall|i: int| 0 <= i < fns.len() implies !f(#[trigger] fns[i]) by {
            assert(front[i] == ps[i]);
            assert(fns[i] == without_snapshot(ps[i]));
            assert(!crate::state::same_key(ps[i], ps[ps.len() - 1].principal, ps[ps.len() - 1].resource));
        }
        crate::laws::lemma_drop_where_none(fns, f);
        assert(fns.push(without_snapshot(x)) =~= ns);
    }
}


/// A store every part of which its exported statements can spell: names
/// that read back as words, quoted texts without quotes or newlines,
/// filters without surrounding blanks, no tagged principals or resources,
/// and one entry per role name, tag key and permission key.
pub open spec fn exportable(st: StateView) -> bool {
    &&& forall|i: int| 0 <= i < st.roles.len() ==> plain_word(#[trigger] st.roles[i].name)
    &&& forall|i: int, j: int| 0 <= i < j < st.roles.len() ==> st.roles[i].name != st.roles[j].name
    &&& forall|i: int| 0 <= i < st.tags.len() ==> plain_word(#[trigger] st.tags[i].key)
    &&& forall|i: int, k: int|
        0 <= i < st.tags.len() && 0 <= k < st.tags[i].values.len() ==> plain_text(#[trigger] st.tags[i].values[k])
    &&& forall|i: int, j: int| 0 <= i < j < st.tags.len() ==> st.tags[i].key != st.tags[j].key
    &&& forall|i: int| 0 <= i < st.permissions.len() ==> plain_permission(#[trigger] st.permissions[i])
    &&& forall|i: int, j: int|
        0 <= i < j < st.permissions.len() ==> !crate::state::same_key(
            st.permissions[i],
            st.permissions[j].principal,
            st.permissions[j].resource,
        )
}

proof fn lemma_header()
    ensures
        export_header() == lines(
            seq![
                "-- Lake Formation Emulator State Export"@,
                "-- Generated DDL statements to recreate this state"@,
                Seq::<char>::empty(),
            ],
        ),
        is_remark("-- Lake Formation Emulator State Export"@),
        is_remark("-- Generated DDL statements to recreate this state"@),
        is_remark(Seq::<char>::empty()),
        one_line("-- Lake Formation Emulator State Export"@),
        one_line("-- Generated DDL statements to recreate this state"@),
{
    reveal_strlit("-- Lake Formation Emulator State Export\n-- Generated DDL statements to recreate this state\n\n");
    reveal_strlit("-- Lake Formation Emulator State Export");
    reveal_strlit("-- Generated DDL statements to recreate this state");
    reveal_strlit("\n");
    reveal_strlit("--");
    let c1 = "-- Lake Formation Emulator State Export"@;
    let c2 = "-- Generated DDL statements to recreate this state"@;
    let xs = seq![c1, c2, Seq::<char>::empty()];
    assert(xs.drop_last() =~= seq![c1, c2]);
    assert(seq![c1, c2].drop_last() =~= seq![c1]);
    assert(seq![c1].drop_last() =~= Seq::<Seq<char>>::empty());
    assert(lines(Seq::<Seq<char>>::empty()) == Seq::<char>::empty());
    assert(lines(seq![c1]) == lines(Seq::<Seq<char>>::empty()) + c1 + "\n"@);
    assert(lines(seq![c1, c2]) == lines(seq![c1]) + c2 + "\n"@);
    assert(lines(xs) == lines(seq![c1, c2]) + Seq::<char>::empty() + "\n"@);
    assert(export_header() =~= lines(xs));
    assert(trim_start(c1) == c1);
    assert(trim_end(c1) == c1);
    assert(c1.subrange(0, 2) =~= "--"@);
    assert(trim_start(c2) == c2);
    assert(trim_end(c2) == c2);
    assert(c2.subrange(0, 2) =~= "--"@);
}

proof fn lemma_run_remarks(st: StateView, ls: Seq<Seq<char>>)
    requires
        forall|i: int| 0 <= i < ls.len() ==> is_remark(#[trigger] ls[i]),
    ensures
        run_lines(st, ls) == Some(st),
    decreases ls.len(),
{
    if ls.len() > 0 {
        assert(is_remark(ls[0]));
        assert forall|i: int| 0 <= i < ls.drop_first().len() implies is_remark(#[trigger] ls.drop_first()[i]) by {
            assert(ls.drop_first()[i] == ls[i + 1]);
        }
        lemma_run_remarks(st, ls.drop_first());
    }
}

/// Running the exported statements of an exportable store on a store with
/// no permissions, roles or tags gives back its permissions and tags, up to
/// what the export does not write: role members, tag descriptions and the
/// context snapshots of row filters. The session context is left as it was.
pub proof fn law_export_round_trip(st: StateView, start: StateView)
    requires
        exportable(st),
        start.permissions.len() == 0,
        start.roles.len() == 0,
        start.tags.len() == 0,
    ensures
        run_lines(start, split_lines(ddl_text(st))) == Some(
            StateView {
                permissions: st.permissions.map_values(|p: PermissionView| without_snapshot(p)),
                roles: cleared(st.roles),
                tags: st.tags.map_values(|t: LfTagView| without_description(t)),
                session_context: start.session_context,
            },
        ),
{
    lemma_header();
    reveal_strlit("\n");
    let e = Seq::<char>::empty();
    let hs = seq![
        "-- Lake Formation Emulator State Export"@,
        "-- Generated DDL statements to recreate this state"@,
        e,
    ];
    let blank = seq![e];
    let rs = st.roles.map_values(|r: RoleView| role_text(r));
    let ts = st.tags.map_values(|t: LfTagView| tag_text(t));
    let gs = st.permissions.map_values(|p: PermissionView| grant_text(p));
    assert forall|i: int| 0 <= i < rs.len() implies one_line(#[trigger] rs[i]) by {
        lemma_role_one_line(st.roles[i]);
    }
    assert forall|i: int| 0 <= i < ts.len() implies one_line(#[trigger] ts[i]) by {
        let t = st.tags[i];
        assert forall|k: int| 0 <= k < t.values.len() implies plain_text(#[trigger] t.values[k]) by {
            assert(plain_text(st.tags[i].values[k]));
        }
        lemma_tag_one_line(t);
    }
    assert forall|i: int| 0 <= i < gs.len() implies one_line(#[trigger] gs[i]) by {
        lemma_grant_one_line(st.permissions[i]);
    }
    assert forall|i: int| 0 <= i < hs.len() implies one_line(#[trigger] hs[i]) by {}
    assert(blank.drop_last() =~= Seq::<Seq<char>>::empty());
    assert(lines(blank) == lines(Seq::<Seq<char>>::empty()) + e + "\n"@);
    assert(lines(blank) =~= "\n"@);
    assert forall|i: int| 0 <= i < blank.len() implies one_line(#[trigger] blank[i]) by {}
    let x4 = lines(gs) + e;
    let x3 = lines(blank) + x4;
    let x2 = lines(ts) + x3;
    let x1 = lines(blank) + x2;
    let x0 = lines(rs) + x1;
    assert(ddl_text(st) =~= lines(hs) + x0);
    assert(split_lines(e) == seq![e]) by {
        crate::text::lemma_find_from_bounds(e, "\n"@, 0);
    }
    lemma_split_lines(gs, e);
    lemma_split_lines(blank, x4);
    lemma_split_lines(ts, x3);
    lemma_split_lines(blank, x2);
    lemma_split_lines(rs, x1);
    lemma_split_lines(hs, x0);
    let all = hs + (rs + (blank + (ts + (blank + (gs + blank)))));
    assert(split_lines(ddl_text(st)) == all);
    assert forall|i: int| 0 <= i < blank.len() implies is_remark(#[trigger] blank[i]) by {}
    assert forall|i: int| 0 <= i < hs.len() implies is_remark(#[trigger] hs[i]) by {}
    let s1 = StateView { roles: cleared(st.roles), ..start };
    let s2 = StateView { tags: st.tags.map_values(|t: LfTagView| without_description(t)), ..s1 };
    let s3 = StateView {
        permissions: st.permissions.map_values(|p: PermissionView| without_snapshot(p)),
        ..s2
    };
    lemma_run_remarks(start, hs);
    lemma_run_concat(start, hs, rs + (blank + (ts + (blank + (gs + blank)))));
    lemma_run_roles(start, st.roles);
    lemma_run_concat(start, rs, blank + (ts + (blank + (gs + blank))));
    lemma_run_remarks(s1, blank);
    lemma_run_concat(s1, blank, ts + (blank + (gs + blank)));
    lemma_run_tags(s1, st.tags);
    lemma_run_concat(s1, ts, blank + (gs + blank));
    lemma_run_remarks(s2, blank);
    lemma_run_concat(s2, blank, gs + blank);
    lemma_run_grants(s2, st.permissions);
    lemma_run_concat(s2, gs, blank);
    lemma_run_remarks(s3, blank);
}

} // verus!
