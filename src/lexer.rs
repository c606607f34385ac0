//! Splits statement text into tokens: words, quoted strings, punctuation,
//! and the free text of a row filter after `WHERE`.
use vstd::prelude::*;
use crate::text::eq_ci;
use crate::text::eq_ci_str;
use crate::text::find;
use crate::text::find_str;
use crate::text::is_space;
use crate::text::is_space_char;
use crate::text::lemma_find_from_bounds;
use crate::text::trim;
use crate::text::trim_str;

verus! {

/// A token as plain values.
pub enum TokView {
    Word(Seq<char>),
    /// A string between two equal quote characters, without them.
    Quoted(char, Seq<char>),
    Comma,
    LParen,
    RParen,
    Semi,
    /// The trimmed text after `WHERE`, without a final `;`.
    Rest(Seq<char>),
}

/// One token of a statement.
#[derive(Debug)]
pub enum Token {
    Word(String),
    Quoted(char, String),
    Comma,
    LParen,
    RParen,
    Semi,
    Rest(String),
}

impl View for Token {
    type V = TokView;

    open spec fn view(&self) -> TokView {
        match self {
            Token::Word(w) => TokView::Word(w@),
            Token::Quoted(q, s) => TokView::Quoted(*q, s@),
            Token::Comma => TokView::Comma,
            Token::LParen => TokView::LParen,
            Token::RParen => TokView::RParen,
            Token::Semi => TokView::Semi,
            Token::Rest(s) => TokView::Rest(s@),
        }
    }
}

pub open spec fn toks(v: Seq<Token>) -> Seq<TokView> {
    v.map_values(|t: Token| t@)
}

/// Characters that end a word.
pub open spec fn is_delim(c: char) -> bool {
    is_space(c) || c == ',' || c == '(' || c == ')' || c == ';' || c == '\'' || c == '"'
}

/// The length of the word at the start of `s`.
pub open spec fn word_len(s: Seq<char>) -> nat
    decreases s.len(),
{
    if s.len() == 0 || is_delim(s[0]) {
        0
    } else {
        1 + word_len(s.drop_first())
    }
}

/// The filter text after `WHERE`: trimmed, without one final `;`.
pub open spec fn filter_text(rest: Seq<char>) -> Seq<char> {
    let t = trim(rest);
    if t.len() > 0 && t.last() == ';' {
        trim(t.drop_last())
    } else {
        t
    }
}

pub open spec fn prepend(t: TokView, r: Option<Seq<TokView>>) -> Option<Seq<TokView>> {
    match r {
        Some(ts) => Some(seq![t] + ts),
        None => None,
    }
}

/// The tokens of `s`, or `None` where a quoted string is not closed.
pub open spec fn lex(s: Seq<char>) -> Option<Seq<TokView>>
    decreases s.len(),
{
    if s.len() == 0 {
        Some(Seq::empty())
    } else if is_space(s[0]) {
        lex(s.drop_first())
    } else if s[0] == ',' {
        prepend(TokView::Comma, lex(s.drop_first()))
    } else if s[0] == '(' {
        prepend(TokView::LParen, lex(s.drop_first()))
    } else if s[0] == ')' {
        prepend(TokView::RParen, lex(s.drop_first()))
    } else if s[0] == ';' {
        prepend(TokView::Semi, lex(s.drop_first()))
    } else if s[0] == '\'' || s[0] == '"' {
        match find(s.drop_first(), seq![s[0]]) {
            Some(j) => if 0 <= j && j + 2 <= s.len() {
                prepend(TokView::Quoted(s[0], s.subrange(1, j + 1)), lex(s.subrange(j + 2, s.len() as int)))
            } else {
                None
            },
            None => None,
        }
    } else {
        let w = word_len(s);
        if 0 < w <= s.len() {
            let word = s.subrange(0, w as int);
            if eq_ci(word, "WHERE"@) {
                Some(seq![TokView::Word(word), TokView::Rest(filter_text(s.subrange(w as int, s.len() as int)))])
            } else {
                prepend(TokView::Word(word), lex(s.subrange(w as int, s.len() as int)))
            }
        } else {
            None
        }
    }
}

/// What lexing `s` from `i` on yields after the tokens `acc`.
pub open spec fn lex_after(acc: Seq<TokView>, s: Seq<char>, i: int) -> Option<Seq<TokView>> {
    match lex(s.subrange(i, s.len() as int)) {
        Some(ts) => Some(acc + ts),
        None => None,
    }
}

fn is_delim_char(c: char) -> (r: bool)
    ensures
        r == is_delim(c),
{
    is_space_char(c) || c == ',' || c == '(' || c == ')' || c == ';' || c == '\'' || c == '"'
}

proof fn lemma_word_len_bound(s: Seq<char>)
    ensures
        word_len(s) <= s.len(),
    decreases s.len(),
{
    if s.len() > 0 && !is_delim(s[0]) {
        lemma_word_len_bound(s.drop_first());
    }
}

/// Exec counterpart of [`filter_text`].
fn filter_text_str(rest: &str) -> (r: &str)
    ensures
        r@ == filter_text(rest@),
{
    let t = trim_str(rest);
    let n = t.unicode_len();
    if n > 0 && t.get_char(n - 1) == ';' {
        proof {
            assert(t@.drop_last() =~= t@.subrange(0, n - 1));
        }
        trim_str(t.substring_char(0, n - 1))
    } else {
        t
    }
}

/// Exec counterpart of [`lex`].
pub fn tokenize(s: &str) -> (r: Option<Vec<Token>>)
    ensures
        match lex(s@) {
            Some(ts) => r matches Some(v) && toks(v@) == ts,
            None => r is None,
        },
{
    let n = s.unicode_len();
    let mut out: Vec<Token> = Vec::new();
    let mut i: usize = 0;
    proof {
        assert(s@.subrange(0, n as int) =~= s@);
        assert(toks(out@) + Seq::<TokView>::empty() =~= Seq::<TokView>::empty());
    }
    while i < n
        invariant
            0 <= i <= n,
            n == s@.len(),
            lex(s@) == lex_after(toks(out@), s@, i as int),
        decreases n - i,
    {
        let ghost rest = s@.subrange(i as int, n as int);
        let ghost pre = toks(out@);
        let c = s.get_char(i);
        assert(rest[0] == c);
        proof {
            assert(rest.drop_first() =~= s@.subrange(i + 1, n as int));
        }
        if is_space_char(c) {
            i = i + 1;
        } else if c == ',' || c == '(' || c == ')' || c == ';' {
            let t = if c == ',' {
                Token::Comma
            } else if c == '(' {
                Token::LParen
            } else if c == ')' {
                Token::RParen
            } else {
                Token::Semi
            };
            out.push(t);
            proof {
                assert(toks(out@) =~= pre.push(t@));
                match lex(s@.subrange(i + 1, n as int)) {
                    Some(ts) => {
                        assert(pre + (seq![t@] + ts) =~= pre.push(t@) + ts);
                    },
                    None => {},
                }
            }
            i = i + 1;
        } else if c == '\'' || c == '"' {
            let q = if c == '\'' {
                "'"
            } else {
                "\""
            };
            proof {
                reveal_strlit("'");
                reveal_strlit("\"");
                assert(q@ =~= seq![c]);
            }
            let tail = s.substring_char(i + 1, n);
            assert(tail@ =~= rest.drop_first());
            match find_str(tail, q) {
                Some(j) => {
                    proof {
                        lemma_find_from_bounds(tail@, q@, 0);
                    }
                    let body = String::from_str(s.substring_char(i + 1, i + 1 + j));
                    assert(body@ =~= rest.subrange(1, j + 1));
                    assert(rest.subrange(j + 2, rest.len() as int) =~= s@.subrange(i + j + 2, n as int));
                    let t = Token::Quoted(c, body);
                    out.push(t);
                    proof {
                        assert(toks(out@) =~= pre.push(t@));
                        match lex(s@.subrange(i + j + 2, n as int)) {
                            Some(ts) => {
                                assert(pre + (seq![t@] + ts) =~= pre.push(t@) + ts);
                            },
                            None => {},
                        }
                    }
                    i = i + 2 + j;
                },
                None => {
                    return None;
                },
            }
        } else {
            let mut j: usize = i;
            while j < n && !is_delim_char(s.get_char(j))
                invariant
                    i <= j <= n,
                    n == s@.len(),
                    rest == s@.subrange(i as int, n as int),
                    word_len(rest) == (j - i) + word_len(s@.subrange(j as int, n as int)),
                decreases n - j,
            {
                proof {
                    let sj = s@.subrange(j as int, n as int);
                    assert(sj.drop_first() =~= s@.subrange(j + 1, n as int));
                }
                j = j + 1;
            }
            proof {
                lemma_word_len_bound(rest);
                assert(word_len(rest) == j - i);
                assert(rest.subrange(0, j - i) =~= s@.subrange(i as int, j as int));
                assert(rest.subrange(j - i, rest.len() as int) =~= s@.subrange(j as int, n as int));
            }
            let word = s.substring_char(i, j);
            if eq_ci_str(word, "WHERE") {
                let text = String::from_str(filter_text_str(s.substring_char(j, n)));
                let w = Token::Word(String::from_str(word));
                let t = Token::Rest(text);
                out.push(w);
                out.push(t);
                proof {
                    assert(toks(out@) =~= pre + seq![w@, t@]);
                    assert(s@.subrange(n as int, n as int) =~= Seq::<char>::empty());
                    assert(pre + seq![w@, t@] + Seq::<TokView>::empty() =~= pre + seq![w@, t@]);
                }
                return Some(out);
            }
            let w = Token::Word(String::from_str(word));
            out.push(w);
            proof {
                assert(toks(out@) =~= pre.push(w@));
                match lex(s@.subrange(j as int, n as int)) {
                    Some(ts) => {
                        assert(pre + (seq![w@] + ts) =~= pre.push(w@) + ts);
                    },
                    None => {},
                }
            }
            i = j;
        }
    }
    proof {
        assert(s@.subrange(n as int, n as int) =~= Seq::<char>::empty());
        assert(toks(out@) + Seq::<TokView>::empty() =~= toks(out@));
    }
    Some(out)
}

} // verus!
