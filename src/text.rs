//! Character-level helpers on strings: trimming, searching, splitting and
//! case-insensitive comparison against ASCII keywords, each stated over `Seq<char>`.
use vstd::prelude::*;

verus! {

/// Unicode White_Space: what the statement and filter grammars skip and trim.
pub open spec fn is_space(c: char) -> bool {
    let u = c as u32;
    ||| (0x09 <= u && u <= 0x0D)
    ||| u == 0x20
    ||| u == 0x85
    ||| u == 0xA0
    ||| u == 0x1680
    ||| (0x2000 <= u && u <= 0x200A)
    ||| u == 0x2028
    ||| u == 0x2029
    ||| u == 0x202F
    ||| u == 0x205F
    ||| u == 0x3000
}

pub open spec fn trim_start(s: Seq<char>) -> Seq<char>
    decreases s.len(),
{
    if s.len() > 0 && is_space(s[0]) {
        trim_start(s.drop_first())
    } else {
        s
    }
}

pub open spec fn trim_end(s: Seq<char>) -> Seq<char>
    decreases s.len(),
{
    if s.len() > 0 && is_space(s.last()) {
        trim_end(s.drop_last())
    } else {
        s
    }
}

/// `s` without leading and trailing whitespace.
pub open spec fn trim(s: Seq<char>) -> Seq<char> {
    trim_end(trim_start(s))
}

/// `p` occurs in `s` starting at index `i`.
pub open spec fn occurs_at(s: Seq<char>, p: Seq<char>, i: int) -> bool {
    0 <= i && i + p.len() <= s.len() && s.subrange(i, i + p.len()) == p
}

pub open spec fn starts_with(s: Seq<char>, p: Seq<char>) -> bool {
    occurs_at(s, p, 0)
}

pub open spec fn ends_with(s: Seq<char>, p: Seq<char>) -> bool {
    occurs_at(s, p, s.len() - p.len())
}

/// Index of the first occurrence of `p` in `s` at or after `i`.
pub open spec fn find_from(s: Seq<char>, p: Seq<char>, i: int) -> Option<int>
    decreases s.len() + 1 - i,
{
    if i < 0 || i + p.len() > s.len() {
        None
    } else if occurs_at(s, p, i) {
        Some(i)
    } else {
        find_from(s, p, i + 1)
    }
}

/// Index of the first occurrence of `p` in `s`.
pub open spec fn find(s: Seq<char>, p: Seq<char>) -> Option<int> {
    find_from(s, p, 0)
}

pub open spec fn contains(s: Seq<char>, p: Seq<char>) -> bool {
    find(s, p) is Some
}

/// Characters with the same upper case, where one of them is an ASCII
/// letter: ASCII letters in either case, dotless `ı` with `I`, and long `ſ`
/// with `S`.
pub open spec fn ci_eq(a: char, b: char) -> bool {
    ||| a == b
    ||| ('a' <= a && a <= 'z' && a as u32 == b as u32 + 32)
    ||| ('a' <= b && b <= 'z' && b as u32 == a as u32 + 32)
    ||| (a == '\u{131}' && (b == 'I' || b == 'i')) || (b == '\u{131}' && (a == 'I' || a == 'i'))
    ||| (a == '\u{17F}' && (b == 'S' || b == 's')) || (b == '\u{17F}' && (a == 'S' || a == 's'))
}

/// The upper case of a character that upper-cases to several ASCII
/// letters: `ß` and the Latin ligatures.
pub open spec fn expansion(c: char) -> Option<Seq<char>> {
    if c == '\u{DF}' {
        Some(seq!['S', 'S'])
    } else if c == '\u{FB00}' {
        Some(seq!['F', 'F'])
    } else if c == '\u{FB01}' {
        Some(seq!['F', 'I'])
    } else if c == '\u{FB02}' {
        Some(seq!['F', 'L'])
    } else if c == '\u{FB03}' {
        Some(seq!['F', 'F', 'I'])
    } else if c == '\u{FB04}' {
        Some(seq!['F', 'F', 'L'])
    } else if c == '\u{FB05}' || c == '\u{FB06}' {
        Some(seq!['S', 'T'])
    } else {
        None
    }
}

/// `a` upper-cases to the keyword `b`: each character of `a` matches the
/// next character of `b` up to case (see [`ci_eq`]), or, where it upper-cases
/// to several letters, the next few.
pub open spec fn eq_ci(a: Seq<char>, b: Seq<char>) -> bool
    decreases a.len(),
{
    if a.len() == 0 {
        b.len() == 0
    } else {
        match expansion(a[0]) {
            Some(x) => b.len() >= x.len() && b.subrange(0, x.len() as int) == x && eq_ci(
                a.drop_first(),
                b.subrange(x.len() as int, b.len() as int),
            ),
            None => b.len() > 0 && ci_eq(a[0], b[0]) && eq_ci(a.drop_first(), b.drop_first()),
        }
    }
}

/// Text of characters that each upper-case to one character.
pub open spec fn no_expansion(s: Seq<char>) -> bool {
    forall|i: int| 0 <= i < s.len() ==> expansion(#[trigger] s[i]) is None
}

/// Such text matches itself.
pub proof fn lemma_eq_ci_refl(s: Seq<char>)
    requires
        no_expansion(s),
    ensures
        eq_ci(s, s),
    decreases s.len(),
{
    if s.len() > 0 {
        assert(expansion(s[0]) is None);
        assert forall|i: int| 0 <= i < s.drop_first().len() implies expansion(#[trigger] s.drop_first()[i]) is None by {
            assert(s.drop_first()[i] == s[i + 1]);
        }
        lemma_eq_ci_refl(s.drop_first());
    }
}

/// Such text matches only keywords of its own length.
pub proof fn lemma_eq_ci_len(a: Seq<char>, b: Seq<char>)
    requires
        no_expansion(a),
        eq_ci(a, b),
    ensures
        a.len() == b.len(),
    decreases a.len(),
{
    if a.len() > 0 {
        assert(expansion(a[0]) is None);
        assert forall|i: int| 0 <= i < a.drop_first().len() implies expansion(#[trigger] a.drop_first()[i]) is None by {
            assert(a.drop_first()[i] == a[i + 1]);
        }
        lemma_eq_ci_len(a.drop_first(), b.drop_first());
    }
}

/// A dot in `a` appears in any keyword `a` matches.
pub proof fn lemma_eq_ci_keeps(a: Seq<char>, b: Seq<char>, p: int)
    requires
        eq_ci(a, b),
        0 <= p < a.len(),
        a[p] == '.',
    ensures
        b.contains(a[p]),
    decreases a.len(),
{
    if p == 0 {
        assert(b[0] == a[0]);
    } else {
        let rest = match expansion(a[0]) {
            Some(x) => b.subrange(x.len() as int, b.len() as int),
            None => b.drop_first(),
        };
        assert(a.drop_first()[p - 1] == a[p]);
        lemma_eq_ci_keeps(a.drop_first(), rest, p - 1);
        let j = choose|j: int| 0 <= j < rest.len() && rest[j] == a[p];
        match expansion(a[0]) {
            Some(x) => assert(b[j + x.len()] == rest[j]),
            None => assert(b[j + 1] == rest[j]),
        }
    }
}

/// `s` without every leading and trailing occurrence of `c`.
pub open spec fn trim_char(s: Seq<char>, c: char) -> Seq<char> {
    trim_char_end(trim_char_start(s, c), c)
}

pub open spec fn trim_char_start(s: Seq<char>, c: char) -> Seq<char>
    decreases s.len(),
{
    if s.len() > 0 && s[0] == c {
        trim_char_start(s.drop_first(), c)
    } else {
        s
    }
}

pub open spec fn trim_char_end(s: Seq<char>, c: char) -> Seq<char>
    decreases s.len(),
{
    if s.len() > 0 && s.last() == c {
        trim_char_end(s.drop_last(), c)
    } else {
        s
    }
}

pub proof fn lemma_find_from_bounds(s: Seq<char>, p: Seq<char>, i: int)
    requires
        0 <= i,
    ensures
        find_from(s, p, i) matches Some(j) ==> i <= j && occurs_at(s, p, j) && forall|k: int|
            i <= k < j ==> !occurs_at(s, p, k),
        find_from(s, p, i) is None ==> forall|k: int| i <= k ==> !occurs_at(s, p, k),
    decreases s.len() + 1 - i,
{
    if i + p.len() > s.len() {
    } else if occurs_at(s, p, i) {
    } else {
        lemma_find_from_bounds(s, p, i + 1);
    }
}

proof fn lemma_trim_start_skip(s: Seq<char>, a: int)
    requires
        0 <= a <= s.len(),
        forall|k: int| 0 <= k < a ==> is_space(#[trigger] s[k]),
    ensures
        trim_start(s) == trim_start(s.subrange(a, s.len() as int)),
    decreases a,
{
    if a > 0 {
        assert(s.drop_first() =~= s.subrange(1, s.len() as int));
        lemma_trim_start_skip(s.drop_first(), a - 1);
        assert(s.drop_first().subrange(a - 1, s.drop_first().len() as int) =~= s.subrange(
            a,
            s.len() as int,
        ));
    } else {
        assert(s.subrange(0, s.len() as int) =~= s);
    }
}

proof fn lemma_trim_end_cut(s: Seq<char>, b: int)
    requires
        0 <= b <= s.len(),
        forall|k: int| b <= k < s.len() ==> is_space(#[trigger] s[k]),
    ensures
        trim_end(s) == trim_end(s.subrange(0, b)),
    decreases s.len() - b,
{
    if b < s.len() {
        assert(s.drop_last() =~= s.subrange(0, s.len() - 1));
        lemma_trim_end_cut(s.drop_last(), b);
        assert(s.drop_last().subrange(0, b) =~= s.subrange(0, b));
    } else {
        assert(s.subrange(0, b) =~= s);
    }
}

/// Exec counterpart of [`trim`].
pub fn trim_str(s: &str) -> (r: &str)
    ensures
        r@ == trim(s@),
{
    let n = s.unicode_len();
    let mut a: usize = 0;
    while a < n && is_space_char(s.get_char(a))
        invariant
            0 <= a <= n,
            n == s@.len(),
            forall|k: int| 0 <= k < a ==> is_space(#[trigger] s@[k]),
        decreases n - a,
    {
        a = a + 1;
    }
    let mut b: usize = n;
    while b > a && is_space_char(s.get_char(b - 1))
        invariant
            a <= b <= n,
            n == s@.len(),
            forall|k: int| b <= k < n ==> is_space(#[trigger] s@[k]),
        decreases b,
    {
        b = b - 1;
    }
    proof {
        lemma_trim_start_skip(s@, a as int);
        let t = s@.subrange(a as int, n as int);
        assert(trim_start(t) == t);
        assert forall|k: int| b - a <= k < t.len() implies is_space(#[trigger] t[k]) by {
            assert(t[k] == s@[a + k]);
        }
        lemma_trim_end_cut(t, b - a);
        assert(t.subrange(0, b - a) =~= s@.subrange(a as int, b as int));
    }
    s.substring_char(a, b)
}

pub fn is_space_char(c: char) -> (r: bool)
    ensures
        r == is_space(c),
{
    let u = c as u32;
    (0x09 <= u && u <= 0x0D) || u == 0x20 || u == 0x85 || u == 0xA0 || u == 0x1680 || (0x2000 <= u
        && u <= 0x200A) || u == 0x2028 || u == 0x2029 || u == 0x202F || u == 0x205F || u == 0x3000
}

/// Exec counterpart of [`occurs_at`].
pub fn occurs_at_str(s: &str, p: &str, i: usize) -> (r: bool)
    ensures
        r == occurs_at(s@, p@, i as int),
{
    let n = s.unicode_len();
    let m = p.unicode_len();
    if m > n || i > n - m {
        return false;
    }
    let mut j: usize = 0;
    while j < m
        invariant
            n == s@.len(),
            m == p@.len(),
            i + m <= n,
            0 <= j <= m,
            forall|k: int| 0 <= k < j ==> s@[i + k] == p@[k],
        decreases m - j,
    {
        if s.get_char(i + j) != p.get_char(j) {
            assert(s@.subrange(i as int, i + m)[j as int] != p@[j as int]);
            return false;
        }
        j = j + 1;
    }
    assert(s@.subrange(i as int, i + m) =~= p@);
    true
}

pub fn starts_with_str(s: &str, p: &str) -> (r: bool)
    ensures
        r == starts_with(s@, p@),
{
    occurs_at_str(s, p, 0)
}

pub fn ends_with_str(s: &str, p: &str) -> (r: bool)
    ensures
        r == ends_with(s@, p@),
{
    let n = s.unicode_len();
    let m = p.unicode_len();
    if m > n {
        return false;
    }
    occurs_at_str(s, p, n - m)
}

/// Exec counterpart of [`find`].
pub fn find_str(s: &str, p: &str) -> (r: Option<usize>)
    ensures
        r matches Some(i) ==> find(s@, p@) == Some(i as int),
        r is None ==> find(s@, p@) is None,
{
    let n = s.unicode_len();
    let m = p.unicode_len();
    if m > n {
        return None;
    }
    let mut i: usize = 0;
    loop
        invariant
            n == s@.len(),
            m == p@.len(),
            m <= n,
            0 <= i <= n - m,
            find(s@, p@) == find_from(s@, p@, i as int),
        decreases n - m - i,
    {
        if occurs_at_str(s, p, i) {
            return Some(i);
        }
        if i == n - m {
            assert(find_from(s@, p@, i + 1) is None);
            return None;
        }
        i = i + 1;
    }
}

fn expansion_str(c: char) -> (r: Option<&'static str>)
    ensures
        match expansion(c) {
            Some(x) => r matches Some(t) && t@ == x,
            None => r is None,
        },
{
    proof {
        reveal_strlit("SS");
        reveal_strlit("FF");
        reveal_strlit("FI");
        reveal_strlit("FL");
        reveal_strlit("FFI");
        reveal_strlit("FFL");
        reveal_strlit("ST");
        assert("SS"@ =~= seq!['S', 'S']);
        assert("FF"@ =~= seq!['F', 'F']);
        assert("FI"@ =~= seq!['F', 'I']);
        assert("FL"@ =~= seq!['F', 'L']);
        assert("FFI"@ =~= seq!['F', 'F', 'I']);
        assert("FFL"@ =~= seq!['F', 'F', 'L']);
        assert("ST"@ =~= seq!['S', 'T']);
    }
    if c == '\u{DF}' {
        Some("SS")
    } else if c == '\u{FB00}' {
        Some("FF")
    } else if c == '\u{FB01}' {
        Some("FI")
    } else if c == '\u{FB02}' {
        Some("FL")
    } else if c == '\u{FB03}' {
        Some("FFI")
    } else if c == '\u{FB04}' {
        Some("FFL")
    } else if c == '\u{FB05}' || c == '\u{FB06}' {
        Some("ST")
    } else {
        None
    }
}

fn ci_eq_char(x: char, y: char) -> (r: bool)
    ensures
        r == ci_eq(x, y),
{
    x == y || ('a' <= x && x <= 'z' && x as u32 == y as u32 + 32) || ('a' <= y && y <= 'z' && y as u32
        == x as u32 + 32) || (x == '\u{131}' && (y == 'I' || y == 'i')) || (y == '\u{131}' && (x
        == 'I' || x == 'i')) || (x == '\u{17F}' && (y == 'S' || y == 's')) || (y == '\u{17F}' && (x
        == 'S' || x == 's'))
}

/// Exec counterpart of [`eq_ci`].
pub fn eq_ci_str(a: &str, b: &str) -> (r: bool)
    ensures
        r == eq_ci(a@, b@),
{
    let n = a.unicode_len();
    let m = b.unicode_len();
    let mut i: usize = 0;
    let mut j: usize = 0;
    assert(a@.subrange(0, n as int) =~= a@);
    assert(b@.subrange(0, m as int) =~= b@);
    loop
        invariant
            n == a@.len(),
            m == b@.len(),
            0 <= i <= n,
            0 <= j <= m,
            eq_ci(a@, b@) == eq_ci(a@.subrange(i as int, n as int), b@.subrange(j as int, m as int)),
        decreases n - i,
    {
        let ghost ra = a@.subrange(i as int, n as int);
        let ghost rb = b@.subrange(j as int, m as int);
        if i == n {
            return j == m;
        }
        let c = a.get_char(i);
        assert(ra[0] == c);
        assert(ra.drop_first() =~= a@.subrange(i + 1, n as int));
        match expansion_str(c) {
            Some(x) => {
                let xl = x.unicode_len();
                if m - j < xl {
                    return false;
                }
                if !occurs_at_str(b, x, j) {
                    assert(rb.subrange(0, xl as int) =~= b@.subrange(j as int, j + xl));
                    return false;
                }
                assert(rb.subrange(0, xl as int) =~= b@.subrange(j as int, j + xl));
                assert(rb.subrange(xl as int, rb.len() as int) =~= b@.subrange(j + xl, m as int));
                j = j + xl;
            },
            None => {
                if j == m {
                    return false;
                }
                let d = b.get_char(j);
                assert(rb[0] == d);
                if !ci_eq_char(c, d) {
                    return false;
                }
                assert(rb.drop_first() =~= b@.subrange(j + 1, m as int));
                j = j + 1;
            },
        }
        i = i + 1;
    }
}

/// Exec counterpart of [`trim_char`].
pub fn trim_char_str(s: &str, c: char) -> (r: &str)
    ensures
        r@ == trim_char(s@, c),
{
    let n = s.unicode_len();
    let mut a: usize = 0;
    proof {
        assert(s@.subrange(0, n as int) =~= s@);
    }
    while a < n && s.get_char(a) == c
        invariant
            0 <= a <= n,
            n == s@.len(),
            trim_char_start(s@, c) == trim_char_start(s@.subrange(a as int, n as int), c),
        decreases n - a,
    {
        proof {
            let t = s@.subrange(a as int, n as int);
            assert(t.drop_first() =~= s@.subrange(a + 1, n as int));
        }
        a = a + 1;
    }
    let ghost t = s@.subrange(a as int, n as int);
    let mut b: usize = n;
    while b > a && s.get_char(b - 1) == c
        invariant
            a <= b <= n,
            n == s@.len(),
            t == s@.subrange(a as int, n as int),
            trim_char_end(t, c) == trim_char_end(s@.subrange(a as int, b as int), c),
        decreases b,
    {
        proof {
            let u = s@.subrange(a as int, b as int);
            assert(u.drop_last() =~= s@.subrange(a as int, b - 1));
        }
        b = b - 1;
    }
    proof {
        assert(trim_char_start(t, c) == t);
    }
    s.substring_char(a, b)
}

/// Equality of two string slices, character by character.
pub fn str_eq(a: &str, b: &str) -> (r: bool)
    ensures
        r == (a@ == b@),
{
    let n = a.unicode_len();
    if n != b.unicode_len() {
        return false;
    }
    let mut i: usize = 0;
    while i < n
        invariant
            n == a@.len(),
            n == b@.len(),
            0 <= i <= n,
            forall|k: int| 0 <= k < i ==> a@[k] == b@[k],
        decreases n - i,
    {
        if a.get_char(i) != b.get_char(i) {
            return false;
        }
        i = i + 1;
    }
    assert(a@ =~= b@);
    true
}

} // verus!
