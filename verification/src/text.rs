//! Character classes and elementary text scanning used by the line grammar.
//!
//! All scanning is done over `&str` values through the character-indexed
//! operations of `vstd`, so every helper here is verified against a view
//! of the text as a `Seq<char>`.

use vstd::prelude::*;

verus! {

/// Word characters: ASCII letters, digits and underscore.
pub open spec fn is_word_char(c: char) -> bool {
    ('a' as u32) <= (c as u32) && (c as u32) <= ('z' as u32)
        || ('A' as u32) <= (c as u32) && (c as u32) <= ('Z' as u32)
        || ('0' as u32) <= (c as u32) && (c as u32) <= ('9' as u32)
        || c == '_'
}

/// Characters a word may start with: ASCII letters and underscore.
pub open spec fn is_ident_start_char(c: char) -> bool {
    ('a' as u32) <= (c as u32) && (c as u32) <= ('z' as u32)
        || ('A' as u32) <= (c as u32) && (c as u32) <= ('Z' as u32)
        || c == '_'
}

/// ASCII whitespace.
pub open spec fn is_space_char(c: char) -> bool {
    c == ' ' || c == '\t' || c == '\n' || c == '\r' || c == '\u{000B}' || c == '\u{000C}'
}

/// The three member-access glyphs of the notation.
pub open spec fn is_glyph_char(c: char) -> bool {
    c == '+' || c == '-' || c == '#'
}

/// Characters allowed in the first capture of a method line: word
/// characters plus angle brackets and square brackets.
pub open spec fn is_mtype_char(c: char) -> bool {
    is_word_char(c) || c == '<' || c == '>' || c == '[' || c == ']'
}

pub fn word_char(c: char) -> (r: bool)
    ensures
        r == is_word_char(c),
{
    let u = c as u32;
    ('a' as u32) <= u && u <= ('z' as u32) || ('A' as u32) <= u && u <= ('Z' as u32) || ('0' as u32)
        <= u && u <= ('9' as u32) || c == '_'
}

pub fn ident_start_char(c: char) -> (r: bool)
    ensures
        r == is_ident_start_char(c),
{
    let u = c as u32;
    ('a' as u32) <= u && u <= ('z' as u32) || ('A' as u32) <= u && u <= ('Z' as u32) || c == '_'
}

pub fn space_char(c: char) -> (r: bool)
    ensures
        r == is_space_char(c),
{
    c == ' ' || c == '\t' || c == '\n' || c == '\r' || c == '\u{000B}' || c == '\u{000C}'
}

pub fn glyph_char(c: char) -> (r: bool)
    ensures
        r == is_glyph_char(c),
{
    c == '+' || c == '-' || c == '#'
}

pub fn mtype_char(c: char) -> (r: bool)
    ensures
        r == is_mtype_char(c),
{
    word_char(c) || c == '<' || c == '>' || c == '[' || c == ']'
}

/// End of the run of characters satisfying `p` that starts at `i`:
/// the first position at or after `i` whose character fails `p`.
pub open spec fn run_end(s: Seq<char>, i: int, p: spec_fn(char) -> bool) -> int
    decreases s.len() - i,
{
    if i < 0 || i >= s.len() || !p(s[i]) {
        i
    } else {
        run_end(s, i + 1, p)
    }
}

pub proof fn lemma_run_end(s: Seq<char>, i: int, p: spec_fn(char) -> bool)
    requires
        0 <= i <= s.len(),
    ensures
        i <= run_end(s, i, p) <= s.len(),
        forall|k: int| i <= k < run_end(s, i, p) ==> p(s[k]),
        run_end(s, i, p) < s.len() ==> !p(s[run_end(s, i, p)]),
    decreases s.len() - i,
{
    if i < s.len() && p(s[i]) {
        lemma_run_end(s, i + 1, p);
    }
}

pub open spec fn word_run_end(s: Seq<char>, i: int) -> int {
    run_end(s, i, |c: char| is_word_char(c))
}

pub open spec fn space_run_end(s: Seq<char>, i: int) -> int {
    run_end(s, i, |c: char| is_space_char(c))
}

pub open spec fn mtype_run_end(s: Seq<char>, i: int) -> int {
    run_end(s, i, |c: char| is_mtype_char(c))
}

/// First position at or after `i` holding character `c`, or the length
/// of `s` if there is none.
pub open spec fn find_char(s: Seq<char>, i: int, c: char) -> int
    decreases s.len() - i,
{
    if i < 0 || i >= s.len() {
        s.len() as int
    } else if s[i] == c {
        i
    } else {
        find_char(s, i + 1, c)
    }
}

pub proof fn lemma_find_char(s: Seq<char>, i: int, c: char)
    requires
        0 <= i <= s.len(),
    ensures
        i <= find_char(s, i, c) <= s.len(),
        forall|k: int| i <= k < find_char(s, i, c) ==> s[k] != c,
        find_char(s, i, c) < s.len() ==> s[find_char(s, i, c)] == c,
    decreases s.len() - i,
{
    if i < s.len() && s[i] != c {
        lemma_find_char(s, i + 1, c);
    }
}

pub fn word_run_end_exec(s: &str, n: usize, i: usize) -> (r: usize)
    requires
        n == s@.len(),
        i <= n,
    ensures
        r == word_run_end(s@, i as int),
        i <= r <= n,
{
    let mut cur: usize = i;
    while cur < n && word_char(s.get_char(cur))
        invariant
            i <= cur <= n,
            n == s@.len(),
            word_run_end(s@, i as int) == word_run_end(s@, cur as int),
        decreases n - cur,
    {
        cur = cur + 1;
    }
    cur
}

pub fn space_run_end_exec(s: &str, n: usize, i: usize) -> (r: usize)
    requires
        n == s@.len(),
        i <= n,
    ensures
        r == space_run_end(s@, i as int),
        i <= r <= n,
{
    let mut cur: usize = i;
    while cur < n && space_char(s.get_char(cur))
        invariant
            i <= cur <= n,
            n == s@.len(),
            space_run_end(s@, i as int) == space_run_end(s@, cur as int),
        decreases n - cur,
    {
        cur = cur + 1;
    }
    cur
}

pub fn mtype_run_end_exec(s: &str, n: usize, i: usize) -> (r: usize)
    requires
        n == s@.len(),
        i <= n,
    ensures
        r == mtype_run_end(s@, i as int),
        i <= r <= n,
{
    let mut cur: usize = i;
    while cur < n && mtype_char(s.get_char(cur))
        invariant
            i <= cur <= n,
            n == s@.len(),
            mtype_run_end(s@, i as int) == mtype_run_end(s@, cur as int),
        decreases n - cur,
    {
        cur = cur + 1;
    }
    cur
}

pub fn find_char_exec(s: &str, n: usize, i: usize, c: char) -> (r: usize)
    requires
        n == s@.len(),
        i <= n,
    ensures
        r == find_char(s@, i as int, c),
        i <= r <= n,
{
    proof {
        lemma_find_char(s@, i as int, c);
    }
    let mut cur: usize = i;
    while cur < n && s.get_char(cur) != c
        invariant
            i <= cur <= n,
            n == s@.len(),
            find_char(s@, i as int, c) == find_char(s@, cur as int, c),
        decreases n - cur,
    {
        cur = cur + 1;
    }
    cur
}

/// Last position in `s` before `j` that ends the trailing run of
/// whitespace: the least `r` such that everything from `r` on (below `j`)
/// is whitespace.
pub open spec fn rtrim_idx(s: Seq<char>, j: int) -> int
    decreases j,
{
    if j <= 0 {
        0
    } else if !is_space_char(s[j - 1]) {
        j
    } else {
        rtrim_idx(s, j - 1)
    }
}

pub proof fn lemma_rtrim_idx(s: Seq<char>, j: int)
    requires
        0 <= j <= s.len(),
    ensures
        0 <= rtrim_idx(s, j) <= j,
        forall|k: int| rtrim_idx(s, j) <= k < j ==> is_space_char(s[k]),
        rtrim_idx(s, j) > 0 ==> !is_space_char(s[rtrim_idx(s, j) - 1]),
    decreases j,
{
    if j > 0 && is_space_char(s[j - 1]) {
        lemma_rtrim_idx(s, j - 1);
    }
}

pub proof fn lemma_rtrim_above(s: Seq<char>, a: int, j: int)
    requires
        0 <= a < j <= s.len(),
        !is_space_char(s[a]),
    ensures
        rtrim_idx(s, j) > a,
    decreases j,
{
    if j - 1 > a && is_space_char(s[j - 1]) {
        lemma_rtrim_above(s, a, j - 1);
    }
}

/// The line with leading and trailing whitespace removed.
pub open spec fn trim_spec(s: Seq<char>) -> Seq<char> {
    let a = space_run_end(s, 0);
    if a == s.len() {
        Seq::empty()
    } else {
        s.subrange(a, rtrim_idx(s, s.len() as int))
    }
}

pub fn trim_exec<'a>(s: &'a str) -> (r: &'a str)
    ensures
        r@ == trim_spec(s@),
{
    let n = s.unicode_len();
    let a = space_run_end_exec(s, n, 0);
    if a == n {
        let e = s.substring_char(0, 0);
        assert(e@ =~= trim_spec(s@));
        e
    } else {
        proof {
            lemma_run_end(s@, 0, |c: char| is_space_char(c));
            lemma_rtrim_above(s@, a as int, n as int);
            lemma_rtrim_idx(s@, n as int);
        }
        let mut b: usize = n;
        while b > 0 && space_char(s.get_char(b - 1))
            invariant
                a < b <= n,
                n == s@.len(),
                !is_space_char(s@[a as int]),
                rtrim_idx(s@, n as int) == rtrim_idx(s@, b as int),
            decreases b,
        {
            proof {
                lemma_rtrim_above(s@, a as int, b as int);
            }
            b = b - 1;
        }
        s.substring_char(a, b)
    }
}

/// Whether two string slices hold the same characters.
pub fn str_eq(a: &str, b: &str) -> (r: bool)
    ensures
        r == (a@ == b@),
{
    let na = a.unicode_len();
    let nb = b.unicode_len();
    if na != nb {
        return false;
    }
    let mut i: usize = 0;
    while i < na
        invariant
            0 <= i <= na,
            na == a@.len(),
            na == b@.len(),
            forall|k: int| 0 <= k < i ==> a@[k] == b@[k],
        decreases na - i,
    {
        if a.get_char(i) != b.get_char(i) {
            return false;
        }
        i = i + 1;
    }
    proof {
        assert(a@ =~= b@);
    }
    true
}

/// Strict lexicographic order on character sequences, by code point.
pub open spec fn lex_lt(a: Seq<char>, b: Seq<char>) -> bool
    decreases a.len(),
{
    if b.len() == 0 {
        false
    } else if a.len() == 0 {
        true
    } else if a[0] < b[0] {
        true
    } else if a[0] == b[0] {
        lex_lt(a.drop_first(), b.drop_first())
    } else {
        false
    }
}

/// The order is total: two sequences that are not ordered either way
/// are equal.
pub proof fn lemma_lex_trichotomy(a: Seq<char>, b: Seq<char>)
    ensures
        lex_lt(a, b) || lex_lt(b, a) || a == b,
    decreases a.len(),
{
    if b.len() == 0 {
        if a.len() == 0 {
            assert(a =~= b);
        }
    } else if a.len() == 0 {
    } else if a[0] < b[0] {
    } else if b[0] < a[0] {
    } else {
        assert(a[0] == b[0]);
        lemma_lex_trichotomy(a.drop_first(), b.drop_first());
        if a.drop_first() == b.drop_first() {
            assert(a.drop_first().len() == a.len() - 1);
            assert(b.drop_first().len() == b.len() - 1);
            assert(a.len() == b.len());
            assert forall|k: int| 0 <= k < a.len() implies a[k] == b[k] by {
                if k > 0 {
                    assert(a[k] == a.drop_first()[k - 1]);
                    assert(b[k] == b.drop_first()[k - 1]);
                }
            }
            assert(a =~= b);
        }
    }
}

/// The order is transitive.
pub proof fn lemma_lex_trans(a: Seq<char>, b: Seq<char>, c: Seq<char>)
    requires
        lex_lt(a, b),
        lex_lt(b, c),
    ensures
        lex_lt(a, c),
    decreases a.len(),
{
    if a.len() > 0 && b.len() > 0 && c.len() > 0 {
        if a[0] == b[0] && b[0] == c[0] {
            lemma_lex_trans(a.drop_first(), b.drop_first(), c.drop_first());
        }
    }
}

/// The order is strict: it is asymmetric and irreflexive.
pub proof fn lemma_lex_asym(a: Seq<char>, b: Seq<char>)
    requires
        lex_lt(a, b),
    ensures
        !lex_lt(b, a),
        a != b,
    decreases a.len(),
{
    if b.len() > 0 && a.len() > 0 && !(a[0] < b[0]) && a[0] == b[0] {
        lemma_lex_asym(a.drop_first(), b.drop_first());
        if a == b {
            assert(a.drop_first() =~= b.drop_first());
        }
    } else if a.len() > 0 && b.len() > 0 && a[0] < b[0] {
        if a == b {
            assert(a[0] == b[0]);
        }
    }
}

pub fn str_lt(a: &str, b: &str) -> (r: bool)
    ensures
        r == lex_lt(a@, b@),
{
    let na = a.unicode_len();
    let nb = b.unicode_len();
    let mut i: usize = 0;
    assert(a@.skip(0) =~= a@);
    assert(b@.skip(0) =~= b@);
    loop
        invariant
            0 <= i <= na,
            i <= nb,
            na == a@.len(),
            nb == b@.len(),
            lex_lt(a@, b@) == lex_lt(a@.skip(i as int), b@.skip(i as int)),
        decreases na - i,
    {
        if i == nb {
            assert(b@.skip(i as int).len() == 0);
            return false;
        }
        if i == na {
            assert(a@.skip(i as int).len() == 0);
            return true;
        }
        let ca = a.get_char(i);
        let cb = b.get_char(i);
        assert(a@.skip(i as int)[0] == a@[i as int]);
        assert(b@.skip(i as int)[0] == b@[i as int]);
        if ca < cb {
            return true;
        }
        if ca != cb {
            return false;
        }
        assert(a@.skip(i as int).drop_first() =~= a@.skip(i + 1));
        assert(b@.skip(i as int).drop_first() =~= b@.skip(i + 1));
        i = i + 1;
    }
}

} // verus!
