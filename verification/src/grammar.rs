//! The line grammar, stated at the specification level.
//!
//! Each rule of the notation (class declaration, parent link, interface
//! link, method, field, parameter) is a recognizer over a `Seq<char>`.
//! A recognizer looks for the leftmost position at which its shape
//! matches and yields the captured pieces of text.  The executable
//! matchers in `patterns` are verified against these functions.

use vstd::prelude::*;
use crate::text::{
    is_word_char, is_ident_start_char, is_space_char, is_glyph_char, is_mtype_char, word_run_end,
    space_run_end, mtype_run_end, find_char, lemma_find_char, trim_spec, lex_lt,
};

verus! {

pub open spec fn kw_class() -> Seq<char> {
    seq!['c', 'l', 'a', 's', 's', ' ']
}

pub open spec fn kw_extends() -> Seq<char> {
    seq!['e', 'x', 't', 'e', 'n', 'd', 's']
}

pub open spec fn kw_implements() -> Seq<char> {
    seq!['i', 'm', 'p', 'l', 'e', 'm', 'e', 'n', 't', 's']
}

/// `kw` occurs in `s` starting at position `i`.
pub open spec fn has_seq_at(s: Seq<char>, i: int, kw: Seq<char>) -> bool {
    0 <= i && i + kw.len() <= s.len() && forall|k: int| 0 <= k < kw.len() ==> s[i + k] == kw[k]
}

/// A class declaration matching at `i`: the literal `class `, then a
/// word; the captured name is the maximal word run.
pub open spec fn class_name_at(s: Seq<char>, i: int) -> Option<Seq<char>> {
    if has_seq_at(s, i, kw_class()) && i + 6 < s.len() && is_word_char(s[i + 6]) {
        Some(s.subrange(i + 6, word_run_end(s, i + 6)))
    } else {
        None
    }
}

pub open spec fn find_class(s: Seq<char>, i: int) -> Option<Seq<char>>
    decreases s.len() - i,
{
    if i < 0 || i >= s.len() {
        None
    } else if class_name_at(s, i) is Some {
        class_name_at(s, i)
    } else {
        find_class(s, i + 1)
    }
}

/// The class rule applied to a whole line: leftmost match wins.
pub open spec fn match_class(s: Seq<char>) -> Option<Seq<char>> {
    find_class(s, 0)
}

/// A parent or interface link matching at `i`: the keyword, at least one
/// whitespace character, then an identifier; an optional `<...>` suffix
/// is taken into the capture.
pub open spec fn link_name_at(s: Seq<char>, i: int, kw: Seq<char>) -> Option<Seq<char>> {
    if has_seq_at(s, i, kw) {
        let j = i + kw.len();
        if j < s.len() && is_space_char(s[j]) {
            let k = space_run_end(s, j);
            if k < s.len() && is_ident_start_char(s[k]) {
                let m = word_run_end(s, k);
                if m < s.len() && s[m] == '<' && find_char(s, m + 1, '>') < s.len() {
                    Some(s.subrange(k, find_char(s, m + 1, '>') + 1))
                } else {
                    Some(s.subrange(k, m))
                }
            } else {
                None
            }
        } else {
            None
        }
    } else {
        None
    }
}

pub open spec fn find_link(s: Seq<char>, i: int, kw: Seq<char>) -> Option<Seq<char>>
    decreases s.len() - i,
{
    if i < 0 || i >= s.len() {
        None
    } else if link_name_at(s, i, kw) is Some {
        link_name_at(s, i, kw)
    } else {
        find_link(s, i + 1, kw)
    }
}

pub open spec fn match_extends(s: Seq<char>) -> Option<Seq<char>> {
    find_link(s, 0, kw_extends())
}

pub open spec fn match_implements(s: Seq<char>) -> Option<Seq<char>> {
    find_link(s, 0, kw_implements())
}

/// The pieces captured by the method rule: the member name, the return
/// type, and the raw text between the parentheses.
#[verifier::ext_equal]
pub ghost struct MethodCaps {
    pub name: Seq<char>,
    pub ret: Seq<char>,
    pub raw_params: Seq<char>,
}

/// A method matching at `i`: a glyph, optional whitespace, the member
/// name (word characters plus `<>[]`), optional whitespace, `:`,
/// optional whitespace, the return type (word characters), optional
/// whitespace, then `(` raw parameters `)`.
pub open spec fn method_at(s: Seq<char>, i: int) -> Option<MethodCaps> {
    if 0 <= i && i < s.len() && is_glyph_char(s[i]) {
        let j = space_run_end(s, i + 1);
        let te = mtype_run_end(s, j);
        if te > j {
            let k = space_run_end(s, te);
            if k < s.len() && s[k] == ':' {
                let j2 = space_run_end(s, k + 1);
                let ne = word_run_end(s, j2);
                if ne > j2 {
                    let k2 = space_run_end(s, ne);
                    if k2 < s.len() && s[k2] == '(' {
                        let pe = find_char(s, k2 + 1, ')');
                        if pe < s.len() {
                            Some(
                                MethodCaps {
                                    name: s.subrange(j, te),
                                    ret: s.subrange(j2, ne),
                                    raw_params: s.subrange(k2 + 1, pe),
                                },
                            )
                        } else {
                            None
                        }
                    } else {
                        None
                    }
                } else {
                    None
                }
            } else {
                None
            }
        } else {
            None
        }
    } else {
        None
    }
}

pub open spec fn find_method(s: Seq<char>, i: int) -> Option<MethodCaps>
    decreases s.len() - i,
{
    if i < 0 || i >= s.len() {
        None
    } else if method_at(s, i) is Some {
        method_at(s, i)
    } else {
        find_method(s, i + 1)
    }
}

pub open spec fn match_method(s: Seq<char>) -> Option<MethodCaps> {
    find_method(s, 0)
}

/// A field matching at `i`: a glyph, one space, the type (a word), one
/// space, the field name (a word).  The captures are `(type, name)`.
pub open spec fn field_at(s: Seq<char>, i: int) -> Option<(Seq<char>, Seq<char>)> {
    if 0 <= i && i + 2 < s.len() && is_glyph_char(s[i]) && s[i + 1] == ' ' && is_word_char(
        s[i + 2],
    ) {
        let te = word_run_end(s, i + 2);
        if te < s.len() && s[te] == ' ' && te + 1 < s.len() && is_word_char(s[te + 1]) {
            Some((s.subrange(i + 2, te), s.subrange(te + 1, word_run_end(s, te + 1))))
        } else {
            None
        }
    } else {
        None
    }
}

pub open spec fn find_field(s: Seq<char>, i: int) -> Option<(Seq<char>, Seq<char>)>
    decreases s.len() - i,
{
    if i < 0 || i >= s.len() {
        None
    } else if field_at(s, i) is Some {
        field_at(s, i)
    } else {
        find_field(s, i + 1)
    }
}

pub open spec fn match_field(s: Seq<char>) -> Option<(Seq<char>, Seq<char>)> {
    find_field(s, 0)
}

/// A parameter matching at `i` of a comma-split segment: a word, one
/// space, a word.  The captures are `(type, name)`.
pub open spec fn param_at(s: Seq<char>, i: int) -> Option<(Seq<char>, Seq<char>)> {
    if 0 <= i && i < s.len() && is_word_char(s[i]) {
        let te = word_run_end(s, i);
        if te < s.len() && s[te] == ' ' && te + 1 < s.len() && is_word_char(s[te + 1]) {
            Some((s.subrange(i, te), s.subrange(te + 1, word_run_end(s, te + 1))))
        } else {
            None
        }
    } else {
        None
    }
}

pub open spec fn find_param(s: Seq<char>, i: int) -> Option<(Seq<char>, Seq<char>)>
    decreases s.len() - i,
{
    if i < 0 || i >= s.len() {
        None
    } else if param_at(s, i) is Some {
        param_at(s, i)
    } else {
        find_param(s, i + 1)
    }
}

pub open spec fn match_param(s: Seq<char>) -> Option<(Seq<char>, Seq<char>)> {
    find_param(s, 0)
}

/// The line holds at least one access glyph somewhere.
pub open spec fn has_glyph(s: Seq<char>) -> bool {
    exists|i: int| 0 <= i < s.len() && is_glyph_char(s[i])
}

/// Insert a parameter into a list of `(name, type)` pairs that is
/// strictly sorted by name: a pair with the same name is replaced, so
/// the latest binding wins.
pub open spec fn insert_param(
    ps: Seq<(Seq<char>, Seq<char>)>,
    name: Seq<char>,
    ty: Seq<char>,
) -> Seq<(Seq<char>, Seq<char>)>
    decreases ps.len(),
{
    if ps.len() == 0 {
        seq![(name, ty)]
    } else if lex_lt(name, ps[0].0) {
        seq![(name, ty)] + ps
    } else if name == ps[0].0 {
        seq![(name, ty)] + ps.drop_first()
    } else {
        seq![ps[0]] + insert_param(ps.drop_first(), name, ty)
    }
}

/// Inserting a parameter whose name is above the first `j` names of a
/// sorted list leaves that prefix in place.
pub proof fn lemma_insert_param_skip(
    ps: Seq<(Seq<char>, Seq<char>)>,
    name: Seq<char>,
    ty: Seq<char>,
    j: int,
)
    requires
        0 <= j <= ps.len(),
        forall|k: int| 0 <= k < j ==> lex_lt(#[trigger] ps[k].0, name),
    ensures
        insert_param(ps, name, ty) == ps.take(j) + insert_param(ps.skip(j), name, ty),
    decreases j,
{
    if j == 0 {
        assert(ps.skip(0) =~= ps);
        assert(ps.take(0) + insert_param(ps.skip(0), name, ty) =~= insert_param(ps, name, ty));
    } else {
        crate::text::lemma_lex_asym(ps[0].0, name);
        assert(insert_param(ps, name, ty) == seq![ps[0]] + insert_param(
            ps.drop_first(),
            name,
            ty,
        ));
        let t = ps.drop_first();
        assert(forall|k: int| 0 <= k < j - 1 ==> lex_lt(#[trigger] t[k].0, name));
        lemma_insert_param_skip(t, name, ty, j - 1);
        assert(t.skip(j - 1) =~= ps.skip(j));
        assert(seq![ps[0]] + (t.take(j - 1) + insert_param(ps.skip(j), name, ty)) =~= ps.take(j)
            + insert_param(ps.skip(j), name, ty));
    }
}

/// A parameter list is an ordered mapping: strictly sorted by name, so
/// no name appears twice.
pub open spec fn params_sorted(ps: Seq<(Seq<char>, Seq<char>)>) -> bool {
    forall|i: int, j: int| 0 <= i < j < ps.len() ==> lex_lt(ps[i].0, ps[j].0)
}

/// Every pair of an insertion result is the inserted pair or one of the
/// old pairs.
proof fn lemma_insert_param_elems(
    ps: Seq<(Seq<char>, Seq<char>)>,
    name: Seq<char>,
    ty: Seq<char>,
)
    ensures
        forall|k: int|
            0 <= k < insert_param(ps, name, ty).len() ==> (#[trigger] insert_param(
                ps,
                name,
                ty,
            )[k]) == (name, ty) || ps.contains(insert_param(ps, name, ty)[k]),
    decreases ps.len(),
{
    let r = insert_param(ps, name, ty);
    if ps.len() == 0 {
    } else if lex_lt(name, ps[0].0) {
        assert forall|k: int| 0 <= k < r.len() implies (#[trigger] r[k]) == (name, ty)
            || ps.contains(r[k]) by {
            if k > 0 {
                assert(r[k] == ps[k - 1]);
            }
        }
    } else if name == ps[0].0 {
        assert forall|k: int| 0 <= k < r.len() implies (#[trigger] r[k]) == (name, ty)
            || ps.contains(r[k]) by {
            if k > 0 {
                assert(r[k] == ps.drop_first()[k - 1]);
                assert(ps.drop_first()[k - 1] == ps[k]);
            }
        }
    } else {
        lemma_insert_param_elems(ps.drop_first(), name, ty);
        let t = insert_param(ps.drop_first(), name, ty);
        assert forall|k: int| 0 <= k < r.len() implies (#[trigger] r[k]) == (name, ty)
            || ps.contains(r[k]) by {
            if k == 0 {
                assert(r[0] == ps[0]);
                assert(ps.contains(ps[0]));
            } else {
                assert(r[k] == t[k - 1]);
                if t[k - 1] != (name, ty) {
                    assert(ps.drop_first().contains(t[k - 1]));
                    let w = choose|w: int|
                        0 <= w < ps.drop_first().len() && ps.drop_first()[w] == t[k - 1];
                    assert(ps[w + 1] == t[k - 1]);
                }
            }
        }
    }
}

/// Insertion keeps the mapping sorted.
pub proof fn lemma_insert_param_sorted(
    ps: Seq<(Seq<char>, Seq<char>)>,
    name: Seq<char>,
    ty: Seq<char>,
)
    requires
        params_sorted(ps),
    ensures
        params_sorted(insert_param(ps, name, ty)),
    decreases ps.len(),
{
    let r = insert_param(ps, name, ty);
    if ps.len() == 0 {
    } else if lex_lt(name, ps[0].0) {
        assert forall|i: int, j: int| 0 <= i < j < r.len() implies lex_lt(r[i].0, r[j].0) by {
            if i == 0 {
                assert(r[j] == ps[j - 1]);
                if j > 1 {
                    crate::text::lemma_lex_trans(name, ps[0].0, ps[j - 1].0);
                }
            } else {
                assert(r[i] == ps[i - 1]);
                assert(r[j] == ps[j - 1]);
            }
        }
    } else if name == ps[0].0 {
        assert forall|i: int, j: int| 0 <= i < j < r.len() implies lex_lt(r[i].0, r[j].0) by {
            if i == 0 {
                assert(r[j] == ps.drop_first()[j - 1]);
                assert(ps.drop_first()[j - 1] == ps[j]);
            } else {
                assert(r[i] == ps[i]);
                assert(r[j] == ps[j]);
            }
        }
    } else {
        crate::text::lemma_lex_trichotomy(name, ps[0].0);
        assert(forall|i: int, j: int|
            0 <= i < j < ps.drop_first().len() ==> lex_lt(
                #[trigger] ps.drop_first()[i].0,
                #[trigger] ps.drop_first()[j].0,
            ));
        lemma_insert_param_sorted(ps.drop_first(), name, ty);
        lemma_insert_param_elems(ps.drop_first(), name, ty);
        let t = insert_param(ps.drop_first(), name, ty);
        assert forall|i: int, j: int| 0 <= i < j < r.len() implies lex_lt(r[i].0, r[j].0) by {
            if i == 0 {
                assert(r[0] == ps[0]);
                assert(r[j] == t[j - 1]);
                if t[j - 1] == (name, ty) {
                    assert(lex_lt(ps[0].0, name));
                } else {
                    assert(ps.drop_first().contains(t[j - 1]));
                    let w = choose|w: int|
                        0 <= w < ps.drop_first().len() && ps.drop_first()[w] == t[j - 1];
                    assert(ps[w + 1] == t[j - 1]);
                    assert(lex_lt(ps[0].0, ps[w + 1].0));
                }
            } else {
                assert(r[i] == t[i - 1]);
                assert(r[j] == t[j - 1]);
            }
        }
    }
}

proof fn lemma_params_scan_sorted(s: Seq<char>, i: int, acc: Seq<(Seq<char>, Seq<char>)>)
    requires
        params_sorted(acc),
    ensures
        params_sorted(params_scan(s, i, acc)),
    decreases s.len() - i,
{
    if 0 <= i <= s.len() {
        lemma_find_char(s, i, ',');
        let c = find_char(s, i, ',');
        let seg = s.subrange(i, c);
        let acc2 = match find_param(trim_spec(seg), 0) {
            Some(p) => insert_param(acc, p.1, p.0),
            None => acc,
        };
        match find_param(trim_spec(seg), 0) {
            Some(p) => {
                lemma_insert_param_sorted(acc, p.1, p.0);
            },
            None => {},
        }
        if c < s.len() {
            lemma_params_scan_sorted(s, c + 1, acc2);
        }
    }
}

/// A method's parameter mapping is ordered: whatever the raw text, the
/// scanned pairs are strictly sorted by parameter name, so each name
/// binds at most one type.
pub proof fn lemma_params_of_sorted(raw: Seq<char>)
    ensures
        params_sorted(params_of(raw)),
{
    lemma_params_scan_sorted(raw, 0, seq![]);
}

/// The parameter mapping collected from the raw parameter text at and
/// after position `i`, on top of the pairs in `acc`: the text is split
/// on commas, each segment is trimmed and matched against the parameter
/// rule, and matching segments contribute their `(name, type)` pair,
/// left to right.
pub open spec fn params_scan(
    s: Seq<char>,
    i: int,
    acc: Seq<(Seq<char>, Seq<char>)>,
) -> Seq<(Seq<char>, Seq<char>)>
    decreases s.len() - i,
    via params_scan_decreases
{
    if !(0 <= i <= s.len()) {
        acc
    } else {
        let c = find_char(s, i, ',');
        let seg = s.subrange(i, c);
        let acc2 = match find_param(trim_spec(seg), 0) {
            Some(p) => insert_param(acc, p.1, p.0),
            None => acc,
        };
        if c >= s.len() {
            acc2
        } else {
            params_scan(s, c + 1, acc2)
        }
    }
}

#[via_fn]
proof fn params_scan_decreases(s: Seq<char>, i: int, acc: Seq<(Seq<char>, Seq<char>)>) {
    if 0 <= i <= s.len() {
        lemma_find_char(s, i, ',');
    }
}

/// The ordered parameter mapping of a raw parameter text.
pub open spec fn params_of(raw: Seq<char>) -> Seq<(Seq<char>, Seq<char>)> {
    params_scan(raw, 0, seq![])
}

} // verus!
