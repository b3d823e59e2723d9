//! Properties of the scanner, stated and proved over the scan model.
//!
//! The scanner's per-line behaviour is pinned by the contracts in
//! `parser`; the facts here hold of whole scans: which keys the model
//! ends up with, that a scan is a function of its input alone, what a
//! redeclaration does, and that stray member lines leave no trace.

use vstd::prelude::*;
use crate::class::{ClassV, empty_class};
use crate::grammar::{
    class_name_at, find_class, has_glyph, lemma_params_of_sorted, match_class, match_extends,
    match_implements, match_method, params_sorted,
};
use crate::model::{
    ClassUpdate, EntryV, apply_update, class_of, has_name, set_parent_spec, set_interface_spec,
    route_method, update_first, upsert_class,
};
use crate::parser::{
    ScanState, field_fact, init_state, method_fact, scan_class_rule, scan_decls, scan_line,
    scan_lines, scan_links, scan_member, scan_model,
};
use crate::text::{is_word_char, lemma_run_end, trim_spec, word_run_end};

verus! {

/// Keys are unique and never empty.
pub open spec fn model_keys_wf(m: Seq<EntryV>) -> bool {
    &&& forall|i: int, j: int| 0 <= i < j < m.len() ==> m[i].name != m[j].name
    &&& forall|i: int| 0 <= i < m.len() ==> (#[trigger] m[i].name).len() > 0
}

/// Member sequences hold no structural duplicates, and every method's
/// parameters form an ordered mapping.
pub open spec fn class_members_wf(c: ClassV) -> bool {
    &&& forall|i: int, j: int| 0 <= i < j < c.fields.len() ==> c.fields[i] != c.fields[j]
    &&& forall|i: int, j: int| 0 <= i < j < c.methods.len() ==> c.methods[i] != c.methods[j]
    &&& forall|i: int| 0 <= i < c.methods.len() ==> params_sorted((#[trigger] c.methods[i]).params)
}

/// An added method carries an ordered parameter mapping.
pub open spec fn update_params_sorted(u: ClassUpdate) -> bool {
    match u {
        ClassUpdate::AddMethod(mv) => params_sorted(mv.params),
        _ => true,
    }
}

pub open spec fn model_wf(m: Seq<EntryV>) -> bool {
    model_keys_wf(m) && forall|i: int| 0 <= i < m.len() ==> class_members_wf(#[trigger] m[i].class)
}

/// The scanner's invariant: a well-formed model, and a current class
/// that names an entry whenever one is open.
pub open spec fn state_wf(st: ScanState) -> bool {
    model_wf(st.model) && (st.current.len() > 0 ==> has_name(st.model, st.current))
}

/// `update_first` keeps the length and every name.
pub proof fn lemma_update_first_shape(m: Seq<EntryV>, cur: Seq<char>, u: ClassUpdate)
    ensures
        update_first(m, cur, u).len() == m.len(),
        forall|i: int|
            0 <= i < m.len() ==> (#[trigger] update_first(m, cur, u)[i]).name == m[i].name,
        forall|i: int|
            0 <= i < m.len() ==> (#[trigger] update_first(m, cur, u)[i]).class == m[i].class
                || update_first(m, cur, u)[i].class == apply_update(m[i].class, u),
    decreases m.len(),
{
    if m.len() > 0 && m[0].name != cur {
        lemma_update_first_shape(m.drop_first(), cur, u);
        assert forall|i: int|
            0 <= i < m.len() implies (#[trigger] update_first(m, cur, u)[i]).name == m[i].name by {
            if i > 0 {
                assert(update_first(m, cur, u)[i] == update_first(m.drop_first(), cur, u)[i - 1]);
                assert(m.drop_first()[i - 1] == m[i]);
            }
        }
        assert forall|i: int|
            0 <= i < m.len() implies (#[trigger] update_first(m, cur, u)[i]).class == m[i].class
                || update_first(m, cur, u)[i].class == apply_update(m[i].class, u) by {
            if i > 0 {
                assert(update_first(m, cur, u)[i] == update_first(m.drop_first(), cur, u)[i - 1]);
                assert(m.drop_first()[i - 1] == m[i]);
            }
        }
    }
}

/// How `update_first` shows through `class_of`.
pub proof fn lemma_class_of_update(m: Seq<EntryV>, cur: Seq<char>, u: ClassUpdate, name: Seq<char>)
    ensures
        cur != name ==> class_of(update_first(m, cur, u), name) == class_of(m, name),
        cur == name && has_name(m, cur) ==> class_of(update_first(m, cur, u), name)
            == apply_update(class_of(m, name), u),
        !has_name(m, cur) ==> class_of(update_first(m, cur, u), name) == class_of(m, name),
    decreases m.len(),
{
    if m.len() == 0 {
    } else if m[0].name == cur {
        let r = update_first(m, cur, u);
        assert(r[0] == (EntryV { name: m[0].name, class: apply_update(m[0].class, u) }));
        assert(r.drop_first() =~= m.drop_first());
        if cur != name {
            assert(class_of(r, name) == class_of(r.drop_first(), name));
        }
    } else {
        let r = update_first(m, cur, u);
        assert(r[0] == m[0]);
        assert(r.drop_first() =~= update_first(m.drop_first(), cur, u));
        lemma_class_of_update(m.drop_first(), cur, u, name);
        assert(has_name(m, cur) ==> has_name(m.drop_first(), cur)) by {
            if has_name(m, cur) {
                let i = choose|i: int| 0 <= i < m.len() && m[i].name == cur;
                assert(m.drop_first()[i - 1] == m[i]);
            }
        }
        assert(has_name(m.drop_first(), cur) ==> has_name(m, cur)) by {
            if has_name(m.drop_first(), cur) {
                let i = choose|i: int|
                    0 <= i < m.drop_first().len() && m.drop_first()[i].name == cur;
                assert(m[i + 1] == m.drop_first()[i]);
            }
        }
    }
}

/// How a push shows through `class_of`.
pub proof fn lemma_class_of_push(m: Seq<EntryV>, e: EntryV, name: Seq<char>)
    ensures
        class_of(m.push(e), name) == (if has_name(m, name) {
            class_of(m, name)
        } else if e.name == name {
            e.class
        } else {
            class_of(m, name)
        }),
    decreases m.len(),
{
    if m.len() == 0 {
        assert(m.push(e)[0] == e);
        assert(m.push(e).drop_first() =~= Seq::<EntryV>::empty());
        assert(!has_name(m, name));
        if e.name == name {
            assert(class_of(m.push(e), name) == e.class);
        } else {
            assert(class_of(m.push(e), name) == class_of(m.push(e).drop_first(), name));
            assert(class_of(m.push(e), name) == empty_class());
            assert(class_of(m, name) == empty_class());
        }
    } else {
        assert(m.push(e)[0] == m[0]);
        assert(m.push(e).drop_first() =~= m.drop_first().push(e));
        lemma_class_of_push(m.drop_first(), e, name);
        if m[0].name == name {
            assert(has_name(m, name));
            assert(class_of(m.push(e), name) == m[0].class);
            assert(class_of(m, name) == m[0].class);
        } else {
            assert(has_name(m, name) ==> has_name(m.drop_first(), name)) by {
                if has_name(m, name) {
                    let i = choose|i: int| 0 <= i < m.len() && m[i].name == name;
                    assert(i > 0);
                    assert(m.drop_first()[i - 1] == m[i]);
                }
            }
            assert(has_name(m.drop_first(), name) ==> has_name(m, name)) by {
                if has_name(m.drop_first(), name) {
                    let i = choose|i: int|
                        0 <= i < m.drop_first().len() && m.drop_first()[i].name == name;
                    assert(m[i + 1] == m.drop_first()[i]);
                }
            }
            assert(class_of(m.push(e), name) == class_of(m.drop_first().push(e), name));
            assert(class_of(m, name) == class_of(m.drop_first(), name));
        }
    }
}

/// Which keys an update leaves: exactly the old ones.
pub proof fn lemma_has_name_update(m: Seq<EntryV>, cur: Seq<char>, u: ClassUpdate, name: Seq<char>)
    ensures
        has_name(update_first(m, cur, u), name) == has_name(m, name),
{
    lemma_update_first_shape(m, cur, u);
    let r = update_first(m, cur, u);
    if has_name(m, name) {
        let i = choose|i: int| 0 <= i < m.len() && m[i].name == name;
        assert(r[i].name == name);
    }
    if has_name(r, name) {
        let i = choose|i: int| 0 <= i < r.len() && r[i].name == name;
        assert(m[i].name == name);
    }
}

/// Which keys an upsert leaves: the old ones plus the declared name.
pub proof fn lemma_has_name_upsert(m: Seq<EntryV>, n2: Seq<char>, name: Seq<char>)
    ensures
        has_name(upsert_class(m, n2), name) == (has_name(m, name) || n2 == name),
{
    if has_name(m, n2) {
        lemma_has_name_update(m, n2, ClassUpdate::Reset, name);
    } else {
        let r = m.push(EntryV { name: n2, class: empty_class() });
        if has_name(m, name) {
            let i = choose|i: int| 0 <= i < m.len() && m[i].name == name;
            assert(r[i].name == name);
        }
        if n2 == name {
            assert(r[m.len() as int].name == name);
        }
        if has_name(r, name) && !has_name(m, name) && n2 != name {
            let i = choose|i: int| 0 <= i < r.len() && r[i].name == name;
            assert(false);
        }
    }
}

/// How an upsert shows through `class_of`: the declared name resets to
/// empty, every other name is untouched.
pub proof fn lemma_class_of_upsert(m: Seq<EntryV>, n2: Seq<char>, name: Seq<char>)
    ensures
        n2 == name ==> class_of(upsert_class(m, n2), name) == empty_class(),
        n2 != name ==> class_of(upsert_class(m, n2), name) == class_of(m, name),
{
    if has_name(m, n2) {
        lemma_class_of_update(m, n2, ClassUpdate::Reset, name);
        if n2 == name {
            assert(class_of(update_first(m, n2, ClassUpdate::Reset), name) == apply_update(
                class_of(m, name),
                ClassUpdate::Reset,
            ));
        }
    } else {
        lemma_class_of_push(m, EntryV { name: n2, class: empty_class() }, name);
        if n2 == name && has_name(m, name) {
            assert(false);
        }
    }
}


/// One update keeps the member sequences well-formed.
pub proof fn lemma_apply_update_members(c: ClassV, u: ClassUpdate)
    requires
        class_members_wf(c),
        update_params_sorted(u),
    ensures
        class_members_wf(apply_update(c, u)),
{
    match u {
        ClassUpdate::AddField(f) => {
            if !c.fields.contains(f) {
                let fs = c.fields.push(f);
                assert forall|i: int, j: int| 0 <= i < j < fs.len() implies fs[i] != fs[j] by {
                    if j == fs.len() - 1 {
                        assert(fs[j] == f);
                        assert(fs[i] == c.fields[i]);
                        if c.fields[i] == f {
                            assert(c.fields.contains(f));
                        }
                    } else {
                        assert(fs[i] == c.fields[i]);
                        assert(fs[j] == c.fields[j]);
                    }
                }
            }
        },
        ClassUpdate::AddMethod(mv) => {
            if !c.methods.contains(mv) {
                let ms = c.methods.push(mv);
                assert forall|i: int, j: int| 0 <= i < j < ms.len() implies ms[i] != ms[j] by {
                    if j == ms.len() - 1 {
                        assert(ms[j] == mv);
                        assert(ms[i] == c.methods[i]);
                        if c.methods[i] == mv {
                            assert(c.methods.contains(mv));
                        }
                    } else {
                        assert(ms[i] == c.methods[i]);
                        assert(ms[j] == c.methods[j]);
                    }
                }
            }
        },
        _ => {},
    }
}

/// A captured class name is never empty.
pub proof fn lemma_find_class_nonempty(s: Seq<char>, i: int)
    requires
        0 <= i,
    ensures
        find_class(s, i) matches Some(n) ==> n.len() > 0,
    decreases s.len() - i,
{
    if 0 <= i < s.len() {
        if class_name_at(s, i) is Some {
            lemma_run_end(s, i + 7, |c: char| is_word_char(c));
            assert(word_run_end(s, i + 6) >= i + 7);
        } else {
            lemma_find_class_nonempty(s, i + 1);
        }
    }
}

/// A routed update keeps the model well-formed.
proof fn lemma_update_wf(m: Seq<EntryV>, cur: Seq<char>, u: ClassUpdate)
    requires
        model_wf(m),
        update_params_sorted(u),
    ensures
        model_wf(update_first(m, cur, u)),
{
    lemma_update_first_shape(m, cur, u);
    let r = update_first(m, cur, u);
    assert forall|i: int| 0 <= i < r.len() implies class_members_wf(#[trigger] r[i].class) by {
        lemma_apply_update_members(m[i].class, u);
    }
}

/// One line through the scanner keeps the invariant.
pub proof fn lemma_scan_line_wf(st: ScanState, l: Seq<char>)
    requires
        state_wf(st),
    ensures
        state_wf(scan_line(st, l)),
{
    let line = trim_spec(l);
    let st1 = scan_class_rule(st, line);
    match match_class(line) {
        Some(name) => {
            lemma_find_class_nonempty(line, 0);
            lemma_has_name_upsert(st.model, name, name);
            if has_name(st.model, name) {
                lemma_update_wf(st.model, name, ClassUpdate::Reset);
            } else {
                let r = st.model.push(EntryV { name: name, class: empty_class() });
                assert forall|i: int, j: int| 0 <= i < j < r.len() implies r[i].name
                    != r[j].name by {
                    if j == r.len() - 1 {
                        assert(r[i] == st.model[i]);
                        if st.model[i].name == name {
                            assert(has_name(st.model, name));
                        }
                    } else {
                        assert(r[i] == st.model[i]);
                        assert(r[j] == st.model[j]);
                    }
                }
                assert forall|i: int| 0 <= i < r.len() implies class_members_wf(
                    #[trigger] r[i].class,
                ) by {
                    if i < r.len() - 1 {
                        assert(r[i] == st.model[i]);
                    }
                }
                assert(forall|i: int|
                    0 <= i < r.len() - 1 ==> (#[trigger] r[i].name) == st.model[i].name);
            }
            assert(state_wf(st1));
        },
        None => {},
    }
    let st2 = scan_links(st1, line);
    match match_extends(line) {
        Some(p) => {
            lemma_update_wf(st1.model, st1.current, ClassUpdate::SetParent(p));
            lemma_has_name_update(st1.model, st1.current, ClassUpdate::SetParent(p), st1.current);
        },
        None => {},
    }
    let stm = ScanState {
        current: st1.current,
        model: match match_extends(line) {
            Some(p) => set_parent_spec(st1.model, st1.current, p),
            None => st1.model,
        },
    };
    assert(state_wf(stm));
    match match_implements(line) {
        Some(p) => {
            lemma_update_wf(stm.model, stm.current, ClassUpdate::SetInterface(p));
            lemma_has_name_update(stm.model, stm.current, ClassUpdate::SetInterface(p), stm.current);
        },
        None => {},
    }
    assert(state_wf(st2));
    if st2.current.len() > 0 && has_glyph(line) {
        let st4 = match method_fact(line) {
            Some(mv) => ScanState {
                current: st2.current,
                model: route_method(st2.model, st2.current, mv),
            },
            None => st2,
        };
        match method_fact(line) {
            Some(mv) => {
                match match_method(line) {
                    Some(c) => {
                        lemma_params_of_sorted(c.raw_params);
                    },
                    None => {},
                }
                lemma_update_wf(st2.model, st2.current, ClassUpdate::AddMethod(mv));
                lemma_has_name_update(
                    st2.model,
                    st2.current,
                    ClassUpdate::AddMethod(mv),
                    st2.current,
                );
            },
            None => {},
        }
        assert(state_wf(st4));
        match field_fact(line) {
            Some(fv) => {
                lemma_update_wf(st4.model, st4.current, ClassUpdate::AddField(fv));
                lemma_has_name_update(
                    st4.model,
                    st4.current,
                    ClassUpdate::AddField(fv),
                    st4.current,
                );
            },
            None => {},
        }
    }
}

proof fn lemma_scan_lines_wf(st: ScanState, lines: Seq<Seq<char>>)
    requires
        state_wf(st),
    ensures
        state_wf(scan_lines(st, lines)),
    decreases lines.len(),
{
    if lines.len() > 0 {
        lemma_scan_line_wf(st, lines[0]);
        lemma_scan_lines_wf(scan_line(st, lines[0]), lines.drop_first());
    }
}

/// The scanned model is well-formed: every class name is a key exactly
/// once and is never empty, and no member sequence holds two
/// structurally equal members.
pub proof fn lemma_scan_model_wf(lines: Seq<Seq<char>>)
    ensures
        model_wf(scan_model(lines)),
{
    assert(state_wf(init_state()));
    lemma_scan_lines_wf(init_state(), lines);
}

/// Some line of the input declares this class name.
pub open spec fn introduces(lines: Seq<Seq<char>>, name: Seq<char>) -> bool {
    exists|i: int| 0 <= i < lines.len() && match_class(trim_spec(#[trigger] lines[i])) == Some(name)
}

/// The keys after one line: the keys before, plus the name the line
/// declares, if any.
pub proof fn lemma_scan_line_keys(st: ScanState, l: Seq<char>, name: Seq<char>)
    ensures
        has_name(scan_line(st, l).model, name) == (has_name(st.model, name) || match_class(
            trim_spec(l),
        ) == Some(name)),
{
    let line = trim_spec(l);
    let st1 = scan_class_rule(st, line);
    match match_class(line) {
        Some(n2) => {
            lemma_has_name_upsert(st.model, n2, name);
        },
        None => {},
    }
    let st2 = scan_links(st1, line);
    let stm = ScanState {
        current: st1.current,
        model: match match_extends(line) {
            Some(p) => set_parent_spec(st1.model, st1.current, p),
            None => st1.model,
        },
    };
    match match_extends(line) {
        Some(p) => {
            lemma_has_name_update(st1.model, st1.current, ClassUpdate::SetParent(p), name);
        },
        None => {},
    }
    match match_implements(line) {
        Some(p) => {
            lemma_has_name_update(stm.model, stm.current, ClassUpdate::SetInterface(p), name);
        },
        None => {},
    }
    if st2.current.len() > 0 && has_glyph(line) {
        let st4 = match method_fact(line) {
            Some(mv) => ScanState {
                current: st2.current,
                model: route_method(st2.model, st2.current, mv),
            },
            None => st2,
        };
        match method_fact(line) {
            Some(mv) => {
                lemma_has_name_update(st2.model, st2.current, ClassUpdate::AddMethod(mv), name);
            },
            None => {},
        }
        match field_fact(line) {
            Some(fv) => {
                lemma_has_name_update(st4.model, st4.current, ClassUpdate::AddField(fv), name);
            },
            None => {},
        }
    }
}

proof fn lemma_scan_lines_keys(st: ScanState, lines: Seq<Seq<char>>, name: Seq<char>)
    ensures
        has_name(scan_lines(st, lines).model, name) == (has_name(st.model, name) || introduces(
            lines,
            name,
        )),
    decreases lines.len(),
{
    if lines.len() == 0 {
        assert(!introduces(lines, name));
    } else {
        lemma_scan_line_keys(st, lines[0], name);
        lemma_scan_lines_keys(scan_line(st, lines[0]), lines.drop_first(), name);
        let t = lines.drop_first();
        if introduces(t, name) {
            let i = choose|i: int|
                0 <= i < t.len() && match_class(trim_spec(#[trigger] t[i])) == Some(name);
            assert(lines[i + 1] == t[i]);
            assert(introduces(lines, name));
        }
        if match_class(trim_spec(lines[0])) == Some(name) {
            assert(introduces(lines, name));
        }
        if introduces(lines, name) {
            let i = choose|i: int|
                0 <= i < lines.len() && match_class(trim_spec(#[trigger] lines[i])) == Some(name);
            if i > 0 {
                assert(t[i - 1] == lines[i]);
                assert(introduces(t, name));
            }
        }
    }
}

/// Every class a class line introduces is a key of the scanned model,
/// and nothing else is; with the unique keys of `lemma_scan_model_wf`,
/// each such class appears exactly once in the output mapping.
pub proof fn lemma_class_keys(lines: Seq<Seq<char>>)
    ensures
        forall|name: Seq<char>|
            #[trigger] has_name(scan_model(lines), name) == introduces(lines, name),
        model_keys_wf(scan_model(lines)),
{
    assert forall|name: Seq<char>|
        #[trigger] has_name(scan_model(lines), name) == introduces(lines, name) by {
        lemma_scan_lines_keys(init_state(), lines, name);
        assert(!has_name(init_state().model, name));
    }
    lemma_scan_model_wf(lines);
}

/// Scanning carries no state between calls: the model is a function of
/// the input lines alone, so two runs over the same lines agree on
/// every class, link and member.
pub proof fn lemma_scan_deterministic(m1: Seq<EntryV>, m2: Seq<EntryV>, lines: Seq<Seq<char>>)
    requires
        m1 == scan_model(lines),
        m2 == scan_model(lines),
    ensures
        m1 == m2,
{
}

/// A line that declares no class, seen while no class is open, leaves
/// the scanner exactly as it was: a member line before the first class
/// declaration produces no entry and no error.
pub proof fn lemma_member_before_class(st: ScanState, l: Seq<char>)
    requires
        state_wf(st),
        st.current.len() == 0,
        match_class(trim_spec(l)) is None,
    ensures
        scan_line(st, l) == st,
{
    let line = trim_spec(l);
    assert(scan_class_rule(st, line) == st);
    assert(forall|k: int| 0 <= k < st.model.len() ==> (#[trigger] st.model[k].name) != st.current);
    match match_extends(line) {
        Some(p) => {
            crate::model::lemma_update_first_none(st.model, st.current, ClassUpdate::SetParent(p));
            assert(set_parent_spec(st.model, st.current, p) == st.model);
        },
        None => {},
    }
    match match_implements(line) {
        Some(p) => {
            crate::model::lemma_update_first_none(
                st.model,
                st.current,
                ClassUpdate::SetInterface(p),
            );
            assert(set_interface_spec(st.model, st.current, p) == st.model);
        },
        None => {},
    }
    assert(scan_links(st, line) =~= st);
    assert(scan_member(st, line) == st);
}

/// Two scanner states that agree on the current class and on one
/// class's entry.
pub open spec fn related_on(st1: ScanState, st2: ScanState, name: Seq<char>) -> bool {
    &&& st1.current == st2.current
    &&& class_of(st1.model, name) == class_of(st2.model, name)
    &&& has_name(st1.model, name) == has_name(st2.model, name)
}

proof fn lemma_class_rule_related(st1: ScanState, st2: ScanState, line: Seq<char>, name: Seq<char>)
    requires
        related_on(st1, st2, name),
    ensures
        related_on(scan_class_rule(st1, line), scan_class_rule(st2, line), name),
{
    match match_class(line) {
        Some(n2) => {
            lemma_class_of_upsert(st1.model, n2, name);
            lemma_class_of_upsert(st2.model, n2, name);
            lemma_has_name_upsert(st1.model, n2, name);
            lemma_has_name_upsert(st2.model, n2, name);
        },
        None => {},
    }
}

proof fn lemma_update_related(
    st1: ScanState,
    st2: ScanState,
    u: ClassUpdate,
    name: Seq<char>,
)
    requires
        related_on(st1, st2, name),
    ensures
        related_on(
            ScanState { current: st1.current, model: update_first(st1.model, st1.current, u) },
            ScanState { current: st2.current, model: update_first(st2.model, st2.current, u) },
            name,
        ),
{
    lemma_class_of_update(st1.model, st1.current, u, name);
    lemma_class_of_update(st2.model, st2.current, u, name);
    lemma_has_name_update(st1.model, st1.current, u, name);
    lemma_has_name_update(st2.model, st2.current, u, name);
}

proof fn lemma_links_related(st1: ScanState, st2: ScanState, line: Seq<char>, name: Seq<char>)
    requires
        related_on(st1, st2, name),
    ensures
        related_on(scan_links(st1, line), scan_links(st2, line), name),
{
    let sta = ScanState {
        current: st1.current,
        model: match match_extends(line) {
            Some(p) => set_parent_spec(st1.model, st1.current, p),
            None => st1.model,
        },
    };
    let stb = ScanState {
        current: st2.current,
        model: match match_extends(line) {
            Some(p) => set_parent_spec(st2.model, st2.current, p),
            None => st2.model,
        },
    };
    match match_extends(line) {
        Some(p) => {
            lemma_update_related(st1, st2, ClassUpdate::SetParent(p), name);
        },
        None => {},
    }
    assert(related_on(sta, stb, name));
    match match_implements(line) {
        Some(p) => {
            lemma_update_related(sta, stb, ClassUpdate::SetInterface(p), name);
        },
        None => {},
    }
}

proof fn lemma_member_related(st1: ScanState, st2: ScanState, line: Seq<char>, name: Seq<char>)
    requires
        related_on(st1, st2, name),
    ensures
        related_on(scan_member(st1, line), scan_member(st2, line), name),
{
    if st1.current.len() > 0 && has_glyph(line) {
        let sta = match method_fact(line) {
            Some(mv) => ScanState {
                current: st1.current,
                model: route_method(st1.model, st1.current, mv),
            },
            None => st1,
        };
        let stb = match method_fact(line) {
            Some(mv) => ScanState {
                current: st2.current,
                model: route_method(st2.model, st2.current, mv),
            },
            None => st2,
        };
        match method_fact(line) {
            Some(mv) => {
                lemma_update_related(st1, st2, ClassUpdate::AddMethod(mv), name);
            },
            None => {},
        }
        assert(related_on(sta, stb, name));
        match field_fact(line) {
            Some(fv) => {
                lemma_update_related(sta, stb, ClassUpdate::AddField(fv), name);
            },
            None => {},
        }
    }
}

proof fn lemma_line_related(st1: ScanState, st2: ScanState, l: Seq<char>, name: Seq<char>)
    requires
        related_on(st1, st2, name),
    ensures
        related_on(scan_line(st1, l), scan_line(st2, l), name),
{
    let line = trim_spec(l);
    lemma_class_rule_related(st1, st2, line, name);
    lemma_links_related(scan_class_rule(st1, line), scan_class_rule(st2, line), line, name);
    lemma_member_related(scan_decls(st1, line), scan_decls(st2, line), line, name);
}

proof fn lemma_lines_related(
    st1: ScanState,
    st2: ScanState,
    lines: Seq<Seq<char>>,
    name: Seq<char>,
)
    requires
        related_on(st1, st2, name),
    ensures
        related_on(scan_lines(st1, lines), scan_lines(st2, lines), name),
    decreases lines.len(),
{
    if lines.len() > 0 {
        lemma_line_related(st1, st2, lines[0], name);
        lemma_lines_related(
            scan_line(st1, lines[0]),
            scan_line(st2, lines[0]),
            lines.drop_first(),
            name,
        );
    }
}

/// A class declaration resets its class: whatever was recorded under
/// the name before, the entry after scanning the declaring line and
/// everything that follows is what a fresh scan of those lines alone
/// records.  Only facts attached after the second declaration survive.
pub proof fn lemma_redefinition(st: ScanState, lines: Seq<Seq<char>>, name: Seq<char>)
    requires
        lines.len() > 0,
        match_class(trim_spec(lines[0])) == Some(name),
    ensures
        class_of(scan_lines(st, lines).model, name) == class_of(
            scan_lines(init_state(), lines).model,
            name,
        ),
{
    let line = trim_spec(lines[0]);
    let sta = scan_class_rule(st, line);
    let stb = scan_class_rule(init_state(), line);
    lemma_class_of_upsert(st.model, name, name);
    lemma_class_of_upsert(init_state().model, name, name);
    lemma_has_name_upsert(st.model, name, name);
    lemma_has_name_upsert(init_state().model, name, name);
    assert(related_on(sta, stb, name));
    lemma_links_related(sta, stb, line, name);
    lemma_member_related(scan_decls(st, line), scan_decls(init_state(), line), line, name);
    lemma_lines_related(
        scan_line(st, lines[0]),
        scan_line(init_state(), lines[0]),
        lines.drop_first(),
        name,
    );
}

} // verus!
