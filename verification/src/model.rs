//! The accumulated class model: class entries under their names, in
//! declaration order.
//!
//! A class declaration creates or replaces the entry of its name (the
//! entry keeps its position when replaced); parent links, interface
//! links and members are routed to the entry of the scanner's current
//! class.  Routing touches the first entry of the given name only —
//! names are unique in every model the scanner builds, so that entry is
//! the entry of the name.

use vstd::prelude::*;
use crate::class::{
    Class, ClassV, Field, FieldV, Method, MethodV, empty_class, class_with_field,
    class_with_method,
};
use crate::text::str_eq;

verus! {

/// One entry of the model: a class under its name.
pub struct ClassEntry {
    name: String,
    class: Class,
}

/// The view of an entry.
#[verifier::ext_equal]
pub ghost struct EntryV {
    pub name: Seq<char>,
    pub class: ClassV,
}

impl View for ClassEntry {
    type V = EntryV;

    closed spec fn view(&self) -> EntryV {
        EntryV { name: self.name@, class: self.class@ }
    }
}

impl DeepView for ClassEntry {
    type V = EntryV;

    open spec fn deep_view(&self) -> EntryV {
        self.view()
    }
}

impl ClassEntry {
    pub fn new(name: String, class: Class) -> (r: ClassEntry)
        ensures
            r@ == (EntryV { name: name@, class: class@ }),
    {
        ClassEntry { name, class }
    }

    pub fn name(&self) -> (r: &str)
        ensures
            r@ == self@.name,
    {
        self.name.as_str()
    }

    pub fn class(&self) -> (r: &Class)
        ensures
            r@ == self@.class,
    {
        &self.class
    }
}

/// Some entry carries this name.
pub open spec fn has_name(m: Seq<EntryV>, name: Seq<char>) -> bool {
    exists|i: int| 0 <= i < m.len() && m[i].name == name
}

/// The class of the first entry of the given name; a fresh empty class
/// where no entry carries it.
pub open spec fn class_of(m: Seq<EntryV>, name: Seq<char>) -> ClassV
    decreases m.len(),
{
    if m.len() == 0 {
        empty_class()
    } else if m[0].name == name {
        m[0].class
    } else {
        class_of(m.drop_first(), name)
    }
}

/// `class_of` reads the first entry of the name.
pub proof fn lemma_class_of_at(m: Seq<EntryV>, name: Seq<char>, i: int)
    requires
        0 <= i < m.len(),
        m[i].name == name,
        forall|k: int| 0 <= k < i ==> m[k].name != name,
    ensures
        class_of(m, name) == m[i].class,
    decreases i,
{
    if i > 0 {
        assert(forall|k: int| 0 <= k < i - 1 ==> m.drop_first()[k] == m[k + 1]);
        assert(m.drop_first()[i - 1] == m[i]);
        lemma_class_of_at(m.drop_first(), name, i - 1);
    }
}

/// One change a scanned fact makes to a class.
pub ghost enum ClassUpdate {
    Reset,
    SetParent(Seq<char>),
    SetInterface(Seq<char>),
    AddField(FieldV),
    AddMethod(MethodV),
}

/// The class after one change.
pub open spec fn apply_update(c: ClassV, u: ClassUpdate) -> ClassV {
    match u {
        ClassUpdate::Reset => empty_class(),
        ClassUpdate::SetParent(p) => ClassV { extended: p, ..c },
        ClassUpdate::SetInterface(p) => ClassV { interface: p, ..c },
        ClassUpdate::AddField(f) => class_with_field(c, f),
        ClassUpdate::AddMethod(mv) => class_with_method(c, mv),
    }
}

/// The model with the change applied to the first entry named `cur`;
/// a model without such an entry is left unchanged.
pub open spec fn update_first(m: Seq<EntryV>, cur: Seq<char>, u: ClassUpdate) -> Seq<EntryV>
    decreases m.len(),
{
    if m.len() == 0 {
        m
    } else if m[0].name == cur {
        seq![EntryV { name: m[0].name, class: apply_update(m[0].class, u) }] + m.drop_first()
    } else {
        seq![m[0]] + update_first(m.drop_first(), cur, u)
    }
}

pub proof fn lemma_update_first_none(m: Seq<EntryV>, cur: Seq<char>, u: ClassUpdate)
    requires
        forall|k: int| 0 <= k < m.len() ==> m[k].name != cur,
    ensures
        update_first(m, cur, u) =~= m,
    decreases m.len(),
{
    if m.len() > 0 {
        assert(forall|k: int| 0 <= k < m.drop_first().len() ==> m.drop_first()[k].name != cur);
        lemma_update_first_none(m.drop_first(), cur, u);
    }
}

pub proof fn lemma_update_first_at(m: Seq<EntryV>, cur: Seq<char>, u: ClassUpdate, i: int)
    requires
        0 <= i < m.len(),
        m[i].name == cur,
        forall|k: int| 0 <= k < i ==> m[k].name != cur,
    ensures
        update_first(m, cur, u) =~= m.update(
            i,
            EntryV { name: m[i].name, class: apply_update(m[i].class, u) },
        ),
    decreases m.len(),
{
    if i == 0 {
        assert(update_first(m, cur, u) =~= m.update(
            0,
            EntryV { name: m[0].name, class: apply_update(m[0].class, u) },
        ));
    } else {
        let t = m.drop_first();
        assert(t[i - 1] == m[i]);
        lemma_update_first_at(t, cur, u, i - 1);
        let x = EntryV { name: m[i].name, class: apply_update(m[i].class, u) };
        assert(update_first(t, cur, u) == t.update(i - 1, x));
        assert(update_first(m, cur, u) == seq![m[0]] + t.update(i - 1, x));
        assert forall|k: int| 0 <= k < m.len() implies (seq![m[0]] + t.update(i - 1, x))[k]
            == m.update(i, x)[k] by {
            if k > 0 {
                assert((seq![m[0]] + t.update(i - 1, x))[k] == t.update(i - 1, x)[k - 1]);
            }
        }
        assert(update_first(m, cur, u) =~= m.update(i, x));
    }
}

/// A class declaration: create or replace the entry of `name`, leaving
/// it empty; a replaced entry keeps its position, a new one is appended.
pub open spec fn upsert_class(m: Seq<EntryV>, name: Seq<char>) -> Seq<EntryV> {
    if has_name(m, name) {
        update_first(m, name, ClassUpdate::Reset)
    } else {
        m.push(EntryV { name: name, class: empty_class() })
    }
}

/// A parent link routed to the current class.
pub open spec fn set_parent_spec(m: Seq<EntryV>, cur: Seq<char>, p: Seq<char>) -> Seq<EntryV> {
    update_first(m, cur, ClassUpdate::SetParent(p))
}

/// An interface link routed to the current class.
pub open spec fn set_interface_spec(m: Seq<EntryV>, cur: Seq<char>, p: Seq<char>) -> Seq<EntryV> {
    update_first(m, cur, ClassUpdate::SetInterface(p))
}

/// A field fact routed to the current class.
pub open spec fn route_field(m: Seq<EntryV>, cur: Seq<char>, f: FieldV) -> Seq<EntryV> {
    update_first(m, cur, ClassUpdate::AddField(f))
}

/// A method fact routed to the current class.
pub open spec fn route_method(m: Seq<EntryV>, cur: Seq<char>, mv: MethodV) -> Seq<EntryV> {
    update_first(m, cur, ClassUpdate::AddMethod(mv))
}

/// The class model.
pub struct ClassModel {
    entries: Vec<ClassEntry>,
}

impl View for ClassModel {
    type V = Seq<EntryV>;

    closed spec fn view(&self) -> Seq<EntryV> {
        self.entries.deep_view()
    }
}

impl ClassModel {
    pub fn new() -> (r: ClassModel)
        ensures
            r@ == Seq::<EntryV>::empty(),
    {
        let r = ClassModel { entries: Vec::new() };
        proof {
            assert(r@ =~= Seq::<EntryV>::empty());
        }
        r
    }

    pub fn len(&self) -> (r: usize)
        ensures
            r == self@.len(),
    {
        self.entries.len()
    }

    pub fn entries(&self) -> (r: &Vec<ClassEntry>)
        ensures
            r.deep_view() == self@,
    {
        &self.entries
    }

    /// The class of the first entry named `name`, if any.
    pub fn get(&self, name: &str) -> (r: Option<&Class>)
        ensures
            match r {
                Option::None => !has_name(self@, name@),
                Option::Some(c) => has_name(self@, name@) && c@ == class_of(self@, name@),
            },
    {
        let n = self.entries.len();
        let mut i: usize = 0;
        while i < n
            invariant
                0 <= i <= n,
                n == self.entries.len(),
                self@.len() == n,
                forall|k: int| 0 <= k < i ==> self@[k].name != name@,
                forall|k: int| 0 <= k < n ==> self@[k] == self.entries@[k]@,
            decreases n - i,
        {
            if str_eq(self.entries[i].name.as_str(), name) {
                proof {
                    assert(self@[i as int].name == name@);
                    lemma_class_of_at(self@, name@, i as int);
                }
                return Some(&self.entries[i].class);
            }
            i = i + 1;
        }
        None
    }

    /// Create or replace the entry of `name` with a fresh empty class.
    #[verifier::loop_isolation(false)]
    pub fn put_class(&mut self, name: String)
        ensures
            final(self)@ == upsert_class(old(self)@, name@),
    {
        let ghost m = self@;
        let n = self.entries.len();
        let mut i: usize = 0;
        while i < n
            invariant
                0 <= i <= n,
                n == self.entries.len(),
                self@ == m,
                m.len() == n,
                forall|k: int| 0 <= k < i ==> m[k].name != name@,
                forall|k: int| 0 <= k < n ==> m[k] == self.entries@[k]@,
            decreases n - i,
        {
            if str_eq(self.entries[i].name.as_str(), name.as_str()) {
                let ghost nv = name@;
                let e = ClassEntry::new(name, Class::new());
                let ghost ee = e;
                let ghost pre = self.entries@;
                self.entries.remove(i);
                self.entries.insert(i, e);
                proof {
                    let u = ClassUpdate::Reset;
                    assert(self.entries@ =~= pre.update(i as int, ee));
                    assert forall|k: int| 0 <= k < m.len() implies self@[k] == m.update(
                        i as int,
                        ee@,
                    )[k] by {
                        assert(self@[k] == self.entries@[k]@);
                    }
                    assert(self@ =~= m.update(i as int, ee@));
                    assert(ee@ == (EntryV {
                        name: m[i as int].name,
                        class: apply_update(m[i as int].class, u),
                    }));
                    lemma_update_first_at(m, nv, u, i as int);
                    assert(has_name(m, nv));
                    assert(self@ =~= upsert_class(m, nv));
                }
                return ;
            }
            i = i + 1;
        }
        let e = ClassEntry::new(name, Class::new());
        self.entries.push(e);
        proof {
            assert(!has_name(m, name@));
            assert(self@ =~= m.push(EntryV { name: name@, class: empty_class() }));
        }
    }

    /// Set the parent link of the current class, if it names an entry.
    #[verifier::loop_isolation(false)]
    pub fn set_parent(&mut self, current: &str, parent: String)
        ensures
            final(self)@ == set_parent_spec(old(self)@, current@, parent@),
    {
        let ghost m = self@;
        let n = self.entries.len();
        let mut i: usize = 0;
        while i < n
            invariant
                0 <= i <= n,
                n == self.entries.len(),
                self@ == m,
                m.len() == n,
                forall|k: int| 0 <= k < i ==> m[k].name != current@,
                forall|k: int| 0 <= k < n ==> m[k] == self.entries@[k]@,
            decreases n - i,
        {
            if str_eq(self.entries[i].name.as_str(), current) {
                let ghost pre = self.entries@;
                let mut e = self.entries.remove(i);
                e.class.set_extended_class(parent);
                let ghost ee = e;
                self.entries.insert(i, e);
                proof {
                    let u = ClassUpdate::SetParent(parent@);
                    assert(self.entries@ =~= pre.update(i as int, ee));
                    assert forall|k: int| 0 <= k < m.len() implies self@[k] == m.update(
                        i as int,
                        ee@,
                    )[k] by {
                        assert(self@[k] == self.entries@[k]@);
                    }
                    assert(self@ =~= m.update(i as int, ee@));
                    assert(ee@ == (EntryV {
                        name: m[i as int].name,
                        class: apply_update(m[i as int].class, u),
                    }));
                    lemma_update_first_at(m, current@, u, i as int);
                }
                return ;
            }
            i = i + 1;
        }
        proof {
            let u = ClassUpdate::SetParent(parent@);
            lemma_update_first_none(m, current@, u);
        }
    }

    /// Set the interface link of the current class, if it names an entry.
    #[verifier::loop_isolation(false)]
    pub fn set_interface(&mut self, current: &str, interface: String)
        ensures
            final(self)@ == set_interface_spec(old(self)@, current@, interface@),
    {
        let ghost m = self@;
        let n = self.entries.len();
        let mut i: usize = 0;
        while i < n
            invariant
                0 <= i <= n,
                n == self.entries.len(),
                self@ == m,
                m.len() == n,
                forall|k: int| 0 <= k < i ==> m[k].name != current@,
                forall|k: int| 0 <= k < n ==> m[k] == self.entries@[k]@,
            decreases n - i,
        {
            if str_eq(self.entries[i].name.as_str(), current) {
                let ghost pre = self.entries@;
                let mut e = self.entries.remove(i);
                e.class.set_interface(interface);
                let ghost ee = e;
                self.entries.insert(i, e);
                proof {
                    let u = ClassUpdate::SetInterface(interface@);
                    assert(self.entries@ =~= pre.update(i as int, ee));
                    assert forall|k: int| 0 <= k < m.len() implies self@[k] == m.update(
                        i as int,
                        ee@,
                    )[k] by {
                        assert(self@[k] == self.entries@[k]@);
                    }
                    assert(self@ =~= m.update(i as int, ee@));
                    assert(ee@ == (EntryV {
                        name: m[i as int].name,
                        class: apply_update(m[i as int].class, u),
                    }));
                    lemma_update_first_at(m, current@, u, i as int);
                }
                return ;
            }
            i = i + 1;
        }
        proof {
            let u = ClassUpdate::SetInterface(interface@);
            lemma_update_first_none(m, current@, u);
        }
    }

    /// Route a field fact to the current class, if it names an entry.
    #[verifier::loop_isolation(false)]
    pub fn add_field_to(&mut self, current: &str, field: Field)
        ensures
            final(self)@ == route_field(old(self)@, current@, field@),
    {
        let ghost m = self@;
        let ghost fv = field@;
        let n = self.entries.len();
        let mut i: usize = 0;
        while i < n
            invariant
                0 <= i <= n,
                n == self.entries.len(),
                self@ == m,
                m.len() == n,
                field@ == fv,
                forall|k: int| 0 <= k < i ==> m[k].name != current@,
                forall|k: int| 0 <= k < n ==> m[k] == self.entries@[k]@,
            decreases n - i,
        {
            if str_eq(self.entries[i].name.as_str(), current) {
                let ghost pre = self.entries@;
                let mut e = self.entries.remove(i);
                e.class.add_field(field);
                let ghost ee = e;
                self.entries.insert(i, e);
                proof {
                    let u = ClassUpdate::AddField(fv);
                    assert(self.entries@ =~= pre.update(i as int, ee));
                    assert forall|k: int| 0 <= k < m.len() implies self@[k] == m.update(
                        i as int,
                        ee@,
                    )[k] by {
                        assert(self@[k] == self.entries@[k]@);
                    }
                    assert(self@ =~= m.update(i as int, ee@));
                    assert(ee@ == (EntryV {
                        name: m[i as int].name,
                        class: apply_update(m[i as int].class, u),
                    }));
                    lemma_update_first_at(m, current@, u, i as int);
                }
                return ;
            }
            i = i + 1;
        }
        proof {
            let u = ClassUpdate::AddField(fv);
            lemma_update_first_none(m, current@, u);
        }
    }

    /// Route a method fact to the current class, if it names an entry.
    #[verifier::loop_isolation(false)]
    pub fn add_method_to(&mut self, current: &str, method: Method)
        ensures
            final(self)@ == route_method(old(self)@, current@, method@),
    {
        let ghost m = self@;
        let ghost mv = method@;
        let n = self.entries.len();
        let mut i: usize = 0;
        while i < n
            invariant
                0 <= i <= n,
                n == self.entries.len(),
                self@ == m,
                m.len() == n,
                method@ == mv,
                forall|k: int| 0 <= k < i ==> m[k].name != current@,
                forall|k: int| 0 <= k < n ==> m[k] == self.entries@[k]@,
            decreases n - i,
        {
            if str_eq(self.entries[i].name.as_str(), current) {
                let ghost pre = self.entries@;
                let mut e = self.entries.remove(i);
                e.class.add_method(method);
                let ghost ee = e;
                self.entries.insert(i, e);
                proof {
                    let u = ClassUpdate::AddMethod(mv);
                    assert(self.entries@ =~= pre.update(i as int, ee));
                    assert forall|k: int| 0 <= k < m.len() implies self@[k] == m.update(
                        i as int,
                        ee@,
                    )[k] by {
                        assert(self@[k] == self.entries@[k]@);
                    }
                    assert(self@ =~= m.update(i as int, ee@));
                    assert(ee@ == (EntryV {
                        name: m[i as int].name,
                        class: apply_update(m[i as int].class, u),
                    }));
                    lemma_update_first_at(m, current@, u, i as int);
                }
                return ;
            }
            i = i + 1;
        }
        proof {
            let u = ClassUpdate::AddMethod(mv);
            lemma_update_first_none(m, current@, u);
        }
    }
}

} // verus!
