//! The class model: access modifiers, fields, methods and classes.
//!
//! Members are kept in explicit sequences in first-insertion order, and
//! duplicates are collapsed by full structural equality; a method's
//! parameters are an ordered mapping from parameter name to type, kept
//! strictly sorted by name.  An absent parent or interface link is the
//! empty string.

use vstd::prelude::*;
use vstd::std_specs::cmp::PartialEqSpec;

verus! {

/// The access level of a member.  A member line whose first character
/// is not one of the three glyphs still carries a member when a glyph
/// occurs later in the line; its access level is then `Unknown`.
#[derive(PartialEq, Eq, Structural, Clone, Copy, Debug)]
pub enum AccessModifier {
    Public,
    Private,
    Protected,
    Unknown,
}

/// The textual form of an access modifier in rendered source.
pub open spec fn modifier_text(m: AccessModifier) -> Seq<char> {
    match m {
        AccessModifier::Public => "public"@,
        AccessModifier::Private => "private"@,
        AccessModifier::Protected => "protected"@,
        AccessModifier::Unknown => "unknown"@,
    }
}

impl AccessModifier {
    pub fn text(&self) -> (r: &'static str)
        ensures
            r@ == modifier_text(*self),
    {
        match self {
            AccessModifier::Public => "public",
            AccessModifier::Private => "private",
            AccessModifier::Protected => "protected",
            AccessModifier::Unknown => "unknown",
        }
    }
}

/// A single parameter of a method: its name and its type.
#[derive(Debug)]
pub struct Param {
    name: String,
    param_type: String,
}

impl View for Param {
    type V = (Seq<char>, Seq<char>);

    closed spec fn view(&self) -> (Seq<char>, Seq<char>) {
        (self.name@, self.param_type@)
    }
}

impl DeepView for Param {
    type V = (Seq<char>, Seq<char>);

    open spec fn deep_view(&self) -> (Seq<char>, Seq<char>) {
        self.view()
    }
}

impl Param {
    pub fn new(name: String, param_type: String) -> (r: Param)
        ensures
            r@ == (name@, param_type@),
    {
        Param { name, param_type }
    }

    pub fn name(&self) -> (r: &str)
        ensures
            r@ == self@.0,
    {
        self.name.as_str()
    }

    pub fn param_type(&self) -> (r: &str)
        ensures
            r@ == self@.1,
    {
        self.param_type.as_str()
    }
}

impl PartialEq for Param {
    fn eq(&self, other: &Param) -> (r: bool) {
        self.name == other.name && self.param_type == other.param_type
    }
}

impl Eq for Param {

}

impl vstd::std_specs::cmp::PartialEqSpecImpl for Param {
    open spec fn obeys_eq_spec() -> bool {
        true
    }

    open spec fn eq_spec(&self, other: &Param) -> bool {
        self@ == other@
    }
}

/// The view of a field: modifier, type and name.
#[verifier::ext_equal]
pub ghost struct FieldV {
    pub modifier: AccessModifier,
    pub ty: Seq<char>,
    pub name: Seq<char>,
}

/// A field of a class.  Two fields are the same member exactly when
/// modifier, name and type all agree.
#[derive(Debug)]
pub struct Field {
    access_modifier: AccessModifier,
    name: String,
    attr_type: String,
}

impl View for Field {
    type V = FieldV;

    closed spec fn view(&self) -> FieldV {
        FieldV { modifier: self.access_modifier, ty: self.attr_type@, name: self.name@ }
    }
}

impl DeepView for Field {
    type V = FieldV;

    open spec fn deep_view(&self) -> FieldV {
        self.view()
    }
}

impl Field {
    pub fn new(access_modifier: AccessModifier, name: String, attr_type: String) -> (r: Field)
        ensures
            r@ == (FieldV { modifier: access_modifier, ty: attr_type@, name: name@ }),
    {
        Field { access_modifier, name, attr_type }
    }

    pub fn access_modifier(&self) -> (r: AccessModifier)
        ensures
            r == self@.modifier,
    {
        self.access_modifier
    }

    pub fn name(&self) -> (r: &str)
        ensures
            r@ == self@.name,
    {
        self.name.as_str()
    }

    pub fn attr_type(&self) -> (r: &str)
        ensures
            r@ == self@.ty,
    {
        self.attr_type.as_str()
    }

    pub fn set_access_modifier(&mut self, access_modifier: AccessModifier)
        ensures
            final(self)@ == (FieldV { modifier: access_modifier, ..old(self)@ }),
    {
        self.access_modifier = access_modifier;
    }

    pub fn set_name(&mut self, name: String)
        ensures
            final(self)@ == (FieldV { name: name@, ..old(self)@ }),
    {
        self.name = name;
    }

    pub fn set_attr_type(&mut self, attr_type: String)
        ensures
            final(self)@ == (FieldV { ty: attr_type@, ..old(self)@ }),
    {
        self.attr_type = attr_type;
    }
}

impl PartialEq for Field {
    fn eq(&self, other: &Field) -> (r: bool) {
        let m = self.access_modifier == other.access_modifier;
        let n = self.name == other.name;
        let t = self.attr_type == other.attr_type;
        proof {
            if m && n && t {
                assert(self@ =~= other@);
            }
        }
        m && n && t
    }
}

impl Eq for Field {

}

impl vstd::std_specs::cmp::PartialEqSpecImpl for Field {
    open spec fn obeys_eq_spec() -> bool {
        true
    }

    open spec fn eq_spec(&self, other: &Field) -> bool {
        self@ == other@
    }
}

/// The view of a method: modifier, name, return type and the ordered
/// parameter mapping as `(name, type)` pairs.
#[verifier::ext_equal]
pub ghost struct MethodV {
    pub modifier: AccessModifier,
    pub name: Seq<char>,
    pub ret: Seq<char>,
    pub params: Seq<(Seq<char>, Seq<char>)>,
}

/// A method of a class.  Two methods are the same member exactly when
/// modifier, name, return type and the whole parameter mapping agree.
#[derive(Debug)]
pub struct Method {
    access_modifier: AccessModifier,
    name: String,
    return_type: String,
    parameters: Vec<Param>,
}

impl View for Method {
    type V = MethodV;

    closed spec fn view(&self) -> MethodV {
        MethodV {
            modifier: self.access_modifier,
            name: self.name@,
            ret: self.return_type@,
            params: self.parameters.deep_view(),
        }
    }
}

impl DeepView for Method {
    type V = MethodV;

    open spec fn deep_view(&self) -> MethodV {
        self.view()
    }
}

/// The textual form of a parameter list: the `<type> <name>` pairs in
/// mapping order, joined by `", "`.
pub open spec fn params_text(ps: Seq<(Seq<char>, Seq<char>)>) -> Seq<char>
    decreases ps.len(),
{
    if ps.len() == 0 {
        Seq::empty()
    } else {
        let item = ps.last().1 + " "@ + ps.last().0;
        if ps.len() == 1 {
            item
        } else {
            params_text(ps.drop_last()) + ", "@ + item
        }
    }
}

impl Method {
    pub fn new(
        access_modifier: AccessModifier,
        name: String,
        return_type: String,
        parameters: Vec<Param>,
    ) -> (r: Method)
        ensures
            r@ == (MethodV {
                modifier: access_modifier,
                name: name@,
                ret: return_type@,
                params: parameters.deep_view(),
            }),
    {
        Method { access_modifier, name, return_type, parameters }
    }

    /// The parameter list as it appears between the parentheses of the
    /// rendered method.
    pub fn to_string(&self) -> (r: String)
        ensures
            r@ == params_text(self@.params),
    {
        let mut out = String::new();
        let n = self.parameters.len();
        assert(self@.params.len() == n);
        let mut i: usize = 0;
        assert(out@ =~= params_text(self@.params.take(0)));
        while i < n
            invariant
                0 <= i <= n,
                n == self.parameters.len(),
                self@.params.len() == n,
                out@ == params_text(self@.params.take(i as int)),
            decreases n - i,
        {
            if i > 0 {
                out.append(", ");
            }
            out.append(self.parameters[i].param_type());
            out.append(" ");
            out.append(self.parameters[i].name());
            proof {
                assert(self@.params[i as int] == self.parameters[i as int]@);
                assert(self@.params.take(i + 1).drop_last() =~= self@.params.take(i as int));
                assert(self@.params.take(i + 1).last() == self@.params[i as int]);
            }
            i = i + 1;
        }
        proof {
            assert(self@.params.take(n as int) =~= self@.params);
        }
        out
    }

    pub fn access_modifier(&self) -> (r: AccessModifier)
        ensures
            r == self@.modifier,
    {
        self.access_modifier
    }

    pub fn name(&self) -> (r: &str)
        ensures
            r@ == self@.name,
    {
        self.name.as_str()
    }

    pub fn parameters(&self) -> (r: &Vec<Param>)
        ensures
            r.deep_view() == self@.params,
    {
        &self.parameters
    }

    pub fn return_type(&self) -> (r: &str)
        ensures
            r@ == self@.ret,
    {
        self.return_type.as_str()
    }

    pub fn set_access_modifier(&mut self, access_modifier: AccessModifier)
        ensures
            final(self)@ == (MethodV { modifier: access_modifier, ..old(self)@ }),
    {
        self.access_modifier = access_modifier;
    }

    pub fn set_name(&mut self, name: String)
        ensures
            final(self)@ == (MethodV { name: name@, ..old(self)@ }),
    {
        self.name = name;
    }

    pub fn set_return_type(&mut self, return_type: String)
        ensures
            final(self)@ == (MethodV { ret: return_type@, ..old(self)@ }),
    {
        self.return_type = return_type;
    }

    pub fn set_parameters(&mut self, parameters: Vec<Param>)
        ensures
            final(self)@ == (MethodV { params: parameters.deep_view(), ..old(self)@ }),
    {
        self.parameters = parameters;
    }
}

impl PartialEq for Method {
    fn eq(&self, other: &Method) -> (r: bool) {
        let m = self.access_modifier == other.access_modifier;
        let n = self.name == other.name;
        let t = self.return_type == other.return_type;
        let p = self.parameters == other.parameters;
        proof {
            let sv = self.parameters.deep_view();
            let ov = other.parameters.deep_view();
            assert(forall|i: int|
                0 <= i < self.parameters@.len() ==> sv[i] == #[trigger] self.parameters@[i]@);
            assert(forall|i: int|
                0 <= i < other.parameters@.len() ==> ov[i] == #[trigger] other.parameters@[i]@);
            if p {
                assert(sv =~= ov);
            } else if sv == ov {
                assert(sv.len() == self.parameters@.len());
                assert(ov.len() == other.parameters@.len());
                assert forall|i: int|
                    0 <= i < self.parameters@.len() implies #[trigger] self.parameters@[i].eq_spec(
                    &other.parameters@[i],
                ) by {
                    assert(sv[i] == self.parameters@[i]@);
                    assert(ov[i] == other.parameters@[i]@);
                    assert(sv[i] == ov[i]);
                }
                assert(false);
            }
            if m && n && t && p {
                assert(self@ =~= other@);
            }
        }
        m && n && t && p
    }
}

impl Eq for Method {

}

impl vstd::std_specs::cmp::PartialEqSpecImpl for Method {
    open spec fn obeys_eq_spec() -> bool {
        true
    }

    open spec fn eq_spec(&self, other: &Method) -> bool {
        self@ == other@
    }
}

/// The view of a class: its optional links (empty when absent) and its
/// member sequences.
#[verifier::ext_equal]
pub ghost struct ClassV {
    pub extended: Seq<char>,
    pub interface: Seq<char>,
    pub fields: Seq<FieldV>,
    pub methods: Seq<MethodV>,
}

/// The shape a freshly declared class starts from.
pub open spec fn empty_class() -> ClassV {
    ClassV { extended: Seq::empty(), interface: Seq::empty(), fields: seq![], methods: seq![] }
}

/// Adding a member keeps the sequence free of structural duplicates:
/// a member equal to one already present is dropped, otherwise it is
/// appended.
pub open spec fn add_field_spec(fs: Seq<FieldV>, f: FieldV) -> Seq<FieldV> {
    if fs.contains(f) {
        fs
    } else {
        fs.push(f)
    }
}

pub open spec fn add_method_spec(ms: Seq<MethodV>, m: MethodV) -> Seq<MethodV> {
    if ms.contains(m) {
        ms
    } else {
        ms.push(m)
    }
}

/// A class of the model.
#[derive(Debug)]
pub struct Class {
    fields: Vec<Field>,
    extended_class: String,
    interface: String,
    methods: Vec<Method>,
}

impl View for Class {
    type V = ClassV;

    closed spec fn view(&self) -> ClassV {
        ClassV {
            extended: self.extended_class@,
            interface: self.interface@,
            fields: self.fields.deep_view(),
            methods: self.methods.deep_view(),
        }
    }
}

impl DeepView for Class {
    type V = ClassV;

    open spec fn deep_view(&self) -> ClassV {
        self.view()
    }
}

impl Class {
    pub fn new() -> (r: Class)
        ensures
            r@ == empty_class(),
    {
        let r = Class {
            fields: Vec::new(),
            extended_class: String::new(),
            interface: String::new(),
            methods: Vec::new(),
        };
        proof {
            assert(r@ =~= empty_class());
        }
        r
    }

    pub fn add_method(&mut self, method: Method)
        ensures
            final(self)@ == (class_with_method(old(self)@, method@)),
    {
        let mut i: usize = 0;
        let n = self.methods.len();
        while i < n
            invariant
                0 <= i <= n,
                n == self.methods.len(),
                forall|k: int| 0 <= k < i ==> self.methods.deep_view()[k] != method@,
            decreases n - i,
        {
            if self.methods[i] == method {
                proof {
                    assert(self.methods.deep_view()[i as int] == self.methods[i as int]@);
                    assert(self@.methods.contains(method@));
                }
                return ;
            }
            proof {
                assert(self.methods.deep_view()[i as int] == self.methods[i as int]@);
            }
            i = i + 1;
        }
        proof {
            assert(!self@.methods.contains(method@));
        }
        let ghost pre = self@;
        self.methods.push(method);
        proof {
            assert(self.methods.deep_view() =~= pre.methods.push(method@));
            assert(self@ =~= (ClassV { methods: pre.methods.push(method@), ..pre }));
        }
    }

    pub fn add_field(&mut self, field: Field)
        ensures
            final(self)@ == (class_with_field(old(self)@, field@)),
    {
        let mut i: usize = 0;
        let n = self.fields.len();
        while i < n
            invariant
                0 <= i <= n,
                n == self.fields.len(),
                forall|k: int| 0 <= k < i ==> self.fields.deep_view()[k] != field@,
            decreases n - i,
        {
            if self.fields[i] == field {
                proof {
                    assert(self.fields.deep_view()[i as int] == self.fields[i as int]@);
                    assert(self@.fields.contains(field@));
                }
                return ;
            }
            proof {
                assert(self.fields.deep_view()[i as int] == self.fields[i as int]@);
            }
            i = i + 1;
        }
        proof {
            assert(!self@.fields.contains(field@));
        }
        let ghost pre = self@;
        self.fields.push(field);
        proof {
            assert(self.fields.deep_view() =~= pre.fields.push(field@));
            assert(self@ =~= (ClassV { fields: pre.fields.push(field@), ..pre }));
        }
    }

    pub fn fields(&self) -> (r: &Vec<Field>)
        ensures
            r.deep_view() == self@.fields,
    {
        &self.fields
    }

    pub fn extended_class(&self) -> (r: &str)
        ensures
            r@ == self@.extended,
    {
        self.extended_class.as_str()
    }

    pub fn interface(&self) -> (r: &str)
        ensures
            r@ == self@.interface,
    {
        self.interface.as_str()
    }

    pub fn methods(&self) -> (r: &Vec<Method>)
        ensures
            r.deep_view() == self@.methods,
    {
        &self.methods
    }

    pub fn set_fields(&mut self, attributes: Vec<Field>)
        ensures
            final(self)@ == (ClassV { fields: attributes.deep_view(), ..old(self)@ }),
    {
        self.fields = attributes;
    }

    pub fn set_extended_class(&mut self, extended_class: String)
        ensures
            final(self)@ == (ClassV { extended: extended_class@, ..old(self)@ }),
    {
        self.extended_class = extended_class;
    }

    pub fn set_interface(&mut self, interface: String)
        ensures
            final(self)@ == (ClassV { interface: interface@, ..old(self)@ }),
    {
        self.interface = interface;
    }

    pub fn set_methods(&mut self, methods: Vec<Method>)
        ensures
            final(self)@ == (ClassV { methods: methods.deep_view(), ..old(self)@ }),
    {
        self.methods = methods;
    }
}

/// A class after a field fact was routed to it.
pub open spec fn class_with_field(c: ClassV, f: FieldV) -> ClassV {
    ClassV { fields: add_field_spec(c.fields, f), ..c }
}

/// A class after a method fact was routed to it.
pub open spec fn class_with_method(c: ClassV, m: MethodV) -> ClassV {
    ClassV { methods: add_method_spec(c.methods, m), ..c }
}

} // verus!
