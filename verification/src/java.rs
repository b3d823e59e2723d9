//! The Java rendering backend.
//!
//! Each class renders to a declaration line (`public class Name`, plus
//! `extends`/`implements` when the links are set), one line per field,
//! a single blank separating line exactly when the class has both
//! fields and methods, one stub per method with a placeholder body, and
//! the closing brace.  Members render in the model's insertion order;
//! parameters in name order.

use vstd::prelude::*;
use crate::class::{Class, ClassV, FieldV, MethodV, modifier_text, params_text};
use crate::code_generator::SourceCodeStrategy;
use crate::model::ClassModel;

verus! {

/// One rendered field line.
pub open spec fn render_field(f: FieldV) -> Seq<char> {
    "    "@ + modifier_text(f.modifier) + " "@ + f.ty + " "@ + f.name + ";\n"@
}

pub open spec fn render_fields(fs: Seq<FieldV>) -> Seq<char>
    decreases fs.len(),
{
    if fs.len() == 0 {
        Seq::empty()
    } else {
        render_fields(fs.drop_last()) + render_field(fs.last())
    }
}

/// One rendered method stub.
pub open spec fn render_method(m: MethodV) -> Seq<char> {
    "    "@ + modifier_text(m.modifier) + " "@ + m.ret + " "@ + m.name + "("@ + params_text(
        m.params,
    ) + ") {\n        // not implemented\n    }\n"@
}

pub open spec fn render_methods(ms: Seq<MethodV>) -> Seq<char>
    decreases ms.len(),
{
    if ms.len() == 0 {
        Seq::empty()
    } else {
        render_methods(ms.drop_last()) + render_method(ms.last())
    }
}

/// The declaration line of a class, with its optional links.
pub open spec fn render_signature(name: Seq<char>, c: ClassV) -> Seq<char> {
    "public class "@ + name + (if c.extended.len() > 0 {
        " extends "@ + c.extended
    } else {
        Seq::empty()
    }) + (if c.interface.len() > 0 {
        " implements "@ + c.interface
    } else {
        Seq::empty()
    }) + " {\n"@
}

/// The whole rendered class.
pub open spec fn render_class(name: Seq<char>, c: ClassV) -> Seq<char> {
    render_signature(name, c) + render_fields(c.fields) + (if c.fields.len() > 0
        && c.methods.len() > 0 {
        "\n"@
    } else {
        Seq::empty()
    }) + render_methods(c.methods) + "}"@
}

/// Append the declaration line of a class to the rendered text.
pub fn generate_class_signature(class_name: &str, class: &Class, class_source: &mut String)
    ensures
        final(class_source)@ == old(class_source)@ + render_signature(class_name@, class@),
{
    class_source.append("public class ");
    class_source.append(class_name);
    let ext = class.extended_class();
    if !ext.is_empty() {
        class_source.append(" extends ");
        class_source.append(ext);
    }
    let ifc = class.interface();
    if !ifc.is_empty() {
        class_source.append(" implements ");
        class_source.append(ifc);
    }
    class_source.append(" {\n");
    proof {
        assert(class_source@ =~= old(class_source)@ + render_signature(class_name@, class@));
    }
}

/// Append one line per field, in insertion order.
pub fn generate_fields(class: &Class, class_source: &mut String)
    ensures
        final(class_source)@ == old(class_source)@ + render_fields(class@.fields),
{
    let fields = class.fields();
    let n = fields.len();
    let ghost fv = class@.fields;
    let mut i: usize = 0;
    proof {
        assert(render_fields(fv.take(0)) =~= Seq::<char>::empty());
        assert(class_source@ =~= old(class_source)@ + render_fields(fv.take(0)));
    }
    while i < n
        invariant
            0 <= i <= n,
            n == fields.len(),
            fv == class@.fields,
            fv == fields.deep_view(),
            fv.len() == n,
            class_source@ == old(class_source)@ + render_fields(fv.take(i as int)),
        decreases n - i,
    {
        proof {
            assert(fields.deep_view()[i as int] == fields@[i as int]@);
        }
        let f = &fields[i];
        class_source.append("    ");
        class_source.append(f.access_modifier().text());
        class_source.append(" ");
        class_source.append(f.attr_type());
        class_source.append(" ");
        class_source.append(f.name());
        class_source.append(";\n");
        proof {
            assert(fv.take(i + 1).drop_last() =~= fv.take(i as int));
            assert(fv.take(i + 1).last() == fv[i as int]);
            assert(class_source@ =~= old(class_source)@ + render_fields(fv.take(i + 1)));
        }
        i = i + 1;
    }
    proof {
        assert(fv.take(n as int) =~= fv);
    }
}

/// Append one stub per method, in insertion order.
pub fn generate_methods(class: &Class, class_source: &mut String)
    ensures
        final(class_source)@ == old(class_source)@ + render_methods(class@.methods),
{
    let methods = class.methods();
    let n = methods.len();
    let ghost mv = class@.methods;
    let mut i: usize = 0;
    proof {
        assert(render_methods(mv.take(0)) =~= Seq::<char>::empty());
        assert(class_source@ =~= old(class_source)@ + render_methods(mv.take(0)));
    }
    while i < n
        invariant
            0 <= i <= n,
            n == methods.len(),
            mv == class@.methods,
            mv == methods.deep_view(),
            mv.len() == n,
            class_source@ == old(class_source)@ + render_methods(mv.take(i as int)),
        decreases n - i,
    {
        proof {
            assert(methods.deep_view()[i as int] == methods@[i as int]@);
        }
        let m = &methods[i];
        let params = m.to_string();
        class_source.append("    ");
        class_source.append(m.access_modifier().text());
        class_source.append(" ");
        class_source.append(m.return_type());
        class_source.append(" ");
        class_source.append(m.name());
        class_source.append("(");
        class_source.append(params.as_str());
        class_source.append(") {\n        // not implemented\n    }\n");
        proof {
            assert(mv.take(i + 1).drop_last() =~= mv.take(i as int));
            assert(mv.take(i + 1).last() == mv[i as int]);
            assert(class_source@ =~= old(class_source)@ + render_methods(mv.take(i + 1)));
        }
        i = i + 1;
    }
    proof {
        assert(mv.take(n as int) =~= mv);
    }
}

/// Render one class and append it to the output under its name.
pub fn generate_class(
    classes_source: &mut Vec<(String, String)>,
    class_name: &str,
    class: &Class,
)
    ensures
        final(classes_source)@.len() == old(classes_source)@.len() + 1,
        forall|i: int|
            0 <= i < old(classes_source)@.len() ==> final(classes_source)@[i] == old(
                classes_source,
            )@[i],
        final(classes_source)@.last().0@ == class_name@,
        final(classes_source)@.last().1@ == render_class(class_name@, class@),
{
    let mut class_source = String::new();
    generate_class_signature(class_name, class, &mut class_source);
    generate_fields(class, &mut class_source);
    if fields_and_methods(class) {
        class_source.append("\n");
    }
    generate_methods(class, &mut class_source);
    class_source.append("}");
    proof {
        assert(class_source@ =~= render_class(class_name@, class@));
    }
    classes_source.push((class_name.to_owned(), class_source));
}

/// The class has both at least one field and at least one method, so
/// its rendering carries the separating blank line.
fn fields_and_methods(class: &Class) -> (r: bool)
    ensures
        r == (class@.fields.len() > 0 && class@.methods.len() > 0),
{
    let fields = class.fields();
    let methods = class.methods();
    proof {
        assert(fields.deep_view().len() == fields@.len());
        assert(methods.deep_view().len() == methods@.len());
    }
    fields.len() > 0 && methods.len() > 0
}

/// Render every class of the model, one output entry per class, in the
/// model's order.
pub fn generate_java_code(classes: &ClassModel) -> (out: Vec<(String, String)>)
    ensures
        out@.len() == classes@.len(),
        forall|i: int|
            0 <= i < classes@.len() ==> (#[trigger] out@[i]).0@ == classes@[i].name
                && out@[i].1@ == render_class(classes@[i].name, classes@[i].class),
{
    let entries = classes.entries();
    let n = entries.len();
    let mut classes_source: Vec<(String, String)> = Vec::new();
    let mut i: usize = 0;
    while i < n
        invariant
            0 <= i <= n,
            n == entries.len(),
            entries.deep_view() == classes@,
            classes@.len() == n,
            classes_source@.len() == i,
            forall|k: int|
                0 <= k < i ==> (#[trigger] classes_source@[k]).0@ == classes@[k].name
                    && classes_source@[k].1@ == render_class(classes@[k].name, classes@[k].class),
        decreases n - i,
    {
        proof {
            assert(entries.deep_view()[i as int] == entries@[i as int]@);
        }
        let entry = &entries[i];
        generate_class(&mut classes_source, entry.name(), entry.class());
        i = i + 1;
    }
    classes_source
}

/// The Java backend of the rendering strategy.
pub struct JavaStrategy;

impl SourceCodeStrategy for JavaStrategy {
    fn render(&self, classes: &ClassModel) -> (out: Vec<(String, String)>)
        ensures
            forall|i: int|
                0 <= i < classes@.len() ==> (#[trigger] out@[i]).1@ == render_class(
                    classes@[i].name,
                    classes@[i].class,
                ),
    {
        generate_java_code(classes)
    }
}

} // verus!
