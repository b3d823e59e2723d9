use puml::class::AccessModifier;
use puml::java::JavaStrategy;
use puml::parser::{parse, parse_puml, LineRead};
use puml::patterns::RegexHolder;

fn lines_of(text: &str) -> Vec<LineRead> {
    text.split('\n').map(|l| LineRead::Line(l.to_string())).collect()
}

fn model_of(text: &str) -> puml::model::ClassModel {
    parse_puml(&RegexHolder::new(), &lines_of(text)).unwrap()
}

#[test]
fn class_lines_key_output_once() {
    let out = parse(&lines_of("class Foo\nclass Bar\nclass Foo"), JavaStrategy).unwrap();
    assert_eq!(out.len(), 2);
    assert_eq!(out.iter().filter(|e| e.0 == "Foo").count(), 1);
    assert_eq!(out.iter().filter(|e| e.0 == "Bar").count(), 1);
}

#[test]
fn rerun_yields_identical_output() {
    let text = "class Foo\nextends Bar\n+ getName : String()\n- int age\nclass Baz";
    let a = parse(&lines_of(text), JavaStrategy).unwrap();
    let b = parse(&lines_of(text), JavaStrategy).unwrap();
    assert_eq!(a, b);
}

#[test]
fn redefinition_resets_class() {
    let m = model_of("class Foo\n- int age\nclass Foo\n+ getName : String()");
    let foo = m.get("Foo").unwrap();
    assert!(foo.fields().is_empty());
    assert_eq!(foo.methods().len(), 1);
    assert_eq!(foo.methods()[0].name(), "getName");
}

#[test]
fn member_before_class_is_dropped() {
    let m = model_of("- int age\nclass Foo");
    assert_eq!(m.len(), 1);
    let foo = m.get("Foo").unwrap();
    assert!(foo.fields().is_empty());
    assert!(foo.methods().is_empty());
}

#[test]
fn unreadable_line_aborts_with_error() {
    let lines = vec![
        LineRead::Line("class Foo".to_string()),
        LineRead::ReadFailure("boom".to_string()),
        LineRead::Line("class Bar".to_string()),
    ];
    let r = parse(&lines, JavaStrategy);
    assert!(r.is_err());
    assert_eq!(r.err().unwrap().message(), "Error reading line: boom");
}

#[test]
fn standalone_extends_attaches_to_current_class() {
    let m = model_of("class Foo\nclass Bar\nextends Foo");
    assert_eq!(m.get("Bar").unwrap().extended_class(), "Foo");
    assert_eq!(m.get("Foo").unwrap().extended_class(), "");
}

#[test]
fn method_line_parses_name_and_return_type() {
    let m = model_of("class Foo\n+ getName : String()");
    let foo = m.get("Foo").unwrap();
    assert_eq!(foo.methods().len(), 1);
    let method = &foo.methods()[0];
    assert_eq!(method.access_modifier(), AccessModifier::Public);
    assert_eq!(method.name(), "getName");
    assert_eq!(method.return_type(), "String");
    assert!(method.parameters().is_empty());
}

#[test]
fn field_line_parses_type_and_name() {
    let m = model_of("class Foo\n- int age");
    let foo = m.get("Foo").unwrap();
    assert_eq!(foo.fields().len(), 1);
    let field = &foo.fields()[0];
    assert_eq!(field.access_modifier(), AccessModifier::Private);
    assert_eq!(field.attr_type(), "int");
    assert_eq!(field.name(), "age");
}

#[test]
fn method_parameters_are_captured() {
    let m = model_of("class Foo\n+ setAge : void(int age)");
    let foo = m.get("Foo").unwrap();
    let method = &foo.methods()[0];
    assert_eq!(method.parameters().len(), 1);
    assert_eq!(method.parameters()[0].name(), "age");
    assert_eq!(method.parameters()[0].param_type(), "int");
    assert_eq!(method.to_string(), "int age");
}

#[test]
fn field_shaped_method_line_yields_field_fact() {
    // The line satisfies the field sub-rule; without a colon the method
    // sub-rule does not fire.
    let m = model_of("class Foo\n+ int bar(String name)");
    let foo = m.get("Foo").unwrap();
    assert_eq!(foo.fields().len(), 1);
    assert_eq!(foo.fields()[0].access_modifier(), AccessModifier::Public);
    assert_eq!(foo.fields()[0].attr_type(), "int");
    assert_eq!(foo.fields()[0].name(), "bar");
}

#[test]
fn line_matching_both_sub_rules_yields_both_facts() {
    let m = model_of("class Foo\n# x y + t : m(int a)");
    let foo = m.get("Foo").unwrap();
    assert_eq!(foo.fields().len(), 1);
    assert_eq!(foo.fields()[0].attr_type(), "x");
    assert_eq!(foo.fields()[0].name(), "y");
    assert_eq!(foo.fields()[0].access_modifier(), AccessModifier::Protected);
    assert_eq!(foo.methods().len(), 1);
    assert_eq!(foo.methods()[0].name(), "t");
    assert_eq!(foo.methods()[0].return_type(), "m");
    assert_eq!(foo.methods()[0].access_modifier(), AccessModifier::Protected);
}

#[test]
fn modifier_falls_back_to_unknown() {
    let m = model_of("class Foo\nx + m : void()");
    let foo = m.get("Foo").unwrap();
    assert_eq!(foo.methods().len(), 1);
    assert_eq!(foo.methods()[0].access_modifier(), AccessModifier::Unknown);
    assert_eq!(foo.methods()[0].name(), "m");
}

#[test]
fn links_on_the_declaration_line() {
    let m = model_of("class Foo extends Bar implements Baz");
    let foo = m.get("Foo").unwrap();
    assert_eq!(foo.extended_class(), "Bar");
    assert_eq!(foo.interface(), "Baz");
}

#[test]
fn generic_suffix_is_kept_in_the_link() {
    let m = model_of("class Foo\nextends Bar<T>\nimplements Baz<K, V>");
    let foo = m.get("Foo").unwrap();
    assert_eq!(foo.extended_class(), "Bar<T>");
    assert_eq!(foo.interface(), "Baz<K, V>");
}

#[test]
fn last_link_wins() {
    let m = model_of("class Foo\nextends Bar\nextends Qux");
    assert_eq!(m.get("Foo").unwrap().extended_class(), "Qux");
}

#[test]
fn duplicate_members_collapse() {
    let m = model_of("class Foo\n- int age\n- int age\n+ getName : String()\n+ getName : String()");
    let foo = m.get("Foo").unwrap();
    assert_eq!(foo.fields().len(), 1);
    assert_eq!(foo.methods().len(), 1);
}

#[test]
fn structurally_distinct_members_stay() {
    let m = model_of("class Foo\n- int age\n+ int age\n- long age");
    assert_eq!(m.get("Foo").unwrap().fields().len(), 3);
}

#[test]
fn later_parameter_of_same_name_wins() {
    let m = model_of("class Foo\n+ m : void(int a, String a)");
    let method = &m.get("Foo").unwrap().methods()[0];
    assert_eq!(method.parameters().len(), 1);
    assert_eq!(method.parameters()[0].name(), "a");
    assert_eq!(method.parameters()[0].param_type(), "String");
}

#[test]
fn parameters_render_in_name_order() {
    let m = model_of("class Foo\n+ m : void(int b, int a)");
    let method = &m.get("Foo").unwrap().methods()[0];
    assert_eq!(method.to_string(), "int a, int b");
}

#[test]
fn malformed_parameter_segments_are_dropped() {
    let m = model_of("class Foo\n+ m : void(int a, , %, c)");
    let method = &m.get("Foo").unwrap().methods()[0];
    assert_eq!(method.parameters().len(), 1);
    assert_eq!(method.parameters()[0].name(), "a");
}

#[test]
fn surrounding_whitespace_is_trimmed() {
    let m = model_of("   class Foo   \n\t- int age\t");
    let foo = m.get("Foo").unwrap();
    assert_eq!(foo.fields().len(), 1);
}

#[test]
fn class_keyword_matches_inside_words() {
    // The class rule searches the line, so a longer word that contains
    // the keyword also declares a class.
    let m = model_of("subclass Foo");
    assert!(m.get("Foo").is_some());
}

#[test]
fn empty_input_yields_empty_output() {
    let out = parse(&Vec::new(), JavaStrategy).unwrap();
    assert!(out.is_empty());
}

#[test]
fn unmatched_lines_are_skipped_silently() {
    let m = model_of("class Foo\nnothing to see here\n???\n");
    assert_eq!(m.len(), 1);
    let foo = m.get("Foo").unwrap();
    assert!(foo.fields().is_empty());
    assert!(foo.methods().is_empty());
}
