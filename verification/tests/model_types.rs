use puml::class::{AccessModifier, Class, Field, Method, Param};
use puml::parser::{
    extract_access_modifier, extract_class_definition, extract_field, extract_interface,
    extract_member, extract_method, extract_parameters, extract_parent, get_access_modifier,
    LineRead, SourceReadError,
};
use puml::model::ClassModel;
use puml::patterns::{ClassRegex, RegexHolder};
use puml::text::{str_eq, str_lt, trim_exec};

#[test]
fn access_modifier_glyphs() {
    assert_eq!(get_access_modifier('+'), Some(AccessModifier::Public));
    assert_eq!(get_access_modifier('-'), Some(AccessModifier::Private));
    assert_eq!(get_access_modifier('#'), Some(AccessModifier::Protected));
    assert_eq!(get_access_modifier('x'), None);
}

#[test]
fn modifier_of_line_comes_from_first_character() {
    assert_eq!(extract_access_modifier("+ int age"), AccessModifier::Public);
    assert_eq!(extract_access_modifier("# int age"), AccessModifier::Protected);
    assert_eq!(extract_access_modifier("int + age"), AccessModifier::Unknown);
    assert_eq!(extract_access_modifier(""), AccessModifier::Unknown);
}

#[test]
fn modifier_text_values() {
    assert_eq!(AccessModifier::Public.text(), "public");
    assert_eq!(AccessModifier::Private.text(), "private");
    assert_eq!(AccessModifier::Protected.text(), "protected");
    assert_eq!(AccessModifier::Unknown.text(), "unknown");
}

#[test]
fn pattern_table_keeps_the_rule_order() {
    let holder = RegexHolder::new();
    let rules = holder.regexes();
    assert_eq!(rules.len(), 6);
    assert_eq!(rules[0], ClassRegex::Class);
    assert_eq!(rules[1], ClassRegex::Parent);
    assert_eq!(rules[2], ClassRegex::Interface);
    assert_eq!(rules[3], ClassRegex::Method);
    assert_eq!(rules[4], ClassRegex::Field);
    assert_eq!(rules[5], ClassRegex::Parameter);
}

#[test]
fn extractors_find_the_leftmost_match() {
    let holder = RegexHolder::new();
    assert_eq!(extract_class_definition(&holder, "class Foo"), Some("Foo".to_string()));
    assert_eq!(extract_class_definition(&holder, "no declaration"), None);
    assert_eq!(extract_parent(&holder, "extends Bar"), Some("Bar".to_string()));
    assert_eq!(extract_parent(&holder, "extendsX extends Foo"), Some("Foo".to_string()));
    assert_eq!(extract_interface(&holder, "implements Baz"), Some("Baz".to_string()));
    assert_eq!(extract_interface(&holder, "implements"), None);
}

#[test]
fn member_extraction_needs_a_glyph() {
    let (method, field) = extract_member("int age");
    assert!(method.is_none());
    assert!(field.is_none());
    let (method, field) = extract_member("- int age");
    assert!(method.is_none());
    assert_eq!(field.unwrap().name(), "age");
}

#[test]
fn parameters_extract_sorted_and_deduplicated() {
    let params = extract_parameters("int b, String a, long b");
    assert_eq!(params.len(), 2);
    assert_eq!(params[0].name(), "a");
    assert_eq!(params[0].param_type(), "String");
    assert_eq!(params[1].name(), "b");
    assert_eq!(params[1].param_type(), "long");
}

#[test]
fn field_accessors_and_setters() {
    let mut field = Field::new(AccessModifier::Public, "age".to_string(), "int".to_string());
    assert_eq!(field.access_modifier(), AccessModifier::Public);
    assert_eq!(field.name(), "age");
    assert_eq!(field.attr_type(), "int");
    field.set_access_modifier(AccessModifier::Private);
    field.set_name("count".to_string());
    field.set_attr_type("long".to_string());
    assert_eq!(field.access_modifier(), AccessModifier::Private);
    assert_eq!(field.name(), "count");
    assert_eq!(field.attr_type(), "long");
}

#[test]
fn method_accessors_and_setters() {
    let mut method = Method::new(
        AccessModifier::Public,
        "getAge".to_string(),
        "int".to_string(),
        Vec::new(),
    );
    assert_eq!(method.access_modifier(), AccessModifier::Public);
    assert_eq!(method.name(), "getAge");
    assert_eq!(method.return_type(), "int");
    assert!(method.parameters().is_empty());
    method.set_access_modifier(AccessModifier::Protected);
    method.set_name("setAge".to_string());
    method.set_return_type("void".to_string());
    method.set_parameters(vec![Param::new("age".to_string(), "int".to_string())]);
    assert_eq!(method.access_modifier(), AccessModifier::Protected);
    assert_eq!(method.name(), "setAge");
    assert_eq!(method.return_type(), "void");
    assert_eq!(method.parameters().len(), 1);
    assert_eq!(method.to_string(), "int age");
}

#[test]
fn member_equality_is_structural() {
    let a = Field::new(AccessModifier::Public, "age".to_string(), "int".to_string());
    let b = Field::new(AccessModifier::Public, "age".to_string(), "int".to_string());
    let c = Field::new(AccessModifier::Private, "age".to_string(), "int".to_string());
    assert!(a == b);
    assert!(a != c);
    let m1 = Method::new(
        AccessModifier::Public,
        "m".to_string(),
        "void".to_string(),
        vec![Param::new("a".to_string(), "int".to_string())],
    );
    let m2 = Method::new(
        AccessModifier::Public,
        "m".to_string(),
        "void".to_string(),
        vec![Param::new("a".to_string(), "int".to_string())],
    );
    let m3 = Method::new(
        AccessModifier::Public,
        "m".to_string(),
        "void".to_string(),
        vec![Param::new("a".to_string(), "long".to_string())],
    );
    assert!(m1 == m2);
    assert!(m1 != m3);
}

#[test]
fn class_setters_replace_wholesale() {
    let mut class = Class::new();
    assert_eq!(class.extended_class(), "");
    assert_eq!(class.interface(), "");
    class.set_extended_class("Bar".to_string());
    class.set_interface("Baz".to_string());
    class.set_fields(vec![Field::new(
        AccessModifier::Public,
        "age".to_string(),
        "int".to_string(),
    )]);
    class.set_methods(vec![Method::new(
        AccessModifier::Public,
        "m".to_string(),
        "void".to_string(),
        Vec::new(),
    )]);
    assert_eq!(class.extended_class(), "Bar");
    assert_eq!(class.interface(), "Baz");
    assert_eq!(class.fields().len(), 1);
    assert_eq!(class.methods().len(), 1);
}

#[test]
fn add_member_collapses_exact_duplicates() {
    let mut class = Class::new();
    class.add_field(Field::new(AccessModifier::Public, "age".to_string(), "int".to_string()));
    class.add_field(Field::new(AccessModifier::Public, "age".to_string(), "int".to_string()));
    class.add_field(Field::new(AccessModifier::Private, "age".to_string(), "int".to_string()));
    assert_eq!(class.fields().len(), 2);
    class.add_method(Method::new(
        AccessModifier::Public,
        "m".to_string(),
        "void".to_string(),
        Vec::new(),
    ));
    class.add_method(Method::new(
        AccessModifier::Public,
        "m".to_string(),
        "void".to_string(),
        Vec::new(),
    ));
    assert_eq!(class.methods().len(), 1);
}

#[test]
fn source_read_error_keeps_its_message() {
    let err = SourceReadError::new("no such file".to_string());
    assert_eq!(err.message(), "no such file");
}

#[test]
fn line_read_variants_carry_their_text() {
    let ok = LineRead::Line("class Foo".to_string());
    let bad = LineRead::ReadFailure("gone".to_string());
    match ok {
        LineRead::Line(t) => assert_eq!(t, "class Foo"),
        LineRead::ReadFailure(_) => panic!("expected a line"),
    }
    match bad {
        LineRead::ReadFailure(m) => assert_eq!(m, "gone"),
        LineRead::Line(_) => panic!("expected a failure"),
    }
}

#[test]
fn text_helpers() {
    assert_eq!(trim_exec("  class Foo\t"), "class Foo");
    assert_eq!(trim_exec("   "), "");
    assert!(str_eq("abc", "abc"));
    assert!(!str_eq("abc", "abd"));
    assert!(str_lt("abc", "abd"));
    assert!(str_lt("ab", "abc"));
    assert!(!str_lt("abc", "abc"));
    assert!(!str_lt("b", "abc"));
}

#[test]
fn method_extractor_splits_the_line() {
    let method = extract_method("+ getName : String(int a)", AccessModifier::Public).unwrap();
    assert_eq!(method.name(), "getName");
    assert_eq!(method.return_type(), "String");
    assert_eq!(method.parameters().len(), 1);
    assert_eq!(method.parameters()[0].name(), "a");
    assert!(extract_method("+ getName String()", AccessModifier::Public).is_none());
    let field = extract_field("- int age", AccessModifier::Private).unwrap();
    assert_eq!(field.attr_type(), "int");
    assert_eq!(field.name(), "age");
    assert!(extract_field("-int age", AccessModifier::Private).is_none());
}

#[test]
fn empty_model_renders_to_nothing() {
    let out = puml::java::generate_java_code(&ClassModel::new());
    assert!(out.is_empty());
}
