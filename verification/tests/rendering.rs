use puml::class::{AccessModifier, Class, Field, Method, Param};
use puml::code_generator::SourceCodeGenerator;
use puml::java::{generate_java_code, JavaStrategy};
use puml::parser::{parse, parse_puml, LineRead};
use puml::patterns::RegexHolder;

fn lines_of(text: &str) -> Vec<LineRead> {
    text.split('\n').map(|l| LineRead::Line(l.to_string())).collect()
}

fn rendered(text: &str, name: &str) -> String {
    let out = parse(&lines_of(text), JavaStrategy).unwrap();
    out.iter().find(|e| e.0 == name).map(|e| e.1.clone()).unwrap()
}

#[test]
fn empty_class_renders_declaration_and_empty_body() {
    assert_eq!(rendered("class Foo", "Foo"), "public class Foo {\n}");
}

#[test]
fn links_render_in_the_declaration_line() {
    assert_eq!(
        rendered("class Foo\nextends Bar\nimplements Baz", "Foo"),
        "public class Foo extends Bar implements Baz {\n}"
    );
}

#[test]
fn field_renders_modifier_type_name() {
    assert_eq!(
        rendered("class Foo\n- int age", "Foo"),
        "public class Foo {\n    private int age;\n}"
    );
}

#[test]
fn method_renders_stub_with_parameters() {
    assert_eq!(
        rendered("class Foo\n+ setAge : void(int age)", "Foo"),
        "public class Foo {\n    public void setAge(int age) {\n        // not implemented\n    }\n}"
    );
}

#[test]
fn blank_line_separates_fields_from_methods() {
    let code = rendered("class Foo\n- int age\n+ getAge : int()", "Foo");
    assert_eq!(
        code,
        "public class Foo {\n    private int age;\n\n    public int getAge() {\n        // not implemented\n    }\n}"
    );
}

#[test]
fn no_blank_line_without_fields() {
    let code = rendered("class Foo\n+ getAge : int()", "Foo");
    assert_eq!(
        code,
        "public class Foo {\n    public int getAge() {\n        // not implemented\n    }\n}"
    );
}

#[test]
fn generator_delegates_to_strategy() {
    let model = parse_puml(&RegexHolder::new(), &lines_of("class Foo\n- int age")).unwrap();
    let direct = generate_java_code(&model);
    let via_generator = SourceCodeGenerator::new(JavaStrategy).generate_source_code(&model);
    assert_eq!(direct, via_generator);
}

#[test]
fn one_output_entry_per_class_in_order() {
    let out = parse(&lines_of("class A\nclass B\nclass C"), JavaStrategy).unwrap();
    let names: Vec<&str> = out.iter().map(|e| e.0.as_str()).collect();
    assert_eq!(names, vec!["A", "B", "C"]);
}

#[test]
fn unknown_modifier_renders_as_unknown() {
    let code = rendered("class Foo\nx + m : void()", "Foo");
    assert_eq!(
        code,
        "public class Foo {\n    unknown void m() {\n        // not implemented\n    }\n}"
    );
}

#[test]
fn hand_built_class_renders_like_scanned_one() {
    let mut class = Class::new();
    class.set_extended_class("Bar".to_string());
    class.add_field(Field::new(
        AccessModifier::Private,
        "age".to_string(),
        "int".to_string(),
    ));
    class.add_method(Method::new(
        AccessModifier::Public,
        "getAge".to_string(),
        "int".to_string(),
        Vec::new(),
    ));
    let mut source = String::new();
    puml::java::generate_class_signature("Foo", &class, &mut source);
    assert_eq!(source, "public class Foo extends Bar {\n");
    let mut out: Vec<(String, String)> = Vec::new();
    puml::java::generate_class(&mut out, "Foo", &class);
    assert_eq!(out.len(), 1);
    assert_eq!(out[0].0, "Foo");
    assert_eq!(
        out[0].1,
        "public class Foo extends Bar {\n    private int age;\n\n    public int getAge() {\n        // not implemented\n    }\n}"
    );
}

#[test]
fn method_to_string_joins_parameters() {
    let params = vec![
        Param::new("a".to_string(), "int".to_string()),
        Param::new("b".to_string(), "String".to_string()),
    ];
    let method = Method::new(
        AccessModifier::Public,
        "m".to_string(),
        "void".to_string(),
        params,
    );
    assert_eq!(method.to_string(), "int a, String b");
}
