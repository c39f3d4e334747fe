use reproto::java::{
    AnnotationSpec, ArgumentSpec, AsName, ClassSpec, ConstructorSpec, FieldSpec, FileSpec,
    JavaError, MethodSpec, Modifier, Modifiers, Statement, Type, TypeSpec, Variable,
};

fn mods(list: &[Modifier]) -> Modifiers {
    let mut m = Modifiers::new();
    for x in list {
        m.insert(*x);
    }
    m
}

#[test]
fn test_Test_java() {
    let string_type = Type::new("java.lang", "String");
    let list_type = Type::new("java.util", "List");
    let json_creator_type = Type::new("com.fasterxml.jackson.annotation", "JsonCreator");
    let list_of_strings = list_type.with_arguments(vec![string_type.clone()]);

    let values_field = FieldSpec::new(
        mods(&[Modifier::Private, Modifier::Final]),
        list_of_strings.clone(),
        "values",
    );

    let values_argument =
        ArgumentSpec::new(mods(&[Modifier::Final]), list_of_strings.clone(), "values");

    let mut constructor = ConstructorSpec::new(mods(&[Modifier::Public]));
    constructor.push_annotation(&AnnotationSpec::new(json_creator_type));
    constructor.push_argument(&values_argument);
    let mut assign = Statement::new();
    assign.push("this.values = $N", vec![Variable::Name(values_argument.as_name())]);
    constructor.push_statement(&assign);

    let mut values_getter = MethodSpec::new(mods(&[Modifier::Public]), "getValues");
    values_getter.set_returns(list_of_strings.clone());
    let mut ret = Statement::new();
    ret.push("return this.$N", vec![Variable::Name(values_field.as_name())]);
    values_getter.push_statement(&ret);

    let mut class = ClassSpec::new(mods(&[Modifier::Public]), "Test");
    class.push_field(&values_field);
    class.push_constructor(&constructor);
    class.push_method(&values_getter);

    let mut file = FileSpec::new("se.tedro");
    file.push_class(&class);

    let result = file.format().unwrap();

    let reference = "package se.tedro;\n\
                     \n\
                     import com.fasterxml.jackson.annotation.JsonCreator;\n\
                     import java.util.List;\n\
                     \n\
                     public class Test {\n\
                     \x20\x20private final List<String> values;\n\
                     \n\
                     \x20\x20@JsonCreator\n\
                     \x20\x20public Test(final List<String> values) {\n\
                     \x20\x20\x20\x20this.values = values;\n\
                     \x20\x20}\n\
                     \n\
                     \x20\x20public List<String> getValues() {\n\
                     \x20\x20\x20\x20return this.values;\n\
                     \x20\x20}\n\
                     }\n";
    assert_eq!(reference, result);
}

#[test]
fn modifiers_format_in_rank_order() {
    let m = mods(&[Modifier::Final, Modifier::Public, Modifier::Static]);
    assert_eq!(m.format().unwrap(), "public static final");
    assert!(!m.is_empty());
    assert!(Modifiers::new().is_empty());
}

#[test]
fn modifiers_insert_is_idempotent() {
    let m = mods(&[Modifier::Public, Modifier::Public, Modifier::Final, Modifier::Public]);
    assert_eq!(m.format().unwrap(), "public final");
}

#[test]
fn type_format_with_arguments() {
    let string_type = Type::new("java.lang", "String");
    let map_type = Type::new("java.util", "Map");
    let nested = map_type.with_arguments(vec![string_type.clone(), string_type.clone()]);
    assert_eq!(nested.format().unwrap(), "Map<String, String>");
    let plain = TypeSpec::new(Type::new("java.lang", "Object"), Vec::new());
    assert_eq!(plain.format().unwrap(), "Object");
}

#[test]
fn statement_format_escapes() {
    let mut s = Statement::new();
    s.push("$S", vec![Variable::String(String::from("a\"b\\c\n"))]);
    let lines = s.format().unwrap();
    assert_eq!(lines, vec![String::from("\"a\\\"b\\\\c\\n\"")]);
}

#[test]
fn statement_format_literal_and_spacing() {
    let mut s = Statement::new();
    s.push_literal("one");
    s.push_spacing();
    s.push_literal("two");
    assert_eq!(s.format().unwrap(), vec![String::from("one"), String::from("two")]);
}

#[test]
fn statement_join_inserts_literal() {
    let mut s = Statement::new();
    s.push_literal("a");
    s.push_literal("b");
    s.push_literal("c");
    let joined = s.join(", ");
    assert_eq!(joined.format().unwrap(), vec![String::from("a, b, c")]);
}

#[test]
fn format_reports_invalid_escape() {
    let mut s = Statement::new();
    s.push("oops $", Vec::new());
    assert_eq!(s.format(), Err(JavaError::InvalidEscape));
    let mut u = Statement::new();
    u.push("$Q", vec![Variable::Literal(String::from("x"))]);
    assert_eq!(u.format(), Err(JavaError::InvalidEscape));
}

#[test]
fn format_reports_variable_underflow() {
    let mut s = Statement::new();
    s.push("$L", Vec::new());
    assert_eq!(s.format(), Err(JavaError::VariableUnderflow));
}

#[test]
fn format_reports_invalid_variable() {
    let mut s = Statement::new();
    s.push("$L", vec![Variable::Name(String::from("x"))]);
    assert_eq!(s.format(), Err(JavaError::InvalidVariable));
}
