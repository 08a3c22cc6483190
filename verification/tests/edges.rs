//! Exact texts, parsing through every scalar type, and the library's promises
//! checked on concrete forms.

use facet_form_spike::choices::{missing_variants, VariantChoice, VariantOptions, MissingVariants};
use facet_form_spike::error::{FieldError, FormError};
use facet_form_spike::form::{empty_form, empty_form_with_variants, form_for, Form};
use facet_form_spike::members::{FieldValue, FormMember};
use facet_form_spike::message::text_less;
use facet_form_spike::path::index_name;
use facet_form_spike::qualify;
use facet_form_spike::scalar::{parse_scalar, scalar_name, FloatText};
use facet_form_spike::schema::{Entry, FieldSchema, ScalarKind, Schema, Value, VariantSchema};

fn field(name: &str, schema: Schema) -> FieldSchema {
    FieldSchema { name: name.to_string(), schema }
}

fn string() -> Schema {
    Schema::Scalar(ScalarKind::Str)
}

fn text(t: &str) -> Value {
    Value::Scalar(t.to_string())
}

fn record(entries: Vec<(&str, Value)>) -> Value {
    Value::Record(entries.into_iter().map(|(n, v)| Entry { name: n.to_string(), value: v }).collect())
}

fn rsvp_shape() -> Schema {
    Schema::Struct(vec![
        field("name", string()),
        field("guests", Schema::Scalar(ScalarKind::U32)),
        field("note", Schema::Opt(Box::new(string()))),
    ])
}

fn shape_enum() -> Schema {
    Schema::Enum(vec![
        VariantSchema { name: "Circle".to_string(), fields: vec![field("radius", Schema::Scalar(ScalarKind::F64))] },
        VariantSchema {
            name: "Rectangle".to_string(),
            fields: vec![field("width", Schema::Scalar(ScalarKind::F64)), field("height", Schema::Scalar(ScalarKind::F64))],
        },
    ])
}

fn mode_enum() -> Schema {
    Schema::Enum(vec![
        VariantSchema { name: "Fast".to_string(), fields: vec![] },
        VariantSchema { name: "Slow".to_string(), fields: vec![] },
    ])
}

fn values(pairs: &[(&str, &str)]) -> Vec<(String, String)> {
    pairs.iter().map(|(k, v)| (k.to_string(), v.to_string())).collect()
}

fn floats_for(values: &[(String, String)]) -> Vec<FloatText> {
    values
        .iter()
        .map(|(_, raw)| FloatText {
            raw: raw.clone(),
            as_f32: raw.parse::<f32>().ok().map(|x| x.to_string()),
            as_f64: raw.parse::<f64>().ok().map(|x| x.to_string()),
        })
        .collect()
}

fn apply(form: &mut Form, pairs: &[(&str, &str)]) {
    let v = values(pairs);
    form.apply(&v, &floats_for(&v));
}

fn member<'a>(form: &'a Form, name: &str) -> &'a FormMember {
    form.members.iter().find(|m| m.name() == name).expect("no such member")
}

fn field_state(form: &Form, name: &str) -> (FieldValue, Vec<FieldError>) {
    match member(form, name) {
        FormMember::Field(f) => (f.value.clone(), f.errors.clone()),
        _ => panic!("not a field"),
    }
}

fn ada() -> Value {
    record(vec![("name", text("Ada")), ("guests", text("2")), ("note", Value::Absent)])
}

// ── Scalar parsing, one wrapper per type ──

#[test]
fn every_integer_type_normalizes_what_it_parses() {
    let none: Vec<FloatText> = Vec::new();
    for k in [
        ScalarKind::I8,
        ScalarKind::I16,
        ScalarKind::I32,
        ScalarKind::I64,
        ScalarKind::ISize,
        ScalarKind::U8,
        ScalarKind::U16,
        ScalarKind::U32,
        ScalarKind::U64,
        ScalarKind::USize,
    ] {
        assert_eq!(parse_scalar(k, "+7", &none), Ok("7".to_string()), "{k:?}");
        assert_eq!(parse_scalar(k, "007", &none), Ok("7".to_string()), "{k:?}");
    }
}

#[test]
fn integers_out_of_range_are_errors_naming_the_type() {
    let none: Vec<FloatText> = Vec::new();
    assert_eq!(parse_scalar(ScalarKind::I8, "300", &none), Err(FieldError("\"300\" isn't a valid i8".to_string())));
    assert_eq!(parse_scalar(ScalarKind::U8, "-1", &none), Err(FieldError("\"-1\" isn't a valid u8".to_string())));
    assert_eq!(parse_scalar(ScalarKind::I16, "40000", &none), Err(FieldError("\"40000\" isn't a valid i16".to_string())));
    assert_eq!(parse_scalar(ScalarKind::U16, "70000", &none), Err(FieldError("\"70000\" isn't a valid u16".to_string())));
    assert_eq!(
        parse_scalar(ScalarKind::I32, "3000000000", &none),
        Err(FieldError("\"3000000000\" isn't a valid i32".to_string()))
    );
    assert_eq!(parse_scalar(ScalarKind::U32, "-3", &none), Err(FieldError("\"-3\" isn't a valid u32".to_string())));
    assert_eq!(
        parse_scalar(ScalarKind::I64, "9223372036854775808", &none),
        Err(FieldError("\"9223372036854775808\" isn't a valid i64".to_string()))
    );
    assert_eq!(parse_scalar(ScalarKind::U64, "x", &none), Err(FieldError("\"x\" isn't a valid u64".to_string())));
    assert_eq!(parse_scalar(ScalarKind::ISize, "1.5", &none), Err(FieldError("\"1.5\" isn't a valid isize".to_string())));
    assert_eq!(parse_scalar(ScalarKind::USize, "-0x1", &none), Err(FieldError("\"-0x1\" isn't a valid usize".to_string())));
}

#[test]
fn the_error_quotes_the_input_as_debug_does() {
    let none: Vec<FloatText> = Vec::new();
    assert_eq!(
        parse_scalar(ScalarKind::U32, "a\"b", &none),
        Err(FieldError("\"a\\\"b\" isn't a valid u32".to_string()))
    );
}

#[test]
fn strings_and_bools() {
    let none: Vec<FloatText> = Vec::new();
    assert_eq!(parse_scalar(ScalarKind::Str, " any text ", &none), Ok(" any text ".to_string()));
    assert_eq!(parse_scalar(ScalarKind::Bool, "true", &none), Ok("true".to_string()));
    assert_eq!(parse_scalar(ScalarKind::Bool, "false", &none), Ok("false".to_string()));
    assert_eq!(parse_scalar(ScalarKind::Bool, "yes", &none), Err(FieldError("\"yes\" isn't a valid bool".to_string())));
}

#[test]
fn floats_read_through_the_table() {
    let vals = values(&[("ratio", "2.50")]);
    let floats = floats_for(&vals);
    assert_eq!(parse_scalar(ScalarKind::F64, "2.50", &floats), Ok("2.5".to_string()));
    assert_eq!(parse_scalar(ScalarKind::F32, "2.50", &floats), Ok("2.5".to_string()));
    let none: Vec<FloatText> = Vec::new();
    assert_eq!(parse_scalar(ScalarKind::F64, "2.50", &none), Err(FieldError("\"2.50\" isn't a valid f64".to_string())));
    let bad = values(&[("ratio", "abc")]);
    assert_eq!(parse_scalar(ScalarKind::F32, "abc", &floats_for(&bad)), Err(FieldError("\"abc\" isn't a valid f32".to_string())));
}

#[test]
fn scalar_names() {
    assert_eq!(scalar_name(ScalarKind::Str), "String");
    assert_eq!(scalar_name(ScalarKind::USize), "usize");
    assert_eq!(scalar_name(ScalarKind::F32), "f32");
}

// ── Paths ──

#[test]
fn qualify_nests_under_a_prefix() {
    assert_eq!(qualify("", "title"), "title");
    assert_eq!(qualify("location", "street"), "location.street");
    assert_eq!(qualify("places.0", "zip"), "places.0.zip");
}

#[test]
fn rows_are_named_in_decimal() {
    assert_eq!(index_name(0), "0");
    assert_eq!(index_name(9), "9");
    assert_eq!(index_name(10), "10");
    assert_eq!(index_name(1207), "1207");
}

// ── Field errors ──

#[test]
fn unparseable_input_keeps_the_raw_text_and_its_error() {
    let mut form = empty_form(&rsvp_shape()).unwrap();
    apply(&mut form, &[("guests", "abc")]);
    let (value, _) = field_state(&form, "guests");
    assert_eq!(
        value,
        FieldValue::Invalid { raw: "abc".to_string(), error: FieldError("\"abc\" isn't a valid u32".to_string()) }
    );
}

#[test]
fn a_required_empty_field_gets_the_required_error() {
    let mut form = empty_form(&rsvp_shape()).unwrap();
    assert_eq!(form.validate(), None);
    assert_eq!(field_state(&form, "name").1, vec![FieldError("This field is required.".to_string())]);
    assert_eq!(field_state(&form, "note").1, Vec::<FieldError>::new());
}

#[test]
fn a_form_level_error_counts_and_validate_clears_it() {
    let mut form = form_for(&rsvp_shape(), &ada());
    form.errors.push(FormError("server said no".to_string()));
    assert!(form.has_errors());
    assert_eq!(form.validate(), Some(ada()));
    assert!(form.errors.is_empty());
}

// ── Applying values ──

#[test]
fn the_last_value_for_a_path_wins() {
    let mut form = form_for(&rsvp_shape(), &ada());
    apply(&mut form, &[("name", "Bob"), ("name", "Cy")]);
    assert_eq!(
        form.validate(),
        Some(record(vec![("name", text("Cy")), ("guests", text("2")), ("note", Value::Absent)]))
    );
}

#[test]
fn paths_the_form_lacks_are_ignored_and_others_kept() {
    let mut form = form_for(&rsvp_shape(), &ada());
    apply(&mut form, &[("nickname", "A"), ("note", "hi")]);
    assert_eq!(
        form.validate(),
        Some(record(vec![
            ("name", text("Ada")),
            ("guests", text("2")),
            ("note", Value::Present(Box::new(text("hi")))),
        ]))
    );
}

#[test]
fn leaves_then_apply_restores_even_an_invalid_input() {
    let mut form = empty_form(&rsvp_shape()).unwrap();
    apply(&mut form, &[("name", "Ada"), ("guests", "lots")]);
    let leaves = form.leaves();
    let mut reloaded = empty_form(&rsvp_shape()).unwrap();
    reloaded.apply(&leaves, &floats_for(&leaves));
    assert_eq!(reloaded.leaves(), leaves);
    assert_eq!(field_state(&reloaded, "guests").0, field_state(&form, "guests").0);
}

#[test]
fn apply_form_values_is_apply() {
    let vals = values(&[("name", "Ada"), ("guests", "2")]);
    let mut a = empty_form(&rsvp_shape()).unwrap();
    let mut b = empty_form(&rsvp_shape()).unwrap();
    a.apply(&vals, &floats_for(&vals));
    b.apply_form_values(&vals, &floats_for(&vals));
    assert_eq!(a.leaves(), b.leaves());
    assert_eq!(a.validate(), b.validate());
}

// ── Rendering ──

#[test]
fn rendering_is_one_input_per_field() {
    let mut form = form_for(&rsvp_shape(), &ada());
    form.title = Some("RSVP".to_string());
    assert_eq!(
        form.render(),
        "<h2>RSVP</h2>\n\
         <input type=\"text\" name=\"name\" value=\"Ada\">\n\
         <input type=\"text\" name=\"guests\" value=\"2\">\n\
         <input type=\"text\" name=\"note\" value=\"\">"
    );
}

#[test]
fn an_absent_variant_renders_a_disabled_placeholder_and_no_leaf() {
    let shape = Schema::Struct(vec![field("shape", Schema::Opt(Box::new(shape_enum())))]);
    let form = form_for(&shape, &record(vec![("shape", Value::Absent)]));
    assert_eq!(form.render(), "<input type=\"text\" name=\"shape\" value=\"--none--\" disabled>");
    assert!(form.leaves().is_empty());
}

// ── Members ──

#[test]
fn member_accessors() {
    let form = form_for(&rsvp_shape(), &ada());
    let guests = member(&form, "guests");
    assert_eq!(guests.raw_value(), "2");
    assert_eq!(guests.label(), None);
    assert!(!guests.has_errors());
    assert_eq!(guests.to_value(), text("2"));
    assert_eq!(member(&form, "note").to_value(), Value::Absent);
}

#[test]
fn collect_leaves_qualifies_under_the_prefix() {
    let form = form_for(&rsvp_shape(), &ada());
    let mut out = Vec::new();
    member(&form, "name").collect_leaves("guest", &mut out);
    assert_eq!(out, vec![("guest.name".to_string(), "Ada".to_string())]);
}

// ── Choices and their message ──

fn config_shape() -> Schema {
    Schema::Struct(vec![field("shape", shape_enum()), field("mode", mode_enum())])
}

#[test]
fn the_missing_message_sorts_paths_and_lists_options() {
    let err = empty_form(&config_shape()).expect_err("two enums to choose");
    assert_eq!(
        err.message(),
        "no variant chosen for: mode (one of [\"Fast\", \"Slow\"]), shape (one of [\"Circle\", \"Rectangle\"])"
    );
}

#[test]
fn an_optional_enum_offers_none_in_the_message() {
    let shape = Schema::Struct(vec![field("name", string()), field("shape", Schema::Opt(Box::new(shape_enum())))]);
    let err = empty_form(&shape).expect_err("one enum to choose");
    assert_eq!(err.message(), "no variant chosen for: shape (one of [\"Circle\", \"Rectangle\"] or none)");
}

#[test]
fn a_message_by_hand() {
    let m = MissingVariants(vec![
        ("b.x".to_string(), VariantOptions { optional: false, variants: vec!["Q".to_string()] }),
        ("a".to_string(), VariantOptions { optional: true, variants: vec![] }),
    ]);
    assert_eq!(m.message(), "no variant chosen for: a (one of [] or none), b.x (one of [\"Q\"])");
}

#[test]
fn text_order_is_lexicographic() {
    assert!(text_less("a", "b"));
    assert!(text_less("a", "ab"));
    assert!(!text_less("ab", "a"));
    assert!(!text_less("same", "same"));
    assert!(text_less("Z", "a"));
    assert!(text_less("", "a"));
}

#[test]
fn answering_every_enum_builds_the_form() {
    let chosen = vec![
        ("shape".to_string(), VariantChoice::Named("Rectangle".to_string())),
        ("mode".to_string(), VariantChoice::Named("Slow".to_string())),
    ];
    assert!(missing_variants(&config_shape(), &chosen).is_empty());
    let mut form = empty_form_with_variants(&config_shape(), &chosen).expect("all answered");
    let paths: Vec<String> = form.leaves().into_iter().map(|(p, _)| p).collect();
    assert_eq!(paths, vec!["shape.width", "shape.height"]);
    apply(&mut form, &[("shape.width", "2"), ("shape.height", "0.5")]);
    assert_eq!(
        form.validate(),
        Some(record(vec![
            (
                "shape",
                Value::Variant(
                    "Rectangle".to_string(),
                    vec![
                        Entry { name: "width".to_string(), value: text("2") },
                        Entry { name: "height".to_string(), value: text("0.5") },
                    ],
                ),
            ),
            ("mode", Value::Variant("Slow".to_string(), vec![])),
        ]))
    );
}

#[test]
fn a_later_answer_for_the_same_path_wins() {
    let chosen = vec![
        ("shape".to_string(), VariantChoice::Named("Nope".to_string())),
        ("shape".to_string(), VariantChoice::Named("Circle".to_string())),
        ("mode".to_string(), VariantChoice::Named("Fast".to_string())),
    ];
    assert!(missing_variants(&config_shape(), &chosen).is_empty());
}

#[test]
fn an_enum_inside_a_list_still_needs_a_choice_in_create_mode() {
    let drawings = Schema::Struct(vec![field("shapes", Schema::List(Box::new(shape_enum())))]);
    let err = empty_form(&drawings).expect_err("the model holds an enum");
    assert_eq!(
        err.0,
        vec![(
            "shapes".to_string(),
            VariantOptions { optional: false, variants: vec!["Circle".to_string(), "Rectangle".to_string()] },
        )]
    );
    let chosen = vec![("shapes".to_string(), VariantChoice::Named("Circle".to_string()))];
    let mut form = empty_form_with_variants(&drawings, &chosen).expect("answered");
    assert!(form.leaves().is_empty());
    assert_eq!(form.validate(), Some(record(vec![("shapes", Value::List(vec![]))])));
}

#[test]
fn missing_choices_are_reported_even_beside_a_type_without_a_widget() {
    let shape = Schema::Struct(vec![field("blob", Schema::Unsupported), field("mode", mode_enum())]);
    let err = empty_form(&shape).expect_err("mode is unanswered");
    assert_eq!(err.message(), "no variant chosen for: mode (one of [\"Fast\", \"Slow\"])");
}

#[test]
fn a_fresh_create_form_has_no_errors_and_blank_inputs() {
    let form = empty_form(&rsvp_shape()).unwrap();
    assert!(!form.has_errors());
    assert!(form.leaves().iter().all(|(_, raw)| raw.is_empty()));
}

#[test]
fn integer_grammar_edges() {
    let none: Vec<FloatText> = Vec::new();
    assert_eq!(parse_scalar(ScalarKind::I8, "-0", &none), Ok("0".to_string()));
    assert_eq!(parse_scalar(ScalarKind::I8, "-128", &none), Ok("-128".to_string()));
    assert_eq!(parse_scalar(ScalarKind::U8, "-0", &none), Err(FieldError("\"-0\" isn't a valid u8".to_string())));
    assert_eq!(parse_scalar(ScalarKind::U8, "+", &none), Err(FieldError("\"+\" isn't a valid u8".to_string())));
    assert_eq!(parse_scalar(ScalarKind::I32, "-", &none), Err(FieldError("\"-\" isn't a valid i32".to_string())));
    assert_eq!(parse_scalar(ScalarKind::I32, " 5", &none), Err(FieldError("\" 5\" isn't a valid i32".to_string())));
    assert_eq!(parse_scalar(ScalarKind::U64, "18446744073709551615", &none), Ok("18446744073709551615".to_string()));
    assert_eq!(parse_scalar(ScalarKind::I64, "-00042", &none), Ok("-42".to_string()));
}

#[test]
fn applying_the_same_values_twice_is_applying_them_once() {
    let pairs = [("name", "Bob"), ("guests", "not a number"), ("note", "")];
    let mut once = form_for(&rsvp_shape(), &ada());
    let mut twice = form_for(&rsvp_shape(), &ada());
    apply(&mut once, &pairs);
    apply(&mut twice, &pairs);
    apply(&mut twice, &pairs);
    assert_eq!(once.leaves(), twice.leaves());
    assert_eq!(field_state(&once, "guests"), field_state(&twice, "guests"));
    assert_eq!(once.validate(), twice.validate());
}
