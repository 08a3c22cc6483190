//! Forms built from model shapes: construction, leaves, applying submitted
//! values, validation, enums and their choices, lists, and optional fields.

use facet_form_spike::choices::{missing_variants, required_variants, VariantChoice, VariantOptions};
use facet_form_spike::form::{empty_form, empty_form_with_variants, form_for, Form};
use facet_form_spike::members::{FieldSet, FieldValue, FormField, FormMember, ABSENT_DISPLAY};
use facet_form_spike::scalar::FloatText;
use facet_form_spike::schema::{Entry, FieldSchema, ScalarKind, Schema, Value, VariantSchema};
use std::collections::HashMap;

// ── Shapes ──

fn scalar(k: ScalarKind) -> Schema {
    Schema::Scalar(k)
}

fn string() -> Schema {
    scalar(ScalarKind::Str)
}

fn opt(s: Schema) -> Schema {
    Schema::Opt(Box::new(s))
}

fn list_of(s: Schema) -> Schema {
    Schema::List(Box::new(s))
}

fn field(name: &str, schema: Schema) -> FieldSchema {
    FieldSchema { name: name.to_string(), schema }
}

fn variant(name: &str, fields: Vec<FieldSchema>) -> VariantSchema {
    VariantSchema { name: name.to_string(), fields }
}

fn location_shape() -> Schema {
    Schema::Struct(vec![field("street", string()), field("city", string()), field("zip", string())])
}

fn event_for_create_shape() -> Schema {
    Schema::Struct(vec![field("title", string()), field("location", location_shape())])
}

fn rsvp_shape() -> Schema {
    Schema::Struct(vec![
        field("name", string()),
        field("guests", scalar(ScalarKind::U32)),
        field("note", opt(string())),
    ])
}

fn trip_shape() -> Schema {
    Schema::Struct(vec![field("origin", location_shape()), field("destination", location_shape())])
}

fn shape_enum() -> Schema {
    Schema::Enum(vec![
        variant("Circle", vec![field("radius", scalar(ScalarKind::F64))]),
        variant("Rectangle", vec![field("width", scalar(ScalarKind::F64)), field("height", scalar(ScalarKind::F64))]),
    ])
}

fn mode_enum() -> Schema {
    Schema::Enum(vec![variant("Fast", vec![]), variant("Slow", vec![])])
}

fn drawing_shape() -> Schema {
    Schema::Struct(vec![field("name", string()), field("shape", shape_enum())])
}

fn config_shape() -> Schema {
    Schema::Struct(vec![field("shape", shape_enum()), field("mode", mode_enum())])
}

fn outer_shape() -> Schema {
    Schema::Struct(vec![field("title", string()), field("drawing", drawing_shape())])
}

fn inner_enum() -> Schema {
    Schema::Enum(vec![
        variant("A", vec![field("x", scalar(ScalarKind::F64))]),
        variant("B", vec![field("y", scalar(ScalarKind::F64))]),
    ])
}

fn outer2_enum() -> Schema {
    Schema::Enum(vec![
        variant("First", vec![field("inner", inner_enum())]),
        variant("Second", vec![field("n", scalar(ScalarKind::U32))]),
    ])
}

fn doc_shape() -> Schema {
    Schema::Struct(vec![field("outer", outer2_enum())])
}

fn sketch_shape() -> Schema {
    Schema::Struct(vec![field("name", string()), field("shape", opt(shape_enum()))])
}

fn quiz_shape() -> Schema {
    Schema::Struct(vec![field("title", string()), field("answers", list_of(string()))])
}

fn venues_shape() -> Schema {
    Schema::Struct(vec![field("places", list_of(location_shape()))])
}

fn grid_shape() -> Schema {
    Schema::Struct(vec![field("rows", list_of(list_of(string())))])
}

fn drawings_shape() -> Schema {
    Schema::Struct(vec![field("shapes", list_of(shape_enum()))])
}

fn contact_shape() -> Schema {
    Schema::Struct(vec![field("name", string()), field("address", opt(location_shape()))])
}

fn optional_shape() -> Schema {
    Schema::Struct(vec![field("body", opt(string()))])
}

fn required_shape() -> Schema {
    Schema::Struct(vec![field("body", string())])
}

fn falsy_shape() -> Schema {
    Schema::Struct(vec![
        field("count", scalar(ScalarKind::I32)),
        field("ratio", scalar(ScalarKind::F64)),
        field("flag", scalar(ScalarKind::Bool)),
    ])
}

// ── Values ──

fn text(t: &str) -> Value {
    Value::Scalar(t.to_string())
}

fn some(v: Value) -> Value {
    Value::Present(Box::new(v))
}

fn record(entries: Vec<(&str, Value)>) -> Value {
    Value::Record(entries.into_iter().map(|(n, v)| Entry { name: n.to_string(), value: v }).collect())
}

fn variant_value(name: &str, entries: Vec<(&str, Value)>) -> Value {
    Value::Variant(name.to_string(), entries.into_iter().map(|(n, v)| Entry { name: n.to_string(), value: v }).collect())
}

fn entry<'a>(v: &'a Value, name: &str) -> &'a Value {
    match v {
        Value::Record(es) | Value::Variant(_, es) => &es.iter().find(|e| e.name == name).expect("no such field").value,
        _ => panic!("not a record"),
    }
}

fn location(street: &str, city: &str, zip: &str) -> Value {
    record(vec![("street", text(street)), ("city", text(city)), ("zip", text(zip))])
}

fn springfield() -> Value {
    location("123 Main St", "Springfield", "12345")
}

fn board_game_night() -> Value {
    record(vec![("title", text("Board Game Night")), ("location", springfield())])
}

fn rsvp(note: Option<&str>) -> Value {
    record(vec![
        ("name", text("Ada")),
        ("guests", text("2")),
        ("note", match note {
            Some(n) => some(text(n)),
            None => Value::Absent,
        }),
    ])
}

fn quiz() -> Value {
    record(vec![("title", text("Unit 1")), ("answers", Value::List(vec![text("alpha"), text("beta")]))])
}

fn venues() -> Value {
    record(vec![("places", Value::List(vec![springfield(), location("9 Elm", "Shelbyville", "99999")]))])
}

fn contact(address: Option<Value>) -> Value {
    record(vec![("name", text("Ada")), ("address", match address {
        Some(a) => some(a),
        None => Value::Absent,
    })])
}

// ── Submitting values ──

fn values(pairs: &[(&str, &str)]) -> Vec<(String, String)> {
    pairs.iter().map(|(k, v)| (k.to_string(), v.to_string())).collect()
}

/// What the `f32` and `f64` parsers make of each submitted value.
fn floats_for(values: &[(String, String)]) -> Vec<FloatText> {
    values
        .iter()
        .map(|(_, raw)| FloatText {
            raw: raw.clone(),
            as_f32: raw.parse::<f32>().ok().map(|x| x.to_string()),
            as_f64: raw.parse::<f64>().ok().map(|x| x.to_string()),
        })
        .collect()
}

fn apply(form: &mut Form, pairs: &[(&str, &str)]) {
    let v = values(pairs);
    form.apply(&v, &floats_for(&v));
}

fn apply_all(form: &mut Form, v: &Vec<(String, String)>) {
    form.apply(v, &floats_for(v));
}

fn apply_form_values(form: &mut Form, v: &Vec<(String, String)>) {
    form.apply_form_values(v, &floats_for(v));
}

fn paths(form: &Form) -> Vec<String> {
    form.leaves().into_iter().map(|(p, _)| p).collect()
}

fn member_names(members: &[FormMember]) -> Vec<String> {
    members.iter().map(|m| m.name()).collect()
}

fn text_field(name: &str, required: bool, value: FieldValue) -> FormMember {
    FormMember::Field(FormField {
        name: name.to_string(),
        label: None,
        required,
        kind: ScalarKind::Str,
        value,
        errors: Vec::new(),
    })
}

fn location_members(street: FieldValue, city: FieldValue, zip: FieldValue) -> Vec<FormMember> {
    vec![text_field("street", true, street), text_field("city", true, city), text_field("zip", true, zip)]
}

fn location_field_set(street: FieldValue, city: FieldValue, zip: FieldValue) -> FormMember {
    FormMember::Fields(FieldSet {
        name: "location".to_string(),
        label: Some("Location".to_string()),
        optional: false,
        members: location_members(street, city, zip),
        errors: Vec::new(),
    })
}

fn valid(t: &str) -> FieldValue {
    FieldValue::Valid(t.to_string())
}

// ── Variant choices ──

fn as_map(v: Vec<(String, VariantOptions)>) -> HashMap<String, VariantOptions> {
    v.into_iter().collect()
}

fn opt_variants(pairs: &[(&str, &[&str])], optional: bool) -> HashMap<String, VariantOptions> {
    pairs
        .iter()
        .map(|(path, vs)| {
            (path.to_string(), VariantOptions { optional, variants: vs.iter().map(|v| v.to_string()).collect() })
        })
        .collect()
}

fn variants(pairs: &[(&str, &[&str])]) -> HashMap<String, VariantOptions> {
    opt_variants(pairs, false)
}

fn optional_variants(pairs: &[(&str, &[&str])]) -> HashMap<String, VariantOptions> {
    opt_variants(pairs, true)
}

fn chose(pairs: &[(&str, VariantChoice)]) -> Vec<(String, VariantChoice)> {
    pairs.iter().map(|(path, c)| (path.to_string(), c.clone())).collect()
}

fn named(name: &str) -> VariantChoice {
    VariantChoice::Named(name.to_string())
}

fn create(s: &Schema) -> Form {
    empty_form(s).expect("no enum fields, so nothing to choose")
}

/// The inputs a form's leaves turn into, one per leaf, named by path.
fn inputs_html(leaves: Vec<(String, String)>) -> String {
    leaves
        .into_iter()
        .map(|(path, raw)| format!(r#"<input type="text" name="{path}" value="{raw}">"#))
        .collect::<Vec<String>>()
        .join("")
}

// ── Form basics ──

fn check_repeated_struct_types_get_distinct_paths() {
    let form = create(&trip_shape());
    assert_eq!(
        paths(&form),
        vec![
            "origin.street",
            "origin.city",
            "origin.zip",
            "destination.street",
            "destination.city",
            "destination.zip",
        ]
    );
}

fn check_form_for_none_walks_the_shape_into_empty_members() {
    let form = create(&event_for_create_shape());
    assert_eq!(member_names(&form.members), vec!["title", "location"]);
    let rendered = form.render();
    for name in ["title", "street", "city", "zip"] {
        assert!(rendered.contains(&format!(r#"name="{name}""#)), "expected an input for {name} in:\n{rendered}");
    }
    assert!(!rendered.contains(r#"value="Board Game Night""#));
}

fn check_form_for_none_is_invalid_until_filled() {
    let mut form = create(&event_for_create_shape());
    assert_eq!(form.validate(), None);
    assert!(form.has_errors());
}

fn check_form_for_some_round_trips_the_model() {
    let mut form = form_for(&event_for_create_shape(), &board_game_night());
    assert!(!form.has_errors());
    assert_eq!(form.validate(), Some(board_game_night()));
}

fn check_option_fields_are_not_required() {
    let mut form = create(&rsvp_shape());
    for m in form.members.iter_mut() {
        m.validate();
    }
    let complaining: Vec<String> = form.members.iter().filter(|m| m.has_errors()).map(|m| m.name()).collect();
    assert_eq!(complaining, vec!["name", "guests"]);
}

fn check_option_fields_round_trip_both_ways() {
    assert_eq!(form_for(&rsvp_shape(), &rsvp(Some("bringing dessert"))).validate(), Some(rsvp(Some("bringing dessert"))));
    assert_eq!(form_for(&rsvp_shape(), &rsvp(None)).validate(), Some(rsvp(None)));
}

fn check_applying_widget_values_round_trips_to_a_model() {
    let mut form = create(&event_for_create_shape());
    apply(&mut form, &[
        ("title", "Board Game Night"),
        ("location.street", "123 Main St"),
        ("location.city", "Springfield"),
        ("location.zip", "12345"),
    ]);
    assert_eq!(form.validate(), Some(board_game_night()));
}

fn check_non_string_scalars_parse_through_the_shape_vtable() {
    let mut form = create(&rsvp_shape());
    apply(&mut form, &[("name", "Ada"), ("guests", "2"), ("note", "bringing dessert")]);
    assert_eq!(form.validate(), Some(rsvp(Some("bringing dessert"))));
}

fn check_unparseable_input_becomes_invalid_not_a_panic() {
    let mut form = create(&rsvp_shape());
    apply(&mut form, &[("name", "Ada"), ("guests", "not a number")]);
    assert_eq!(form.validate(), None);
    assert!(form.has_errors());
    let guests = form.leaves().into_iter().find(|(p, _)| p == "guests").map(|(_, raw)| raw);
    assert_eq!(guests, Some("not a number".to_string()));
}

fn check_blanking_a_field_makes_it_empty_again() {
    let mut form = form_for(&rsvp_shape(), &rsvp(Some("bringing dessert")));
    apply(&mut form, &[("note", ""), ("name", "")]);
    assert_eq!(form.validate(), None);
    let complaining: Vec<String> = form.members.iter().filter(|m| m.has_errors()).map(|m| m.name()).collect();
    assert_eq!(complaining, vec!["name"]);
}

fn check_leaves_then_apply_is_an_identity_round_trip() {
    let form = form_for(&rsvp_shape(), &rsvp(Some("bringing dessert")));
    let round_tripped = form.leaves();
    let mut reloaded = create(&rsvp_shape());
    apply_all(&mut reloaded, &round_tripped);
    assert_eq!(reloaded.validate(), Some(rsvp(Some("bringing dessert"))));
}

fn check_empty_event_form_is_invalid() {
    let mut form = Form {
        title: Some("New Event".to_string()),
        members: vec![
            text_field("title", true, FieldValue::Empty),
            location_field_set(FieldValue::Empty, FieldValue::Empty, FieldValue::Empty),
        ],
        errors: Vec::new(),
    };
    assert_eq!(form.validate(), None);
    assert!(form.has_errors());
}

fn check_location_form_round_trips_to_model() {
    let mut form = Form {
        title: None,
        members: location_members(valid("123 Main St"), valid("Springfield"), valid("12345")),
        errors: Vec::new(),
    };
    let model = form.validate().expect("all required fields are filled");
    assert_eq!(model, springfield());
}

fn check_event_for_create_form_round_trips_to_model() {
    let mut form = Form {
        title: Some("New Event".to_string()),
        members: vec![
            text_field("title", true, valid("Board Game Night")),
            location_field_set(valid("123 Main St"), valid("Springfield"), valid("12345")),
        ],
        errors: Vec::new(),
    };
    assert!(!form.has_errors());
    let model = form.validate().expect("all required fields are filled");
    assert_eq!(entry(&model, "title"), &text("Board Game Night"));
    assert_eq!(entry(entry(&model, "location"), "street"), &text("123 Main St"));
}

// ── Inputs named by path ──

fn check_uncontrolled_inputs_are_named_by_qualified_path() {
    let form = create(&event_for_create_shape());
    let html = inputs_html(form.leaves());
    for path in ["title", "location.street", "location.city", "location.zip"] {
        assert!(html.contains(&format!(r#"name="{path}""#)), "expected an input named {path} in:\n{html}");
    }
}

fn check_submitted_values_shuffle_into_a_model() {
    let submitted = vec![
        ("title".to_string(), "Board Game Night".to_string()),
        ("location.street".to_string(), "123 Main St".to_string()),
        ("location.city".to_string(), "Springfield".to_string()),
        ("location.zip".to_string(), "12345".to_string()),
    ];
    let mut form = create(&event_for_create_shape());
    apply_form_values(&mut form, &submitted);
    assert_eq!(form.validate(), Some(board_game_night()));
}

fn seeded_event_inputs() -> String {
    let form = form_for(&event_for_create_shape(), &board_game_night());
    let mut leaves = form.leaves();
    leaves.sort();
    inputs_html(leaves)
}

fn check_component_mints_one_signal_per_leaf() {
    let html = seeded_event_inputs();
    for path in ["title", "location.street", "location.city", "location.zip"] {
        assert!(html.contains(&format!(r#"name="{path}""#)), "expected an input named {path} in:\n{html}");
    }
}

fn check_signals_are_seeded_from_the_model() {
    let html = seeded_event_inputs();
    assert!(html.contains("Board Game Night"), "expected the seeded title in:\n{html}");
    assert!(html.contains("123 Main St"), "expected the seeded street in:\n{html}");
}

// ── Enums ──

fn check_no_enum_fields_yields_empty_map() {
    assert_eq!(as_map(required_variants(&location_shape())), HashMap::new());
}

fn check_single_enum_field_lists_its_variants_in_declaration_order() {
    assert_eq!(as_map(required_variants(&drawing_shape())), variants(&[("shape", &["Circle", "Rectangle"])]));
}

fn check_multiple_enum_fields_including_unit_variants() {
    assert_eq!(
        as_map(required_variants(&config_shape())),
        variants(&[("shape", &["Circle", "Rectangle"]), ("mode", &["Fast", "Slow"])]),
    );
}

fn check_nested_enum_field_is_qualified_by_path() {
    assert_eq!(as_map(required_variants(&outer_shape())), variants(&[("drawing.shape", &["Circle", "Rectangle"])]));
}

fn check_optional_enum_is_discovered_as_optional() {
    assert_eq!(as_map(required_variants(&sketch_shape())), optional_variants(&[("shape", &["Circle", "Rectangle"])]));
}

fn check_absent_satisfies_an_optional_enum() {
    let chosen = chose(&[("shape", VariantChoice::Absent)]);
    assert_eq!(as_map(missing_variants(&sketch_shape(), &chosen)), HashMap::new());
}

fn check_absent_is_rejected_where_the_enum_is_not_optional() {
    let chosen = chose(&[("shape", VariantChoice::Absent)]);
    assert_eq!(as_map(missing_variants(&drawing_shape(), &chosen)), variants(&[("shape", &["Circle", "Rectangle"])]));
}

fn check_an_unknown_variant_name_reports_the_real_options() {
    let chosen = chose(&[("shape", named("Triangle"))]);
    assert_eq!(as_map(missing_variants(&drawing_shape(), &chosen)), variants(&[("shape", &["Circle", "Rectangle"])]));
}

fn sketch(shape: Option<Value>) -> Value {
    record(vec![("name", text("Doodle")), ("shape", match shape {
        Some(s) => some(s),
        None => Value::Absent,
    })])
}

fn check_edit_mode_round_trips_an_optional_enum() {
    let value = sketch(Some(variant_value("Circle", vec![("radius", text("1.5"))])));
    let mut form = form_for(&sketch_shape(), &value);
    assert_eq!(form.validate(), Some(value));
}

fn check_edit_mode_round_trips_an_absent_optional_enum() {
    let value = sketch(None);
    let mut form = form_for(&sketch_shape(), &value);
    assert_eq!(form.validate(), Some(value));
}

fn check_create_mode_absent_builds_a_none() {
    let chosen = chose(&[("shape", VariantChoice::Absent)]);
    let mut form = empty_form_with_variants(&sketch_shape(), &chosen).expect("Absent is a legal answer for an optional enum");
    assert_eq!(paths(&form), vec!["name"], "Absent contributes no leaves");
    apply_form_values(&mut form, &vec![("name".to_string(), "Doodle".to_string())]);
    assert_eq!(form.validate(), Some(sketch(None)));
}

fn check_create_mode_named_behind_an_option_builds_a_some() {
    let chosen = chose(&[("shape", named("Circle"))]);
    let mut form = empty_form_with_variants(&sketch_shape(), &chosen).expect("Circle is a variant of Shape");
    apply_form_values(&mut form, &vec![
        ("name".to_string(), "Doodle".to_string()),
        ("shape.radius".to_string(), "2.5".to_string()),
    ]);
    assert_eq!(form.validate(), Some(sketch(Some(variant_value("Circle", vec![("radius", text("2.5"))])))));
}

fn check_absent_renders_a_disabled_placeholder() {
    let html = form_for(&sketch_shape(), &sketch(None)).render();
    assert!(html.contains(ABSENT_DISPLAY), "html: {html}");
    assert!(html.contains("disabled"), "html: {html}");
}

fn check_choosing_a_variant_reveals_the_enums_inside_it() {
    assert_eq!(
        as_map(missing_variants(&doc_shape(), &chose(&[]))),
        variants(&[("outer", &["First", "Second"])]),
        "outer.inner must be invisible before outer is answered",
    );
    assert_eq!(
        as_map(missing_variants(&doc_shape(), &chose(&[("outer", named("First"))]))),
        variants(&[("outer.inner", &["A", "B"])]),
    );
    assert_eq!(as_map(missing_variants(&doc_shape(), &chose(&[("outer", named("Second"))]))), HashMap::new());
    assert_eq!(
        as_map(missing_variants(&doc_shape(), &chose(&[("outer", named("First")), ("outer.inner", named("A"))]))),
        HashMap::new(),
    );
}

fn check_a_fully_answered_nested_enum_builds_and_round_trips() {
    let chosen = chose(&[("outer", named("First")), ("outer.inner", named("A"))]);
    assert_eq!(as_map(missing_variants(&doc_shape(), &chosen)), HashMap::new());
    let mut form = empty_form_with_variants(&doc_shape(), &chosen).expect("every reachable enum is answered");
    assert_eq!(paths(&form), vec!["outer.inner.x"]);
    apply_form_values(&mut form, &vec![("outer.inner.x".to_string(), "1.25".to_string())]);
    assert_eq!(
        form.validate(),
        Some(record(vec![(
            "outer",
            variant_value("First", vec![("inner", variant_value("A", vec![("x", text("1.25"))]))]),
        )])),
    );
}

fn check_a_half_answered_nested_enum_reports_only_what_is_still_open() {
    let chosen = chose(&[("outer", named("First"))]);
    let err = empty_form_with_variants(&doc_shape(), &chosen).expect_err("outer.inner is revealed but unanswered");
    assert_eq!(as_map(err.0), variants(&[("outer.inner", &["A", "B"])]));
}

fn check_empty_form_with_variants_builds_and_validates_the_chosen_variant() {
    let chosen = chose(&[("shape", named("Circle"))]);
    let mut form = empty_form_with_variants(&drawing_shape(), &chosen).expect("every enum has a chosen variant");
    let ps = paths(&form);
    assert!(ps.contains(&"name".to_string()), "paths: {ps:?}");
    assert!(ps.contains(&"shape.radius".to_string()), "paths: {ps:?}");
    apply_form_values(&mut form, &vec![
        ("name".to_string(), "My Drawing".to_string()),
        ("shape.radius".to_string(), "3.5".to_string()),
    ]);
    assert_eq!(
        form.validate(),
        Some(record(vec![("name", text("My Drawing")), ("shape", variant_value("Circle", vec![("radius", text("3.5"))]))])),
    );
}

fn check_form_for_round_trips_an_enum_field() {
    let drawing = || {
        record(vec![
            ("name", text("Rect")),
            ("shape", variant_value("Rectangle", vec![("width", text("2")), ("height", text("4"))])),
        ])
    };
    let mut form = form_for(&drawing_shape(), &drawing());
    assert_eq!(form.validate(), Some(drawing()));
}

fn check_nested_enum_field_round_trips() {
    let outer = || {
        record(vec![
            ("title", text("T")),
            ("drawing", record(vec![("name", text("N")), ("shape", variant_value("Circle", vec![("radius", text("1"))]))])),
        ])
    };
    let mut form = form_for(&outer_shape(), &outer());
    assert_eq!(form.validate(), Some(outer()));
}

// ── Lists ──

fn check_scalar_rows_round_trip() {
    let mut form = form_for(&quiz_shape(), &quiz());
    assert_eq!(form.validate(), Some(quiz()));
}

fn check_an_empty_list_round_trips() {
    let empty = || record(vec![("title", text("Unit 1")), ("answers", Value::List(Vec::new()))]);
    let mut form = form_for(&quiz_shape(), &empty());
    assert_eq!(form.validate(), Some(empty()));
}

fn check_struct_rows_round_trip() {
    let mut form = form_for(&venues_shape(), &venues());
    assert_eq!(form.validate(), Some(venues()));
}

fn check_rows_are_named_by_index() {
    let form = form_for(&quiz_shape(), &quiz());
    assert_eq!(
        form.leaves(),
        vec![
            ("title".to_string(), "Unit 1".to_string()),
            ("answers.0".to_string(), "alpha".to_string()),
            ("answers.1".to_string(), "beta".to_string()),
        ]
    );
}

fn check_struct_rows_qualify_through_their_index() {
    let form = form_for(&venues_shape(), &venues());
    assert_eq!(
        paths(&form),
        vec!["places.0.street", "places.0.city", "places.0.zip", "places.1.street", "places.1.city", "places.1.zip"]
    );
}

fn check_nested_lists_nest_their_indices() {
    let grid = || {
        record(vec![(
            "rows",
            Value::List(vec![Value::List(vec![text("a"), text("b")]), Value::List(vec![text("c")])]),
        )])
    };
    let form = form_for(&grid_shape(), &grid());
    assert_eq!(paths(&form), vec!["rows.0.0", "rows.0.1", "rows.1.0"]);
    let mut form = form;
    assert_eq!(form.validate(), Some(grid()));
}

fn check_enum_rows_are_pinned_by_the_value() {
    let drawings = || {
        record(vec![(
            "shapes",
            Value::List(vec![
                variant_value("Circle", vec![("radius", text("1.5"))]),
                variant_value("Rectangle", vec![("width", text("2")), ("height", text("3"))]),
            ]),
        )])
    };
    let form = form_for(&drawings_shape(), &drawings());
    assert_eq!(paths(&form), vec!["shapes.0.radius", "shapes.1.width", "shapes.1.height"]);
    let mut form = form;
    assert_eq!(form.validate(), Some(drawings()));
}

fn check_editing_one_row_leaves_the_others_alone() {
    let mut form = form_for(&venues_shape(), &venues());
    apply(&mut form, &[("places.1.city", "Ogdenville")]);
    let expected = record(vec![(
        "places",
        Value::List(vec![springfield(), location("9 Elm", "Ogdenville", "99999")]),
    )]);
    assert_eq!(form.validate(), Some(expected));
}

fn check_list_leaves_then_apply_is_an_identity_round_trip() {
    let form = form_for(&venues_shape(), &venues());
    let collected = form.leaves();
    let mut reloaded = form_for(&venues_shape(), &venues());
    apply_all(&mut reloaded, &collected);
    assert_eq!(reloaded.validate(), Some(venues()));
}

fn check_create_mode_yields_no_rows_yet() {
    let mut form = create(&quiz_shape());
    apply(&mut form, &[("title", "Unit 1")]);
    assert_eq!(form.validate(), Some(record(vec![("title", text("Unit 1")), ("answers", Value::List(Vec::new()))])));
}

// ── Optional containers ──

fn check_an_absent_optional_struct_still_offers_its_leaves() {
    let form = form_for(&contact_shape(), &contact(None));
    assert_eq!(paths(&form), vec!["name", "address.street", "address.city", "address.zip"]);
    assert_eq!(
        form.leaves(),
        vec![
            ("name".to_string(), "Ada".to_string()),
            ("address.street".to_string(), String::new()),
            ("address.city".to_string(), String::new()),
            ("address.zip".to_string(), String::new()),
        ],
    );
}

fn check_a_partly_filled_optional_struct_is_an_error() {
    let mut form = form_for(&contact_shape(), &contact(None));
    apply(&mut form, &[("address.street", "123 Main St")]);
    assert_eq!(form.validate(), None);
    assert!(form.has_errors());
}

// ── `""` is absence ──

fn through_the_dom(form: &Form, mut reloaded: Form) -> Option<Value> {
    let collected = form.leaves();
    apply_all(&mut reloaded, &collected);
    reloaded.validate()
}

fn optional_body(body: Option<&str>) -> Value {
    record(vec![("body", match body {
        Some(b) => some(text(b)),
        None => Value::Absent,
    })])
}

fn check_seeding_some_empty_collapses_to_none() {
    let mut form = form_for(&optional_shape(), &optional_body(Some("")));
    assert_eq!(form.validate(), Some(optional_body(None)));
}

fn check_some_empty_agrees_on_both_paths() {
    let value = optional_body(Some(""));
    let form = form_for(&optional_shape(), &value);
    let seeded = form_for(&optional_shape(), &value).validate();
    let dom = through_the_dom(&form, empty_form(&optional_shape()).expect("no enums"));
    assert_eq!(seeded, dom);
    assert_eq!(seeded, Some(optional_body(None)));
}

fn check_a_required_empty_string_fails_on_both_paths() {
    let value = record(vec![("body", text(""))]);
    let form = form_for(&required_shape(), &value);
    let seeded = form_for(&required_shape(), &value).validate();
    let dom = through_the_dom(&form, empty_form(&required_shape()).expect("no enums"));
    assert_eq!(seeded, None);
    assert_eq!(dom, None);
}

fn check_none_and_some_empty_are_indistinguishable() {
    let from_none = form_for(&optional_shape(), &optional_body(None));
    let from_empty = form_for(&optional_shape(), &optional_body(Some("")));
    assert_eq!(from_none.leaves(), from_empty.leaves());
}

fn check_non_empty_strings_are_untouched() {
    let value = optional_body(Some("   "));
    let mut form = form_for(&optional_shape(), &value);
    assert_eq!(form.validate(), Some(value));

    let value = record(vec![("body", text("hello"))]);
    let mut form = form_for(&required_shape(), &value);
    assert_eq!(form.validate(), Some(value));
}

fn check_zero_valued_scalars_are_not_empty() {
    let value = || record(vec![("count", text("0")), ("ratio", text("0")), ("flag", text("false"))]);
    let mut form = form_for(&falsy_shape(), &value());
    assert_eq!(form.validate(), Some(value()));
}

// ── Optional containers, present and absent ──

fn tagged_shape() -> Schema {
    Schema::Struct(vec![field("tags", opt(list_of(string())))])
}

fn roster_shape() -> Schema {
    Schema::Struct(vec![field("members", opt(list_of(location_shape())))])
}

fn matrix_shape() -> Schema {
    Schema::Struct(vec![field("cells", opt(list_of(opt(string()))))])
}

fn tagged(tags: Option<Vec<&str>>) -> Value {
    record(vec![("tags", match tags {
        Some(ts) => some(Value::List(ts.into_iter().map(text).collect())),
        None => Value::Absent,
    })])
}

fn check_a_present_optional_struct_round_trips() {
    let mut form = form_for(&contact_shape(), &contact(Some(springfield())));
    assert_eq!(form.validate(), Some(contact(Some(springfield()))));
}

fn check_an_absent_optional_struct_round_trips() {
    let mut form = form_for(&contact_shape(), &contact(None));
    assert_eq!(form.validate(), Some(contact(None)));
}

fn check_create_mode_leaves_an_untouched_optional_struct_absent() {
    let mut form = create(&contact_shape());
    apply(&mut form, &[("name", "Ada")]);
    assert_eq!(form.validate(), Some(contact(None)));
}

fn check_filling_in_an_absent_optional_struct_makes_it_present() {
    let mut form = form_for(&contact_shape(), &contact(None));
    apply(&mut form, &[("address.street", "123 Main St"), ("address.city", "Springfield"), ("address.zip", "12345")]);
    assert_eq!(form.validate(), Some(contact(Some(springfield()))));
}

fn check_blanking_a_present_optional_struct_makes_it_absent() {
    let mut form = form_for(&contact_shape(), &contact(Some(springfield())));
    apply(&mut form, &[("address.street", ""), ("address.city", ""), ("address.zip", "")]);
    assert_eq!(form.validate(), Some(contact(None)));
}

fn check_a_present_optional_list_round_trips() {
    let mut form = form_for(&tagged_shape(), &tagged(Some(vec!["x"])));
    assert_eq!(form.validate(), Some(tagged(Some(vec!["x"]))));
}

fn check_an_absent_optional_list_round_trips() {
    let mut form = form_for(&tagged_shape(), &tagged(None));
    assert_eq!(form.validate(), Some(tagged(None)));
}

fn check_an_empty_optional_list_collapses_to_absent() {
    let mut form = form_for(&tagged_shape(), &tagged(Some(Vec::new())));
    assert_eq!(form.validate(), Some(tagged(None)));
}

fn check_an_optional_list_of_structs_round_trips() {
    let roster = || record(vec![("members", some(Value::List(vec![springfield()])))]);
    let mut form = form_for(&roster_shape(), &roster());
    assert_eq!(form.validate(), Some(roster()));
}

fn check_option_peels_one_layer_at_a_time() {
    let matrix = || record(vec![("cells", some(Value::List(vec![some(text("a")), Value::Absent])))]);
    let form = form_for(&matrix_shape(), &matrix());
    assert_eq!(paths(&form), vec!["cells.0", "cells.1"]);
    let mut form = form;
    assert_eq!(form.validate(), Some(matrix()));
}

// ── The suite ──

#[test]
fn lib_repeated_struct_types_get_distinct_paths() {
    check_repeated_struct_types_get_distinct_paths();
}

#[test]
fn lib_form_for_none_walks_the_shape_into_empty_members() {
    check_form_for_none_walks_the_shape_into_empty_members();
}

#[test]
fn lib_form_for_none_is_invalid_until_filled() {
    check_form_for_none_is_invalid_until_filled();
}

#[test]
fn lib_form_for_some_round_trips_the_model() {
    check_form_for_some_round_trips_the_model();
}

#[test]
fn lib_option_fields_are_not_required() {
    check_option_fields_are_not_required();
}

#[test]
fn lib_option_fields_round_trip_both_ways() {
    check_option_fields_round_trip_both_ways();
}

#[test]
fn lib_applying_widget_values_round_trips_to_a_model() {
    check_applying_widget_values_round_trips_to_a_model();
}

#[test]
fn lib_non_string_scalars_parse_through_the_shape_vtable() {
    check_non_string_scalars_parse_through_the_shape_vtable();
}

#[test]
fn lib_unparseable_input_becomes_invalid_not_a_panic() {
    check_unparseable_input_becomes_invalid_not_a_panic();
}

#[test]
fn lib_blanking_a_field_makes_it_empty_again() {
    check_blanking_a_field_makes_it_empty_again();
}

#[test]
fn lib_leaves_then_apply_is_an_identity_round_trip() {
    check_leaves_then_apply_is_an_identity_round_trip();
    check_list_leaves_then_apply_is_an_identity_round_trip();
}

#[test]
fn lib_empty_event_form_is_invalid() {
    check_empty_event_form_is_invalid();
}

#[test]
fn lib_location_form_round_trips_to_model() {
    check_location_form_round_trips_to_model();
}

#[test]
fn lib_event_for_create_form_round_trips_to_model() {
    check_event_for_create_form_round_trips_to_model();
}

#[test]
fn lib_uncontrolled_inputs_are_named_by_qualified_path() {
    check_uncontrolled_inputs_are_named_by_qualified_path();
}

#[test]
fn lib_submitted_values_shuffle_into_a_model() {
    check_submitted_values_shuffle_into_a_model();
}

#[test]
fn lib_component_mints_one_signal_per_leaf() {
    check_component_mints_one_signal_per_leaf();
}

#[test]
fn lib_signals_are_seeded_from_the_model() {
    check_signals_are_seeded_from_the_model();
}

#[test]
fn lib_no_enum_fields_yields_empty_map() {
    check_no_enum_fields_yields_empty_map();
}

#[test]
fn lib_single_enum_field_lists_its_variants_in_declaration_order() {
    check_single_enum_field_lists_its_variants_in_declaration_order();
}

#[test]
fn lib_multiple_enum_fields_including_unit_variants() {
    check_multiple_enum_fields_including_unit_variants();
}

#[test]
fn lib_nested_enum_field_is_qualified_by_path() {
    check_nested_enum_field_is_qualified_by_path();
}

#[test]
fn lib_optional_enum_is_discovered_as_optional() {
    check_optional_enum_is_discovered_as_optional();
}

#[test]
fn lib_absent_satisfies_an_optional_enum() {
    check_absent_satisfies_an_optional_enum();
}

#[test]
fn lib_absent_is_rejected_where_the_enum_is_not_optional() {
    check_absent_is_rejected_where_the_enum_is_not_optional();
}

#[test]
fn lib_an_unknown_variant_name_reports_the_real_options() {
    check_an_unknown_variant_name_reports_the_real_options();
}

#[test]
fn lib_edit_mode_round_trips_an_optional_enum() {
    check_edit_mode_round_trips_an_optional_enum();
}

#[test]
fn lib_edit_mode_round_trips_an_absent_optional_enum() {
    check_edit_mode_round_trips_an_absent_optional_enum();
}

#[test]
fn lib_create_mode_absent_builds_a_none() {
    check_create_mode_absent_builds_a_none();
}

#[test]
fn lib_create_mode_named_behind_an_option_builds_a_some() {
    check_create_mode_named_behind_an_option_builds_a_some();
}

#[test]
fn lib_absent_renders_a_disabled_placeholder() {
    check_absent_renders_a_disabled_placeholder();
}

#[test]
fn lib_choosing_a_variant_reveals_the_enums_inside_it() {
    check_choosing_a_variant_reveals_the_enums_inside_it();
}

#[test]
fn lib_a_fully_answered_nested_enum_builds_and_round_trips() {
    check_a_fully_answered_nested_enum_builds_and_round_trips();
}

#[test]
fn lib_a_half_answered_nested_enum_reports_only_what_is_still_open() {
    check_a_half_answered_nested_enum_reports_only_what_is_still_open();
}

#[test]
fn lib_empty_form_with_variants_builds_and_validates_the_chosen_variant() {
    check_empty_form_with_variants_builds_and_validates_the_chosen_variant();
}

#[test]
fn lib_form_for_round_trips_an_enum_field() {
    check_form_for_round_trips_an_enum_field();
}

#[test]
fn lib_nested_enum_field_round_trips() {
    check_nested_enum_field_round_trips();
}

#[test]
fn lib_scalar_rows_round_trip() {
    check_scalar_rows_round_trip();
}

#[test]
fn lib_an_empty_list_round_trips() {
    check_an_empty_list_round_trips();
}

#[test]
fn lib_struct_rows_round_trip() {
    check_struct_rows_round_trip();
}

#[test]
fn lib_rows_are_named_by_index() {
    check_rows_are_named_by_index();
}

#[test]
fn lib_struct_rows_qualify_through_their_index() {
    check_struct_rows_qualify_through_their_index();
}

#[test]
fn lib_nested_lists_nest_their_indices() {
    check_nested_lists_nest_their_indices();
}

#[test]
fn lib_enum_rows_are_pinned_by_the_value() {
    check_enum_rows_are_pinned_by_the_value();
}

#[test]
fn lib_editing_one_row_leaves_the_others_alone() {
    check_editing_one_row_leaves_the_others_alone();
}

#[test]
fn lib_create_mode_yields_no_rows_yet() {
    check_create_mode_yields_no_rows_yet();
}

#[test]
fn lib_an_absent_optional_struct_still_offers_its_leaves() {
    check_an_absent_optional_struct_still_offers_its_leaves();
}

#[test]
fn lib_a_present_optional_struct_round_trips() {
    check_a_present_optional_struct_round_trips();
}

#[test]
fn lib_an_absent_optional_struct_round_trips() {
    check_an_absent_optional_struct_round_trips();
}

#[test]
fn lib_create_mode_leaves_an_untouched_optional_struct_absent() {
    check_create_mode_leaves_an_untouched_optional_struct_absent();
}

#[test]
fn lib_filling_in_an_absent_optional_struct_makes_it_present() {
    check_filling_in_an_absent_optional_struct_makes_it_present();
}

#[test]
fn lib_blanking_a_present_optional_struct_makes_it_absent() {
    check_blanking_a_present_optional_struct_makes_it_absent();
}

#[test]
fn lib_a_partly_filled_optional_struct_is_an_error() {
    check_a_partly_filled_optional_struct_is_an_error();
}

#[test]
fn lib_a_present_optional_list_round_trips() {
    check_a_present_optional_list_round_trips();
}

#[test]
fn lib_an_absent_optional_list_round_trips() {
    check_an_absent_optional_list_round_trips();
}

#[test]
fn lib_an_empty_optional_list_collapses_to_absent() {
    check_an_empty_optional_list_collapses_to_absent();
}

#[test]
fn lib_an_optional_list_of_structs_round_trips() {
    check_an_optional_list_of_structs_round_trips();
}

#[test]
fn lib_option_peels_one_layer_at_a_time() {
    check_option_peels_one_layer_at_a_time();
}

#[test]
fn lib_seeding_some_empty_collapses_to_none() {
    check_seeding_some_empty_collapses_to_none();
}

#[test]
fn lib_some_empty_agrees_on_both_paths() {
    check_some_empty_agrees_on_both_paths();
}

#[test]
fn lib_a_required_empty_string_fails_on_both_paths() {
    check_a_required_empty_string_fails_on_both_paths();
}

#[test]
fn lib_none_and_some_empty_are_indistinguishable() {
    check_none_and_some_empty_are_indistinguishable();
}

#[test]
fn lib_non_empty_strings_are_untouched() {
    check_non_empty_strings_are_untouched();
}

#[test]
fn lib_zero_valued_scalars_are_not_empty() {
    check_zero_valued_scalars_are_not_empty();
}

#[test]
fn main_repeated_struct_types_get_distinct_paths() {
    check_repeated_struct_types_get_distinct_paths();
}

#[test]
fn main_form_for_none_walks_the_shape_into_empty_members() {
    check_form_for_none_walks_the_shape_into_empty_members();
}

#[test]
fn main_form_for_none_is_invalid_until_filled() {
    check_form_for_none_is_invalid_until_filled();
}

#[test]
fn main_form_for_some_round_trips_the_model() {
    check_form_for_some_round_trips_the_model();
}

#[test]
fn main_option_fields_are_not_required() {
    check_option_fields_are_not_required();
}

#[test]
fn main_option_fields_round_trip_both_ways() {
    check_option_fields_round_trip_both_ways();
}

#[test]
fn main_applying_widget_values_round_trips_to_a_model() {
    check_applying_widget_values_round_trips_to_a_model();
}

#[test]
fn main_non_string_scalars_parse_through_the_shape_vtable() {
    check_non_string_scalars_parse_through_the_shape_vtable();
}

#[test]
fn main_unparseable_input_becomes_invalid_not_a_panic() {
    check_unparseable_input_becomes_invalid_not_a_panic();
}

#[test]
fn main_blanking_a_field_makes_it_empty_again() {
    check_blanking_a_field_makes_it_empty_again();
}

#[test]
fn main_leaves_then_apply_is_an_identity_round_trip() {
    check_leaves_then_apply_is_an_identity_round_trip();
    check_list_leaves_then_apply_is_an_identity_round_trip();
}

#[test]
fn main_empty_event_form_is_invalid() {
    check_empty_event_form_is_invalid();
}

#[test]
fn main_location_form_round_trips_to_model() {
    check_location_form_round_trips_to_model();
}

#[test]
fn main_event_for_create_form_round_trips_to_model() {
    check_event_for_create_form_round_trips_to_model();
}

#[test]
fn main_uncontrolled_inputs_are_named_by_qualified_path() {
    check_uncontrolled_inputs_are_named_by_qualified_path();
}

#[test]
fn main_submitted_values_shuffle_into_a_model() {
    check_submitted_values_shuffle_into_a_model();
}

#[test]
fn main_component_mints_one_signal_per_leaf() {
    check_component_mints_one_signal_per_leaf();
}

#[test]
fn main_signals_are_seeded_from_the_model() {
    check_signals_are_seeded_from_the_model();
}

#[test]
fn main_no_enum_fields_yields_empty_map() {
    check_no_enum_fields_yields_empty_map();
}

#[test]
fn main_single_enum_field_lists_its_variants_in_declaration_order() {
    check_single_enum_field_lists_its_variants_in_declaration_order();
}

#[test]
fn main_multiple_enum_fields_including_unit_variants() {
    check_multiple_enum_fields_including_unit_variants();
}

#[test]
fn main_nested_enum_field_is_qualified_by_path() {
    check_nested_enum_field_is_qualified_by_path();
}

#[test]
fn main_optional_enum_is_discovered_as_optional() {
    check_optional_enum_is_discovered_as_optional();
}

#[test]
fn main_absent_satisfies_an_optional_enum() {
    check_absent_satisfies_an_optional_enum();
}

#[test]
fn main_absent_is_rejected_where_the_enum_is_not_optional() {
    check_absent_is_rejected_where_the_enum_is_not_optional();
}

#[test]
fn main_an_unknown_variant_name_reports_the_real_options() {
    check_an_unknown_variant_name_reports_the_real_options();
}

#[test]
fn main_edit_mode_round_trips_an_optional_enum() {
    check_edit_mode_round_trips_an_optional_enum();
}

#[test]
fn main_edit_mode_round_trips_an_absent_optional_enum() {
    check_edit_mode_round_trips_an_absent_optional_enum();
}

#[test]
fn main_create_mode_absent_builds_a_none() {
    check_create_mode_absent_builds_a_none();
}

#[test]
fn main_create_mode_named_behind_an_option_builds_a_some() {
    check_create_mode_named_behind_an_option_builds_a_some();
}

#[test]
fn main_absent_renders_a_disabled_placeholder() {
    check_absent_renders_a_disabled_placeholder();
}

#[test]
fn main_choosing_a_variant_reveals_the_enums_inside_it() {
    check_choosing_a_variant_reveals_the_enums_inside_it();
}

#[test]
fn main_a_fully_answered_nested_enum_builds_and_round_trips() {
    check_a_fully_answered_nested_enum_builds_and_round_trips();
}

#[test]
fn main_a_half_answered_nested_enum_reports_only_what_is_still_open() {
    check_a_half_answered_nested_enum_reports_only_what_is_still_open();
}

#[test]
fn main_empty_form_with_variants_builds_and_validates_the_chosen_variant() {
    check_empty_form_with_variants_builds_and_validates_the_chosen_variant();
}

#[test]
fn main_form_for_round_trips_an_enum_field() {
    check_form_for_round_trips_an_enum_field();
}

#[test]
fn main_nested_enum_field_round_trips() {
    check_nested_enum_field_round_trips();
}

#[test]
fn main_scalar_rows_round_trip() {
    check_scalar_rows_round_trip();
}

#[test]
fn main_an_empty_list_round_trips() {
    check_an_empty_list_round_trips();
}

#[test]
fn main_struct_rows_round_trip() {
    check_struct_rows_round_trip();
}

#[test]
fn main_rows_are_named_by_index() {
    check_rows_are_named_by_index();
}

#[test]
fn main_struct_rows_qualify_through_their_index() {
    check_struct_rows_qualify_through_their_index();
}

#[test]
fn main_nested_lists_nest_their_indices() {
    check_nested_lists_nest_their_indices();
}

#[test]
fn main_enum_rows_are_pinned_by_the_value() {
    check_enum_rows_are_pinned_by_the_value();
}

#[test]
fn main_editing_one_row_leaves_the_others_alone() {
    check_editing_one_row_leaves_the_others_alone();
}

#[test]
fn main_create_mode_yields_no_rows_yet() {
    check_create_mode_yields_no_rows_yet();
}

#[test]
fn main_an_absent_optional_struct_still_offers_its_leaves() {
    check_an_absent_optional_struct_still_offers_its_leaves();
}

#[test]
fn main_a_present_optional_struct_round_trips() {
    check_a_present_optional_struct_round_trips();
}

#[test]
fn main_an_absent_optional_struct_round_trips() {
    check_an_absent_optional_struct_round_trips();
}

#[test]
fn main_create_mode_leaves_an_untouched_optional_struct_absent() {
    check_create_mode_leaves_an_untouched_optional_struct_absent();
}

#[test]
fn main_filling_in_an_absent_optional_struct_makes_it_present() {
    check_filling_in_an_absent_optional_struct_makes_it_present();
}

#[test]
fn main_blanking_a_present_optional_struct_makes_it_absent() {
    check_blanking_a_present_optional_struct_makes_it_absent();
}

#[test]
fn main_a_partly_filled_optional_struct_is_an_error() {
    check_a_partly_filled_optional_struct_is_an_error();
}

#[test]
fn main_a_present_optional_list_round_trips() {
    check_a_present_optional_list_round_trips();
}

#[test]
fn main_an_absent_optional_list_round_trips() {
    check_an_absent_optional_list_round_trips();
}

#[test]
fn main_an_empty_optional_list_collapses_to_absent() {
    check_an_empty_optional_list_collapses_to_absent();
}

#[test]
fn main_an_optional_list_of_structs_round_trips() {
    check_an_optional_list_of_structs_round_trips();
}

#[test]
fn main_option_peels_one_layer_at_a_time() {
    check_option_peels_one_layer_at_a_time();
}

#[test]
fn main_seeding_some_empty_collapses_to_none() {
    check_seeding_some_empty_collapses_to_none();
}

#[test]
fn main_some_empty_agrees_on_both_paths() {
    check_some_empty_agrees_on_both_paths();
}

#[test]
fn main_a_required_empty_string_fails_on_both_paths() {
    check_a_required_empty_string_fails_on_both_paths();
}

#[test]
fn main_none_and_some_empty_are_indistinguishable() {
    check_none_and_some_empty_are_indistinguishable();
}

#[test]
fn main_non_empty_strings_are_untouched() {
    check_non_empty_strings_are_untouched();
}

#[test]
fn main_zero_valued_scalars_are_not_empty() {
    check_zero_valued_scalars_are_not_empty();
}

#[test]
fn enums_no_enum_fields_yields_empty_map() {
    check_no_enum_fields_yields_empty_map();
}

#[test]
fn enums_single_enum_field_lists_its_variants_in_declaration_order() {
    check_single_enum_field_lists_its_variants_in_declaration_order();
}

#[test]
fn enums_multiple_enum_fields_including_unit_variants() {
    check_multiple_enum_fields_including_unit_variants();
}

#[test]
fn enums_nested_enum_field_is_qualified_by_path() {
    check_nested_enum_field_is_qualified_by_path();
}

#[test]
fn enums_optional_enum_is_discovered_as_optional() {
    check_optional_enum_is_discovered_as_optional();
}

#[test]
fn enums_absent_satisfies_an_optional_enum() {
    check_absent_satisfies_an_optional_enum();
}

#[test]
fn enums_absent_is_rejected_where_the_enum_is_not_optional() {
    check_absent_is_rejected_where_the_enum_is_not_optional();
}

#[test]
fn enums_an_unknown_variant_name_reports_the_real_options() {
    check_an_unknown_variant_name_reports_the_real_options();
}

#[test]
fn enums_edit_mode_round_trips_an_optional_enum() {
    check_edit_mode_round_trips_an_optional_enum();
}

#[test]
fn enums_edit_mode_round_trips_an_absent_optional_enum() {
    check_edit_mode_round_trips_an_absent_optional_enum();
}

#[test]
fn enums_create_mode_absent_builds_a_none() {
    check_create_mode_absent_builds_a_none();
}

#[test]
fn enums_create_mode_named_behind_an_option_builds_a_some() {
    check_create_mode_named_behind_an_option_builds_a_some();
}

#[test]
fn enums_absent_renders_a_disabled_placeholder() {
    check_absent_renders_a_disabled_placeholder();
}

#[test]
fn enums_choosing_a_variant_reveals_the_enums_inside_it() {
    check_choosing_a_variant_reveals_the_enums_inside_it();
}

#[test]
fn enums_a_fully_answered_nested_enum_builds_and_round_trips() {
    check_a_fully_answered_nested_enum_builds_and_round_trips();
}

#[test]
fn enums_a_half_answered_nested_enum_reports_only_what_is_still_open() {
    check_a_half_answered_nested_enum_reports_only_what_is_still_open();
}

#[test]
fn enums_empty_form_with_variants_builds_and_validates_the_chosen_variant() {
    check_empty_form_with_variants_builds_and_validates_the_chosen_variant();
}

#[test]
fn enums_form_for_round_trips_an_enum_field() {
    check_form_for_round_trips_an_enum_field();
}

#[test]
fn enums_nested_enum_field_round_trips() {
    check_nested_enum_field_round_trips();
}

#[test]
fn optional_containers_an_absent_optional_struct_still_offers_its_leaves() {
    check_an_absent_optional_struct_still_offers_its_leaves();
}

#[test]
fn optional_containers_a_present_optional_struct_round_trips() {
    check_a_present_optional_struct_round_trips();
}

#[test]
fn optional_containers_an_absent_optional_struct_round_trips() {
    check_an_absent_optional_struct_round_trips();
}

#[test]
fn optional_containers_create_mode_leaves_an_untouched_optional_struct_absent() {
    check_create_mode_leaves_an_untouched_optional_struct_absent();
}

#[test]
fn optional_containers_filling_in_an_absent_optional_struct_makes_it_present() {
    check_filling_in_an_absent_optional_struct_makes_it_present();
}

#[test]
fn optional_containers_blanking_a_present_optional_struct_makes_it_absent() {
    check_blanking_a_present_optional_struct_makes_it_absent();
}

#[test]
fn optional_containers_a_partly_filled_optional_struct_is_an_error() {
    check_a_partly_filled_optional_struct_is_an_error();
}

#[test]
fn optional_containers_a_present_optional_list_round_trips() {
    check_a_present_optional_list_round_trips();
}

#[test]
fn optional_containers_an_absent_optional_list_round_trips() {
    check_an_absent_optional_list_round_trips();
}

#[test]
fn optional_containers_an_empty_optional_list_collapses_to_absent() {
    check_an_empty_optional_list_collapses_to_absent();
}

#[test]
fn optional_containers_an_optional_list_of_structs_round_trips() {
    check_an_optional_list_of_structs_round_trips();
}

#[test]
fn optional_containers_option_peels_one_layer_at_a_time() {
    check_option_peels_one_layer_at_a_time();
}
