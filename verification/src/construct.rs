//! Turning a shape (plus, in edit mode, a value to seed from) into a tree of
//! form members: one member per field, each named by its field and found by
//! its qualified path.

use vstd::prelude::*;
use crate::choices::{ChoiceV, VariantChoice, choices_view, find_variant, find_variant_index, lookup, lookup_choice};
use crate::members::{FieldValue, FieldValueV, FieldSet, FormField, FormMember, ListSet, MemberV, VariantSet, members_view};
use crate::path::{decimal, index_name, qualify, spec_qualify};
use crate::schema::{Entry, FieldSchema, Schema, Value, ValueV, VariantSchema, entries_view};

verus! {

pub open spec fn peek_view(p: Option<&Value>) -> Option<ValueV> {
    match p {
        Some(v) => Some(v@),
        None => None,
    }
}

pub open spec fn entries_peek_view(p: Option<&Vec<Entry>>) -> Option<Seq<(Seq<char>, ValueV)>> {
    match p {
        Some(es) => Some(entries_view(es@)),
        None => None,
    }
}

/// A leaf's starting value: the seeded scalar's text, except that an empty
/// text (the empty string) counts as no value at all, as an empty input does.
pub open spec fn seeded(peek: Option<ValueV>) -> FieldValueV {
    match peek {
        Some(ValueV::Scalar(t)) => if t.len() == 0 {
            FieldValueV::Empty
        } else {
            FieldValueV::Valid(t)
        },
        _ => FieldValueV::Empty,
    }
}

/// Behind an `Option`: the value inside a `Some`; nothing for a `None`.
pub open spec fn unwrap_peek(peek: Option<ValueV>) -> Option<ValueV> {
    match peek {
        Some(ValueV::Present(b)) => Some(*b),
        _ => None,
    }
}

pub open spec fn record_entries(peek: Option<ValueV>) -> Option<Seq<(Seq<char>, ValueV)>> {
    match peek {
        Some(ValueV::Record(es)) => Some(es),
        _ => None,
    }
}

pub open spec fn variant_entries(peek: Option<ValueV>) -> Option<Seq<(Seq<char>, ValueV)>> {
    match peek {
        Some(ValueV::Variant(_, es)) => Some(es),
        _ => None,
    }
}

pub open spec fn entry_peek(es: Option<Seq<(Seq<char>, ValueV)>>, i: int) -> Option<ValueV> {
    match es {
        Some(es) => Some(es[i].1),
        None => None,
    }
}

/// The variant to build for an enum at `path`. In edit mode (`seeding`) the
/// value decides: its variant, or none for an `Option` that is `None`. In
/// create mode the caller's answer for `path` decides: the named variant, or
/// none for `Absent`.
pub open spec fn chosen(vs: Seq<VariantSchema>, peek: Option<ValueV>, seeding: bool, ch: Seq<(Seq<char>, ChoiceV)>, path: Seq<char>) -> Option<int> {
    if seeding {
        match peek {
            Some(ValueV::Variant(n, _)) => find_variant(vs, n),
            _ => None,
        }
    } else {
        match lookup(ch, path) {
            Some(ChoiceV::Named(n)) => find_variant(vs, n),
            _ => None,
        }
    }
}

/// The member built for a field of shape `s` named `name` at qualified path
/// `path`, seeded from `peek`. An `Option` makes the member optional and
/// stands for its contents; a scalar becomes a field, a list a list set with
/// one row per element (named by its index), a struct a field set, an enum a
/// variant set over the chosen variant's fields.
pub open spec fn built(s: Schema, name: Seq<char>, peek: Option<ValueV>, ch: Seq<(Seq<char>, ChoiceV)>, path: Seq<char>) -> MemberV
    decreases s, 1nat,
{
    match s {
        Schema::Opt(x) => built_inner(*x, name, false, unwrap_peek(peek), peek is Some, ch, path),
        _ => built_inner(s, name, true, peek, peek is Some, ch, path),
    }
}

pub open spec fn built_inner(
    s: Schema,
    name: Seq<char>,
    required: bool,
    peek: Option<ValueV>,
    seeding: bool,
    ch: Seq<(Seq<char>, ChoiceV)>,
    path: Seq<char>,
) -> MemberV
    decreases s, 0nat,
{
    match s {
        Schema::Scalar(k) => MemberV::Field {
            name,
            label: None,
            required,
            kind: k,
            value: seeded(peek),
            errors: Seq::empty(),
        },
        Schema::List(e) => MemberV::List {
            name,
            label: None,
            optional: !required,
            rows: match peek {
                Some(ValueV::List(items)) => built_rows(*e, items, ch, path),
                _ => Seq::empty(),
            },
            errors: Seq::empty(),
        },
        Schema::Struct(fs) => MemberV::Fields {
            name,
            label: None,
            optional: !required,
            members: built_fields(fs@, record_entries(peek), ch, path),
            errors: Seq::empty(),
        },
        Schema::Enum(vs) => {
            let c = chosen(vs@, peek, seeding, ch, path);
            MemberV::Variant {
                name,
                label: None,
                choice: match c {
                    Some(i) => ChoiceV::Named(vs@[i].name@),
                    None => ChoiceV::Absent,
                },
                optional: !required,
                members: match c {
                    Some(i) => if 0 <= i < vs@.len() {
                        built_fields(vs@[i].fields@, variant_entries(peek), ch, path)
                    } else {
                        Seq::empty()
                    },
                    None => Seq::empty(),
                },
                errors: Seq::empty(),
            }
        },
        _ => arbitrary(),
    }
}

/// One member per field, each seeded from the matching entry of `es`.
pub open spec fn built_fields(fs: Seq<FieldSchema>, es: Option<Seq<(Seq<char>, ValueV)>>, ch: Seq<(Seq<char>, ChoiceV)>, path: Seq<char>) -> Seq<MemberV>
    decreases fs, 2nat,
{
    Seq::new(
        fs.len(),
        |i: int|
            if 0 <= i < fs.len() {
                built(fs[i].schema, fs[i].name@, entry_peek(es, i), ch, spec_qualify(path, fs[i].name@))
            } else {
                arbitrary()
            },
    )
}

/// One row per list element, named by its index.
pub open spec fn built_rows(e: Schema, items: Seq<ValueV>, ch: Seq<(Seq<char>, ChoiceV)>, path: Seq<char>) -> Seq<MemberV>
    decreases e, 2nat,
{
    Seq::new(
        items.len(),
        |i: int|
            if 0 <= i < items.len() {
                built(e, decimal(i as nat), Some(items[i]), ch, spec_qualify(path, decimal(i as nat)))
            } else {
                arbitrary()
            },
    )
}

/// Building a member for shape `s` from `peek` goes through: every value has
/// the shape it stands in for, every enum reached has a variant (from the
/// value, or from a caller's answer naming one of its variants, or `Absent`),
/// and no scalar without a built-in widget, nor an `Option` directly inside
/// an `Option`, is reached.
pub open spec fn can_build(s: Schema, peek: Option<ValueV>, ch: Seq<(Seq<char>, ChoiceV)>, path: Seq<char>) -> bool
    decreases s, 1nat,
{
    match s {
        Schema::Opt(x) => match peek {
            None => can_build_inner(*x, None, false, ch, path),
            Some(ValueV::Absent) => can_build_inner(*x, None, true, ch, path),
            Some(ValueV::Present(b)) => can_build_inner(*x, Some(*b), true, ch, path),
            _ => false,
        },
        _ => can_build_inner(s, peek, peek is Some, ch, path),
    }
}

pub open spec fn can_build_inner(s: Schema, peek: Option<ValueV>, seeding: bool, ch: Seq<(Seq<char>, ChoiceV)>, path: Seq<char>) -> bool
    decreases s, 0nat,
{
    match s {
        Schema::Scalar(_) => match peek {
            None => true,
            Some(ValueV::Scalar(_)) => true,
            _ => false,
        },
        Schema::List(e) => match peek {
            None => true,
            Some(ValueV::List(items)) => rows_can_build(*e, items, ch, path),
            _ => false,
        },
        Schema::Struct(fs) => match peek {
            None => fields_can_build(fs@, None, ch, path),
            Some(ValueV::Record(es)) => fields_can_build(fs@, Some(es), ch, path),
            _ => false,
        },
        Schema::Enum(vs) => if seeding {
            match peek {
                None => true,
                Some(ValueV::Variant(n, es)) => match find_variant(vs@, n) {
                    Some(i) => 0 <= i < vs@.len() && fields_can_build(vs@[i].fields@, Some(es), ch, path),
                    None => false,
                },
                _ => false,
            }
        } else {
            match lookup(ch, path) {
                Some(ChoiceV::Absent) => true,
                Some(ChoiceV::Named(n)) => match find_variant(vs@, n) {
                    Some(i) => 0 <= i < vs@.len() && fields_can_build(vs@[i].fields@, None, ch, path),
                    None => false,
                },
                None => false,
            }
        },
        _ => false,
    }
}

pub open spec fn fields_can_build(fs: Seq<FieldSchema>, es: Option<Seq<(Seq<char>, ValueV)>>, ch: Seq<(Seq<char>, ChoiceV)>, path: Seq<char>) -> bool
    decreases fs, 2nat,
{
    &&& match es {
        Some(es) => es.len() == fs.len(),
        None => true,
    }
    &&& forall|i: int|
        0 <= i < fs.len() ==> can_build(
            #[trigger] fs[i].schema,
            entry_peek(es, i),
            ch,
            spec_qualify(path, fs[i].name@),
        )
}

pub open spec fn rows_can_build(e: Schema, items: Seq<ValueV>, ch: Seq<(Seq<char>, ChoiceV)>, path: Seq<char>) -> bool
    decreases e, 2nat,
{
    forall|i: int|
        0 <= i < items.len() ==> can_build(e, Some(#[trigger] items[i]), ch, spec_qualify(path, decimal(i as nat)))
}

/// The members of a form for a model of shape `s`: the fields of a struct, or
/// of an enum's chosen variant.
pub open spec fn form_members(s: Schema, peek: Option<ValueV>, ch: Seq<(Seq<char>, ChoiceV)>) -> Seq<MemberV> {
    match s {
        Schema::Struct(fs) => built_fields(fs@, record_entries(peek), ch, Seq::empty()),
        Schema::Enum(vs) => match chosen(vs@, peek, peek is Some, ch, Seq::empty()) {
            Some(i) => if 0 <= i < vs@.len() {
                built_fields(vs@[i].fields@, variant_entries(peek), ch, Seq::empty())
            } else {
                Seq::empty()
            },
            None => Seq::empty(),
        },
        _ => Seq::empty(),
    }
}

/// Building the members of a form for a model of shape `s` goes through: the
/// model is a struct, or an enum with a variant to build.
pub open spec fn form_can_build(s: Schema, peek: Option<ValueV>, ch: Seq<(Seq<char>, ChoiceV)>) -> bool {
    match s {
        Schema::Struct(fs) => match peek {
            None => fields_can_build(fs@, None, ch, Seq::empty()),
            Some(ValueV::Record(es)) => fields_can_build(fs@, Some(es), ch, Seq::empty()),
            _ => false,
        },
        Schema::Enum(vs) => match peek {
            None => match chosen(vs@, None, false, ch, Seq::empty()) {
                Some(i) => 0 <= i < vs@.len() && fields_can_build(vs@[i].fields@, None, ch, Seq::empty()),
                None => false,
            },
            Some(ValueV::Variant(n, es)) => match find_variant(vs@, n) {
                Some(i) => 0 <= i < vs@.len() && fields_can_build(vs@[i].fields@, Some(es), ch, Seq::empty()),
                None => false,
            },
            _ => false,
        },
        _ => false,
    }
}

/// A leaf's starting value, as [`seeded`] says.
fn seed(peek: Option<&Value>) -> (r: FieldValue)
    ensures
        r@ == seeded(peek_view(peek)),
{
    match peek {
        Some(Value::Scalar(t)) => {
            if t.as_str().is_empty() {
                FieldValue::Empty
            } else {
                FieldValue::Valid(t.clone())
            }
        },
        _ => FieldValue::Empty,
    }
}

fn peek_variant<'a>(peek: Option<&'a Value>) -> (r: (Option<&'a String>, Option<&'a Vec<Entry>>))
    ensures
        match peek_view(peek) {
            Some(ValueV::Variant(n, es)) => (r.0 matches Some(m) && m@ == n) && (r.1 matches Some(v) && entries_view(v@) == es),
            _ => r.0 is None && r.1 is None,
        },
{
    match peek {
        Some(Value::Variant(n, es)) => (Some(n), Some(es)),
        _ => (None, None),
    }
}

/// The variant to build, as [`chosen`] says.
fn chosen_variant(vs: &Vec<VariantSchema>, peek: Option<&Value>, seeding: bool, ch: &Vec<(String, VariantChoice)>, path: &str) -> (r: Option<usize>)
    ensures
        match r {
            Some(i) => chosen(vs@, peek_view(peek), seeding, choices_view(ch@), path@) == Some(i as int) && i < vs@.len(),
            None => chosen(vs@, peek_view(peek), seeding, choices_view(ch@), path@) is None,
        },
{
    if seeding {
        let (n, _) = peek_variant(peek);
        match n {
            Some(n) => find_variant_index(vs, n),
            None => None,
        }
    } else {
        let key = path.to_string();
        proof {
            broadcast use vstd::string::group_string_axioms;
        }
        match lookup_choice(ch, &key) {
            Some(VariantChoice::Named(n)) => find_variant_index(vs, n),
            _ => None,
        }
    }
}

/// The member for a field of shape `s` named `name` at path `path`.
pub(crate) fn member_for_shape(s: &Schema, name: &str, peek: Option<&Value>, ch: &Vec<(String, VariantChoice)>, path: &str) -> (r: FormMember)
    requires
        can_build(*s, peek_view(peek), choices_view(ch@), path@),
    ensures
        r@ == built(*s, name@, peek_view(peek), choices_view(ch@), path@),
    decreases s, 1nat,
{
    match s {
        Schema::Opt(x) => {
            let inner = match peek {
                Some(Value::Present(b)) => Some(&**b),
                _ => None,
            };
            member_inner(x, name, false, inner, peek.is_some(), ch, path)
        },
        _ => member_inner(s, name, true, peek, peek.is_some(), ch, path),
    }
}

fn member_inner(s: &Schema, name: &str, required: bool, peek: Option<&Value>, seeding: bool, ch: &Vec<(String, VariantChoice)>, path: &str) -> (r: FormMember)
    requires
        can_build_inner(*s, peek_view(peek), seeding, choices_view(ch@), path@),
        !seeding ==> peek is None,
    ensures
        r@ == built_inner(*s, name@, required, peek_view(peek), seeding, choices_view(ch@), path@),
    decreases s, 0nat,
{
    broadcast use vstd::string::group_string_axioms;
    match s {
        Schema::Scalar(k) => {
            let r = FormMember::Field(FormField {
                name: name.to_string(),
                label: None,
                required,
                kind: *k,
                value: seed(peek),
                errors: Vec::new(),
            });
            proof {
                assert(crate::members::field_errors_view(Seq::<crate::error::FieldError>::empty()) =~= Seq::empty());
            }
            r
        },
        Schema::List(e) => {
            let rows = match peek {
                Some(Value::List(items)) => list_rows(e, items, ch, path),
                _ => Vec::new(),
            };
            let r = FormMember::List(ListSet { name: name.to_string(), label: None, optional: !required, rows, errors: Vec::new() });
            proof {
                assert(crate::members::form_errors_view(Seq::<crate::error::FormError>::empty()) =~= Seq::empty());
                if !(peek_view(peek) matches Some(ValueV::List(_))) {
                    assert(members_view(rows@) =~= Seq::empty());
                }
            }
            r
        },
        Schema::Struct(fs) => {
            let es = match peek {
                Some(Value::Record(es)) => Some(es),
                _ => None,
            };
            let members = fields_members(fs, es, ch, path);
            proof {
                assert(crate::members::form_errors_view(Seq::<crate::error::FormError>::empty()) =~= Seq::empty());
            }
            FormMember::Fields(FieldSet { name: name.to_string(), label: None, optional: !required, members, errors: Vec::new() })
        },
        Schema::Enum(vs) => enum_member(vs, name, required, peek, seeding, ch, path),
        _ => {
            proof {
                assert(false);
            }
            FormMember::List(ListSet { name: name.to_string(), label: None, optional: false, rows: Vec::new(), errors: Vec::new() })
        },
    }
}

/// An enum-typed field: a variant set locked to the chosen variant.
fn enum_member(vs: &Vec<VariantSchema>, name: &str, required: bool, peek: Option<&Value>, seeding: bool, ch: &Vec<(String, VariantChoice)>, path: &str) -> (r: FormMember)
    requires
        can_build_inner(Schema::Enum(*vs), peek_view(peek), seeding, choices_view(ch@), path@),
        !seeding ==> peek is None,
    ensures
        r@ == built_inner(Schema::Enum(*vs), name@, required, peek_view(peek), seeding, choices_view(ch@), path@),
    decreases vs@, 3nat,
{
    broadcast use vstd::string::group_string_axioms;
    let c = chosen_variant(vs, peek, seeding, ch, path);
    let (choice, members) = match c {
        Some(i) => {
            let (_, es) = peek_variant(peek);
            proof {
                assert(decreases_to!(vs@ => vs@[i as int]));
                assert(decreases_to!(vs@[i as int] => vs@[i as int].fields));
                assert(decreases_to!(vs@[i as int].fields => vs@[i as int].fields@));
                assert(entries_peek_view(es) == variant_entries(peek_view(peek)));
            }
            let ms = fields_members(&vs[i].fields, es, ch, path);
            (VariantChoice::Named(vs[i].name.clone()), ms)
        },
        None => (VariantChoice::Absent, Vec::new()),
    };
    proof {
        assert(crate::members::form_errors_view(Seq::<crate::error::FormError>::empty()) =~= Seq::empty());
        if c is None {
            assert(members_view(members@) =~= Seq::empty());
        }
    }
    FormMember::Variant(VariantSet {
        name: name.to_string(),
        label: None,
        choice,
        optional: !required,
        members,
        errors: Vec::new(),
    })
}

/// One member per field, seeded from the matching entry of `es`.
fn fields_members(fs: &Vec<FieldSchema>, es: Option<&Vec<Entry>>, ch: &Vec<(String, VariantChoice)>, path: &str) -> (r: Vec<FormMember>)
    requires
        fields_can_build(fs@, entries_peek_view(es), choices_view(ch@), path@),
    ensures
        members_view(r@) == built_fields(fs@, entries_peek_view(es), choices_view(ch@), path@),
    decreases fs@, 2nat,
{
    let ghost esv = entries_peek_view(es);
    let mut r: Vec<FormMember> = Vec::new();
    let mut i: usize = 0;
    while i < fs.len()
        invariant
            i <= fs@.len(),
            r@.len() == i,
            esv == entries_peek_view(es),
            fields_can_build(fs@, esv, choices_view(ch@), path@),
            forall|j: int| 0 <= j < i ==> #[trigger] crate::members::member_view(r@[j]) == built_fields(fs@, esv, choices_view(ch@), path@)[j],
        decreases fs@.len() - i,
    {
        let p = qualify(path, fs[i].name.as_str());
        let peek = match es {
            Some(es) => Some(&es[i].value),
            None => None,
        };
        proof {
            assert(can_build(fs@[i as int].schema, entry_peek(esv, i as int), choices_view(ch@), spec_qualify(path@, fs@[i as int].name@)));
            assert(peek_view(peek) == entry_peek(esv, i as int));
            assert(decreases_to!(fs@ => fs@[i as int]));
            assert(decreases_to!(fs@[i as int] => fs@[i as int].schema));
        }
        let m = member_for_shape(&fs[i].schema, fs[i].name.as_str(), peek, ch, p.as_str());
        r.push(m);
        i = i + 1;
    }
    proof {
        assert forall|j: int| 0 <= j < r@.len() implies #[trigger] members_view(r@)[j] == built_fields(fs@, esv, choices_view(ch@), path@)[j] by {
            assert(members_view(r@)[j] == crate::members::member_view(r@[j]));
        }
        assert(members_view(r@) =~= built_fields(fs@, esv, choices_view(ch@), path@));
    }
    r
}

/// One row per list element, named by its index.
fn list_rows(e: &Schema, items: &Vec<Value>, ch: &Vec<(String, VariantChoice)>, path: &str) -> (r: Vec<FormMember>)
    requires
        rows_can_build(*e, crate::schema::value_view(Value::List(*items))->List_0, choices_view(ch@), path@),
    ensures
        members_view(r@) == built_rows(*e, crate::schema::value_view(Value::List(*items))->List_0, choices_view(ch@), path@),
    decreases e, 2nat,
{
    let ghost iv = crate::schema::value_view(Value::List(*items))->List_0;
    let mut r: Vec<FormMember> = Vec::new();
    let mut i: usize = 0;
    while i < items.len()
        invariant
            i <= items@.len(),
            r@.len() == i,
            iv == crate::schema::value_view(Value::List(*items))->List_0,
            iv.len() == items@.len(),
            rows_can_build(*e, iv, choices_view(ch@), path@),
            forall|j: int| 0 <= j < i ==> #[trigger] crate::members::member_view(r@[j]) == built_rows(*e, iv, choices_view(ch@), path@)[j],
        decreases items@.len() - i,
    {
        let n = index_name(i);
        let p = qualify(path, n.as_str());
        proof {
            assert(iv[i as int] == items@[i as int]@);
        }
        let m = member_for_shape(e, n.as_str(), Some(&items[i]), ch, p.as_str());
        r.push(m);
        i = i + 1;
    }
    proof {
        assert forall|j: int| 0 <= j < r@.len() implies #[trigger] members_view(r@)[j] == built_rows(*e, iv, choices_view(ch@), path@)[j] by {
            assert(members_view(r@)[j] == crate::members::member_view(r@[j]));
        }
        assert(members_view(r@) =~= built_rows(*e, iv, choices_view(ch@), path@));
    }
    r
}

/// The members of a form for a model of shape `s`, seeded from `peek`.
pub(crate) fn members_for(s: &Schema, peek: Option<&Value>, ch: &Vec<(String, VariantChoice)>) -> (r: Vec<FormMember>)
    requires
        form_can_build(*s, peek_view(peek), choices_view(ch@)),
    ensures
        members_view(r@) == form_members(*s, peek_view(peek), choices_view(ch@)),
{
    proof {
        reveal_strlit("");
        assert(""@ =~= Seq::<char>::empty());
    }
    match s {
        Schema::Struct(fs) => {
            let es = match peek {
                Some(Value::Record(es)) => Some(es),
                _ => None,
            };
            fields_members(fs, es, ch, "")
        },
        Schema::Enum(vs) => {
            let c = chosen_variant(vs, peek, peek.is_some(), ch, "");
            match c {
                Some(i) => {
                    let es = match peek {
                        Some(Value::Variant(_, es)) => Some(es),
                        _ => None,
                    };
                    fields_members(&vs[i].fields, es, ch, "")
                },
                None => {
                    proof {
                        assert(false);
                    }
                    Vec::new()
                },
            }
        },
        _ => {
            proof {
                assert(false);
            }
            Vec::new()
        },
    }
}

/// The create-mode walk from shape `s` at `path` (through the variants the
/// caller chose) reaches no type without a built-in widget and no `Option`
/// directly inside an `Option`.
pub open spec fn supported(s: Schema, ch: Seq<(Seq<char>, ChoiceV)>, path: Seq<char>) -> bool
    decreases s,
{
    match s {
        Schema::Scalar(_) => true,
        Schema::Unsupported => false,
        Schema::List(_) => true,
        Schema::Opt(x) => !(*x is Opt) && supported(*x, ch, path),
        Schema::Struct(fs) => forall|i: int|
            0 <= i < fs@.len() ==> supported(#[trigger] fs@[i].schema, ch, spec_qualify(path, fs@[i].name@)),
        Schema::Enum(vs) => match lookup(ch, path) {
            Some(ChoiceV::Named(n)) => match find_variant(vs@, n) {
                Some(i) => 0 <= i < vs@.len() ==> forall|j: int|
                    0 <= j < vs@[i].fields@.len() ==> supported(
                        #[trigger] vs@[i].fields@[j].schema,
                        ch,
                        spec_qualify(path, vs@[i].fields@[j].name@),
                    ),
                None => true,
            },
            _ => true,
        },
    }
}

/// [`supported`] for the fields of a form's model.
pub open spec fn fields_supported(fs: Seq<FieldSchema>, ch: Seq<(Seq<char>, ChoiceV)>, path: Seq<char>) -> bool {
    forall|i: int| 0 <= i < fs.len() ==> supported(#[trigger] fs[i].schema, ch, spec_qualify(path, fs[i].name@))
}

/// The model is a struct or an enum, and the create-mode walk over it reaches
/// no unsupported type (see [`supported`]).
pub open spec fn form_supported(s: Schema, ch: Seq<(Seq<char>, ChoiceV)>) -> bool {
    match s {
        Schema::Struct(fs) => fields_supported(fs@, ch, Seq::empty()),
        Schema::Enum(vs) => match lookup(ch, Seq::empty()) {
            Some(ChoiceV::Named(n)) => match find_variant(vs@, n) {
                Some(i) => 0 <= i < vs@.len() ==> fields_supported(vs@[i].fields@, ch, Seq::empty()),
                None => true,
            },
            _ => true,
        },
        _ => false,
    }
}


fn check_build(s: &Schema, peek: Option<&Value>, ch: &Vec<(String, VariantChoice)>, path: &str) -> (r: bool)
    ensures
        r == can_build(*s, peek_view(peek), choices_view(ch@), path@),
    decreases s, 1nat,
{
    match s {
        Schema::Opt(x) => match peek {
            None => check_build_inner(x, None, false, ch, path),
            Some(Value::Absent) => check_build_inner(x, None, true, ch, path),
            Some(Value::Present(b)) => check_build_inner(x, Some(&**b), true, ch, path),
            _ => false,
        },
        _ => check_build_inner(s, peek, peek.is_some(), ch, path),
    }
}

fn check_build_inner(s: &Schema, peek: Option<&Value>, seeding: bool, ch: &Vec<(String, VariantChoice)>, path: &str) -> (r: bool)
    ensures
        r == can_build_inner(*s, peek_view(peek), seeding, choices_view(ch@), path@),
    decreases s, 0nat,
{
    broadcast use vstd::string::group_string_axioms;
    match s {
        Schema::Scalar(_) => match peek {
            None => true,
            Some(Value::Scalar(_)) => true,
            _ => false,
        },
        Schema::List(e) => match peek {
            None => true,
            Some(Value::List(items)) => check_rows(e, items, ch, path),
            _ => false,
        },
        Schema::Struct(fs) => match peek {
            None => check_fields(fs, None, ch, path),
            Some(Value::Record(es)) => check_fields(fs, Some(es), ch, path),
            _ => false,
        },
        Schema::Enum(vs) => check_build_enum(vs, peek, seeding, ch, path),
        _ => false,
    }
}

fn check_build_enum(vs: &Vec<VariantSchema>, peek: Option<&Value>, seeding: bool, ch: &Vec<(String, VariantChoice)>, path: &str) -> (r: bool)
    ensures
        r == can_build_inner(Schema::Enum(*vs), peek_view(peek), seeding, choices_view(ch@), path@),
    decreases vs@, 4nat,
{
    if seeding {
        check_seeded_variant(vs, peek, ch, path)
    } else {
        check_chosen_variant(vs, ch, path)
    }
}

fn check_seeded_variant(vs: &Vec<VariantSchema>, peek: Option<&Value>, ch: &Vec<(String, VariantChoice)>, path: &str) -> (r: bool)
    ensures
        r == can_build_inner(Schema::Enum(*vs), peek_view(peek), true, choices_view(ch@), path@),
    decreases vs@, 3nat,
{
    let (n, es) = peek_variant(peek);
    match peek {
        None => true,
        Some(_) => match (n, es) {
            (Some(n), Some(es)) => match find_variant_index(vs, n) {
                Some(i) => {
                    proof {
                        assert(decreases_to!(vs@ => vs@[i as int]));
                        assert(decreases_to!(vs@[i as int] => vs@[i as int].fields));
                        assert(decreases_to!(vs@[i as int].fields => vs@[i as int].fields@));
                    }
                    check_fields(&vs[i].fields, Some(es), ch, path)
                },
                None => false,
            },
            _ => false,
        },
    }
}

fn check_chosen_variant(vs: &Vec<VariantSchema>, ch: &Vec<(String, VariantChoice)>, path: &str) -> (r: bool)
    ensures
        forall|p: Option<ValueV>| r == #[trigger] can_build_inner(Schema::Enum(*vs), p, false, choices_view(ch@), path@),
    decreases vs@, 3nat,
{
    broadcast use vstd::string::group_string_axioms;
    let key = path.to_string();
    match lookup_choice(ch, &key) {
        Some(VariantChoice::Absent) => true,
        Some(VariantChoice::Named(n)) => match find_variant_index(vs, n) {
            Some(i) => {
                proof {
                    assert(decreases_to!(vs@ => vs@[i as int]));
                    assert(decreases_to!(vs@[i as int] => vs@[i as int].fields));
                    assert(decreases_to!(vs@[i as int].fields => vs@[i as int].fields@));
                }
                check_fields(&vs[i].fields, None, ch, path)
            },
            None => false,
        },
        None => false,
    }
}

fn check_fields(fs: &Vec<FieldSchema>, es: Option<&Vec<Entry>>, ch: &Vec<(String, VariantChoice)>, path: &str) -> (r: bool)
    ensures
        r == fields_can_build(fs@, entries_peek_view(es), choices_view(ch@), path@),
    decreases fs@, 2nat,
{
    let ghost esv = entries_peek_view(es);
    match es {
        Some(v) => {
            if v.len() != fs.len() {
                return false;
            }
        },
        None => {},
    }
    let mut i: usize = 0;
    while i < fs.len()
        invariant
            i <= fs@.len(),
            esv == entries_peek_view(es),
            esv matches Some(v) ==> v.len() == fs@.len(),
            forall|j: int|
                0 <= j < i ==> can_build(
                    #[trigger] fs@[j].schema,
                    entry_peek(esv, j),
                    choices_view(ch@),
                    spec_qualify(path@, fs@[j].name@),
                ),
        decreases fs@.len() - i,
    {
        let p = qualify(path, fs[i].name.as_str());
        let peek = match es {
            Some(v) => Some(&v[i].value),
            None => None,
        };
        proof {
            assert(peek_view(peek) == entry_peek(esv, i as int));
            assert(decreases_to!(fs@ => fs@[i as int]));
            assert(decreases_to!(fs@[i as int] => fs@[i as int].schema));
        }
        if !check_build(&fs[i].schema, peek, ch, p.as_str()) {
            return false;
        }
        i = i + 1;
    }
    true
}

fn check_rows(e: &Schema, items: &Vec<Value>, ch: &Vec<(String, VariantChoice)>, path: &str) -> (r: bool)
    ensures
        r == rows_can_build(*e, crate::schema::value_view(Value::List(*items))->List_0, choices_view(ch@), path@),
    decreases e, 2nat,
{
    let ghost iv = crate::schema::value_view(Value::List(*items))->List_0;
    let mut i: usize = 0;
    while i < items.len()
        invariant
            i <= items@.len(),
            iv == crate::schema::value_view(Value::List(*items))->List_0,
            iv.len() == items@.len(),
            forall|j: int| 0 <= j < i ==> can_build(*e, Some(#[trigger] iv[j]), choices_view(ch@), spec_qualify(path@, decimal(j as nat))),
        decreases items@.len() - i,
    {
        let n = index_name(i);
        let p = qualify(path, n.as_str());
        proof {
            assert(iv[i as int] == items@[i as int]@);
        }
        if !check_build(e, Some(&items[i]), ch, p.as_str()) {
            return false;
        }
        i = i + 1;
    }
    true
}

/// Whether a form for a model of shape `s` can be built from `peek` (edit
/// mode) or from the choices `ch` (create mode): the condition
/// [`form_for`](crate::form::form_for) needs.
pub fn buildable(s: &Schema, peek: Option<&Value>, ch: &Vec<(String, VariantChoice)>) -> (r: bool)
    ensures
        r == form_can_build(*s, peek_view(peek), choices_view(ch@)),
{
    proof {
        reveal_strlit("");
        assert(""@ =~= Seq::<char>::empty());
    }
    match s {
        Schema::Struct(fs) => match peek {
            None => check_fields(fs, None, ch, ""),
            Some(Value::Record(es)) => check_fields(fs, Some(es), ch, ""),
            _ => false,
        },
        Schema::Enum(vs) => match peek {
            None => match chosen_variant(vs, None, false, ch, "") {
                Some(i) => check_fields(&vs[i].fields, None, ch, ""),
                None => false,
            },
            Some(Value::Variant(n, es)) => match find_variant_index(vs, n) {
                Some(i) => check_fields(&vs[i].fields, Some(es), ch, ""),
                None => false,
            },
            _ => false,
        },
        _ => false,
    }
}

fn check_supported(s: &Schema, ch: &Vec<(String, VariantChoice)>, path: &str) -> (r: bool)
    ensures
        r == supported(*s, choices_view(ch@), path@),
    decreases s,
{
    broadcast use vstd::string::group_string_axioms;
    match s {
        Schema::Scalar(_) => true,
        Schema::Unsupported => false,
        Schema::List(_) => true,
        Schema::Opt(x) => {
            let nested = match &**x {
                Schema::Opt(_) => true,
                _ => false,
            };
            !nested && check_supported(x, ch, path)
        },
        Schema::Struct(fs) => {
            proof {
                assert(decreases_to!(*s => fs));
                assert(decreases_to!(fs => fs@));
            }
            check_fields_supported(fs, ch, path)
        },
        Schema::Enum(vs) => {
            proof {
                assert(decreases_to!(*s => vs));
                assert(decreases_to!(vs => vs@));
            }
            check_enum_supported(vs, ch, path)
        },
    }
}

fn check_enum_supported(vs: &Vec<VariantSchema>, ch: &Vec<(String, VariantChoice)>, path: &str) -> (r: bool)
    ensures
        r == supported(Schema::Enum(*vs), choices_view(ch@), path@),
    decreases vs@,
{
    broadcast use vstd::string::group_string_axioms;
    let key = path.to_string();
    match lookup_choice(ch, &key) {
        Some(VariantChoice::Named(n)) => match find_variant_index(vs, n) {
            Some(i) => {
                proof {
                    assert(decreases_to!(vs@ => vs@[i as int]));
                    assert(decreases_to!(vs@[i as int] => vs@[i as int].fields));
                    assert(decreases_to!(vs@[i as int].fields => vs@[i as int].fields@));
                }
                check_fields_supported(&vs[i].fields, ch, path)
            },
            None => true,
        },
        _ => true,
    }
}

fn check_fields_supported(fs: &Vec<FieldSchema>, ch: &Vec<(String, VariantChoice)>, path: &str) -> (r: bool)
    ensures
        r == fields_supported(fs@, choices_view(ch@), path@),
    decreases fs@,
{
    let mut i: usize = 0;
    while i < fs.len()
        invariant
            i <= fs@.len(),
            forall|j: int| 0 <= j < i ==> supported(#[trigger] fs@[j].schema, choices_view(ch@), spec_qualify(path@, fs@[j].name@)),
        decreases fs@.len() - i,
    {
        let p = qualify(path, fs[i].name.as_str());
        proof {
            assert(decreases_to!(fs@ => fs@[i as int]));
            assert(decreases_to!(fs@[i as int] => fs@[i as int].schema));
        }
        if !check_supported(&fs[i].schema, ch, p.as_str()) {
            return false;
        }
        i = i + 1;
    }
    true
}

/// Whether every type the create-mode walk over shape `s` reaches (through
/// the variants chosen in `ch`) has a built-in widget, with no `Option`
/// directly inside an `Option`, and the model is a struct or an enum: the
/// condition [`empty_form_with_variants`](crate::form::empty_form_with_variants)
/// needs.
pub fn widgets_cover(s: &Schema, ch: &Vec<(String, VariantChoice)>) -> (r: bool)
    ensures
        r == form_supported(*s, choices_view(ch@)),
{
    proof {
        reveal_strlit("");
        assert(""@ =~= Seq::<char>::empty());
    }
    match s {
        Schema::Struct(fs) => check_fields_supported(fs, ch, ""),
        Schema::Enum(vs) => {
            let key = String::new();
            proof {
                assert(key@ =~= Seq::<char>::empty());
            }
            match lookup_choice(ch, &key) {
                Some(VariantChoice::Named(n)) => match find_variant_index(vs, n) {
                    Some(i) => check_fields_supported(&vs[i].fields, ch, ""),
                    None => true,
                },
                _ => true,
            }
        },
        _ => false,
    }
}

} // verus!
