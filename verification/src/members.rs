//! The member tree of a form: leaf fields, and the containers (struct field
//! sets, enum variant sets, list sets) that nest them under qualified paths.

use vstd::prelude::*;
use crate::choices::{ChoiceV, VariantChoice, lookup};
use crate::error::{FieldError, FormError};
use crate::path::{qualify, spec_qualify};
use crate::scalar::{FloatText, FloatTextV, float_texts_view, parse_scalar, spec_parse};
use crate::schema::{Entry, ScalarKind, Value, ValueV, entries_view, value_view};
use vstd::string::StringExecFns;

verus! {

/// The state of one leaf field's value.
#[derive(Clone, Debug, PartialEq)]
pub enum FieldValue {
    /// Nothing entered (an empty input).
    Empty,
    /// A value that parsed, held as the text its type displays it as.
    Valid(String),
    /// Input that did not parse, kept so it can be shown back.
    Invalid { raw: String, error: FieldError },
}

/// The mathematical view of a [`FieldValue`]; `Invalid` holds the raw input
/// and the error message.
pub enum FieldValueV {
    Empty,
    Valid(Seq<char>),
    Invalid(Seq<char>, Seq<char>),
}

impl View for FieldValue {
    type V = FieldValueV;

    open spec fn view(&self) -> FieldValueV {
        match self {
            FieldValue::Empty => FieldValueV::Empty,
            FieldValue::Valid(t) => FieldValueV::Valid(t@),
            FieldValue::Invalid { raw, error } => FieldValueV::Invalid(raw@, error.0@),
        }
    }
}

/// A leaf: one scalar input.
#[derive(Clone, Debug, PartialEq)]
pub struct FormField {
    pub name: String,
    pub label: Option<String>,
    pub required: bool,
    pub kind: ScalarKind,
    pub value: FieldValue,
    pub errors: Vec<FieldError>,
}

/// A struct-typed member: its fields, nested under its name. Behind an
/// `Option` it is optional: left wholly empty it stands for `None`.
#[derive(Debug)]
pub struct FieldSet {
    pub name: String,
    pub label: Option<String>,
    /// Whether the struct sits behind an `Option`.
    pub optional: bool,
    pub members: Vec<FormMember>,
    pub errors: Vec<FormError>,
}

/// An enum-typed member, locked to one answer chosen before the form existed.
/// For a named variant it holds that variant's fields; for `Absent` it holds
/// nothing and stands for an `Option` left empty. The choice itself is not a
/// leaf: it never appears in a path or a submitted value.
#[derive(Debug)]
pub struct VariantSet {
    pub name: String,
    pub label: Option<String>,
    pub choice: VariantChoice,
    /// Whether the enum sits behind an `Option`.
    pub optional: bool,
    pub members: Vec<FormMember>,
    pub errors: Vec<FormError>,
}

/// A list-typed member. Rows are members named by their index. Behind an
/// `Option` it is optional: with no input filled in it stands for `None`.
#[derive(Debug)]
pub struct ListSet {
    pub name: String,
    pub label: Option<String>,
    /// Whether the list sits behind an `Option`.
    pub optional: bool,
    pub rows: Vec<FormMember>,
    pub errors: Vec<FormError>,
}

/// Any member of a form.
#[derive(Debug)]
pub enum FormMember {
    Field(FormField),
    Fields(FieldSet),
    Variant(VariantSet),
    List(ListSet),
}

/// The mathematical view of a [`FormMember`].
pub enum MemberV {
    Field {
        name: Seq<char>,
        label: Option<Seq<char>>,
        required: bool,
        kind: ScalarKind,
        value: FieldValueV,
        errors: Seq<Seq<char>>,
    },
    Fields {
        name: Seq<char>,
        label: Option<Seq<char>>,
        optional: bool,
        members: Seq<MemberV>,
        errors: Seq<Seq<char>>,
    },
    Variant {
        name: Seq<char>,
        label: Option<Seq<char>>,
        choice: ChoiceV,
        optional: bool,
        members: Seq<MemberV>,
        errors: Seq<Seq<char>>,
    },
    List { name: Seq<char>, label: Option<Seq<char>>, optional: bool, rows: Seq<MemberV>, errors: Seq<Seq<char>> },
}

pub open spec fn label_view(l: Option<String>) -> Option<Seq<char>> {
    match l {
        Some(s) => Some(s@),
        None => None,
    }
}

pub open spec fn field_errors_view(es: Seq<FieldError>) -> Seq<Seq<char>> {
    es.map_values(|e: FieldError| e.0@)
}

pub open spec fn form_errors_view(es: Seq<FormError>) -> Seq<Seq<char>> {
    es.map_values(|e: FormError| e.0@)
}

pub open spec fn field_view(f: FormField) -> MemberV {
    MemberV::Field {
        name: f.name@,
        label: label_view(f.label),
        required: f.required,
        kind: f.kind,
        value: f.value@,
        errors: field_errors_view(f.errors@),
    }
}

pub open spec fn member_view(m: FormMember) -> MemberV
    decreases m,
{
    match m {
        FormMember::Field(f) => field_view(f),
        FormMember::Fields(s) => MemberV::Fields {
            name: s.name@,
            label: label_view(s.label),
            optional: s.optional,
            members: members_view(s.members@),
            errors: form_errors_view(s.errors@),
        },
        FormMember::Variant(v) => MemberV::Variant {
            name: v.name@,
            label: label_view(v.label),
            choice: v.choice@,
            optional: v.optional,
            members: members_view(v.members@),
            errors: form_errors_view(v.errors@),
        },
        FormMember::List(l) => MemberV::List {
            name: l.name@,
            label: label_view(l.label),
            optional: l.optional,
            rows: members_view(l.rows@),
            errors: form_errors_view(l.errors@),
        },
    }
}

pub open spec fn members_view(ms: Seq<FormMember>) -> Seq<MemberV>
    decreases ms,
{
    Seq::new(ms.len(), |i: int| if 0 <= i < ms.len() { member_view(ms[i]) } else { arbitrary() })
}

impl View for FormMember {
    type V = MemberV;

    open spec fn view(&self) -> MemberV {
        member_view(*self)
    }
}

/// A `(qualified path, raw value)` pair.
pub type Leaf = (Seq<char>, Seq<char>);

pub open spec fn leaves_view(s: Seq<(String, String)>) -> Seq<Leaf> {
    s.map_values(|p: (String, String)| (p.0@, p.1@))
}

impl FieldValueV {
    /// The string an input shows for this value.
    pub open spec fn raw(self) -> Seq<char> {
        match self {
            FieldValueV::Empty => Seq::empty(),
            FieldValueV::Valid(t) => t,
            FieldValueV::Invalid(raw, _) => raw,
        }
    }
}

impl MemberV {
    pub open spec fn name(self) -> Seq<char> {
        match self {
            MemberV::Field { name, .. } => name,
            MemberV::Fields { name, .. } => name,
            MemberV::Variant { name, .. } => name,
            MemberV::List { name, .. } => name,
        }
    }

    pub open spec fn errors(self) -> Seq<Seq<char>> {
        match self {
            MemberV::Field { errors, .. } => errors,
            MemberV::Fields { errors, .. } => errors,
            MemberV::Variant { errors, .. } => errors,
            MemberV::List { errors, .. } => errors,
        }
    }

    /// A container's members, or a list's rows; none for a field.
    pub open spec fn children(self) -> Seq<MemberV> {
        match self {
            MemberV::Field { .. } => Seq::empty(),
            MemberV::Fields { members, .. } => members,
            MemberV::Variant { members, .. } => members,
            MemberV::List { rows, .. } => rows,
        }
    }

    /// The same member with other children (unchanged for a field).
    pub open spec fn with_children(self, cs: Seq<MemberV>) -> MemberV {
        match self {
            MemberV::Field { .. } => self,
            MemberV::Fields { name, label, optional, errors, .. } => MemberV::Fields {
                name,
                label,
                optional,
                members: cs,
                errors,
            },
            MemberV::Variant { name, label, choice, optional, errors, .. } => MemberV::Variant {
                name,
                label,
                choice,
                optional,
                members: cs,
                errors,
            },
            MemberV::List { name, label, optional, errors, .. } => MemberV::List { name, label, optional, rows: cs, errors },
        }
    }

    /// The same member with other errors of its own.
    pub open spec fn with_errors(self, es: Seq<Seq<char>>) -> MemberV {
        match self {
            MemberV::Field { name, label, required, kind, value, .. } => MemberV::Field {
                name,
                label,
                required,
                kind,
                value,
                errors: es,
            },
            MemberV::Fields { name, label, optional, members, .. } => MemberV::Fields {
                name,
                label,
                optional,
                members,
                errors: es,
            },
            MemberV::Variant { name, label, choice, optional, members, .. } => MemberV::Variant {
                name,
                label,
                choice,
                optional,
                members,
                errors: es,
            },
            MemberV::List { name, label, optional, rows, .. } => MemberV::List { name, label, optional, rows, errors: es },
        }
    }
}

/// The `(qualified path, raw value)` pairs of a member's leaves, in order:
/// a field is the one leaf at its qualified path; a container's leaves are its
/// children's, under the container's qualified path.
pub open spec fn leaves(m: MemberV, prefix: Seq<char>) -> Seq<Leaf>
    decreases m,
{
    match m {
        MemberV::Field { name, value, .. } => seq![(spec_qualify(prefix, name), value.raw())],
        MemberV::Fields { name, members, .. } => leaves_all(members, spec_qualify(prefix, name)),
        MemberV::Variant { name, members, .. } => leaves_all(members, spec_qualify(prefix, name)),
        MemberV::List { name, rows, .. } => leaves_all(rows, spec_qualify(prefix, name)),
    }
}

/// The leaves of sibling members, in order.
pub open spec fn leaves_all(ms: Seq<MemberV>, prefix: Seq<char>) -> Seq<Leaf>
    decreases ms,
{
    if ms.len() == 0 {
        Seq::empty()
    } else {
        leaves_all(ms.drop_last(), prefix) + leaves(ms.last(), prefix)
    }
}

/// A field's value after its input is set to `raw`: an empty input is
/// `Empty`; otherwise the parsed value, or the input with its parse error.
pub open spec fn entered(kind: ScalarKind, raw: Seq<char>, floats: Seq<FloatTextV>) -> FieldValueV {
    if raw.len() == 0 {
        FieldValueV::Empty
    } else {
        match spec_parse(kind, raw, floats) {
            Ok(t) => FieldValueV::Valid(t),
            Err(e) => FieldValueV::Invalid(raw, e),
        }
    }
}

/// A member after taking raw input values back in: each field looks its own
/// qualified path up in `values` (the last entry for a path wins) and, when it
/// is there, takes that input; fields with no entry stay as they were.
pub open spec fn apply(m: MemberV, prefix: Seq<char>, values: Seq<Leaf>, floats: Seq<FloatTextV>) -> MemberV
    decreases m,
{
    match m {
        MemberV::Field { name, label, required, kind, value, errors } => match lookup(
            values,
            spec_qualify(prefix, name),
        ) {
            Some(raw) => MemberV::Field { name, label, required, kind, value: entered(kind, raw, floats), errors },
            None => m,
        },
        MemberV::Fields { name, members, .. } => m.with_children(
            apply_all(members, spec_qualify(prefix, name), values, floats),
        ),
        MemberV::Variant { name, members, .. } => m.with_children(
            apply_all(members, spec_qualify(prefix, name), values, floats),
        ),
        MemberV::List { name, rows, .. } => m.with_children(apply_all(rows, spec_qualify(prefix, name), values, floats)),
    }
}

pub open spec fn apply_all(ms: Seq<MemberV>, prefix: Seq<char>, values: Seq<Leaf>, floats: Seq<FloatTextV>) -> Seq<MemberV>
    decreases ms,
{
    Seq::new(ms.len(), |i: int| if 0 <= i < ms.len() { apply(ms[i], prefix, values, floats) } else { arbitrary() })
}

/// The errors validation gives a field: one when it is required and empty.
pub open spec fn field_check(required: bool, value: FieldValueV) -> Seq<Seq<char>> {
    if required && value is Empty {
        seq!["This field is required."@]
    } else {
        Seq::empty()
    }
}

/// Nothing under the member is filled in: every field under it is empty.
pub open spec fn blank(m: MemberV) -> bool
    decreases m,
{
    match m {
        MemberV::Field { value, .. } => value is Empty,
        MemberV::Fields { members, .. } => blank_all(members),
        MemberV::Variant { members, .. } => blank_all(members),
        MemberV::List { rows, .. } => blank_all(rows),
    }
}

pub open spec fn blank_all(ms: Seq<MemberV>) -> bool
    decreases ms,
{
    forall|i: int| 0 <= i < ms.len() ==> blank(#[trigger] ms[i])
}

/// An optional struct or list with nothing filled in: it stands for `None`.
pub open spec fn absent_container(m: MemberV) -> bool {
    match m {
        MemberV::Fields { optional, members, .. } => optional && blank_all(members),
        MemberV::List { optional, rows, .. } => optional && blank_all(rows),
        _ => false,
    }
}

/// A member with every error in it removed.
pub open spec fn cleared(m: MemberV) -> MemberV
    decreases m,
{
    match m {
        MemberV::Field { .. } => m.with_errors(Seq::empty()),
        MemberV::Fields { members, .. } => m.with_children(cleared_all(members)).with_errors(Seq::empty()),
        MemberV::Variant { members, .. } => m.with_children(cleared_all(members)).with_errors(Seq::empty()),
        MemberV::List { rows, .. } => m.with_children(cleared_all(rows)).with_errors(Seq::empty()),
    }
}

pub open spec fn cleared_all(ms: Seq<MemberV>) -> Seq<MemberV>
    decreases ms,
{
    Seq::new(ms.len(), |i: int| if 0 <= i < ms.len() { cleared(ms[i]) } else { arbitrary() })
}

/// A member after validation: every container's own errors are cleared and
/// every field's errors are recomputed by [`field_check`]; an optional struct
/// or list with nothing filled in stands for `None`, so nothing under it is
/// required and its errors are only cleared.
pub open spec fn validated(m: MemberV) -> MemberV
    decreases m,
{
    match m {
        MemberV::Field { required, value, .. } => m.with_errors(field_check(required, value)),
        MemberV::Fields { members, .. } => if absent_container(m) {
            cleared(m)
        } else {
            m.with_children(validated_all(members)).with_errors(Seq::empty())
        },
        MemberV::Variant { members, .. } => m.with_children(validated_all(members)).with_errors(Seq::empty()),
        MemberV::List { rows, .. } => if absent_container(m) {
            cleared(m)
        } else {
            m.with_children(validated_all(rows)).with_errors(Seq::empty())
        },
    }
}

pub open spec fn validated_all(ms: Seq<MemberV>) -> Seq<MemberV>
    decreases ms,
{
    Seq::new(ms.len(), |i: int| if 0 <= i < ms.len() { validated(ms[i]) } else { arbitrary() })
}

/// A member has errors when it has errors of its own, holds an input that did
/// not parse, or contains a member with errors.
pub open spec fn has_errors(m: MemberV) -> bool
    decreases m,
{
    match m {
        MemberV::Field { value, errors, .. } => errors.len() > 0 || value is Invalid,
        MemberV::Fields { members, errors, .. } => errors.len() > 0 || any_errors(members),
        MemberV::Variant { members, errors, .. } => errors.len() > 0 || any_errors(members),
        MemberV::List { rows, errors, .. } => errors.len() > 0 || any_errors(rows),
    }
}

pub open spec fn any_errors(ms: Seq<MemberV>) -> bool
    decreases ms,
{
    if ms.len() == 0 {
        false
    } else {
        any_errors(ms.drop_last()) || has_errors(ms.last())
    }
}

/// A member can be written out as a value: no field holds unparsed input,
/// and no required field is empty, except under an optional struct or list
/// with nothing filled in, which writes `None`.
pub open spec fn writable(m: MemberV) -> bool
    decreases m,
{
    match m {
        MemberV::Field { required, value, .. } => !(value is Invalid) && !(required && value is Empty),
        MemberV::Fields { members, .. } => absent_container(m) || all_writable(members),
        MemberV::Variant { members, .. } => all_writable(members),
        MemberV::List { rows, .. } => absent_container(m) || all_writable(rows),
    }
}

pub open spec fn all_writable(ms: Seq<MemberV>) -> bool
    decreases ms,
{
    if ms.len() == 0 {
        true
    } else {
        all_writable(ms.drop_last()) && writable(ms.last())
    }
}

/// The value a member writes into its slot of the model: a required field its
/// scalar, an optional one `Some` of it or `None` when empty; a field set the
/// record of its members by name; a variant set that variant with its fields
/// (wrapped in `Some` behind an `Option`), or `None` when absent; a list set
/// the list of its rows' values. Behind an `Option`, a field set or list set
/// with nothing filled in writes `None`, and otherwise `Some` of its value.
pub open spec fn value_of(m: MemberV) -> ValueV
    decreases m,
{
    match m {
        MemberV::Field { required, value, .. } => match value {
            FieldValueV::Valid(t) => if required {
                ValueV::Scalar(t)
            } else {
                ValueV::Present(Box::new(ValueV::Scalar(t)))
            },
            _ => ValueV::Absent,
        },
        MemberV::Fields { optional, members, .. } => if !optional {
            ValueV::Record(entries_of(members))
        } else if blank_all(members) {
            ValueV::Absent
        } else {
            ValueV::Present(Box::new(ValueV::Record(entries_of(members))))
        },
        MemberV::Variant { choice, optional, members, .. } => match choice {
            ChoiceV::Absent => ValueV::Absent,
            ChoiceV::Named(n) => if optional {
                ValueV::Present(Box::new(ValueV::Variant(n, entries_of(members))))
            } else {
                ValueV::Variant(n, entries_of(members))
            },
        },
        MemberV::List { optional, rows, .. } => if !optional {
            ValueV::List(values_of(rows))
        } else if blank_all(rows) {
            ValueV::Absent
        } else {
            ValueV::Present(Box::new(ValueV::List(values_of(rows))))
        },
    }
}

pub open spec fn entries_of(ms: Seq<MemberV>) -> Seq<(Seq<char>, ValueV)>
    decreases ms,
{
    Seq::new(ms.len(), |i: int| if 0 <= i < ms.len() { (ms[i].name(), value_of(ms[i])) } else { arbitrary() })
}

pub open spec fn values_of(ms: Seq<MemberV>) -> Seq<ValueV>
    decreases ms,
{
    Seq::new(ms.len(), |i: int| if 0 <= i < ms.len() { value_of(ms[i]) } else { arbitrary() })
}

/// Shown for an `Option<Enum>` left empty, in a disabled input that a browser
/// does not submit.
pub const ABSENT_DISPLAY: &'static str = "--none--";

/// `<input type="text" name="{name}" value="{value}">`, with `rest` before
/// the closing bracket.
pub open spec fn input_html(name: Seq<char>, value: Seq<char>, rest: Seq<char>) -> Seq<char> {
    "<input type=\"text\" name=\""@ + name + "\" value=\""@ + value + "\""@ + rest + ">"@
}

/// An input, inside `<label>` when there is a label.
pub open spec fn labelled(label: Option<Seq<char>>, input: Seq<char>) -> Seq<char> {
    match label {
        Some(l) => "<label>"@ + l + " "@ + input + "</label>"@,
        None => input,
    }
}

/// The strings joined with `sep` between each two.
pub open spec fn join(strs: Seq<Seq<char>>, sep: Seq<char>) -> Seq<char>
    decreases strs.len(),
{
    if strs.len() == 0 {
        Seq::empty()
    } else if strs.len() == 1 {
        strs[0]
    } else {
        join(strs.drop_last(), sep) + sep + strs.last()
    }
}

/// The HTML of a member: a field is a text input named by its own name and
/// showing its raw value; an absent variant set a disabled placeholder input;
/// any other container its children's HTML, one per line.
pub open spec fn render(m: MemberV) -> Seq<char>
    decreases m,
{
    match m {
        MemberV::Field { name, label, value, .. } => labelled(label, input_html(name, value.raw(), Seq::empty())),
        MemberV::Fields { members, .. } => join(render_all(members), "\n"@),
        MemberV::Variant { name, label, choice, members, .. } => match choice {
            ChoiceV::Absent => labelled(label, input_html(name, ABSENT_DISPLAY@, " disabled"@)),
            ChoiceV::Named(_) => join(render_all(members), "\n"@),
        },
        MemberV::List { rows, .. } => join(render_all(rows), "\n"@),
    }
}

pub open spec fn render_all(ms: Seq<MemberV>) -> Seq<Seq<char>>
    decreases ms,
{
    Seq::new(ms.len(), |i: int| if 0 <= i < ms.len() { render(ms[i]) } else { arbitrary() })
}

/// Clearing errors changes no value, no name and no blankness, and leaves
/// nothing with errors where nothing was filled in.
pub proof fn lemma_cleared(m: MemberV)
    ensures
        blank(cleared(m)) == blank(m),
        absent_container(cleared(m)) == absent_container(m),
        value_of(cleared(m)) == value_of(m),
        cleared(m).name() == m.name(),
        blank(m) ==> !has_errors(cleared(m)),
    decreases m,
{
    match m {
        MemberV::Field { .. } => {},
        MemberV::Fields { members, .. } => lemma_cleared_all(members),
        MemberV::Variant { members, .. } => lemma_cleared_all(members),
        MemberV::List { rows, .. } => lemma_cleared_all(rows),
    }
}

pub proof fn lemma_cleared_all(ms: Seq<MemberV>)
    ensures
        blank_all(cleared_all(ms)) == blank_all(ms),
        entries_of(cleared_all(ms)) == entries_of(ms),
        values_of(cleared_all(ms)) == values_of(ms),
        blank_all(ms) ==> !any_errors(cleared_all(ms)),
    decreases ms,
{
    let cs = cleared_all(ms);
    assert forall|i: int| 0 <= i < ms.len() implies blank(#[trigger] cs[i]) == blank(ms[i]) && value_of(cs[i])
        == value_of(ms[i]) && cs[i].name() == ms[i].name() && (blank(ms[i]) ==> !has_errors(cs[i])) by {
        lemma_cleared(ms[i]);
    }
    assert(entries_of(cs) =~= entries_of(ms));
    assert(values_of(cs) =~= values_of(ms));
    if blank_all(cs) != blank_all(ms) {
        if blank_all(ms) {
            let k = choose|k: int| 0 <= k < cs.len() && !blank(cs[k]);
            assert(blank(ms[k]));
        } else {
            let k = choose|k: int| 0 <= k < ms.len() && !blank(ms[k]);
            assert(blank(cs[k]));
        }
    }
    lemma_any_errors(cs);
}

pub proof fn lemma_all_writable(ms: Seq<MemberV>)
    ensures
        all_writable(ms) <==> forall|i: int| 0 <= i < ms.len() ==> writable(#[trigger] ms[i]),
    decreases ms.len(),
{
    if ms.len() > 0 {
        lemma_all_writable(ms.drop_last());
        if all_writable(ms) {
            assert forall|i: int| 0 <= i < ms.len() implies writable(#[trigger] ms[i]) by {
                if i < ms.len() - 1 {
                    assert(ms[i] == ms.drop_last()[i]);
                }
            }
        } else {
            if !all_writable(ms.drop_last()) {
                let k = choose|k: int| 0 <= k < ms.drop_last().len() && !writable(ms.drop_last()[k]);
                assert(ms[k] == ms.drop_last()[k]);
            }
        }
    }
}

pub proof fn lemma_any_errors(ms: Seq<MemberV>)
    ensures
        any_errors(ms) <==> exists|i: int| 0 <= i < ms.len() && has_errors(#[trigger] ms[i]),
    decreases ms.len(),
{
    if ms.len() > 0 {
        lemma_any_errors(ms.drop_last());
        if any_errors(ms.drop_last()) {
            let k = choose|k: int| 0 <= k < ms.drop_last().len() && has_errors(ms.drop_last()[k]);
            assert(ms[k] == ms.drop_last()[k]);
        }
        if exists|i: int| 0 <= i < ms.len() && has_errors(#[trigger] ms[i]) {
            let k = choose|k: int| 0 <= k < ms.len() && has_errors(#[trigger] ms[k]);
            if k < ms.len() - 1 {
                assert(ms[k] == ms.drop_last()[k]);
            }
        }
    }
}

/// The raw value `values` records for `key`, as [`lookup`] says.
pub fn lookup_text<'a>(values: &'a Vec<(String, String)>, key: &String) -> (r: Option<&'a String>)
    ensures
        match r {
            Some(t) => lookup(leaves_view(values@), key@) == Some(t@),
            None => lookup(leaves_view(values@), key@) is None,
        },
{
    let ghost all = leaves_view(values@);
    let mut i: usize = values.len();
    proof {
        assert(all.take(i as int) =~= all);
    }
    while i > 0
        invariant
            i <= values@.len(),
            all == leaves_view(values@),
            lookup(all, key@) == lookup(all.take(i as int), key@),
        decreases i,
    {
        proof {
            assert(all.take(i as int).drop_last() =~= all.take(i - 1));
        }
        if values[i - 1].0 == *key {
            return Some(&values[i - 1].1);
        }
        i = i - 1;
    }
    None
}

fn clone_label(l: &Option<String>) -> (r: Option<String>)
    ensures
        label_view(r) == label_view(*l),
{
    match l {
        Some(s) => Some(s.clone()),
        None => None,
    }
}

impl FieldValue {
    /// The string an input shows for this value.
    pub fn raw_value(&self) -> (r: String)
        ensures
            r@ == self@.raw(),
    {
        match self {
            FieldValue::Empty => String::new(),
            FieldValue::Valid(t) => t.clone(),
            FieldValue::Invalid { raw, .. } => raw.clone(),
        }
    }
}

impl FormField {
    fn apply_raw(&mut self, raw: &String, floats: &Vec<FloatText>)
        ensures
            final(self).name == old(self).name,
            final(self).label == old(self).label,
            final(self).required == old(self).required,
            final(self).kind == old(self).kind,
            final(self).errors == old(self).errors,
            final(self).value@ == entered(old(self).kind, raw@, float_texts_view(floats@)),
    {
        broadcast use vstd::string::group_string_axioms;
        if raw.as_str().is_empty() {
            self.value = FieldValue::Empty;
            return;
        }
        self.value = match parse_scalar(self.kind, raw.as_str(), floats) {
            Ok(t) => FieldValue::Valid(t),
            Err(error) => FieldValue::Invalid { raw: raw.clone(), error },
        };
    }

    fn check(&mut self)
        ensures
            field_view(*final(self)) == field_view(*old(self)).with_errors(field_check(old(self).required, old(self).value@)),
    {
        self.errors.clear();
        let empty = match self.value {
            FieldValue::Empty => true,
            _ => false,
        };
        if self.required && empty {
            self.errors.push(FieldError(String::from_str("This field is required.")));
        }
        proof {
            assert(field_errors_view(self.errors@) =~= field_check(old(self).required, old(self).value@));
        }
    }
}

fn collect_all(ms: &Vec<FormMember>, prefix: &str, out: &mut Vec<(String, String)>)
    ensures
        leaves_view(final(out)@) == leaves_view(old(out)@) + leaves_all(members_view(ms@), prefix@),
    decreases ms@,
{
    let mut i: usize = 0;
    proof {
        assert(members_view(ms@.take(0)) =~= Seq::<MemberV>::empty());
        assert(leaves_view(out@) =~= leaves_view(old(out)@) + leaves_all(members_view(ms@.take(0)), prefix@));
    }
    while i < ms.len()
        invariant
            i <= ms@.len(),
            leaves_view(out@) == leaves_view(old(out)@) + leaves_all(members_view(ms@.take(i as int)), prefix@),
        decreases ms@.len() - i,
    {
        proof {
            let t = members_view(ms@.take(i + 1));
            assert(t.drop_last() =~= members_view(ms@.take(i as int)));
            assert(t.last() == member_view(ms@[i as int]));
        }
        let ghost before = leaves_view(out@);
        ms[i].collect_leaves(prefix, out);
        proof {
            assert(leaves_view(out@) =~= leaves_view(old(out)@) + leaves_all(members_view(ms@.take(i + 1)), prefix@));
        }
        i = i + 1;
    }
    proof {
        assert(ms@.take(ms@.len() as int) =~= ms@);
    }
}

pub(crate) fn apply_vec(ms: &mut Vec<FormMember>, prefix: &str, values: &Vec<(String, String)>, floats: &Vec<FloatText>)
    ensures
        members_view(final(ms)@) == apply_all(members_view(old(ms)@), prefix@, leaves_view(values@), float_texts_view(floats@)),
    decreases old(ms)@,
{
    let ghost ov = ms@;
    let mut i: usize = 0;
    while i < ms.len()
        invariant
            ov == old(ms)@,
            i <= ms@.len(),
            ms@.len() == ov.len(),
            forall|j: int| 0 <= j < i ==> member_view(#[trigger] ms@[j]) == apply(member_view(ov[j]), prefix@, leaves_view(values@), float_texts_view(floats@)),
            forall|j: int| i <= j < ms@.len() ==> #[trigger] ms@[j] == ov[j],
        decreases ms@.len() - i,
    {
        proof {
            assert(ms@[i as int] == ov[i as int]);
            assert(decreases_to!(ov => ov[i as int]));
        }
        ms[i].apply_leaves(prefix, values, floats);
        i = i + 1;
    }
    proof {
        assert(members_view(ms@) =~= apply_all(members_view(ov), prefix@, leaves_view(values@), float_texts_view(floats@)));
    }
}

pub(crate) fn validate_vec(ms: &mut Vec<FormMember>)
    ensures
        members_view(final(ms)@) == validated_all(members_view(old(ms)@)),
    decreases old(ms)@,
{
    let ghost ov = ms@;
    let mut i: usize = 0;
    while i < ms.len()
        invariant
            ov == old(ms)@,
            i <= ms@.len(),
            ms@.len() == ov.len(),
            forall|j: int| 0 <= j < i ==> member_view(#[trigger] ms@[j]) == validated(member_view(ov[j])),
            forall|j: int| i <= j < ms@.len() ==> #[trigger] ms@[j] == ov[j],
        decreases ms@.len() - i,
    {
        proof {
            assert(ms@[i as int] == ov[i as int]);
            assert(decreases_to!(ov => ov[i as int]));
        }
        ms[i].validate();
        i = i + 1;
    }
    proof {
        assert(members_view(ms@) =~= validated_all(members_view(ov)));
    }
}

fn blank_vec(ms: &Vec<FormMember>) -> (r: bool)
    ensures
        r == blank_all(members_view(ms@)),
    decreases ms@,
{
    let mut i: usize = 0;
    while i < ms.len()
        invariant
            i <= ms@.len(),
            forall|j: int| 0 <= j < i ==> blank(#[trigger] members_view(ms@)[j]),
        decreases ms@.len() - i,
    {
        proof {
            assert(members_view(ms@)[i as int] == member_view(ms@[i as int]));
        }
        if !ms[i].is_blank() {
            return false;
        }
        i = i + 1;
    }
    true
}

fn clear_vec(ms: &mut Vec<FormMember>)
    ensures
        members_view(final(ms)@) == cleared_all(members_view(old(ms)@)),
    decreases old(ms)@,
{
    let ghost ov = ms@;
    let mut i: usize = 0;
    while i < ms.len()
        invariant
            ov == old(ms)@,
            i <= ms@.len(),
            ms@.len() == ov.len(),
            forall|j: int| 0 <= j < i ==> member_view(#[trigger] ms@[j]) == cleared(member_view(ov[j])),
            forall|j: int| i <= j < ms@.len() ==> #[trigger] ms@[j] == ov[j],
        decreases ms@.len() - i,
    {
        proof {
            assert(ms@[i as int] == ov[i as int]);
            assert(decreases_to!(ov => ov[i as int]));
        }
        ms[i].clear_errors();
        i = i + 1;
    }
    proof {
        assert(members_view(ms@) =~= cleared_all(members_view(ov)));
    }
}

fn any_errors_vec(ms: &Vec<FormMember>) -> (r: bool)
    ensures
        r == any_errors(members_view(ms@)),
    decreases ms@,
{
    let mut i: usize = 0;
    let mut found = false;
    proof {
        assert(members_view(ms@.take(0)) =~= Seq::<MemberV>::empty());
    }
    while i < ms.len()
        invariant
            i <= ms@.len(),
            found == any_errors(members_view(ms@.take(i as int))),
        decreases ms@.len() - i,
    {
        proof {
            let t = members_view(ms@.take(i + 1));
            assert(t.drop_last() =~= members_view(ms@.take(i as int)));
            assert(t.last() == member_view(ms@[i as int]));
        }
        let e = ms[i].has_errors();
        found = found || e;
        i = i + 1;
    }
    proof {
        assert(ms@.take(ms@.len() as int) =~= ms@);
    }
    found
}

pub(crate) fn entries_vec(ms: &Vec<FormMember>) -> (r: Vec<Entry>)
    requires
        all_writable(members_view(ms@)),
    ensures
        entries_view(r@) == entries_of(members_view(ms@)),
    decreases ms@,
{
    proof {
        lemma_all_writable(members_view(ms@));
    }
    let mut r: Vec<Entry> = Vec::new();
    let mut i: usize = 0;
    while i < ms.len()
        invariant
            i <= ms@.len(),
            r@.len() == i,
            forall|j: int| 0 <= j < ms@.len() ==> writable(#[trigger] members_view(ms@)[j]),
            forall|j: int| 0 <= j < i ==> (#[trigger] r@[j]).name@ == member_view(ms@[j]).name()
                && value_view(r@[j].value) == value_of(member_view(ms@[j])),
        decreases ms@.len() - i,
    {
        proof {
            assert(members_view(ms@)[i as int] == member_view(ms@[i as int]));
        }
        let e = Entry { name: ms[i].name(), value: ms[i].to_value() };
        r.push(e);
        i = i + 1;
    }
    proof {
        assert(entries_view(r@) =~= entries_of(members_view(ms@)));
    }
    r
}

fn values_vec(ms: &Vec<FormMember>) -> (r: Vec<Value>)
    requires
        all_writable(members_view(ms@)),
    ensures
        r@.len() == ms@.len(),
        forall|j: int| 0 <= j < r@.len() ==> value_view(#[trigger] r@[j]) == values_of(members_view(ms@))[j],
    decreases ms@,
{
    proof {
        lemma_all_writable(members_view(ms@));
    }
    let mut r: Vec<Value> = Vec::new();
    let mut i: usize = 0;
    while i < ms.len()
        invariant
            i <= ms@.len(),
            r@.len() == i,
            forall|j: int| 0 <= j < ms@.len() ==> writable(#[trigger] members_view(ms@)[j]),
            forall|j: int| 0 <= j < i ==> value_view(#[trigger] r@[j]) == value_of(member_view(ms@[j])),
        decreases ms@.len() - i,
    {
        proof {
            assert(members_view(ms@)[i as int] == member_view(ms@[i as int]));
        }
        let v = ms[i].to_value();
        r.push(v);
        i = i + 1;
    }
    r
}

pub(crate) fn render_vec(ms: &Vec<FormMember>) -> (r: String)
    ensures
        r@ == join(render_all(members_view(ms@)), "\n"@),
    decreases ms@,
{
    let ghost strs = render_all(members_view(ms@));
    let mut r = String::new();
    let mut i: usize = 0;
    while i < ms.len()
        invariant
            i <= ms@.len(),
            strs == render_all(members_view(ms@)),
            r@ == join(strs.take(i as int), "\n"@),
        decreases ms@.len() - i,
    {
        let piece = ms[i].render();
        proof {
            let t = strs.take(i + 1);
            assert(t.drop_last() =~= strs.take(i as int));
            assert(t.last() == piece@);
            if i == 0 {
                assert(t.len() == 1);
            }
        }
        if i == 0 {
            r = piece;
        } else {
            r.append("\n");
            r.append(piece.as_str());
        }
        i = i + 1;
    }
    proof {
        assert(strs.take(ms@.len() as int) =~= strs);
    }
    r
}

fn input_tag(name: &String, value: &str, rest: &str) -> (r: String)
    ensures
        r@ == input_html(name@, value@, rest@),
{
    let mut r = String::from_str("<input type=\"text\" name=\"");
    r.append(name.as_str());
    r.append("\" value=\"");
    r.append(value);
    r.append("\"");
    r.append(rest);
    r.append(">");
    r
}

fn label_tag(label: &Option<String>, input: String) -> (r: String)
    ensures
        r@ == labelled(label_view(*label), input@),
{
    match label {
        Some(l) => {
            let mut r = String::from_str("<label>");
            r.append(l.as_str());
            r.append(" ");
            r.append(input.as_str());
            r.append("</label>");
            r
        },
        None => input,
    }
}

impl FormMember {
    /// This member's own name (not its qualified path).
    pub fn name(&self) -> (r: String)
        ensures
            r@ == self@.name(),
    {
        match self {
            FormMember::Field(f) => f.name.clone(),
            FormMember::Fields(s) => s.name.clone(),
            FormMember::Variant(v) => v.name.clone(),
            FormMember::List(l) => l.name.clone(),
        }
    }

    /// This member's label, if it has one.
    pub fn label(&self) -> (r: Option<String>)
        ensures
            label_view(r) == match self@ {
                MemberV::Field { label, .. } => label,
                MemberV::Fields { label, .. } => label,
                MemberV::Variant { label, .. } => label,
                MemberV::List { label, .. } => label,
            },
    {
        match self {
            FormMember::Field(f) => clone_label(&f.label),
            FormMember::Fields(s) => clone_label(&s.label),
            FormMember::Variant(v) => clone_label(&v.label),
            FormMember::List(l) => clone_label(&l.label),
        }
    }

    /// The string this member's input shows; containers have no input of
    /// their own and give `""`.
    pub fn raw_value(&self) -> (r: String)
        ensures
            r@ == match self@ {
                MemberV::Field { value, .. } => value.raw(),
                _ => Seq::empty(),
            },
    {
        match self {
            FormMember::Field(f) => f.value.raw_value(),
            _ => String::new(),
        }
    }

    /// Append this member's leaves, as `(qualified path, raw value)` pairs,
    /// to `out`.
    pub fn collect_leaves(&self, prefix: &str, out: &mut Vec<(String, String)>)
        ensures
            leaves_view(final(out)@) == leaves_view(old(out)@) + leaves(self@, prefix@),
        decreases self,
    {
        match self {
            FormMember::Field(f) => {
                let p = qualify(prefix, f.name.as_str());
                let v = f.value.raw_value();
                out.push((p, v));
                proof {
                    assert(leaves_view(out@) =~= leaves_view(old(out)@) + leaves(self@, prefix@));
                }
            },
            FormMember::Fields(s) => {
                let nested = qualify(prefix, s.name.as_str());
                collect_all(&s.members, nested.as_str(), out);
            },
            FormMember::Variant(v) => {
                let nested = qualify(prefix, v.name.as_str());
                collect_all(&v.members, nested.as_str(), out);
            },
            FormMember::List(l) => {
                let nested = qualify(prefix, l.name.as_str());
                collect_all(&l.rows, nested.as_str(), out);
            },
        }
    }

    /// Take raw input values back in, keyed by the qualified paths
    /// [`collect_leaves`](Self::collect_leaves) hands out.
    pub fn apply_leaves(&mut self, prefix: &str, values: &Vec<(String, String)>, floats: &Vec<FloatText>)
        ensures
            final(self)@ == apply(old(self)@, prefix@, leaves_view(values@), float_texts_view(floats@)),
        decreases *old(self),
    {
        match self {
            FormMember::Field(f) => {
                let p = qualify(prefix, f.name.as_str());
                match lookup_text(values, &p) {
                    Some(raw) => {
                        f.apply_raw(raw, floats);
                    },
                    None => {},
                }
            },
            FormMember::Fields(s) => {
                let nested = qualify(prefix, s.name.as_str());
                proof {
                    assert(decreases_to!(*old(self) => (*old(self))->Fields_0));
                    assert(decreases_to!((*old(self))->Fields_0 => (*old(self))->Fields_0.members));
                    assert(decreases_to!((*old(self))->Fields_0.members => (*old(self))->Fields_0.members@));
                }
                apply_vec(&mut s.members, nested.as_str(), values, floats);
            },
            FormMember::Variant(v) => {
                let nested = qualify(prefix, v.name.as_str());
                proof {
                    assert(decreases_to!(*old(self) => (*old(self))->Variant_0));
                    assert(decreases_to!((*old(self))->Variant_0 => (*old(self))->Variant_0.members));
                    assert(decreases_to!((*old(self))->Variant_0.members => (*old(self))->Variant_0.members@));
                }
                apply_vec(&mut v.members, nested.as_str(), values, floats);
            },
            FormMember::List(l) => {
                let nested = qualify(prefix, l.name.as_str());
                proof {
                    assert(decreases_to!(*old(self) => (*old(self))->List_0));
                    assert(decreases_to!((*old(self))->List_0 => (*old(self))->List_0.rows));
                    assert(decreases_to!((*old(self))->List_0.rows => (*old(self))->List_0.rows@));
                }
                apply_vec(&mut l.rows, nested.as_str(), values, floats);
            },
        }
    }

    /// Clear this member's own errors and recompute every field's.
    pub fn validate(&mut self)
        ensures
            final(self)@ == validated(old(self)@),
        decreases *old(self),
    {
        match self {
            FormMember::Field(f) => {
                f.check();
            },
            FormMember::Fields(s) => {
                s.errors.clear();
                proof {
                    assert(decreases_to!(*old(self) => (*old(self))->Fields_0));
                    assert(decreases_to!((*old(self))->Fields_0 => (*old(self))->Fields_0.members));
                    assert(decreases_to!((*old(self))->Fields_0.members => (*old(self))->Fields_0.members@));
                }
                if s.optional && blank_vec(&s.members) {
                    clear_vec(&mut s.members);
                } else {
                    validate_vec(&mut s.members);
                }
                proof {
                    assert(form_errors_view(s.errors@) =~= Seq::empty());
                }
            },
            FormMember::Variant(v) => {
                v.errors.clear();
                proof {
                    assert(decreases_to!(*old(self) => (*old(self))->Variant_0));
                    assert(decreases_to!((*old(self))->Variant_0 => (*old(self))->Variant_0.members));
                    assert(decreases_to!((*old(self))->Variant_0.members => (*old(self))->Variant_0.members@));
                }
                validate_vec(&mut v.members);
                proof {
                    assert(form_errors_view(v.errors@) =~= Seq::empty());
                }
            },
            FormMember::List(l) => {
                l.errors.clear();
                proof {
                    assert(decreases_to!(*old(self) => (*old(self))->List_0));
                    assert(decreases_to!((*old(self))->List_0 => (*old(self))->List_0.rows));
                    assert(decreases_to!((*old(self))->List_0.rows => (*old(self))->List_0.rows@));
                }
                if l.optional && blank_vec(&l.rows) {
                    clear_vec(&mut l.rows);
                } else {
                    validate_vec(&mut l.rows);
                }
                proof {
                    assert(form_errors_view(l.errors@) =~= Seq::empty());
                }
            },
        }
    }

    /// Whether this member or anything in it has errors.
    pub fn has_errors(&self) -> (r: bool)
        ensures
            r == has_errors(self@),
        decreases self,
    {
        match self {
            FormMember::Field(f) => {
                let invalid = match f.value {
                    FieldValue::Invalid { .. } => true,
                    _ => false,
                };
                f.errors.len() > 0 || invalid
            },
            FormMember::Fields(s) => s.errors.len() > 0 || any_errors_vec(&s.members),
            FormMember::Variant(v) => v.errors.len() > 0 || any_errors_vec(&v.members),
            FormMember::List(l) => l.errors.len() > 0 || any_errors_vec(&l.rows),
        }
    }

    /// The value this member writes into its slot of the model.
    pub fn to_value(&self) -> (r: Value)
        requires
            writable(self@),
        ensures
            r@ == value_of(self@),
        decreases self,
    {
        match self {
            FormMember::Field(f) => match &f.value {
                FieldValue::Valid(t) => {
                    proof {
                        assert(self@ == field_view(*f));
                        assert(f.value@ == FieldValueV::Valid(t@));
                    }
                    let c = t.clone();
                    if f.required {
                        proof {
                            assert(value_of(self@) == ValueV::Scalar(t@));
                        }
                        Value::Scalar(c)
                    } else {
                        let r = Value::Present(Box::new(Value::Scalar(c)));
                        proof {
                            assert(value_view(Value::Scalar(c)) == ValueV::Scalar(t@));
                            assert(r@ == ValueV::Present(Box::new(ValueV::Scalar(t@))));
                            assert(value_of(self@) == ValueV::Present(Box::new(ValueV::Scalar(t@))));
                        }
                        r
                    }
                },
                _ => {
                    proof {
                        assert(self@ == field_view(*f));
                        assert(!(f.value@ is Valid));
                        assert(value_of(self@) == ValueV::Absent);
                    }
                    Value::Absent
                },
            },
            FormMember::Fields(s) => {
                if !s.optional {
                    Value::Record(entries_vec(&s.members))
                } else if blank_vec(&s.members) {
                    Value::Absent
                } else {
                    let inner = Value::Record(entries_vec(&s.members));
                    let r = Value::Present(Box::new(inner));
                    proof {
                        assert(r@ == ValueV::Present(Box::new(inner@)));
                    }
                    r
                }
            },
            FormMember::Variant(v) => match &v.choice {
                VariantChoice::Absent => Value::Absent,
                VariantChoice::Named(n) => {
                    let inner = Value::Variant(n.clone(), entries_vec(&v.members));
                    if v.optional {
                        let r = Value::Present(Box::new(inner));
                        proof {
                            assert(r@ == ValueV::Present(Box::new(inner@)));
                        }
                        r
                    } else {
                        inner
                    }
                },
            },
            FormMember::List(l) => {
                if l.optional && blank_vec(&l.rows) {
                    return Value::Absent;
                }
                let items = values_vec(&l.rows);
                proof {
                    assert(value_view(Value::List(items))->List_0 =~= values_of(members_view(l.rows@)));
                }
                let inner = Value::List(items);
                if l.optional {
                    let r = Value::Present(Box::new(inner));
                    proof {
                        assert(r@ == ValueV::Present(Box::new(inner@)));
                    }
                    r
                } else {
                    inner
                }
            },
        }
    }

    /// Whether nothing under this member is filled in, as [`blank`] says.
    pub fn is_blank(&self) -> (r: bool)
        ensures
            r == blank(self@),
        decreases self,
    {
        match self {
            FormMember::Field(f) => match f.value {
                FieldValue::Empty => true,
                _ => false,
            },
            FormMember::Fields(s) => blank_vec(&s.members),
            FormMember::Variant(v) => blank_vec(&v.members),
            FormMember::List(l) => blank_vec(&l.rows),
        }
    }

    /// Remove every error in this member, as [`cleared`] says.
    pub fn clear_errors(&mut self)
        ensures
            final(self)@ == cleared(old(self)@),
        decreases *old(self),
    {
        match self {
            FormMember::Field(f) => {
                f.errors.clear();
                proof {
                    assert(field_errors_view(f.errors@) =~= Seq::empty());
                }
            },
            FormMember::Fields(s) => {
                s.errors.clear();
                proof {
                    assert(decreases_to!(*old(self) => (*old(self))->Fields_0));
                    assert(decreases_to!((*old(self))->Fields_0 => (*old(self))->Fields_0.members));
                    assert(decreases_to!((*old(self))->Fields_0.members => (*old(self))->Fields_0.members@));
                }
                clear_vec(&mut s.members);
                proof {
                    assert(form_errors_view(s.errors@) =~= Seq::empty());
                }
            },
            FormMember::Variant(v) => {
                v.errors.clear();
                proof {
                    assert(decreases_to!(*old(self) => (*old(self))->Variant_0));
                    assert(decreases_to!((*old(self))->Variant_0 => (*old(self))->Variant_0.members));
                    assert(decreases_to!((*old(self))->Variant_0.members => (*old(self))->Variant_0.members@));
                }
                clear_vec(&mut v.members);
                proof {
                    assert(form_errors_view(v.errors@) =~= Seq::empty());
                }
            },
            FormMember::List(l) => {
                l.errors.clear();
                proof {
                    assert(decreases_to!(*old(self) => (*old(self))->List_0));
                    assert(decreases_to!((*old(self))->List_0 => (*old(self))->List_0.rows));
                    assert(decreases_to!((*old(self))->List_0.rows => (*old(self))->List_0.rows@));
                }
                clear_vec(&mut l.rows);
                proof {
                    assert(form_errors_view(l.errors@) =~= Seq::empty());
                }
            },
        }
    }

    /// This member's HTML.
    pub fn render(&self) -> (r: String)
        ensures
            r@ == render(self@),
        decreases self,
    {
        match self {
            FormMember::Field(f) => {
                let v = f.value.raw_value();
                proof {
                    reveal_strlit("");
                }
                let input = input_tag(&f.name, v.as_str(), "");
                proof {
                    assert(""@ =~= Seq::<char>::empty());
                }
                label_tag(&f.label, input)
            },
            FormMember::Fields(s) => render_vec(&s.members),
            FormMember::Variant(v) => match &v.choice {
                VariantChoice::Absent => {
                    let input = input_tag(&v.name, ABSENT_DISPLAY, " disabled");
                    label_tag(&v.label, input)
                },
                VariantChoice::Named(_) => render_vec(&v.members),
            },
            FormMember::List(l) => render_vec(&l.rows),
        }
    }
}

} // verus!
