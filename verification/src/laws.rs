//! What holds of the library as a whole, across its functions.

use vstd::prelude::*;
use crate::choices::{ChoiceV, OptionsV, find_variant, keys_unique, lookup, missing, missing_enum, missing_fields};
use crate::members::{
    FieldValueV, Leaf, MemberV, absent_container, all_writable, blank, blank_all, lemma_cleared_all, any_errors, apply, apply_all, entered, entries_of, has_errors, leaves,
    leaves_all, lemma_all_writable, lemma_any_errors, validated, validated_all, value_of, values_of, writable,
};
use crate::construct::{built, built_fields, built_rows, form_members, seeded, unwrap_peek};
use crate::path::decimal;
use crate::distinct::{law_form_paths_distinct, schema_named};
use crate::schema::ValueV;
use crate::scalar::FloatTextV;
use crate::construct::{can_build, can_build_inner, fields_can_build, form_can_build, form_supported, fields_supported, supported, chosen};
use crate::path::spec_qualify;
use crate::schema::{FieldSchema, ScalarKind, Schema, VariantSchema};
use crate::scalar::{all_digits, digits_value, int_display, int_text, is_digit, spec_text, spelled_int};
use crate::path::digit_char;
use crate::members::{input_html, labelled, render};
use crate::scalar::{float_lookup, spec_parse};

verus! {

proof fn lemma_union_empty(a: Map<Seq<char>, OptionsV>, b: Map<Seq<char>, OptionsV>)
    requires
        a.union_prefer_right(b) == Map::<Seq<char>, OptionsV>::empty(),
    ensures
        a == Map::<Seq<char>, OptionsV>::empty(),
        b == Map::<Seq<char>, OptionsV>::empty(),
{
    assert forall|k: Seq<char>| !a.contains_key(k) by {
        if a.contains_key(k) {
            assert(a.union_prefer_right(b).contains_key(k));
        }
    }
    assert forall|k: Seq<char>| !b.contains_key(k) by {
        if b.contains_key(k) {
            assert(a.union_prefer_right(b).contains_key(k));
        }
    }
    assert(a =~= Map::<Seq<char>, OptionsV>::empty());
    assert(b =~= Map::<Seq<char>, OptionsV>::empty());
}

/// When no enum under some fields is unanswered, none under any one of them is.
proof fn lemma_missing_fields_empty(fs: Seq<FieldSchema>, path: Seq<char>, ch: Seq<(Seq<char>, ChoiceV)>)
    requires
        missing_fields(fs, path, ch) == Map::<Seq<char>, OptionsV>::empty(),
    ensures
        forall|i: int|
            0 <= i < fs.len() ==> missing(#[trigger] fs[i].schema, spec_qualify(path, fs[i].name@), ch, false)
                == Map::<Seq<char>, OptionsV>::empty(),
    decreases fs.len(),
{
    if fs.len() > 0 {
        let a = missing_fields(fs.drop_last(), path, ch);
        let b = missing(fs.last().schema, spec_qualify(path, fs.last().name@), ch, false);
        lemma_union_empty(a, b);
        lemma_missing_fields_empty(fs.drop_last(), path, ch);
        assert forall|i: int| 0 <= i < fs.len() implies missing(#[trigger] fs[i].schema, spec_qualify(path, fs[i].name@), ch, false)
            == Map::<Seq<char>, OptionsV>::empty() by {
            if i < fs.len() - 1 {
                assert(fs[i] == fs.drop_last()[i]);
            }
        }
    }
}

proof fn lemma_fields_answered_build(fs: Seq<FieldSchema>, path: Seq<char>, ch: Seq<(Seq<char>, ChoiceV)>)
    requires
        missing_fields(fs, path, ch) == Map::<Seq<char>, OptionsV>::empty(),
        fields_supported(fs, ch, path),
    ensures
        fields_can_build(fs, None, ch, path),
    decreases fs, 2nat,
{
    lemma_missing_fields_empty(fs, path, ch);
    assert forall|i: int| 0 <= i < fs.len() implies can_build(#[trigger] fs[i].schema, None, ch, spec_qualify(path, fs[i].name@)) by {
        lemma_answered_build(fs[i].schema, spec_qualify(path, fs[i].name@), ch, false);
    }
}

/// If no enum under shape `s` at `path` is left unanswered and the walk
/// reaches no unsupported type, the member for `s` can be built.
proof fn lemma_answered_build(s: Schema, path: Seq<char>, ch: Seq<(Seq<char>, ChoiceV)>, optional: bool)
    requires
        missing(s, path, ch, optional) == Map::<Seq<char>, OptionsV>::empty(),
        supported(s, ch, path),
    ensures
        can_build(s, None, ch, path),
    decreases s, 1nat,
{
    match s {
        Schema::Opt(x) => {
            lemma_answered_build_inner(*x, path, ch, true);
        },
        _ => {
            lemma_answered_build_inner(s, path, ch, optional);
        },
    }
}

proof fn lemma_answered_build_inner(s: Schema, path: Seq<char>, ch: Seq<(Seq<char>, ChoiceV)>, optional: bool)
    requires
        missing(s, path, ch, optional) == Map::<Seq<char>, OptionsV>::empty(),
        supported(s, ch, path),
        !(s is Opt),
    ensures
        can_build_inner(s, None, false, ch, path),
    decreases s, 0nat,
{
    match s {
        Schema::Struct(fs) => {
            assert(missing(s, path, ch, optional) == missing_fields(fs@, path, ch));
            lemma_fields_answered_build(fs@, path, ch);
            assert(can_build_inner(s, None, false, ch, path) == fields_can_build(fs@, None, ch, path));
        },
        Schema::Enum(vs) => {
            let unanswered = Map::<Seq<char>, OptionsV>::empty().insert(path, (optional, crate::choices::variant_names(vs@)));
            assert(unanswered.contains_key(path));
            assert(missing(s, path, ch, optional) == missing_enum(vs@, path, ch, optional));
            match lookup(ch, path) {
                Some(ChoiceV::Named(n)) => {
                    match find_variant(vs@, n) {
                        Some(i) => {
                            if 0 <= i < vs@.len() {
                                lemma_fields_answered_build(vs@[i].fields@, path, ch);
                            }
                        },
                        None => {},
                    }
                },
                _ => {},
            }
        },
        _ => {},
    }
}

/// Once no enum is left unanswered (`missing_variants` reports nothing) and the
/// model's create walk reaches no unsupported type, the form can be built: the
/// walk that asks for choices and the walk that builds agree on what they
/// descend into.
pub proof fn law_answered_form_builds(s: Schema, ch: Seq<(Seq<char>, ChoiceV)>)
    requires
        missing(s, Seq::empty(), ch, false) == Map::<Seq<char>, OptionsV>::empty(),
        form_supported(s, ch),
    ensures
        form_can_build(s, None, ch),
{
    match s {
        Schema::Struct(fs) => {
            assert(missing(s, Seq::empty(), ch, false) == missing_fields(fs@, Seq::empty(), ch));
            lemma_fields_answered_build(fs@, Seq::empty(), ch);
        },
        Schema::Enum(vs) => {
            let p = Seq::<char>::empty();
            assert(missing(s, p, ch, false) == missing_enum(vs@, p, ch, false));
            let unanswered = Map::<Seq<char>, OptionsV>::empty().insert(p, (false, crate::choices::variant_names(vs@)));
            assert(unanswered.contains_key(p));
            match lookup(ch, p) {
                Some(ChoiceV::Named(n)) => {
                    match find_variant(vs@, n) {
                        Some(i) => {
                            if 0 <= i < vs@.len() {
                                lemma_fields_answered_build(vs@[i].fields@, p, ch);
                            }
                        },
                        None => {},
                    }
                },
                _ => {},
            }
        },
        _ => {},
    }
}


/// Every field under `m` shows a text that reads back as the value it holds:
/// entering a field's own shown text leaves it as it was.
pub open spec fn stable(m: MemberV, floats: Seq<FloatTextV>) -> bool
    decreases m,
{
    match m {
        MemberV::Field { kind, value, .. } => entered(kind, value.raw(), floats) == value,
        MemberV::Fields { members, .. } => stable_all(members, floats),
        MemberV::Variant { members, .. } => stable_all(members, floats),
        MemberV::List { rows, .. } => stable_all(rows, floats),
    }
}

pub open spec fn stable_all(ms: Seq<MemberV>, floats: Seq<FloatTextV>) -> bool
    decreases ms,
{
    forall|i: int| 0 <= i < ms.len() ==> stable(#[trigger] ms[i], floats)
}

/// `a` and `b` are the same member tree except, possibly, for the values the
/// fields hold.
pub open spec fn same_shape(a: MemberV, b: MemberV) -> bool
    decreases a,
{
    match a {
        MemberV::Field { name, label, required, kind, errors, .. } => match b {
            MemberV::Field { name: n, label: l, required: r, kind: k, errors: e, .. } => name == n && label == l
                && required == r && kind == k && errors == e,
            _ => false,
        },
        MemberV::Fields { name, label, optional, members, errors } => match b {
            MemberV::Fields { name: n, label: l, optional: o, members: ms, errors: e } => name == n && label == l
                && optional == o && errors == e && same_shape_all(members, ms),
            _ => false,
        },
        MemberV::Variant { name, label, choice, optional, members, errors } => match b {
            MemberV::Variant { name: n, label: l, choice: c, optional: o, members: ms, errors: e } => name == n
                && label == l && choice == c && optional == o && errors == e && same_shape_all(members, ms),
            _ => false,
        },
        MemberV::List { name, label, optional, rows, errors } => match b {
            MemberV::List { name: n, label: l, optional: o, rows: rs, errors: e } => name == n && label == l
                && optional == o && errors == e && same_shape_all(rows, rs),
            _ => false,
        },
    }
}

pub open spec fn same_shape_all(a: Seq<MemberV>, b: Seq<MemberV>) -> bool
    decreases a,
{
    a.len() == b.len() && forall|i: int| 0 <= i < a.len() ==> same_shape(#[trigger] a[i], b[i])
}

/// Looking each path of `ls` up in `values` gives that path's raw value.
pub open spec fn answers(values: Seq<Leaf>, ls: Seq<Leaf>) -> bool {
    forall|j: int| 0 <= j < ls.len() ==> lookup(values, (#[trigger] ls[j]).0) == Some(ls[j].1)
}

/// With no key twice, looking up an entry's key finds that entry.
proof fn lemma_lookup_unique(s: Seq<Leaf>, i: int)
    requires
        keys_unique(s),
        0 <= i < s.len(),
    ensures
        lookup(s, s[i].0) == Some(s[i].1),
    decreases s.len(),
{
    if i < s.len() - 1 {
        assert(s.last() == s[s.len() - 1]);
        assert(s.drop_last()[i] == s[i]);
        lemma_lookup_unique(s.drop_last(), i);
    }
}

/// A member's leaves are among its siblings' leaves.
proof fn lemma_leaves_within(ms: Seq<MemberV>, p: Seq<char>, i: int, j: int)
    requires
        0 <= i < ms.len(),
        0 <= j < leaves(ms[i], p).len(),
    ensures
        exists|k: int| 0 <= k < leaves_all(ms, p).len() && leaves_all(ms, p)[k] == leaves(ms[i], p)[j],
    decreases ms.len(),
{
    let a = leaves_all(ms.drop_last(), p);
    if i == ms.len() - 1 {
        let k = a.len() + j;
        assert(leaves_all(ms, p)[k] == leaves(ms[i], p)[j]);
    } else {
        assert(ms.drop_last()[i] == ms[i]);
        lemma_leaves_within(ms.drop_last(), p, i, j);
        let k = choose|k: int| 0 <= k < a.len() && a[k] == leaves(ms[i], p)[j];
        assert(leaves_all(ms, p)[k] == a[k]);
    }
}

proof fn lemma_answers_child(values: Seq<Leaf>, ms: Seq<MemberV>, p: Seq<char>, i: int)
    requires
        0 <= i < ms.len(),
        answers(values, leaves_all(ms, p)),
    ensures
        answers(values, leaves(ms[i], p)),
{
    assert forall|j: int| 0 <= j < leaves(ms[i], p).len() implies lookup(values, (#[trigger] leaves(ms[i], p)[j]).0)
        == Some(leaves(ms[i], p)[j].1) by {
        lemma_leaves_within(ms, p, i, j);
        let k = choose|k: int| 0 <= k < leaves_all(ms, p).len() && leaves_all(ms, p)[k] == leaves(ms[i], p)[j];
        assert(lookup(values, leaves_all(ms, p)[k].0) == Some(leaves_all(ms, p)[k].1));
    }
}

proof fn lemma_restore(a: MemberV, b: MemberV, p: Seq<char>, values: Seq<Leaf>, floats: Seq<FloatTextV>)
    requires
        stable(a, floats),
        same_shape(a, b),
        answers(values, leaves(a, p)),
    ensures
        apply(b, p, values, floats) == a,
    decreases a,
{
    match a {
        MemberV::Field { name, value, .. } => {
            assert(leaves(a, p)[0] == (spec_qualify(p, name), value.raw()));
        },
        MemberV::Fields { name, members, .. } => {
            lemma_restore_all(members, b.children(), spec_qualify(p, name), values, floats);
        },
        MemberV::Variant { name, members, .. } => {
            lemma_restore_all(members, b.children(), spec_qualify(p, name), values, floats);
        },
        MemberV::List { name, rows, .. } => {
            lemma_restore_all(rows, b.children(), spec_qualify(p, name), values, floats);
        },
    }
}

proof fn lemma_restore_all(a: Seq<MemberV>, b: Seq<MemberV>, p: Seq<char>, values: Seq<Leaf>, floats: Seq<FloatTextV>)
    requires
        stable_all(a, floats),
        same_shape_all(a, b),
        answers(values, leaves_all(a, p)),
    ensures
        apply_all(b, p, values, floats) == a,
    decreases a,
{
    assert forall|i: int| 0 <= i < a.len() implies apply(b[i], p, values, floats) == #[trigger] a[i] by {
        lemma_answers_child(values, a, p, i);
        lemma_restore(a[i], b[i], p, values, floats);
    }
    assert(apply_all(b, p, values, floats) =~= a);
}

/// Handing a form's own leaves back, as `(qualified path, raw value)` pairs,
/// to the same form or to any form that differs from it only in what its
/// fields hold, restores the first form exactly: the leaves-then-apply round
/// trip is an identity. It needs every leaf path to be distinct, and every
/// field's shown text to read back as the value it shows.
pub proof fn law_leaves_then_apply_restores(a: Seq<MemberV>, b: Seq<MemberV>, p: Seq<char>, floats: Seq<FloatTextV>)
    requires
        keys_unique(leaves_all(a, p)),
        stable_all(a, floats),
        same_shape_all(a, b),
    ensures
        apply_all(b, p, leaves_all(a, p), floats) == a,
{
    let ls = leaves_all(a, p);
    assert forall|j: int| 0 <= j < ls.len() implies lookup(ls, (#[trigger] ls[j]).0) == Some(ls[j].1) by {
        lemma_lookup_unique(ls, j);
    }
    lemma_restore_all(a, b, p, ls, floats);
}


/// Validation changes no value, no name and no blankness, and leaves a
/// writable member without errors.
proof fn lemma_validated_keeps(m: MemberV)
    ensures
        value_of(validated(m)) == value_of(m),
        validated(m).name() == m.name(),
        blank(validated(m)) == blank(m),
        writable(m) ==> !has_errors(validated(m)),
    decreases m,
{
    match m {
        MemberV::Field { .. } => {},
        MemberV::Fields { members, .. } => {
            if absent_container(m) {
                lemma_cleared_all(members);
            } else {
                lemma_validated_keeps_all(members);
            }
        },
        MemberV::Variant { members, .. } => {
            lemma_validated_keeps_all(members);
        },
        MemberV::List { rows, .. } => {
            if absent_container(m) {
                lemma_cleared_all(rows);
            } else {
                lemma_validated_keeps_all(rows);
            }
        },
    }
}

proof fn lemma_validated_keeps_all(ms: Seq<MemberV>)
    ensures
        entries_of(validated_all(ms)) == entries_of(ms),
        values_of(validated_all(ms)) == values_of(ms),
        blank_all(validated_all(ms)) == blank_all(ms),
        all_writable(ms) ==> !any_errors(validated_all(ms)),
    decreases ms,
{
    let vs = validated_all(ms);
    assert forall|i: int| 0 <= i < ms.len() implies value_of(#[trigger] vs[i]) == value_of(ms[i]) && vs[i].name()
        == ms[i].name() && blank(vs[i]) == blank(ms[i]) && (writable(ms[i]) ==> !has_errors(vs[i])) by {
        lemma_validated_keeps(ms[i]);
    }
    assert(entries_of(vs) =~= entries_of(ms));
    assert(values_of(vs) =~= values_of(ms));
    if blank_all(vs) != blank_all(ms) {
        if blank_all(ms) {
            let k = choose|k: int| 0 <= k < vs.len() && !blank(vs[k]);
            assert(blank(ms[k]));
        } else {
            let k = choose|k: int| 0 <= k < ms.len() && !blank(ms[k]);
            assert(blank(vs[k]));
        }
    }
    lemma_all_writable(ms);
    lemma_any_errors(vs);
}

/// A value the edit-mode form gives back unchanged when it stands in a slot of
/// shape `s`: every scalar text is non-empty (an empty text is an empty input,
/// which reads back as no value); every record and variant lists its fields by
/// their names, in order; every enum value names a variant of its enum; an
/// `Option` holding a struct or a list holds some scalar inside it (one with
/// nothing inside reads back as `None`); and an absent `Option` of a struct
/// can be left empty without a choice to make (see [`fillable`]).
pub open spec fn canonical(s: Schema, v: ValueV) -> bool
    decreases s, 1nat,
{
    match s {
        Schema::Opt(x) => match v {
            ValueV::Absent => (*x is Scalar) || (*x is Enum) || (((*x is Struct) || (*x is List)) && fillable(*x)),
            ValueV::Present(b) => canonical_inner(*x, *b) && (((*x is Struct) || (*x is List)) ==> holds_scalar(*b)),
            _ => false,
        },
        _ => canonical_inner(s, v),
    }
}

/// Some scalar stands somewhere inside the value.
pub open spec fn holds_scalar(v: ValueV) -> bool
    decreases v,
{
    match v {
        ValueV::Scalar(_) => true,
        ValueV::Absent => false,
        ValueV::Present(b) => holds_scalar(*b),
        ValueV::List(items) => exists|i: int| 0 <= i < items.len() && holds_scalar(#[trigger] items[i]),
        ValueV::Record(es) => exists|i: int| 0 <= i < es.len() && holds_scalar(#[trigger] es[i].1),
        ValueV::Variant(_, es) => exists|i: int| 0 <= i < es.len() && holds_scalar(#[trigger] es[i].1),
    }
}

/// A shape whose member can be built from no value and no choice: it holds
/// no enum outside a list and no type without a widget.
pub open spec fn fillable(s: Schema) -> bool
    decreases s,
{
    match s {
        Schema::Scalar(_) => true,
        Schema::List(_) => true,
        Schema::Struct(fs) => forall|i: int| 0 <= i < fs@.len() ==> fillable(#[trigger] fs@[i].schema),
        Schema::Opt(x) => !(*x is Opt) && !(*x is Enum) && fillable(*x),
        _ => false,
    }
}

/// A fillable shape builds, from nothing, a member with nothing filled in.
proof fn lemma_fillable(s: Schema, name: Seq<char>, ch: Seq<(Seq<char>, ChoiceV)>, path: Seq<char>)
    requires
        fillable(s),
    ensures
        can_build(s, None, ch, path),
        blank(built(s, name, None, ch, path)),
        built(s, name, None, ch, path).name() == name,
    decreases s, 1nat,
{
    match s {
        Schema::Opt(x) => lemma_fillable_inner(*x, name, false, false, ch, path),
        _ => lemma_fillable_inner(s, name, true, false, ch, path),
    }
}

proof fn lemma_fillable_inner(
    s: Schema,
    name: Seq<char>,
    required: bool,
    seeding: bool,
    ch: Seq<(Seq<char>, ChoiceV)>,
    path: Seq<char>,
)
    requires
        fillable(s),
        !(s is Opt),
    ensures
        can_build_inner(s, None, seeding, ch, path),
        blank(crate::construct::built_inner(s, name, required, None, seeding, ch, path)),
        crate::construct::built_inner(s, name, required, None, seeding, ch, path).name() == name,
    decreases s, 0nat,
{
    match s {
        Schema::Struct(fs) => lemma_fillable_fields(fs@, ch, path),
        _ => {},
    }
}

proof fn lemma_fillable_fields(fs: Seq<FieldSchema>, ch: Seq<(Seq<char>, ChoiceV)>, path: Seq<char>)
    requires
        forall|i: int| 0 <= i < fs.len() ==> fillable(#[trigger] fs[i].schema),
    ensures
        fields_can_build(fs, None, ch, path),
        blank_all(built_fields(fs, None, ch, path)),
    decreases fs, 2nat,
{
    let ms = built_fields(fs, None, ch, path);
    assert forall|i: int| 0 <= i < fs.len() implies can_build(#[trigger] fs[i].schema, None, ch, spec_qualify(path, fs[i].name@))
        && blank(ms[i]) by {
        lemma_fillable(fs[i].schema, fs[i].name@, ch, spec_qualify(path, fs[i].name@));
    }
}

pub open spec fn canonical_inner(s: Schema, v: ValueV) -> bool
    decreases s, 0nat,
{
    match s {
        Schema::Scalar(_) => match v {
            ValueV::Scalar(t) => t.len() > 0,
            _ => false,
        },
        Schema::List(e) => match v {
            ValueV::List(items) => canonical_rows(*e, items),
            _ => false,
        },
        Schema::Struct(fs) => match v {
            ValueV::Record(es) => canonical_fields(fs@, es),
            _ => false,
        },
        Schema::Enum(vs) => match v {
            ValueV::Variant(n, es) => match find_variant(vs@, n) {
                Some(i) => 0 <= i < vs@.len() && canonical_fields(vs@[i].fields@, es),
                None => false,
            },
            _ => false,
        },
        _ => false,
    }
}

pub open spec fn canonical_fields(fs: Seq<FieldSchema>, es: Seq<(Seq<char>, ValueV)>) -> bool
    decreases fs, 2nat,
{
    es.len() == fs.len() && forall|i: int|
        0 <= i < fs.len() ==> es[i].0 == fs[i].name@ && canonical(#[trigger] fs[i].schema, es[i].1)
}

pub open spec fn canonical_rows(e: Schema, items: Seq<ValueV>) -> bool
    decreases e, 2nat,
{
    forall|i: int| 0 <= i < items.len() ==> canonical(e, #[trigger] items[i])
}

proof fn lemma_find_variant_names(vs: Seq<VariantSchema>, n: Seq<char>)
    ensures
        find_variant(vs, n) matches Some(i) ==> 0 <= i < vs.len() && vs[i].name@ == n,
{
    if exists|i: int| 0 <= i < vs.len() && vs[i].name@ == n {
        let k = choose|i: int| 0 <= i < vs.len() && vs[i].name@ == n;
        lemma_first_match(vs, n, k);
    }
}

proof fn lemma_first_match(vs: Seq<VariantSchema>, n: Seq<char>, k: int)
    requires
        0 <= k < vs.len(),
        vs[k].name@ == n,
    ensures
        exists|m: int| 0 <= m < vs.len() && vs[m].name@ == n && forall|l: int| 0 <= l < m ==> vs[l].name@ != n,
    decreases k,
{
    if exists|l: int| 0 <= l < k && vs[l].name@ == n {
        let l = choose|l: int| 0 <= l < k && vs[l].name@ == n;
        lemma_first_match(vs, n, l);
    } else {
        assert(forall|l: int| 0 <= l < k ==> vs[l].name@ != n);
    }
}

/// The member built for a canonical value can be built, can be written out,
/// writes out that very value, and bears the name it was built under.
proof fn lemma_built_round_trip(s: Schema, name: Seq<char>, v: ValueV, ch: Seq<(Seq<char>, ChoiceV)>, path: Seq<char>)
    requires
        canonical(s, v),
    ensures
        can_build(s, Some(v), ch, path),
        writable(built(s, name, Some(v), ch, path)),
        value_of(built(s, name, Some(v), ch, path)) == v,
        built(s, name, Some(v), ch, path).name() == name,
        holds_scalar(v) ==> !blank(built(s, name, Some(v), ch, path)),
    decreases s, 1nat,
{
    match s {
        Schema::Opt(x) => {
            match v {
                ValueV::Present(b) => {
                    assert(unwrap_peek(Some(v)) == Some(*b));
                    lemma_built_inner_round_trip(*x, name, false, *b, ch, path);
                    assert(value_of(built(s, name, Some(v), ch, path)) == ValueV::Present(Box::new(*b)));
                },
                _ => {
                    assert(unwrap_peek(Some(v)) is None);
                    assert(seeded(None) == FieldValueV::Empty);
                    if (*x is Struct) || (*x is List) {
                        lemma_fillable_inner(*x, name, false, true, ch, path);
                    }
                },
            }
        },
        _ => {
            lemma_built_inner_round_trip(s, name, true, v, ch, path);
        },
    }
}

proof fn lemma_built_inner_round_trip(
    s: Schema,
    name: Seq<char>,
    required: bool,
    v: ValueV,
    ch: Seq<(Seq<char>, ChoiceV)>,
    path: Seq<char>,
)
    requires
        canonical_inner(s, v),
        !required && ((s is Struct) || (s is List)) ==> holds_scalar(v),
    ensures
        can_build_inner(s, Some(v), true, ch, path),
        writable(crate::construct::built_inner(s, name, required, Some(v), true, ch, path)),
        value_of(crate::construct::built_inner(s, name, required, Some(v), true, ch, path)) == (if required {
            v
        } else {
            ValueV::Present(Box::new(v))
        }),
        crate::construct::built_inner(s, name, required, Some(v), true, ch, path).name() == name,
        holds_scalar(v) ==> !blank(crate::construct::built_inner(s, name, required, Some(v), true, ch, path)),
    decreases s, 0nat,
{
    match s {
        Schema::List(e) => {
            let items = v->List_0;
            lemma_rows_round_trip(*e, items, ch, path);
        },
        Schema::Struct(fs) => {
            let es = v->Record_0;
            lemma_fields_round_trip(fs@, es, ch, path);
        },
        Schema::Enum(vs) => {
            lemma_enum_round_trip(vs, name, required, v, ch, path);
        },
        _ => {},
    }
}

#[verifier::spinoff_prover]
#[verifier::rlimit(40)]
proof fn lemma_enum_round_trip(
    vs: Vec<VariantSchema>,
    name: Seq<char>,
    required: bool,
    v: ValueV,
    ch: Seq<(Seq<char>, ChoiceV)>,
    path: Seq<char>,
)
    requires
        canonical_inner(Schema::Enum(vs), v),
    ensures
        can_build_inner(Schema::Enum(vs), Some(v), true, ch, path),
        writable(crate::construct::built_inner(Schema::Enum(vs), name, required, Some(v), true, ch, path)),
        value_of(crate::construct::built_inner(Schema::Enum(vs), name, required, Some(v), true, ch, path)) == (if required {
            v
        } else {
            ValueV::Present(Box::new(v))
        }),
        crate::construct::built_inner(Schema::Enum(vs), name, required, Some(v), true, ch, path).name() == name,
        holds_scalar(v) ==> !blank(crate::construct::built_inner(Schema::Enum(vs), name, required, Some(v), true, ch, path)),
    decreases vs@, 3nat,
{
    let n = v->Variant_0;
    let es = v->Variant_1;
    lemma_find_variant_names(vs@, n);
    let i = find_variant(vs@, n)->0;
    assert(decreases_to!(vs@ => vs@[i]));
    assert(decreases_to!(vs@[i] => vs@[i].fields));
    assert(decreases_to!(vs@[i].fields => vs@[i].fields@));
    lemma_fields_round_trip(vs@[i].fields@, es, ch, path);
    assert(chosen(vs@, Some(v), true, ch, path) == Some(i));
    let m = crate::construct::built_inner(Schema::Enum(vs), name, required, Some(v), true, ch, path);
    let ms = built_fields(vs@[i].fields@, Some(es), ch, path);
    assert(crate::construct::variant_entries(Some(v)) == Some(es));
    assert(m == MemberV::Variant {
        name,
        label: None,
        choice: ChoiceV::Named(n),
        optional: !required,
        members: ms,
        errors: Seq::empty(),
    });
}

proof fn lemma_fields_round_trip(fs: Seq<FieldSchema>, es: Seq<(Seq<char>, ValueV)>, ch: Seq<(Seq<char>, ChoiceV)>, path: Seq<char>)
    requires
        canonical_fields(fs, es),
    ensures
        crate::construct::fields_can_build(fs, Some(es), ch, path),
        all_writable(built_fields(fs, Some(es), ch, path)),
        entries_of(built_fields(fs, Some(es), ch, path)) == es,
        (exists|i: int| 0 <= i < es.len() && holds_scalar(#[trigger] es[i].1)) ==> !blank_all(
            built_fields(fs, Some(es), ch, path),
        ),
    decreases fs, 2nat,
{
    let ms = built_fields(fs, Some(es), ch, path);
    assert forall|i: int| 0 <= i < fs.len() implies can_build(#[trigger] fs[i].schema, crate::construct::entry_peek(Some(es), i), ch, spec_qualify(path, fs[i].name@))
        && writable(ms[i]) && value_of(ms[i]) == es[i].1 && ms[i].name() == es[i].0 && (holds_scalar(es[i].1)
        ==> !blank(ms[i])) by {
        lemma_built_round_trip(fs[i].schema, fs[i].name@, es[i].1, ch, spec_qualify(path, fs[i].name@));
    }
    lemma_all_writable(ms);
    assert(entries_of(ms) =~= es);
    if exists|i: int| 0 <= i < es.len() && holds_scalar(#[trigger] es[i].1) {
        let k = choose|i: int| 0 <= i < es.len() && holds_scalar(#[trigger] es[i].1);
        assert(!blank(ms[k]));
    }
}

proof fn lemma_rows_round_trip(e: Schema, items: Seq<ValueV>, ch: Seq<(Seq<char>, ChoiceV)>, path: Seq<char>)
    requires
        canonical_rows(e, items),
    ensures
        crate::construct::rows_can_build(e, items, ch, path),
        all_writable(built_rows(e, items, ch, path)),
        values_of(built_rows(e, items, ch, path)) == items,
        (exists|i: int| 0 <= i < items.len() && holds_scalar(#[trigger] items[i])) ==> !blank_all(
            built_rows(e, items, ch, path),
        ),
    decreases e, 2nat,
{
    let ms = built_rows(e, items, ch, path);
    assert forall|i: int| 0 <= i < items.len() implies can_build(e, Some(#[trigger] items[i]), ch, spec_qualify(path, decimal(i as nat)))
        && writable(ms[i]) && value_of(ms[i]) == items[i] && (holds_scalar(items[i]) ==> !blank(ms[i])) by {
        lemma_built_round_trip(e, decimal(i as nat), items[i], ch, spec_qualify(path, decimal(i as nat)));
    }
    lemma_all_writable(ms);
    assert(values_of(ms) =~= items);
    if exists|i: int| 0 <= i < items.len() && holds_scalar(#[trigger] items[i]) {
        let k = choose|i: int| 0 <= i < items.len() && holds_scalar(#[trigger] items[i]);
        assert(!blank(ms[k]));
    }
}

/// Edit mode gives back what it was given: the form built for a struct value
/// in which every scalar text is non-empty (see [`canonical`]), optional
/// structs and lists included, can be built, validates without errors, and
/// writes out that very value.
pub proof fn law_edit_round_trip(s: Schema, v: ValueV)
    requires
        s is Struct,
        canonical_inner(s, v),
    ensures
        form_can_build(s, Some(v), Seq::empty()),
        !any_errors(validated_all(form_members(s, Some(v), Seq::empty()))),
        ValueV::Record(entries_of(validated_all(form_members(s, Some(v), Seq::empty())))) == v,
{
    let fs = s->Struct_0;
    let es = v->Record_0;
    lemma_fields_round_trip(fs@, es, Seq::empty(), Seq::empty());
    lemma_validated_keeps_all(form_members(s, Some(v), Seq::empty()));
}


/// A shape made of scalars, structs and `Option`s only: no enum and no list,
/// so nothing but the field values can tell its forms apart.
pub open spec fn plain(s: Schema) -> bool
    decreases s,
{
    match s {
        Schema::Scalar(_) => true,
        Schema::Opt(x) => !(*x is Opt) && plain(*x),
        Schema::Struct(fs) => forall|i: int| 0 <= i < fs@.len() ==> plain(#[trigger] fs@[i].schema),
        _ => false,
    }
}

proof fn lemma_plain_same_shape(s: Schema, name: Seq<char>, p1: Option<ValueV>, p2: Option<ValueV>, ch: Seq<(Seq<char>, ChoiceV)>, path: Seq<char>)
    requires
        plain(s),
    ensures
        same_shape(built(s, name, p1, ch, path), built(s, name, p2, ch, path)),
    decreases s, 1nat,
{
    match s {
        Schema::Opt(x) => {
            lemma_plain_inner_same_shape(*x, name, false, unwrap_peek(p1), unwrap_peek(p2), p1 is Some, p2 is Some, ch, path);
        },
        _ => {
            lemma_plain_inner_same_shape(s, name, true, p1, p2, p1 is Some, p2 is Some, ch, path);
        },
    }
}

proof fn lemma_plain_inner_same_shape(
    s: Schema,
    name: Seq<char>,
    required: bool,
    p1: Option<ValueV>,
    p2: Option<ValueV>,
    seeding1: bool,
    seeding2: bool,
    ch: Seq<(Seq<char>, ChoiceV)>,
    path: Seq<char>,
)
    requires
        plain(s),
        !(s is Opt),
    ensures
        same_shape(
            crate::construct::built_inner(s, name, required, p1, seeding1, ch, path),
            crate::construct::built_inner(s, name, required, p2, seeding2, ch, path),
        ),
    decreases s, 0nat,
{
    match s {
        Schema::Struct(fs) => {
            let e1 = crate::construct::record_entries(p1);
            let e2 = crate::construct::record_entries(p2);
            lemma_plain_fields_same_shape(fs@, e1, e2, ch, path);
        },
        _ => {},
    }
}

proof fn lemma_plain_fields_same_shape(
    fs: Seq<FieldSchema>,
    e1: Option<Seq<(Seq<char>, ValueV)>>,
    e2: Option<Seq<(Seq<char>, ValueV)>>,
    ch: Seq<(Seq<char>, ChoiceV)>,
    path: Seq<char>,
)
    requires
        forall|i: int| 0 <= i < fs.len() ==> plain(#[trigger] fs[i].schema),
    ensures
        same_shape_all(built_fields(fs, e1, ch, path), built_fields(fs, e2, ch, path)),
    decreases fs, 2nat,
{
    let a = built_fields(fs, e1, ch, path);
    let b = built_fields(fs, e2, ch, path);
    assert forall|i: int| 0 <= i < a.len() implies same_shape(#[trigger] a[i], b[i]) by {
        lemma_plain_same_shape(
            fs[i].schema,
            fs[i].name@,
            crate::construct::entry_peek(e1, i),
            crate::construct::entry_peek(e2, i),
            ch,
            spec_qualify(path, fs[i].name@),
        );
    }
}

/// The submit loop, for a model with no enum and no list: take the leaves of
/// the edit-mode form for a canonical value, hand them to a fresh create-mode
/// form for the same model, and validate; the value comes back unchanged. It
/// needs the model's fields to be well named and every scalar text in the
/// value to read back as itself, which every string, `bool` and in-range
/// integer display does (see [`reads_back`]).
pub proof fn law_create_form_takes_edit_leaves(s: Schema, v: ValueV, floats: Seq<FloatTextV>)
    requires
        s is Struct,
        plain(s),
        schema_named(s),
        canonical_inner(s, v),
        reads_back_inner(s, v, floats),
    ensures
        form_can_build(s, None, Seq::empty()),
        apply_all(form_members(s, None, Seq::empty()), Seq::empty(), leaves_all(form_members(s, Some(v), Seq::empty()), Seq::empty()), floats)
            == form_members(s, Some(v), Seq::empty()),
        !any_errors(validated_all(form_members(s, Some(v), Seq::empty()))),
        ValueV::Record(entries_of(validated_all(form_members(s, Some(v), Seq::empty())))) == v,
{
    let fs = s->Struct_0;
    let edit = form_members(s, Some(v), Seq::empty());
    let create = form_members(s, None, Seq::empty());
    lemma_plain_fields_same_shape(fs@, Some(v->Record_0), None, Seq::empty(), Seq::empty());
    lemma_fields_stable(fs@, v->Record_0, Seq::empty(), Seq::empty(), floats);
    law_edit_round_trip(s, v);
    law_form_paths_distinct(s, Some(v), Seq::empty());
    law_leaves_then_apply_restores(edit, create, Seq::empty(), floats);
    lemma_plain_create_builds(fs@, Seq::empty());
}

proof fn lemma_plain_create_builds(fs: Seq<FieldSchema>, path: Seq<char>)
    requires
        forall|i: int| 0 <= i < fs.len() ==> plain(#[trigger] fs[i].schema),
    ensures
        fields_can_build(fs, None, Seq::empty(), path),
    decreases fs, 2nat,
{
    assert forall|i: int| 0 <= i < fs.len() implies can_build(#[trigger] fs[i].schema, None, Seq::empty(), spec_qualify(path, fs[i].name@)) by {
        lemma_plain_builds(fs[i].schema, spec_qualify(path, fs[i].name@));
    }
}

proof fn lemma_plain_builds(s: Schema, path: Seq<char>)
    requires
        plain(s),
    ensures
        can_build(s, None, Seq::empty(), path),
    decreases s, 1nat,
{
    match s {
        Schema::Opt(x) => {
            assert(plain(*x));
            match *x {
                Schema::Struct(fs) => {
                    lemma_plain_create_builds(fs@, path);
                },
                _ => {},
            }
        },
        Schema::Struct(fs) => {
            lemma_plain_create_builds(fs@, path);
        },
        _ => {},
    }
}

/// `""` is absence: seeding an optional scalar with `Some("")` builds the same
/// member as seeding it with `None` or not seeding it at all, entering an
/// empty input makes any field empty, and a required scalar seeded with `""`
/// fails validation.
pub proof fn law_empty_text_is_absence(k: ScalarKind, name: Seq<char>, ch: Seq<(Seq<char>, ChoiceV)>, path: Seq<char>, floats: Seq<FloatTextV>)
    ensures
        built(Schema::Opt(Box::new(Schema::Scalar(k))), name, Some(ValueV::Present(Box::new(ValueV::Scalar(Seq::empty())))), ch, path)
            == built(Schema::Opt(Box::new(Schema::Scalar(k))), name, Some(ValueV::Absent), ch, path),
        built(Schema::Opt(Box::new(Schema::Scalar(k))), name, Some(ValueV::Absent), ch, path)
            == built(Schema::Opt(Box::new(Schema::Scalar(k))), name, None, ch, path),
        entered(k, Seq::empty(), floats) == FieldValueV::Empty,
        has_errors(validated(built(Schema::Scalar(k), name, Some(ValueV::Scalar(Seq::empty())), ch, path))),
{
}


/// Reloading an edit-mode form's own leaves into a form built the same way
/// (lists included: the rows come from the value) changes nothing, when the
/// model's fields are well named and every scalar text in the value reads
/// back as itself (see [`reads_back`]).
pub proof fn law_edit_form_reloads_its_leaves(s: Schema, v: ValueV, floats: Seq<FloatTextV>)
    requires
        s is Struct,
        schema_named(s),
        canonical_inner(s, v),
        reads_back_inner(s, v, floats),
    ensures
        apply_all(form_members(s, Some(v), Seq::empty()), Seq::empty(), leaves_all(form_members(s, Some(v), Seq::empty()), Seq::empty()), floats)
            == form_members(s, Some(v), Seq::empty()),
{
    let ms = form_members(s, Some(v), Seq::empty());
    law_edit_round_trip(s, v);
    lemma_fields_stable(s->Struct_0@, v->Record_0, Seq::empty(), Seq::empty(), floats);
    law_form_paths_distinct(s, Some(v), Seq::empty());
    lemma_same_shape_refl_all(ms);
    law_leaves_then_apply_restores(ms, ms, Seq::empty(), floats);
}

proof fn lemma_same_shape_refl(m: MemberV)
    ensures
        same_shape(m, m),
    decreases m,
{
    match m {
        MemberV::Field { .. } => {},
        MemberV::Fields { members, .. } => lemma_same_shape_refl_all(members),
        MemberV::Variant { members, .. } => lemma_same_shape_refl_all(members),
        MemberV::List { rows, .. } => lemma_same_shape_refl_all(rows),
    }
}

proof fn lemma_same_shape_refl_all(ms: Seq<MemberV>)
    ensures
        same_shape_all(ms, ms),
    decreases ms,
{
    assert forall|i: int| 0 <= i < ms.len() implies same_shape(#[trigger] ms[i], ms[i]) by {
        lemma_same_shape_refl(ms[i]);
    }
}


/// Taking values in changes only the fields they name: a member none of whose
/// leaf paths has an entry in `values` comes out of `apply` unchanged.
pub proof fn law_apply_touches_only_named_paths(m: MemberV, p: Seq<char>, values: Seq<Leaf>, floats: Seq<FloatTextV>)
    requires
        forall|j: int| 0 <= j < leaves(m, p).len() ==> lookup(values, (#[trigger] leaves(m, p)[j]).0) is None,
    ensures
        apply(m, p, values, floats) == m,
    decreases m,
{
    match m {
        MemberV::Field { name, value, .. } => {
            assert(leaves(m, p)[0].0 == spec_qualify(p, name));
        },
        MemberV::Fields { name, members, .. } => {
            assert(leaves(m, p) == leaves_all(members, spec_qualify(p, name)));
            lemma_untouched_all(members, spec_qualify(p, name), values, floats);
        },
        MemberV::Variant { name, members, .. } => {
            assert(leaves(m, p) == leaves_all(members, spec_qualify(p, name)));
            lemma_untouched_all(members, spec_qualify(p, name), values, floats);
        },
        MemberV::List { name, rows, .. } => {
            assert(leaves(m, p) == leaves_all(rows, spec_qualify(p, name)));
            lemma_untouched_all(rows, spec_qualify(p, name), values, floats);
        },
    }
}

proof fn lemma_untouched_all(ms: Seq<MemberV>, p: Seq<char>, values: Seq<Leaf>, floats: Seq<FloatTextV>)
    requires
        forall|j: int| 0 <= j < leaves_all(ms, p).len() ==> lookup(values, (#[trigger] leaves_all(ms, p)[j]).0) is None,
    ensures
        apply_all(ms, p, values, floats) == ms,
    decreases ms,
{
    assert forall|i: int| 0 <= i < ms.len() implies apply(#[trigger] ms[i], p, values, floats) == ms[i] by {
        assert forall|j: int| 0 <= j < leaves(ms[i], p).len() implies lookup(values, (#[trigger] leaves(ms[i], p)[j]).0) is None by {
            lemma_leaves_within(ms, p, i, j);
            let k = choose|k: int| 0 <= k < leaves_all(ms, p).len() && leaves_all(ms, p)[k] == leaves(ms[i], p)[j];
            assert(lookup(values, leaves_all(ms, p)[k].0) is None);
        }
        law_apply_touches_only_named_paths(ms[i], p, values, floats);
    }
    assert(apply_all(ms, p, values, floats) =~= ms);
}


/// The shape holds an enum somewhere: in a field, behind an `Option`, or as
/// the elements of a list.
pub open spec fn contains_enum(s: Schema) -> bool
    decreases s,
{
    match s {
        Schema::Enum(_) => true,
        Schema::Opt(x) => contains_enum(*x),
        Schema::List(e) => contains_enum(*e),
        Schema::Struct(fs) => exists|i: int| 0 <= i < fs@.len() && contains_enum(#[trigger] fs@[i].schema),
        _ => false,
    }
}

proof fn lemma_missing_fields_has(fs: Seq<FieldSchema>, p: Seq<char>, ch: Seq<(Seq<char>, ChoiceV)>, i: int, k: Seq<char>)
    requires
        0 <= i < fs.len(),
        missing(fs[i].schema, spec_qualify(p, fs[i].name@), ch, false).contains_key(k),
    ensures
        missing_fields(fs, p, ch).contains_key(k),
    decreases fs.len(),
{
    if i < fs.len() - 1 {
        assert(fs.drop_last()[i] == fs[i]);
        lemma_missing_fields_has(fs.drop_last(), p, ch, i, k);
    }
}

proof fn lemma_enum_is_missing(s: Schema, p: Seq<char>, optional: bool) -> (k: Seq<char>)
    requires
        contains_enum(s),
    ensures
        missing(s, p, Seq::empty(), optional).contains_key(k),
    decreases s,
{
    match s {
        Schema::Enum(vs) => {
            assert(lookup(Seq::<(Seq<char>, ChoiceV)>::empty(), p) is None);
            assert(missing(s, p, Seq::empty(), optional) == missing_enum(vs@, p, Seq::empty(), optional));
            assert(missing_enum(vs@, p, Seq::empty(), optional) == Map::<Seq<char>, OptionsV>::empty().insert(
                p,
                (optional, crate::choices::variant_names(vs@)),
            ));
            p
        },
        Schema::Opt(x) => lemma_enum_is_missing(*x, p, true),
        Schema::List(e) => lemma_enum_is_missing(*e, p, false),
        Schema::Struct(fs) => {
            let i = choose|i: int| 0 <= i < fs@.len() && contains_enum(#[trigger] fs@[i].schema);
            let k = lemma_enum_is_missing(fs@[i].schema, spec_qualify(p, fs@[i].name@), false);
            lemma_missing_fields_has(fs@, p, Seq::empty(), i, k);
            k
        },
        _ => p,
    }
}

/// A model that holds any enum at all has a choice to make before a form can
/// be built for it from nothing: with no choices, the still-needed choices
/// are not empty, so `empty_form` fails with them.
pub proof fn law_any_enum_needs_a_choice(s: Schema)
    requires
        contains_enum(s),
    ensures
        missing(s, Seq::empty(), Seq::empty(), false) != Map::<Seq<char>, OptionsV>::empty(),
{
    let k = lemma_enum_is_missing(s, Seq::empty(), false);
    assert(!Map::<Seq<char>, OptionsV>::empty().contains_key(k));
}


proof fn lemma_built_fresh(s: Schema, name: Seq<char>, peek: Option<ValueV>, ch: Seq<(Seq<char>, ChoiceV)>, path: Seq<char>)
    requires
        can_build(s, peek, ch, path),
    ensures
        !has_errors(built(s, name, peek, ch, path)),
        peek is None ==> blank(built(s, name, peek, ch, path)),
    decreases s, 1nat,
{
    match s {
        Schema::Opt(x) => {
            let inner = unwrap_peek(peek);
            match peek {
                Some(ValueV::Present(b)) => {
                    assert(inner == Some(*b));
                },
                _ => {},
            }
            lemma_inner_fresh(*x, name, false, inner, peek is Some, ch, path);
        },
        _ => lemma_inner_fresh(s, name, true, peek, peek is Some, ch, path),
    }
}

proof fn lemma_inner_fresh(
    s: Schema,
    name: Seq<char>,
    required: bool,
    peek: Option<ValueV>,
    seeding: bool,
    ch: Seq<(Seq<char>, ChoiceV)>,
    path: Seq<char>,
)
    requires
        can_build_inner(s, peek, seeding, ch, path),
        !seeding ==> peek is None,
    ensures
        !has_errors(crate::construct::built_inner(s, name, required, peek, seeding, ch, path)),
        peek is None ==> blank(crate::construct::built_inner(s, name, required, peek, seeding, ch, path)),
    decreases s, 0nat,
{
    match s {
        Schema::List(e) => {
            match peek {
                Some(ValueV::List(items)) => lemma_rows_fresh(*e, items, ch, path),
                _ => {},
            }
        },
        Schema::Struct(fs) => lemma_fields_fresh(fs@, crate::construct::record_entries(peek), ch, path),
        Schema::Enum(vs) => lemma_enum_fresh(vs, name, required, peek, seeding, ch, path),
        _ => {},
    }
}

#[verifier::spinoff_prover]
proof fn lemma_enum_fresh(
    vs: Vec<VariantSchema>,
    name: Seq<char>,
    required: bool,
    peek: Option<ValueV>,
    seeding: bool,
    ch: Seq<(Seq<char>, ChoiceV)>,
    path: Seq<char>,
)
    requires
        can_build_inner(Schema::Enum(vs), peek, seeding, ch, path),
        !seeding ==> peek is None,
    ensures
        !has_errors(crate::construct::built_inner(Schema::Enum(vs), name, required, peek, seeding, ch, path)),
        peek is None ==> blank(crate::construct::built_inner(Schema::Enum(vs), name, required, peek, seeding, ch, path)),
    decreases vs@, 3nat,
{
    match chosen(vs@, peek, seeding, ch, path) {
        Some(i) => {
            if 0 <= i < vs@.len() {
                assert(decreases_to!(vs@ => vs@[i]));
                assert(decreases_to!(vs@[i] => vs@[i].fields));
                assert(decreases_to!(vs@[i].fields => vs@[i].fields@));
                if seeding {
                    assert(peek matches Some(ValueV::Variant(_, _)));
                } else {
                    assert(crate::construct::variant_entries(peek) is None);
                }
                assert(fields_can_build(vs@[i].fields@, crate::construct::variant_entries(peek), ch, path));
                lemma_fields_fresh(vs@[i].fields@, crate::construct::variant_entries(peek), ch, path);
            }
        },
        None => {},
    }
}

proof fn lemma_fields_fresh(fs: Seq<FieldSchema>, es: Option<Seq<(Seq<char>, ValueV)>>, ch: Seq<(Seq<char>, ChoiceV)>, path: Seq<char>)
    requires
        fields_can_build(fs, es, ch, path),
    ensures
        !any_errors(built_fields(fs, es, ch, path)),
        es is None ==> blank_all(built_fields(fs, es, ch, path)),
    decreases fs, 2nat,
{
    let ms = built_fields(fs, es, ch, path);
    assert forall|i: int| 0 <= i < ms.len() implies !has_errors(#[trigger] ms[i]) && (es is None ==> blank(ms[i])) by {
        lemma_built_fresh(fs[i].schema, fs[i].name@, crate::construct::entry_peek(es, i), ch, spec_qualify(path, fs[i].name@));
    }
    lemma_any_errors(ms);
}

proof fn lemma_rows_fresh(e: Schema, items: Seq<ValueV>, ch: Seq<(Seq<char>, ChoiceV)>, path: Seq<char>)
    requires
        crate::construct::rows_can_build(e, items, ch, path),
    ensures
        !any_errors(built_rows(e, items, ch, path)),
    decreases e, 2nat,
{
    let ms = built_rows(e, items, ch, path);
    assert forall|i: int| 0 <= i < ms.len() implies !has_errors(#[trigger] ms[i]) by {
        lemma_built_fresh(e, decimal(i as nat), Some(items[i]), ch, spec_qualify(path, decimal(i as nat)));
    }
    lemma_any_errors(ms);
}

/// Nothing filled in under a member means every one of its inputs is blank.
proof fn lemma_blank_leaves(m: MemberV, p: Seq<char>)
    requires
        blank(m),
    ensures
        forall|j: int| 0 <= j < leaves(m, p).len() ==> (#[trigger] leaves(m, p)[j]).1 == Seq::<char>::empty(),
    decreases m,
{
    match m {
        MemberV::Field { name, value, .. } => {
            assert(leaves(m, p)[0] == (spec_qualify(p, name), value.raw()));
        },
        MemberV::Fields { name, members, .. } => {
            assert(leaves(m, p) == leaves_all(members, spec_qualify(p, name)));
            lemma_blank_leaves_all(members, spec_qualify(p, name));
        },
        MemberV::Variant { name, members, .. } => {
            assert(leaves(m, p) == leaves_all(members, spec_qualify(p, name)));
            lemma_blank_leaves_all(members, spec_qualify(p, name));
        },
        MemberV::List { name, rows, .. } => {
            assert(leaves(m, p) == leaves_all(rows, spec_qualify(p, name)));
            lemma_blank_leaves_all(rows, spec_qualify(p, name));
        },
    }
}

proof fn lemma_blank_leaves_all(ms: Seq<MemberV>, p: Seq<char>)
    requires
        blank_all(ms),
    ensures
        forall|j: int| 0 <= j < leaves_all(ms, p).len() ==> (#[trigger] leaves_all(ms, p)[j]).1 == Seq::<char>::empty(),
    decreases ms,
{
    if ms.len() > 0 {
        let d = ms.drop_last();
        let last = ms.len() - 1;
        assert(ms.last() == ms[last]);
        assert(decreases_to!(ms => ms[last]));
        assert forall|k: int| 0 <= k < d.len() implies blank(#[trigger] d[k]) by {
            assert(d[k] == ms[k]);
        }
        lemma_blank_leaves_all(d, p);
        lemma_blank_leaves(ms[last], p);
        let a = leaves_all(d, p);
        assert forall|j: int| 0 <= j < leaves_all(ms, p).len() implies (#[trigger] leaves_all(ms, p)[j]).1 == Seq::<char>::empty() by {
            if j < a.len() {
                assert(leaves_all(ms, p)[j] == a[j]);
            } else {
                assert(leaves_all(ms, p)[j] == leaves(ms[last], p)[j - a.len()]);
            }
        }
    }
}

/// A freshly built form has no errors: nothing in it holds unparsed input and
/// no error is recorded before validation runs. In create mode (no value to
/// seed from) nothing in it is filled in, so every input it hands out is
/// blank.
pub proof fn law_fresh_form_has_no_errors(s: Schema, peek: Option<ValueV>, ch: Seq<(Seq<char>, ChoiceV)>)
    requires
        form_can_build(s, peek, ch),
    ensures
        !any_errors(form_members(s, peek, ch)),
        peek is None ==> blank_all(form_members(s, peek, ch)),
        peek is None ==> forall|j: int|
            0 <= j < leaves_all(form_members(s, peek, ch), Seq::empty()).len() ==> (#[trigger] leaves_all(
                form_members(s, peek, ch),
                Seq::empty(),
            )[j]).1 == Seq::<char>::empty(),
{
    match s {
        Schema::Struct(fs) => {
            lemma_fields_fresh(fs@, crate::construct::record_entries(peek), ch, Seq::empty());
        },
        Schema::Enum(vs) => {
            match chosen(vs@, peek, peek is Some, ch, Seq::empty()) {
                Some(i) => {
                    if 0 <= i < vs@.len() {
                        lemma_fields_fresh(vs@[i].fields@, crate::construct::variant_entries(peek), ch, Seq::empty());
                    }
                },
                None => {},
            }
        },
        _ => {},
    }
    if peek is None {
        lemma_blank_leaves_all(form_members(s, peek, ch), Seq::empty());
    }
}


proof fn lemma_digit_char(d: nat)
    requires
        d < 10,
    ensures
        is_digit(digit_char(d)),
        digit_char(d) as int - '0' as int == d,
{
}

proof fn lemma_decimal_spells(n: nat)
    ensures
        all_digits(decimal(n)),
        digits_value(decimal(n)) == n,
    decreases n,
{
    if n < 10 {
        lemma_digit_char(n);
        assert(decimal(n).drop_last() =~= Seq::<char>::empty());
        assert(digits_value(decimal(n).drop_last()) == 0);
        assert(decimal(n).last() == digit_char(n));
    } else {
        lemma_decimal_spells(n / 10);
        lemma_digit_char(n % 10);
        let d = decimal(n);
        assert(d.drop_last() =~= decimal(n / 10));
        assert(d.last() == digit_char(n % 10));
        assert(digits_value(d) == digits_value(decimal(n / 10)) * 10 + (digit_char(n % 10) as int - '0' as int));
        assert(n == (n / 10) * 10 + n % 10);
        assert forall|i: int| 0 <= i < d.len() implies is_digit(#[trigger] d[i]) by {
            if i < d.len() - 1 {
                assert(d[i] == decimal(n / 10)[i]);
            }
        }
    }
}

proof fn lemma_int_reads_back(n: int, signed: bool, lo: int, hi: int)
    requires
        lo <= n <= hi,
        n < 0 ==> signed,
    ensures
        int_text(int_display(n), signed, lo, hi) == Some(int_display(n)),
{
    let t = int_display(n);
    if n < 0 {
        let m = (-n) as nat;
        lemma_decimal_spells(m);
        assert(t.drop_first() =~= decimal(m));
        assert(t[0] == '-');
        assert(spelled_int(t, signed) == Some(n));
    } else {
        lemma_decimal_spells(n as nat);
        assert(is_digit(t[0]));
        assert(t[0] != '+');
        assert(spelled_int(t, signed) == Some(n));
    }
}

/// The range of an integer kind, and whether it is signed.
pub open spec fn int_range(k: ScalarKind) -> Option<(int, int)> {
    match k {
        ScalarKind::I8 => Some((i8::MIN as int, i8::MAX as int)),
        ScalarKind::I16 => Some((i16::MIN as int, i16::MAX as int)),
        ScalarKind::I32 => Some((i32::MIN as int, i32::MAX as int)),
        ScalarKind::I64 => Some((i64::MIN as int, i64::MAX as int)),
        ScalarKind::ISize => Some((isize::MIN as int, isize::MAX as int)),
        ScalarKind::U8 => Some((0, u8::MAX as int)),
        ScalarKind::U16 => Some((0, u16::MAX as int)),
        ScalarKind::U32 => Some((0, u32::MAX as int)),
        ScalarKind::U64 => Some((0, u64::MAX as int)),
        ScalarKind::USize => Some((0, usize::MAX as int)),
        _ => None,
    }
}

/// Display and parse are inverse: what a string, a `bool` or an integer in
/// its type's range displays as reads back as that very text (an empty string
/// excepted, which is an empty input).
pub proof fn law_display_reads_back(k: ScalarKind, n: int, t: Seq<char>, floats: Seq<FloatTextV>)
    ensures
        t.len() > 0 ==> spec_text(ScalarKind::Str, t, floats) == Some(t),
        spec_text(ScalarKind::Bool, "true"@, floats) == Some("true"@),
        spec_text(ScalarKind::Bool, "false"@, floats) == Some("false"@),
        int_range(k) matches Some((lo, hi)) && lo <= n <= hi ==> spec_text(k, int_display(n), floats) == Some(
            int_display(n),
        ),
{
    if let Some((lo, hi)) = int_range(k) {
        if lo <= n <= hi {
            match k {
                ScalarKind::I8 => lemma_int_reads_back(n, true, lo, hi),
                ScalarKind::I16 => lemma_int_reads_back(n, true, lo, hi),
                ScalarKind::I32 => lemma_int_reads_back(n, true, lo, hi),
                ScalarKind::I64 => lemma_int_reads_back(n, true, lo, hi),
                ScalarKind::ISize => lemma_int_reads_back(n, true, lo, hi),
                ScalarKind::U8 => lemma_int_reads_back(n, false, lo, hi),
                ScalarKind::U16 => lemma_int_reads_back(n, false, lo, hi),
                ScalarKind::U32 => lemma_int_reads_back(n, false, lo, hi),
                ScalarKind::U64 => lemma_int_reads_back(n, false, lo, hi),
                ScalarKind::USize => lemma_int_reads_back(n, false, lo, hi),
                _ => {},
            }
        }
    }
}


/// Every scalar text in the value, read at its field's type, reads back as
/// itself: the display of a string, a `bool` or an in-range integer does (see
/// [`law_display_reads_back`]); for a float it is what `floats` records.
pub open spec fn reads_back(s: Schema, v: ValueV, floats: Seq<FloatTextV>) -> bool
    decreases s, 1nat,
{
    match s {
        Schema::Opt(x) => match v {
            ValueV::Present(b) => reads_back_inner(*x, *b, floats),
            _ => true,
        },
        _ => reads_back_inner(s, v, floats),
    }
}

pub open spec fn reads_back_inner(s: Schema, v: ValueV, floats: Seq<FloatTextV>) -> bool
    decreases s, 0nat,
{
    match s {
        Schema::Scalar(k) => match v {
            ValueV::Scalar(t) => spec_text(k, t, floats) == Some(t),
            _ => true,
        },
        Schema::List(e) => match v {
            ValueV::List(items) => reads_back_rows(*e, items, floats),
            _ => true,
        },
        Schema::Struct(fs) => match v {
            ValueV::Record(es) => reads_back_fields(fs@, es, floats),
            _ => true,
        },
        Schema::Enum(vs) => match v {
            ValueV::Variant(n, es) => match find_variant(vs@, n) {
                Some(i) => 0 <= i < vs@.len() ==> reads_back_fields(vs@[i].fields@, es, floats),
                None => true,
            },
            _ => true,
        },
        _ => true,
    }
}

pub open spec fn reads_back_fields(fs: Seq<FieldSchema>, es: Seq<(Seq<char>, ValueV)>, floats: Seq<FloatTextV>) -> bool
    decreases fs, 2nat,
{
    forall|i: int| 0 <= i < fs.len() && i < es.len() ==> reads_back(#[trigger] fs[i].schema, es[i].1, floats)
}

pub open spec fn reads_back_rows(e: Schema, items: Seq<ValueV>, floats: Seq<FloatTextV>) -> bool
    decreases e, 2nat,
{
    forall|i: int| 0 <= i < items.len() ==> reads_back(e, #[trigger] items[i], floats)
}

proof fn lemma_blank_stable(m: MemberV, floats: Seq<FloatTextV>)
    requires
        blank(m),
    ensures
        stable(m, floats),
    decreases m,
{
    match m {
        MemberV::Field { .. } => {},
        MemberV::Fields { members, .. } => lemma_blank_stable_all(members, floats),
        MemberV::Variant { members, .. } => lemma_blank_stable_all(members, floats),
        MemberV::List { rows, .. } => lemma_blank_stable_all(rows, floats),
    }
}

proof fn lemma_blank_stable_all(ms: Seq<MemberV>, floats: Seq<FloatTextV>)
    requires
        blank_all(ms),
    ensures
        stable_all(ms, floats),
    decreases ms,
{
    assert forall|i: int| 0 <= i < ms.len() implies stable(#[trigger] ms[i], floats) by {
        lemma_blank_stable(ms[i], floats);
    }
}

proof fn lemma_built_stable(s: Schema, name: Seq<char>, v: ValueV, ch: Seq<(Seq<char>, ChoiceV)>, path: Seq<char>, floats: Seq<FloatTextV>)
    requires
        canonical(s, v),
        reads_back(s, v, floats),
    ensures
        stable(built(s, name, Some(v), ch, path), floats),
    decreases s, 1nat,
{
    match s {
        Schema::Opt(x) => {
            match v {
                ValueV::Present(b) => {
                    assert(unwrap_peek(Some(v)) == Some(*b));
                    lemma_inner_stable(*x, name, false, *b, ch, path, floats);
                },
                _ => {
                    assert(unwrap_peek(Some(v)) is None);
                    if (*x is Struct) || (*x is List) {
                        lemma_fillable_inner(*x, name, false, true, ch, path);
                        lemma_blank_stable(built(s, name, Some(v), ch, path), floats);
                    } else if *x is Scalar {
                        assert(seeded(None) == FieldValueV::Empty);
                    }
                },
            }
        },
        _ => lemma_inner_stable(s, name, true, v, ch, path, floats),
    }
}

proof fn lemma_inner_stable(
    s: Schema,
    name: Seq<char>,
    required: bool,
    v: ValueV,
    ch: Seq<(Seq<char>, ChoiceV)>,
    path: Seq<char>,
    floats: Seq<FloatTextV>,
)
    requires
        canonical_inner(s, v),
        reads_back_inner(s, v, floats),
    ensures
        stable(crate::construct::built_inner(s, name, required, Some(v), true, ch, path), floats),
    decreases s, 0nat,
{
    match s {
        Schema::List(e) => lemma_rows_stable(*e, v->List_0, ch, path, floats),
        Schema::Struct(fs) => lemma_fields_stable(fs@, v->Record_0, ch, path, floats),
        Schema::Enum(vs) => lemma_enum_stable(vs, name, required, v, ch, path, floats),
        _ => {},
    }
}

#[verifier::spinoff_prover]
proof fn lemma_enum_stable(
    vs: Vec<VariantSchema>,
    name: Seq<char>,
    required: bool,
    v: ValueV,
    ch: Seq<(Seq<char>, ChoiceV)>,
    path: Seq<char>,
    floats: Seq<FloatTextV>,
)
    requires
        canonical_inner(Schema::Enum(vs), v),
        reads_back_inner(Schema::Enum(vs), v, floats),
    ensures
        stable(crate::construct::built_inner(Schema::Enum(vs), name, required, Some(v), true, ch, path), floats),
    decreases vs@, 3nat,
{
    let n = v->Variant_0;
    let es = v->Variant_1;
    let i = find_variant(vs@, n)->0;
    assert(decreases_to!(vs@ => vs@[i]));
    assert(decreases_to!(vs@[i] => vs@[i].fields));
    assert(decreases_to!(vs@[i].fields => vs@[i].fields@));
    lemma_fields_stable(vs@[i].fields@, es, ch, path, floats);
    assert(chosen(vs@, Some(v), true, ch, path) == Some(i));
    assert(crate::construct::variant_entries(Some(v)) == Some(es));
}

proof fn lemma_fields_stable(
    fs: Seq<FieldSchema>,
    es: Seq<(Seq<char>, ValueV)>,
    ch: Seq<(Seq<char>, ChoiceV)>,
    path: Seq<char>,
    floats: Seq<FloatTextV>,
)
    requires
        canonical_fields(fs, es),
        reads_back_fields(fs, es, floats),
    ensures
        stable_all(built_fields(fs, Some(es), ch, path), floats),
    decreases fs, 2nat,
{
    let ms = built_fields(fs, Some(es), ch, path);
    assert forall|i: int| 0 <= i < ms.len() implies stable(#[trigger] ms[i], floats) by {
        lemma_built_stable(fs[i].schema, fs[i].name@, es[i].1, ch, spec_qualify(path, fs[i].name@), floats);
    }
}

proof fn lemma_rows_stable(e: Schema, items: Seq<ValueV>, ch: Seq<(Seq<char>, ChoiceV)>, path: Seq<char>, floats: Seq<FloatTextV>)
    requires
        canonical_rows(e, items),
        reads_back_rows(e, items, floats),
    ensures
        stable_all(built_rows(e, items, ch, path), floats),
    decreases e, 2nat,
{
    let ms = built_rows(e, items, ch, path);
    assert forall|i: int| 0 <= i < ms.len() implies stable(#[trigger] ms[i], floats) by {
        lemma_built_stable(e, decimal(i as nat), items[i], ch, spec_qualify(path, decimal(i as nat)), floats);
    }
}


/// Taking the same values in twice is the same as taking them in once: each
/// field takes the value its path names (or keeps its own), and entering a
/// text does not depend on what the field held before.
pub proof fn law_apply_is_idempotent(m: MemberV, p: Seq<char>, values: Seq<Leaf>, floats: Seq<FloatTextV>)
    ensures
        apply(apply(m, p, values, floats), p, values, floats) == apply(m, p, values, floats),
    decreases m,
{
    match m {
        MemberV::Field { .. } => {},
        MemberV::Fields { name, members, .. } => {
            lemma_apply_all_idempotent(members, spec_qualify(p, name), values, floats);
        },
        MemberV::Variant { name, members, .. } => {
            lemma_apply_all_idempotent(members, spec_qualify(p, name), values, floats);
        },
        MemberV::List { name, rows, .. } => {
            lemma_apply_all_idempotent(rows, spec_qualify(p, name), values, floats);
        },
    }
}

/// [`law_apply_is_idempotent`] for the members of a form.
pub proof fn lemma_apply_all_idempotent(ms: Seq<MemberV>, p: Seq<char>, values: Seq<Leaf>, floats: Seq<FloatTextV>)
    ensures
        apply_all(apply_all(ms, p, values, floats), p, values, floats) == apply_all(ms, p, values, floats),
    decreases ms,
{
    let once = apply_all(ms, p, values, floats);
    assert forall|i: int| 0 <= i < ms.len() implies apply(#[trigger] once[i], p, values, floats) == once[i] by {
        law_apply_is_idempotent(ms[i], p, values, floats);
    }
    assert(apply_all(once, p, values, floats) =~= once);
}


/// A field shows what it hands out: its input's value is exactly the raw text
/// of its leaf, so input that did not parse is shown back as typed, an empty
/// field shows nothing, and a valid one shows its value's text.
pub proof fn law_field_renders_its_leaf(m: MemberV, p: Seq<char>)
    requires
        m is Field,
    ensures
        render(m) == labelled(m->Field_label, input_html(m.name(), leaves(m, p)[0].1, Seq::empty())),
        leaves(m, p)[0].0 == spec_qualify(p, m.name()),
        m->Field_value matches FieldValueV::Invalid(raw, _) ==> render(m) == labelled(
            m->Field_label,
            input_html(m.name(), raw, Seq::empty()),
        ),
        m->Field_value matches FieldValueV::Valid(t) ==> render(m) == labelled(
            m->Field_label,
            input_html(m.name(), t, Seq::empty()),
        ),
        (m->Field_value is Empty) ==> render(m) == labelled(m->Field_label, input_html(m.name(), Seq::empty(), Seq::empty())),
{
}

/// Input that did not parse is an error the moment it is taken in, before
/// and after validation: a field holding it has errors whatever its recorded
/// error list says, and entering non-empty text that its type rejects leaves
/// the field with errors.
pub proof fn law_unparsed_input_is_an_error(m: MemberV, p: Seq<char>, values: Seq<Leaf>, floats: Seq<FloatTextV>)
    ensures
        (m matches MemberV::Field { value: FieldValueV::Invalid(_, _), .. }) ==> has_errors(m) && has_errors(validated(m)),
        (m matches MemberV::Field { name, kind, .. } && lookup(values, spec_qualify(p, name)) matches Some(raw) && raw.len()
            > 0 && spec_parse(kind, raw, floats) is Err) ==> has_errors(apply(m, p, values, floats)) && has_errors(
            validated(apply(m, p, values, floats)),
        ),
{
}

/// A value of the model's shape, whatever its scalar texts hold (empty text
/// included): every record and variant has one entry per field, every enum
/// value names one of its variants, and an absent `Option` of a struct holds
/// no enum to choose (see [`fillable`]).
pub open spec fn fits(s: Schema, v: ValueV) -> bool
    decreases s, 1nat,
{
    match s {
        Schema::Opt(x) => match v {
            ValueV::Absent => (*x is Scalar) || (*x is Enum) || (*x is List) || ((*x is Struct) && fillable(*x)),
            ValueV::Present(b) => !(*x is Opt) && fits_inner(*x, *b),
            _ => false,
        },
        _ => fits_inner(s, v),
    }
}

pub open spec fn fits_inner(s: Schema, v: ValueV) -> bool
    decreases s, 0nat,
{
    match s {
        Schema::Scalar(_) => v is Scalar,
        Schema::List(e) => match v {
            ValueV::List(items) => forall|i: int| 0 <= i < items.len() ==> fits(*e, #[trigger] items[i]),
            _ => false,
        },
        Schema::Struct(fs) => match v {
            ValueV::Record(es) => fits_fields(fs@, es),
            _ => false,
        },
        Schema::Enum(vs) => match v {
            ValueV::Variant(n, es) => match find_variant(vs@, n) {
                Some(i) => 0 <= i < vs@.len() && fits_fields(vs@[i].fields@, es),
                None => false,
            },
            _ => false,
        },
        _ => false,
    }
}

pub open spec fn fits_fields(fs: Seq<FieldSchema>, es: Seq<(Seq<char>, ValueV)>) -> bool
    decreases fs, 2nat,
{
    es.len() == fs.len() && forall|i: int| 0 <= i < fs.len() ==> fits(#[trigger] fs[i].schema, es[i].1)
}

proof fn lemma_fits_builds(s: Schema, v: ValueV, ch: Seq<(Seq<char>, ChoiceV)>, path: Seq<char>)
    requires
        fits(s, v),
    ensures
        can_build(s, Some(v), ch, path),
    decreases s, 1nat,
{
    match s {
        Schema::Opt(x) => match v {
            ValueV::Present(b) => lemma_fits_builds_inner(*x, *b, ch, path),
            _ => {
                if *x is Struct {
                    lemma_fillable_inner(*x, Seq::empty(), false, true, ch, path);
                }
            },
        },
        _ => lemma_fits_builds_inner(s, v, ch, path),
    }
}

proof fn lemma_fits_builds_inner(s: Schema, v: ValueV, ch: Seq<(Seq<char>, ChoiceV)>, path: Seq<char>)
    requires
        fits_inner(s, v),
    ensures
        can_build_inner(s, Some(v), true, ch, path),
    decreases s, 0nat,
{
    match s {
        Schema::List(e) => {
            let items = v->List_0;
            assert forall|i: int| 0 <= i < items.len() implies can_build(*e, Some(#[trigger] items[i]), ch, spec_qualify(path, decimal(i as nat))) by {
                lemma_fits_builds(*e, items[i], ch, spec_qualify(path, decimal(i as nat)));
            }
        },
        Schema::Struct(fs) => lemma_fits_fields_build(fs@, v->Record_0, ch, path),
        Schema::Enum(vs) => {
            let i = find_variant(vs@, v->Variant_0)->0;
            assert(decreases_to!(vs@ => vs@[i]));
            assert(decreases_to!(vs@[i] => vs@[i].fields));
            assert(decreases_to!(vs@[i].fields => vs@[i].fields@));
            lemma_fits_fields_build(vs@[i].fields@, v->Variant_1, ch, path);
        },
        _ => {},
    }
}

proof fn lemma_fits_fields_build(fs: Seq<FieldSchema>, es: Seq<(Seq<char>, ValueV)>, ch: Seq<(Seq<char>, ChoiceV)>, path: Seq<char>)
    requires
        fits_fields(fs, es),
    ensures
        fields_can_build(fs, Some(es), ch, path),
    decreases fs, 2nat,
{
    assert forall|i: int| 0 <= i < fs.len() implies can_build(#[trigger] fs[i].schema, crate::construct::entry_peek(Some(es), i), ch, spec_qualify(path, fs[i].name@)) by {
        lemma_fits_builds(fs[i].schema, es[i].1, ch, spec_qualify(path, fs[i].name@));
    }
}

/// Edit mode takes every value of the model's shape: for a struct model, any
/// record that fits its shape (with any scalar texts, empty ones included)
/// can be seeded into a form, with no choice to make.
pub proof fn law_every_fitting_value_seeds(s: Schema, v: ValueV, ch: Seq<(Seq<char>, ChoiceV)>)
    requires
        s is Struct,
        fits_inner(s, v),
    ensures
        form_can_build(s, Some(v), ch),
{
    lemma_fits_fields_build(s->Struct_0@, v->Record_0, ch, Seq::empty());
}

/// Every type in the shape has a widget: no type without one, and no
/// `Option` directly inside an `Option`, anywhere in it.
pub open spec fn all_widgets(s: Schema) -> bool
    decreases s,
{
    match s {
        Schema::Scalar(_) => true,
        Schema::Unsupported => false,
        Schema::Opt(x) => !(*x is Opt) && all_widgets(*x),
        Schema::List(e) => all_widgets(*e),
        Schema::Struct(fs) => forall|i: int| 0 <= i < fs@.len() ==> all_widgets(#[trigger] fs@[i].schema),
        Schema::Enum(vs) => forall|i: int, j: int|
            0 <= i < vs@.len() && 0 <= j < vs@[i].fields@.len() ==> all_widgets(#[trigger] vs@[i].fields@[j].schema),
    }
}

proof fn lemma_all_widgets_supported(s: Schema, ch: Seq<(Seq<char>, ChoiceV)>, path: Seq<char>)
    requires
        all_widgets(s),
    ensures
        supported(s, ch, path),
    decreases s,
{
    match s {
        Schema::Opt(x) => lemma_all_widgets_supported(*x, ch, path),
        Schema::Struct(fs) => {
            assert forall|i: int| 0 <= i < fs@.len() implies supported(#[trigger] fs@[i].schema, ch, spec_qualify(path, fs@[i].name@)) by {
                lemma_all_widgets_supported(fs@[i].schema, ch, spec_qualify(path, fs@[i].name@));
            }
        },
        Schema::Enum(vs) => {
            match lookup(ch, path) {
                Some(ChoiceV::Named(n)) => match find_variant(vs@, n) {
                    Some(i) => {
                        if 0 <= i < vs@.len() {
                            assert(decreases_to!(vs@ => vs@[i]));
                            assert(decreases_to!(vs@[i] => vs@[i].fields));
                            assert(decreases_to!(vs@[i].fields => vs@[i].fields@));
                            assert forall|j: int| 0 <= j < vs@[i].fields@.len() implies supported(
                                #[trigger] vs@[i].fields@[j].schema,
                                ch,
                                spec_qualify(path, vs@[i].fields@[j].name@),
                            ) by {
                                assert(decreases_to!(vs@[i].fields@ => vs@[i].fields@[j]));
                                lemma_all_widgets_supported(vs@[i].fields@[j].schema, ch, spec_qualify(path, vs@[i].fields@[j].name@));
                            }
                        }
                    },
                    None => {},
                },
                _ => {},
            }
        },
        _ => {},
    }
}

/// A struct or enum model in which every type has a widget is covered for
/// create mode, whatever the caller chose (`Absent` for an optional enum,
/// optional structs and lists included).
pub proof fn law_widgets_cover_every_widget_shape(s: Schema, ch: Seq<(Seq<char>, ChoiceV)>)
    requires
        (s is Struct) || (s is Enum),
        all_widgets(s),
    ensures
        form_supported(s, ch),
{
    match s {
        Schema::Struct(fs) => {
            assert forall|i: int| 0 <= i < fs@.len() implies supported(#[trigger] fs@[i].schema, ch, spec_qualify(Seq::empty(), fs@[i].name@)) by {
                lemma_all_widgets_supported(fs@[i].schema, ch, spec_qualify(Seq::empty(), fs@[i].name@));
            }
        },
        Schema::Enum(vs) => {
            lemma_all_widgets_supported(s, ch, Seq::empty());
        },
        _ => {},
    }
}

/// A float field reads its input with the parser of its own type: an `f64`
/// field takes what the `f64` parser made of the text and an `f32` field
/// what the `f32` parser made of it, even where the two differ; text neither
/// parser was asked about does not parse.
pub proof fn law_floats_read_at_their_own_type(raw: Seq<char>, floats: Seq<FloatTextV>)
    ensures
        float_lookup(floats, raw) matches Some(f) ==> spec_text(ScalarKind::F64, raw, floats) == f.2
            && spec_text(ScalarKind::F32, raw, floats) == f.1,
        float_lookup(floats, raw) matches Some(f) ==> f.0 == raw,
        float_lookup(floats, raw) is None ==> spec_text(ScalarKind::F64, raw, floats) is None && spec_text(
            ScalarKind::F32,
            raw,
            floats,
        ) is None,
    decreases floats.len(),
{
    if floats.len() > 0 && floats[0].0 != raw {
        law_floats_read_at_their_own_type(raw, floats.drop_first());
    }
}

} // verus!
