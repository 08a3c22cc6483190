//! Which enum variant to build where: the caller's answers, and the walk over
//! a shape that reports the enums still waiting for one.

use vstd::prelude::*;
use crate::path::{qualify, spec_qualify};
use crate::schema::{FieldSchema, Schema, VariantSchema};

verus! {

/// A caller's answer for one enum path.
#[derive(Clone, Debug, PartialEq, Eq)]
pub enum VariantChoice {
    /// An `Option<Enum>` left empty. Only legal where the enum sits behind an
    /// `Option`; [`VariantOptions::optional`] says where that is.
    Absent,
    /// This variant, by name.
    Named(String),
}

/// The mathematical view of a [`VariantChoice`].
pub enum ChoiceV {
    Absent,
    Named(Seq<char>),
}

impl View for VariantChoice {
    type V = ChoiceV;

    open spec fn view(&self) -> ChoiceV {
        match self {
            VariantChoice::Absent => ChoiceV::Absent,
            VariantChoice::Named(n) => ChoiceV::Named(n@),
        }
    }
}

/// What a caller may answer for one enum path.
#[derive(Clone, Debug, PartialEq, Eq)]
pub struct VariantOptions {
    /// True when the enum sits behind an `Option`, making
    /// [`VariantChoice::Absent`] a legal answer.
    pub optional: bool,
    /// Variant names, in declaration order.
    pub variants: Vec<String>,
}

/// The view of a [`VariantOptions`]: whether it is optional, and the names.
pub type OptionsV = (bool, Seq<Seq<char>>);

pub open spec fn names_view(ns: Seq<String>) -> Seq<Seq<char>> {
    ns.map_values(|n: String| n@)
}

impl View for VariantOptions {
    type V = OptionsV;

    open spec fn view(&self) -> OptionsV {
        (self.optional, names_view(self.variants@))
    }
}

/// The enum choices a form still needs before it can be built: for each enum
/// path (each at most once), what may be chosen there.
#[derive(Clone, Debug, PartialEq, Eq)]
pub struct MissingVariants(pub Vec<(String, VariantOptions)>);

/// The answer recorded for key `k`: the last entry with that key wins, as when
/// the entries are inserted into a map one after another.
pub open spec fn lookup<V>(s: Seq<(Seq<char>, V)>, k: Seq<char>) -> Option<V>
    decreases s.len(),
{
    if s.len() == 0 {
        None
    } else if s.last().0 == k {
        Some(s.last().1)
    } else {
        lookup(s.drop_last(), k)
    }
}

pub open spec fn choices_view(s: Seq<(String, VariantChoice)>) -> Seq<(Seq<char>, ChoiceV)> {
    s.map_values(|p: (String, VariantChoice)| (p.0@, p.1@))
}

pub open spec fn options_entries_view(s: Seq<(String, VariantOptions)>) -> Seq<(Seq<char>, OptionsV)> {
    s.map_values(|p: (String, VariantOptions)| (p.0@, p.1@))
}

/// The map a sequence of entries amounts to, later entries winning.
pub open spec fn map_of<V>(s: Seq<(Seq<char>, V)>) -> Map<Seq<char>, V>
    decreases s.len(),
{
    if s.len() == 0 {
        Map::empty()
    } else {
        map_of(s.drop_last()).insert(s.last().0, s.last().1)
    }
}

/// No key occurs twice.
pub open spec fn keys_unique<V>(s: Seq<(Seq<char>, V)>) -> bool {
    forall|i: int, j: int| 0 <= i < j < s.len() ==> s[i].0 != s[j].0
}

/// The variant names of an enum, in declaration order.
pub open spec fn variant_names(vs: Seq<VariantSchema>) -> Seq<Seq<char>> {
    vs.map_values(|v: VariantSchema| v.name@)
}

/// The first variant named `n`.
pub open spec fn find_variant(vs: Seq<VariantSchema>, n: Seq<char>) -> Option<int> {
    if exists|i: int| 0 <= i < vs.len() && vs[i].name@ == n {
        Some(choose|i: int| 0 <= i < vs.len() && vs[i].name@ == n && forall|j: int| 0 <= j < i ==> vs[j].name@ != n)
    } else {
        None
    }
}

/// The enum paths still unanswered under shape `s` at path `prefix`, given the
/// answers in `chosen`; `optional` says whether `s` sits right behind an
/// `Option`. An `Option` is looked through without adding to the path, and
/// so is a list: the enum its elements hold is asked for at the list's own
/// path, so that a model holding any enum at all has a choice to make in
/// create mode; a struct's fields are walked under their qualified paths; an enum is
/// reported unless it is answered with one of its variants (whose fields are
/// then walked in turn) or, behind an `Option`, with `Absent`.
pub open spec fn missing(s: Schema, prefix: Seq<char>, chosen: Seq<(Seq<char>, ChoiceV)>, optional: bool) -> Map<Seq<char>, OptionsV>
    decreases s,
{
    match s {
        Schema::Opt(x) => missing(*x, prefix, chosen, true),
        Schema::List(e) => missing(*e, prefix, chosen, false),
        Schema::Struct(fs) => missing_fields(fs@, prefix, chosen),
        Schema::Enum(vs) => missing_enum(vs@, prefix, chosen, optional),
        _ => Map::empty(),
    }
}

/// [`missing`] at an enum with variants `vs`.
pub open spec fn missing_enum(vs: Seq<VariantSchema>, prefix: Seq<char>, chosen: Seq<(Seq<char>, ChoiceV)>, optional: bool) -> Map<Seq<char>, OptionsV>
    decreases vs,
{
    let unanswered = Map::empty().insert(prefix, (optional, variant_names(vs)));
    match lookup(chosen, prefix) {
        Some(ChoiceV::Absent) => if optional {
            Map::empty()
        } else {
            unanswered
        },
        Some(ChoiceV::Named(n)) => match find_variant(vs, n) {
            Some(i) => if 0 <= i < vs.len() {
                missing_fields(vs[i].fields@, prefix, chosen)
            } else {
                unanswered
            },
            None => unanswered,
        },
        None => unanswered,
    }
}

/// [`missing`] over the fields of a struct or variant, in order.
pub open spec fn missing_fields(fs: Seq<FieldSchema>, prefix: Seq<char>, chosen: Seq<(Seq<char>, ChoiceV)>) -> Map<Seq<char>, OptionsV>
    decreases fs,
{
    if fs.len() == 0 {
        Map::empty()
    } else {
        missing_fields(fs.drop_last(), prefix, chosen).union_prefer_right(
            missing(fs.last().schema, spec_qualify(prefix, fs.last().name@), chosen, false),
        )
    }
}


pub proof fn lemma_map_of_update<V>(s: Seq<(Seq<char>, V)>, j: int, v: V)
    requires
        0 <= j < s.len(),
        keys_unique(s),
    ensures
        map_of(s.update(j, (s[j].0, v))) == map_of(s).insert(s[j].0, v),
    decreases s.len(),
{
    let k = s[j].0;
    let t = s.update(j, (k, v));
    if j == s.len() - 1 {
        assert(t.drop_last() =~= s.drop_last());
        assert(map_of(t) =~= map_of(s).insert(k, v));
    } else {
        assert(t.drop_last() =~= s.drop_last().update(j, (k, v)));
        lemma_map_of_update(s.drop_last(), j, v);
        assert(s.last().0 != k);
        assert(map_of(t) =~= map_of(s).insert(k, v));
    }
}

pub proof fn lemma_map_of_absent<V>(s: Seq<(Seq<char>, V)>, k: Seq<char>)
    requires
        forall|i: int| 0 <= i < s.len() ==> s[i].0 != k,
    ensures
        !map_of(s).contains_key(k),
    decreases s.len(),
{
    if s.len() > 0 {
        lemma_map_of_absent(s.drop_last(), k);
    }
}

/// Record `val` for `key`, replacing an earlier record for the same key.
fn insert_options(out: &mut Vec<(String, VariantOptions)>, key: String, val: VariantOptions)
    requires
        keys_unique(options_entries_view(old(out)@)),
    ensures
        keys_unique(options_entries_view(final(out)@)),
        map_of(options_entries_view(final(out)@)) == map_of(options_entries_view(old(out)@)).insert(key@, val@),
{
    let ghost before = options_entries_view(out@);
    let mut i: usize = 0;
    while i < out.len()
        invariant
            i <= out@.len(),
            out@ == old(out)@,
            before == options_entries_view(out@),
            keys_unique(before),
            forall|j: int| 0 <= j < i ==> out@[j].0@ != key@,
        decreases out@.len() - i,
    {
        if out[i].0 == key {
            proof {
                lemma_map_of_update(before, i as int, val@);
            }
            out.set(i, (key, val));
            proof {
                assert(options_entries_view(out@) =~= before.update(i as int, (before[i as int].0, val@)));
                assert(keys_unique(options_entries_view(out@)));
            }
            return;
        }
        i = i + 1;
    }
    proof {
        lemma_map_of_absent(before, key@);
    }
    out.push((key, val));
    proof {
        let after = options_entries_view(out@);
        assert(after.drop_last() =~= before);
        assert(after.last() == (key@, val@));
        assert forall|a: int, b: int| 0 <= a < b < after.len() implies after[a].0 != after[b].0 by {
            if b < after.len() - 1 {
                assert(after[a] == before[a] && after[b] == before[b]);
            } else {
                assert(after[a] == before[a]);
            }
        }
    }
}

/// The answer `chosen` records for `key`, as [`lookup`] says.
pub(crate) fn lookup_choice<'a>(chosen: &'a Vec<(String, VariantChoice)>, key: &String) -> (r: Option<&'a VariantChoice>)
    ensures
        match r {
            Some(c) => lookup(choices_view(chosen@), key@) == Some(c@),
            None => lookup(choices_view(chosen@), key@) is None,
        },
{
    let ghost all = choices_view(chosen@);
    let mut i: usize = chosen.len();
    proof {
        assert(all.take(i as int) =~= all);
    }
    while i > 0
        invariant
            i <= chosen@.len(),
            all == choices_view(chosen@),
            lookup(all, key@) == lookup(all.take(i as int), key@),
        decreases i,
    {
        proof {
            assert(all.take(i as int).drop_last() =~= all.take(i - 1));
        }
        if chosen[i - 1].0 == *key {
            return Some(&chosen[i - 1].1);
        }
        i = i - 1;
    }
    None
}

/// The index of the first variant named `n`, as [`find_variant`] says.
pub(crate) fn find_variant_index(vs: &Vec<VariantSchema>, n: &String) -> (r: Option<usize>)
    ensures
        match r {
            Some(i) => find_variant(vs@, n@) == Some(i as int) && i < vs@.len(),
            None => find_variant(vs@, n@) is None,
        },
{
    let mut i: usize = 0;
    while i < vs.len()
        invariant
            i <= vs@.len(),
            forall|j: int| 0 <= j < i ==> vs@[j].name@ != n@,
        decreases vs@.len() - i,
    {
        if vs[i].name == *n {
            proof {
                let k = choose|k: int| 0 <= k < vs@.len() && vs@[k].name@ == n@ && forall|j: int| 0 <= j < k ==> vs@[j].name@ != n@;
                if k < i {
                } else if k > i {
                    assert(vs@[i as int].name@ == n@);
                }
            }
            return Some(i);
        }
        i = i + 1;
    }
    None
}

fn names_of(vs: &Vec<VariantSchema>) -> (r: Vec<String>)
    ensures
        names_view(r@) == variant_names(vs@),
{
    let mut r: Vec<String> = Vec::new();
    let mut i: usize = 0;
    while i < vs.len()
        invariant
            i <= vs@.len(),
            r@.len() == i,
            names_view(r@) == variant_names(vs@).take(i as int),
        decreases vs@.len() - i,
    {
        let n = vs[i].name.clone();
        let ghost r0 = r@;
        r.push(n);
        proof {
            assert(n@ == vs@[i as int].name@);
            assert(r@ == r0.push(n));
            assert(names_view(r@)[i as int] == vs@[i as int].name@);
            assert(names_view(r@) =~= variant_names(vs@).take(i + 1));
        }
        i = i + 1;
    }
    proof {
        assert(variant_names(vs@).take(vs@.len() as int) =~= variant_names(vs@));
    }
    r
}

fn walk(out: &mut Vec<(String, VariantOptions)>, s: &Schema, prefix: &str, chosen: &Vec<(String, VariantChoice)>, optional: bool)
    requires
        keys_unique(options_entries_view(old(out)@)),
    ensures
        keys_unique(options_entries_view(final(out)@)),
        map_of(options_entries_view(final(out)@))
            == map_of(options_entries_view(old(out)@)).union_prefer_right(missing(*s, prefix@, choices_view(chosen@), optional)),
    decreases s,
{
    let ghost base = map_of(options_entries_view(out@));
    match s {
        Schema::Opt(x) => {
            walk(out, x, prefix, chosen, true);
        },
        Schema::List(e) => {
            walk(out, e, prefix, chosen, false);
        },
        Schema::Struct(fs) => {
            walk_fields(out, fs, prefix, chosen);
        },
        Schema::Enum(vs) => {
            walk_enum(out, vs, prefix, chosen, optional);
        },
        _ => {
            proof {
                assert(base.union_prefer_right(Map::empty()) =~= base);
            }
        },
    }
}

fn walk_enum(out: &mut Vec<(String, VariantOptions)>, vs: &Vec<VariantSchema>, prefix: &str, chosen: &Vec<(String, VariantChoice)>, optional: bool)
    requires
        keys_unique(options_entries_view(old(out)@)),
    ensures
        keys_unique(options_entries_view(final(out)@)),
        map_of(options_entries_view(final(out)@))
            == map_of(options_entries_view(old(out)@)).union_prefer_right(missing_enum(vs@, prefix@, choices_view(chosen@), optional)),
    decreases vs@,
{
    let ghost base = map_of(options_entries_view(out@));
    let ghost m = missing_enum(vs@, prefix@, choices_view(chosen@), optional);
    let key = prefix.to_string();
    proof {
        broadcast use vstd::string::group_string_axioms;
    }
    let record = match lookup_choice(chosen, &key) {
        Some(VariantChoice::Absent) => {
            proof {
                if optional {
                    assert(base.union_prefer_right(m) =~= base);
                }
            }
            !optional
        },
        Some(VariantChoice::Named(n)) => match find_variant_index(vs, n) {
            Some(i) => {
                proof {
                    assert(decreases_to!(vs@ => vs@[i as int]));
                    assert(decreases_to!(vs@[i as int] => vs@[i as int].fields));
                    assert(decreases_to!(vs@[i as int].fields => vs@[i as int].fields@));
                }
                walk_fields(out, &vs[i].fields, prefix, chosen);
                false
            },
            None => true,
        },
        None => true,
    };
    if record {
        let opts = VariantOptions { optional, variants: names_of(vs) };
        insert_options(out, key, opts);
        proof {
            assert(map_of(options_entries_view(out@)) =~= base.union_prefer_right(m));
        }
    }
}

fn walk_fields(out: &mut Vec<(String, VariantOptions)>, fs: &Vec<FieldSchema>, prefix: &str, chosen: &Vec<(String, VariantChoice)>)
    requires
        keys_unique(options_entries_view(old(out)@)),
    ensures
        keys_unique(options_entries_view(final(out)@)),
        map_of(options_entries_view(final(out)@))
            == map_of(options_entries_view(old(out)@)).union_prefer_right(missing_fields(fs@, prefix@, choices_view(chosen@))),
    decreases fs@,
{
    let ghost base = map_of(options_entries_view(out@));
    let ghost ch = choices_view(chosen@);
    let mut i: usize = 0;
    proof {
        assert(fs@.take(0) =~= Seq::<FieldSchema>::empty());
        assert(base.union_prefer_right(Map::empty()) =~= base);
    }
    while i < fs.len()
        invariant
            i <= fs@.len(),
            ch == choices_view(chosen@),
            keys_unique(options_entries_view(out@)),
            map_of(options_entries_view(out@)) == base.union_prefer_right(missing_fields(fs@.take(i as int), prefix@, ch)),
        decreases fs@.len() - i,
    {
        let p = qualify(prefix, fs[i].name.as_str());
        let ghost before = map_of(options_entries_view(out@));
        walk(out, &fs[i].schema, p.as_str(), chosen, false);
        proof {
            let t = fs@.take(i + 1);
            assert(t.drop_last() =~= fs@.take(i as int));
            assert(t.last() == fs@[i as int]);
            let a = missing_fields(fs@.take(i as int), prefix@, ch);
            let b = missing(fs@[i as int].schema, spec_qualify(prefix@, fs@[i as int].name@), ch, false);
            assert(base.union_prefer_right(a).union_prefer_right(b) =~= base.union_prefer_right(a.union_prefer_right(b)));
        }
        i = i + 1;
    }
    proof {
        assert(fs@.take(fs@.len() as int) =~= fs@);
    }
}

/// The enum choices still needed to build a form for shape `s`, given the
/// choices already made: keyed by qualified path, valued by that enum's
/// variant names and whether it sits behind an `Option`.
///
/// Choosing a variant can reveal more enums under it, so callers ask again
/// after each round of answers until this comes back empty.
pub fn missing_variants(s: &Schema, chosen: &Vec<(String, VariantChoice)>) -> (r: Vec<(String, VariantOptions)>)
    ensures
        keys_unique(options_entries_view(r@)),
        map_of(options_entries_view(r@)) == missing(*s, Seq::empty(), choices_view(chosen@), false),
{
    let mut out: Vec<(String, VariantOptions)> = Vec::new();
    proof {
        assert(options_entries_view(out@) =~= Seq::empty());
    }
    walk(&mut out, s, "", chosen, false);
    proof {
        reveal_strlit("");
        assert(""@ =~= Seq::<char>::empty());
        assert(Map::<Seq<char>, OptionsV>::empty().union_prefer_right(missing(*s, Seq::empty(), choices_view(chosen@), false))
            =~= missing(*s, Seq::empty(), choices_view(chosen@), false));
    }
    out
}

/// The enum choices a form for `s` needs before any choice is made: the
/// starting point of the ask-and-answer loop of [`missing_variants`].
pub fn required_variants(s: &Schema) -> (r: Vec<(String, VariantOptions)>)
    ensures
        keys_unique(options_entries_view(r@)),
        map_of(options_entries_view(r@)) == missing(*s, Seq::empty(), Seq::empty(), false),
{
    let none: Vec<(String, VariantChoice)> = Vec::new();
    proof {
        assert(choices_view(none@) =~= Seq::empty());
    }
    missing_variants(s, &none)
}

} // verus!
