//! Why every leaf of a form has a path of its own: names are non-empty and
//! free of dots, and siblings are named apart.

use vstd::prelude::*;
use crate::choices::keys_unique;
use crate::members::{Leaf, MemberV, leaves, leaves_all};
use crate::path::{decimal, digit_char, spec_qualify};
use crate::choices::ChoiceV;
use crate::construct::{
    built, built_fields, built_inner, built_rows, can_build, can_build_inner, chosen, fields_can_build, form_can_build,
    form_members, record_entries, rows_can_build, variant_entries,
};
use crate::schema::{FieldSchema, Schema, ValueV};

verus! {

/// A name that can stand as one segment of a path: non-empty, with no dot.
pub open spec fn good_name(n: Seq<char>) -> bool {
    n.len() > 0 && forall|i: int| 0 <= i < n.len() ==> n[i] != '.'
}

/// No two of the members share a name.
pub open spec fn names_distinct(ms: Seq<MemberV>) -> bool {
    forall|i: int, j: int| 0 <= i < j < ms.len() ==> (#[trigger] ms[i]).name() != (#[trigger] ms[j]).name()
}

/// Every member in the tree has a good name, and siblings are named apart.
pub open spec fn well_named(m: MemberV) -> bool
    decreases m,
{
    good_name(m.name()) && match m {
        MemberV::Field { .. } => true,
        MemberV::Fields { members, .. } => well_named_all(members),
        MemberV::Variant { members, .. } => well_named_all(members),
        MemberV::List { rows, .. } => well_named_all(rows),
    }
}

pub open spec fn well_named_all(ms: Seq<MemberV>) -> bool
    decreases ms,
{
    names_distinct(ms) && forall|i: int| 0 <= i < ms.len() ==> well_named(#[trigger] ms[i])
}

/// `key` is the path `q` or a path below it.
pub open spec fn under(key: Seq<char>, q: Seq<char>) -> bool {
    &&& q.len() <= key.len()
    &&& key.subrange(0, q.len() as int) == q
    &&& (key.len() == q.len() || key[q.len() as int] == '.')
}

proof fn lemma_qualify_shape(p: Seq<char>, n: Seq<char>)
    ensures
        p.len() == 0 ==> spec_qualify(p, n) == n,
        p.len() > 0 ==> spec_qualify(p, n) == (p + seq!['.']) + n,
{
    if p.len() > 0 {
        assert(p + seq!['.'] + n =~= (p + seq!['.']) + n);
    }
}

/// Below `p.n` is below `p` too, when `n` is a good name.
proof fn lemma_under_parent(key: Seq<char>, p: Seq<char>, n: Seq<char>)
    requires
        good_name(n),
        p.len() > 0,
        under(key, spec_qualify(p, n)),
    ensures
        under(key, p),
{
    let q = spec_qualify(p, n);
    lemma_qualify_shape(p, n);
    assert(q[p.len() as int] == '.');
    assert(key[p.len() as int] == q[p.len() as int]);
    assert(key.subrange(0, p.len() as int) =~= q.subrange(0, p.len() as int));
    assert(q.subrange(0, p.len() as int) =~= p);
}

proof fn lemma_shorter_name_apart(base: Seq<char>, a: Seq<char>, b: Seq<char>, k1: Seq<char>, k2: Seq<char>)
    requires
        good_name(a),
        good_name(b),
        a.len() < b.len(),
        under(k1, base + a),
        under(k2, base + b),
    ensures
        k1 != k2,
{
    let pos: int = (base.len() + a.len()) as int;
    if k1 == k2 {
        assert(k2.subrange(0, (base + b).len() as int) == base + b);
        assert(k2[pos] == (base + b)[pos]);
        assert((base + b)[pos] == b[a.len() as int]);
        if k1.len() == (base + a).len() {
            assert(false);
        } else {
            assert(k1[pos] == '.');
        }
    }
}

/// Paths below two differently named siblings differ.
proof fn lemma_siblings_apart(p: Seq<char>, a: Seq<char>, b: Seq<char>, k1: Seq<char>, k2: Seq<char>)
    requires
        good_name(a),
        good_name(b),
        a != b,
        under(k1, spec_qualify(p, a)),
        under(k2, spec_qualify(p, b)),
    ensures
        k1 != k2,
{
    lemma_qualify_shape(p, a);
    lemma_qualify_shape(p, b);
    let base = if p.len() == 0 { Seq::<char>::empty() } else { p + seq!['.'] };
    assert(spec_qualify(p, a) =~= base + a);
    assert(spec_qualify(p, b) =~= base + b);
    if a.len() < b.len() {
        lemma_shorter_name_apart(base, a, b, k1, k2);
    } else if b.len() < a.len() {
        lemma_shorter_name_apart(base, b, a, k2, k1);
    } else if k1 == k2 {
        let lo = base.len() as int;
        let hi = lo + a.len();
        assert(k1.subrange(0, hi) == base + a);
        assert(k2.subrange(0, hi) == base + b);
        assert(a =~= (base + a).subrange(lo, hi));
        assert(b =~= (base + b).subrange(lo, hi));
    }
}

/// Every leaf path of a well-named member lies below the member's own path.
proof fn lemma_member_under(m: MemberV, p: Seq<char>, j: int)
    requires
        well_named(m),
        0 <= j < leaves(m, p).len(),
    ensures
        under(leaves(m, p)[j].0, spec_qualify(p, m.name())),
    decreases m,
{
    let q = spec_qualify(p, m.name());
    lemma_qualify_shape(p, m.name());
    match m {
        MemberV::Field { .. } => {
            assert(leaves(m, p)[j].0 =~= q);
            assert(q.subrange(0, q.len() as int) =~= q);
        },
        MemberV::Fields { members, .. } => {
            let i = lemma_leaf_owner(members, q, j);
            assert(well_named(members[i]));
            lemma_under_parent(leaves(m, p)[j].0, q, members[i].name());
        },
        MemberV::Variant { members, .. } => {
            let i = lemma_leaf_owner(members, q, j);
            assert(well_named(members[i]));
            lemma_under_parent(leaves(m, p)[j].0, q, members[i].name());
        },
        MemberV::List { rows, .. } => {
            let i = lemma_leaf_owner(rows, q, j);
            assert(well_named(rows[i]));
            lemma_under_parent(leaves(m, p)[j].0, q, rows[i].name());
        },
    }
}

/// The sibling a leaf of `leaves_all(ms, p)` comes from.
proof fn lemma_leaf_owner(ms: Seq<MemberV>, p: Seq<char>, j: int) -> (i: int)
    requires
        well_named_all(ms),
        0 <= j < leaves_all(ms, p).len(),
    ensures
        0 <= i < ms.len(),
        under(leaves_all(ms, p)[j].0, spec_qualify(p, ms[i].name())),
    decreases ms,
{
    let a = leaves_all(ms.drop_last(), p);
    let last = ms.len() - 1;
    assert(ms.last() == ms[last]);
    assert(decreases_to!(ms => ms[last]));
    assert forall|k: int| 0 <= k < ms.drop_last().len() implies well_named(#[trigger] ms.drop_last()[k]) by {
        assert(ms.drop_last()[k] == ms[k]);
    }
    assert forall|x: int, y: int| 0 <= x < y < ms.drop_last().len() implies (#[trigger] ms.drop_last()[x]).name()
        != (#[trigger] ms.drop_last()[y]).name() by {
        assert(ms.drop_last()[x] == ms[x]);
        assert(ms.drop_last()[y] == ms[y]);
    }
    if j < a.len() {
        let i = lemma_leaf_owner(ms.drop_last(), p, j);
        assert(ms.drop_last()[i] == ms[i]);
        i
    } else {
        lemma_member_under(ms[last], p, j - a.len());
        last
    }
}

/// Distinct, good names give distinct leaf paths.
pub proof fn lemma_paths_distinct(m: MemberV, p: Seq<char>)
    requires
        well_named(m),
    ensures
        keys_unique(leaves(m, p)),
    decreases m,
{
    let q = spec_qualify(p, m.name());
    match m {
        MemberV::Field { .. } => {},
        MemberV::Fields { members, .. } => {
            lemma_paths_distinct_all(members, q);
        },
        MemberV::Variant { members, .. } => {
            lemma_paths_distinct_all(members, q);
        },
        MemberV::List { rows, .. } => {
            lemma_paths_distinct_all(rows, q);
        },
    }
}

pub proof fn lemma_paths_distinct_all(ms: Seq<MemberV>, p: Seq<char>)
    requires
        well_named_all(ms),
    ensures
        keys_unique(leaves_all(ms, p)),
    decreases ms,
{
    if ms.len() > 0 {
        let d = ms.drop_last();
        let last = ms.len() - 1;
        assert(ms.last() == ms[last]);
        assert(decreases_to!(ms => ms[last]));
        assert forall|k: int| 0 <= k < d.len() implies well_named(#[trigger] d[k]) by {
            assert(d[k] == ms[k]);
        }
        assert forall|x: int, y: int| 0 <= x < y < d.len() implies (#[trigger] d[x]).name() != (#[trigger] d[y]).name() by {
            assert(d[x] == ms[x]);
            assert(d[y] == ms[y]);
        }
        lemma_paths_distinct_all(d, p);
        lemma_paths_distinct(ms[last], p);
        let a = leaves_all(d, p);
        let b = leaves(ms[last], p);
        let all = leaves_all(ms, p);
        assert(all == a + b);
        assert forall|x: int, y: int| 0 <= x < y < all.len() implies all[x].0 != all[y].0 by {
            if y < a.len() {
                assert(all[x] == a[x] && all[y] == a[y]);
            } else if x >= a.len() {
                assert(all[x] == b[x - a.len()] && all[y] == b[y - a.len()]);
            } else {
                let i = lemma_leaf_owner(d, p, x);
                lemma_member_under(ms[last], p, y - a.len());
                assert(d[i] == ms[i]);
                assert(all[x] == a[x] && all[y] == b[y - a.len()]);
                lemma_siblings_apart(p, ms[i].name(), ms[last].name(), all[x].0, all[y].0);
            }
        }
    }
}

/// Decimal numerals are good names: non-empty, made of digits.
pub proof fn lemma_decimal_good(n: nat)
    ensures
        good_name(decimal(n)),
    decreases n,
{
    if n >= 10 {
        lemma_decimal_good(n / 10);
    }
}

proof fn lemma_decimal_len(n: nat)
    ensures
        decimal(n).len() >= 1,
        n >= 10 ==> decimal(n).len() >= 2,
    decreases n,
{
    if n >= 10 {
        lemma_decimal_len(n / 10);
    }
}

/// Different numbers have different decimal numerals.
pub proof fn lemma_decimal_injective(i: nat, j: nat)
    requires
        decimal(i) == decimal(j),
    ensures
        i == j,
    decreases i,
{
    lemma_decimal_len(i);
    lemma_decimal_len(j);
    if i >= 10 && j >= 10 {
        let di = decimal(i);
        assert(di.last() == digit_char(i % 10));
        assert(decimal(j).last() == digit_char(j % 10));
        assert(i % 10 == j % 10);
        assert(di.drop_last() =~= decimal(i / 10));
        assert(decimal(j).drop_last() =~= decimal(j / 10));
        lemma_decimal_injective(i / 10, j / 10);
        assert(i == 10 * (i / 10) + i % 10);
        assert(j == 10 * (j / 10) + j % 10);
    } else if i < 10 && j < 10 {
        assert(decimal(i)[0] == digit_char(i));
        assert(decimal(j)[0] == digit_char(j));
    }
}


/// A struct's or variant's fields have good names, all different.
pub open spec fn fields_named(fs: Seq<FieldSchema>) -> bool {
    &&& forall|i: int| 0 <= i < fs.len() ==> good_name(#[trigger] fs[i].name@)
    &&& forall|i: int, j: int| 0 <= i < j < fs.len() ==> (#[trigger] fs[i]).name@ != (#[trigger] fs[j]).name@
}

/// Every struct and every variant in the shape has well-named fields, as the
/// fields of a Rust type do.
pub open spec fn schema_named(s: Schema) -> bool
    decreases s,
{
    match s {
        Schema::Opt(x) => schema_named(*x),
        Schema::List(e) => schema_named(*e),
        Schema::Struct(fs) => fields_named(fs@) && forall|i: int| 0 <= i < fs@.len() ==> schema_named(#[trigger] fs@[i].schema),
        Schema::Enum(vs) => forall|i: int|
            0 <= i < vs@.len() ==> fields_named(#[trigger] vs@[i].fields@) && forall|j: int|
                0 <= j < vs@[i].fields@.len() ==> schema_named(#[trigger] vs@[i].fields@[j].schema),
        _ => true,
    }
}

proof fn lemma_built_named(s: Schema, name: Seq<char>, peek: Option<ValueV>, ch: Seq<(Seq<char>, ChoiceV)>, path: Seq<char>)
    requires
        good_name(name),
        schema_named(s),
        can_build(s, peek, ch, path),
    ensures
        well_named(built(s, name, peek, ch, path)),
    decreases s, 1nat,
{
    match s {
        Schema::Opt(x) => {
            let inner = crate::construct::unwrap_peek(peek);
            match peek {
                None => {},
                Some(ValueV::Absent) => {},
                Some(ValueV::Present(b)) => {
                    assert(inner == Some(*b));
                },
                _ => {},
            }
            lemma_inner_named(*x, name, false, inner, peek is Some, ch, path);
        },
        _ => {
            lemma_inner_named(s, name, true, peek, peek is Some, ch, path);
        },
    }
}

proof fn lemma_inner_named(
    s: Schema,
    name: Seq<char>,
    required: bool,
    peek: Option<ValueV>,
    seeding: bool,
    ch: Seq<(Seq<char>, ChoiceV)>,
    path: Seq<char>,
)
    requires
        good_name(name),
        schema_named(s),
        can_build_inner(s, peek, seeding, ch, path),
        !seeding ==> peek is None,
    ensures
        well_named(built_inner(s, name, required, peek, seeding, ch, path)),
    decreases s, 0nat,
{
    match s {
        Schema::List(e) => {
            match peek {
                Some(ValueV::List(items)) => {
                    lemma_rows_named(*e, items, ch, path);
                },
                _ => {},
            }
        },
        Schema::Struct(fs) => {
            lemma_fields_named(fs@, record_entries(peek), ch, path);
        },
        Schema::Enum(vs) => {
            lemma_enum_named(vs, name, required, peek, seeding, ch, path);
        },
        _ => {},
    }
}

proof fn lemma_enum_named(
    vs: Vec<crate::schema::VariantSchema>,
    name: Seq<char>,
    required: bool,
    peek: Option<ValueV>,
    seeding: bool,
    ch: Seq<(Seq<char>, ChoiceV)>,
    path: Seq<char>,
)
    requires
        good_name(name),
        schema_named(Schema::Enum(vs)),
        can_build_inner(Schema::Enum(vs), peek, seeding, ch, path),
        !seeding ==> peek is None,
    ensures
        well_named(built_inner(Schema::Enum(vs), name, required, peek, seeding, ch, path)),
    decreases vs@, 3nat,
{
    match chosen(vs@, peek, seeding, ch, path) {
        Some(i) => {
            if 0 <= i < vs@.len() {
                assert(decreases_to!(vs@ => vs@[i]));
                assert(decreases_to!(vs@[i] => vs@[i].fields));
                assert(decreases_to!(vs@[i].fields => vs@[i].fields@));
                assert(fields_named(vs@[i].fields@));
                if seeding {
                    assert(peek matches Some(ValueV::Variant(_, _)));
                    assert(fields_can_build(vs@[i].fields@, variant_entries(peek), ch, path));
                } else {
                    assert(variant_entries(peek) is None);
                    assert(fields_can_build(vs@[i].fields@, variant_entries(peek), ch, path));
                }
                lemma_fields_named(vs@[i].fields@, variant_entries(peek), ch, path);
            }
        },
        None => {},
    }
}

proof fn lemma_fields_named(fs: Seq<FieldSchema>, es: Option<Seq<(Seq<char>, ValueV)>>, ch: Seq<(Seq<char>, ChoiceV)>, path: Seq<char>)
    requires
        fields_named(fs),
        forall|i: int| 0 <= i < fs.len() ==> schema_named(#[trigger] fs[i].schema),
        fields_can_build(fs, es, ch, path),
    ensures
        well_named_all(built_fields(fs, es, ch, path)),
    decreases fs, 2nat,
{
    let ms = built_fields(fs, es, ch, path);
    assert forall|i: int| 0 <= i < ms.len() implies well_named(#[trigger] ms[i]) by {
        lemma_built_named(fs[i].schema, fs[i].name@, crate::construct::entry_peek(es, i), ch, spec_qualify(path, fs[i].name@));
    }
    assert forall|x: int, y: int| 0 <= x < y < ms.len() implies (#[trigger] ms[x]).name() != (#[trigger] ms[y]).name() by {
        lemma_built_name(fs[x].schema, fs[x].name@, crate::construct::entry_peek(es, x), ch, spec_qualify(path, fs[x].name@));
        lemma_built_name(fs[y].schema, fs[y].name@, crate::construct::entry_peek(es, y), ch, spec_qualify(path, fs[y].name@));
    }
}

/// A buildable member bears the name it was built under.
proof fn lemma_built_name(s: Schema, name: Seq<char>, peek: Option<ValueV>, ch: Seq<(Seq<char>, ChoiceV)>, path: Seq<char>)
    requires
        can_build(s, peek, ch, path),
    ensures
        built(s, name, peek, ch, path).name() == name,
{
    match s {
        Schema::Opt(x) => {
            assert(!(*x is Unsupported));
        },
        _ => {},
    }
}

proof fn lemma_rows_named(e: Schema, items: Seq<ValueV>, ch: Seq<(Seq<char>, ChoiceV)>, path: Seq<char>)
    requires
        schema_named(e),
        rows_can_build(e, items, ch, path),
    ensures
        well_named_all(built_rows(e, items, ch, path)),
    decreases e, 2nat,
{
    let ms = built_rows(e, items, ch, path);
    assert forall|i: int| 0 <= i < ms.len() implies well_named(#[trigger] ms[i]) by {
        lemma_decimal_good(i as nat);
        lemma_built_named(e, decimal(i as nat), Some(items[i]), ch, spec_qualify(path, decimal(i as nat)));
    }
    assert forall|x: int, y: int| 0 <= x < y < ms.len() implies (#[trigger] ms[x]).name() != (#[trigger] ms[y]).name() by {
        lemma_built_name(e, decimal(x as nat), Some(items[x]), ch, spec_qualify(path, decimal(x as nat)));
        lemma_built_name(e, decimal(y as nat), Some(items[y]), ch, spec_qualify(path, decimal(y as nat)));
        if decimal(x as nat) == decimal(y as nat) {
            lemma_decimal_injective(x as nat, y as nat);
        }
    }
}

/// Every leaf of a form has a path of its own: when the model's structs and
/// variants have well-named fields (non-empty, dot-free, distinct, as Rust
/// fields are), no two leaves of a buildable form share a qualified path, the
/// same struct type used twice included.
pub proof fn law_form_paths_distinct(s: Schema, peek: Option<ValueV>, ch: Seq<(Seq<char>, ChoiceV)>)
    requires
        schema_named(s),
        form_can_build(s, peek, ch),
    ensures
        keys_unique(leaves_all(form_members(s, peek, ch), Seq::empty())),
{
    match s {
        Schema::Struct(fs) => {
            lemma_fields_named(fs@, record_entries(peek), ch, Seq::empty());
            lemma_paths_distinct_all(form_members(s, peek, ch), Seq::empty());
        },
        Schema::Enum(vs) => {
            match chosen(vs@, peek, peek is Some, ch, Seq::empty()) {
                Some(i) => {
                    if 0 <= i < vs@.len() {
                        assert(fields_named(vs@[i].fields@));
                        lemma_fields_named(vs@[i].fields@, variant_entries(peek), ch, Seq::empty());
                    }
                },
                None => {},
            }
            lemma_paths_distinct_all(form_members(s, peek, ch), Seq::empty());
        },
        _ => {},
    }
}

} // verus!
