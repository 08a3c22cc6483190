//! The text of a [`MissingVariants`]: the unanswered paths in order, each with
//! what may be chosen there.

use vstd::prelude::*;
use crate::choices::{MissingVariants, OptionsV, VariantOptions, options_entries_view};
use crate::members::join;
use crate::scalar::{debug_text, str_debug};
use vstd::string::{StrSliceExecFns, StringExecFns};

verus! {

/// `a` comes strictly before `b` in lexicographic order by code point, the
/// order `String` sorts in.
pub open spec fn str_less(a: Seq<char>, b: Seq<char>) -> bool
    decreases a.len(),
{
    if a.len() == 0 {
        b.len() > 0
    } else if b.len() == 0 {
        false
    } else if (a[0] as u32) < (b[0] as u32) {
        true
    } else if a[0] == b[0] {
        str_less(a.drop_first(), b.drop_first())
    } else {
        false
    }
}

proof fn lemma_str_less_transitive(a: Seq<char>, b: Seq<char>, c: Seq<char>)
    requires
        str_less(a, b),
        str_less(b, c),
    ensures
        str_less(a, c),
    decreases a.len(),
{
    if a.len() > 0 && b.len() > 0 && c.len() > 0 && a[0] == b[0] && b[0] == c[0] {
        lemma_str_less_transitive(a.drop_first(), b.drop_first(), c.drop_first());
    }
}

proof fn lemma_str_less_asymmetric(a: Seq<char>, b: Seq<char>)
    ensures
        !(str_less(a, b) && str_less(b, a)),
    decreases a.len(),
{
    if a.len() > 0 && b.len() > 0 && a[0] == b[0] {
        lemma_str_less_asymmetric(a.drop_first(), b.drop_first());
    }
}

/// Whether `a` sorts strictly before `b`, as [`str_less`] says.
pub fn text_less(a: &str, b: &str) -> (r: bool)
    ensures
        r == str_less(a@, b@),
{
    let n = a.unicode_len();
    let m = b.unicode_len();
    let mut i: usize = 0;
    proof {
        assert(a@.skip(0) =~= a@);
        assert(b@.skip(0) =~= b@);
    }
    while i < n && i < m
        invariant
            n == a@.len(),
            m == b@.len(),
            i <= n,
            i <= m,
            str_less(a@, b@) == str_less(a@.skip(i as int), b@.skip(i as int)),
        decreases n - i,
    {
        let ca = a.get_char(i);
        let cb = b.get_char(i);
        proof {
            assert(a@.skip(i as int)[0] == ca);
            assert(b@.skip(i as int)[0] == cb);
            assert(a@.skip(i as int).drop_first() =~= a@.skip(i + 1));
            assert(b@.skip(i as int).drop_first() =~= b@.skip(i + 1));
        }
        if (ca as u32) < (cb as u32) {
            return true;
        }
        if ca != cb {
            return false;
        }
        i = i + 1;
    }
    proof {
        if i == n {
            assert(a@.skip(i as int).len() == 0);
        } else {
            assert(b@.skip(i as int).len() == 0);
        }
    }
    i < m
}

/// `ord` lists every index of `es` once, in order of the entries' keys.
pub open spec fn sorted_order(es: Seq<(Seq<char>, OptionsV)>, ord: Seq<int>) -> bool {
    &&& ord.len() == es.len()
    &&& forall|i: int| 0 <= i < ord.len() ==> 0 <= #[trigger] ord[i] < es.len()
    &&& forall|i: int, j: int| 0 <= i < j < ord.len() ==> #[trigger] ord[i] != #[trigger] ord[j]
    &&& forall|i: int, j: int| 0 <= i < j < ord.len() ==> !str_less(es[#[trigger] ord[j]].0, es[#[trigger] ord[i]].0)
}

/// The indices of `es`, ordered by key.
fn sorted_indices(es: &Vec<(String, VariantOptions)>) -> (r: Vec<usize>)
    ensures
        sorted_order(options_entries_view(es@), r@.map_values(|i: usize| i as int)),
{
    let ghost v = options_entries_view(es@);
    let n = es.len();
    let mut idx: Vec<usize> = Vec::new();
    let mut i: usize = 0;
    while i < n
        invariant
            n == es@.len(),
            i <= n,
            idx@.len() == i,
            forall|a: int| 0 <= a < i ==> idx@[a] == a,
        decreases n - i,
    {
        idx.push(i);
        i = i + 1;
    }
    let mut k: usize = 0;
    while k < n
        invariant
            n == es@.len(),
            v == options_entries_view(es@),
            idx@.len() == n,
            k <= n,
            forall|a: int| 0 <= a < n ==> (#[trigger] idx@[a]) < n,
            forall|a: int, b: int| 0 <= a < b < n ==> #[trigger] idx@[a] != #[trigger] idx@[b],
            forall|a: int, b: int| 0 <= a < b < n && a < k ==> !str_less(v[#[trigger] idx@[b] as int].0, v[#[trigger] idx@[a] as int].0),
        decreases n - k,
    {
        let mut best: usize = k;
        let mut j: usize = k + 1;
        proof {
            lemma_str_less_asymmetric(v[idx@[k as int] as int].0, v[idx@[k as int] as int].0);
        }
        while j < n
            invariant
                n == es@.len(),
                v == options_entries_view(es@),
                idx@.len() == n,
                k < n,
                k <= best < j <= n,
                forall|a: int| 0 <= a < n ==> (#[trigger] idx@[a]) < n,
                forall|x: int| k <= x < j ==> !str_less(v[#[trigger] idx@[x] as int].0, v[idx@[best as int] as int].0),
            decreases n - j,
        {
            proof {
                assert(v[idx@[j as int] as int].0 == es@[idx@[j as int] as int].0@);
                assert(v[idx@[best as int] as int].0 == es@[idx@[best as int] as int].0@);
            }
            if text_less(es[idx[j]].0.as_str(), es[idx[best]].0.as_str()) {
                proof {
                    let nb = v[idx@[j as int] as int].0;
                    let ob = v[idx@[best as int] as int].0;
                    assert forall|x: int| k <= x < j + 1 implies !str_less(v[#[trigger] idx@[x] as int].0, nb) by {
                        if x == j {
                            lemma_str_less_asymmetric(nb, nb);
                        } else if str_less(v[idx@[x] as int].0, nb) {
                            lemma_str_less_transitive(v[idx@[x] as int].0, nb, ob);
                        }
                    }
                }
                best = j;
            }
            j = j + 1;
        }
        let ghost before = idx@;
        let t = idx[k];
        let u = idx[best];
        idx.set(k, u);
        idx.set(best, t);
        proof {
            assert forall|a: int, b: int| 0 <= a < b < n implies #[trigger] idx@[a] != #[trigger] idx@[b] by {
                assert(before[a] != before[b] || a == b);
                if a == k as int && b == best as int {
                } else if a == k as int {
                    assert(idx@[a] == before[best as int]);
                } else if b == best as int {
                    assert(idx@[b] == before[k as int]);
                } else if a == best as int {
                    assert(idx@[a] == before[k as int]);
                } else if b == k as int {
                    assert(idx@[b] == before[best as int]);
                }
            }
            assert forall|a: int, b: int| 0 <= a < b < n && a < k + 1 implies !str_less(v[#[trigger] idx@[b] as int].0, v[#[trigger] idx@[a] as int].0) by {
                if a == k as int {
                    if b == best as int {
                        assert(idx@[b] == before[k as int]);
                    } else {
                        assert(idx@[b] == before[b]);
                    }
                } else {
                    if b == k as int {
                        assert(idx@[b] == before[best as int]);
                    } else if b == best as int {
                        assert(idx@[b] == before[k as int]);
                    } else {
                        assert(idx@[b] == before[b]);
                    }
                    assert(idx@[a] == before[a]);
                }
            }
        }
        k = k + 1;
    }
    proof {
        let o = idx@.map_values(|i: usize| i as int);
        assert forall|a: int, b: int| 0 <= a < b < o.len() implies #[trigger] o[a] != #[trigger] o[b] by {
            assert(idx@[a] != idx@[b]);
        }
        assert forall|a: int, b: int| 0 <= a < b < o.len() implies !str_less(v[#[trigger] o[b]].0, v[#[trigger] o[a]].0) by {
            assert(o[a] == idx@[a] as int && o[b] == idx@[b] as int);
        }
    }
    idx
}

/// `{:?}` of a list of names: each name quoted, between brackets.
pub open spec fn names_debug(ns: Seq<Seq<char>>) -> Seq<char> {
    "["@ + join(ns.map_values(|n: Seq<char>| str_debug(n)), ", "@) + "]"@
}

/// How one unanswered path is described.
pub open spec fn missing_piece(path: Seq<char>, opts: OptionsV) -> Seq<char> {
    path + " (one of "@ + names_debug(opts.1) + (if opts.0 {
        " or none"@
    } else {
        Seq::empty()
    }) + ")"@
}

/// The description of all unanswered paths, taken in the order `ord`.
pub open spec fn missing_message(es: Seq<(Seq<char>, OptionsV)>, ord: Seq<int>) -> Seq<char> {
    "no variant chosen for: "@ + join(Seq::new(ord.len(), |i: int| missing_piece(es[ord[i]].0, es[ord[i]].1)), ", "@)
}

fn names_text(ns: &Vec<String>) -> (r: String)
    ensures
        r@ == names_debug(ns@.map_values(|n: String| n@)),
{
    let ghost strs = ns@.map_values(|n: String| n@).map_values(|n: Seq<char>| str_debug(n));
    let mut body = String::new();
    let mut i: usize = 0;
    while i < ns.len()
        invariant
            i <= ns@.len(),
            strs == ns@.map_values(|n: String| n@).map_values(|n: Seq<char>| str_debug(n)),
            body@ == join(strs.take(i as int), ", "@),
        decreases ns@.len() - i,
    {
        let piece = debug_text(ns[i].as_str());
        proof {
            let t = strs.take(i + 1);
            assert(t.drop_last() =~= strs.take(i as int));
            assert(t.last() == piece@);
        }
        if i == 0 {
            body = piece;
        } else {
            body.append(", ");
            body.append(piece.as_str());
        }
        i = i + 1;
    }
    proof {
        assert(strs.take(ns@.len() as int) =~= strs);
    }
    let mut r = String::from_str("[");
    r.append(body.as_str());
    r.append("]");
    r
}

fn piece_text(path: &String, opts: &VariantOptions) -> (r: String)
    ensures
        r@ == missing_piece(path@, opts@),
{
    let mut r = path.clone();
    proof {
        assert(r@ == path@);
    }
    r.append(" (one of ");
    let names = names_text(&opts.variants);
    r.append(names.as_str());
    if opts.optional {
        r.append(" or none");
    } else {
        proof {
            assert(r@ + Seq::<char>::empty() =~= r@);
        }
    }
    r.append(")");
    r
}

impl MissingVariants {
    /// What is still to be chosen, for people: the paths in sorted order, each
    /// with its enum's variants and, behind an `Option`, "or none".
    pub fn message(&self) -> (r: String)
        ensures
            exists|ord: Seq<int>|
                sorted_order(options_entries_view(self.0@), ord) && r@ == missing_message(
                    options_entries_view(self.0@),
                    ord,
                ),
    {
        let ghost v = options_entries_view(self.0@);
        let ord = sorted_indices(&self.0);
        let ghost o = ord@.map_values(|i: usize| i as int);
        let ghost strs = Seq::new(o.len(), |i: int| missing_piece(v[o[i]].0, v[o[i]].1));
        let mut body = String::new();
        let mut i: usize = 0;
        while i < ord.len()
            invariant
                i <= ord@.len(),
                v == options_entries_view(self.0@),
                o == ord@.map_values(|i: usize| i as int),
                sorted_order(v, o),
                strs == Seq::new(o.len(), |i: int| missing_piece(v[o[i]].0, v[o[i]].1)),
                body@ == join(strs.take(i as int), ", "@),
            decreases ord@.len() - i,
        {
            proof {
                assert(o[i as int] == ord@[i as int] as int);
                assert(0 <= o[i as int] < v.len());
            }
            let e = &self.0[ord[i]];
            let piece = piece_text(&e.0, &e.1);
            proof {
                assert(v[o[i as int]] == (e.0@, e.1@));
                let t = strs.take(i + 1);
                assert(t.drop_last() =~= strs.take(i as int));
                assert(t.last() == piece@);
            }
            if i == 0 {
                body = piece;
            } else {
                body.append(", ");
                body.append(piece.as_str());
            }
            i = i + 1;
        }
        proof {
            assert(strs.take(ord@.len() as int) =~= strs);
        }
        let mut r = String::from_str("no variant chosen for: ");
        r.append(body.as_str());
        r
    }
}

} // verus!
