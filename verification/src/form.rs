//! A form: a title, a tree of members, and form-level errors; plus the three
//! constructors, one per mode (edit a value; create with no choices; create
//! with the caller's variant choices).

use vstd::prelude::*;
use crate::choices::{MissingVariants, VariantChoice, choices_view, keys_unique, map_of, missing, missing_variants, options_entries_view};
use crate::construct::{form_can_build, form_members, form_supported, members_for, peek_view};
use crate::error::FormError;
use crate::members::{
    FormMember, Leaf, MemberV, all_writable, any_errors, apply_all, entries_of, entries_vec, has_errors,
    join, leaves_all, leaves_view, members_view, render_all, validated, validated_all, writable,
    lemma_all_writable, lemma_any_errors, form_errors_view, absent_container, lemma_cleared_all,
};
use crate::scalar::{FloatText, float_texts_view};
use crate::schema::{Schema, Value, ValueV};
use vstd::string::StringExecFns;

verus! {

/// A form over a model: what it shows, and what it holds.
#[derive(Debug)]
pub struct Form {
    pub title: Option<String>,
    pub members: Vec<FormMember>,
    pub errors: Vec<FormError>,
}

/// The HTML of a title, if there is one.
pub open spec fn title_html(title: Option<String>) -> Seq<char> {
    match title {
        Some(t) => "<h2>"@ + t@ + "</h2>\n"@,
        None => Seq::empty(),
    }
}

/// A validated member without errors can be written out.
pub proof fn lemma_validated_writable(m: MemberV)
    ensures
        !has_errors(validated(m)) ==> writable(validated(m)),
    decreases m,
{
    match m {
        MemberV::Field { .. } => {},
        MemberV::Fields { members, .. } => {
            if absent_container(m) {
                lemma_cleared_all(members);
            } else {
                lemma_validated_all_writable(members);
            }
        },
        MemberV::Variant { members, .. } => {
            lemma_validated_all_writable(members);
        },
        MemberV::List { rows, .. } => {
            if absent_container(m) {
                lemma_cleared_all(rows);
            } else {
                lemma_validated_all_writable(rows);
            }
        },
    }
}

pub proof fn lemma_validated_all_writable(ms: Seq<MemberV>)
    ensures
        !any_errors(validated_all(ms)) ==> all_writable(validated_all(ms)),
    decreases ms,
{
    let vs = validated_all(ms);
    lemma_any_errors(vs);
    lemma_all_writable(vs);
    if !any_errors(vs) {
        assert forall|i: int| 0 <= i < vs.len() implies writable(#[trigger] vs[i]) by {
            assert(vs[i] == validated(ms[i]));
            lemma_validated_writable(ms[i]);
        }
    }
}

impl Form {
    /// Whether the form, or anything in it, has errors.
    pub fn has_errors(&self) -> (r: bool)
        ensures
            r == (self.errors@.len() > 0 || any_errors(members_view(self.members@))),
    {
        let mut i: usize = 0;
        let mut found = self.errors.len() > 0;
        let ghost ms = members_view(self.members@);
        proof {
            lemma_any_errors(ms);
        }
        while i < self.members.len()
            invariant
                i <= self.members@.len(),
                ms == members_view(self.members@),
                any_errors(ms) <==> exists|j: int| 0 <= j < ms.len() && has_errors(#[trigger] ms[j]),
                found == (self.errors@.len() > 0 || exists|j: int| 0 <= j < i && has_errors(#[trigger] ms[j])),
            decreases self.members@.len() - i,
        {
            let e = self.members[i].has_errors();
            proof {
                assert(ms[i as int] == self.members@[i as int]@);
            }
            found = found || e;
            i = i + 1;
        }
        found
    }

    /// Validate every member; then, when nothing has errors, the model the
    /// form holds: a record of its members' values by name.
    pub fn validate(&mut self) -> (r: Option<Value>)
        ensures
            final(self).title == old(self).title,
            final(self).errors@.len() == 0,
            members_view(final(self).members@) == validated_all(members_view(old(self).members@)),
            match r {
                None => any_errors(members_view(final(self).members@)),
                Some(v) => !any_errors(members_view(final(self).members@))
                    && v@ == ValueV::Record(entries_of(members_view(final(self).members@))),
            },
    {
        self.errors.clear();
        let ghost ov = self.members@;
        crate::members::validate_vec(&mut self.members);
        if self.has_errors() {
            None
        } else {
            proof {
                lemma_validated_all_writable(members_view(ov));
            }
            Some(Value::Record(entries_vec(&self.members)))
        }
    }

    /// Every leaf input in the form, as `(qualified path, raw value)` pairs,
    /// in order.
    pub fn leaves(&self) -> (r: Vec<(String, String)>)
        ensures
            leaves_view(r@) == leaves_all(members_view(self.members@), Seq::empty()),
    {
        let mut out: Vec<(String, String)> = Vec::new();
        let ghost ms = members_view(self.members@);
        let mut i: usize = 0;
        proof {
            assert(leaves_view(out@) =~= Seq::empty());
            assert(ms.take(0) =~= Seq::empty());
            reveal_strlit("");
            assert(""@ =~= Seq::<char>::empty());
        }
        while i < self.members.len()
            invariant
                i <= self.members@.len(),
                ms == members_view(self.members@),
                ""@ == Seq::<char>::empty(),
                leaves_view(out@) == leaves_all(ms.take(i as int), Seq::empty()),
            decreases self.members@.len() - i,
        {
            self.members[i].collect_leaves("", &mut out);
            proof {
                assert(ms.take(i + 1).drop_last() =~= ms.take(i as int));
                assert(ms[i as int] == self.members@[i as int]@);
            }
            i = i + 1;
        }
        proof {
            assert(ms.take(ms.len() as int) =~= ms);
        }
        out
    }

    /// Take raw input values back in, keyed by the qualified paths
    /// [`leaves`](Self::leaves) hands out; the last value for a path wins.
    /// `floats` holds what the `f32` and `f64` parsers make of the values.
    pub fn apply(&mut self, values: &Vec<(String, String)>, floats: &Vec<FloatText>)
        ensures
            final(self).title == old(self).title,
            final(self).errors == old(self).errors,
            members_view(final(self).members@)
                == apply_all(members_view(old(self).members@), Seq::empty(), leaves_view(values@), float_texts_view(floats@)),
    {
        proof {
            reveal_strlit("");
            assert(""@ =~= Seq::<char>::empty());
        }
        crate::members::apply_vec(&mut self.members, "", values, floats);
    }

    /// Take values straight off a submitted form, as `(name, value)` pairs
    /// keyed by each input's name, which is the qualified path
    /// [`leaves`](Self::leaves) emitted. The same as [`apply`](Self::apply).
    pub fn apply_form_values(&mut self, values: &Vec<(String, String)>, floats: &Vec<FloatText>)
        ensures
            final(self).title == old(self).title,
            final(self).errors == old(self).errors,
            members_view(final(self).members@)
                == apply_all(members_view(old(self).members@), Seq::empty(), leaves_view(values@), float_texts_view(floats@)),
    {
        self.apply(values, floats);
    }

    /// The form's HTML: the title as a heading, then each member's HTML, one
    /// per line.
    pub fn render(&self) -> (r: String)
        ensures
            r@ == title_html(self.title) + join(render_all(members_view(self.members@)), "\n"@),
    {
        let mut r = match &self.title {
            Some(t) => {
                let mut h = String::from_str("<h2>");
                h.append(t.as_str());
                h.append("</h2>\n");
                h
            },
            None => String::new(),
        };
        let body = crate::members::render_vec(&self.members);
        r.append(body.as_str());
        r
    }
}

/// Edit mode: a form seeded from `value`, whose own variants answer every
/// enum choice, so nothing is left to ask.
pub fn form_for(s: &Schema, value: &Value) -> (r: Form)
    requires
        form_can_build(*s, Some(value@), Seq::empty()),
    ensures
        r.title is None,
        r.errors@.len() == 0,
        members_view(r.members@) == form_members(*s, Some(value@), Seq::empty()),
{
    let none: Vec<(String, VariantChoice)> = Vec::new();
    proof {
        assert(choices_view(none@) =~= Seq::empty());
    }
    let members = members_for(s, Some(value), &none);
    Form { title: None, members, errors: Vec::new() }
}

/// Create mode with the caller's variant choices: the still-needed choices
/// when some enum is left unanswered, otherwise an empty form built with the
/// chosen variants. Building needs every type it reaches to have a widget.
pub fn empty_form_with_variants(s: &Schema, variants: &Vec<(String, VariantChoice)>) -> (r: Result<Form, MissingVariants>)
    requires
        missing(*s, Seq::empty(), choices_view(variants@), false) == Map::<Seq<char>, crate::choices::OptionsV>::empty()
            ==> form_supported(*s, choices_view(variants@)),
    ensures
        match r {
            Ok(f) => missing(*s, Seq::empty(), choices_view(variants@), false) == Map::<Seq<char>, crate::choices::OptionsV>::empty()
                && f.title is None && f.errors@.len() == 0
                && members_view(f.members@) == form_members(*s, None, choices_view(variants@)),
            Err(m) => missing(*s, Seq::empty(), choices_view(variants@), false) != Map::<Seq<char>, crate::choices::OptionsV>::empty()
                && keys_unique(options_entries_view(m.0@))
                && map_of(options_entries_view(m.0@)) == missing(*s, Seq::empty(), choices_view(variants@), false),
        },
{
    let still = missing_variants(s, variants);
    if still.len() > 0 {
        proof {
            let v = options_entries_view(still@);
            assert(v.drop_last().push(v.last()) =~= v);
            assert(map_of(v).contains_key(v.last().0));
        }
        return Err(MissingVariants(still));
    }
    proof {
        assert(options_entries_view(still@) =~= Seq::empty());
        crate::laws::law_answered_form_builds(*s, choices_view(variants@));
    }
    let members = members_for(s, None, variants);
    proof {
        assert(peek_view(None) == None::<ValueV>);
    }
    Ok(Form { title: None, members, errors: Vec::new() })
}

/// Create mode with no choices: fails with the needed choices whenever the
/// model holds any enum at all (see `law_any_enum_needs_a_choice`).
pub fn empty_form(s: &Schema) -> (r: Result<Form, MissingVariants>)
    requires
        missing(*s, Seq::empty(), Seq::empty(), false) == Map::<Seq<char>, crate::choices::OptionsV>::empty()
            ==> form_supported(*s, Seq::empty()),
    ensures
        match r {
            Ok(f) => missing(*s, Seq::empty(), Seq::empty(), false) == Map::<Seq<char>, crate::choices::OptionsV>::empty()
                && f.title is None && f.errors@.len() == 0
                && members_view(f.members@) == form_members(*s, None, Seq::empty()),
            Err(m) => missing(*s, Seq::empty(), Seq::empty(), false) != Map::<Seq<char>, crate::choices::OptionsV>::empty()
                && keys_unique(options_entries_view(m.0@))
                && map_of(options_entries_view(m.0@)) == missing(*s, Seq::empty(), Seq::empty(), false),
        },
{
    let none: Vec<(String, VariantChoice)> = Vec::new();
    proof {
        assert(choices_view(none@) =~= Seq::empty());
    }
    empty_form_with_variants(s, &none)
}

} // verus!
