//! Scalar inputs: turning a raw input string into the text of a value of a
//! field's scalar type, or into the error shown for it.

use vstd::prelude::*;
use crate::error::FieldError;
use crate::schema::ScalarKind;
use crate::path::decimal;
use vstd::string::StringExecFns;

verus! {

/// An ASCII decimal digit.
pub open spec fn is_digit(c: char) -> bool {
    '0' as int <= c as int <= '9' as int
}

/// One or more ASCII decimal digits.
pub open spec fn all_digits(ds: Seq<char>) -> bool {
    ds.len() > 0 && forall|i: int| 0 <= i < ds.len() ==> is_digit(#[trigger] ds[i])
}

/// The number a run of decimal digits spells.
pub open spec fn digits_value(ds: Seq<char>) -> int
    decreases ds.len(),
{
    if ds.len() == 0 {
        0
    } else {
        digits_value(ds.drop_last()) * 10 + (ds.last() as int - '0' as int)
    }
}

/// The integer `raw` spells in the grammar of the integers' `FromStr`: an
/// optional `+` (or, for a signed type, `-`) followed by one or more ASCII
/// digits, and nothing else.
pub open spec fn spelled_int(raw: Seq<char>, signed: bool) -> Option<int> {
    if raw.len() > 0 && raw[0] == '+' && all_digits(raw.drop_first()) {
        Some(digits_value(raw.drop_first()))
    } else if signed && raw.len() > 0 && raw[0] == '-' && all_digits(raw.drop_first()) {
        Some(-digits_value(raw.drop_first()))
    } else if all_digits(raw) {
        Some(digits_value(raw))
    } else {
        None
    }
}

/// How the integers' `Display` writes `n`: its decimal numeral, after a `-`
/// when negative.
pub open spec fn int_display(n: int) -> Seq<char> {
    if n < 0 {
        seq!['-'] + decimal((-n) as nat)
    } else {
        decimal(n as nat)
    }
}

/// Parsing `raw` as an integer type with range `lo..=hi` and displaying the
/// result: the displayed number when `raw` spells one in range, else `None`.
pub open spec fn int_text(raw: Seq<char>, signed: bool, lo: int, hi: int) -> Option<Seq<char>> {
    match spelled_int(raw, signed) {
        Some(n) => if lo <= n <= hi {
            Some(int_display(n))
        } else {
            None
        },
        None => None,
    }
}

/// Parses `raw` as an `i8` through facet (`Partial::alloc::<i8>`, then
/// `parse_from_str`, which calls `i8`'s `FromStr`, then `build` and
/// `materialize`) and formats the value with facet's `Peek` display (which calls
/// `i8`'s `Display`). The contract claims what std documents of the two:
/// [`int_text`] over `i8`'s range.
#[verifier::external_body]
fn text_of_i8(raw: &str) -> (r: Option<String>)
    ensures
        opt_text(r) == int_text(raw@, true, i8::MIN as int, i8::MAX as int),
{
    let p = facet::Partial::alloc::<i8>().ok()?.parse_from_str(raw).ok()?;
    let v = p.build().ok()?.materialize::<i8>().ok()?;
    Some(facet::Peek::new(&v).to_string())
}

/// Parses `raw` as an `i16` through facet (`Partial::alloc::<i16>`, then
/// `parse_from_str`, which calls `i16`'s `FromStr`, then `build` and
/// `materialize`) and formats the value with facet's `Peek` display (which calls
/// `i16`'s `Display`). The contract claims what std documents of the two:
/// [`int_text`] over `i16`'s range.
#[verifier::external_body]
fn text_of_i16(raw: &str) -> (r: Option<String>)
    ensures
        opt_text(r) == int_text(raw@, true, i16::MIN as int, i16::MAX as int),
{
    let p = facet::Partial::alloc::<i16>().ok()?.parse_from_str(raw).ok()?;
    let v = p.build().ok()?.materialize::<i16>().ok()?;
    Some(facet::Peek::new(&v).to_string())
}

/// Parses `raw` as an `i32` through facet (`Partial::alloc::<i32>`, then
/// `parse_from_str`, which calls `i32`'s `FromStr`, then `build` and
/// `materialize`) and formats the value with facet's `Peek` display (which calls
/// `i32`'s `Display`). The contract claims what std documents of the two:
/// [`int_text`] over `i32`'s range.
#[verifier::external_body]
fn text_of_i32(raw: &str) -> (r: Option<String>)
    ensures
        opt_text(r) == int_text(raw@, true, i32::MIN as int, i32::MAX as int),
{
    let p = facet::Partial::alloc::<i32>().ok()?.parse_from_str(raw).ok()?;
    let v = p.build().ok()?.materialize::<i32>().ok()?;
    Some(facet::Peek::new(&v).to_string())
}

/// Parses `raw` as an `i64` through facet (`Partial::alloc::<i64>`, then
/// `parse_from_str`, which calls `i64`'s `FromStr`, then `build` and
/// `materialize`) and formats the value with facet's `Peek` display (which calls
/// `i64`'s `Display`). The contract claims what std documents of the two:
/// [`int_text`] over `i64`'s range.
#[verifier::external_body]
fn text_of_i64(raw: &str) -> (r: Option<String>)
    ensures
        opt_text(r) == int_text(raw@, true, i64::MIN as int, i64::MAX as int),
{
    let p = facet::Partial::alloc::<i64>().ok()?.parse_from_str(raw).ok()?;
    let v = p.build().ok()?.materialize::<i64>().ok()?;
    Some(facet::Peek::new(&v).to_string())
}

/// Parses `raw` as an `isize` through facet (`Partial::alloc::<isize>`, then
/// `parse_from_str`, which calls `isize`'s `FromStr`, then `build` and
/// `materialize`) and formats the value with facet's `Peek` display (which calls
/// `isize`'s `Display`). The contract claims what std documents of the two:
/// [`int_text`] over `isize`'s range.
#[verifier::external_body]
fn text_of_isize(raw: &str) -> (r: Option<String>)
    ensures
        opt_text(r) == int_text(raw@, true, isize::MIN as int, isize::MAX as int),
{
    let p = facet::Partial::alloc::<isize>().ok()?.parse_from_str(raw).ok()?;
    let v = p.build().ok()?.materialize::<isize>().ok()?;
    Some(facet::Peek::new(&v).to_string())
}

/// Parses `raw` as a `u8` through facet (`Partial::alloc::<u8>`, then
/// `parse_from_str`, which calls `u8`'s `FromStr`, then `build` and
/// `materialize`) and formats the value with facet's `Peek` display (which calls
/// `u8`'s `Display`). The contract claims what std documents of the two:
/// [`int_text`] over `u8`'s range.
#[verifier::external_body]
fn text_of_u8(raw: &str) -> (r: Option<String>)
    ensures
        opt_text(r) == int_text(raw@, false, u8::MIN as int, u8::MAX as int),
{
    let p = facet::Partial::alloc::<u8>().ok()?.parse_from_str(raw).ok()?;
    let v = p.build().ok()?.materialize::<u8>().ok()?;
    Some(facet::Peek::new(&v).to_string())
}

/// Parses `raw` as a `u16` through facet (`Partial::alloc::<u16>`, then
/// `parse_from_str`, which calls `u16`'s `FromStr`, then `build` and
/// `materialize`) and formats the value with facet's `Peek` display (which calls
/// `u16`'s `Display`). The contract claims what std documents of the two:
/// [`int_text`] over `u16`'s range.
#[verifier::external_body]
fn text_of_u16(raw: &str) -> (r: Option<String>)
    ensures
        opt_text(r) == int_text(raw@, false, u16::MIN as int, u16::MAX as int),
{
    let p = facet::Partial::alloc::<u16>().ok()?.parse_from_str(raw).ok()?;
    let v = p.build().ok()?.materialize::<u16>().ok()?;
    Some(facet::Peek::new(&v).to_string())
}

/// Parses `raw` as a `u32` through facet (`Partial::alloc::<u32>`, then
/// `parse_from_str`, which calls `u32`'s `FromStr`, then `build` and
/// `materialize`) and formats the value with facet's `Peek` display (which calls
/// `u32`'s `Display`). The contract claims what std documents of the two:
/// [`int_text`] over `u32`'s range.
#[verifier::external_body]
fn text_of_u32(raw: &str) -> (r: Option<String>)
    ensures
        opt_text(r) == int_text(raw@, false, u32::MIN as int, u32::MAX as int),
{
    let p = facet::Partial::alloc::<u32>().ok()?.parse_from_str(raw).ok()?;
    let v = p.build().ok()?.materialize::<u32>().ok()?;
    Some(facet::Peek::new(&v).to_string())
}

/// Parses `raw` as a `u64` through facet (`Partial::alloc::<u64>`, then
/// `parse_from_str`, which calls `u64`'s `FromStr`, then `build` and
/// `materialize`) and formats the value with facet's `Peek` display (which calls
/// `u64`'s `Display`). The contract claims what std documents of the two:
/// [`int_text`] over `u64`'s range.
#[verifier::external_body]
fn text_of_u64(raw: &str) -> (r: Option<String>)
    ensures
        opt_text(r) == int_text(raw@, false, u64::MIN as int, u64::MAX as int),
{
    let p = facet::Partial::alloc::<u64>().ok()?.parse_from_str(raw).ok()?;
    let v = p.build().ok()?.materialize::<u64>().ok()?;
    Some(facet::Peek::new(&v).to_string())
}

/// Parses `raw` as a `usize` through facet (`Partial::alloc::<usize>`, then
/// `parse_from_str`, which calls `usize`'s `FromStr`, then `build` and
/// `materialize`) and formats the value with facet's `Peek` display (which calls
/// `usize`'s `Display`). The contract claims what std documents of the two:
/// [`int_text`] over `usize`'s range.
#[verifier::external_body]
fn text_of_usize(raw: &str) -> (r: Option<String>)
    ensures
        opt_text(r) == int_text(raw@, false, usize::MIN as int, usize::MAX as int),
{
    let p = facet::Partial::alloc::<usize>().ok()?.parse_from_str(raw).ok()?;
    let v = p.build().ok()?.materialize::<usize>().ok()?;
    Some(facet::Peek::new(&v).to_string())
}


/// What `{:?}` makes of a string: its quoted, escaped form.
pub uninterp spec fn str_debug(s: Seq<char>) -> Seq<char>;

/// Formats `s` with `str`'s `Debug` implementation (quoted and escaped).
#[verifier::external_body]
pub(crate) fn debug_text(s: &str) -> (r: String)
    ensures
        r@ == str_debug(s@),
{
    format!("{s:?}")
}


/// What the two float parsers make of one raw input: the text of the parsed
/// `f32` and `f64` values, or `None` where it does not parse as one.
#[derive(Debug, PartialEq)]
pub struct FloatText {
    pub raw: String,
    pub as_f32: Option<String>,
    pub as_f64: Option<String>,
}

pub type FloatTextV = (Seq<char>, Option<Seq<char>>, Option<Seq<char>>);

pub open spec fn opt_text(o: Option<String>) -> Option<Seq<char>> {
    match o {
        Some(t) => Some(t@),
        None => None,
    }
}

pub open spec fn float_text_view(f: FloatText) -> FloatTextV {
    (f.raw@, opt_text(f.as_f32), opt_text(f.as_f64))
}

pub open spec fn float_texts_view(fs: Seq<FloatText>) -> Seq<FloatTextV> {
    fs.map_values(|f: FloatText| float_text_view(f))
}

/// The first reading of `raw` among `floats`.
pub open spec fn float_lookup(floats: Seq<FloatTextV>, raw: Seq<char>) -> Option<FloatTextV>
    decreases floats.len(),
{
    if floats.len() == 0 {
        None
    } else if floats[0].0 == raw {
        Some(floats[0])
    } else {
        float_lookup(floats.drop_first(), raw)
    }
}

/// The name a scalar type is shown by in error messages.
pub open spec fn kind_name(k: ScalarKind) -> Seq<char> {
    match k {
        ScalarKind::Str => "String"@,
        ScalarKind::Bool => "bool"@,
        ScalarKind::I8 => "i8"@,
        ScalarKind::I16 => "i16"@,
        ScalarKind::I32 => "i32"@,
        ScalarKind::I64 => "i64"@,
        ScalarKind::ISize => "isize"@,
        ScalarKind::U8 => "u8"@,
        ScalarKind::U16 => "u16"@,
        ScalarKind::U32 => "u32"@,
        ScalarKind::U64 => "u64"@,
        ScalarKind::USize => "usize"@,
        ScalarKind::F32 => "f32"@,
        ScalarKind::F64 => "f64"@,
    }
}

/// The text of the value `raw` parses to as a `k`, if it parses.
pub open spec fn spec_text(k: ScalarKind, raw: Seq<char>, floats: Seq<FloatTextV>) -> Option<Seq<char>> {
    match k {
        ScalarKind::Str => Some(raw),
        ScalarKind::Bool => if raw == "true"@ || raw == "false"@ {
            Some(raw)
        } else {
            None
        },
        ScalarKind::I8 => int_text(raw, true, i8::MIN as int, i8::MAX as int),
        ScalarKind::I16 => int_text(raw, true, i16::MIN as int, i16::MAX as int),
        ScalarKind::I32 => int_text(raw, true, i32::MIN as int, i32::MAX as int),
        ScalarKind::I64 => int_text(raw, true, i64::MIN as int, i64::MAX as int),
        ScalarKind::ISize => int_text(raw, true, isize::MIN as int, isize::MAX as int),
        ScalarKind::U8 => int_text(raw, false, u8::MIN as int, u8::MAX as int),
        ScalarKind::U16 => int_text(raw, false, u16::MIN as int, u16::MAX as int),
        ScalarKind::U32 => int_text(raw, false, u32::MIN as int, u32::MAX as int),
        ScalarKind::U64 => int_text(raw, false, u64::MIN as int, u64::MAX as int),
        ScalarKind::USize => int_text(raw, false, usize::MIN as int, usize::MAX as int),
        ScalarKind::F32 => match float_lookup(floats, raw) {
            Some(f) => f.1,
            None => None,
        },
        ScalarKind::F64 => match float_lookup(floats, raw) {
            Some(f) => f.2,
            None => None,
        },
    }
}

/// The message for input that does not parse as a `k`.
pub open spec fn parse_failure(k: ScalarKind, raw: Seq<char>) -> Seq<char> {
    str_debug(raw) + " isn't a valid "@ + kind_name(k)
}

/// Parsing `raw` as a `k`: the text of the value, or the error message.
pub open spec fn spec_parse(k: ScalarKind, raw: Seq<char>, floats: Seq<FloatTextV>) -> Result<Seq<char>, Seq<char>> {
    match spec_text(k, raw, floats) {
        Some(t) => Ok(t),
        None => Err(parse_failure(k, raw)),
    }
}

/// The name of a scalar type, as [`kind_name`] gives it.
pub fn scalar_name(k: ScalarKind) -> (r: &'static str)
    ensures
        r@ == kind_name(k),
{
    match k {
        ScalarKind::Str => "String",
        ScalarKind::Bool => "bool",
        ScalarKind::I8 => "i8",
        ScalarKind::I16 => "i16",
        ScalarKind::I32 => "i32",
        ScalarKind::I64 => "i64",
        ScalarKind::ISize => "isize",
        ScalarKind::U8 => "u8",
        ScalarKind::U16 => "u16",
        ScalarKind::U32 => "u32",
        ScalarKind::U64 => "u64",
        ScalarKind::USize => "usize",
        ScalarKind::F32 => "f32",
        ScalarKind::F64 => "f64",
    }
}

fn lookup_float<'a>(floats: &'a Vec<FloatText>, raw: &String) -> (r: Option<&'a FloatText>)
    ensures
        match r {
            Some(f) => float_lookup(float_texts_view(floats@), raw@) == Some(float_text_view(*f)),
            None => float_lookup(float_texts_view(floats@), raw@) is None,
        },
{
    let mut i: usize = 0;
    proof {
        assert(float_texts_view(floats@).skip(0) =~= float_texts_view(floats@));
    }
    while i < floats.len()
        invariant
            i <= floats@.len(),
            float_lookup(float_texts_view(floats@), raw@)
                == float_lookup(float_texts_view(floats@).skip(i as int), raw@),
        decreases floats@.len() - i,
    {
        proof {
            let s = float_texts_view(floats@).skip(i as int);
            assert(s.drop_first() =~= float_texts_view(floats@).skip(i + 1));
            assert(s[0] == float_text_view(floats@[i as int]));
        }
        if floats[i].raw == *raw {
            return Some(&floats[i]);
        }
        i = i + 1;
    }
    None
}

fn copy_text(o: &Option<String>) -> (r: Option<String>)
    ensures
        opt_text(r) == opt_text(*o),
{
    match o {
        Some(t) => Some(t.clone()),
        None => None,
    }
}

/// The text of the value `raw` parses to as a `k`, as [`spec_text`] says.
fn scalar_text(k: ScalarKind, raw: &str, floats: &Vec<FloatText>) -> (r: Option<String>)
    ensures
        opt_text(r) == spec_text(k, raw@, float_texts_view(floats@)),
{
    broadcast use vstd::string::group_string_axioms;
    match k {
        ScalarKind::Str => Some(raw.to_string()),
        ScalarKind::Bool => {
            let s = raw.to_string();
            if s == String::from_str("true") || s == String::from_str("false") {
                Some(s)
            } else {
                None
            }
        },
        ScalarKind::I8 => text_of_i8(raw),
        ScalarKind::I16 => text_of_i16(raw),
        ScalarKind::I32 => text_of_i32(raw),
        ScalarKind::I64 => text_of_i64(raw),
        ScalarKind::ISize => text_of_isize(raw),
        ScalarKind::U8 => text_of_u8(raw),
        ScalarKind::U16 => text_of_u16(raw),
        ScalarKind::U32 => text_of_u32(raw),
        ScalarKind::U64 => text_of_u64(raw),
        ScalarKind::USize => text_of_usize(raw),
        ScalarKind::F32 => {
            let s = raw.to_string();
            match lookup_float(floats, &s) {
                Some(f) => copy_text(&f.as_f32),
                None => None,
            }
        },
        ScalarKind::F64 => {
            let s = raw.to_string();
            match lookup_float(floats, &s) {
                Some(f) => copy_text(&f.as_f64),
                None => None,
            }
        },
    }
}

/// The outcome of parsing `raw` as a `k`, given `text`, what the parser made
/// of it: the text of the value, or the error naming the input and the type.
pub fn parse_outcome(k: ScalarKind, raw: &str, text: Option<String>) -> (r: Result<String, FieldError>)
    ensures
        match text {
            Some(t) => r == Ok::<String, FieldError>(t),
            None => r matches Err(e) && e.0@ == parse_failure(k, raw@),
        },
{
    match text {
        Some(t) => Ok(t),
        None => {
            let d = debug_text(raw);
            let m = d.concat(" isn't a valid ");
            let m = m.concat(scalar_name(k));
            Err(FieldError(m))
        },
    }
}

/// Parse a raw input string as a `k`: the text of the value it denotes, or the
/// error to show beside the field.
pub fn parse_scalar(k: ScalarKind, raw: &str, floats: &Vec<FloatText>) -> (r: Result<String, FieldError>)
    ensures
        match r {
            Ok(t) => spec_parse(k, raw@, float_texts_view(floats@)) == Ok::<Seq<char>, Seq<char>>(t@),
            Err(e) => spec_parse(k, raw@, float_texts_view(floats@)) == Err::<Seq<char>, Seq<char>>(e.0@),
        },
{
    parse_outcome(k, raw, scalar_text(k, raw, floats))
}

} // verus!
