//! The two error payloads: one per field, one per form.

use vstd::prelude::*;

verus! {

/// A problem with one field's value, shown beside that field.
#[derive(Clone, Debug, PartialEq, Eq)]
pub struct FieldError(pub String);

/// A problem with the form as a whole.
#[derive(Clone, Debug, PartialEq, Eq)]
pub struct FormError(pub String);

} // verus!
