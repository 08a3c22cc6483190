# facet_form_spike

Forms built from a model type's shape: one input per scalar field. Each input
is a leaf with a qualified path (`location.street`, `places.0.zip`); the form
hands out its leaves by path, takes submitted `(path, value)` pairs back by
path, and validates into a value of the model. Rendered inputs carry the
field's own name.

- `src/` is the verified library. It works on plain data: `schema::Schema`
  (the shape of a model type) and `schema::Value` (a value of one, scalars as
  their display text). `construct` builds the member tree, `members` holds the
  members and what leaves, apply, validate and render do to them, `choices`
  walks a shape for the enum choices still needed, `form` has the three
  constructors, and `laws` and `distinct` state and prove what holds across
  them (the leaves-then-apply round trip, the edit round trip, distinct paths,
  applying values twice being applying them once).
  Scalar parsing goes through `facet` behind the trusted wrappers in `scalar`.
- `app/` reads a `Facet` type's shape and values into that plain data, writes
  validated data back into the type, and offers the generic entry points
  (`form_for::<T>`, `empty_form::<T>`, `validate::<T>`, ...).
- `tests/` runs the library on hand-written shapes and values.
