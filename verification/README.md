# ratatui_form

Typed terminal forms with verified behaviour. A model type builds a `Form`
seeded with its values (`FormModel`, `FormValue`), the user edits the form
with the keyboard, and the edited values are read back into the model.

The library in `src/` is verified with Verus:

- `field_base/`, `field/` — text inputs (the value is selected on focus),
  selects and checkboxes: key handling, validation and drawing plans. A
  widget of the user's own implements `BasicField` and joins a form as
  `FormField::Custom`.
- `form.rs` — the form engine: focus ring, key dispatch, submit and cancel,
  and the layout of a whole form.
- `navigation.rs` — the focus ring over the fields and the submit button.
- `validation/` — `Required`, `Email`, `MinLength`, `MaxLength`, `Numeric`,
  `Pattern` (the `regex` crate), `Ipv4`, `Ipv6`, and the address types
  `Ipv4Address` and `Ipv6Address` with their text notations.
- `form_value.rs`, `field_types.rs` — how value types become fields and are
  read back; `model.rs` — models and extraction errors.
- `model_plan.rs` — what the `#[form(...)]` attributes of a model struct
  make: title, field positions, labels, placeholders, required flags and
  validators, or the item in error.
- `render.rs` — drawing plans: the cell operations a field performs.
- `naming.rs` — labels made from field names.

`app/` is the terminal side: themes (`FormStyle`), `crossterm` key events,
carrying out drawing plans on a `ratatui` buffer, plain functions as
validators, and the expansion of `#[derive(FormModel)]` with `syn` and
`quote` around the verified plan.
