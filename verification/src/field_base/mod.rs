//! Field widgets as forms use them: text inputs that select their value on
//! focus, selects and checkboxes.

use vstd::prelude::*;

pub mod text;

pub use crate::field::{Checkbox, Select};
pub use text::TextInput;

use crate::field::checkbox::{CheckboxState, checkbox_plan, is_toggle_key, unchecked_message};
use crate::field::select::{SelectState, select_plan};
use crate::field::{required_message, strings_view, text_errors};
use crate::key::{KeyCode, KeyPress};
use crate::render::{Area, Draw, DrawOp, plan_view, text_field_plan};
use crate::validation::Rule;
use text::BaseTextState;

verus! {

/// The messages that the specification functions of fields give.
pub type Messages = Seq<Seq<char>>;

/// The drawing that the specification functions of fields give.
pub type Drawing = Seq<Draw>;

/// The row count that the specification functions of fields give.
pub type Rows = nat;

/// Trait for form fields.
pub trait BasicFieldType: Send + Sync {
    /// The current value as text.
    spec fn current_text(&self) -> Seq<char>;

    /// The current value as a boolean, for fields that hold one.
    spec fn current_flag(&self) -> Option<bool>;

    /// The messages that validating the field reports; none when it is valid.
    spec fn reported_errors(&self) -> Seq<Seq<char>>;

    /// What the field draws into `area`.
    spec fn drawing(&self, area: Area, focused: bool) -> Seq<Draw>;

    /// The rows the field takes.
    spec fn row_count(&self) -> nat;

    /// Returns the current value of the field as a string.
    fn value_str(&self) -> (r: String)
        ensures
            r@ == self.current_text(),
    ;

    /// Returns the current value of the field as a boolean, if it is one.
    fn value_bool(&self) -> (r: Option<bool>)
        ensures
            r == self.current_flag(),
    ;

    /// What the field draws into `area`.
    fn render(&self, area: Area, focused: bool) -> (r: Vec<DrawOp>)
        requires
            area.fits(),
        ensures
            plan_view(r@) == self.drawing(area, focused),
    ;

    /// Handles keyboard input. Returns true if the input was consumed.
    fn handle_input(&mut self, event: &KeyPress) -> bool;

    /// Called when the field gains focus. The value stays as it is.
    fn on_focus(&mut self)
        ensures
            final(self).current_text() == old(self).current_text(),
            final(self).current_flag() == old(self).current_flag(),
    {
    }

    /// Called when the field loses focus. The value stays as it is.
    fn on_blur(&mut self)
        ensures
            final(self).current_text() == old(self).current_text(),
            final(self).current_flag() == old(self).current_flag(),
    {
    }

    /// Validates the field and returns any error messages.
    fn validate(&self) -> (r: Result<(), Vec<String>>)
        ensures
            r is Ok <==> self.reported_errors().len() == 0,
            r matches Err(v) ==> strings_view(v@) == self.reported_errors(),
    ;

    /// Returns the height needed to render this field: at least one row.
    fn height(&self) -> (r: u16)
        ensures
            r >= 1,
            r == self.row_count(),
    ;
}

/// A field of a form: one of the widgets.
pub enum FormField {
    Text(TextInput),
    Select(Select),
    Checkbox(Checkbox),
    /// A widget of the user's own.
    Custom(Box<dyn BasicFieldType>),
}

/// What a form field holds: the widget's state, and for a text input the
/// validators it runs.
pub enum FieldState {
    Text(BaseTextState, Seq<Rule>),
    Select(SelectState),
    Checkbox(CheckboxState),
    /// A widget of the user's own, as its trait shows it.
    Custom(CustomState),
}

/// What the trait of a user's widget shows of it.
pub struct CustomState {
    pub text: Seq<char>,
    pub flag: Option<bool>,
    pub errors: Seq<Seq<char>>,
    pub rows: nat,
    pub drawing: spec_fn(Area, bool) -> Seq<Draw>,
}

impl FieldState {
    /// The value as text.
    pub open spec fn text(self) -> Seq<char> {
        match self {
            FieldState::Text(s, _) => s.value,
            FieldState::Select(s) => s.value(),
            FieldState::Checkbox(c) => if c.checked { "true"@ } else { "false"@ },
            FieldState::Custom(c) => c.text,
        }
    }

    /// The value as a boolean, for a checkbox.
    pub open spec fn flag(self) -> Option<bool> {
        match self {
            FieldState::Checkbox(c) => Some(c.checked),
            FieldState::Custom(c) => c.flag,
            _ => None,
        }
    }

    /// The messages that validating the field reports, in order.
    pub open spec fn errors(self) -> Seq<Seq<char>> {
        match self {
            FieldState::Text(s, rules) => text_errors(s.label, s.required, rules, s.value),
            FieldState::Select(s) => if s.required && s.selected is None {
                seq![required_message(s.label)]
            } else {
                Seq::empty()
            },
            FieldState::Checkbox(c) => if c.required && !c.checked {
                seq![unchecked_message(c.label)]
            } else {
                Seq::empty()
            },
            FieldState::Custom(c) => c.errors,
        }
    }

    /// What a key press does to a built-in field, and whether the field used
    /// it. What a custom widget does is its own; see [`field_steps`].
    pub open spec fn key(self, key: KeyPress) -> (FieldState, bool) {
        match self {
            FieldState::Text(s, rules) => {
                let (e, used) = s.edit().key(key);
                (FieldState::Text(s.with_edit(e), rules), used)
            },
            FieldState::Select(s) => {
                let (t, used) = s.key(key);
                (FieldState::Select(t), used)
            },
            FieldState::Checkbox(c) => if is_toggle_key(key) {
                (FieldState::Checkbox(CheckboxState { checked: !c.checked, ..c }), true)
            } else {
                (self, false)
            },
            FieldState::Custom(_) => (self, false),
        }
    }

    /// The field after it gains focus: a text input selects its value.
    pub open spec fn focused(self) -> FieldState {
        match self {
            FieldState::Text(s, rules) => FieldState::Text(s.with_edit(s.edit().focus()), rules),
            _ => self,
        }
    }

    /// The field after it loses focus: a text input drops its selection.
    pub open spec fn blurred(self) -> FieldState {
        match self {
            FieldState::Text(s, rules) => FieldState::Text(s.with_edit(s.edit().blur()), rules),
            _ => self,
        }
    }
}

/// How a key takes a field from `f` to `g`, `used` telling whether the
/// field used it: a built-in field as [`FieldState::key`] says; a custom
/// widget stays a custom widget, in whatever state its own handling leaves.
pub open spec fn field_steps(f: FieldState, key: KeyPress, g: FieldState, used: bool) -> bool {
    match f {
        FieldState::Custom(_) => g is Custom,
        _ => (g, used) == f.key(key),
    }
}

/// How losing (`blur`) and then gaining (`focus`) the focus takes a field
/// from `f` to `g`: a built-in field as [`FieldState::blurred`] and
/// [`FieldState::focused`] say; a custom widget keeps its value.
pub open spec fn touched(f: FieldState, g: FieldState, blur: bool, focus: bool) -> bool {
    match f {
        FieldState::Custom(_) => if blur || focus {
            g is Custom && g.text() == f.text() && g.flag() == f.flag()
        } else {
            g == f
        },
        _ => g == {
            let h = if blur { f.blurred() } else { f };
            if focus { h.focused() } else { h }
        },
    }
}

/// Enter and Space flip a checkbox, twice restoring it; any other key leaves
/// it to the form.
pub proof fn lemma_checkbox_flips(c: CheckboxState, key: KeyPress)
    ensures
        key.code is Enter || key.code == KeyCode::Char(' ') ==> FieldState::Checkbox(c).key(key).1
            && FieldState::Checkbox(c).key(key).0.flag() == Some(!c.checked)
            && FieldState::Checkbox(c).key(key).0.key(key).0 == FieldState::Checkbox(c),
        !(key.code is Enter || key.code == KeyCode::Char(' ')) ==> FieldState::Checkbox(c).key(key) == (
        FieldState::Checkbox(c), false),
{
}

impl View for FormField {
    type V = FieldState;

    open spec fn view(&self) -> FieldState {
        match self {
            FormField::Text(f) => FieldState::Text(f@, f.rules()),
            FormField::Select(f) => FieldState::Select(f@),
            FormField::Checkbox(f) => FieldState::Checkbox(f@),
            FormField::Custom(b) => FieldState::Custom(
                CustomState {
                    text: b.current_text(),
                    flag: b.current_flag(),
                    errors: b.reported_errors(),
                    rows: b.row_count(),
                    drawing: |area: Area, focused: bool| b.drawing(area, focused),
                },
            ),
        }
    }
}

impl FormField {
    /// Returns the current value of the field as a string.
    pub fn value_str(&self) -> (r: String)
        ensures
            r@ == self@.text(),
    {
        match self {
            FormField::Text(f) => f.value_str(),
            FormField::Select(f) => f.value_str(),
            FormField::Checkbox(f) => f.value_str(),
            FormField::Custom(f) => f.value_str(),
        }
    }

    /// Returns the current value of the field as a boolean, if it is one.
    pub fn value_bool(&self) -> (r: Option<bool>)
        ensures
            r == self@.flag(),
    {
        match self {
            FormField::Text(f) => f.value_bool(),
            FormField::Select(f) => f.value_bool(),
            FormField::Checkbox(f) => f.value_bool(),
            FormField::Custom(f) => f.value_bool(),
        }
    }

    /// What the field draws into `area`.
    pub fn render(&self, area: Area, focused: bool) -> (r: Vec<DrawOp>)
        requires
            area.fits(),
        ensures
            plan_view(r@) == field_plan(self@, area, focused),
    {
        match self {
            FormField::Text(f) => f.render(area, focused),
            FormField::Select(f) => f.render(area, focused),
            FormField::Checkbox(f) => f.render(area, focused),
            FormField::Custom(f) => f.render(area, focused),
        }
    }

    /// Handles keyboard input. Returns true if the input was consumed.
    pub fn handle_input(&mut self, event: &KeyPress) -> (r: bool)
        ensures
            field_steps(old(self)@, *event, final(self)@, r),
    {
        match self {
            FormField::Text(f) => f.handle_input(event),
            FormField::Select(f) => f.handle_input(event),
            FormField::Checkbox(f) => f.handle_input(event),
            FormField::Custom(f) => f.handle_input(event),
        }
    }

    /// Called when the field gains focus.
    pub fn on_focus(&mut self)
        ensures
            touched(old(self)@, final(self)@, false, true),
    {
        match self {
            FormField::Text(f) => f.on_focus(),
            FormField::Custom(f) => f.on_focus(),
            _ => {},
        }
    }

    /// Called when the field loses focus.
    pub fn on_blur(&mut self)
        ensures
            touched(old(self)@, final(self)@, true, false),
    {
        match self {
            FormField::Text(f) => f.on_blur(),
            FormField::Custom(f) => f.on_blur(),
            _ => {},
        }
    }

    /// Validates the field and returns any error messages.
    pub fn validate(&self) -> (r: Result<(), Vec<String>>)
        ensures
            r is Ok <==> self@.errors().len() == 0,
            r matches Err(v) ==> strings_view(v@) == self@.errors(),
    {
        match self {
            FormField::Text(f) => f.validate(),
            FormField::Select(f) => f.validate(),
            FormField::Checkbox(f) => f.validate(),
            FormField::Custom(f) => f.validate(),
        }
    }

    /// Returns the height needed to render this field.
    pub fn height(&self) -> (r: u16)
        ensures
            r == field_height(self@),
            r >= 1,
    {
        match self {
            FormField::Text(f) => f.height(),
            FormField::Select(f) => f.height(),
            FormField::Checkbox(f) => f.height(),
            FormField::Custom(f) => f.height(),
        }
    }
}

/// The rows a field takes: one, and for an open dropdown one per shown option.
pub open spec fn field_height(f: FieldState) -> nat {
    match f {
        FieldState::Select(s) => if s.open {
            1 + (if s.options.len() < 10 { s.options.len() } else { 10 })
        } else {
            1
        },
        FieldState::Custom(c) => c.rows,
        _ => 1,
    }
}

/// What a field draws into `area`.
pub open spec fn field_plan(f: FieldState, area: Area, focused: bool) -> Seq<Draw> {
    match f {
        FieldState::Text(s, _) => text_field_plan(
            area,
            s.label,
            s.required,
            focused,
            s.value,
            s.cursor,
            s.selection,
            s.placeholder,
        ),
        FieldState::Select(s) => select_plan(s, area, focused),
        FieldState::Checkbox(c) => checkbox_plan(c, area, focused),
        FieldState::Custom(c) => (c.drawing)(area, focused),
    }
}

impl BasicFieldType for Checkbox {
    open spec fn drawing(&self, area: Area, focused: bool) -> Seq<Draw> {
        checkbox_plan(self@, area, focused)
    }

    open spec fn row_count(&self) -> nat {
        1
    }

    open spec fn current_text(&self) -> Seq<char> {
        if self@.checked { "true"@ } else { "false"@ }
    }

    open spec fn current_flag(&self) -> Option<bool> {
        Some(self@.checked)
    }

    open spec fn reported_errors(&self) -> Seq<Seq<char>> {
        if self@.required && !self@.checked {
            seq![unchecked_message(self@.label)]
        } else {
            Seq::empty()
        }
    }

    fn value_str(&self) -> (r: String) {
        self.text_value()
    }

    fn value_bool(&self) -> (r: Option<bool>) {
        Some(self.is_checked())
    }

    fn handle_input(&mut self, event: &KeyPress) -> (r: bool)
        ensures
            r == crate::field::checkbox::is_toggle_key(*event),
            final(self)@ == (if r {
                crate::field::checkbox::CheckboxState { checked: !old(self)@.checked, ..old(self)@ }
            } else {
                old(self)@
            }),
    {
        self.handle_key(event)
    }

    fn render(&self, area: Area, focused: bool) -> (r: Vec<DrawOp>)
        ensures
            plan_view(r@) == crate::field::checkbox::checkbox_plan(self@, area, focused),
    {
        self.plan(area, focused)
    }

    fn validate(&self) -> (r: Result<(), Vec<String>>) {
        self.check()
    }

    fn height(&self) -> (r: u16)
        ensures
            r == 1,
    {
        1
    }
}

impl BasicFieldType for Select {
    open spec fn drawing(&self, area: Area, focused: bool) -> Seq<Draw> {
        select_plan(self@, area, focused)
    }

    open spec fn row_count(&self) -> nat {
        if self@.open {
            1 + (if self@.options.len() < 10 { self@.options.len() } else { 10 })
        } else {
            1
        }
    }

    open spec fn current_text(&self) -> Seq<char> {
        self@.value()
    }

    open spec fn current_flag(&self) -> Option<bool> {
        None
    }

    open spec fn reported_errors(&self) -> Seq<Seq<char>> {
        if self@.required && self@.selected is None {
            seq![required_message(self@.label)]
        } else {
            Seq::empty()
        }
    }

    fn value_str(&self) -> (r: String) {
        self.text_value()
    }

    fn value_bool(&self) -> (r: Option<bool>) {
        None
    }

    fn render(&self, area: Area, focused: bool) -> (r: Vec<DrawOp>)
        ensures
            plan_view(r@) == crate::field::select::select_plan(self@, area, focused),
    {
        self.plan(area, focused)
    }

    fn handle_input(&mut self, event: &KeyPress) -> (r: bool)
        ensures
            (final(self)@, r) == old(self)@.key(*event),
    {
        self.handle_key(event)
    }

    fn validate(&self) -> (r: Result<(), Vec<String>>) {
        self.check()
    }

    fn height(&self) -> (r: u16)
        ensures
            r == (if self@.open {
                1 + (if self@.options.len() < 10 { self@.options.len() } else { 10 })
            } else {
                1
            }),
            self@.wf(),
    {
        self.rows()
    }
}

} // verus!
