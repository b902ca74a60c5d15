//! Checkbox field.

use vstd::prelude::*;

use crate::field::{Field, strings_view};
use crate::key::{KeyCode, KeyPress};
use crate::render::{Area, Draw, DrawOp, Look, Paint, display_width, min, plain, plan_view, push_op, put_ops, put_text,
    str_width};
use crate::text::{concat_str, to_owned_string};

verus! {

/// What a checkbox holds.
pub struct CheckboxState {
    pub label: Seq<char>,
    pub checked: bool,
    pub required: bool,
}

/// Whether a key toggles a checkbox: Enter or Space.
pub open spec fn is_toggle_key(key: KeyPress) -> bool {
    key.code is Enter || key.code == KeyCode::Char(' ')
}

/// A checkbox field.
pub struct Checkbox {
    label: String,
    checked: bool,
    required: bool,
}

impl View for Checkbox {
    type V = CheckboxState;

    closed spec fn view(&self) -> CheckboxState {
        CheckboxState { label: self.label@, checked: self.checked, required: self.required }
    }
}

/// The message of a required checkbox left unchecked.
pub open spec fn unchecked_message(label: Seq<char>) -> Seq<char> {
    label + " must be checked"@
}

/// The box of a checkbox: `[✓]` when checked, `[ ]` when not.
pub open spec fn box_text(checked: bool) -> Seq<char> {
    if checked {
        seq!['[', '✓', ']']
    } else {
        seq!['[', ' ', ']']
    }
}

/// The text after the box: a space, the label, and `*` when required.
pub open spec fn checkbox_label(label: Seq<char>, required: bool) -> Seq<char> {
    seq![' '] + label + (if required { "*"@ } else { ""@ })
}

/// What a checkbox draws: nothing in an area under one row or four columns;
/// else the box in the input style, then the label text after it, in as
/// many columns as the label takes and the area leaves.
pub open spec fn checkbox_plan(st: CheckboxState, area: Area, focused: bool) -> Seq<Draw> {
    if area.height < 1 || area.width < 4 {
        Seq::empty()
    } else {
        let text = checkbox_label(st.label, st.required);
        put_ops(
            area.x as int,
            area.y as int,
            box_text(st.checked),
            3,
            plain(if focused { Paint::InputFocused } else { Paint::Input }),
        ) + seq![
            Draw::Line {
                x: area.x + 3,
                y: area.y as int,
                width: min(area.width - 3, (display_width(text) as u16) as int),
                text,
                look: plain(if focused { Paint::LabelFocused } else { Paint::Label }),
            },
        ]
    }
}

impl Checkbox {
    /// What the checkbox draws into `area`.
    pub(crate) fn plan(&self, area: Area, focused: bool) -> (r: Vec<DrawOp>)
        requires
            area.fits(),
        ensures
            plan_view(r@) == checkbox_plan(self@, area, focused),
    {
        let mut ops: Vec<DrawOp> = Vec::new();
        assert(plan_view(ops@) =~= Seq::empty());
        if area.height < 1 || area.width < 4 {
            return ops;
        }
        let box_look = Look { paint: if focused { Paint::InputFocused } else { Paint::Input }, reversed: false };
        let label_look = Look { paint: if focused { Paint::LabelFocused } else { Paint::Label }, reversed: false };
        // Render checkbox
        let mark = if self.checked { "[✓]" } else { "[ ]" };
        proof {
            reveal_strlit("[✓]");
            reveal_strlit("[ ]");
            assert(mark@ =~= box_text(self.checked));
        }
        put_text(&mut ops, area.x, area.y, mark, 3, box_look);
        // Render label
        let marker = if self.required { "*" } else { "" };
        let mut text = String::from_str(" ");
        text.append(self.label.as_str());
        text.append(marker);
        proof {
            reveal_strlit(" ");
            assert(text@ =~= checkbox_label(self@.label, self@.required));
        }
        let remaining = area.width - 3;
        let w = str_width(text.as_str());
        #[verifier::truncate]
        let w16 = w as u16;
        let width = if remaining < w16 { remaining } else { w16 };
        let ghost before = plan_view(ops@);
        push_op(&mut ops, DrawOp::Line { x: area.x + 3, y: area.y, width, text, look: label_look });
        assert(plan_view(ops@) =~= checkbox_plan(self@, area, focused));
        ops
    }

    /// Creates a new checkbox field.
    pub fn new(label: &str) -> (r: Self)
        ensures
            r@ == (CheckboxState { label: label@, checked: false, required: false }),
    {
        Self { label: to_owned_string(label), checked: false, required: false }
    }

    /// Sets the initial checked state.
    pub fn checked(self, checked: bool) -> (r: Self)
        ensures
            r@ == (CheckboxState { checked, ..self@ }),
    {
        let mut s = self;
        s.checked = checked;
        s
    }

    /// Marks this field as required (must be checked).
    pub fn required(self) -> (r: Self)
        ensures
            r@ == (CheckboxState { required: true, ..self@ }),
    {
        let mut s = self;
        s.required = true;
        s
    }

    /// Whether the box is checked.
    pub fn is_checked(&self) -> (r: bool)
        ensures
            r == self@.checked,
    {
        self.checked
    }

    pub(crate) fn toggle(&mut self)
        ensures
            final(self)@ == (CheckboxState { checked: !old(self)@.checked, ..old(self)@ }),
    {
        self.checked = !self.checked;
    }

    /// Enter and Space toggle the box; other keys are not consumed.
    pub(crate) fn handle_key(&mut self, event: &KeyPress) -> (r: bool)
        ensures
            r == is_toggle_key(*event),
            final(self)@ == (if r {
                CheckboxState { checked: !old(self)@.checked, ..old(self)@ }
            } else {
                old(self)@
            }),
    {
        match event.code {
            KeyCode::Enter => {
                self.toggle();
                true
            },
            KeyCode::Char(c) => {
                if c == ' ' {
                    self.toggle();
                    true
                } else {
                    false
                }
            },
            _ => false,
        }
    }

    pub(crate) fn check(&self) -> (r: Result<(), Vec<String>>)
        ensures
            r is Ok <==> !(self@.required && !self@.checked),
            r matches Err(v) ==> strings_view(v@) == seq![unchecked_message(self@.label)],
    {
        if self.required && !self.checked {
            let mut v: Vec<String> = Vec::new();
            v.push(concat_str(self.label.as_str(), " must be checked"));
            assert(strings_view(v@) =~= seq![unchecked_message(self@.label)]);
            Err(v)
        } else {
            Ok(())
        }
    }

    pub(crate) fn text_value(&self) -> (r: String)
        ensures
            r@ == (if self@.checked { "true"@ } else { "false"@ }),
    {
        if self.checked {
            String::from_str("true")
        } else {
            String::from_str("false")
        }
    }
}

impl Field for Checkbox {
    open spec fn label_text(&self) -> Seq<char> {
        self@.label
    }

    open spec fn value_text(&self) -> Seq<char> {
        if self@.checked { "true"@ } else { "false"@ }
    }

    open spec fn value_flag(&self) -> Option<bool> {
        Some(self@.checked)
    }

    open spec fn error_list(&self) -> Seq<Seq<char>> {
        if self@.required && !self@.checked {
            seq![unchecked_message(self@.label)]
        } else {
            Seq::empty()
        }
    }

    fn label(&self) -> (r: &str) {
        self.label.as_str()
    }

    fn value_str(&self) -> (r: String) {
        self.text_value()
    }

    fn value_bool(&self) -> (r: Option<bool>) {
        Some(self.checked)
    }

    fn render(&self, area: Area, focused: bool) -> (r: Vec<DrawOp>)
        ensures
            plan_view(r@) == checkbox_plan(self@, area, focused),
    {
        self.plan(area, focused)
    }

    fn handle_input(&mut self, event: &KeyPress) -> (r: bool)
        ensures
            r == is_toggle_key(*event),
            final(self)@ == (if r {
                CheckboxState { checked: !old(self)@.checked, ..old(self)@ }
            } else {
                old(self)@
            }),
    {
        self.handle_key(event)
    }

    fn validate(&self) -> (r: Result<(), Vec<String>>) {
        self.check()
    }

    fn height(&self) -> (r: u16)
        ensures
            r == 1,
    {
        1
    }

    fn is_required(&self) -> (r: bool)
        ensures
            r == self@.required,
    {
        self.required
    }
}

} // verus!
