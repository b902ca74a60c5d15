//! Text input field.

use vstd::prelude::*;

use crate::field::{Field, TextEdit, rule_errors, required_error, run_validators, strings_view, text_errors};
use crate::key::{KeyCode, KeyPress};
use crate::render::{Area, DrawOp, plan_view, render_text_field, text_field_plan};
use crate::text::{char_count, insert_char_at, is_blank_str, splice, to_owned_string};
use crate::validation::{Rule, Validator};

verus! {

/// What a text input holds, apart from its validators.
pub struct TextInputState {
    pub label: Seq<char>,
    pub value: Seq<char>,
    pub cursor: nat,
    pub placeholder: Option<Seq<char>>,
    pub required: bool,
}

impl TextInputState {
    pub open spec fn edit(self) -> TextEdit {
        TextEdit { value: self.value, cursor: self.cursor }
    }

    pub open spec fn with_edit(self, e: TextEdit) -> TextInputState {
        TextInputState { value: e.value, cursor: e.cursor, ..self }
    }
}

pub open spec fn opt_view(o: Option<String>) -> Option<Seq<char>> {
    match o {
        Some(s) => Some(s@),
        None => None,
    }
}

/// A single-line text input field.
pub struct TextInput {
    label: String,
    value: String,
    cursor_position: usize,
    placeholder: Option<String>,
    required: bool,
    validators: Vec<Rule>,
}

impl View for TextInput {
    type V = TextInputState;

    closed spec fn view(&self) -> TextInputState {
        TextInputState {
            label: self.label@,
            value: self.value@,
            cursor: self.cursor_position as nat,
            placeholder: opt_view(self.placeholder),
            required: self.required,
        }
    }
}

impl TextInput {
    #[verifier::type_invariant]
    spec fn inv(self) -> bool {
        self.cursor_position <= self.value@.len()
    }

    /// The validators, in the order they run.
    pub closed spec fn rules(&self) -> Seq<Rule> {
        self.validators@
    }

    /// Creates a new text input field.
    pub fn new(label: &str) -> (r: Self)
        ensures
            r@ == (TextInputState {
                label: label@,
                value: Seq::empty(),
                cursor: 0,
                placeholder: None,
                required: false,
            }),
            r.rules().len() == 0,
    {
        Self {
            label: to_owned_string(label),
            value: String::new(),
            cursor_position: 0,
            placeholder: None,
            required: false,
            validators: Vec::new(),
        }
    }

    /// Sets a placeholder text.
    pub fn placeholder(self, placeholder: &str) -> (r: Self)
        ensures
            r@ == (TextInputState { placeholder: Some(placeholder@), ..self@ }),
            r.rules() == self.rules(),
    {
        let mut s = self;
        proof {
            use_type_invariant(&s);
        }
        s.placeholder = Some(to_owned_string(placeholder));
        s
    }

    /// Marks this field as required.
    pub fn required(self) -> (r: Self)
        ensures
            r@ == (TextInputState { required: true, ..self@ }),
            r.rules() == self.rules(),
    {
        let mut s = self;
        proof {
            use_type_invariant(&s);
        }
        s.required = true;
        s
    }

    /// Adds a validator to this field.
    pub fn validator(self, validator: Box<dyn Validator>) -> (r: Self)
        ensures
            r@ == self@,
            r.rules() == self.rules().push(Rule::Custom(validator)),
    {
        proof {
            use_type_invariant(&self);
        }
        let TextInput { label, value, cursor_position, placeholder, required, validators } = self;
        let mut validators = validators;
        validators.push(Rule::Custom(validator));
        TextInput { label, value, cursor_position, placeholder, required, validators }
    }

    /// Sets the initial value; the cursor goes to its end.
    pub fn initial_value(self, value: &str) -> (r: Self)
        ensures
            r@ == (TextInputState { value: value@, cursor: value@.len(), ..self@ }),
            r.rules() == self.rules(),
    {
        let mut s = self;
        proof {
            use_type_invariant(&s);
        }
        s.cursor_position = 0;
        s.value = to_owned_string(value);
        s.cursor_position = char_count(value);
        s
    }

    /// The current value.
    pub fn value(&self) -> (r: &str)
        ensures
            r@ == self@.value,
            self@.cursor <= self@.value.len(),
    {
        proof {
            use_type_invariant(self);
        }
        self.value.as_str()
    }

    fn insert_char(&mut self, c: char)
        ensures
            final(self)@ == old(self)@.with_edit(old(self)@.edit().insert(c)),
            final(self).rules() == old(self).rules(),
    {
        proof {
            use_type_invariant(&*self);
        }
        let n = char_count(self.value.as_str());
        if n < usize::MAX {
            let v = insert_char_at(self.value.as_str(), self.cursor_position, c);
            self.value = v;
            self.cursor_position = self.cursor_position + 1;
        }
    }

    fn delete_char_before_cursor(&mut self)
        ensures
            final(self)@ == old(self)@.with_edit(old(self)@.edit().backspace()),
            final(self).rules() == old(self).rules(),
    {
        proof {
            use_type_invariant(&*self);
        }
        if self.cursor_position > 0 {
            let prev = self.cursor_position - 1;
            let v = splice(self.value.as_str(), prev, self.cursor_position, "");
            proof {
                reveal_strlit("");
                assert(""@ =~= Seq::<char>::empty());
            }
            self.cursor_position = prev;
            self.value = v;
            assert(self.value@ =~= old(self)@.edit().backspace().value);
        }
    }

    fn delete_char_at_cursor(&mut self)
        ensures
            final(self)@ == old(self)@.with_edit(old(self)@.edit().delete()),
            final(self).rules() == old(self).rules(),
    {
        proof {
            use_type_invariant(&*self);
        }
        let n = char_count(self.value.as_str());
        if self.cursor_position < n {
            let v = splice(self.value.as_str(), self.cursor_position, self.cursor_position + 1, "");
            proof {
                reveal_strlit("");
                assert(""@ =~= Seq::<char>::empty());
            }
            self.value = v;
            assert(self.value@ =~= old(self)@.edit().delete().value);
        }
    }

    fn move_cursor_left(&mut self)
        ensures
            final(self)@ == old(self)@.with_edit(old(self)@.edit().left()),
            final(self).rules() == old(self).rules(),
    {
        proof {
            use_type_invariant(&*self);
        }
        if self.cursor_position > 0 {
            self.cursor_position = self.cursor_position - 1;
        }
    }

    fn move_cursor_right(&mut self)
        ensures
            final(self)@ == old(self)@.with_edit(old(self)@.edit().right()),
            final(self).rules() == old(self).rules(),
    {
        proof {
            use_type_invariant(&*self);
        }
        let n = char_count(self.value.as_str());
        if self.cursor_position < n {
            self.cursor_position = self.cursor_position + 1;
        }
    }

    fn move_cursor_home(&mut self)
        ensures
            final(self)@ == old(self)@.with_edit(old(self)@.edit().home()),
            final(self).rules() == old(self).rules(),
    {
        proof {
            use_type_invariant(&*self);
        }
        self.cursor_position = 0;
    }

    fn move_cursor_end(&mut self)
        ensures
            final(self)@ == old(self)@.with_edit(old(self)@.edit().end()),
            final(self).rules() == old(self).rules(),
    {
        proof {
            use_type_invariant(&*self);
        }
        self.cursor_position = char_count(self.value.as_str());
    }

    fn clear(&mut self)
        ensures
            final(self)@ == old(self)@.with_edit(old(self)@.edit().clear()),
            final(self).rules() == old(self).rules(),
    {
        proof {
            use_type_invariant(&*self);
        }
        self.cursor_position = 0;
        self.value = String::new();
    }
}

impl Field for TextInput {
    open spec fn label_text(&self) -> Seq<char> {
        self@.label
    }

    open spec fn value_text(&self) -> Seq<char> {
        self@.value
    }

    open spec fn value_flag(&self) -> Option<bool> {
        None
    }

    open spec fn error_list(&self) -> Seq<Seq<char>> {
        text_errors(self@.label, self@.required, self.rules(), self@.value)
    }

    fn label(&self) -> (r: &str) {
        self.label.as_str()
    }

    fn value_str(&self) -> (r: String) {
        self.value.clone()
    }

    fn value_bool(&self) -> (r: Option<bool>) {
        None
    }

    fn render(&self, area: Area, focused: bool) -> (r: Vec<DrawOp>)
        ensures
            plan_view(r@) == text_field_plan(
                area,
                self@.label,
                self@.required,
                focused,
                self@.value,
                self@.cursor,
                None,
                self@.placeholder,
            ),
    {
        proof {
            use_type_invariant(self);
        }
        let placeholder: Option<&str> = match &self.placeholder {
            Some(p) => Some(p.as_str()),
            None => None,
        };
        render_text_field(
            area,
            self.label.as_str(),
            self.required,
            focused,
            self.value.as_str(),
            self.cursor_position,
            None,
            placeholder,
        )
    }

    fn handle_input(&mut self, event: &KeyPress) -> (r: bool)
        ensures
            (final(self)@.edit(), r) == old(self)@.edit().key(*event),
            final(self)@ == old(self)@.with_edit(final(self)@.edit()),
            final(self).rules() == old(self).rules(),
    {
        match event.code {
            KeyCode::Char(c) => {
                if event.control {
                    if c == 'a' {
                        self.move_cursor_home();
                    } else if c == 'e' {
                        self.move_cursor_end();
                    } else if c == 'u' {
                        self.clear();
                    } else {
                        return false;
                    }
                } else {
                    self.insert_char(c);
                }
                true
            },
            KeyCode::Backspace => {
                self.delete_char_before_cursor();
                true
            },
            KeyCode::Delete => {
                self.delete_char_at_cursor();
                true
            },
            KeyCode::Left => {
                self.move_cursor_left();
                true
            },
            KeyCode::Right => {
                self.move_cursor_right();
                true
            },
            KeyCode::Home => {
                self.move_cursor_home();
                true
            },
            KeyCode::End => {
                self.move_cursor_end();
                true
            },
            _ => false,
        }
    }

    fn validate(&self) -> (r: Result<(), Vec<String>>) {
        let mut errors: Vec<String> = Vec::new();
        // Check required
        if self.required && is_blank_str(self.value.as_str()) {
            errors.push(required_error(self.label.as_str()));
        }
        let ghost head = strings_view(errors@);
        assert(head =~= (if self@.required && crate::text::is_blank(self@.value) {
            seq![crate::field::required_message(self@.label)]
        } else {
            Seq::<Seq<char>>::empty()
        }));
        // Run validators
        run_validators(&self.validators, self.value.as_str(), &mut errors);
        if errors.len() == 0 {
            Ok(())
        } else {
            Err(errors)
        }
    }

    fn height(&self) -> (r: u16)
        ensures
            r == 1,
    {
        1
    }

    fn is_required(&self) -> (r: bool)
        ensures
            r == self@.required,
    {
        self.required
    }
}

} // verus!
