//! Text input field that selects its value when it gains focus.

use vstd::prelude::*;

use crate::field::{TextEdit, required_error, run_validators, strings_view, text_errors};
use crate::field::text::opt_view;
use crate::field_base::BasicFieldType;
use crate::key::{KeyCode, KeyPress};
use crate::render::{Area, Draw, DrawOp, plan_view, render_text_field, text_field_plan};
use crate::text::{char_count, insert_char_at, is_blank_str, splice, to_owned_string};
use crate::validation::{Rule, Validator};

verus! {

/// The editing state of a text input: value, cursor and selection, all in
/// character positions.
pub struct SelectionEdit {
    pub value: Seq<char>,
    pub cursor: nat,
    pub selection: Option<(nat, nat)>,
}

impl SelectionEdit {
    pub open spec fn wf(self) -> bool {
        self.cursor <= self.value.len()
    }

    pub open spec fn plain(self) -> TextEdit {
        TextEdit { value: self.value, cursor: self.cursor }
    }

    pub open spec fn from_plain(e: TextEdit) -> SelectionEdit {
        SelectionEdit { value: e.value, cursor: e.cursor, selection: None }
    }

    /// The selected range, clamped to the value.
    pub open spec fn clamped(self) -> (nat, nat) {
        let (start, end) = self.selection.unwrap();
        let end = if end < self.value.len() { end } else { self.value.len() };
        let start = if start < end { start } else { end };
        (start, end)
    }

    /// Replaces the selection by `rep`; the cursor goes after it.
    pub open spec fn replace_selection(self, rep: Seq<char>) -> SelectionEdit {
        let (start, end) = self.clamped();
        SelectionEdit {
            value: self.value.take(start as int) + rep + self.value.skip(end as int),
            cursor: start + rep.len(),
            selection: None,
        }
    }

    /// Deletes the selection, if any; the cursor goes where it began.
    pub open spec fn delete_selection(self) -> SelectionEdit {
        let (start, end) = self.clamped();
        SelectionEdit {
            value: self.value.take(start as int) + self.value.skip(end as int),
            cursor: start,
            selection: None,
        }
    }

    /// Types `c`: over the selection when there is one, else at the cursor.
    /// A value already `usize::MAX` characters long is left as it is.
    pub open spec fn insert(self, c: char) -> SelectionEdit {
        if self.value.len() >= usize::MAX {
            self
        } else if self.selection is Some {
            self.replace_selection(seq![c])
        } else {
            SelectionEdit::from_plain(self.plain().insert(c))
        }
    }

    pub open spec fn backspace(self) -> SelectionEdit {
        if self.selection is Some {
            self.delete_selection()
        } else {
            SelectionEdit::from_plain(self.plain().backspace())
        }
    }

    pub open spec fn delete(self) -> SelectionEdit {
        if self.selection is Some {
            self.delete_selection()
        } else {
            SelectionEdit::from_plain(self.plain().delete())
        }
    }

    /// The left arrow: with a selection it only drops the selection, the
    /// cursor staying where it is; otherwise the cursor moves one back.
    pub open spec fn left(self) -> SelectionEdit {
        if self.selection is Some {
            SelectionEdit { selection: None, ..self }
        } else {
            SelectionEdit::from_plain(self.plain().left())
        }
    }

    /// The right arrow: with a selection it only drops the selection, the
    /// cursor staying where it is; otherwise the cursor moves one forward.
    pub open spec fn right(self) -> SelectionEdit {
        if self.selection is Some {
            SelectionEdit { selection: None, ..self }
        } else {
            SelectionEdit::from_plain(self.plain().right())
        }
    }

    pub open spec fn home(self) -> SelectionEdit {
        SelectionEdit::from_plain(self.plain().home())
    }

    pub open spec fn end(self) -> SelectionEdit {
        SelectionEdit::from_plain(self.plain().end())
    }

    pub open spec fn clear(self) -> SelectionEdit {
        SelectionEdit { value: Seq::empty(), cursor: 0, selection: None }
    }

    /// Gaining focus selects the whole value and puts the cursor at its end.
    pub open spec fn focus(self) -> SelectionEdit {
        SelectionEdit { cursor: self.value.len(), selection: Some((0, self.value.len())), ..self }
    }

    /// Losing focus drops the selection.
    pub open spec fn blur(self) -> SelectionEdit {
        SelectionEdit { selection: None, ..self }
    }

    /// What a key press does, and whether the key was consumed.
    pub open spec fn key(self, key: KeyPress) -> (SelectionEdit, bool) {
        match key.code {
            KeyCode::Char(c) => if key.control {
                if c == 'a' {
                    (self.home(), true)
                } else if c == 'e' {
                    (self.end(), true)
                } else if c == 'u' {
                    (self.clear(), true)
                } else {
                    (self, false)
                }
            } else {
                (self.insert(c), true)
            },
            KeyCode::Backspace => (self.backspace(), true),
            KeyCode::Delete => (self.delete(), true),
            KeyCode::Left => (self.left(), true),
            KeyCode::Right => (self.right(), true),
            KeyCode::Home => (self.home(), true),
            KeyCode::End => (self.end(), true),
            _ => (self, false),
        }
    }
}

/// What a text input holds, apart from its validators.
pub struct BaseTextState {
    pub label: Seq<char>,
    pub value: Seq<char>,
    pub cursor: nat,
    pub selection: Option<(nat, nat)>,
    pub placeholder: Option<Seq<char>>,
    pub required: bool,
}

impl BaseTextState {
    pub open spec fn edit(self) -> SelectionEdit {
        SelectionEdit { value: self.value, cursor: self.cursor, selection: self.selection }
    }

    pub open spec fn with_edit(self, e: SelectionEdit) -> BaseTextState {
        BaseTextState { value: e.value, cursor: e.cursor, selection: e.selection, ..self }
    }
}

/// A single-line text input field.
pub struct TextInput {
    label: String,
    value: String,
    cursor_position: usize,
    selection: Option<(usize, usize)>,
    placeholder: Option<String>,
    required: bool,
    validators: Vec<Rule>,
}

impl View for TextInput {
    type V = BaseTextState;

    closed spec fn view(&self) -> BaseTextState {
        BaseTextState {
            label: self.label@,
            value: self.value@,
            cursor: self.cursor_position as nat,
            selection: match self.selection {
                Some((s, e)) => Some((s as nat, e as nat)),
                None => None,
            },
            placeholder: opt_view(self.placeholder),
            required: self.required,
        }
    }
}

impl TextInput {
    #[verifier::type_invariant]
    spec fn inv(self) -> bool {
        self.cursor_position <= self.value@.len()
    }

    /// The validators, in the order they run.
    pub closed spec fn rules(&self) -> Seq<Rule> {
        self.validators@
    }

    /// Creates a new text input field.
    pub fn new(label: &str) -> (r: Self)
        ensures
            r@ == (BaseTextState {
                label: label@,
                value: Seq::empty(),
                cursor: 0,
                selection: None,
                placeholder: None,
                required: false,
            }),
            r.rules().len() == 0,
    {
        Self {
            label: to_owned_string(label),
            value: String::new(),
            cursor_position: 0,
            selection: None,
            placeholder: None,
            required: false,
            validators: Vec::new(),
        }
    }

    /// Sets a placeholder text.
    pub fn placeholder(self, placeholder: &str) -> (r: Self)
        ensures
            r@ == (BaseTextState { placeholder: Some(placeholder@), ..self@ }),
            r.rules() == self.rules(),
    {
        let mut s = self;
        proof {
            use_type_invariant(&s);
        }
        s.placeholder = Some(to_owned_string(placeholder));
        s
    }

    /// Marks this field as required.
    pub fn required(self) -> (r: Self)
        ensures
            r@ == (BaseTextState { required: true, ..self@ }),
            r.rules() == self.rules(),
    {
        let mut s = self;
        proof {
            use_type_invariant(&s);
        }
        s.required = true;
        s
    }

    /// Adds a validator to this field.
    pub fn validator(self, validator: Box<dyn Validator>) -> (r: Self)
        ensures
            r@ == self@,
            r.rules() == self.rules().push(Rule::Custom(validator)),
    {
        proof {
            use_type_invariant(&self);
        }
        let TextInput { label, value, cursor_position, selection, placeholder, required, validators } =
            self;
        let mut validators = validators;
        validators.push(Rule::Custom(validator));
        TextInput { label, value, cursor_position, selection, placeholder, required, validators }
    }

    /// Adds a held validator to this field.
    pub fn rule(self, rule: Rule) -> (r: Self)
        ensures
            r@ == self@,
            r.rules() == self.rules().push(rule),
    {
        proof {
            use_type_invariant(&self);
        }
        let TextInput { label, value, cursor_position, selection, placeholder, required, validators } =
            self;
        let mut validators = validators;
        validators.push(rule);
        TextInput { label, value, cursor_position, selection, placeholder, required, validators }
    }

    /// Sets the initial value; the cursor goes to its end.
    pub fn initial_value(self, value: &str) -> (r: Self)
        ensures
            r@ == (BaseTextState { value: value@, cursor: value@.len(), ..self@ }),
            r.rules() == self.rules(),
    {
        let mut s = self;
        proof {
            use_type_invariant(&s);
        }
        s.cursor_position = 0;
        s.value = to_owned_string(value);
        s.cursor_position = char_count(value);
        s
    }

    /// The current value.
    pub fn value(&self) -> (r: &str)
        ensures
            r@ == self@.value,
            self@.cursor <= self@.value.len(),
    {
        proof {
            use_type_invariant(self);
        }
        self.value.as_str()
    }

    fn replace_selection(&mut self, replacement: &str) -> (r: usize)
        requires
            old(self)@.selection is Some,
            old(self)@.value.len() + replacement@.len() <= usize::MAX,
        ensures
            final(self)@ == old(self)@.with_edit(old(self)@.edit().replace_selection(replacement@)),
            r == final(self)@.cursor,
            final(self).rules() == old(self).rules(),
    {
        proof {
            use_type_invariant(&*self);
        }
        let (start, end) = self.selection.unwrap();
        self.selection = None;
        let n = char_count(self.value.as_str());
        let end = if end < n { end } else { n };
        let start = if start < end { start } else { end };
        let v = splice(self.value.as_str(), start, end, replacement);
        let k = char_count(replacement);
        self.cursor_position = 0;
        self.value = v;
        self.cursor_position = start + k;
        start + k
    }

    fn delete_selection(&mut self) -> (r: bool)
        ensures
            r == old(self)@.selection is Some,
            final(self)@ == (if r {
                old(self)@.with_edit(old(self)@.edit().delete_selection())
            } else {
                old(self)@
            }),
            final(self).rules() == old(self).rules(),
    {
        proof {
            use_type_invariant(&*self);
        }
        match self.selection {
            Some((start, end)) => {
                self.selection = None;
                let n = char_count(self.value.as_str());
                let end = if end < n { end } else { n };
                let start = if start < end { start } else { end };
                let v = splice(self.value.as_str(), start, end, "");
                proof {
                    reveal_strlit("");
                    assert(""@ =~= Seq::<char>::empty());
                    assert(v@ =~= old(self)@.edit().delete_selection().value);
                }
                self.cursor_position = 0;
                self.value = v;
                self.cursor_position = start;
                true
            },
            None => false,
        }
    }

    fn insert_char(&mut self, c: char)
        ensures
            final(self)@ == old(self)@.with_edit(old(self)@.edit().insert(c)),
            final(self).rules() == old(self).rules(),
    {
        proof {
            use_type_invariant(&*self);
        }
        let n = char_count(self.value.as_str());
        if n >= usize::MAX {
            return;
        }
        if self.selection.is_some() {
            let mut one = String::new();
            crate::text::push_char(&mut one, c);
            assert(one@ =~= seq![c]);
            self.cursor_position = self.replace_selection(one.as_str());
            return;
        }
        let v = insert_char_at(self.value.as_str(), self.cursor_position, c);
        self.value = v;
        self.cursor_position = self.cursor_position + 1;
    }

    fn delete_char_before_cursor(&mut self)
        ensures
            final(self)@ == old(self)@.with_edit(old(self)@.edit().backspace()),
            final(self).rules() == old(self).rules(),
    {
        if self.delete_selection() {
            return;
        }
        proof {
            use_type_invariant(&*self);
        }
        if self.cursor_position > 0 {
            let prev = self.cursor_position - 1;
            let v = splice(self.value.as_str(), prev, self.cursor_position, "");
            proof {
                reveal_strlit("");
                assert(""@ =~= Seq::<char>::empty());
            }
            self.cursor_position = prev;
            self.value = v;
            assert(self.value@ =~= old(self)@.edit().backspace().value);
        }
    }

    fn delete_char_at_cursor(&mut self)
        ensures
            final(self)@ == old(self)@.with_edit(old(self)@.edit().delete()),
            final(self).rules() == old(self).rules(),
    {
        if self.delete_selection() {
            return;
        }
        proof {
            use_type_invariant(&*self);
        }
        let n = char_count(self.value.as_str());
        if self.cursor_position < n {
            let v = splice(self.value.as_str(), self.cursor_position, self.cursor_position + 1, "");
            proof {
                reveal_strlit("");
                assert(""@ =~= Seq::<char>::empty());
            }
            self.value = v;
            assert(self.value@ =~= old(self)@.edit().delete().value);
        }
    }

    fn move_cursor_left(&mut self)
        ensures
            final(self)@ == old(self)@.with_edit(old(self)@.edit().left()),
            final(self).rules() == old(self).rules(),
    {
        proof {
            use_type_invariant(&*self);
        }
        if self.selection.is_some() {
            self.selection = None;
            return;
        }
        if self.cursor_position > 0 {
            self.cursor_position = self.cursor_position - 1;
        }
    }

    fn move_cursor_right(&mut self)
        ensures
            final(self)@ == old(self)@.with_edit(old(self)@.edit().right()),
            final(self).rules() == old(self).rules(),
    {
        proof {
            use_type_invariant(&*self);
        }
        if self.selection.is_some() {
            self.selection = None;
            return;
        }
        let n = char_count(self.value.as_str());
        if self.cursor_position < n {
            self.cursor_position = self.cursor_position + 1;
        }
    }

    fn move_cursor_home(&mut self)
        ensures
            final(self)@ == old(self)@.with_edit(old(self)@.edit().home()),
            final(self).rules() == old(self).rules(),
    {
        proof {
            use_type_invariant(&*self);
        }
        self.selection = None;
        self.cursor_position = 0;
    }

    fn move_cursor_end(&mut self)
        ensures
            final(self)@ == old(self)@.with_edit(old(self)@.edit().end()),
            final(self).rules() == old(self).rules(),
    {
        proof {
            use_type_invariant(&*self);
        }
        self.selection = None;
        self.cursor_position = char_count(self.value.as_str());
    }

    fn clear(&mut self)
        ensures
            final(self)@ == old(self)@.with_edit(old(self)@.edit().clear()),
            final(self).rules() == old(self).rules(),
    {
        proof {
            use_type_invariant(&*self);
        }
        self.cursor_position = 0;
        self.value = String::new();
        self.selection = None;
    }
}

impl BasicFieldType for TextInput {
    open spec fn drawing(&self, area: Area, focused: bool) -> Seq<Draw> {
        text_field_plan(
            area,
            self@.label,
            self@.required,
            focused,
            self@.value,
            self@.cursor,
            self@.selection,
            self@.placeholder,
        )
    }

    open spec fn row_count(&self) -> nat {
        1
    }

    open spec fn current_text(&self) -> Seq<char> {
        self@.value
    }

    open spec fn current_flag(&self) -> Option<bool> {
        None
    }

    open spec fn reported_errors(&self) -> Seq<Seq<char>> {
        text_errors(self@.label, self@.required, self.rules(), self@.value)
    }

    fn value_str(&self) -> (r: String) {
        self.value.clone()
    }

    fn value_bool(&self) -> (r: Option<bool>) {
        None
    }

    fn render(&self, area: Area, focused: bool) -> (r: Vec<DrawOp>)
        ensures
            plan_view(r@) == text_field_plan(
                area,
                self@.label,
                self@.required,
                focused,
                self@.value,
                self@.cursor,
                self@.selection,
                self@.placeholder,
            ),
    {
        proof {
            use_type_invariant(self);
        }
        let placeholder: Option<&str> = match &self.placeholder {
            Some(p) => Some(p.as_str()),
            None => None,
        };
        render_text_field(
            area,
            self.label.as_str(),
            self.required,
            focused,
            self.value.as_str(),
            self.cursor_position,
            self.selection,
            placeholder,
        )
    }

    fn handle_input(&mut self, event: &KeyPress) -> (r: bool)
        ensures
            (final(self)@.edit(), r) == old(self)@.edit().key(*event),
            final(self)@ == old(self)@.with_edit(final(self)@.edit()),
            final(self).rules() == old(self).rules(),
    {
        match event.code {
            KeyCode::Char(c) => {
                if event.control {
                    if c == 'a' {
                        self.move_cursor_home();
                    } else if c == 'e' {
                        self.move_cursor_end();
                    } else if c == 'u' {
                        self.clear();
                    } else {
                        return false;
                    }
                } else {
                    self.insert_char(c);
                }
                true
            },
            KeyCode::Backspace => {
                self.delete_char_before_cursor();
                true
            },
            KeyCode::Delete => {
                self.delete_char_at_cursor();
                true
            },
            KeyCode::Left => {
                self.move_cursor_left();
                true
            },
            KeyCode::Right => {
                self.move_cursor_right();
                true
            },
            KeyCode::Home => {
                self.move_cursor_home();
                true
            },
            KeyCode::End => {
                self.move_cursor_end();
                true
            },
            _ => false,
        }
    }

    fn on_focus(&mut self)
        ensures
            final(self)@ == old(self)@.with_edit(old(self)@.edit().focus()),
            final(self).rules() == old(self).rules(),
    {
        proof {
            use_type_invariant(&*self);
        }
        let n = char_count(self.value.as_str());
        self.selection = Some((0, n));
        self.cursor_position = n;
    }

    fn on_blur(&mut self)
        ensures
            final(self)@ == old(self)@.with_edit(old(self)@.edit().blur()),
            final(self).rules() == old(self).rules(),
    {
        proof {
            use_type_invariant(&*self);
        }
        self.selection = None;
    }

    fn validate(&self) -> (r: Result<(), Vec<String>>) {
        let mut errors: Vec<String> = Vec::new();
        // Check required
        if self.required && is_blank_str(self.value.as_str()) {
            errors.push(required_error(self.label.as_str()));
        }
        let ghost head = strings_view(errors@);
        assert(head =~= (if self@.required && crate::text::is_blank(self@.value) {
            seq![crate::field::required_message(self@.label)]
        } else {
            Seq::<Seq<char>>::empty()
        }));
        // Run validators
        run_validators(&self.validators, self.value.as_str(), &mut errors);
        if errors.len() == 0 {
            Ok(())
        } else {
            Err(errors)
        }
    }

    fn height(&self) -> (r: u16)
        ensures
            r == 1,
    {
        1
    }
}

/// Home and Ctrl+A put the cursor before the first character, End and
/// Ctrl+E after the last; the value stays and any selection goes. Ctrl+U
/// empties the value.
pub proof fn lemma_line_keys_move_to_the_ends(e: SelectionEdit, key: KeyPress)
    ensures
        key.code is Home || (key.code == KeyCode::Char('a') && key.control) ==> e.key(key).1 && e.key(key).0 == (
        SelectionEdit { value: e.value, cursor: 0, selection: None }),
        key.code is End || (key.code == KeyCode::Char('e') && key.control) ==> e.key(key).1 && e.key(key).0 == (
        SelectionEdit { value: e.value, cursor: e.value.len(), selection: None }),
        key.code == KeyCode::Char('u') && key.control ==> e.key(key).1 && e.key(key).0.value.len() == 0
            && e.key(key).0.cursor == 0 && e.key(key).0.selection is None,
{
}

/// After Home, a typed character comes first, before the whole value.
pub proof fn lemma_home_then_typing_prepends(e: SelectionEdit, home: KeyPress, typed: KeyPress, c: char)
    requires
        e.value.len() < usize::MAX,
        home.code is Home,
        typed.code == KeyCode::Char(c),
        !typed.control,
    ensures
        e.key(home).0.key(typed).0.value == seq![c] + e.value,
        e.key(home).0.key(typed).0.cursor == 1,
{
    let h = e.key(home).0;
    assert(h.plain().value.take(0) =~= Seq::<char>::empty());
    assert(h.plain().value.skip(0) =~= e.value);
    assert(h.key(typed).0.value =~= seq![c] + e.value);
}

/// Without a selection, a typed character goes in at the cursor, between
/// the value before and after it, and the cursor goes after it.
pub proof fn lemma_typing_inserts_at_cursor(e: SelectionEdit, c: char)
    requires
        e.wf(),
        e.selection is None,
        e.value.len() < usize::MAX,
    ensures
        e.insert(c).value.len() == e.value.len() + 1,
        e.insert(c).value[e.cursor as int] == c,
        e.insert(c).value.take(e.cursor as int) == e.value.take(e.cursor as int),
        e.insert(c).value.skip(e.cursor as int + 1) == e.value.skip(e.cursor as int),
        e.insert(c).cursor == e.cursor + 1,
        e.insert(c).selection is None,
{
    crate::field::lemma_typing_inserts_at_cursor(e.plain(), c);
}

/// With the value selected on focus, the first character typed replaces the
/// whole value.
pub proof fn lemma_typing_after_focus_replaces(e: SelectionEdit, c: char)
    requires
        e.wf(),
        e.value.len() < usize::MAX,
    ensures
        e.focus().insert(c).value == seq![c],
        e.focus().insert(c).cursor == 1,
        e.focus().insert(c).selection is None,
{
    let f = e.focus();
    assert(f.value.take(0) =~= Seq::<char>::empty());
    assert(f.value.skip(f.value.len() as int) =~= Seq::<char>::empty());
    assert(f.insert(c).value =~= seq![c]);
}

/// Pressing End after gaining focus drops the selection, so typing appends.
pub proof fn lemma_end_then_typing_appends(e: SelectionEdit, c: char)
    requires
        e.wf(),
        e.value.len() < usize::MAX,
    ensures
        e.focus().end().insert(c).value == e.value.push(c),
{
    let f = e.focus().end();
    crate::field::lemma_insert_at_end_appends(f.plain(), c);
}

/// Backspace right after gaining focus empties the field.
pub proof fn lemma_backspace_after_focus_clears(e: SelectionEdit)
    requires
        e.wf(),
    ensures
        e.focus().backspace().value.len() == 0,
        e.focus().backspace().cursor == 0,
{
    let f = e.focus();
    assert(f.value.take(0) =~= Seq::<char>::empty());
    assert(f.value.skip(f.value.len() as int) =~= Seq::<char>::empty());
}

/// Losing focus keeps the value and the cursor, and drops the selection.
pub proof fn lemma_blur_keeps_value(e: SelectionEdit)
    ensures
        e.blur().value == e.value,
        e.blur().cursor == e.cursor,
        e.blur().selection is None,
{
}

/// Every key keeps the cursor within the value.
pub proof fn lemma_key_keeps_cursor_in_value(e: SelectionEdit, key: KeyPress)
    requires
        e.wf(),
    ensures
        e.key(key).0.wf(),
{
}

/// Without a selection a key does what it does to a plain text edit.
pub proof fn lemma_key_without_selection_is_plain(e: SelectionEdit, key: KeyPress)
    requires
        e.wf(),
        e.selection is None,
        e.value.len() < usize::MAX,
    ensures
        e.key(key).0.plain() == e.plain().key(key).0,
        e.key(key).1 == e.plain().key(key).1,
{
}

/// The cursor keys (arrows, Home, End) drop the selection and keep the value.
pub proof fn lemma_cursor_keys_drop_selection(e: SelectionEdit, key: KeyPress)
    requires
        e.wf(),
        key.code is Left || key.code is Right || key.code is Home || key.code is End,
    ensures
        e.key(key).0.selection is None,
        e.key(key).0.value == e.value,
        e.key(key).1,
{
}

/// After gaining focus, the right arrow drops the selection and keeps the
/// cursor at the end, so what is typed next is appended.
pub proof fn lemma_right_then_typing_appends(e: SelectionEdit, c: char)
    requires
        e.wf(),
        e.value.len() < usize::MAX,
    ensures
        e.focus().right().insert(c).value == e.value.push(c),
{
    let f = e.focus().right();
    assert(f.cursor == e.value.len());
    crate::field::lemma_insert_at_end_appends(f.plain(), c);
}

/// After gaining focus, the left arrow drops the selection and keeps the
/// cursor at the end, so what is typed next is appended.
pub proof fn lemma_left_then_typing_appends(e: SelectionEdit, c: char)
    requires
        e.wf(),
        e.value.len() < usize::MAX,
    ensures
        e.focus().left().insert(c).value == e.value.push(c),
{
    let f = e.focus().left();
    assert(f.cursor == e.value.len());
    crate::field::lemma_insert_at_end_appends(f.plain(), c);
}

/// Without a selection, Backspace right after typing a character undoes it:
/// the value and the cursor are as before.
pub proof fn lemma_backspace_undoes_typing(e: SelectionEdit, c: char)
    requires
        e.wf(),
        e.selection is None,
        e.value.len() < usize::MAX,
    ensures
        e.insert(c).backspace() == e,
{
    crate::field::lemma_backspace_undoes_insert(e.plain(), c);
}

} // verus!
