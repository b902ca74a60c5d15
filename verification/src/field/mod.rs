//! Field types for form inputs.

use vstd::prelude::*;

pub mod checkbox;
pub mod select;
pub mod text;

pub use checkbox::Checkbox;
pub use select::Select;
pub use text::TextInput;

use crate::key::{KeyCode, KeyPress};
use crate::render::{Area, DrawOp};
use crate::text::{concat_str, is_blank};
use crate::validation::{Rule, Validator};

verus! {

/// Trait for form fields.
pub trait Field: Send + Sync {
    /// The display label.
    spec fn label_text(&self) -> Seq<char>;

    /// The current value as text.
    spec fn value_text(&self) -> Seq<char>;

    /// The current value as a boolean, for fields that hold one.
    spec fn value_flag(&self) -> Option<bool>;

    /// The messages that validating the field reports; none when it is valid.
    spec fn error_list(&self) -> Seq<Seq<char>>;

    /// Returns the display label for this field.
    fn label(&self) -> (r: &str)
        ensures
            r@ == self.label_text(),
    ;

    /// Returns the current value of the field as a string.
    fn value_str(&self) -> (r: String)
        ensures
            r@ == self.value_text(),
    ;

    /// Returns the current value of the field as a boolean, if it is one.
    fn value_bool(&self) -> (r: Option<bool>)
        ensures
            r == self.value_flag(),
    ;

    /// What the field draws into `area`.
    fn render(&self, area: Area, focused: bool) -> Vec<DrawOp>
        requires
            area.fits(),
    ;

    /// Handles keyboard input. Returns true if the input was consumed.
    fn handle_input(&mut self, event: &KeyPress) -> bool;

    /// Validates the field and returns any error messages.
    fn validate(&self) -> (r: Result<(), Vec<String>>)
        ensures
            r is Ok <==> self.error_list().len() == 0,
            r matches Err(v) ==> strings_view(v@) == self.error_list(),
    ;

    /// Returns the height needed to render this field.
    fn height(&self) -> u16;

    /// Returns whether this field is required.
    fn is_required(&self) -> bool;
}

/// The texts of a list of strings.
pub open spec fn strings_view(v: Seq<String>) -> Seq<Seq<char>> {
    v.map_values(|s: String| s@)
}

/// The messages of the validators in `rules` that refuse `value`, in order.
pub open spec fn rule_errors(rules: Seq<Rule>, value: Seq<char>) -> Seq<Seq<char>>
    decreases rules.len(),
{
    if rules.len() == 0 {
        Seq::empty()
    } else {
        let rest = rule_errors(rules.drop_last(), value);
        if rules.last().accepts(value) {
            rest
        } else {
            rest.push(rules.last().refusal(value))
        }
    }
}

/// The message of a required field left blank.
pub open spec fn required_message(label: Seq<char>) -> Seq<char> {
    label + " is required"@
}

/// What validating a text field reports: the required check, then each validator.
pub open spec fn text_errors(
    label: Seq<char>,
    required: bool,
    rules: Seq<Rule>,
    value: Seq<char>,
) -> Seq<Seq<char>> {
    let head = if required && is_blank(value) {
        seq![required_message(label)]
    } else {
        Seq::<Seq<char>>::empty()
    };
    head + rule_errors(rules, value)
}

/// Runs the validators in order and appends the message of each that refuses `value`.
pub(crate) fn run_validators(rules: &Vec<Rule>, value: &str, errors: &mut Vec<String>)
    ensures
        strings_view(final(errors)@) == strings_view(old(errors)@) + rule_errors(rules@, value@),
{
    let mut i: usize = 0;
    while i < rules.len()
        invariant
            i <= rules@.len(),
            strings_view(errors@) == strings_view(old(errors)@) + rule_errors(rules@.take(i as int), value@),
        decreases rules@.len() - i,
    {
        let ghost before = errors@;
        let outcome = rules[i].validate(value);
        proof {
            assert(rules@.take(i + 1).drop_last() =~= rules@.take(i as int));
            assert(rules@.take(i + 1).last() == rules@[i as int]);
        }
        match outcome {
            Err(msg) => {
                errors.push(msg);
                assert(strings_view(errors@) =~= strings_view(before).push(msg@));
            },
            Ok(()) => {},
        }
        i = i + 1;
    }
    assert(rules@.take(rules@.len() as int) =~= rules@);
}

/// The message of a required field left blank.
pub(crate) fn required_error(label: &str) -> (r: String)
    ensures
        r@ == required_message(label@),
{
    concat_str(label, " is required")
}

/// Editing state of a single-line text: the value and a cursor between characters.
pub struct TextEdit {
    pub value: Seq<char>,
    pub cursor: nat,
}

impl TextEdit {
    pub open spec fn wf(self) -> bool {
        self.cursor <= self.value.len()
    }

    /// Types `c` at the cursor. A value already `usize::MAX` characters long
    /// (more than memory holds) is left as it is.
    pub open spec fn insert(self, c: char) -> TextEdit {
        if self.value.len() < usize::MAX {
            TextEdit {
                value: self.value.take(self.cursor as int).push(c) + self.value.skip(self.cursor as int),
                cursor: self.cursor + 1,
            }
        } else {
            self
        }
    }

    /// Deletes the character before the cursor.
    pub open spec fn backspace(self) -> TextEdit {
        if self.cursor > 0 {
            TextEdit {
                value: self.value.take(self.cursor - 1) + self.value.skip(self.cursor as int),
                cursor: (self.cursor - 1) as nat,
            }
        } else {
            self
        }
    }

    /// Deletes the character at the cursor.
    pub open spec fn delete(self) -> TextEdit {
        if self.cursor < self.value.len() {
            TextEdit {
                value: self.value.take(self.cursor as int) + self.value.skip(self.cursor as int + 1),
                cursor: self.cursor,
            }
        } else {
            self
        }
    }

    pub open spec fn left(self) -> TextEdit {
        if self.cursor > 0 {
            TextEdit { cursor: (self.cursor - 1) as nat, ..self }
        } else {
            self
        }
    }

    pub open spec fn right(self) -> TextEdit {
        if self.cursor < self.value.len() {
            TextEdit { cursor: self.cursor + 1, ..self }
        } else {
            self
        }
    }

    pub open spec fn home(self) -> TextEdit {
        TextEdit { cursor: 0, ..self }
    }

    pub open spec fn end(self) -> TextEdit {
        TextEdit { cursor: self.value.len(), ..self }
    }

    pub open spec fn clear(self) -> TextEdit {
        TextEdit { value: Seq::empty(), cursor: 0 }
    }

    /// What a key press does to the text, and whether the key was consumed.
    pub open spec fn key(self, key: KeyPress) -> (TextEdit, bool) {
        match key.code {
            KeyCode::Char(c) => if key.control {
                if c == 'a' {
                    (self.home(), true)
                } else if c == 'e' {
                    (self.end(), true)
                } else if c == 'u' {
                    (self.clear(), true)
                } else {
                    (self, false)
                }
            } else {
                (self.insert(c), true)
            },
            KeyCode::Backspace => (self.backspace(), true),
            KeyCode::Delete => (self.delete(), true),
            KeyCode::Left => (self.left(), true),
            KeyCode::Right => (self.right(), true),
            KeyCode::Home => (self.home(), true),
            KeyCode::End => (self.end(), true),
            _ => (self, false),
        }
    }
}

/// Home and Ctrl+A put the cursor before the first character, End and
/// Ctrl+E after the last, keeping the text; Ctrl+U empties it.
pub proof fn lemma_line_keys_move_to_the_ends(e: TextEdit, key: KeyPress)
    ensures
        key.code is Home || (key.code == KeyCode::Char('a') && key.control) ==> e.key(key).1 && e.key(key).0.cursor
            == 0 && e.key(key).0.value == e.value,
        key.code is End || (key.code == KeyCode::Char('e') && key.control) ==> e.key(key).1 && e.key(key).0.cursor
            == e.value.len() && e.key(key).0.value == e.value,
        key.code == KeyCode::Char('u') && key.control ==> e.key(key).1 && e.key(key).0.cursor == 0
            && e.key(key).0.value.len() == 0,
{
}

/// Left and Right move the cursor by one character, staying within the text;
/// the text stays as it is.
pub proof fn lemma_arrows_move_cursor_by_one(e: TextEdit, key: KeyPress)
    requires
        e.wf(),
        key.code is Left || key.code is Right,
    ensures
        e.key(key).1,
        e.key(key).0.value == e.value,
        key.code is Left && e.cursor > 0 ==> e.key(key).0.cursor + 1 == e.cursor,
        key.code is Left && e.cursor == 0 ==> e.key(key).0.cursor == 0,
        key.code is Right && e.cursor < e.value.len() ==> e.key(key).0.cursor == e.cursor + 1,
        key.code is Right && e.cursor == e.value.len() ==> e.key(key).0.cursor == e.cursor,
{
}

/// Typing a character puts it at the cursor, between the text before and
/// after the cursor, and the cursor goes after it.
pub proof fn lemma_typing_inserts_at_cursor(e: TextEdit, c: char)
    requires
        e.wf(),
        e.value.len() < usize::MAX,
    ensures
        e.insert(c).value.len() == e.value.len() + 1,
        e.insert(c).value[e.cursor as int] == c,
        e.insert(c).value.take(e.cursor as int) == e.value.take(e.cursor as int),
        e.insert(c).value.skip(e.cursor as int + 1) == e.value.skip(e.cursor as int),
        e.insert(c).cursor == e.cursor + 1,
{
    let v = e.insert(c).value;
    assert(v.take(e.cursor as int) =~= e.value.take(e.cursor as int));
    assert(v.skip(e.cursor as int + 1) =~= e.value.skip(e.cursor as int));
}

/// Backspace undoes typing a character.
pub proof fn lemma_backspace_undoes_insert(e: TextEdit, c: char)
    requires
        e.wf(),
        e.value.len() < usize::MAX,
    ensures
        e.insert(c).backspace() == e,
        e.insert(c).wf(),
{
    let i = e.insert(c);
    assert(i.value.take(e.cursor as int) =~= e.value.take(e.cursor as int));
    assert(i.value.skip(e.cursor as int + 1) =~= e.value.skip(e.cursor as int));
    assert(i.backspace().value =~= e.value);
}

/// Typing a character, then stepping left and deleting it, restores the text.
pub proof fn lemma_delete_undoes_insert(e: TextEdit, c: char)
    requires
        e.wf(),
        e.value.len() < usize::MAX,
    ensures
        e.insert(c).left().delete() == e,
{
    let i = e.insert(c);
    assert(i.value.take(e.cursor as int) =~= e.value.take(e.cursor as int));
    assert(i.value.skip(e.cursor as int + 1) =~= e.value.skip(e.cursor as int));
    assert(i.left().delete().value =~= e.value);
}

/// Every key keeps the cursor within the text, and cursor keys leave the text alone.
pub proof fn lemma_key_keeps_cursor_in_text(e: TextEdit, key: KeyPress)
    requires
        e.wf(),
    ensures
        e.key(key).0.wf(),
        (key.code is Left || key.code is Right || key.code is Home || key.code is End)
            ==> e.key(key).0.value == e.value,
{
}

/// Typing at the end of a text appends the character.
pub proof fn lemma_insert_at_end_appends(e: TextEdit, c: char)
    requires
        e.cursor == e.value.len(),
        e.value.len() < usize::MAX,
    ensures
        e.insert(c).value == e.value.push(c),
        e.insert(c).cursor == e.insert(c).value.len(),
{
    assert(e.value.take(e.cursor as int) =~= e.value);
    assert(e.value.skip(e.cursor as int) =~= Seq::<char>::empty());
    assert(e.insert(c).value =~= e.value.push(c));
}

/// The validators report nothing exactly when each of them accepts the value.
pub proof fn lemma_no_rule_errors_iff_all_accept(rules: Seq<Rule>, value: Seq<char>)
    ensures
        rule_errors(rules, value).len() == 0 <==> forall|i: int| 0 <= i < rules.len() ==> #[trigger] rules[i].accepts(
            value,
        ),
    decreases rules.len(),
{
    if rules.len() > 0 {
        let init = rules.drop_last();
        lemma_no_rule_errors_iff_all_accept(init, value);
        assert forall|i: int| 0 <= i < init.len() implies init[i] == rules[i] by {}
        if forall|i: int| 0 <= i < rules.len() ==> #[trigger] rules[i].accepts(value) {
            assert(rules[rules.len() - 1].accepts(value));
            assert forall|i: int| 0 <= i < init.len() implies #[trigger] init[i].accepts(value) by {
                assert(rules[i].accepts(value));
            }
        }
        if rule_errors(rules, value).len() == 0 {
            assert forall|i: int| 0 <= i < rules.len() implies #[trigger] rules[i].accepts(value) by {
                if i < rules.len() - 1 {
                    assert(init[i].accepts(value));
                }
            }
        }
    }
}

/// Validators run one after the other: the messages of two lists run in turn
/// are those of the first list followed by those of the second.
pub proof fn lemma_rule_errors_concat(first: Seq<Rule>, second: Seq<Rule>, value: Seq<char>)
    ensures
        rule_errors(first + second, value) == rule_errors(first, value) + rule_errors(second, value),
    decreases second.len(),
{
    if second.len() == 0 {
        assert(first + second =~= first);
        assert(rule_errors(first, value) + rule_errors(second, value) =~= rule_errors(first, value));
    } else {
        lemma_rule_errors_concat(first, second.drop_last(), value);
        assert((first + second).drop_last() =~= first + second.drop_last());
        assert((first + second).last() == second.last());
        let a = rule_errors(first, value);
        let b = rule_errors(second.drop_last(), value);
        if !second.last().accepts(value) {
            assert((a + b).push(second.last().refusal(value)) =~= a + b.push(second.last().refusal(value)));
        }
    }
}

/// Every validator that refuses the value has its message reported.
pub proof fn lemma_refusal_is_reported(rules: Seq<Rule>, value: Seq<char>, i: int)
    requires
        0 <= i < rules.len(),
        !rules[i].accepts(value),
    ensures
        rule_errors(rules, value).contains(rules[i].refusal(value)),
    decreases rules.len(),
{
    let rest = rule_errors(rules.drop_last(), value);
    if i == rules.len() - 1 {
        assert(rule_errors(rules, value) == rest.push(rules[i].refusal(value)));
        assert(rule_errors(rules, value)[rest.len() as int] == rules[i].refusal(value));
    } else {
        assert(rules.drop_last()[i] == rules[i]);
        lemma_refusal_is_reported(rules.drop_last(), value, i);
        let k = choose|k: int| 0 <= k < rest.len() && rest[k] == rules[i].refusal(value);
        assert(rule_errors(rules, value)[k] == rest[k]);
    }
}

/// A field whose validators are one optional rule followed by a list runs
/// them all: its messages are the rule's refusal, when it refuses, then those
/// of the list; each refusing validator of the list is reported; and the
/// field is valid exactly when it is not a blank required field and the rule
/// and every validator of the list accept its value.
pub proof fn lemma_rule_then_list(
    rule: Option<Rule>,
    list: Seq<Rule>,
    label: Seq<char>,
    required: bool,
    value: Seq<char>,
)
    ensures
        ({
            let rules = match rule {
                Some(r) => seq![r] + list,
                None => list,
            };
            &&& rule_errors(rules, value) == (match rule {
                Some(r) => if r.accepts(value) {
                    Seq::<Seq<char>>::empty()
                } else {
                    seq![r.refusal(value)]
                },
                None => Seq::<Seq<char>>::empty(),
            }) + rule_errors(list, value)
            &&& forall|i: int|
                0 <= i < list.len() && !(#[trigger] list[i]).accepts(value) ==> rule_errors(rules, value).contains(
                    list[i].refusal(value),
                )
            &&& text_errors(label, required, rules, value).len() == 0 <==> (!(required && is_blank(value)) && (
            rule matches Some(r) ==> r.accepts(value)) && forall|i: int|
                0 <= i < list.len() ==> #[trigger] list[i].accepts(value))
        }),
{
    let rules = match rule {
        Some(r) => seq![r] + list,
        None => list,
    };
    lemma_text_field_valid_iff(label, required, rules, value);
    lemma_no_rule_errors_iff_all_accept(list, value);
    match rule {
        Some(r) => {
            lemma_rule_errors_concat(seq![r], list, value);
            assert(seq![r].drop_last() =~= Seq::<Rule>::empty());
            assert(rule_errors(Seq::<Rule>::empty(), value) =~= Seq::<Seq<char>>::empty());
            assert forall|i: int| 0 <= i < list.len() implies rules[i + 1] == list[i] by {}
            assert forall|i: int|
                0 <= i < list.len() && !(#[trigger] list[i]).accepts(value) implies rule_errors(rules, value).contains(
                list[i].refusal(value),
            ) by {
                lemma_refusal_is_reported(rules, value, i + 1);
            }
            if forall|i: int| 0 <= i < rules.len() ==> #[trigger] rules[i].accepts(value) {
                assert(rules[0].accepts(value));
                assert forall|i: int| 0 <= i < list.len() implies #[trigger] list[i].accepts(value) by {
                    assert(rules[i + 1].accepts(value));
                }
            }
            if r.accepts(value) && forall|i: int| 0 <= i < list.len() ==> #[trigger] list[i].accepts(value) {
                assert forall|i: int| 0 <= i < rules.len() implies #[trigger] rules[i].accepts(value) by {
                    if i > 0 {
                        assert(list[i - 1].accepts(value));
                    }
                }
            }
        },
        None => {
            assert forall|i: int|
                0 <= i < list.len() && !(#[trigger] list[i]).accepts(value) implies rule_errors(rules, value).contains(
                list[i].refusal(value),
            ) by {
                lemma_refusal_is_reported(rules, value, i);
            }
            assert(Seq::<Seq<char>>::empty() + rule_errors(list, value) =~= rule_errors(list, value));
        },
    }
}

/// A text field reports nothing exactly when it is not a blank required
/// field and every validator accepts its value.
pub proof fn lemma_text_field_valid_iff(label: Seq<char>, required: bool, rules: Seq<Rule>, value: Seq<char>)
    ensures
        text_errors(label, required, rules, value).len() == 0 <==> (!(required && is_blank(value)) && forall|i: int|
            0 <= i < rules.len() ==> #[trigger] rules[i].accepts(value)),
{
    lemma_no_rule_errors_iff_all_accept(rules, value);
}

} // verus!
