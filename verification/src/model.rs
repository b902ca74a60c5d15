//! Typed form support: a model struct rendered as a form and read back.

use vstd::prelude::*;

use crate::form::Form;
use crate::text::{push_char, push_decimal, to_owned_string};

verus! {

/// An error produced while extracting a model from a [`Form`].
#[derive(Debug, Clone, PartialEq, Eq)]
pub struct FormExtractError {
    /// The index of the field that failed.
    pub field_index: usize,
    /// The name of the field that failed (if available).
    pub field_name: String,
    /// A description of the failure.
    pub message: String,
}

impl FormExtractError {
    /// Creates a new extraction error.
    pub fn new(field_index: usize, field_name: &str, message: &str) -> (r: Self)
        ensures
            r.field_index == field_index,
            r.field_name@ == field_name@,
            r.message@ == message@,
    {
        Self {
            field_index,
            field_name: to_owned_string(field_name),
            message: to_owned_string(message),
        }
    }

    /// The error as text: `field <index>: <message>`, with ` (<name>)` after
    /// the index when the error has a field name.
    pub fn describe(&self) -> (r: String)
        ensures
            r@ == extract_error_text(self.field_index as nat, self.field_name@, self.message@),
    {
        let mut s = String::from_str("field ");
        push_decimal(&mut s, self.field_index as u128);
        if self.field_name.as_str().unicode_len() > 0 {
            s.append(" (");
            s.append(self.field_name.as_str());
            push_char(&mut s, ')');
        }
        s.append(": ");
        s.append(self.message.as_str());
        proof {
            reveal_strlit("field ");
            reveal_strlit(" (");
            reveal_strlit(": ");
        }
        assert(s@ =~= extract_error_text(self.field_index as nat, self.field_name@, self.message@));
        s
    }
}

/// The text of an extraction error.
pub open spec fn extract_error_text(index: nat, name: Seq<char>, message: Seq<char>) -> Seq<char> {
    if name.len() == 0 {
        "field "@ + crate::text::decimal(index) + ": "@ + message
    } else {
        "field "@ + crate::text::decimal(index) + " ("@ + name + seq![')'] + ": "@ + message
    }
}

/// A model type that can be rendered as a [`Form`].
///
/// Implementations build a form with one field per model field, in order;
/// the model is read back from the form through `TryFrom<Form>`.
pub trait FormModel: Sized {
    /// Returns a [`Form`] seeded with this struct's current values.
    fn get_form(&self) -> Form;
}

} // verus!
