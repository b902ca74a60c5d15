//! Validation traits and types.

use vstd::prelude::*;

use ip::Ipv4;
use ipv6::Ipv6;
use numeric::Numeric;
use text::{Email, MaxLength, MinLength, Pattern, Required};

pub mod ip;
pub mod ipv6;
pub mod numeric;
pub mod rules;
pub mod text;

verus! {

/// A validation error for a specific field.
#[derive(Debug, Clone)]
pub struct ValidationError {
    /// The index of the field that failed validation.
    pub field_index: usize,
    /// The error message.
    pub message: String,
}

/// The text that the specification functions of validators take.
pub type Chars = Seq<char>;

/// Trait for field validators.
pub trait Validator: Send + Sync {
    /// Whether this validator accepts `value`.
    spec fn accepts(&self, value: Seq<char>) -> bool;

    /// The message reported when `value` is refused.
    spec fn refusal(&self, value: Seq<char>) -> Seq<char>;

    /// Validates a value and returns an error message if invalid.
    fn validate(&self, value: &str) -> (r: Result<(), String>)
        ensures
            r is Ok <==> self.accepts(value@),
            r matches Err(m) ==> m@ == self.refusal(value@),
    ;
}

/// A validator held by a field: one of the built-in rules, or any other
/// validator.
pub enum Rule {
    Required(Required),
    Email(Email),
    MinLength(MinLength),
    MaxLength(MaxLength),
    Numeric(Numeric),
    Ipv4(Ipv4),
    Ipv6(Ipv6),
    Pattern(Pattern),
    Custom(Box<dyn Validator>),
}

impl Validator for Rule {
    open spec fn accepts(&self, value: Seq<char>) -> bool {
        match self {
            Rule::Required(v) => v.accepts(value),
            Rule::Email(v) => v.accepts(value),
            Rule::MinLength(v) => v.accepts(value),
            Rule::MaxLength(v) => v.accepts(value),
            Rule::Numeric(v) => v.accepts(value),
            Rule::Ipv4(v) => v.accepts(value),
            Rule::Ipv6(v) => v.accepts(value),
            Rule::Pattern(v) => v.accepts(value),
            Rule::Custom(v) => v.accepts(value),
        }
    }

    open spec fn refusal(&self, value: Seq<char>) -> Seq<char> {
        match self {
            Rule::Required(v) => v.refusal(value),
            Rule::Email(v) => v.refusal(value),
            Rule::MinLength(v) => v.refusal(value),
            Rule::MaxLength(v) => v.refusal(value),
            Rule::Numeric(v) => v.refusal(value),
            Rule::Ipv4(v) => v.refusal(value),
            Rule::Ipv6(v) => v.refusal(value),
            Rule::Pattern(v) => v.refusal(value),
            Rule::Custom(v) => v.refusal(value),
        }
    }

    fn validate(&self, value: &str) -> (r: Result<(), String>) {
        match self {
            Rule::Required(v) => v.validate(value),
            Rule::Email(v) => v.validate(value),
            Rule::MinLength(v) => v.validate(value),
            Rule::MaxLength(v) => v.validate(value),
            Rule::Numeric(v) => v.validate(value),
            Rule::Ipv4(v) => v.validate(value),
            Rule::Ipv6(v) => v.validate(value),
            Rule::Pattern(v) => v.validate(value),
            Rule::Custom(v) => v.validate(value),
        }
    }
}

/// Every built-in rule but `Required` leaves an empty value alone: emptiness
/// is for `Required` to refuse.
pub proof fn lemma_built_in_rules_accept_empty(r: Rule)
    requires
        !(r is Required),
        !(r is Custom),
    ensures
        r.accepts(Seq::empty()),
{
}

} // verus!
