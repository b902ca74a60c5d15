//! Field types: how a value type becomes a field widget and is read back
//! from that widget.

use vstd::prelude::*;

use crate::field::checkbox::CheckboxState;
use crate::field::text::opt_view;
use crate::field::{lemma_rule_then_list, rule_errors, text_errors};
use crate::field_base::text::BaseTextState;
use crate::field_base::{BasicFieldType, Checkbox, TextInput};
use crate::form_value::{FieldSpec, seeded_rules};
use crate::text::{decimal, format_signed, format_unsigned, is_blank, parse_integer_in, parse_signed, parse_unsigned,
    signed_decimal, to_owned_string};
use crate::validation::ip::{Ipv4, Ipv4Address, is_dotted_quad, quad_text};
use crate::validation::ipv6::{Ipv6, Ipv6Address, ipv6_segments, ipv6_text, segs_view};
use crate::validation::numeric::Numeric;
use crate::validation::{Rule, Validator};

verus! {

/// Configuration for building a form field from a model value.
pub struct FieldAttributes {
    /// Display label of the field.
    pub label: String,
    /// Optional placeholder text.
    pub placeholder: Option<String>,
    /// Whether the field is required.
    pub required: bool,
    /// Validators applied to the field's string value.
    pub validators: Vec<Rule>,
}

/// The text input that attributes and a seed value describe.
pub open spec fn attributed_text(spec: FieldAttributes, value: Seq<char>, required: bool) -> BaseTextState {
    BaseTextState {
        label: spec.label@,
        value,
        cursor: value.len(),
        selection: None,
        placeholder: opt_view(spec.placeholder),
        required,
    }
}

/// The validators of an attributed text input: the type's own rule first.
pub open spec fn attributed_rules(rule: Option<Rule>, spec: FieldAttributes) -> Seq<Rule> {
    match rule {
        Some(r) => seq![r] + spec.validators@,
        None => spec.validators@,
    }
}

/// An attributed text input runs the type's own rule first and then every
/// validator of the attributes, in order, none left out: its messages are the
/// rule's refusal, when it refuses, followed by those of the attributes'
/// validators; each refusing validator is reported; and it is valid exactly
/// when it is not a blank required field and the rule and every validator of
/// the attributes accept its value.
pub proof fn lemma_attributed_fields_run_every_validator(
    rule: Option<Rule>,
    spec: FieldAttributes,
    required: bool,
    value: Seq<char>,
)
    ensures
        rule_errors(attributed_rules(rule, spec), value) == (match rule {
            Some(r) => if r.accepts(value) {
                Seq::<Seq<char>>::empty()
            } else {
                seq![r.refusal(value)]
            },
            None => Seq::<Seq<char>>::empty(),
        }) + rule_errors(spec.validators@, value),
        forall|i: int|
            0 <= i < spec.validators@.len() && !(#[trigger] spec.validators@[i]).accepts(value) ==> rule_errors(
                attributed_rules(rule, spec),
                value,
            ).contains(spec.validators@[i].refusal(value)),
        text_errors(spec.label@, required, attributed_rules(rule, spec), value).len() == 0 <==> (!(required
            && is_blank(value)) && (rule matches Some(r) ==> r.accepts(value)) && forall|i: int|
            0 <= i < spec.validators@.len() ==> #[trigger] spec.validators@[i].accepts(value)),
{
    lemma_rule_then_list(rule, spec.validators@, spec.label@, required, value);
}

/// A value type that can be rendered in a form and read back from it.
pub trait FieldType: Sized {
    /// Type of the Form Field widget (e.g. `TextInput`, `Checkbox`, `Select`).
    type BaseFieldType: BasicFieldType;

    /// Builds a form field widget seeded with `value`.
    fn form_field(spec: FieldAttributes, value: &Self) -> Self::BaseFieldType;

    /// Extracts a value of this type from the field widget.
    fn form_extract(field: &Self::BaseFieldType) -> Result<Self, String>;
}

/// Builds a text input from attributes, seeded with `value`.
///
/// `rule` is an optional type-specific validator (e.g. `Numeric`); it is
/// applied before any validators supplied in the attributes.
pub(crate) fn text_input(spec: FieldAttributes, value: &str, rule: Option<Rule>) -> (r: TextInput)
    ensures
        r@ == attributed_text(spec, value@, spec.required),
        r.rules() == attributed_rules(rule, spec),
{
    let FieldAttributes { label, placeholder, required, validators } = spec;
    crate::form_value::text_input(FieldSpec { label, placeholder, required, validators }, value, rule)
}

impl FieldType for bool {
    type BaseFieldType = Checkbox;

    fn form_field(spec: FieldAttributes, value: &Self) -> (r: Checkbox)
        ensures
            r@ == (CheckboxState { label: spec.label@, checked: *value, required: spec.required }),
    {
        let mut checkbox = Checkbox::new(spec.label.as_str());
        if spec.required {
            checkbox = checkbox.required();
        }
        checkbox.checked(*value)
    }

    fn form_extract(field: &Checkbox) -> (r: Result<Self, String>)
        ensures
            r == Ok::<bool, String>(field@.checked),
    {
        Ok(field.is_checked())
    }
}

impl FieldType for String {
    type BaseFieldType = TextInput;

    fn form_field(spec: FieldAttributes, value: &Self) -> (r: TextInput)
        ensures
            r@ == attributed_text(spec, value@, spec.required),
            r.rules() == spec.validators@,
    {
        text_input(spec, value.as_str(), None)
    }

    fn form_extract(field: &TextInput) -> (r: Result<Self, String>)
        ensures
            r matches Ok(s) && s@ == field@.value,
    {
        Ok(to_owned_string(field.value()))
    }
}

impl FieldType for Option<String> {
    type BaseFieldType = TextInput;

    fn form_field(spec: FieldAttributes, value: &Self) -> (r: TextInput)
        ensures
            r@ == attributed_text(spec, crate::form_value::text_or_empty(*value), spec.required),
            r.rules() == spec.validators@,
    {
        match value {
            Some(s) => text_input(spec, s.as_str(), None),
            None => {
                proof {
                    reveal_strlit("");
                    assert(""@ =~= Seq::<char>::empty());
                }
                text_input(spec, "", None)
            },
        }
    }

    fn form_extract(field: &TextInput) -> (r: Result<Self, String>)
        ensures
            r matches Ok(v) && (match v {
                Some(s) => field@.value.len() > 0 && s@ == field@.value,
                None => field@.value.len() == 0,
            }),
    {
        let val = field.value();
        if val.is_empty() {
            Ok(None)
        } else {
            Ok(Some(to_owned_string(val)))
        }
    }
}

/// A numeric text input, always required.
fn numeric_input(spec: FieldAttributes, text: &str) -> (r: TextInput)
    ensures
        r@ == attributed_text(spec, text@, true),
        r.rules() == attributed_rules(Some(Rule::Numeric(Numeric)), spec),
{
    text_input(spec, text, Some(Rule::Numeric(Numeric))).required()
}

/// Reading an integer from a text input: the number, or `expected a number`.
pub open spec fn integer_from_text(text: Seq<char>, signed: bool, min: int, max: int) -> Result<int, Seq<char>> {
    match parse_integer_in(text, signed, min, max) {
        Some(v) => Ok(v),
        None => Err("expected a number"@),
    }
}

fn extract_unsigned(field: &TextInput, max: u128) -> (r: Result<u128, String>)
    ensures
        match (r, integer_from_text(field@.value, false, 0, max as int)) {
            (Ok(v), Ok(w)) => v == w,
            (Err(e), Err(m)) => e@ == m,
            _ => false,
        },
{
    match parse_unsigned(field.value(), max) {
        Some(v) => Ok(v),
        None => Err(String::from_str("expected a number")),
    }
}

fn extract_signed(field: &TextInput, min: i128, max: i128) -> (r: Result<i128, String>)
    ensures
        match (r, integer_from_text(field@.value, true, min as int, max as int)) {
            (Ok(v), Ok(w)) => v == w,
            (Err(e), Err(m)) => e@ == m,
            _ => false,
        },
{
    match parse_signed(field.value(), min, max) {
        Some(v) => Ok(v),
        None => Err(String::from_str("expected a number")),
    }
}

impl FieldType for u8 {
    type BaseFieldType = TextInput;

    fn form_field(spec: FieldAttributes, value: &Self) -> (r: TextInput)
        ensures
            r@ == attributed_text(spec, decimal(*value as nat), true),
            r.rules() == attributed_rules(Some(Rule::Numeric(Numeric)), spec),
    {
        numeric_input(spec, format_unsigned(*value as u128).as_str())
    }

    fn form_extract(field: &TextInput) -> (r: Result<Self, String>)
        ensures
            match (r, integer_from_text(field@.value, false, 0, 255 as int)) {
                (Ok(v), Ok(w)) => v == w,
                (Err(e), Err(m)) => e@ == m,
                _ => false,
            },
    {
        match extract_unsigned(field, 255) {
            Ok(v) => Ok(v as u8),
            Err(e) => Err(e),
        }
    }
}

impl FieldType for u16 {
    type BaseFieldType = TextInput;

    fn form_field(spec: FieldAttributes, value: &Self) -> (r: TextInput)
        ensures
            r@ == attributed_text(spec, decimal(*value as nat), true),
            r.rules() == attributed_rules(Some(Rule::Numeric(Numeric)), spec),
    {
        numeric_input(spec, format_unsigned(*value as u128).as_str())
    }

    fn form_extract(field: &TextInput) -> (r: Result<Self, String>)
        ensures
            match (r, integer_from_text(field@.value, false, 0, 65535 as int)) {
                (Ok(v), Ok(w)) => v == w,
                (Err(e), Err(m)) => e@ == m,
                _ => false,
            },
    {
        match extract_unsigned(field, 65535) {
            Ok(v) => Ok(v as u16),
            Err(e) => Err(e),
        }
    }
}

impl FieldType for u32 {
    type BaseFieldType = TextInput;

    fn form_field(spec: FieldAttributes, value: &Self) -> (r: TextInput)
        ensures
            r@ == attributed_text(spec, decimal(*value as nat), true),
            r.rules() == attributed_rules(Some(Rule::Numeric(Numeric)), spec),
    {
        numeric_input(spec, format_unsigned(*value as u128).as_str())
    }

    fn form_extract(field: &TextInput) -> (r: Result<Self, String>)
        ensures
            match (r, integer_from_text(field@.value, false, 0, 4294967295 as int)) {
                (Ok(v), Ok(w)) => v == w,
                (Err(e), Err(m)) => e@ == m,
                _ => false,
            },
    {
        match extract_unsigned(field, 4294967295) {
            Ok(v) => Ok(v as u32),
            Err(e) => Err(e),
        }
    }
}

impl FieldType for u64 {
    type BaseFieldType = TextInput;

    fn form_field(spec: FieldAttributes, value: &Self) -> (r: TextInput)
        ensures
            r@ == attributed_text(spec, decimal(*value as nat), true),
            r.rules() == attributed_rules(Some(Rule::Numeric(Numeric)), spec),
    {
        numeric_input(spec, format_unsigned(*value as u128).as_str())
    }

    fn form_extract(field: &TextInput) -> (r: Result<Self, String>)
        ensures
            match (r, integer_from_text(field@.value, false, 0, 18446744073709551615 as int)) {
                (Ok(v), Ok(w)) => v == w,
                (Err(e), Err(m)) => e@ == m,
                _ => false,
            },
    {
        match extract_unsigned(field, 18446744073709551615) {
            Ok(v) => Ok(v as u64),
            Err(e) => Err(e),
        }
    }
}

impl FieldType for u128 {
    type BaseFieldType = TextInput;

    fn form_field(spec: FieldAttributes, value: &Self) -> (r: TextInput)
        ensures
            r@ == attributed_text(spec, decimal(*value as nat), true),
            r.rules() == attributed_rules(Some(Rule::Numeric(Numeric)), spec),
    {
        numeric_input(spec, format_unsigned(*value as u128).as_str())
    }

    fn form_extract(field: &TextInput) -> (r: Result<Self, String>)
        ensures
            match (r, integer_from_text(field@.value, false, 0, 340282366920938463463374607431768211455 as int)) {
                (Ok(v), Ok(w)) => v == w,
                (Err(e), Err(m)) => e@ == m,
                _ => false,
            },
    {
        match extract_unsigned(field, 340282366920938463463374607431768211455u128) {
            Ok(v) => Ok(v as u128),
            Err(e) => Err(e),
        }
    }
}

impl FieldType for usize {
    type BaseFieldType = TextInput;

    fn form_field(spec: FieldAttributes, value: &Self) -> (r: TextInput)
        ensures
            r@ == attributed_text(spec, decimal(*value as nat), true),
            r.rules() == attributed_rules(Some(Rule::Numeric(Numeric)), spec),
    {
        numeric_input(spec, format_unsigned(*value as u128).as_str())
    }

    fn form_extract(field: &TextInput) -> (r: Result<Self, String>)
        ensures
            match (r, integer_from_text(field@.value, false, 0, usize::MAX as int)) {
                (Ok(v), Ok(w)) => v == w,
                (Err(e), Err(m)) => e@ == m,
                _ => false,
            },
    {
        match extract_unsigned(field, usize::MAX as u128) {
            Ok(v) => Ok(v as usize),
            Err(e) => Err(e),
        }
    }
}

impl FieldType for i8 {
    type BaseFieldType = TextInput;

    fn form_field(spec: FieldAttributes, value: &Self) -> (r: TextInput)
        ensures
            r@ == attributed_text(spec, signed_decimal(*value as int), true),
            r.rules() == attributed_rules(Some(Rule::Numeric(Numeric)), spec),
    {
        numeric_input(spec, format_signed(*value as i128).as_str())
    }

    fn form_extract(field: &TextInput) -> (r: Result<Self, String>)
        ensures
            match (r, integer_from_text(field@.value, true, -128 as int, 127 as int)) {
                (Ok(v), Ok(w)) => v == w,
                (Err(e), Err(m)) => e@ == m,
                _ => false,
            },
    {
        match extract_signed(field, -128, 127) {
            Ok(v) => Ok(v as i8),
            Err(e) => Err(e),
        }
    }
}

impl FieldType for i16 {
    type BaseFieldType = TextInput;

    fn form_field(spec: FieldAttributes, value: &Self) -> (r: TextInput)
        ensures
            r@ == attributed_text(spec, signed_decimal(*value as int), true),
            r.rules() == attributed_rules(Some(Rule::Numeric(Numeric)), spec),
    {
        numeric_input(spec, format_signed(*value as i128).as_str())
    }

    fn form_extract(field: &TextInput) -> (r: Result<Self, String>)
        ensures
            match (r, integer_from_text(field@.value, true, -32768 as int, 32767 as int)) {
                (Ok(v), Ok(w)) => v == w,
                (Err(e), Err(m)) => e@ == m,
                _ => false,
            },
    {
        match extract_signed(field, -32768, 32767) {
            Ok(v) => Ok(v as i16),
            Err(e) => Err(e),
        }
    }
}

impl FieldType for i32 {
    type BaseFieldType = TextInput;

    fn form_field(spec: FieldAttributes, value: &Self) -> (r: TextInput)
        ensures
            r@ == attributed_text(spec, signed_decimal(*value as int), true),
            r.rules() == attributed_rules(Some(Rule::Numeric(Numeric)), spec),
    {
        numeric_input(spec, format_signed(*value as i128).as_str())
    }

    fn form_extract(field: &TextInput) -> (r: Result<Self, String>)
        ensures
            match (r, integer_from_text(field@.value, true, -2147483648 as int, 2147483647 as int)) {
                (Ok(v), Ok(w)) => v == w,
                (Err(e), Err(m)) => e@ == m,
                _ => false,
            },
    {
        match extract_signed(field, -2147483648, 2147483647) {
            Ok(v) => Ok(v as i32),
            Err(e) => Err(e),
        }
    }
}

impl FieldType for i64 {
    type BaseFieldType = TextInput;

    fn form_field(spec: FieldAttributes, value: &Self) -> (r: TextInput)
        ensures
            r@ == attributed_text(spec, signed_decimal(*value as int), true),
            r.rules() == attributed_rules(Some(Rule::Numeric(Numeric)), spec),
    {
        numeric_input(spec, format_signed(*value as i128).as_str())
    }

    fn form_extract(field: &TextInput) -> (r: Result<Self, String>)
        ensures
            match (r, integer_from_text(field@.value, true, -9223372036854775808 as int, 9223372036854775807 as int)) {
                (Ok(v), Ok(w)) => v == w,
                (Err(e), Err(m)) => e@ == m,
                _ => false,
            },
    {
        match extract_signed(field, -9223372036854775808, 9223372036854775807) {
            Ok(v) => Ok(v as i64),
            Err(e) => Err(e),
        }
    }
}

impl FieldType for i128 {
    type BaseFieldType = TextInput;

    fn form_field(spec: FieldAttributes, value: &Self) -> (r: TextInput)
        ensures
            r@ == attributed_text(spec, signed_decimal(*value as int), true),
            r.rules() == attributed_rules(Some(Rule::Numeric(Numeric)), spec),
    {
        numeric_input(spec, format_signed(*value as i128).as_str())
    }

    fn form_extract(field: &TextInput) -> (r: Result<Self, String>)
        ensures
            match (r, integer_from_text(field@.value, true, i128::MIN as int, i128::MAX as int)) {
                (Ok(v), Ok(w)) => v == w,
                (Err(e), Err(m)) => e@ == m,
                _ => false,
            },
    {
        match extract_signed(field, i128::MIN, i128::MAX) {
            Ok(v) => Ok(v as i128),
            Err(e) => Err(e),
        }
    }
}

impl FieldType for isize {
    type BaseFieldType = TextInput;

    fn form_field(spec: FieldAttributes, value: &Self) -> (r: TextInput)
        ensures
            r@ == attributed_text(spec, signed_decimal(*value as int), true),
            r.rules() == attributed_rules(Some(Rule::Numeric(Numeric)), spec),
    {
        numeric_input(spec, format_signed(*value as i128).as_str())
    }

    fn form_extract(field: &TextInput) -> (r: Result<Self, String>)
        ensures
            match (r, integer_from_text(field@.value, true, isize::MIN as int, isize::MAX as int)) {
                (Ok(v), Ok(w)) => v == w,
                (Err(e), Err(m)) => e@ == m,
                _ => false,
            },
    {
        match extract_signed(field, isize::MIN as i128, isize::MAX as i128) {
            Ok(v) => Ok(v as isize),
            Err(e) => Err(e),
        }
    }
}

impl FieldType for Ipv4Address {
    type BaseFieldType = TextInput;

    fn form_field(spec: FieldAttributes, value: &Self) -> (r: TextInput)
        ensures
            r@ == attributed_text(spec, quad_text(value@), true),
            r.rules() == attributed_rules(Some(Rule::Ipv4(Ipv4)), spec),
    {
        let text = value.to_text();
        text_input(spec, text.as_str(), Some(Rule::Ipv4(Ipv4))).required()
    }

    fn form_extract(field: &TextInput) -> (r: Result<Self, String>)
        ensures
            r matches Ok(a) ==> field@.value == quad_text(a@) && a@.len() == 4,
            r matches Err(e) ==> !is_dotted_quad(field@.value) && e@ == "expected an IPv4 address"@,
            r is Ok <==> is_dotted_quad(field@.value),
    {
        match Ipv4Address::parse(field.value()) {
            Some(a) => Ok(a),
            None => Err(String::from_str("expected an IPv4 address")),
        }
    }
}

impl FieldType for Ipv6Address {
    type BaseFieldType = TextInput;

    fn form_field(spec: FieldAttributes, value: &Self) -> (r: TextInput)
        ensures
            r@ == attributed_text(spec, ipv6_text(segs_view(value@)), true),
            r.rules() == attributed_rules(Some(Rule::Ipv6(Ipv6)), spec),
    {
        let text = value.to_text();
        text_input(spec, text.as_str(), Some(Rule::Ipv6(Ipv6))).required()
    }

    fn form_extract(field: &TextInput) -> (r: Result<Self, String>)
        ensures
            match ipv6_segments(field@.value) {
                Some(v) => r matches Ok(a) && segs_view(a@) == v,
                None => r matches Err(e) && e@ == "expected an IPv6 address"@,
            },
    {
        match Ipv6Address::parse(field.value()) {
            Some(a) => Ok(a),
            None => Err(String::from_str("expected an IPv6 address")),
        }
    }
}

} // verus!
