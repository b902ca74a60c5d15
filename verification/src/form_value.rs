//! Mapping between model values and form fields.

use vstd::prelude::*;

use crate::field_base::{BasicFieldType, Checkbox, FormField, TextInput};
use crate::field_base::text::BaseTextState;
use crate::field::text::opt_view;
use crate::field::{lemma_rule_then_list, rule_errors, text_errors};
use crate::form::Form;
use crate::model::FormExtractError;
use crate::text::{decimal, format_signed, format_unsigned, is_blank, parse_integer_in, parse_signed, parse_unsigned,
    signed_decimal, to_owned_string};
use crate::validation::{Rule, Validator};
use crate::validation::ip::{Ipv4, Ipv4Address, is_dotted_quad, quad_text};
use crate::validation::ipv6::{Ipv6, Ipv6Address, ipv6_segments, ipv6_text, segs_view};
use crate::validation::numeric::Numeric;

verus! {

/// Configuration for building a form field from a model value.
pub struct FieldSpec {
    /// Display label of the field.
    pub label: String,
    /// Optional placeholder text.
    pub placeholder: Option<String>,
    /// Whether the field is required.
    pub required: bool,
    /// Validators applied to the field's string value.
    pub validators: Vec<Rule>,
}

/// The text input that a spec and a seed value describe.
pub open spec fn seeded_text(spec: FieldSpec, value: Seq<char>, required: bool) -> BaseTextState {
    BaseTextState {
        label: spec.label@,
        value,
        cursor: value.len(),
        selection: None,
        placeholder: opt_view(spec.placeholder),
        required,
    }
}

/// A value type that can be rendered in a form and read back from it.
///
/// Implementations for `String`, `Option<String>`, `bool`, the integer types
/// and [`Ipv4Address`] ship with the library; implement it to add custom
/// field types.
pub trait FormValue: Sized {
    /// Builds a form field widget seeded with `value`.
    fn form_field(spec: FieldSpec, value: &Self) -> FormField;

    /// Extracts a value of this type from the form at `index`.
    fn form_extract(form: &Form, index: usize) -> Result<Self, FormExtractError>;
}

/// The validators a seeded text input runs: the type's own rule first,
/// then those of the spec.
pub open spec fn seeded_rules(rule: Option<Rule>, spec: FieldSpec) -> Seq<Rule> {
    match rule {
        Some(r) => seq![r] + spec.validators@,
        None => spec.validators@,
    }
}

/// A seeded text input runs the type's own rule first and then every
/// validator of the spec, in order, none left out: its messages are the
/// rule's refusal, when it refuses, followed by those of the spec's
/// validators; each refusing validator of the spec is reported; and it is
/// valid exactly when it is not a blank required field and the rule and every
/// validator of the spec accept its value.
pub proof fn lemma_seeded_fields_run_every_validator(
    rule: Option<Rule>,
    spec: FieldSpec,
    required: bool,
    value: Seq<char>,
)
    ensures
        rule_errors(seeded_rules(rule, spec), value) == (match rule {
            Some(r) => if r.accepts(value) {
                Seq::<Seq<char>>::empty()
            } else {
                seq![r.refusal(value)]
            },
            None => Seq::<Seq<char>>::empty(),
        }) + rule_errors(spec.validators@, value),
        forall|i: int|
            0 <= i < spec.validators@.len() && !(#[trigger] spec.validators@[i]).accepts(value) ==> rule_errors(
                seeded_rules(rule, spec),
                value,
            ).contains(spec.validators@[i].refusal(value)),
        text_errors(spec.label@, required, seeded_rules(rule, spec), value).len() == 0 <==> (!(required && is_blank(
            value,
        )) && (rule matches Some(r) ==> r.accepts(value)) && forall|i: int|
            0 <= i < spec.validators@.len() ==> #[trigger] spec.validators@[i].accepts(value)),
{
    lemma_rule_then_list(rule, spec.validators@, spec.label@, required, value);
}

/// Builds a text input from a spec, seeded with `value`.
///
/// `rule` is an optional type-specific validator (e.g. `Numeric`); it is
/// applied before any validators supplied in the spec.
pub(crate) fn text_input(spec: FieldSpec, value: &str, rule: Option<Rule>) -> (r: TextInput)
    ensures
        r@ == seeded_text(spec, value@, spec.required),
        r.rules() == seeded_rules(rule, spec),
{
    let ghost spec_rules = spec.validators@;
    let FieldSpec { label, placeholder, required, validators } = spec;
    let mut input = TextInput::new(label.as_str());
    if let Some(placeholder) = placeholder {
        input = input.placeholder(placeholder.as_str());
    }
    if required {
        input = input.required();
    }
    let ghost head: Seq<Rule> = if rule is Some {
        seq![rule->0]
    } else {
        Seq::empty()
    };
    match rule {
        Some(rule) => {
            input = input.rule(rule);
        },
        None => {},
    }
    assert(input.rules() =~= head);
    let mut validators = validators;
    let ghost mut k: int = 0;
    while validators.len() > 0
        invariant
            input@ == (BaseTextState {
                label: label@,
                value: Seq::empty(),
                cursor: 0,
                selection: None,
                placeholder: opt_view(placeholder),
                required,
            }),
            0 <= k <= spec_rules.len(),
            validators@ == spec_rules.skip(k),
            input.rules() == head + spec_rules.take(k),
        decreases validators@.len(),
    {
        let v = validators.remove(0);
        input = input.rule(v);
        proof {
            assert(spec_rules.skip(k)[0] == spec_rules[k]);
            assert(spec_rules.take(k + 1) =~= spec_rules.take(k).push(spec_rules[k]));
            assert(spec_rules.skip(k).remove(0) =~= spec_rules.skip(k + 1));
            k = k + 1;
        }
    }
    assert(spec_rules.take(k) =~= spec_rules);
    input.initial_value(value)
}

/// The error returned when a field index is out of bounds.
fn missing_field(index: usize) -> (r: FormExtractError)
    ensures
        r.field_index == index,
        r.field_name@ == Seq::<char>::empty(),
        r.message@ == "field not found in form"@,
{
    proof {
        reveal_strlit("");
        assert(""@ =~= Seq::<char>::empty());
    }
    FormExtractError::new(index, "", "field not found in form")
}

impl FormValue for String {
    fn form_field(spec: FieldSpec, value: &Self) -> (r: FormField)
        ensures
            r matches FormField::Text(t) && t@ == seeded_text(spec, value@, spec.required)
            && t.rules() == spec.validators@,
    {
        FormField::Text(text_input(spec, value.as_str(), None))
    }

    fn form_extract(form: &Form, index: usize) -> (r: Result<Self, FormExtractError>)
        ensures
            r matches Ok(s) ==> index < form@.texts().len() && s@ == form@.texts()[index as int],
            r matches Err(e) ==> index >= form@.texts().len() && e.field_index == index
                && e.message@ == "field not found in form"@,
            r is Ok <==> index < form@.texts().len(),
    {
        match form.value_str(index) {
            Some(s) => Ok(s),
            None => Err(missing_field(index)),
        }
    }
}

/// The text of an optional value; nothing for `None`.
pub open spec fn text_or_empty(v: Option<String>) -> Seq<char> {
    match v {
        Some(s) => s@,
        None => Seq::empty(),
    }
}

fn optional_text_field(spec: FieldSpec, value: &Option<String>) -> (r: FormField)
    ensures
        r matches FormField::Text(t) && t@ == seeded_text(spec, text_or_empty(*value), spec.required)
            && t.rules() == spec.validators@,
{
    match value {
        Some(s) => FormField::Text(text_input(spec, s.as_str(), None)),
        None => {
            proof {
                reveal_strlit("");
                assert(""@ =~= Seq::<char>::empty());
            }
            FormField::Text(text_input(spec, "", None))
        },
    }
}

impl FormValue for Option<String> {
    fn form_field(spec: FieldSpec, value: &Self) -> (r: FormField)
        ensures
            r matches FormField::Text(t) && t@ == seeded_text(spec, text_or_empty(*value), spec.required)
                && t.rules() == spec.validators@,
    {
        optional_text_field(spec, value)
    }

    fn form_extract(form: &Form, index: usize) -> (r: Result<Self, FormExtractError>)
        ensures
            r matches Ok(v) && (match v {
                Some(s) => index < form@.texts().len() && form@.texts()[index as int].len() > 0
                    && s@ == form@.texts()[index as int],
                None => index >= form@.texts().len() || form@.texts()[index as int].len() == 0,
            }),
    {
        Ok(
            match form.value_str(index) {
                Some(value) => if value.as_str().is_empty() {
                    None
                } else {
                    Some(value)
                },
                None => None,
            },
        )
    }
}

impl FormValue for bool {
    fn form_field(spec: FieldSpec, value: &Self) -> (r: FormField)
        ensures
            r matches FormField::Checkbox(c) && c@ == (crate::field::checkbox::CheckboxState {
                label: spec.label@,
                checked: *value,
                required: spec.required,
            }),
    {
        let mut checkbox = Checkbox::new(spec.label.as_str());
        if spec.required {
            checkbox = checkbox.required();
        }
        FormField::Checkbox(checkbox.checked(*value))
    }

    fn form_extract(form: &Form, index: usize) -> (r: Result<Self, FormExtractError>)
        ensures
            r matches Ok(b) ==> index < form@.flags().len() && form@.flags()[index as int] == Some(b),
            r matches Err(e) ==> e.field_index == index && e.message@ == "expected a boolean"@
                && !(index < form@.flags().len() && form@.flags()[index as int] is Some),
    {
        match form.value_bool(index) {
            Some(b) => Ok(b),
            None => Err(FormExtractError::new(index, "", "expected a boolean")),
        }
    }
}

/// A numeric text input: seeded with the number's text, checked by
/// [`Numeric`], and always required (numbers have no empty value).
fn numeric_field(spec: FieldSpec, text: &str) -> (r: FormField)
    ensures
        r matches FormField::Text(t) && t@ == seeded_text(spec, text@, true)
            && t.rules() == seeded_rules(Some(Rule::Numeric(Numeric)), spec),
{
    FormField::Text(text_input(spec, text, Some(Rule::Numeric(Numeric))).required())
}

/// How reading an integer field ends: the number, a missing field, or text
/// that is not a number within `min..=max`.
pub open spec fn integer_extraction(texts: Seq<Seq<char>>, index: nat, signed: bool, min: int, max: int) -> Result<
    int,
    Seq<char>,
> {
    if index >= texts.len() {
        Err("field not found in form"@)
    } else {
        match parse_integer_in(texts[index as int], signed, min, max) {
            Some(v) => Ok(v),
            None => Err("expected a number"@),
        }
    }
}

fn extract_unsigned(form: &Form, index: usize, max: u128) -> (r: Result<u128, FormExtractError>)
    ensures
        match (r, integer_extraction(form@.texts(), index as nat, false, 0, max as int)) {
            (Ok(v), Ok(w)) => v == w,
            (Err(e), Err(m)) => e.field_index == index && e.message@ == m,
            _ => false,
        },
{
    match form.value_str(index) {
        None => Err(missing_field(index)),
        Some(raw) => match parse_unsigned(raw.as_str(), max) {
            Some(v) => Ok(v),
            None => Err(FormExtractError::new(index, "", "expected a number")),
        },
    }
}

fn extract_signed(form: &Form, index: usize, min: i128, max: i128) -> (r: Result<i128, FormExtractError>)
    ensures
        match (r, integer_extraction(form@.texts(), index as nat, true, min as int, max as int)) {
            (Ok(v), Ok(w)) => v == w,
            (Err(e), Err(m)) => e.field_index == index && e.message@ == m,
            _ => false,
        },
{
    match form.value_str(index) {
        None => Err(missing_field(index)),
        Some(raw) => match parse_signed(raw.as_str(), min, max) {
            Some(v) => Ok(v),
            None => Err(FormExtractError::new(index, "", "expected a number")),
        },
    }
}

impl FormValue for u8 {
    fn form_field(spec: FieldSpec, value: &Self) -> (r: FormField)
        ensures
            r matches FormField::Text(f) && f@ == seeded_text(spec, decimal(*value as nat), true)
                && f.rules() == seeded_rules(Some(Rule::Numeric(Numeric)), spec),
    {
        numeric_field(spec, format_unsigned(*value as u128).as_str())
    }

    fn form_extract(form: &Form, index: usize) -> (r: Result<Self, FormExtractError>)
        ensures
            match (r, integer_extraction(form@.texts(), index as nat, false, 0, 255 as int)) {
                (Ok(v), Ok(w)) => v == w,
                (Err(e), Err(m)) => e.field_index == index && e.message@ == m,
                _ => false,
            },
    {
        match extract_unsigned(form, index, 255) {
            Ok(v) => Ok(v as u8),
            Err(e) => Err(e),
        }
    }
}

impl FormValue for u16 {
    fn form_field(spec: FieldSpec, value: &Self) -> (r: FormField)
        ensures
            r matches FormField::Text(f) && f@ == seeded_text(spec, decimal(*value as nat), true)
                && f.rules() == seeded_rules(Some(Rule::Numeric(Numeric)), spec),
    {
        numeric_field(spec, format_unsigned(*value as u128).as_str())
    }

    fn form_extract(form: &Form, index: usize) -> (r: Result<Self, FormExtractError>)
        ensures
            match (r, integer_extraction(form@.texts(), index as nat, false, 0, 65535 as int)) {
                (Ok(v), Ok(w)) => v == w,
                (Err(e), Err(m)) => e.field_index == index && e.message@ == m,
                _ => false,
            },
    {
        match extract_unsigned(form, index, 65535) {
            Ok(v) => Ok(v as u16),
            Err(e) => Err(e),
        }
    }
}

impl FormValue for u32 {
    fn form_field(spec: FieldSpec, value: &Self) -> (r: FormField)
        ensures
            r matches FormField::Text(f) && f@ == seeded_text(spec, decimal(*value as nat), true)
                && f.rules() == seeded_rules(Some(Rule::Numeric(Numeric)), spec),
    {
        numeric_field(spec, format_unsigned(*value as u128).as_str())
    }

    fn form_extract(form: &Form, index: usize) -> (r: Result<Self, FormExtractError>)
        ensures
            match (r, integer_extraction(form@.texts(), index as nat, false, 0, 4294967295 as int)) {
                (Ok(v), Ok(w)) => v == w,
                (Err(e), Err(m)) => e.field_index == index && e.message@ == m,
                _ => false,
            },
    {
        match extract_unsigned(form, index, 4294967295) {
            Ok(v) => Ok(v as u32),
            Err(e) => Err(e),
        }
    }
}

impl FormValue for u64 {
    fn form_field(spec: FieldSpec, value: &Self) -> (r: FormField)
        ensures
            r matches FormField::Text(f) && f@ == seeded_text(spec, decimal(*value as nat), true)
                && f.rules() == seeded_rules(Some(Rule::Numeric(Numeric)), spec),
    {
        numeric_field(spec, format_unsigned(*value as u128).as_str())
    }

    fn form_extract(form: &Form, index: usize) -> (r: Result<Self, FormExtractError>)
        ensures
            match (r, integer_extraction(form@.texts(), index as nat, false, 0, 18446744073709551615 as int)) {
                (Ok(v), Ok(w)) => v == w,
                (Err(e), Err(m)) => e.field_index == index && e.message@ == m,
                _ => false,
            },
    {
        match extract_unsigned(form, index, 18446744073709551615) {
            Ok(v) => Ok(v as u64),
            Err(e) => Err(e),
        }
    }
}

impl FormValue for u128 {
    fn form_field(spec: FieldSpec, value: &Self) -> (r: FormField)
        ensures
            r matches FormField::Text(f) && f@ == seeded_text(spec, decimal(*value as nat), true)
                && f.rules() == seeded_rules(Some(Rule::Numeric(Numeric)), spec),
    {
        numeric_field(spec, format_unsigned(*value as u128).as_str())
    }

    fn form_extract(form: &Form, index: usize) -> (r: Result<Self, FormExtractError>)
        ensures
            match (r, integer_extraction(form@.texts(), index as nat, false, 0, 340282366920938463463374607431768211455 as int)) {
                (Ok(v), Ok(w)) => v == w,
                (Err(e), Err(m)) => e.field_index == index && e.message@ == m,
                _ => false,
            },
    {
        match extract_unsigned(form, index, 340282366920938463463374607431768211455u128) {
            Ok(v) => Ok(v as u128),
            Err(e) => Err(e),
        }
    }
}

impl FormValue for usize {
    fn form_field(spec: FieldSpec, value: &Self) -> (r: FormField)
        ensures
            r matches FormField::Text(f) && f@ == seeded_text(spec, decimal(*value as nat), true)
                && f.rules() == seeded_rules(Some(Rule::Numeric(Numeric)), spec),
    {
        numeric_field(spec, format_unsigned(*value as u128).as_str())
    }

    fn form_extract(form: &Form, index: usize) -> (r: Result<Self, FormExtractError>)
        ensures
            match (r, integer_extraction(form@.texts(), index as nat, false, 0, usize::MAX as int)) {
                (Ok(v), Ok(w)) => v == w,
                (Err(e), Err(m)) => e.field_index == index && e.message@ == m,
                _ => false,
            },
    {
        match extract_unsigned(form, index, usize::MAX as u128) {
            Ok(v) => Ok(v as usize),
            Err(e) => Err(e),
        }
    }
}

impl FormValue for i8 {
    fn form_field(spec: FieldSpec, value: &Self) -> (r: FormField)
        ensures
            r matches FormField::Text(f) && f@ == seeded_text(spec, signed_decimal(*value as int), true)
                && f.rules() == seeded_rules(Some(Rule::Numeric(Numeric)), spec),
    {
        numeric_field(spec, format_signed(*value as i128).as_str())
    }

    fn form_extract(form: &Form, index: usize) -> (r: Result<Self, FormExtractError>)
        ensures
            match (r, integer_extraction(form@.texts(), index as nat, true, -128 as int, 127 as int)) {
                (Ok(v), Ok(w)) => v == w,
                (Err(e), Err(m)) => e.field_index == index && e.message@ == m,
                _ => false,
            },
    {
        match extract_signed(form, index, -128, 127) {
            Ok(v) => Ok(v as i8),
            Err(e) => Err(e),
        }
    }
}

impl FormValue for i16 {
    fn form_field(spec: FieldSpec, value: &Self) -> (r: FormField)
        ensures
            r matches FormField::Text(f) && f@ == seeded_text(spec, signed_decimal(*value as int), true)
                && f.rules() == seeded_rules(Some(Rule::Numeric(Numeric)), spec),
    {
        numeric_field(spec, format_signed(*value as i128).as_str())
    }

    fn form_extract(form: &Form, index: usize) -> (r: Result<Self, FormExtractError>)
        ensures
            match (r, integer_extraction(form@.texts(), index as nat, true, -32768 as int, 32767 as int)) {
                (Ok(v), Ok(w)) => v == w,
                (Err(e), Err(m)) => e.field_index == index && e.message@ == m,
                _ => false,
            },
    {
        match extract_signed(form, index, -32768, 32767) {
            Ok(v) => Ok(v as i16),
            Err(e) => Err(e),
        }
    }
}

impl FormValue for i32 {
    fn form_field(spec: FieldSpec, value: &Self) -> (r: FormField)
        ensures
            r matches FormField::Text(f) && f@ == seeded_text(spec, signed_decimal(*value as int), true)
                && f.rules() == seeded_rules(Some(Rule::Numeric(Numeric)), spec),
    {
        numeric_field(spec, format_signed(*value as i128).as_str())
    }

    fn form_extract(form: &Form, index: usize) -> (r: Result<Self, FormExtractError>)
        ensures
            match (r, integer_extraction(form@.texts(), index as nat, true, -2147483648 as int, 2147483647 as int)) {
                (Ok(v), Ok(w)) => v == w,
                (Err(e), Err(m)) => e.field_index == index && e.message@ == m,
                _ => false,
            },
    {
        match extract_signed(form, index, -2147483648, 2147483647) {
            Ok(v) => Ok(v as i32),
            Err(e) => Err(e),
        }
    }
}

impl FormValue for i64 {
    fn form_field(spec: FieldSpec, value: &Self) -> (r: FormField)
        ensures
            r matches FormField::Text(f) && f@ == seeded_text(spec, signed_decimal(*value as int), true)
                && f.rules() == seeded_rules(Some(Rule::Numeric(Numeric)), spec),
    {
        numeric_field(spec, format_signed(*value as i128).as_str())
    }

    fn form_extract(form: &Form, index: usize) -> (r: Result<Self, FormExtractError>)
        ensures
            match (r, integer_extraction(form@.texts(), index as nat, true, -9223372036854775808 as int, 9223372036854775807 as int)) {
                (Ok(v), Ok(w)) => v == w,
                (Err(e), Err(m)) => e.field_index == index && e.message@ == m,
                _ => false,
            },
    {
        match extract_signed(form, index, -9223372036854775808, 9223372036854775807) {
            Ok(v) => Ok(v as i64),
            Err(e) => Err(e),
        }
    }
}

impl FormValue for i128 {
    fn form_field(spec: FieldSpec, value: &Self) -> (r: FormField)
        ensures
            r matches FormField::Text(f) && f@ == seeded_text(spec, signed_decimal(*value as int), true)
                && f.rules() == seeded_rules(Some(Rule::Numeric(Numeric)), spec),
    {
        numeric_field(spec, format_signed(*value as i128).as_str())
    }

    fn form_extract(form: &Form, index: usize) -> (r: Result<Self, FormExtractError>)
        ensures
            match (r, integer_extraction(form@.texts(), index as nat, true, i128::MIN as int, i128::MAX as int)) {
                (Ok(v), Ok(w)) => v == w,
                (Err(e), Err(m)) => e.field_index == index && e.message@ == m,
                _ => false,
            },
    {
        match extract_signed(form, index, i128::MIN, i128::MAX) {
            Ok(v) => Ok(v as i128),
            Err(e) => Err(e),
        }
    }
}

impl FormValue for isize {
    fn form_field(spec: FieldSpec, value: &Self) -> (r: FormField)
        ensures
            r matches FormField::Text(f) && f@ == seeded_text(spec, signed_decimal(*value as int), true)
                && f.rules() == seeded_rules(Some(Rule::Numeric(Numeric)), spec),
    {
        numeric_field(spec, format_signed(*value as i128).as_str())
    }

    fn form_extract(form: &Form, index: usize) -> (r: Result<Self, FormExtractError>)
        ensures
            match (r, integer_extraction(form@.texts(), index as nat, true, isize::MIN as int, isize::MAX as int)) {
                (Ok(v), Ok(w)) => v == w,
                (Err(e), Err(m)) => e.field_index == index && e.message@ == m,
                _ => false,
            },
    {
        match extract_signed(form, index, isize::MIN as i128, isize::MAX as i128) {
            Ok(v) => Ok(v as isize),
            Err(e) => Err(e),
        }
    }
}

impl FormValue for Ipv4Address {
    fn form_field(spec: FieldSpec, value: &Self) -> (r: FormField)
        ensures
            r matches FormField::Text(f) && f@ == seeded_text(spec, quad_text(value@), true)
                && f.rules() == seeded_rules(Some(Rule::Ipv4(Ipv4)), spec),
    {
        // IP fields have no meaningful empty value, so they are always
        // required regardless of `spec.required`.
        let text = value.to_text();
        FormField::Text(text_input(spec, text.as_str(), Some(Rule::Ipv4(Ipv4))).required())
    }

    fn form_extract(form: &Form, index: usize) -> (r: Result<Self, FormExtractError>)
        ensures
            r matches Ok(a) ==> index < form@.texts().len() && form@.texts()[index as int] == quad_text(a@)
                && a@.len() == 4,
            r matches Err(e) ==> e.field_index == index && if index < form@.texts().len() {
                !is_dotted_quad(form@.texts()[index as int]) && e.message@ == "expected an IPv4 address"@
            } else {
                e.message@ == "field not found in form"@
            },
    {
        match form.value_str(index) {
            None => Err(missing_field(index)),
            Some(raw) => match Ipv4Address::parse(raw.as_str()) {
                Some(a) => Ok(a),
                None => Err(FormExtractError::new(index, "", "expected an IPv4 address")),
            },
        }
    }
}

impl FormValue for Ipv6Address {
    fn form_field(spec: FieldSpec, value: &Self) -> (r: FormField)
        ensures
            r matches FormField::Text(f) && f@ == seeded_text(spec, ipv6_text(segs_view(value@)), true)
                && f.rules() == seeded_rules(Some(Rule::Ipv6(Ipv6)), spec),
    {
        // IP fields have no meaningful empty value, so they are always
        // required regardless of `spec.required`.
        let text = value.to_text();
        FormField::Text(text_input(spec, text.as_str(), Some(Rule::Ipv6(Ipv6))).required())
    }

    fn form_extract(form: &Form, index: usize) -> (r: Result<Self, FormExtractError>)
        ensures
            if index < form@.texts().len() {
                match ipv6_segments(form@.texts()[index as int]) {
                    Some(v) => r matches Ok(a) && segs_view(a@) == v,
                    None => r matches Err(e) && e.field_index == index && e.message@ == "expected an IPv6 address"@,
                }
            } else {
                r matches Err(e) && e.field_index == index && e.message@ == "field not found in form"@
            },
    {
        match form.value_str(index) {
            None => Err(missing_field(index)),
            Some(raw) => match Ipv6Address::parse(raw.as_str()) {
                Some(a) => Ok(a),
                None => Err(FormExtractError::new(index, "", "expected an IPv6 address")),
            },
        }
    }
}

/// A number seeded into a form reads back as itself: its decimal text parses
/// to it within any range that holds it.
pub proof fn lemma_integer_round_trip(v: int, signed: bool, min: int, max: int)
    requires
        min <= v <= max,
        signed || v >= 0,
    ensures
        parse_integer_in(signed_decimal(v), signed, min, max) == Some(v),
{
    crate::text::lemma_integer_text_of_decimal(v, signed);
}

/// A number seeded into a form passes the `Numeric` check that guards the field.
pub proof fn lemma_seeded_integer_is_numeric(v: int)
    ensures
        crate::validation::numeric::is_float_text(signed_decimal(v)),
{
    let d = decimal(if v < 0 { (-v) as nat } else { v as nat });
    crate::text::lemma_decimal_digits(if v < 0 { (-v) as nat } else { v as nat });
    assert(crate::validation::numeric::is_float_mantissa(d)) by {
        assert(crate::text::is_ascii_digit(d[0]));
    }
    if v < 0 {
        assert((seq!['-'] + d).drop_first() =~= d);
        assert((seq!['-'] + d)[0] == '-');
    } else {
        assert(!(d[0] == '+' || d[0] == '-')) by {
            assert(crate::text::is_ascii_digit(d[0]));
        }
    }
}

/// A form whose field at `index` holds the decimal text that seeding an
/// integer wrote reads that integer back, within any range that holds it.
pub proof fn lemma_seeded_form_reads_back(texts: Seq<Seq<char>>, index: nat, v: int, signed: bool, min: int, max: int)
    requires
        index < texts.len(),
        texts[index as int] == signed_decimal(v),
        min <= v <= max,
        signed || v >= 0,
    ensures
        integer_extraction(texts, index, signed, min, max) == Ok::<int, Seq<char>>(v),
{
    lemma_integer_round_trip(v, signed, min, max);
}

} // verus!
