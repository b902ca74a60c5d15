//! Tests of the library's parts: fields, validators, addresses, focus and
//! the form engine.

use ratatui_form::naming::humanize;
use ratatui_form::field_base::{Drawing, Messages, Rows};
use ratatui_form::validation::Chars;
use ratatui_form::navigation::FocusManager;
use ratatui_form::render::{Area, DrawOp, Paint};
use ratatui_form::{
    BasicField, Checkbox, Email, FieldSpec, Form, FormExtractError, FormField, FormResult, FormValue, Ipv4,
    Ipv4Address, Ipv6, Ipv6Address, KeyCode, KeyPress, MaxLength, MinLength, Numeric, Pattern,
    Required, Rule, Select, TextInput, Validator,
};

fn key(code: KeyCode) -> KeyPress {
    KeyPress::new(code)
}

fn ctrl(c: char) -> KeyPress {
    KeyPress::with_control(KeyCode::Char(c))
}

fn type_into(field: &mut TextInput, text: &str) {
    for c in text.chars() {
        field.handle_input(&key(KeyCode::Char(c)));
    }
}

fn text_spec(label: &str, required: bool) -> FieldSpec {
    FieldSpec { label: label.to_string(), placeholder: None, required, validators: vec![] }
}

// ---------------------------------------------------------------------------
// Focus ring
// ---------------------------------------------------------------------------

#[test]
fn focus_walks_the_fields_then_the_button() {
    let mut f = FocusManager::new(3);
    assert_eq!(f.current_index(), 0);
    f.focus_next();
    f.focus_next();
    assert_eq!(f.current_index(), 2);
    assert!(!f.is_submit_focused());
    f.focus_next();
    assert!(f.is_submit_focused());
    f.focus_next();
    assert!(!f.is_submit_focused());
    assert_eq!(f.current_index(), 0);
}

#[test]
fn focus_previous_undoes_next() {
    let mut f = FocusManager::new(2);
    f.focus_next();
    f.focus_previous();
    assert_eq!(f.current_index(), 0);
    assert!(!f.is_submit_focused());
    // From the first field, back wraps to the button, forward comes back.
    f.focus_previous();
    assert!(f.is_submit_focused());
    f.focus_next();
    assert_eq!(f.current_index(), 0);
    assert!(!f.is_submit_focused());
}

#[test]
fn focus_full_cycle_returns() {
    let mut f = FocusManager::new(4);
    f.focus_next();
    for _ in 0..5 {
        f.focus_next();
    }
    assert_eq!(f.current_index(), 1);
    assert!(!f.is_submit_focused());
}

#[test]
fn focus_with_no_fields_and_count_changes() {
    let mut f = FocusManager::new(0);
    f.focus_next();
    assert!(f.is_submit_focused());
    f.focus_previous();
    assert_eq!(f.current_index(), 0);
    let mut g = FocusManager::new(5);
    g.focus_field(4);
    assert_eq!(g.current_index(), 4);
    g.focus_field(9); // out of range: unchanged
    assert_eq!(g.current_index(), 4);
    g.set_field_count(2);
    assert_eq!(g.current_index(), 1);
}

// ---------------------------------------------------------------------------
// Text input
// ---------------------------------------------------------------------------

#[test]
fn focus_selects_so_typing_replaces() {
    let mut t = TextInput::new("Port").initial_value("8080");
    t.on_focus();
    type_into(&mut t, "9");
    assert_eq!(t.value(), "9");
}

#[test]
fn end_then_typing_appends() {
    let mut t = TextInput::new("Name").initial_value("Ada");
    t.on_focus();
    t.handle_input(&key(KeyCode::End));
    type_into(&mut t, "!");
    assert_eq!(t.value(), "Ada!");
}

#[test]
fn arrows_after_focus_drop_the_selection_and_typing_appends() {
    let mut t = TextInput::new("Name").initial_value("ab");
    t.on_focus();
    t.handle_input(&key(KeyCode::Left));
    type_into(&mut t, "c");
    assert_eq!(t.value(), "abc");
    let mut u = TextInput::new("Name").initial_value("ab");
    u.on_focus();
    u.handle_input(&key(KeyCode::Right));
    type_into(&mut u, "c");
    assert_eq!(u.value(), "abc");
}

#[test]
fn backspace_after_focus_clears_and_blur_keeps_value() {
    let mut t = TextInput::new("Name").initial_value("Ada");
    t.on_focus();
    t.handle_input(&key(KeyCode::Backspace));
    assert_eq!(t.value(), "");
    type_into(&mut t, "Bo");
    t.on_blur();
    assert_eq!(t.value(), "Bo");
}

#[test]
fn backspace_undoes_typing_and_cursor_moves() {
    let mut t = TextInput::new("Word").initial_value("ac");
    t.handle_input(&key(KeyCode::Left));
    type_into(&mut t, "b");
    assert_eq!(t.value(), "abc");
    t.handle_input(&key(KeyCode::Backspace));
    assert_eq!(t.value(), "ac");
    t.handle_input(&key(KeyCode::Home));
    t.handle_input(&key(KeyCode::Delete));
    assert_eq!(t.value(), "c");
    t.handle_input(&key(KeyCode::Right));
    type_into(&mut t, "é");
    assert_eq!(t.value(), "cé");
}

#[test]
fn control_keys_edit_the_line() {
    let mut t = TextInput::new("Word").initial_value("mid");
    t.handle_input(&ctrl('a'));
    type_into(&mut t, "<");
    t.handle_input(&ctrl('e'));
    type_into(&mut t, ">");
    assert_eq!(t.value(), "<mid>");
    assert!(!t.handle_input(&ctrl('x')));
    assert!(t.handle_input(&ctrl('u')));
    assert_eq!(t.value(), "");
    assert!(!t.handle_input(&key(KeyCode::Tab)));
}

#[test]
fn text_validation_reports_required_then_rules() {
    let empty = TextInput::new("Name").required().rule(Rule::MinLength(MinLength(3)));
    assert_eq!(empty.validate().unwrap_err(), vec!["Name is required".to_string()]);
    let short = TextInput::new("Name").required().rule(Rule::MinLength(MinLength(3))).initial_value("Al");
    assert_eq!(short.validate().unwrap_err(), vec!["Must be at least 3 characters".to_string()]);
    let ok = TextInput::new("Name").required().rule(Rule::MinLength(MinLength(3))).initial_value("Ada");
    assert!(ok.validate().is_ok());
    let blank = TextInput::new("Note").required().initial_value(" \t ");
    assert_eq!(blank.validate().unwrap_err(), vec!["Note is required".to_string()]);
}

// ---------------------------------------------------------------------------
// Select and checkbox
// ---------------------------------------------------------------------------

fn regions() -> Select {
    Select::new("Region")
        .option("us-east", "US East")
        .option("us-west", "US West")
        .option("eu", "EU")
}

#[test]
fn select_opens_moves_and_chooses() {
    let mut s = regions();
    assert_eq!(s.value(), "");
    assert!(s.handle_input(&key(KeyCode::Char(' '))));
    assert!(s.handle_input(&key(KeyCode::Down)));
    assert!(s.handle_input(&key(KeyCode::Down)));
    assert!(s.handle_input(&key(KeyCode::Down))); // stays on the last option
    assert!(s.handle_input(&key(KeyCode::Enter)));
    assert_eq!(s.value(), "eu");
    assert_eq!(s.value_str(), "eu");
    assert_eq!(s.height(), 1);
}

#[test]
fn closed_select_leaves_arrows_and_escape_alone() {
    let mut s = regions().initial_value("eu");
    assert!(!s.handle_input(&key(KeyCode::Down)));
    assert!(!s.handle_input(&key(KeyCode::Up)));
    assert!(!s.handle_input(&key(KeyCode::Esc)));
    assert_eq!(s.value(), "eu");
    assert_eq!(s.height(), 1);
    let mut form = Form::new("Deploy");
    form.push(FormField::Select(regions()));
    form.push(bool::form_field(text_spec("Confirm", false), &false));
    assert!(form.handle_input(key(KeyCode::Down))); // moves to the checkbox
    assert!(form.handle_input(key(KeyCode::Char(' '))));
    assert_eq!(form.value_bool(1), Some(true));
}

#[test]
fn select_initial_value_and_escape() {
    let mut s = regions().initial_value("us-west");
    assert_eq!(s.value(), "us-west");
    assert!(!s.handle_input(&key(KeyCode::Esc))); // closed: Esc is not used
    s.handle_input(&key(KeyCode::Enter)); // open
    assert_eq!(s.height(), 4);
    assert!(s.handle_input(&key(KeyCode::Up)));
    assert!(s.handle_input(&key(KeyCode::Esc))); // closes without choosing
    assert_eq!(s.value(), "us-west");
    assert_eq!(regions().initial_value("nowhere").value(), "");
}

#[test]
fn required_select_and_checkbox_report_errors() {
    let s = regions().required();
    assert_eq!(s.validate().unwrap_err(), vec!["Region is required".to_string()]);
    assert!(regions().required().initial_value("eu").validate().is_ok());
    let c = Checkbox::new("Terms").required();
    assert_eq!(c.validate().unwrap_err(), vec!["Terms must be checked".to_string()]);
    assert!(Checkbox::new("Terms").required().checked(true).validate().is_ok());
}

#[test]
fn checkbox_toggles_on_space_and_enter() {
    let mut c = Checkbox::new("Subscribe");
    assert_eq!(c.value_bool(), Some(false));
    assert_eq!(c.value_str(), "false");
    assert!(c.handle_input(&key(KeyCode::Char(' '))));
    assert!(c.is_checked());
    assert!(c.handle_input(&key(KeyCode::Enter)));
    assert!(!c.is_checked());
    assert!(!c.handle_input(&key(KeyCode::Char('x'))));
    assert!(!c.is_checked());
}

// ---------------------------------------------------------------------------
// Validators
// ---------------------------------------------------------------------------

#[test]
fn required_rejects_blank_values() {
    assert!(Required.validate("x").is_ok());
    assert_eq!(Required.validate("   ").unwrap_err(), "This field is required");
    assert!(Required.validate("").is_err());
}

#[test]
fn email_accepts_plain_addresses_only() {
    assert!(Email.validate("").is_ok());
    assert!(Email.validate("ada@example.com").is_ok());
    assert_eq!(Email.validate("ada@example").unwrap_err(), "Invalid email address");
    assert!(Email.validate("@example.com").is_err());
    assert!(Email.validate("a@b@c.com").is_err());
    assert!(Email.validate("ada@.com").is_err());
    assert!(Email.validate("ada@example.").is_err());
}

#[test]
fn length_limits_count_characters() {
    assert!(MinLength(3).validate("abc").is_ok());
    assert_eq!(MinLength(3).validate("ab").unwrap_err(), "Must be at least 3 characters");
    assert!(MaxLength(2).validate("ab").is_ok());
    assert_eq!(MaxLength(2).validate("abc").unwrap_err(), "Must be at most 2 characters");
    // "é" is one character, though two bytes
    assert!(MaxLength(1).validate("é").is_ok());
    assert!(MaxLength(2).validate("éé").is_ok());
    assert!(MinLength(3).validate("éé").is_err());
    assert!(MinLength(2).validate("é").is_err());
}

#[test]
fn numeric_accepts_float_text() {
    for ok in ["", "42", "-3.5", "+1", ".5", "1.", "1e10", "2E-3", "inf", "-Infinity", "NaN"] {
        assert!(Numeric.validate(ok).is_ok(), "{ok}");
    }
    for bad in ["abc", ".", "e5", "1e", "1.2.3", "--1", " 1", "0x10"] {
        assert_eq!(Numeric.validate(bad).unwrap_err(), "Must be a number", "{bad}");
    }
}

#[test]
fn patterns_match_their_formats() {
    let zip = Pattern::zip_code().unwrap();
    assert!(zip.validate("12345").is_ok());
    assert!(zip.validate("12345-6789").is_ok());
    assert_eq!(zip.validate("1234").unwrap_err(), "Invalid ZIP code format");
    let phone = Pattern::phone().unwrap();
    assert!(phone.validate("(555) 123-4567").is_ok());
    assert!(phone.validate("12-34").is_err());
    let date = Pattern::date().unwrap();
    assert!(date.validate("2024-01-31").is_ok());
    assert!(date.validate("2024/01/31").is_err());
    let custom = Pattern::new(r"^\d{3}-\d{4}$", "Invalid format");
    assert!(custom.validate("555-1234").is_ok());
    assert_eq!(custom.validate("5551234").unwrap_err(), "Invalid format");
    assert!(custom.validate("").is_ok());
    assert!(Pattern::try_new("(", "broken").is_none());
}

#[test]
fn ip_validators() {
    assert!(Ipv4.validate("").is_ok());
    assert!(Ipv4.validate("192.168.0.1").is_ok());
    assert_eq!(Ipv4.validate("999.1.2.3").unwrap_err(), "Invalid IPv4 address");
    assert!(Ipv4.validate("01.2.3.4").is_err());
    assert!(Ipv4.validate("1.2.3").is_err());
    assert!(Ipv6.validate("").is_ok());
    assert!(Ipv6.validate("::1").is_ok());
    assert_eq!(Ipv6.validate("1::2::3").unwrap_err(), "Invalid IPv6 address");
}

// ---------------------------------------------------------------------------
// Addresses
// ---------------------------------------------------------------------------

#[test]
fn ipv4_address_text_round_trip() {
    let a = Ipv4Address::new(10, 0, 0, 255);
    assert_eq!(a.to_text(), "10.0.0.255");
    assert_eq!(Ipv4Address::parse("10.0.0.255"), Some(a));
    assert_eq!(a.octets(), [10, 0, 0, 255]);
    assert_eq!(Ipv4Address::parse("10.0.0.256"), None);
    assert_eq!(Ipv4Address::parse("10.0.0.1 "), None);
}

#[test]
fn ipv6_parses_the_standard_notation() {
    let p = |s: &str| Ipv6Address::parse(s).map(|a| a.segments());
    assert_eq!(p("::"), Some([0; 8]));
    assert_eq!(p("::1"), Some([0, 0, 0, 0, 0, 0, 0, 1]));
    assert_eq!(p("1:2:3:4:5:6:7:8"), Some([1, 2, 3, 4, 5, 6, 7, 8]));
    assert_eq!(p("FE80::aB:1"), Some([0xfe80, 0, 0, 0, 0, 0, 0xab, 1]));
    assert_eq!(p("1:2:3:4:5:6:7::"), Some([1, 2, 3, 4, 5, 6, 7, 0]));
    assert_eq!(p("::ffff:192.168.0.1"), Some([0, 0, 0, 0, 0, 0xffff, 0xc0a8, 0x0001]));
    assert_eq!(p("1:2:3:4:5:6:1.2.3.4"), Some([1, 2, 3, 4, 5, 6, 0x0102, 0x0304]));
    for bad in [
        "", ":", ":::", "1::2::3", "12345::", "1:2:3:4:5:6:7:8:9", "1:2:3:4:5:6:7", "1:2:3:4:5:6:7::8",
        "1.2.3.4::", "::1.2.3", "fe80::1%eth0", "[::1]", "::g", "1:2:3:4:5:6:7:1.2.3.4", ":1::2",
    ] {
        assert_eq!(p(bad), None, "{bad}");
    }
}

#[test]
fn ipv6_text_compresses_the_first_longest_zero_run() {
    let t = |s: [u16; 8]| Ipv6Address::new(s[0], s[1], s[2], s[3], s[4], s[5], s[6], s[7]).to_text();
    assert_eq!(t([0; 8]), "::");
    assert_eq!(t([0, 0, 0, 0, 0, 0, 0, 1]), "::1");
    assert_eq!(t([1, 0, 0, 0, 0, 0, 0, 0]), "1::");
    assert_eq!(t([192, 168, 0, 1, 4, 24, 2, 4]), "c0:a8:0:1:4:18:2:4");
    assert_eq!(t([1, 0, 0, 2, 0, 0, 0, 3]), "1:0:0:2::3");
    assert_eq!(t([1, 0, 0, 2, 0, 0, 3, 4]), "1::2:0:0:3:4");
    assert_eq!(t([0, 0, 0, 0, 0, 0xffff, 0xc00a, 0x02ff]), "::ffff:192.10.2.255");
    assert_eq!(t([0xfe80, 0, 0, 0, 0, 0, 0, 0xabcd]), "fe80::abcd");
}

#[test]
fn ipv6_text_reads_back() {
    for s in [
        [0u16; 8],
        [1, 0, 0, 2, 0, 0, 3, 4],
        [0, 0, 0, 0, 0, 0xffff, 1, 2],
        [0xffff; 8],
        [0, 1, 0, 1, 0, 1, 0, 1],
    ] {
        let a = Ipv6Address::new(s[0], s[1], s[2], s[3], s[4], s[5], s[6], s[7]);
        assert_eq!(Ipv6Address::parse(&a.to_text()), Some(a));
    }
}

// ---------------------------------------------------------------------------
// Labels and errors
// ---------------------------------------------------------------------------

#[test]
fn humanize_makes_labels() {
    assert_eq!(humanize("full_name"), "Full Name");
    assert_eq!(humanize("ip"), "IP");
    assert_eq!(humanize("api_key"), "API KEY");
    assert_eq!(humanize("newsletter"), "Newsletter");
    assert_eq!(humanize(""), "");
    assert_eq!(humanize("straße_nr"), "Straße NR");
}

#[test]
fn extract_errors_describe_themselves() {
    assert_eq!(FormExtractError::new(3, "", "expected a number").describe(), "field 3: expected a number");
    assert_eq!(
        FormExtractError::new(12, "age", "expected a number").describe(),
        "field 12 (age): expected a number"
    );
}

// ---------------------------------------------------------------------------
// Form engine
// ---------------------------------------------------------------------------

fn two_field_form() -> Form {
    let mut form = Form::new("Login");
    form.push(String::form_field(text_spec("User", true), &"ada".to_string()));
    form.push(bool::form_field(text_spec("Remember", false), &false));
    form
}

#[test]
fn tabbing_keeps_values_and_back_tab_returns() {
    let mut form = two_field_form();
    assert!(form.handle_input(key(KeyCode::Tab)));
    assert!(form.handle_input(key(KeyCode::BackTab)));
    // Back on the first field, whose value is selected again: typing replaces it.
    form.handle_input(key(KeyCode::Char('b')));
    assert_eq!(form.value_str(0).as_deref(), Some("b"));
    assert_eq!(form.value_bool(1), Some(false));
}

#[test]
fn arrows_move_between_fields_and_space_toggles() {
    let mut form = two_field_form();
    assert!(form.handle_input(key(KeyCode::Down)));
    assert!(form.handle_input(key(KeyCode::Char(' '))));
    assert_eq!(form.value_bool(1), Some(true));
    assert!(form.handle_input(key(KeyCode::Up)));
    assert_eq!(form.value_str(0).as_deref(), Some("ada"));
    assert!(!form.handle_input(key(KeyCode::Enter))); // a text field does not use Enter
}

#[test]
fn submit_reports_field_errors_in_order() {
    let mut form = Form::new("Signup");
    form.push(String::form_field(text_spec("Name", true), &String::new()));
    form.push(u8::form_field(text_spec("Age", false), &7));
    form.handle_input(key(KeyCode::Tab));
    form.handle_input(key(KeyCode::Char('x'))); // "x" replaces "7"
    form.handle_input(key(KeyCode::Tab)); // submit button
    assert!(form.handle_input(key(KeyCode::Enter)));
    assert_eq!(form.result(), &FormResult::Active);
    let errors: Vec<(usize, String)> =
        form.validation_errors().iter().map(|e| (e.field_index, e.message.clone())).collect();
    assert_eq!(errors, vec![(0, "Name is required".to_string()), (1, "Must be a number".to_string())]);
}

#[test]
fn finished_form_ignores_keys() {
    let mut form = two_field_form();
    form.handle_input(key(KeyCode::BackTab)); // submit button
    assert!(form.handle_input(key(KeyCode::Enter)));
    assert_eq!(form.result(), &FormResult::Submitted);
    assert!(!form.handle_input(key(KeyCode::Char('z'))));
    assert!(!form.handle_input(key(KeyCode::Tab)));
    assert_eq!(form.value_str(0).as_deref(), Some("ada"));
    let mut cancelled = two_field_form();
    cancelled.handle_input(key(KeyCode::Esc));
    assert!(!cancelled.is_active());
    assert!(!cancelled.handle_input(key(KeyCode::Enter)));
}

#[test]
fn escape_closes_an_open_dropdown_before_cancelling() {
    let mut form = Form::new("Deploy");
    form.push(FormField::Select(regions()));
    form.handle_input(key(KeyCode::Enter)); // open the dropdown
    assert!(form.handle_input(key(KeyCode::Esc)));
    assert!(form.is_active());
    assert!(form.handle_input(key(KeyCode::Esc)));
    assert_eq!(form.result(), &FormResult::Cancelled);
}

#[test]
fn empty_form_goes_straight_to_the_button() {
    let mut form = Form::new("Nothing");
    assert_eq!(form.len(), 0);
    assert_eq!(form.value_str(0), None);
    assert!(!form.handle_input(key(KeyCode::Char('a'))));
    form.handle_input(key(KeyCode::Tab));
    form.handle_input(key(KeyCode::Enter));
    assert_eq!(form.result(), &FormResult::Submitted);
}

#[test]
fn form_layout_puts_title_fields_errors_and_button_in_rows() {
    let mut form = two_field_form();
    let area = Area { x: 2, y: 1, width: 30, height: 10 };
    let ops = form.render(area);
    let lines: Vec<(u16, String, Paint)> = ops
        .iter()
        .filter_map(|op| match op {
            DrawOp::Line { y, text, look, .. } => Some((*y, text.clone(), look.paint)),
            _ => None,
        })
        .collect();
    assert_eq!(lines.first(), Some(&(1, "Login".to_string(), Paint::Title)));
    assert!(lines.contains(&(2, "User*: ".to_string(), Paint::LabelFocused)));
    assert_eq!(lines.last(), Some(&(4, "[ Submit ]".to_string(), Paint::Button)));
    // A refused submit adds its messages above the button.
    form.push(String::form_field(text_spec("Code", true), &String::new()));
    form.handle_input(key(KeyCode::BackTab));
    form.handle_input(key(KeyCode::Enter));
    let ops = form.render(area);
    let lines: Vec<(u16, String, Paint)> = ops
        .iter()
        .filter_map(|op| match op {
            DrawOp::Line { y, text, look, .. } => Some((*y, text.clone(), look.paint)),
            _ => None,
        })
        .collect();
    assert!(lines.contains(&(5, "Code is required".to_string(), Paint::Error)));
    assert_eq!(lines.last(), Some(&(6, "[ Submit ]".to_string(), Paint::ButtonFocused)));
    // Too few rows: only the title and what fits.
    let small = form.render(Area { x: 0, y: 0, width: 10, height: 2 });
    assert!(small.iter().all(|op| match op {
        DrawOp::Line { y, .. } | DrawOp::Fill { y, .. } | DrawOp::Put { y, .. } => *y < 2,
        DrawOp::Glyph { y, .. } | DrawOp::Restyle { y, .. } => *y < 2,
    }));
}

#[test]
fn optional_text_reads_back_none_when_empty() {
    let mut form = Form::new("Profile");
    form.push(Option::<String>::form_field(text_spec("Company", false), &None));
    form.push(Option::<String>::form_field(text_spec("Team", false), &Some("Ops".to_string())));
    assert_eq!(Option::<String>::form_extract(&form, 0), Ok(None));
    assert_eq!(Option::<String>::form_extract(&form, 1), Ok(Some("Ops".to_string())));
    assert_eq!(Option::<String>::form_extract(&form, 2), Ok(None));
}

#[test]
fn extraction_errors_name_the_field() {
    let mut form = Form::new("Numbers");
    form.push(i8::form_field(text_spec("Delta", false), &-128));
    form.push(bool::form_field(text_spec("Flag", false), &true));
    assert_eq!(i8::form_extract(&form, 0), Ok(-128));
    let err = u8::form_extract(&form, 0).unwrap_err();
    assert_eq!((err.field_index, err.message.as_str()), (0, "expected a number"));
    let err = bool::form_extract(&form, 0).unwrap_err();
    assert_eq!(err.message, "expected a boolean");
    let err = String::form_extract(&form, 5).unwrap_err();
    assert_eq!((err.field_index, err.message.as_str()), (5, "field not found in form"));
    assert_eq!(String::form_extract(&form, 1), Ok("true".to_string()));
    let err = Ipv6Address::form_extract(&form, 1).unwrap_err();
    assert_eq!(err.message, "expected an IPv6 address");
    let err = Ipv4Address::form_extract(&form, 1).unwrap_err();
    assert_eq!(err.message, "expected an IPv4 address");
}

#[test]
fn seeded_numbers_and_addresses_read_back() {
    let mut form = Form::new("Seeds");
    form.push(u64::form_field(text_spec("Big", false), &u64::MAX));
    form.push(i128::form_field(text_spec("Low", false), &i128::MIN));
    let v6 = Ipv6Address::new(0x2001, 0xdb8, 0, 0, 0, 0, 0, 1);
    form.push(Ipv6Address::form_field(text_spec("Host", false), &v6));
    assert_eq!(form.value_str(2).as_deref(), Some("2001:db8::1"));
    assert_eq!(u64::form_extract(&form, 0), Ok(u64::MAX));
    assert_eq!(i128::form_extract(&form, 1), Ok(i128::MIN));
    assert_eq!(Ipv6Address::form_extract(&form, 2), Ok(v6));
}

/// A validator of the test's own: only even lengths.
struct EvenLength;

impl Validator for EvenLength {
    fn accepts(&self, _value: Chars) -> bool {
        unreachable!("specification item: even lengths")
    }

    fn refusal(&self, _value: Chars) -> Chars {
        unreachable!("specification item: the text `odd`")
    }

    fn validate(&self, value: &str) -> Result<(), String> {
        if value.len() % 2 == 0 {
            Ok(())
        } else {
            Err("odd".to_string())
        }
    }
}

#[test]
fn custom_validators_run_after_the_built_in_ones() {
    let t = TextInput::new("Pin")
        .validator(Box::new(EvenLength))
        .rule(Rule::Numeric(Numeric))
        .initial_value("abc");
    assert_eq!(t.validate().unwrap_err(), vec!["odd".to_string(), "Must be a number".to_string()]);
}

#[test]
fn wide_labels_push_the_input_right_by_their_columns() {
    let t = TextInput::new("名").initial_value("x");
    let ops = t.render(Area { x: 0, y: 0, width: 20, height: 1 }, false);
    // "名: " takes four columns: the wide character counts two.
    let first_fill = ops.iter().find_map(|op| match op {
        DrawOp::Fill { x, .. } => Some(*x),
        _ => None,
    });
    assert_eq!(first_fill, Some(4));
}

#[test]
fn unicode_spaces_count_as_blank() {
    assert!(Required.validate("\u{3000}\u{a0}").is_err());
    assert!(Required.validate("\u{3000}x").is_ok());
}

/// A widget of the user's own: a counter that Plus raises, drawn as its
/// number over two rows.
struct Counter {
    count: u32,
}

impl BasicField for Counter {
    fn current_text(&self) -> Chars {
        unreachable!("specification item: the count in decimal")
    }

    fn current_flag(&self) -> Option<bool> {
        unreachable!("specification item: none")
    }

    fn reported_errors(&self) -> Messages {
        unreachable!("specification item: `too many` above two")
    }

    fn drawing(&self, _area: Area, _focused: bool) -> Drawing {
        unreachable!("specification item: a `#` in the corner")
    }

    fn row_count(&self) -> Rows {
        unreachable!("specification item: two")
    }

    fn value_str(&self) -> String {
        self.count.to_string()
    }

    fn value_bool(&self) -> Option<bool> {
        None
    }

    fn render(&self, area: Area, _focused: bool) -> Vec<DrawOp> {
        vec![DrawOp::Glyph { x: area.x, y: area.y, ch: '#' }]
    }

    fn handle_input(&mut self, event: &KeyPress) -> bool {
        if event.code == KeyCode::Char('+') {
            self.count += 1;
            true
        } else {
            false
        }
    }

    fn validate(&self) -> Result<(), Vec<String>> {
        if self.count > 2 { Err(vec!["too many".to_string()]) } else { Ok(()) }
    }

    fn height(&self) -> u16 {
        2
    }
}

#[test]
fn forms_hold_widgets_of_the_users_own() {
    let mut form = Form::new("Custom");
    form.push(FormField::Custom(Box::new(Counter { count: 0 })));
    form.push(String::form_field(text_spec("Name", false), &"x".to_string()));
    assert!(form.handle_input(key(KeyCode::Char('+'))));
    assert!(form.handle_input(key(KeyCode::Char('+'))));
    assert_eq!(form.value_str(0), Some("2".to_string()));
    assert_eq!(form.value_bool(0), None);
    // The widget takes two rows: the text field is drawn below them.
    let ops = form.render(Area { x: 0, y: 0, width: 20, height: 10 });
    assert!(ops.iter().any(|op| matches!(op, DrawOp::Glyph { x: 0, y: 1, ch: '#' })));
    assert!(ops.iter().any(|op| matches!(op, DrawOp::Line { y: 3, .. })));
    // Tab leaves the widget as it is; Shift+Tab comes back to it.
    assert!(form.handle_input(key(KeyCode::Tab)));
    assert!(form.handle_input(key(KeyCode::BackTab)));
    assert!(form.handle_input(key(KeyCode::Char('+'))));
    assert_eq!(form.value_str(0), Some("3".to_string()));
    // Its errors block submitting.
    assert!(form.handle_input(key(KeyCode::Up)));
    assert!(form.handle_input(key(KeyCode::Enter)));
    assert_eq!(form.result(), &FormResult::Active);
    assert_eq!(form.validation_errors().len(), 1);
    assert_eq!(form.validation_errors()[0].field_index, 0);
    // Esc, which the widget leaves, cancels.
    assert!(form.handle_input(key(KeyCode::Down)));
    assert!(form.handle_input(key(KeyCode::Esc)));
    assert_eq!(form.result(), &FormResult::Cancelled);
}
