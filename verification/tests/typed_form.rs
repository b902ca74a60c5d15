//! Integration tests for model forms: seeding, editing and extraction.

use ratatui_form::naming::humanize;
use ratatui_form::validation::Chars;
use ratatui_form::{
    FieldSpec, Form, FormExtractError, FormField, FormModel, FormResult, FormValue, Ipv4Address,
    KeyCode, KeyPress, Rule, TextInput, Validator,
};

#[derive(Debug, PartialEq)]
struct Signup {
    name: String,
    email: String,
    age: u8,
    company: Option<String>,
    newsletter: bool,
    id: u64,
}

/// The e-mail check of the signup model: the value must hold an `@`.
struct ValidEmail;

impl Validator for ValidEmail {
    fn accepts(&self, _value: Chars) -> bool {
        unreachable!("specification item: values holding an '@'")
    }

    fn refusal(&self, _value: Chars) -> Chars {
        unreachable!("specification item: the text `invalid value`")
    }

    fn validate(&self, value: &str) -> Result<(), String> {
        if value.contains('@') {
            Ok(())
        } else {
            Err("invalid value".to_string())
        }
    }
}

fn spec(label: &str, placeholder: Option<&str>, required: bool, validators: Vec<Rule>) -> FieldSpec {
    FieldSpec {
        label: label.to_string(),
        placeholder: placeholder.map(|p| p.to_string()),
        required,
        validators,
    }
}

impl FormModel for Signup {
    fn get_form(&self) -> Form {
        let mut form = Form::new("Signup");
        form.push(String::form_field(spec("Full Name", Some("Ada Lovelace"), true, vec![]), &self.name));
        form.push(String::form_field(
            spec("Email", None, true, vec![Rule::Custom(Box::new(ValidEmail))]),
            &self.email,
        ));
        form.push(u8::form_field(spec("Age", None, false, vec![]), &self.age));
        form.push(Option::<String>::form_field(spec("Company", None, false, vec![]), &self.company));
        form.push(bool::form_field(spec("Subscribe", None, false, vec![]), &self.newsletter));
        form
    }
}

impl TryFrom<Form> for Signup {
    type Error = Vec<FormExtractError>;

    fn try_from(form: Form) -> Result<Self, Self::Error> {
        let name = String::form_extract(&form, 0).map_err(|e| vec![e])?;
        let email = String::form_extract(&form, 1).map_err(|e| vec![e])?;
        let age = u8::form_extract(&form, 2).map_err(|e| vec![e])?;
        let company = Option::<String>::form_extract(&form, 3).map_err(|e| vec![e])?;
        let newsletter = bool::form_extract(&form, 4).map_err(|e| vec![e])?;
        let id: u64 = Default::default();
        Ok(Signup { name, email, age, company, newsletter, id })
    }
}

fn sample() -> Signup {
    Signup {
        name: "Alice".into(),
        email: "alice@example.com".into(),
        age: 30,
        company: Some("Acme".into()),
        newsletter: true,
        id: 7,
    }
}

fn key(code: KeyCode) -> KeyPress {
    KeyPress::new(code)
}

fn type_text(form: &mut Form, text: &str) {
    for c in text.chars() {
        form.handle_input(key(KeyCode::Char(c)));
    }
}

fn tab(form: &mut Form) {
    form.handle_input(key(KeyCode::Tab));
}

#[test]
fn round_trip_preserves_seeded_values() {
    let form = sample().get_form();
    let out = Signup::try_from(form).unwrap();
    assert_eq!(out.name, "Alice");
    assert_eq!(out.email, "alice@example.com");
    assert_eq!(out.age, 30);
    assert_eq!(out.company, Some("Acme".into()));
    assert!(out.newsletter);
    assert_eq!(out.id, 0); // skipped field is Default::default()
}

#[test]
fn into_conversion_from_model() {
    let form: Form = sample().into();
    let out = Signup::try_from(form).unwrap();
    assert_eq!(out.name, "Alice");
}

#[test]
fn fields_are_addressed_by_index() {
    let form = sample().get_form();
    assert_eq!(form.value_str(0).as_deref(), Some("Alice"));
    assert_eq!(form.value_str(1).as_deref(), Some("alice@example.com"));
    assert_eq!(form.value_bool(4), Some(true));
    assert_eq!(form.value_str(5), None); // only 5 fields (id is skipped)
}

#[test]
fn editing_fields_changes_extraction() {
    let mut form = sample().get_form();

    // Focus starts on the first field (index 0). The seeded value is selected
    // on focus; pressing End clears the selection so typing appends.
    form.handle_input(key(KeyCode::End));
    type_text(&mut form, " B.");

    // Move to the optional company field (index 3) and clear it.
    tab(&mut form); // email
    tab(&mut form); // age
    tab(&mut form); // company
    for _ in 0.."Acme".len() {
        form.handle_input(key(KeyCode::Backspace));
    }

    let out = Signup::try_from(form).unwrap();
    assert_eq!(out.name, "Alice B.");
    assert_eq!(out.company, None);
}

#[test]
fn empty_optional_extracts_to_none() {
    let model = Signup {
        company: Some(String::new()),
        ..sample()
    };
    let out = Signup::try_from(model.get_form()).unwrap();
    assert_eq!(out.company, None);
}

#[test]
fn required_field_blocks_submit() {
    let model = Signup {
        name: String::new(),
        ..sample()
    };
    let mut form = model.get_form();

    // Tab past all 5 fields to the submit button.
    for _ in 0..5 {
        tab(&mut form);
    }
    form.handle_input(key(KeyCode::Enter));

    assert_eq!(form.result(), &FormResult::Active);
    assert!(!form.validation_errors().is_empty());
}

#[test]
fn validator_function_blocks_submit() {
    let model = Signup {
        email: "not-an-email".into(),
        ..sample()
    };
    let mut form = model.get_form();

    for _ in 0..5 {
        tab(&mut form);
    }
    form.handle_input(key(KeyCode::Enter));

    assert_eq!(form.result(), &FormResult::Active);
    assert!(!form.validation_errors().is_empty());
}

#[test]
fn valid_submit_succeeds() {
    let mut form = sample().get_form();
    for _ in 0..5 {
        tab(&mut form);
    }
    form.handle_input(key(KeyCode::Enter));
    assert_eq!(form.result(), &FormResult::Submitted);
    assert!(form.validation_errors().is_empty());
}

#[test]
fn unparsable_number_fails_extraction() {
    let mut form = sample().get_form();
    tab(&mut form); // email
    tab(&mut form); // age (index 2)
    type_text(&mut form, "abc");

    let err = Signup::try_from(form).unwrap_err();
    assert!(err.iter().any(|e| e.field_index == 2));
}

#[test]
fn form_result_cancelled_on_escape() {
    let mut form = sample().get_form();
    form.handle_input(key(KeyCode::Esc));
    assert_eq!(form.result(), &FormResult::Cancelled);
    assert!(!form.is_active());
}

#[derive(Debug, PartialEq)]
struct Network {
    host: String,
    ip: Ipv4Address,
}

impl FormModel for Network {
    fn get_form(&self) -> Form {
        let mut form = Form::new("Network");
        form.push(String::form_field(spec(&humanize("host"), None, false, vec![]), &self.host));
        form.push(Ipv4Address::form_field(spec("IP Address", None, false, vec![]), &self.ip));
        form
    }
}

impl TryFrom<Form> for Network {
    type Error = Vec<FormExtractError>;

    fn try_from(form: Form) -> Result<Self, Self::Error> {
        let host = String::form_extract(&form, 0).map_err(|e| vec![e])?;
        let ip = Ipv4Address::form_extract(&form, 1).map_err(|e| vec![e])?;
        Ok(Network { host, ip })
    }
}

#[test]
fn ipv4_field_round_trip() {
    let model = Network {
        host: "server-1".into(),
        ip: Ipv4Address::parse("10.0.0.5").unwrap(),
    };

    let form = model.get_form();
    assert_eq!(form.value_str(0).as_deref(), Some("server-1"));
    assert_eq!(form.value_str(1).as_deref(), Some("10.0.0.5"));

    let out = Network::try_from(model.get_form()).unwrap();
    assert_eq!(out, model);
}

#[test]
fn ipv4_invalid_blocks_submit() {
    let model = Network {
        host: "server-1".into(),
        ip: Ipv4Address::parse("127.0.0.1").unwrap(),
    };
    let mut form = model.get_form();

    tab(&mut form); // ip field (index 1)
    for _ in 0.."127.0.0.1".len() {
        form.handle_input(key(KeyCode::Backspace));
    }
    type_text(&mut form, "999.1.2.3");

    tab(&mut form); // submit
    form.handle_input(key(KeyCode::Enter));

    assert_eq!(form.result(), &FormResult::Active);
    assert!(!form.validation_errors().is_empty());
}

#[test]
fn ipv4_unparsable_fails_extraction() {
    let model = Network {
        host: "server-1".into(),
        ip: Ipv4Address::parse("127.0.0.1").unwrap(),
    };
    let mut form = model.get_form();
    tab(&mut form); // ip field (index 1)
    for _ in 0.."127.0.0.1".len() {
        form.handle_input(key(KeyCode::Backspace));
    }
    type_text(&mut form, "nope");

    let err = Network::try_from(form).unwrap_err();
    assert!(err.iter().any(|e| e.field_index == 1));
}

/// A completely custom field type, wired in through `FormValue` alone.
#[derive(Clone, Debug, PartialEq)]
struct Department(String);

impl FormValue for Department {
    fn form_field(spec: FieldSpec, value: &Self) -> FormField {
        FormField::Text(TextInput::new(&spec.label).initial_value(&value.0))
    }

    fn form_extract(form: &Form, index: usize) -> Result<Self, FormExtractError> {
        let value = form
            .value_str(index)
            .ok_or_else(|| FormExtractError::new(index, "", "field not found in form"))?;
        Ok(Department(value))
    }
}

#[derive(Debug, PartialEq)]
struct Employee {
    name: String,
    department: Department,
}

impl FormModel for Employee {
    fn get_form(&self) -> Form {
        let mut form = Form::new("Employee");
        form.push(String::form_field(spec(&humanize("name"), None, false, vec![]), &self.name));
        form.push(Department::form_field(
            spec(&humanize("department"), None, false, vec![]),
            &self.department,
        ));
        form
    }
}

impl TryFrom<Form> for Employee {
    type Error = Vec<FormExtractError>;

    fn try_from(form: Form) -> Result<Self, Self::Error> {
        let name = String::form_extract(&form, 0).map_err(|e| vec![e])?;
        let department = Department::form_extract(&form, 1).map_err(|e| vec![e])?;
        Ok(Employee { name, department })
    }
}

#[test]
fn custom_type_round_trip() {
    let model = Employee {
        name: "Grace".into(),
        department: Department("Engineering".into()),
    };

    let form = model.get_form();
    assert_eq!(form.value_str(1).as_deref(), Some("Engineering"));

    let out = Employee::try_from(form).unwrap();
    assert_eq!(out, model);
}

#[test]
fn custom_type_editing() {
    let mut form = Employee {
        name: "Grace".into(),
        department: Department("Engineering".into()),
    }
    .get_form();

    tab(&mut form); // department (index 1)
    // The seeded value is selected on focus; press End to append.
    form.handle_input(key(KeyCode::End));
    type_text(&mut form, " Ops");

    let out = Employee::try_from(form).unwrap();
    assert_eq!(out.department.0, "Engineering Ops");
}

#[derive(Clone, Debug, PartialEq)]
struct Port(u16);

impl FormValue for Port {
    fn form_field(spec: FieldSpec, value: &Self) -> FormField {
        FormField::Text(TextInput::new(&spec.label).initial_value(&value.0.to_string()))
    }

    fn form_extract(form: &Form, index: usize) -> Result<Self, FormExtractError> {
        let value = form
            .value_str(index)
            .ok_or_else(|| FormExtractError::new(index, "", "field not found in form"))?;
        let port = value
            .parse()
            .map_err(|_| FormExtractError::new(index, "", "expected a port"))?;
        Ok(Port(port))
    }
}

#[derive(Debug, PartialEq)]
struct Server {
    host: String,
    port: Port,
}

impl FormModel for Server {
    fn get_form(&self) -> Form {
        let mut form = Form::new("Server");
        form.push(String::form_field(spec(&humanize("host"), None, false, vec![]), &self.host));
        form.push(Port::form_field(spec(&humanize("port"), None, false, vec![]), &self.port));
        form
    }
}

impl TryFrom<Form> for Server {
    type Error = Vec<FormExtractError>;

    fn try_from(form: Form) -> Result<Self, Self::Error> {
        let host = String::form_extract(&form, 0).map_err(|e| vec![e])?;
        let port = Port::form_extract(&form, 1).map_err(|e| vec![e])?;
        Ok(Server { host, port })
    }
}

#[test]
fn custom_type_extraction_failure() {
    let mut form = Server {
        host: "localhost".into(),
        port: Port(8080),
    }
    .get_form();

    tab(&mut form); // port (index 1)
    for _ in 0.."8080".len() {
        form.handle_input(key(KeyCode::Backspace));
    }
    type_text(&mut form, "abc");

    let err = Server::try_from(form).unwrap_err();
    assert!(err.iter().any(|e| e.field_index == 1));
}

#[test]
fn custom_type_replaces_seeded_value_on_focus() {
    let mut form = Server {
        host: "localhost".into(),
        port: Port(8080),
    }
    .get_form();

    tab(&mut form); // port (index 1)
    // The seeded value is selected on focus, so the first keystroke replaces
    // it instead of appending.
    type_text(&mut form, "9000");

    let out = Server::try_from(form).unwrap();
    assert_eq!(out.port, Port(9000));
}

#[derive(Debug, PartialEq)]
struct Profile {
    username: String,
    company: Option<String>,
}

impl FormModel for Profile {
    fn get_form(&self) -> Form {
        let mut form = Form::new("Profile");
        form.push(String::form_field(spec(&humanize("username"), None, false, vec![]), &self.username));
        form.push(Option::<String>::form_field(spec("Company", None, true, vec![]), &self.company));
        form
    }
}

#[test]
fn required_optional_field_blocks_submit() {
    let model = Profile {
        username: "ada".into(),
        company: Some(String::new()),
    };
    let mut form = model.get_form();

    // Tab past both fields to the submit button.
    tab(&mut form); // company
    tab(&mut form); // submit button
    form.handle_input(key(KeyCode::Enter));

    assert_eq!(form.result(), &FormResult::Active);
    assert!(!form.validation_errors().is_empty());
}
