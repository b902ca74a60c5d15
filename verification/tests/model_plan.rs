//! Tests of model planning: what the `form` attributes of a struct make.

use ratatui_form::model_plan::{
    plan_model, AttrItem, AttrValue, FieldDecl, ModelDecl, ModelShape, PlanError, PlanErrorKind,
};

fn flag(n: &str) -> AttrItem {
    AttrItem::Flag(n.to_string())
}

fn text(key: &str, value: &str) -> AttrItem {
    AttrItem::Pair(key.to_string(), AttrValue::Str(value.to_string()))
}

fn path(key: &str, value: &str) -> AttrItem {
    AttrItem::Pair(key.to_string(), AttrValue::Path(value.to_string()))
}

fn field(name: &str, attrs: Vec<AttrItem>) -> FieldDecl {
    FieldDecl { name: name.to_string(), attrs }
}

fn model(attrs: Vec<AttrItem>, fields: Vec<FieldDecl>) -> ModelDecl {
    ModelDecl { name: "Signup".to_string(), generic: false, attrs, shape: ModelShape::NamedFields(fields) }
}

fn signup() -> ModelDecl {
    model(
        vec![text("title", "Sign Up")],
        vec![
            field("name", vec![text("label", "Full Name"), flag("required"), text("placeholder", "Ada Lovelace")]),
            field("email", vec![text("label", "Email"), flag("required"), path("validate", "is_valid_email")]),
            field("age", vec![]),
            field("api_key", vec![]),
            field("id", vec![flag("skip")]),
            field("newsletter", vec![text("label", "Subscribe")]),
        ],
    )
}

#[test]
fn fields_take_positions_in_order_skipping_skipped_ones() {
    let plan = plan_model(&signup()).unwrap();
    assert_eq!(plan.title, "Sign Up");
    let positions: Vec<Option<usize>> = plan.fields.iter().map(|f| f.index).collect();
    assert_eq!(positions, vec![Some(0), Some(1), Some(2), Some(3), None, Some(4)]);
}

#[test]
fn labels_default_to_the_humanized_name() {
    let plan = plan_model(&signup()).unwrap();
    let labels: Vec<&str> = plan.fields.iter().map(|f| f.label.as_str()).collect();
    assert_eq!(labels, vec!["Full Name", "Email", "AGE", "API KEY", "ID", "Subscribe"]);
    assert_eq!(plan.fields[0].placeholder.as_deref(), Some("Ada Lovelace"));
    assert!(plan.fields[0].required && plan.fields[1].required && !plan.fields[2].required);
    assert_eq!(plan.fields[1].validators, vec![2]);
}

#[test]
fn title_defaults_to_the_struct_name() {
    let decl = ModelDecl {
        name: "server_config".to_string(),
        generic: false,
        attrs: vec![],
        shape: ModelShape::NamedFields(vec![field("port", vec![])]),
    };
    assert_eq!(plan_model(&decl).unwrap().title, "server_config");
}

#[test]
fn only_plain_named_structs_make_forms() {
    let mut generic = signup();
    generic.generic = true;
    let err = |kind| PlanError { kind, field: None, item: 0 };
    assert_eq!(plan_model(&generic).err(), Some(err(PlanErrorKind::Generic)));
    let tuple = ModelDecl { shape: ModelShape::OtherStruct, ..signup() };
    assert_eq!(plan_model(&tuple).err(), Some(err(PlanErrorKind::NotNamedFields)));
    let other = ModelDecl { shape: ModelShape::NotAStruct, ..signup() };
    assert_eq!(plan_model(&other).err(), Some(err(PlanErrorKind::NotAStruct)));
}

#[test]
fn attribute_errors_name_field_and_item() {
    let unsupported = model(vec![], vec![field("a", vec![]), field("b", vec![flag("required"), flag("hidden")])]);
    assert_eq!(
        plan_model(&unsupported).err(),
        Some(PlanError { kind: PlanErrorKind::Unsupported, field: Some(1), item: 1 })
    );
    let label = model(vec![], vec![field("a", vec![path("label", "NAME")])]);
    assert_eq!(
        plan_model(&label).err(),
        Some(PlanError { kind: PlanErrorKind::ExpectedString, field: Some(0), item: 0 })
    );
    let validator = model(
        vec![],
        vec![field("a", vec![path("validate", "ok"), AttrItem::Pair("validate".to_string(), AttrValue::Other)])],
    );
    assert_eq!(
        plan_model(&validator).err(),
        Some(PlanError { kind: PlanErrorKind::ExpectedPath, field: Some(0), item: 1 })
    );
    let title = model(vec![path("title", "T")], vec![]);
    assert_eq!(
        plan_model(&title).err(),
        Some(PlanError { kind: PlanErrorKind::ExpectedString, field: None, item: 0 })
    );
}

#[test]
fn skipped_fields_are_not_checked_and_struct_items_besides_title_are_ignored() {
    let decl = model(
        vec![flag("whatever"), text("title", "First"), text("title", "Second")],
        vec![field("id", vec![flag("skip"), AttrItem::Pair("validate".to_string(), AttrValue::Other)])],
    );
    let plan = plan_model(&decl).unwrap();
    assert_eq!(plan.title, "First");
    assert_eq!(plan.fields[0].index, None);
    assert!(plan.fields[0].validators.is_empty());
}
