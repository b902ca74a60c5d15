//! Typed TUI forms: field widgets, validation rules, focus navigation and the
//! mapping between model values and form fields.

use vstd::prelude::*;

pub mod field;
pub mod field_base;
pub mod field_types;
pub mod form;
pub mod form_value;
pub mod key;
pub mod model;
pub mod model_plan;
pub mod naming;
pub mod render;
pub mod navigation;
pub mod text;
pub mod validation;

pub use field_base::BasicFieldType as BasicField;
pub use field_base::{Checkbox, FieldState, FormField, Select, TextInput};
pub use form::{Form, FormResult};
pub use form_value::{FieldSpec, FormValue};
pub use key::{KeyCode, KeyPress};
pub use model::{FormExtractError, FormModel};
pub use validation::ip::Ipv4Address;
pub use validation::ipv6::Ipv6Address;
pub use validation::rules::{Email, Ipv4, Ipv6, MaxLength, MinLength, Numeric, Pattern, Required};
pub use validation::{Rule, ValidationError, Validator};

