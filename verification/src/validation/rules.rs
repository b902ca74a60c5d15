//! Built-in validation rules.

pub use super::ip::Ipv4;
pub use super::ipv6::Ipv6;
pub use super::numeric::Numeric;
pub use super::text::{Email, MaxLength, MinLength, Pattern, Required};
