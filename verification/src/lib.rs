//! Bridge between two embedded language processors and a host application:
//! converts their runtime values into host-native data and renders their
//! structured errors as annotated source snippets.

pub mod value;
pub mod bridge;
pub mod span;
pub mod render;
pub mod classify;
pub mod errors;
pub mod nix;
pub mod json;
pub mod jsonc;
