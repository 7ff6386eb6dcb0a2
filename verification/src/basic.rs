pub mod identifiers;
pub mod regex;
pub mod strings;
