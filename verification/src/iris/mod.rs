//! The Iris database shell: value types, and the reading of its requests.
pub mod type_gestion;
pub mod arguments;
pub mod interpreteur;
pub mod system;
pub mod text_file;
pub mod view;
