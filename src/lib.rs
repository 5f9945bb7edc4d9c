pub mod text;
pub mod templates;
pub mod document;
pub mod site;
