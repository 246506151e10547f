pub mod text;
pub mod validate;
pub mod wson;
pub mod lockfile;
pub mod manifest;
pub mod json;
pub mod wavec;
pub mod location;
pub mod resolver;
pub mod commands;
