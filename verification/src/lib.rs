//! Drizzle ORM (`drizzle-orm/pg-core`) schema generation from table definitions.

pub mod text;
pub mod model;
pub mod enums;
pub mod types;
pub mod defaults;
pub mod render;
pub mod relations;
pub mod drizzle;
