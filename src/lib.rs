//! Schema-driven translation providers: a declarative key list is parsed into a
//! validated schema, entities hold one template per key, and parameterized keys
//! are rendered through named-placeholder substitution.

pub mod format;
pub mod token;
pub mod schema;
pub mod provider;
pub mod index;
pub mod generator;

pub use index::create_provider_index;
pub use schema::generate_translation;
