//! Fixture loading with embedded tags.
//!
//! Raw fixture text may hold tags of the form `${{ DIRECTIVE(KEY) }}` or
//! `${{ DIRECTIVE(KEY:-DEFAULT) }}`. Before the text is decoded into records,
//! every tag is replaced: `ENV` by an environment variable, `REF` by the
//! identifier that an earlier record was stored under.
//!
//! - [`grammar`] states which texts are tags;
//! - [`scanner`] finds the leftmost tag of a text;
//! - [`resolver`] replaces the tags of a text by their values;
//! - [`registry`] holds the label → identifier map and the environment;
//! - [`session`] holds what a seeding session keeps between files;
//! - [`text`] gives the characters of a text and their UTF-8 lengths.

pub mod grammar;
pub mod registry;
pub mod resolver;
pub mod scanner;
pub mod session;
pub mod text;

pub use registry::{Environment, NameRegistry, TextMap};
pub use resolver::{resolve_directive, resolve_env, resolve_ref, resolve_tags, ResolveError};
pub use scanner::{try_consume, ParseResult};
pub use session::{DatabaseSeeder, Dict, SeedError, StructLoader};
