//! What a caller needs, in one place.

pub use crate::foreign::{Foreign, ForeignVec, IntoKey, KeyError};
pub use crate::node_builder::{NodeBuilder, ToNodeBuilder};
pub use crate::querybuilder::{QueryBuilder, QueryBuilderSetObject};
pub use crate::schema::{Direction, FieldDecl, ModelDecl, Schema, SchemaField, Schemas};
pub use crate::segment::{IntoSegment, QueryBuilderSegment};
