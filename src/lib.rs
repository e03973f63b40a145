//! Storage-side helpers for a relational-mapping layer on PostgreSQL:
//!
//! - the join-result reconstruction engine, which rebuilds nested aggregates
//!   from the flat rows of a join query ([`join`], with its proved facts in
//!   [`join_facts`]) along a plan of [`Quantity`]-annotated entries;
//! - non-negative integer types that fit signed SQL columns ([`integer`]);
//! - the stored-text codec of unit-only enums ([`enum_codec`], [`rename_rule`]);
//! - typed column wrappers ([`array`], [`json`], [`ctid`], [`either`]).

pub mod array;
pub mod ctid;
pub mod deep_clone;
pub mod either;
pub mod enum_codec;
pub mod error;
pub mod id_index;
pub mod integer;
pub mod join;
pub mod join_facts;
pub mod json;
pub mod quantity;
pub mod rename_rule;

pub use array::{Array, ArrayWithNullableItems};
pub use ctid::{ctid, Ctid, Tid, TidError, TidValue};
pub use deep_clone::DeepClone;
pub use either::Either;
pub use enum_codec::{EnumCodec, EnumVariant};
pub use error::{InvalidArray, ParseIntError, TryFromIntError};
pub use id_index::{new_indexmap, IdIndex};
pub use integer::{U15, U31, U63};
pub use join::{reconstruct, Entry, JoinError, Level, Plan, Record, Value};
pub use json::{frame_jsonb, unframe_jsonb, Json, JsonbFrameError, Jsonb, JSONB_VERSION};
pub use quantity::Quantity;
pub use rename_rule::RenameRule;
