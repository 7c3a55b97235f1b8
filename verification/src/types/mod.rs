//! The metadata model: columns, foreign keys and tables.

pub mod column_meta;
pub mod foreign_key_meta;
pub mod table_meta;

pub use column_meta::{ColumnMeta, ColumnMetaView, ColumnType, ScalarKind};
pub use foreign_key_meta::{ForeignKeyMeta, ForeignKeyMetaView};
pub use table_meta::{TableMeta, TableMetaView};
