//! One table, as an entity of the graph.

use crate::types::column_meta::{column_views, ColumnMeta, ColumnMetaView};
use crate::types::foreign_key_meta::{key_views, ForeignKeyMeta, ForeignKeyMetaView};
use vstd::prelude::*;
use vstd::string::*;

verus! {

/// An entity: a table with its columns, in schema order, and every foreign
/// key that starts or ends at it.
#[derive(Debug, Clone, PartialEq, Eq)]
pub struct TableMeta {
    /// The entity's name, in upper camel case.
    pub entity_name: String,
    /// The entity's module, in snake case.
    pub entity_module: String,
    /// The name of the entity's filter input.
    pub entity_filter: String,
    pub columns: Vec<ColumnMeta>,
    pub foreign_keys: Vec<ForeignKeyMeta>,
}

/// The mathematical content of a [`TableMeta`].
pub struct TableMetaView {
    pub entity_name: Seq<char>,
    pub entity_module: Seq<char>,
    pub entity_filter: Seq<char>,
    pub columns: Seq<ColumnMetaView>,
    pub foreign_keys: Seq<ForeignKeyMetaView>,
}

impl View for TableMeta {
    type V = TableMetaView;

    open spec fn view(&self) -> TableMetaView {
        TableMetaView {
            entity_name: self.entity_name@,
            entity_module: self.entity_module@,
            entity_filter: self.entity_filter@,
            columns: column_views(self.columns@),
            foreign_keys: key_views(self.foreign_keys@),
        }
    }
}

/// The views of a list of tables.
pub open spec fn table_views(list: Seq<TableMeta>) -> Seq<TableMetaView> {
    list.map_values(|t: TableMeta| t@)
}

} // verus!
