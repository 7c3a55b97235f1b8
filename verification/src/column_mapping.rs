//! The getter of a discovered column.

use crate::database_schema::{type_of, ColumnDef, ColumnDefView};
use crate::graphql::entities::Getter;
use crate::naming::{snake_case, to_snake_case};
use crate::types::column_meta::ColumnType;
use vstd::prelude::*;
use vstd::string::*;

verus! {

/// `getter` is the getter of the discovered column: named after the column,
/// in snake case, and returning the column's type.
pub open spec fn maps_column(getter: Getter, column: ColumnDefView) -> bool {
    getter.name@ == snake_case(column.name) && getter.return_type@ == type_of(
        column,
    ).rust_name_of()
}

/// The getter of a discovered column.
pub fn column_mapping(column: &ColumnDef) -> (getter: Getter)
    ensures
        maps_column(getter, column@),
{
    let column_type = ColumnType { kind: column.kind, optional: column.nullable };
    Getter { name: to_snake_case(column.name.as_str()), return_type: column_type.rust_name() }
}

} // verus!
