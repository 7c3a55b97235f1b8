//! One foreign-key constraint, seen from both of its ends.

use crate::naming::texts;
use crate::types::column_meta::ColumnType;
use vstd::prelude::*;
use vstd::string::*;

verus! {

/// A foreign key: the columns of the source table that refer to the columns
/// of the destination table, paired by position.
#[derive(Debug, Clone, PartialEq, Eq)]
pub struct ForeignKeyMeta {
    /// The source entity's name, in upper camel case.
    pub source_table_name: String,
    /// The source entity's module, in snake case.
    pub source_table_module: String,
    pub source_columns: Vec<String>,
    pub source_column_types: Vec<ColumnType>,
    /// The destination entity's name, in upper camel case.
    pub destination_table_name: String,
    /// The destination entity's module, in snake case.
    pub destination_table_module: String,
    pub destination_columns: Vec<String>,
    pub destination_column_types: Vec<ColumnType>,
}

/// The mathematical content of a [`ForeignKeyMeta`].
pub struct ForeignKeyMetaView {
    pub source_table_name: Seq<char>,
    pub source_table_module: Seq<char>,
    pub source_columns: Seq<Seq<char>>,
    pub source_column_types: Seq<ColumnType>,
    pub destination_table_name: Seq<char>,
    pub destination_table_module: Seq<char>,
    pub destination_columns: Seq<Seq<char>>,
    pub destination_column_types: Seq<ColumnType>,
}

/// Some type of the list is optional.
pub open spec fn any_optional(types: Seq<ColumnType>) -> bool {
    exists|i: int| 0 <= i < types.len() && (#[trigger] types[i]).optional
}

/// For each type of the list, whether it is optional.
pub open spec fn optional_flags(types: Seq<ColumnType>) -> Seq<bool> {
    types.map_values(|t: ColumnType| t.optional)
}

impl ForeignKeyMetaView {
    /// The key has at least one column, and as many source columns as
    /// destination columns, each with its type.
    pub open spec fn well_formed(self) -> bool {
        &&& self.source_columns.len() >= 1
        &&& self.source_columns.len() == self.destination_columns.len()
        &&& self.source_column_types.len() == self.source_columns.len()
        &&& self.destination_column_types.len() == self.destination_columns.len()
    }

    /// Seen from the entity `table_name`, the key points at it.
    pub open spec fn is_reverse(self, table_name: Seq<char>) -> bool {
        self.destination_table_name == table_name
    }

    /// The column types of the end from which the key is seen.
    pub open spec fn column_types(self, is_reverse: bool) -> Seq<ColumnType> {
        if is_reverse {
            self.destination_column_types
        } else {
            self.source_column_types
        }
    }
}

impl View for ForeignKeyMeta {
    type V = ForeignKeyMetaView;

    open spec fn view(&self) -> ForeignKeyMetaView {
        ForeignKeyMetaView {
            source_table_name: self.source_table_name@,
            source_table_module: self.source_table_module@,
            source_columns: texts(self.source_columns@),
            source_column_types: self.source_column_types@,
            destination_table_name: self.destination_table_name@,
            destination_table_module: self.destination_table_module@,
            destination_columns: texts(self.destination_columns@),
            destination_column_types: self.destination_column_types@,
        }
    }
}

/// The views of a list of foreign keys.
pub open spec fn key_views(list: Seq<ForeignKeyMeta>) -> Seq<ForeignKeyMetaView> {
    list.map_values(|k: ForeignKeyMeta| k@)
}

fn some_optional(types: &Vec<ColumnType>) -> (found: bool)
    ensures
        found == any_optional(types@),
{
    let mut i: usize = 0;
    while i < types.len()
        invariant
            0 <= i <= types.len(),
            forall|j: int| 0 <= j < i ==> !(#[trigger] types@[j]).optional,
        decreases types.len() - i,
    {
        if types[i].optional {
            return true;
        }
        i += 1;
    }
    false
}

fn flags(types: &Vec<ColumnType>) -> (list: Vec<bool>)
    ensures
        list@ == optional_flags(types@),
{
    let mut list: Vec<bool> = Vec::new();
    let mut i: usize = 0;
    while i < types.len()
        invariant
            0 <= i <= types.len(),
            list@ == optional_flags(types@).take(i as int),
        decreases types.len() - i,
    {
        list.push(types[i].optional);
        assert(list@ =~= optional_flags(types@).take(i + 1));
        i += 1;
    }
    assert(optional_flags(types@).take(types.len() as int) =~= optional_flags(types@));
    list
}

impl ForeignKeyMeta {
    /// Whether the key, seen from the entity `table_name`, points at it.
    pub fn is_reverse(&self, table_name: &String) -> (reverse: bool)
        ensures
            reverse == self@.is_reverse(table_name@),
    {
        self.destination_table_name == *table_name
    }

    /// Whether some column of the end from which the key is seen admits null.
    pub fn is_optional(&self, is_reverse: bool) -> (optional: bool)
        ensures
            optional == any_optional(self@.column_types(is_reverse)),
    {
        if is_reverse {
            some_optional(&self.destination_column_types)
        } else {
            some_optional(&self.source_column_types)
        }
    }

    /// Whether some source column admits null.
    pub fn is_source_optional(&self) -> (optional: bool)
        ensures
            optional == any_optional(self@.source_column_types),
    {
        self.is_optional(false)
    }

    /// Whether some destination column admits null.
    pub fn is_destination_optional(&self) -> (optional: bool)
        ensures
            optional == any_optional(self@.destination_column_types),
    {
        self.is_optional(true)
    }

    /// For each column of the end from which the key is seen, whether it
    /// admits null.
    pub fn get_optional_columns(&self, is_reverse: bool) -> (list: Vec<bool>)
        ensures
            list@ == optional_flags(self@.column_types(is_reverse)),
    {
        if is_reverse {
            flags(&self.destination_column_types)
        } else {
            flags(&self.source_column_types)
        }
    }

    /// For each source column, whether it admits null.
    pub fn get_source_optional(&self) -> (list: Vec<bool>)
        ensures
            list@ == optional_flags(self@.source_column_types),
    {
        self.get_optional_columns(false)
    }

    /// For each destination column, whether it admits null.
    pub fn get_destination_optional(&self) -> (list: Vec<bool>)
        ensures
            list@ == optional_flags(self@.destination_column_types),
    {
        self.get_optional_columns(true)
    }
}

} // verus!
