//! One column of a table, with its scalar type.

use vstd::prelude::*;
use vstd::string::*;

verus! {

/// The scalar types a column can have.
#[derive(Debug, Clone, Copy, PartialEq, Eq, Structural)]
pub enum ScalarKind {
    TinyInteger,
    SmallInteger,
    Integer,
    BigInteger,
    TinyUnsigned,
    SmallUnsigned,
    Unsigned,
    BigUnsigned,
    Float,
    Double,
    Boolean,
    Text,
    DateTime,
    Decimal,
}

/// A scalar type, optional where the column admits null.
#[derive(Debug, Clone, Copy, PartialEq, Eq, Structural)]
pub struct ColumnType {
    pub kind: ScalarKind,
    pub optional: bool,
}

/// One column of an entity.
#[derive(Debug, Clone, PartialEq, Eq)]
pub struct ColumnMeta {
    /// The column's name in snake case.
    pub column_name: String,
    /// The column's name in upper camel case.
    pub column_enum_name: String,
    pub column_type: ColumnType,
    /// The scalar type that filters on this column compare with.
    pub column_filter_type: ScalarKind,
    pub not_null: bool,
    pub is_primary_key: bool,
    pub is_foreign_key: bool,
}

/// The mathematical content of a [`ColumnMeta`].
pub struct ColumnMetaView {
    pub column_name: Seq<char>,
    pub column_enum_name: Seq<char>,
    pub column_type: ColumnType,
    pub column_filter_type: ScalarKind,
    pub not_null: bool,
    pub is_primary_key: bool,
    pub is_foreign_key: bool,
}

impl ColumnMetaView {
    /// The type is optional exactly where the column admits null, and filters
    /// compare with the column's own scalar type.
    pub open spec fn well_formed(self) -> bool {
        &&& self.column_type.optional == !self.not_null
        &&& self.column_filter_type == self.column_type.kind
    }
}

impl View for ColumnMeta {
    type V = ColumnMetaView;

    open spec fn view(&self) -> ColumnMetaView {
        ColumnMetaView {
            column_name: self.column_name@,
            column_enum_name: self.column_enum_name@,
            column_type: self.column_type,
            column_filter_type: self.column_filter_type,
            not_null: self.not_null,
            is_primary_key: self.is_primary_key,
            is_foreign_key: self.is_foreign_key,
        }
    }
}

/// The views of a list of columns.
pub open spec fn column_views(list: Seq<ColumnMeta>) -> Seq<ColumnMetaView> {
    list.map_values(|c: ColumnMeta| c@)
}

impl ScalarKind {
    /// The name of the filter input that compares values of this type.
    pub open spec fn filter_name_of(self) -> Seq<char> {
        match self {
            ScalarKind::TinyInteger => "TinyIntegerFilter"@,
            ScalarKind::SmallInteger => "SmallIntegerFilter"@,
            ScalarKind::Integer => "IntegerFilter"@,
            ScalarKind::BigInteger => "BigIntegerFilter"@,
            ScalarKind::TinyUnsigned => "TinyUnsignedFilter"@,
            ScalarKind::SmallUnsigned => "SmallUnsignedFilter"@,
            ScalarKind::Unsigned => "UnsignedFilter"@,
            ScalarKind::BigUnsigned => "BigUnsignedFilter"@,
            ScalarKind::Float => "FloatFilter"@,
            ScalarKind::Double => "DoubleFilter"@,
            ScalarKind::Boolean => "BooleanFilter"@,
            ScalarKind::Text => "StringFilter"@,
            ScalarKind::DateTime => "DateTimeFilter"@,
            ScalarKind::Decimal => "DecimalFilter"@,
        }
    }

    /// The name of the filter input that compares values of this type.
    pub fn filter_name(&self) -> (name: String)
        ensures
            name@ == self.filter_name_of(),
    {
        match self {
            ScalarKind::TinyInteger => String::from_str("TinyIntegerFilter"),
            ScalarKind::SmallInteger => String::from_str("SmallIntegerFilter"),
            ScalarKind::Integer => String::from_str("IntegerFilter"),
            ScalarKind::BigInteger => String::from_str("BigIntegerFilter"),
            ScalarKind::TinyUnsigned => String::from_str("TinyUnsignedFilter"),
            ScalarKind::SmallUnsigned => String::from_str("SmallUnsignedFilter"),
            ScalarKind::Unsigned => String::from_str("UnsignedFilter"),
            ScalarKind::BigUnsigned => String::from_str("BigUnsignedFilter"),
            ScalarKind::Float => String::from_str("FloatFilter"),
            ScalarKind::Double => String::from_str("DoubleFilter"),
            ScalarKind::Boolean => String::from_str("BooleanFilter"),
            ScalarKind::Text => String::from_str("StringFilter"),
            ScalarKind::DateTime => String::from_str("DateTimeFilter"),
            ScalarKind::Decimal => String::from_str("DecimalFilter"),
        }
    }

    /// The name of this type in the generated code.
    pub open spec fn rust_name_of(self) -> Seq<char> {
        match self {
            ScalarKind::TinyInteger => "i8"@,
            ScalarKind::SmallInteger => "i16"@,
            ScalarKind::Integer => "i32"@,
            ScalarKind::BigInteger => "i64"@,
            ScalarKind::TinyUnsigned => "u8"@,
            ScalarKind::SmallUnsigned => "u16"@,
            ScalarKind::Unsigned => "u32"@,
            ScalarKind::BigUnsigned => "u64"@,
            ScalarKind::Float => "f32"@,
            ScalarKind::Double => "f64"@,
            ScalarKind::Boolean => "bool"@,
            ScalarKind::Text => "String"@,
            ScalarKind::DateTime => "DateTime"@,
            ScalarKind::Decimal => "Decimal"@,
        }
    }

    /// The name of this type in the generated code.
    pub fn rust_name(&self) -> (name: String)
        ensures
            name@ == self.rust_name_of(),
    {
        match self {
            ScalarKind::TinyInteger => String::from_str("i8"),
            ScalarKind::SmallInteger => String::from_str("i16"),
            ScalarKind::Integer => String::from_str("i32"),
            ScalarKind::BigInteger => String::from_str("i64"),
            ScalarKind::TinyUnsigned => String::from_str("u8"),
            ScalarKind::SmallUnsigned => String::from_str("u16"),
            ScalarKind::Unsigned => String::from_str("u32"),
            ScalarKind::BigUnsigned => String::from_str("u64"),
            ScalarKind::Float => String::from_str("f32"),
            ScalarKind::Double => String::from_str("f64"),
            ScalarKind::Boolean => String::from_str("bool"),
            ScalarKind::Text => String::from_str("String"),
            ScalarKind::DateTime => String::from_str("DateTime"),
            ScalarKind::Decimal => String::from_str("Decimal"),
        }
    }
}

impl ColumnType {
    /// The type as the generated code writes it: the scalar's name, inside
    /// `Option<..>` where the column admits null.
    pub open spec fn rust_name_of(self) -> Seq<char> {
        if self.optional {
            "Option<"@ + self.kind.rust_name_of() + ">"@
        } else {
            self.kind.rust_name_of()
        }
    }

    /// The type as the generated code writes it.
    pub fn rust_name(&self) -> (name: String)
        ensures
            name@ == self.rust_name_of(),
    {
        let scalar = self.kind.rust_name();
        if self.optional {
            let mut name = String::from_str("Option<");
            name.append(scalar.as_str());
            name.append(">");
            name
        } else {
            scalar
        }
    }
}

} // verus!
