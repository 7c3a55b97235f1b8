//! The metadata builder: from the raw facts of a discovered schema to the
//! entities of the graph.

use crate::naming::{
    copy_texts, snake_case, texts, to_snake_case, to_upper_camel_case, upper_camel_case,
};
use crate::types::column_meta::{ColumnMeta, ColumnMetaView, ColumnType, ScalarKind};
use crate::graphql::entities::generate_entity_relations;
use crate::relation::{relation_views, relations_of, Relation, RelationView};
use crate::types::column_meta::column_views;
use crate::types::foreign_key_meta::{key_views, ForeignKeyMeta, ForeignKeyMetaView};
use crate::types::table_meta::{table_views, TableMeta, TableMetaView};
use vstd::prelude::*;
use vstd::string::*;

verus! {

/// A column as discovered.
#[derive(Debug, Clone, PartialEq, Eq)]
pub struct ColumnDef {
    pub name: String,
    pub kind: ScalarKind,
    pub nullable: bool,
    pub primary_key: bool,
}

/// A foreign-key constraint as discovered: columns of the owning table, and
/// the table and columns they refer to.
#[derive(Debug, Clone, PartialEq, Eq)]
pub struct ForeignKeyDef {
    pub columns: Vec<String>,
    pub ref_table: String,
    pub ref_columns: Vec<String>,
}

/// A table as discovered, its columns in schema order.
#[derive(Debug, Clone, PartialEq, Eq)]
pub struct TableDef {
    pub name: String,
    pub columns: Vec<ColumnDef>,
    pub foreign_keys: Vec<ForeignKeyDef>,
}

/// A discovered schema.
#[derive(Debug, Clone, PartialEq, Eq)]
pub struct Schema {
    pub tables: Vec<TableDef>,
}

pub struct ColumnDefView {
    pub name: Seq<char>,
    pub kind: ScalarKind,
    pub nullable: bool,
    pub primary_key: bool,
}

pub struct ForeignKeyDefView {
    pub columns: Seq<Seq<char>>,
    pub ref_table: Seq<char>,
    pub ref_columns: Seq<Seq<char>>,
}

pub struct TableDefView {
    pub name: Seq<char>,
    pub columns: Seq<ColumnDefView>,
    pub foreign_keys: Seq<ForeignKeyDefView>,
}

pub struct SchemaView {
    pub tables: Seq<TableDefView>,
}

impl View for ColumnDef {
    type V = ColumnDefView;

    open spec fn view(&self) -> ColumnDefView {
        ColumnDefView {
            name: self.name@,
            kind: self.kind,
            nullable: self.nullable,
            primary_key: self.primary_key,
        }
    }
}

impl View for ForeignKeyDef {
    type V = ForeignKeyDefView;

    open spec fn view(&self) -> ForeignKeyDefView {
        ForeignKeyDefView {
            columns: texts(self.columns@),
            ref_table: self.ref_table@,
            ref_columns: texts(self.ref_columns@),
        }
    }
}

impl View for TableDef {
    type V = TableDefView;

    open spec fn view(&self) -> TableDefView {
        TableDefView {
            name: self.name@,
            columns: self.columns@.map_values(|c: ColumnDef| c@),
            foreign_keys: self.foreign_keys@.map_values(|k: ForeignKeyDef| k@),
        }
    }
}

impl View for Schema {
    type V = SchemaView;

    open spec fn view(&self) -> SchemaView {
        SchemaView { tables: self.tables@.map_values(|t: TableDef| t@) }
    }
}

/// Why a schema cannot become a graph.
#[derive(Debug, Clone, PartialEq, Eq)]
pub enum SchemaIntegrityError {
    /// A foreign key of `table` has no column, or not as many columns as it
    /// refers to.
    MalformedKey { table: String },
    /// A foreign key of `table` names `target`, a table or a column that
    /// does not exist.
    DanglingReference { table: String, target: String },
    /// Two tables give the same entity name or the same module name `name`.
    EntityCollision { name: String },
    /// Two relations of `entity` give the same identifier `name`.
    RelationCollision { entity: String, name: String },
}

pub enum SchemaIntegrityErrorView {
    MalformedKey { table: Seq<char> },
    DanglingReference { table: Seq<char>, target: Seq<char> },
    EntityCollision { name: Seq<char> },
    RelationCollision { entity: Seq<char>, name: Seq<char> },
}

impl View for SchemaIntegrityError {
    type V = SchemaIntegrityErrorView;

    open spec fn view(&self) -> SchemaIntegrityErrorView {
        match self {
            SchemaIntegrityError::MalformedKey { table } => SchemaIntegrityErrorView::MalformedKey {
                table: table@,
            },
            SchemaIntegrityError::DanglingReference {
                table,
                target,
            } => SchemaIntegrityErrorView::DanglingReference { table: table@, target: target@ },
            SchemaIntegrityError::EntityCollision {
                name,
            } => SchemaIntegrityErrorView::EntityCollision { name: name@ },
            SchemaIntegrityError::RelationCollision {
                entity,
                name,
            } => SchemaIntegrityErrorView::RelationCollision { entity: entity@, name: name@ },
        }
    }
}

/// The column at `i` is the first one called `name`.
pub open spec fn is_first_column(columns: Seq<ColumnDefView>, name: Seq<char>, i: int) -> bool {
    &&& 0 <= i < columns.len()
    &&& columns[i].name == name
    &&& forall|j: int| 0 <= j < i ==> (#[trigger] columns[j]).name != name
}

/// Some column is called `name`.
pub open spec fn has_column(columns: Seq<ColumnDefView>, name: Seq<char>) -> bool {
    exists|i: int| is_first_column(columns, name, i)
}

/// The first column called `name`.
pub open spec fn column_of(columns: Seq<ColumnDefView>, name: Seq<char>) -> ColumnDefView {
    columns[choose|i: int| is_first_column(columns, name, i)]
}

/// The type of a discovered column: optional exactly where it admits null.
pub open spec fn type_of(column: ColumnDefView) -> ColumnType {
    ColumnType { kind: column.kind, optional: column.nullable }
}

/// The types of the columns called `names`, in order.
pub open spec fn column_types_of(columns: Seq<ColumnDefView>, names: Seq<Seq<char>>) -> Seq<
    ColumnType,
> {
    names.map_values(|n: Seq<char>| type_of(column_of(columns, n)))
}

/// The name at `k` is the first of `names` that no column bears.
pub open spec fn is_first_missing(
    columns: Seq<ColumnDefView>,
    names: Seq<Seq<char>>,
    k: int,
) -> bool {
    &&& 0 <= k < names.len()
    &&& !has_column(columns, names[k])
    &&& forall|j: int| 0 <= j < k ==> has_column(columns, #[trigger] names[j])
}

/// Every one of `names` is borne by a column.
pub open spec fn all_present(columns: Seq<ColumnDefView>, names: Seq<Seq<char>>) -> bool {
    forall|k: int| 0 <= k < names.len() ==> has_column(columns, #[trigger] names[k])
}

/// The first of `names` that no column bears.
pub open spec fn first_missing(columns: Seq<ColumnDefView>, names: Seq<Seq<char>>) -> Seq<char> {
    names[choose|k: int| is_first_missing(columns, names, k)]
}

/// The table at `i` is the first whose entity name is `entity`.
pub open spec fn is_first_table(schema: SchemaView, entity: Seq<char>, i: int) -> bool {
    &&& 0 <= i < schema.tables.len()
    &&& upper_camel_case(schema.tables[i].name) == entity
    &&& forall|j: int|
        0 <= j < i ==> upper_camel_case((#[trigger] schema.tables[j]).name) != entity
}

/// Some table has the entity name `entity`.
pub open spec fn has_table(schema: SchemaView, entity: Seq<char>) -> bool {
    exists|i: int| is_first_table(schema, entity, i)
}

/// The first table whose entity name is `entity`.
pub open spec fn table_of(schema: SchemaView, entity: Seq<char>) -> TableDefView {
    schema.tables[choose|i: int| is_first_table(schema, entity, i)]
}

/// What is wrong with foreign key `f` of table `t`, if anything: checked in
/// this order, it has no column or unpaired columns; one of its own columns
/// does not exist; the table it refers to does not exist; a column it refers
/// to does not exist.
pub open spec fn key_fault(schema: SchemaView, t: int, f: int) -> Option<
    SchemaIntegrityErrorView,
> {
    let table = schema.tables[t];
    let key = table.foreign_keys[f];
    let entity = upper_camel_case(key.ref_table);
    if key.columns.len() == 0 || key.columns.len() != key.ref_columns.len() {
        Some(SchemaIntegrityErrorView::MalformedKey { table: table.name })
    } else if !all_present(table.columns, key.columns) {
        Some(
            SchemaIntegrityErrorView::DanglingReference {
                table: table.name,
                target: first_missing(table.columns, key.columns),
            },
        )
    } else if !has_table(schema, entity) {
        Some(
            SchemaIntegrityErrorView::DanglingReference {
                table: table.name,
                target: key.ref_table,
            },
        )
    } else if !all_present(table_of(schema, entity).columns, key.ref_columns) {
        Some(
            SchemaIntegrityErrorView::DanglingReference {
                table: table.name,
                target: first_missing(table_of(schema, entity).columns, key.ref_columns),
            },
        )
    } else {
        None
    }
}

/// The metadata of foreign key `f` of table `t`.
pub open spec fn key_meta(schema: SchemaView, t: int, f: int) -> ForeignKeyMetaView {
    let table = schema.tables[t];
    let key = table.foreign_keys[f];
    let source = upper_camel_case(table.name);
    let destination = upper_camel_case(key.ref_table);
    ForeignKeyMetaView {
        source_table_name: source,
        source_table_module: snake_case(source),
        source_columns: key.columns,
        source_column_types: column_types_of(table.columns, key.columns),
        destination_table_name: destination,
        destination_table_module: snake_case(destination),
        destination_columns: key.ref_columns,
        destination_column_types: column_types_of(
            table_of(schema, destination).columns,
            key.ref_columns,
        ),
    }
}

/// The metadata of a discovered column.
pub open spec fn column_meta_of(column: ColumnDefView) -> ColumnMetaView {
    ColumnMetaView {
        column_name: snake_case(column.name),
        column_enum_name: upper_camel_case(column.name),
        column_type: type_of(column),
        column_filter_type: column.kind,
        not_null: !column.nullable,
        is_primary_key: column.primary_key,
        is_foreign_key: false,
    }
}

fn find_column(columns: &Vec<ColumnDef>, name: &String) -> (found: Option<usize>)
    ensures
        match found {
            Some(i) => is_first_column(columns@.map_values(|c: ColumnDef| c@), name@, i as int),
            None => !has_column(columns@.map_values(|c: ColumnDef| c@), name@),
        },
{
    let ghost views = columns@.map_values(|c: ColumnDef| c@);
    let mut i: usize = 0;
    while i < columns.len()
        invariant
            0 <= i <= columns.len(),
            views == columns@.map_values(|c: ColumnDef| c@),
            forall|j: int| 0 <= j < i ==> (#[trigger] views[j]).name != name@,
        decreases columns.len() - i,
    {
        if columns[i].name == *name {
            assert(views[i as int].name == name@);
            return Some(i);
        }
        i += 1;
    }
    None
}

/// The types of the columns called `names`, or the first name that no
/// column bears.
fn resolve_columns(columns: &Vec<ColumnDef>, names: &Vec<String>) -> (found: Result<
    Vec<ColumnType>,
    String,
>)
    ensures
        match found {
            Ok(types) => {
                &&& all_present(columns@.map_values(|c: ColumnDef| c@), texts(names@))
                &&& types@ == column_types_of(columns@.map_values(|c: ColumnDef| c@), texts(names@))
            },
            Err(name) => {
                &&& !all_present(columns@.map_values(|c: ColumnDef| c@), texts(names@))
                &&& name@ == first_missing(columns@.map_values(|c: ColumnDef| c@), texts(names@))
            },
        },
{
    let ghost views = columns@.map_values(|c: ColumnDef| c@);
    let ghost wanted = texts(names@);
    let mut types: Vec<ColumnType> = Vec::new();
    let mut k: usize = 0;
    while k < names.len()
        invariant
            0 <= k <= names.len(),
            views == columns@.map_values(|c: ColumnDef| c@),
            wanted == texts(names@),
            forall|j: int| 0 <= j < k ==> has_column(views, #[trigger] wanted[j]),
            types@ == column_types_of(views, wanted).take(k as int),
        decreases names.len() - k,
    {
        match find_column(columns, &names[k]) {
            Some(i) => {
                proof {
                    let chosen = choose|c: int| is_first_column(views, wanted[k as int], c);
                    assert(is_first_column(views, wanted[k as int], i as int));
                    assert(chosen == i);
                }
                types.push(
                    ColumnType { kind: columns[i].kind, optional: columns[i].nullable },
                );
                assert(types@ =~= column_types_of(views, wanted).take(k + 1));
            },
            None => {
                proof {
                    assert(is_first_missing(views, wanted, k as int));
                    let chosen = choose|c: int| is_first_missing(views, wanted, c);
                    assert(chosen == k);
                }
                return Err(names[k].clone());
            },
        }
        k += 1;
    }
    assert(column_types_of(views, wanted).take(names.len() as int) =~= column_types_of(
        views,
        wanted,
    ));
    Ok(types)
}

/// The entity names of the schema's tables, in order.
fn entity_names(schema: &Schema) -> (names: Vec<String>)
    ensures
        names.len() == schema.tables.len(),
        forall|i: int|
            0 <= i < names.len() ==> (#[trigger] names@[i])@ == upper_camel_case(
                schema@.tables[i].name,
            ),
{
    let mut names: Vec<String> = Vec::new();
    let mut i: usize = 0;
    while i < schema.tables.len()
        invariant
            0 <= i <= schema.tables.len(),
            names.len() == i,
            forall|j: int|
                0 <= j < i ==> (#[trigger] names@[j])@ == upper_camel_case(schema@.tables[j].name),
        decreases schema.tables.len() - i,
    {
        let name = to_upper_camel_case(schema.tables[i].name.as_str());
        assert(schema@.tables[i as int].name == schema.tables[i as int].name@);
        names.push(name);
        i += 1;
    }
    names
}

/// The first position at which `names` holds `wanted`.
fn find_name(names: &Vec<String>, wanted: &String) -> (found: Option<usize>)
    ensures
        match found {
            Some(i) => {
                &&& i < names.len()
                &&& names@[i as int]@ == wanted@
                &&& forall|j: int| 0 <= j < i ==> (#[trigger] names@[j])@ != wanted@
            },
            None => forall|j: int| 0 <= j < names.len() ==> (#[trigger] names@[j])@ != wanted@,
        },
{
    let mut i: usize = 0;
    while i < names.len()
        invariant
            0 <= i <= names.len(),
            forall|j: int| 0 <= j < i ==> (#[trigger] names@[j])@ != wanted@,
        decreases names.len() - i,
    {
        if names[i] == *wanted {
            return Some(i);
        }
        i += 1;
    }
    None
}

/// The metadata of foreign key `f` of table `t`, or what is wrong with the
/// key. `entities` holds the entity names of the schema's tables.
fn parse_table_fk(schema: &Schema, entities: &Vec<String>, t: usize, f: usize) -> (parsed: Result<
    ForeignKeyMeta,
    SchemaIntegrityError,
>)
    requires
        t < schema.tables.len(),
        f < schema.tables[t as int].foreign_keys.len(),
        entities.len() == schema.tables.len(),
        forall|i: int|
            0 <= i < entities.len() ==> (#[trigger] entities@[i])@ == upper_camel_case(
                schema@.tables[i].name,
            ),
    ensures
        match parsed {
            Ok(meta) => key_fault(schema@, t as int, f as int) is None && meta@ == key_meta(
                schema@,
                t as int,
                f as int,
            ),
            Err(fault) => key_fault(schema@, t as int, f as int) == Some(fault@),
        },
{
    let table = &schema.tables[t];
    let key = &table.foreign_keys[f];
    proof {
        assert(schema@.tables[t as int] == table@);
        assert(table@.foreign_keys[f as int] == key@);
        assert(key@.columns.len() == key.columns.len());
        assert(key@.ref_columns.len() == key.ref_columns.len());
    }
    if key.columns.len() == 0 || key.columns.len() != key.ref_columns.len() {
        return Err(SchemaIntegrityError::MalformedKey { table: table.name.clone() });
    }
    let source_types = match resolve_columns(&table.columns, &key.columns) {
        Ok(types) => types,
        Err(missing) => {
            return Err(
                SchemaIntegrityError::DanglingReference {
                    table: table.name.clone(),
                    target: missing,
                },
            );
        },
    };
    let destination = to_upper_camel_case(key.ref_table.as_str());
    let d = match find_name(entities, &destination) {
        Some(d) => d,
        None => {
            proof {
                assert forall|i: int| !is_first_table(schema@, destination@, i) by {
                    if 0 <= i < schema@.tables.len() {
                        assert(entities@[i]@ != destination@);
                    }
                }
            }
            return Err(
                SchemaIntegrityError::DanglingReference {
                    table: table.name.clone(),
                    target: key.ref_table.clone(),
                },
            );
        },
    };
    proof {
        assert forall|j: int| 0 <= j < d implies upper_camel_case(
            (#[trigger] schema@.tables[j]).name,
        ) != destination@ by {
            assert(entities@[j]@ != destination@);
        }
        assert(is_first_table(schema@, destination@, d as int));
        let chosen = choose|i: int| is_first_table(schema@, destination@, i);
        assert(chosen == d);
        assert(table_of(schema@, destination@) == schema.tables[d as int]@);
    }
    let destination_types = match resolve_columns(&schema.tables[d].columns, &key.ref_columns) {
        Ok(types) => types,
        Err(missing) => {
            return Err(
                SchemaIntegrityError::DanglingReference {
                    table: table.name.clone(),
                    target: missing,
                },
            );
        },
    };
    let source = entities[t].clone();
    let source_module = to_snake_case(source.as_str());
    let destination_module = to_snake_case(destination.as_str());
    Ok(
        ForeignKeyMeta {
            source_table_name: source,
            source_table_module: source_module,
            source_columns: copy_texts(&key.columns),
            source_column_types: source_types,
            destination_table_name: destination,
            destination_table_module: destination_module,
            destination_columns: copy_texts(&key.ref_columns),
            destination_column_types: destination_types,
        },
    )
}

/// The metadata of the foreign keys of table `t`, in order.
pub open spec fn keys_of_table(schema: SchemaView, t: int) -> Seq<ForeignKeyMetaView> {
    Seq::new(schema.tables[t].foreign_keys.len(), |f: int| key_meta(schema, t, f))
}

/// The metadata of the foreign keys of the first `n` tables, table by table.
pub open spec fn keys_upto(schema: SchemaView, n: int) -> Seq<ForeignKeyMetaView>
    decreases n,
{
    if n <= 0 {
        Seq::empty()
    } else {
        keys_upto(schema, n - 1) + keys_of_table(schema, n - 1)
    }
}

/// The metadata of every foreign key of the schema, table by table.
pub open spec fn all_keys(schema: SchemaView) -> Seq<ForeignKeyMetaView> {
    keys_upto(schema, schema.tables.len() as int)
}

/// The key starts or ends at the entity called `entity`.
pub open spec fn touches(key: ForeignKeyMetaView, entity: Seq<char>) -> bool {
    key.source_table_name == entity || key.destination_table_name == entity
}

/// Those of `keys` that start or end at the entity called `entity`.
pub open spec fn keys_touching(keys: Seq<ForeignKeyMetaView>, entity: Seq<char>) -> Seq<
    ForeignKeyMetaView,
> {
    keys.filter(|k: ForeignKeyMetaView| touches(k, entity))
}

/// The name of the filter input of the entity called `entity`.
pub open spec fn entity_filter_of(entity: Seq<char>) -> Seq<char> {
    entity + seq!['F', 'i', 'l', 't', 'e', 'r']
}

/// The entity that table `t` becomes.
pub open spec fn entity_of(schema: SchemaView, t: int) -> TableMetaView {
    let table = schema.tables[t];
    let entity = upper_camel_case(table.name);
    TableMetaView {
        entity_name: entity,
        entity_module: snake_case(table.name),
        entity_filter: entity_filter_of(entity),
        columns: table.columns.map_values(|c: ColumnDefView| column_meta_of(c)),
        foreign_keys: keys_touching(all_keys(schema), entity),
    }
}

/// The graph that the schema becomes: one entity for each table, in order.
pub open spec fn graph_of(schema: SchemaView) -> Seq<TableMetaView> {
    Seq::new(schema.tables.len(), |t: int| entity_of(schema, t))
}

/// The relations of the entity that table `t` becomes.
pub open spec fn relations_of_table(schema: SchemaView, t: int) -> Seq<RelationView> {
    relations_of(entity_of(schema, t).entity_name, entity_of(schema, t).foreign_keys)
}

/// Foreign key `f` of table `t` is one of the schema's.
pub open spec fn is_key(schema: SchemaView, t: int, f: int) -> bool {
    0 <= t < schema.tables.len() && 0 <= f < schema.tables[t].foreign_keys.len()
}

/// Nothing is wrong with any foreign key.
pub open spec fn keys_sound(schema: SchemaView) -> bool {
    forall|t: int, f: int| is_key(schema, t, f) ==> #[trigger] key_fault(schema, t, f) is None
}

/// No two tables give the same entity name, nor the same module name.
pub open spec fn entities_distinct(schema: SchemaView) -> bool {
    forall|i: int, j: int|
        0 <= i < j < schema.tables.len() ==> {
            &&& upper_camel_case((#[trigger] schema.tables[i]).name) != upper_camel_case(
                (#[trigger] schema.tables[j]).name,
            )
            &&& snake_case(schema.tables[i].name) != snake_case(schema.tables[j].name)
        }
}

/// No two relations of the list have the same identifier.
pub open spec fn names_distinct(relations: Seq<RelationView>) -> bool {
    forall|a: int, b: int|
        0 <= a < b < relations.len() ==> (#[trigger] relations[a]).name != (
        #[trigger] relations[b]).name
}

/// On no entity do two relations have the same identifier.
pub open spec fn relations_distinct(schema: SchemaView) -> bool {
    forall|t: int|
        0 <= t < schema.tables.len() ==> names_distinct(#[trigger] relations_of_table(schema, t))
}

/// The schema can become a graph.
pub open spec fn schema_valid(schema: SchemaView) -> bool {
    &&& keys_sound(schema)
    &&& entities_distinct(schema)
    &&& relations_distinct(schema)
}

/// Foreign key `f` of table `t` is the first, table by table, with which
/// something is wrong, and `fault` is what is wrong with it.
pub open spec fn is_first_key_fault(
    schema: SchemaView,
    t: int,
    f: int,
    fault: SchemaIntegrityErrorView,
) -> bool {
    &&& is_key(schema, t, f)
    &&& key_fault(schema, t, f) == Some(fault)
    &&& forall|u: int, g: int|
        is_key(schema, u, g) && (u < t || (u == t && g < f)) ==> #[trigger] key_fault(
            schema,
            u,
            g,
        ) is None
}

/// Tables `i` and `j` are the first two, in table order, that give one
/// entity name, and `name` is that name.
pub open spec fn is_first_entity_collision(schema: SchemaView, i: int, j: int, name: Seq<char>)
    -> bool {
    &&& 0 <= i < j < schema.tables.len()
    &&& upper_camel_case(schema.tables[i].name) == name
    &&& upper_camel_case(schema.tables[j].name) == name
    &&& forall|a: int|
        0 <= a < i ==> upper_camel_case((#[trigger] schema.tables[a]).name) != name
    &&& forall|a: int, b: int|
        0 <= a < b < j ==> upper_camel_case((#[trigger] schema.tables[a]).name)
            != upper_camel_case((#[trigger] schema.tables[b]).name)
}

/// No two tables give the same entity name; tables `i` and `j` are the
/// first two, in table order, that give one module name, and `name` is that
/// name.
pub open spec fn is_first_module_collision(schema: SchemaView, i: int, j: int, name: Seq<char>)
    -> bool {
    &&& 0 <= i < j < schema.tables.len()
    &&& snake_case(schema.tables[i].name) == name
    &&& snake_case(schema.tables[j].name) == name
    &&& forall|a: int| 0 <= a < i ==> snake_case((#[trigger] schema.tables[a]).name) != name
    &&& forall|a: int, b: int|
        0 <= a < b < j ==> snake_case((#[trigger] schema.tables[a]).name) != snake_case(
            (#[trigger] schema.tables[b]).name,
        )
    &&& forall|a: int, b: int|
        0 <= a < b < schema.tables.len() ==> upper_camel_case(
            (#[trigger] schema.tables[a]).name,
        ) != upper_camel_case((#[trigger] schema.tables[b]).name)
}

/// Table `t` is the first whose relations collide; relations `a` and `b`
/// are the first two of them, in order, with one identifier, and `name` is
/// that identifier.
pub open spec fn is_first_relation_collision(
    schema: SchemaView,
    t: int,
    a: int,
    b: int,
    name: Seq<char>,
) -> bool {
    let relations = relations_of_table(schema, t);
    &&& 0 <= t < schema.tables.len()
    &&& forall|u: int| 0 <= u < t ==> names_distinct(#[trigger] relations_of_table(schema, u))
    &&& 0 <= a < b < relations.len()
    &&& relations[a].name == name
    &&& relations[b].name == name
    &&& forall|c: int| 0 <= c < a ==> (#[trigger] relations[c]).name != name
    &&& forall|c: int, d: int|
        0 <= c < d < b ==> (#[trigger] relations[c]).name != (#[trigger] relations[d]).name
}

/// Some foreign key is the first faulty one, and `fault` is what is wrong
/// with it.
pub open spec fn reports_key_fault(schema: SchemaView, fault: SchemaIntegrityErrorView) -> bool {
    exists|t: int, f: int| is_first_key_fault(schema, t, f, fault)
}

/// `name` is the first name on which two tables collide: an entity name,
/// or, where the entity names are all different, a module name.
pub open spec fn reports_entity_collision(schema: SchemaView, name: Seq<char>) -> bool {
    ||| exists|i: int, j: int| is_first_entity_collision(schema, i, j, name)
    ||| exists|i: int, j: int| is_first_module_collision(schema, i, j, name)
}

/// The entity called `entity` is the first with colliding relations, and
/// `name` is the first identifier on which two of them collide.
pub open spec fn reports_relation_collision(
    schema: SchemaView,
    entity: Seq<char>,
    name: Seq<char>,
) -> bool {
    exists|t: int, a: int, b: int|
        is_first_relation_collision(schema, t, a, b, name) && entity == upper_camel_case(
            schema.tables[t].name,
        )
}

/// `fault` is the account of why the schema cannot become a graph. A faulty
/// key is reported before any collision, and the first faulty key before
/// the others; a collision of entities before one of relations, and of each
/// kind the first.
pub open spec fn explains(schema: SchemaView, fault: SchemaIntegrityErrorView) -> bool {
    match fault {
        SchemaIntegrityErrorView::MalformedKey { .. } => reports_key_fault(schema, fault),
        SchemaIntegrityErrorView::DanglingReference { .. } => reports_key_fault(schema, fault),
        SchemaIntegrityErrorView::EntityCollision { name } => keys_sound(schema)
            && reports_entity_collision(schema, name),
        SchemaIntegrityErrorView::RelationCollision { entity, name } => keys_sound(schema)
            && entities_distinct(schema) && reports_relation_collision(schema, entity, name),
    }
}

/// Two accounts of why a schema cannot become a graph are the same
/// account: the fault that is reported is decided by the schema alone.
pub proof fn lemma_fault_is_determined(
    schema: SchemaView,
    first: SchemaIntegrityErrorView,
    second: SchemaIntegrityErrorView,
)
    requires
        explains(schema, first),
        explains(schema, second),
    ensures
        first == second,
{
    if reports_key_fault(schema, first) && !keys_sound(schema) {
        let (t, f) = choose|t: int, f: int| is_first_key_fault(schema, t, f, first);
        assert(key_fault(schema, t, f) is Some);
        assert(reports_key_fault(schema, second));
        let (u, g) = choose|u: int, g: int| is_first_key_fault(schema, u, g, second);
        assert(key_fault(schema, u, g) is Some);
        assert(t == u && f == g);
    } else if keys_sound(schema) {
        if reports_key_fault(schema, first) {
            let (t, f) = choose|t: int, f: int| is_first_key_fault(schema, t, f, first);
            assert(key_fault(schema, t, f) is Some);
        }
        if reports_key_fault(schema, second) {
            let (t, f) = choose|t: int, f: int| is_first_key_fault(schema, t, f, second);
            assert(key_fault(schema, t, f) is Some);
        }
        if !entities_distinct(schema) {
            lemma_entity_collision_is_determined(schema, first, second);
        } else {
            lemma_distinct_entities_do_not_collide(schema, first);
            lemma_distinct_entities_do_not_collide(schema, second);
            let (t, a, b) = choose|t: int, a: int, b: int|
                is_first_relation_collision(schema, t, a, b, first->RelationCollision_name)
                    && first->RelationCollision_entity == upper_camel_case(schema.tables[t].name);
            let (u, c, d) = choose|u: int, c: int, d: int|
                is_first_relation_collision(schema, u, c, d, second->RelationCollision_name)
                    && second->RelationCollision_entity == upper_camel_case(schema.tables[u].name);
            let left = relations_of_table(schema, t);
            let right = relations_of_table(schema, u);
            assert(!names_distinct(left)) by {
                assert(left[a].name == left[b].name);
            }
            assert(!names_distinct(right)) by {
                assert(right[c].name == right[d].name);
            }
            assert(t == u);
            assert(b == d) by {
                if b < d {
                    assert(left[a].name != left[b].name);
                }
                if d < b {
                    assert(left[c].name != left[d].name);
                }
            }
        }
    }
}

/// Where the entities are all different, no collision of entities is
/// reported, and a collision that is reported is one of relations.
proof fn lemma_distinct_entities_do_not_collide(schema: SchemaView, fault: SchemaIntegrityErrorView)
    requires
        keys_sound(schema),
        entities_distinct(schema),
        explains(schema, fault),
    ensures
        fault is RelationCollision,
{
    match fault {
        SchemaIntegrityErrorView::EntityCollision { name } => {
            if exists|i: int, j: int| is_first_entity_collision(schema, i, j, name) {
                let (i, j) = choose|i: int, j: int| is_first_entity_collision(schema, i, j, name);
                assert(upper_camel_case(schema.tables[i].name) == upper_camel_case(
                    schema.tables[j].name,
                ));
            } else {
                let (i, j) = choose|i: int, j: int| is_first_module_collision(schema, i, j, name);
                assert(snake_case(schema.tables[i].name) == snake_case(schema.tables[j].name));
            }
        },
        SchemaIntegrityErrorView::RelationCollision { .. } => {},
        _ => {
            let (t, f) = choose|t: int, f: int| is_first_key_fault(schema, t, f, fault);
            assert(key_fault(schema, t, f) is Some);
        },
    }
}

/// Where two entities collide, the collision that is reported is decided by
/// the schema alone.
proof fn lemma_entity_collision_is_determined(
    schema: SchemaView,
    first: SchemaIntegrityErrorView,
    second: SchemaIntegrityErrorView,
)
    requires
        keys_sound(schema),
        !entities_distinct(schema),
        explains(schema, first),
        explains(schema, second),
        !reports_key_fault(schema, first),
        !reports_key_fault(schema, second),
    ensures
        first == second,
{
    assert(first is EntityCollision);
    assert(second is EntityCollision);
    let left = first->EntityCollision_name;
    let right = second->EntityCollision_name;
    if exists|i: int, j: int| is_first_entity_collision(schema, i, j, left) {
        let (i, j) = choose|i: int, j: int| is_first_entity_collision(schema, i, j, left);
        assert(upper_camel_case(schema.tables[i].name) == upper_camel_case(schema.tables[j].name));
        if exists|k: int, l: int| is_first_entity_collision(schema, k, l, right) {
            let (k, l) = choose|k: int, l: int| is_first_entity_collision(schema, k, l, right);
            assert(upper_camel_case(schema.tables[k].name) == upper_camel_case(
                schema.tables[l].name,
            ));
            assert(j == l);
        } else {
            let (k, l) = choose|k: int, l: int| is_first_module_collision(schema, k, l, right);
        }
    } else {
        let (i, j) = choose|i: int, j: int| is_first_module_collision(schema, i, j, left);
        assert(snake_case(schema.tables[i].name) == snake_case(schema.tables[j].name));
        if exists|k: int, l: int| is_first_entity_collision(schema, k, l, right) {
            let (k, l) = choose|k: int, l: int| is_first_entity_collision(schema, k, l, right);
            assert(upper_camel_case(schema.tables[k].name) == upper_camel_case(
                schema.tables[l].name,
            ));
        } else {
            let (k, l) = choose|k: int, l: int| is_first_module_collision(schema, k, l, right);
            assert(snake_case(schema.tables[k].name) == snake_case(schema.tables[l].name));
            assert(j == l);
        }
    }
}

/// A schema for which some fault is explained is not valid.
pub proof fn lemma_explained_fault_is_invalid(schema: SchemaView, fault: SchemaIntegrityErrorView)
    requires
        explains(schema, fault),
    ensures
        !schema_valid(schema),
{
    match fault {
        SchemaIntegrityErrorView::MalformedKey { .. } => {
            let (t, f) = choose|t: int, f: int| is_first_key_fault(schema, t, f, fault);
            assert(key_fault(schema, t, f) is Some);
        },
        SchemaIntegrityErrorView::DanglingReference { .. } => {
            let (t, f) = choose|t: int, f: int| is_first_key_fault(schema, t, f, fault);
            assert(key_fault(schema, t, f) is Some);
        },
        SchemaIntegrityErrorView::EntityCollision { name } => {
            if exists|i: int, j: int| is_first_entity_collision(schema, i, j, name) {
                let (i, j) = choose|i: int, j: int| is_first_entity_collision(schema, i, j, name);
                assert(upper_camel_case(schema.tables[i].name) == upper_camel_case(
                    schema.tables[j].name,
                ));
            } else {
                let (i, j) = choose|i: int, j: int| is_first_module_collision(schema, i, j, name);
                assert(snake_case(schema.tables[i].name) == snake_case(schema.tables[j].name));
            }
        },
        SchemaIntegrityErrorView::RelationCollision { entity, name } => {
            let (t, a, b) = choose|t: int, a: int, b: int|
                is_first_relation_collision(schema, t, a, b, name) && entity == upper_camel_case(
                    schema.tables[t].name,
                );
            let relations = relations_of_table(schema, t);
            assert(relations[a].name == relations[b].name);
            assert(!names_distinct(relations));
        },
    }
}

proof fn lemma_key_views_push(list: Seq<ForeignKeyMeta>, last: ForeignKeyMeta)
    ensures
        key_views(list.push(last)) == key_views(list).push(last@),
{
    assert(key_views(list.push(last)) =~= key_views(list).push(last@));
}

/// The metadata of every foreign key of the schema, table by table, or what
/// is wrong with the first faulty key.
fn collect_keys(schema: &Schema, entities: &Vec<String>) -> (collected: Result<
    Vec<ForeignKeyMeta>,
    SchemaIntegrityError,
>)
    requires
        entities.len() == schema.tables.len(),
        forall|i: int|
            0 <= i < entities.len() ==> (#[trigger] entities@[i])@ == upper_camel_case(
                schema@.tables[i].name,
            ),
    ensures
        match collected {
            Ok(keys) => keys_sound(schema@) && key_views(keys@) == all_keys(schema@),
            Err(fault) => exists|t: int, f: int| is_first_key_fault(schema@, t, f, fault@),
        },
{
    let mut keys: Vec<ForeignKeyMeta> = Vec::new();
    let mut t: usize = 0;
    assert(key_views(keys@) =~= keys_upto(schema@, 0));
    while t < schema.tables.len()
        invariant
            0 <= t <= schema.tables.len(),
            entities.len() == schema.tables.len(),
            forall|i: int|
                0 <= i < entities.len() ==> (#[trigger] entities@[i])@ == upper_camel_case(
                    schema@.tables[i].name,
                ),
            forall|u: int, g: int|
                is_key(schema@, u, g) && u < t ==> #[trigger] key_fault(schema@, u, g) is None,
            key_views(keys@) == keys_upto(schema@, t as int),
        decreases schema.tables.len() - t,
    {
        let ghost before = key_views(keys@);
        let count = schema.tables[t].foreign_keys.len();
        assert(schema@.tables[t as int] == schema.tables[t as int]@);
        assert(schema@.tables[t as int].foreign_keys.len() == count);
        let mut f: usize = 0;
        while f < count
            invariant
                0 <= f <= count,
                t < schema.tables.len(),
                count == schema.tables[t as int].foreign_keys.len(),
                count == schema@.tables[t as int].foreign_keys.len(),
                entities.len() == schema.tables.len(),
                forall|i: int|
                    0 <= i < entities.len() ==> (#[trigger] entities@[i])@ == upper_camel_case(
                        schema@.tables[i].name,
                    ),
                forall|u: int, g: int|
                    is_key(schema@, u, g) && (u < t || (u == t && g < f)) ==> #[trigger] key_fault(
                        schema@,
                        u,
                        g,
                    ) is None,
                key_views(keys@) == before + keys_of_table(schema@, t as int).take(f as int),
            decreases count - f,
        {
            match parse_table_fk(schema, entities, t, f) {
                Ok(meta) => {
                    proof {
                        lemma_key_views_push(keys@, meta);
                        assert((before + keys_of_table(schema@, t as int).take(f as int)).push(
                            meta@,
                        ) =~= before + keys_of_table(schema@, t as int).take(f + 1));
                    }
                    keys.push(meta);
                },
                Err(fault) => {
                    assert(is_first_key_fault(schema@, t as int, f as int, fault@));
                    return Err(fault);
                },
            }
            f += 1;
        }
        proof {
            assert(keys_of_table(schema@, t as int).take(count as int) =~= keys_of_table(
                schema@,
                t as int,
            ));
        }
        t += 1;
    }
    Ok(keys)
}

/// The module names of the schema's tables, in order.
fn module_names(schema: &Schema) -> (names: Vec<String>)
    ensures
        names.len() == schema.tables.len(),
        forall|i: int|
            0 <= i < names.len() ==> (#[trigger] names@[i])@ == snake_case(schema@.tables[i].name),
{
    let mut names: Vec<String> = Vec::new();
    let mut i: usize = 0;
    while i < schema.tables.len()
        invariant
            0 <= i <= schema.tables.len(),
            names.len() == i,
            forall|j: int|
                0 <= j < i ==> (#[trigger] names@[j])@ == snake_case(schema@.tables[j].name),
        decreases schema.tables.len() - i,
    {
        let name = to_snake_case(schema.tables[i].name.as_str());
        assert(schema@.tables[i as int].name == schema.tables[i as int].name@);
        names.push(name);
        i += 1;
    }
    names
}

/// Two positions that hold the same name, if there are any.
fn find_repeat(names: &Vec<String>) -> (found: Option<(usize, usize)>)
    ensures
        match found {
            Some((i, j)) => {
                &&& i < j < names.len()
                &&& names@[i as int]@ == names@[j as int]@
                &&& forall|a: int| 0 <= a < i ==> (#[trigger] names@[a])@ != names@[j as int]@
                &&& forall|a: int, b: int|
                    0 <= a < b < j ==> (#[trigger] names@[a])@ != (#[trigger] names@[b])@
            },
            None => forall|i: int, j: int|
                0 <= i < j < names.len() ==> (#[trigger] names@[i])@ != (#[trigger] names@[j])@,
        },
{
    let mut j: usize = 0;
    while j < names.len()
        invariant
            0 <= j <= names.len(),
            forall|a: int, b: int|
                0 <= a < b < j ==> (#[trigger] names@[a])@ != (#[trigger] names@[b])@,
        decreases names.len() - j,
    {
        let mut i: usize = 0;
        while i < j
            invariant
                0 <= i <= j < names.len(),
                forall|a: int, b: int|
                    0 <= a < b < j ==> (#[trigger] names@[a])@ != (#[trigger] names@[b])@,
                forall|a: int| 0 <= a < i ==> (#[trigger] names@[a])@ != names@[j as int]@,
            decreases j - i,
        {
            if names[i] == names[j] {
                return Some((i, j));
            }
            i += 1;
        }
        j += 1;
    }
    None
}

/// The metadata of a discovered column.
fn column_meta(column: &ColumnDef) -> (meta: ColumnMeta)
    ensures
        meta@ == column_meta_of(column@),
{
    ColumnMeta {
        column_name: to_snake_case(column.name.as_str()),
        column_enum_name: to_upper_camel_case(column.name.as_str()),
        column_type: ColumnType { kind: column.kind, optional: column.nullable },
        column_filter_type: column.kind,
        not_null: !column.nullable,
        is_primary_key: column.primary_key,
        is_foreign_key: false,
    }
}

fn copy_types(types: &Vec<ColumnType>) -> (copy: Vec<ColumnType>)
    ensures
        copy@ == types@,
{
    let mut copy: Vec<ColumnType> = Vec::new();
    let mut i: usize = 0;
    while i < types.len()
        invariant
            0 <= i <= types.len(),
            copy@ == types@.take(i as int),
        decreases types.len() - i,
    {
        copy.push(types[i]);
        assert(copy@ =~= types@.take(i + 1));
        i += 1;
    }
    assert(types@.take(types.len() as int) =~= types@);
    copy
}

fn copy_key(key: &ForeignKeyMeta) -> (copy: ForeignKeyMeta)
    ensures
        copy@ == key@,
{
    ForeignKeyMeta {
        source_table_name: key.source_table_name.clone(),
        source_table_module: key.source_table_module.clone(),
        source_columns: copy_texts(&key.source_columns),
        source_column_types: copy_types(&key.source_column_types),
        destination_table_name: key.destination_table_name.clone(),
        destination_table_module: key.destination_table_module.clone(),
        destination_columns: copy_texts(&key.destination_columns),
        destination_column_types: copy_types(&key.destination_column_types),
    }
}

/// Those of `keys` that start or end at the entity called `entity`.
fn select_keys(keys: &Vec<ForeignKeyMeta>, entity: &String) -> (selected: Vec<ForeignKeyMeta>)
    ensures
        key_views(selected@) == keys_touching(key_views(keys@), entity@),
{
    let ghost all = key_views(keys@);
    let ghost pred = |k: ForeignKeyMetaView| touches(k, entity@);
    let mut selected: Vec<ForeignKeyMeta> = Vec::new();
    let mut i: usize = 0;
    proof {
        reveal(Seq::filter);
        assert(key_views(selected@) =~= all.take(0).filter(pred));
    }
    while i < keys.len()
        invariant
            0 <= i <= keys.len(),
            all == key_views(keys@),
            pred == |k: ForeignKeyMetaView| touches(k, entity@),
            key_views(selected@) == all.take(i as int).filter(pred),
        decreases keys.len() - i,
    {
        let key = &keys[i];
        proof {
            reveal(Seq::filter);
            assert(all[i as int] == key@);
            assert(all.take(i + 1).drop_last() =~= all.take(i as int));
            assert(all.take(i + 1).last() == key@);
        }
        if key.source_table_name == *entity || key.destination_table_name == *entity {
            let copy = copy_key(key);
            proof {
                lemma_key_views_push(selected@, copy);
            }
            selected.push(copy);
        }
        i += 1;
    }
    assert(all.take(keys.len() as int) =~= all);
    selected
}

/// The entity that table `t` becomes, given the schema's keys.
fn build_table(schema: &Schema, keys: &Vec<ForeignKeyMeta>, t: usize) -> (table: TableMeta)
    requires
        t < schema.tables.len(),
        key_views(keys@) == all_keys(schema@),
    ensures
        table@ == entity_of(schema@, t as int),
{
    let source = &schema.tables[t];
    assert(schema@.tables[t as int] == source@);
    let ghost wanted = source@.columns.map_values(|c: ColumnDefView| column_meta_of(c));
    let mut columns: Vec<ColumnMeta> = Vec::new();
    let mut i: usize = 0;
    while i < source.columns.len()
        invariant
            0 <= i <= source.columns.len(),
            wanted == source@.columns.map_values(|c: ColumnDefView| column_meta_of(c)),
            column_views(columns@) == wanted.take(i as int),
        decreases source.columns.len() - i,
    {
        let meta = column_meta(&source.columns[i]);
        proof {
            assert(source@.columns[i as int] == source.columns[i as int]@);
            assert(wanted[i as int] == meta@);
            assert(column_views(columns@.push(meta)) =~= column_views(columns@).push(meta@));
            assert(wanted.take(i as int).push(meta@) =~= wanted.take(i + 1));
        }
        columns.push(meta);
        i += 1;
    }
    assert(wanted.take(source.columns.len() as int) =~= wanted);
    let entity_name = to_upper_camel_case(source.name.as_str());
    let mut entity_filter = entity_name.clone();
    entity_filter.append("Filter");
    proof {
        reveal_strlit("Filter");
        assert("Filter"@ =~= seq!['F', 'i', 'l', 't', 'e', 'r']);
    }
    let foreign_keys = select_keys(keys, &entity_name);
    TableMeta {
        entity_name,
        entity_module: to_snake_case(source.name.as_str()),
        entity_filter,
        columns,
        foreign_keys,
    }
}

/// Two relations of the list with the same identifier, if there are any.
fn find_collision(relations: &Vec<Relation>) -> (found: Option<(usize, usize)>)
    ensures
        match found {
            Some((a, b)) => {
                &&& a < b < relations.len()
                &&& relations@[a as int]@.name == relations@[b as int]@.name
                &&& forall|c: int|
                    0 <= c < a ==> (#[trigger] relations@[c])@.name != relations@[b as int]@.name
                &&& forall|c: int, d: int|
                    0 <= c < d < b ==> (#[trigger] relations@[c])@.name != (
                    #[trigger] relations@[d])@.name
            },
            None => names_distinct(relation_views(relations@)),
        },
{
    let mut b: usize = 0;
    while b < relations.len()
        invariant
            0 <= b <= relations.len(),
            forall|i: int, j: int|
                0 <= i < j < b ==> (#[trigger] relations@[i])@.name != (
                #[trigger] relations@[j])@.name,
        decreases relations.len() - b,
    {
        let mut a: usize = 0;
        while a < b
            invariant
                0 <= a <= b < relations.len(),
                forall|i: int, j: int|
                    0 <= i < j < b ==> (#[trigger] relations@[i])@.name != (
                    #[trigger] relations@[j])@.name,
                forall|i: int|
                    0 <= i < a ==> (#[trigger] relations@[i])@.name != relations@[b as int]@.name,
            decreases b - a,
        {
            if relations[a].name == relations[b].name {
                return Some((a, b));
            }
            a += 1;
        }
        b += 1;
    }
    proof {
        let views = relation_views(relations@);
        assert forall|i: int, j: int| 0 <= i < j < views.len() implies (#[trigger] views[i]).name
            != (#[trigger] views[j]).name by {
            assert(relations@[i]@.name != relations@[j]@.name);
        }
    }
    None
}

/// Builds the entity graph of a discovered schema: one entity for each
/// table, in order, each with its columns and with every foreign key that
/// starts or ends at it. A schema with a faulty key or a naming collision
/// gives no graph at all.
pub fn get_database_schema(schema: &Schema) -> (built: Result<
    Vec<TableMeta>,
    SchemaIntegrityError,
>)
    ensures
        built is Ok <==> schema_valid(schema@),
        built matches Ok(tables) ==> table_views(tables@) == graph_of(schema@),
        built matches Err(fault) ==> explains(schema@, fault@),
{
    let entities = entity_names(schema);
    let keys = match collect_keys(schema, &entities) {
        Ok(keys) => keys,
        Err(fault) => {
            proof {
                lemma_explained_fault_is_invalid(schema@, fault@);
            }
            return Err(fault);
        },
    };
    if let Some((i, j)) = find_repeat(&entities) {
        let fault = SchemaIntegrityError::EntityCollision { name: entities[j].clone() };
        proof {
            assert forall|a: int| 0 <= a < i implies upper_camel_case(
                (#[trigger] schema@.tables[a]).name,
            ) != entities@[j as int]@ by {
                assert(entities@[a]@ != entities@[j as int]@);
            }
            assert forall|a: int, b: int| 0 <= a < b < j implies upper_camel_case(
                (#[trigger] schema@.tables[a]).name,
            ) != upper_camel_case((#[trigger] schema@.tables[b]).name) by {
                assert(entities@[a]@ != entities@[b]@);
            }
            assert(is_first_entity_collision(
                schema@,
                i as int,
                j as int,
                entities@[j as int]@,
            ));
            lemma_explained_fault_is_invalid(schema@, fault@);
        }
        return Err(fault);
    }
    proof {
        assert forall|a: int, b: int| 0 <= a < b < schema@.tables.len() implies upper_camel_case(
            (#[trigger] schema@.tables[a]).name,
        ) != upper_camel_case((#[trigger] schema@.tables[b]).name) by {
            assert(entities@[a]@ != entities@[b]@);
        }
    }
    let modules = module_names(schema);
    if let Some((i, j)) = find_repeat(&modules) {
        let fault = SchemaIntegrityError::EntityCollision { name: modules[j].clone() };
        proof {
            assert forall|a: int| 0 <= a < i implies snake_case(
                (#[trigger] schema@.tables[a]).name,
            ) != modules@[j as int]@ by {
                assert(modules@[a]@ != modules@[j as int]@);
            }
            assert forall|a: int, b: int| 0 <= a < b < j implies snake_case(
                (#[trigger] schema@.tables[a]).name,
            ) != snake_case((#[trigger] schema@.tables[b]).name) by {
                assert(modules@[a]@ != modules@[b]@);
            }
            assert(is_first_module_collision(schema@, i as int, j as int, modules@[j as int]@));
            lemma_explained_fault_is_invalid(schema@, fault@);
        }
        return Err(fault);
    }
    proof {
        assert forall|i: int, j: int| 0 <= i < j < schema@.tables.len() implies {
            &&& upper_camel_case((#[trigger] schema@.tables[i]).name) != upper_camel_case(
                (#[trigger] schema@.tables[j]).name,
            )
            &&& snake_case(schema@.tables[i].name) != snake_case(schema@.tables[j].name)
        } by {
            assert(entities@[i]@ != entities@[j]@);
            assert(modules@[i]@ != modules@[j]@);
        }
    }
    let mut tables: Vec<TableMeta> = Vec::new();
    let mut t: usize = 0;
    while t < schema.tables.len()
        invariant
            0 <= t <= schema.tables.len(),
            keys_sound(schema@),
            entities_distinct(schema@),
            key_views(keys@) == all_keys(schema@),
            tables.len() == t,
            forall|u: int| 0 <= u < t ==> (#[trigger] tables@[u])@ == entity_of(schema@, u),
            forall|u: int| 0 <= u < t ==> names_distinct(#[trigger] relations_of_table(schema@, u)),
        decreases schema.tables.len() - t,
    {
        let table = build_table(schema, &keys, t);
        let relations = generate_entity_relations(&table);
        if let Some((a, b)) = find_collision(&relations) {
            let fault = SchemaIntegrityError::RelationCollision {
                entity: table.entity_name.clone(),
                name: relations[b].name.clone(),
            };
            proof {
                let views = relations_of_table(schema@, t as int);
                let name = relations@[b as int]@.name;
                assert(views == relation_views(relations@));
                assert(views[a as int] == relations@[a as int]@);
                assert(views[b as int] == relations@[b as int]@);
                assert forall|c: int| 0 <= c < a implies (#[trigger] views[c]).name != name by {
                    assert(relations@[c]@.name != name);
                }
                assert forall|c: int, d: int| 0 <= c < d < b implies (#[trigger] views[c]).name
                    != (#[trigger] views[d]).name by {
                    assert(relations@[c]@.name != relations@[d]@.name);
                }
                assert(is_first_relation_collision(schema@, t as int, a as int, b as int, name));
                lemma_explained_fault_is_invalid(schema@, fault@);
            }
            return Err(fault);
        }
        tables.push(table);
        t += 1;
    }
    assert(table_views(tables@) =~= graph_of(schema@));
    Ok(tables)
}

} // verus!
