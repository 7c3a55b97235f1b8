//! The parts of one entity's GraphQL object: its relations and how they are
//! resolved, its field getters, filter fields and batch loaders.

use crate::database_schema::entity_filter_of;
use crate::filter::{
    filter_view, has_field, is_first_field, lemma_value_views_push, no_null, value_views,
    FilterNode, FilterNodeView, Value, ValueView,
};
use crate::graphql::orm_data_loader::{column_views, RelationId, RelationKey, RelationKeyView};
use crate::naming::{copy_texts, snake_cases, texts, to_snake_cases};
use crate::relation::{
    forward_relation, key_name, key_name_of, relation_views, relations_from, relations_of,
    reverse_relation, Cardinality, Relation,
};
use crate::types::column_meta::{ColumnMetaView, ColumnType};
use crate::types::foreign_key_meta::{ForeignKeyMeta, ForeignKeyMetaView};
use crate::types::table_meta::{TableMeta, TableMetaView};
use vstd::prelude::*;
use vstd::string::*;

verus! {

/// The views of a list of relations with one more relation.
pub proof fn lemma_relation_views_push(list: Seq<Relation>, last: Relation)
    ensures
        relation_views(list.push(last)) == relation_views(list).push(last@),
{
    assert(relation_views(list.push(last)) =~= relation_views(list).push(last@));
}

/// The relations of `table`, foreign key by foreign key: the forward one
/// where the table owns the key, then the reverse one where the key points
/// at the table.
pub fn generate_entity_relations(table: &TableMeta) -> (relations: Vec<Relation>)
    ensures
        relation_views(relations@) == relations_of(table@.entity_name, table@.foreign_keys),
{
    let ghost entity = table@.entity_name;
    let ghost keys = table@.foreign_keys;
    let mut relations: Vec<Relation> = Vec::new();
    let mut i: usize = 0;
    assert(relations_of(entity, keys.take(0)) =~= Seq::empty());
    while i < table.foreign_keys.len()
        invariant
            0 <= i <= table.foreign_keys.len(),
            entity == table@.entity_name,
            keys == table@.foreign_keys,
            keys.len() == table.foreign_keys.len(),
            relation_views(relations@) == relations_of(entity, keys.take(i as int)),
        decreases table.foreign_keys.len() - i,
    {
        let key = &table.foreign_keys[i];
        let ghost before = relation_views(relations@);
        proof {
            assert(keys[i as int] == key@);
            assert(keys.take(i + 1).drop_last() =~= keys.take(i as int));
            assert(keys.take(i + 1).last() == key@);
        }
        if key.source_table_name == table.entity_name {
            let forward = forward_relation(key);
            proof {
                lemma_relation_views_push(relations@, forward);
            }
            relations.push(forward);
        }
        if key.is_reverse(&table.entity_name) {
            let reverse = reverse_relation(key);
            proof {
                lemma_relation_views_push(relations@, reverse);
            }
            relations.push(reverse);
        }
        assert(relation_views(relations@) =~= before + relations_from(entity, key@));
        i += 1;
    }
    assert(keys.take(table.foreign_keys.len() as int) =~= keys);
    relations
}

/// Every field of `fields` is a field of the entity.
pub open spec fn all_fields_known(entity: TableMetaView, fields: Seq<
    Seq<char>,
>) -> bool {
    forall|k: int| 0 <= k < fields.len() ==> has_field(entity.columns, #[trigger] fields[k])
}

/// `positions` are the positions, among the entity's columns, of the fields
/// `fields`: for each the first column of that name.
pub open spec fn are_positions_of(
    entity: TableMetaView,
    fields: Seq<Seq<char>>,
    positions: Seq<usize>,
) -> bool {
    &&& positions.len() == fields.len()
    &&& forall|k: int|
        0 <= k < fields.len() ==> is_first_field(
            entity.columns,
            #[trigger] fields[k],
            positions[k] as int,
        )
}

/// The positions, among the entity's columns, of the fields `fields`: for
/// each the first column of that name. None where the entity lacks one of
/// the fields.
pub fn field_positions(table: &TableMeta, fields: &Vec<String>) -> (found: Option<Vec<usize>>)
    ensures
        found is Some <==> all_fields_known(table@, texts(fields@)),
        found matches Some(positions) ==> are_positions_of(table@, texts(fields@), positions@),
{
    let ghost columns = table@.columns;
    let ghost wanted = texts(fields@);
    let mut positions: Vec<usize> = Vec::new();
    let mut k: usize = 0;
    while k < fields.len()
        invariant
            0 <= k <= fields.len(),
            columns == table@.columns,
            wanted == texts(fields@),
            positions.len() == k,
            forall|j: int|
                0 <= j < k ==> is_first_field(columns, #[trigger] wanted[j], positions@[j] as int),
        decreases fields.len() - k,
    {
        let mut i: usize = 0;
        let mut found: Option<usize> = None;
        while i < table.columns.len()
            invariant_except_break
                found is None,
            invariant
                0 <= i <= table.columns.len(),
                0 <= k < fields.len(),
                columns == table@.columns,
                wanted == texts(fields@),
                forall|j: int| 0 <= j < i ==> (#[trigger] columns[j]).column_name != wanted[k as int],
            ensures
                match found {
                    Some(at) => is_first_field(columns, wanted[k as int], at as int),
                    None => !has_field(columns, wanted[k as int]),
                },
            decreases table.columns.len() - i,
        {
            assert(columns[i as int] == table.columns[i as int]@);
            if table.columns[i].column_name == fields[k] {
                found = Some(i);
                break;
            }
            i += 1;
        }
        match found {
            Some(at) => {
                positions.push(at);
            },
            None => {
                return None;
            },
        }
        k += 1;
    }
    proof {
        assert forall|j: int| 0 <= j < wanted.len() implies has_field(
            columns,
            #[trigger] wanted[j],
        ) by {
            assert(is_first_field(columns, wanted[j], positions@[j] as int));
        }
    }
    Some(positions)
}

/// Where the key of a relation is found: the positions of its source
/// columns in a row of the source entity, and of its destination columns in
/// a row of the destination entity. None where either entity lacks one of
/// the columns.
pub fn relation_positions(source: &TableMeta, destination: &TableMeta, relation: &Relation) -> (found:
    Option<(Vec<usize>, Vec<usize>)>)
    ensures
        found is Some <==> all_fields_known(source@, relation@.key_items) && all_fields_known(
            destination@,
            snake_cases(relation@.destination_columns),
        ),
        found matches Some((from, to)) ==> are_positions_of(source@, relation@.key_items, from@)
            && are_positions_of(destination@, snake_cases(relation@.destination_columns), to@),
{
    let fields = to_snake_cases(&relation.destination_columns);
    let from = match field_positions(source, &relation.key_items) {
        Some(from) => from,
        None => {
            return None;
        },
    };
    match field_positions(destination, &fields) {
        Some(to) => Some((from, to)),
        None => None,
    }
}

/// The value of `row` at `column`; a row that has no such column has no
/// value there.
pub open spec fn value_at(row: Seq<ValueView>, column: int) -> ValueView {
    if 0 <= column < row.len() {
        row[column]
    } else {
        ValueView::Null
    }
}

/// The key values of `row`: its values at `columns`, in order.
pub open spec fn key_values(row: Seq<ValueView>, columns: Seq<int>) -> Seq<ValueView> {
    columns.map_values(|c: int| value_at(row, c))
}

/// How the relation of one row is to be resolved.
#[derive(Debug, PartialEq, Eq)]
pub enum Resolution {
    /// The relation yields nothing for this row, and no lookup is made.
    Absent,
    /// The relation yields what the batch loader finds for this key.
    Lookup(RelationKey),
}

pub enum ResolutionView {
    Absent,
    Lookup(RelationKeyView),
}

impl View for Resolution {
    type V = ResolutionView;

    open spec fn view(&self) -> ResolutionView {
        match self {
            Resolution::Absent => ResolutionView::Absent,
            Resolution::Lookup(key) => ResolutionView::Lookup(key@),
        }
    }
}

/// How a relation of cardinality `cardinality` is resolved for a row whose
/// key values are `values`: an optional relation of a row with a null among
/// its key values yields nothing, and no lookup is made; every other case is
/// one lookup, for these values and this filter.
pub open spec fn resolution_of(
    cardinality: Cardinality,
    relation: RelationId,
    values: Seq<ValueView>,
    filter: Option<FilterNodeView>,
) -> ResolutionView {
    if cardinality == Cardinality::ToOneOptional && !no_null(values) {
        ResolutionView::Absent
    } else {
        ResolutionView::Lookup(RelationKeyView { relation, values, filter })
    }
}

/// Resolves a relation for one row: decides whether a lookup is needed, and
/// if so builds its key from the row's values at `columns`, the positions of
/// the relation's source columns.
pub fn resolve(
    cardinality: Cardinality,
    relation: RelationId,
    columns: &Vec<usize>,
    row: &Vec<Value>,
    filter: Option<FilterNode>,
) -> (resolution: Resolution)
    ensures
        resolution@ == resolution_of(
            cardinality,
            relation,
            key_values(value_views(row@), column_views(columns@)),
            filter_view(filter),
        ),
{
    let ghost wanted = key_values(value_views(row@), column_views(columns@));
    let mut values: Vec<Value> = Vec::new();
    let mut null = false;
    let mut k: usize = 0;
    while k < columns.len()
        invariant
            0 <= k <= columns.len(),
            wanted == key_values(value_views(row@), column_views(columns@)),
            value_views(values@) == wanted.take(k as int),
            null == !no_null(wanted.take(k as int)),
        decreases columns.len() - k,
    {
        let column = columns[k];
        let value = if column < row.len() {
            row[column].copy()
        } else {
            Value::Null
        };
        proof {
            assert(column_views(columns@)[k as int] == column);
            if column < row.len() {
                assert(value_views(row@)[column as int] == row@[column as int]@);
            }
            assert(value@ == wanted[k as int]);
            lemma_value_views_push(values@, value);
            assert(wanted.take(k as int).push(wanted[k as int]) =~= wanted.take(k + 1));
            let before = wanted.take(k as int);
            let after = wanted.take(k + 1);
            if no_null(after) {
                assert forall|j: int| 0 <= j < before.len() implies #[trigger] before[j]
                    != ValueView::Null by {
                    assert(after[j] == before[j]);
                }
                assert(after[k as int] != ValueView::Null);
            }
            if no_null(before) && value@ != ValueView::Null {
                assert forall|j: int| 0 <= j < after.len() implies #[trigger] after[j]
                    != ValueView::Null by {
                    if j < k {
                        assert(after[j] == before[j]);
                    }
                }
            }
        }
        if matches!(value, Value::Null) {
            null = true;
        }
        values.push(value);
        k += 1;
    }
    assert(wanted.take(columns.len() as int) =~= wanted);
    if matches!(cardinality, Cardinality::ToOneOptional) && null {
        Resolution::Absent
    } else {
        Resolution::Lookup(RelationKey { relation, values, filter })
    }
}

/// An optional relation of a row with a null among its key values yields
/// nothing, and no lookup is made for it.
pub proof fn lemma_null_key_needs_no_lookup(
    relation: RelationId,
    values: Seq<ValueView>,
    filter: Option<FilterNodeView>,
    k: int,
)
    requires
        0 <= k < values.len(),
        values[k] == ValueView::Null,
    ensures
        resolution_of(Cardinality::ToOneOptional, relation, values, filter)
            == ResolutionView::Absent,
{
}

/// How the value of a destination column becomes a field of the key by
/// which rows are handed back to their lookups.
#[derive(Debug, Clone, Copy, PartialEq, Eq, Structural)]
pub enum KeyConversion {
    /// The column and the key field have the same type.
    Keep,
    /// The column admits null and the key field does not: the value is
    /// taken out of its option.
    Unwrap,
    /// The key field admits null and the column does not: the value is put
    /// into an option.
    WrapSome,
}

/// How the rows of a batch's query are gathered for their lookups.
#[derive(Debug, Clone, Copy, PartialEq, Eq, Structural)]
pub enum Gathering {
    /// One row for each key.
    Collect,
    /// The rows of each key, grouped in the order in which they came.
    Group,
}

/// The batch loader of one relation.
#[derive(Debug, Clone, PartialEq, Eq)]
pub struct LoaderPlan {
    /// The name of the key type.
    pub key_name: String,
    /// The types of the key's fields: those of the relation's source
    /// columns.
    pub key_field_types: Vec<ColumnType>,
    pub destination_module: String,
    pub destination_columns: Vec<String>,
    /// The fields of a destination row that hold the key, in snake case.
    pub destination_fields: Vec<String>,
    pub conversions: Vec<KeyConversion>,
    pub gathering: Gathering,
}

/// The mathematical content of a [`LoaderPlan`].
pub struct LoaderPlanView {
    pub key_name: Seq<char>,
    pub key_field_types: Seq<ColumnType>,
    pub destination_module: Seq<char>,
    pub destination_columns: Seq<Seq<char>>,
    pub destination_fields: Seq<Seq<char>>,
    pub conversions: Seq<KeyConversion>,
    pub gathering: Gathering,
}

impl View for LoaderPlan {
    type V = LoaderPlanView;

    open spec fn view(&self) -> LoaderPlanView {
        LoaderPlanView {
            key_name: self.key_name@,
            key_field_types: self.key_field_types@,
            destination_module: self.destination_module@,
            destination_columns: texts(self.destination_columns@),
            destination_fields: texts(self.destination_fields@),
            conversions: self.conversions@,
            gathering: self.gathering,
        }
    }
}

/// The views of a list of loaders.
pub open spec fn loader_views(list: Seq<LoaderPlan>) -> Seq<LoaderPlanView> {
    list.map_values(|l: LoaderPlan| l@)
}

/// How a column of type `column` becomes a key field of type `field`.
pub open spec fn conversion_of(column: ColumnType, field: ColumnType) -> KeyConversion {
    if column.optional && !field.optional {
        KeyConversion::Unwrap
    } else if !column.optional && field.optional {
        KeyConversion::WrapSome
    } else {
        KeyConversion::Keep
    }
}

/// For each position, how the destination column becomes the key field.
/// Positions that one of the lists lacks are left out.
pub open spec fn conversions_of(columns: Seq<ColumnType>, fields: Seq<ColumnType>) -> Seq<
    KeyConversion,
> {
    Seq::new(
        if columns.len() <= fields.len() {
            columns.len()
        } else {
            fields.len()
        },
        |k: int| conversion_of(columns[k], fields[k]),
    )
}

/// The loader of the relation that `key` gives to the entity that owns it
/// or, if `reverse`, to the entity it points at.
pub open spec fn loader_of(key: ForeignKeyMetaView, reverse: bool) -> LoaderPlanView {
    if reverse {
        LoaderPlanView {
            key_name: key_name_of(key.destination_table_name, key.source_table_name),
            key_field_types: key.destination_column_types,
            destination_module: key.source_table_module,
            destination_columns: key.source_columns,
            destination_fields: snake_cases(key.source_columns),
            conversions: conversions_of(key.source_column_types, key.destination_column_types),
            gathering: Gathering::Group,
        }
    } else {
        LoaderPlanView {
            key_name: key_name_of(key.source_table_name, key.destination_table_name),
            key_field_types: key.source_column_types,
            destination_module: key.destination_table_module,
            destination_columns: key.destination_columns,
            destination_fields: snake_cases(key.destination_columns),
            conversions: conversions_of(key.destination_column_types, key.source_column_types),
            gathering: Gathering::Collect,
        }
    }
}

/// The loaders that `key` gives to the entity called `entity`, in the order
/// of its relations.
pub open spec fn loaders_from(entity: Seq<char>, key: ForeignKeyMetaView) -> Seq<LoaderPlanView> {
    let forward = if key.source_table_name == entity {
        seq![loader_of(key, false)]
    } else {
        Seq::empty()
    };
    let reverse = if key.destination_table_name == entity {
        seq![loader_of(key, true)]
    } else {
        Seq::empty()
    };
    forward + reverse
}

/// The loaders that `keys` give to the entity called `entity`, key by key.
pub open spec fn loaders_of(entity: Seq<char>, keys: Seq<ForeignKeyMetaView>) -> Seq<
    LoaderPlanView,
>
    decreases keys.len(),
{
    if keys.len() == 0 {
        Seq::empty()
    } else {
        loaders_of(entity, keys.drop_last()) + loaders_from(entity, keys.last())
    }
}

fn conversions(columns: &Vec<ColumnType>, fields: &Vec<ColumnType>) -> (list: Vec<KeyConversion>)
    ensures
        list@ == conversions_of(columns@, fields@),
{
    let count = if columns.len() <= fields.len() {
        columns.len()
    } else {
        fields.len()
    };
    let mut list: Vec<KeyConversion> = Vec::new();
    let mut k: usize = 0;
    while k < count
        invariant
            0 <= k <= count,
            count <= columns.len(),
            count <= fields.len(),
            list.len() == k,
            forall|j: int|
                0 <= j < k ==> #[trigger] list@[j] == conversion_of(columns@[j], fields@[j]),
        decreases count - k,
    {
        let conversion = if columns[k].optional && !fields[k].optional {
            KeyConversion::Unwrap
        } else if !columns[k].optional && fields[k].optional {
            KeyConversion::WrapSome
        } else {
            KeyConversion::Keep
        };
        list.push(conversion);
        k += 1;
    }
    assert(list@ =~= conversions_of(columns@, fields@));
    list
}

fn copy_column_types(types: &Vec<ColumnType>) -> (copy: Vec<ColumnType>)
    ensures
        copy@ == types@,
{
    let mut copy: Vec<ColumnType> = Vec::new();
    let mut i: usize = 0;
    while i < types.len()
        invariant
            0 <= i <= types.len(),
            copy@ == types@.take(i as int),
        decreases types.len() - i,
    {
        copy.push(types[i]);
        assert(copy@ =~= types@.take(i + 1));
        i += 1;
    }
    assert(types@.take(types.len() as int) =~= types@);
    copy
}

/// The loader of the relation that `key` gives to the entity that owns it
/// or, if `reverse`, to the entity it points at.
pub fn loader_plan(key: &ForeignKeyMeta, reverse: bool) -> (plan: LoaderPlan)
    ensures
        plan@ == loader_of(key@, reverse),
{
    if reverse {
        LoaderPlan {
            key_name: key_name(&key.destination_table_name, &key.source_table_name),
            key_field_types: copy_column_types(&key.destination_column_types),
            destination_module: key.source_table_module.clone(),
            destination_columns: copy_texts(&key.source_columns),
            destination_fields: to_snake_cases(&key.source_columns),
            conversions: conversions(&key.source_column_types, &key.destination_column_types),
            gathering: Gathering::Group,
        }
    } else {
        LoaderPlan {
            key_name: key_name(&key.source_table_name, &key.destination_table_name),
            key_field_types: copy_column_types(&key.source_column_types),
            destination_module: key.destination_table_module.clone(),
            destination_columns: copy_texts(&key.destination_columns),
            destination_fields: to_snake_cases(&key.destination_columns),
            conversions: conversions(&key.destination_column_types, &key.source_column_types),
            gathering: Gathering::Collect,
        }
    }
}

proof fn lemma_loader_views_push(list: Seq<LoaderPlan>, last: LoaderPlan)
    ensures
        loader_views(list.push(last)) == loader_views(list).push(last@),
{
    assert(loader_views(list.push(last)) =~= loader_views(list).push(last@));
}

/// The key types and batch loaders of `table`, one for each of its
/// relations and in their order.
pub fn generate_foreign_keys_and_loaders(table: &TableMeta) -> (loaders: Vec<LoaderPlan>)
    ensures
        loader_views(loaders@) == loaders_of(table@.entity_name, table@.foreign_keys),
{
    let ghost entity = table@.entity_name;
    let ghost keys = table@.foreign_keys;
    let mut loaders: Vec<LoaderPlan> = Vec::new();
    let mut i: usize = 0;
    assert(loaders_of(entity, keys.take(0)) =~= Seq::empty());
    while i < table.foreign_keys.len()
        invariant
            0 <= i <= table.foreign_keys.len(),
            entity == table@.entity_name,
            keys == table@.foreign_keys,
            keys.len() == table.foreign_keys.len(),
            loader_views(loaders@) == loaders_of(entity, keys.take(i as int)),
        decreases table.foreign_keys.len() - i,
    {
        let key = &table.foreign_keys[i];
        let ghost before = loader_views(loaders@);
        proof {
            assert(keys[i as int] == key@);
            assert(keys.take(i + 1).drop_last() =~= keys.take(i as int));
            assert(keys.take(i + 1).last() == key@);
        }
        if key.source_table_name == table.entity_name {
            let forward = loader_plan(key, false);
            proof {
                lemma_loader_views_push(loaders@, forward);
            }
            loaders.push(forward);
        }
        if key.is_reverse(&table.entity_name) {
            let reverse = loader_plan(key, true);
            proof {
                lemma_loader_views_push(loaders@, reverse);
            }
            loaders.push(reverse);
        }
        assert(loader_views(loaders@) =~= before + loaders_from(entity, key@));
        i += 1;
    }
    assert(keys.take(table.foreign_keys.len() as int) =~= keys);
    loaders
}

/// A field of an entity's GraphQL object: its name and the type it
/// returns.
#[derive(Debug, Clone, PartialEq, Eq)]
pub struct Getter {
    pub name: String,
    pub return_type: String,
}

/// A field of an entity's filter input: its name and the scalar type whose
/// values it compares.
#[derive(Debug, Clone, PartialEq, Eq)]
pub struct FilterField {
    pub name: String,
    pub filter_type: String,
}

/// The getter of a column: named after the column, returning its type.
pub open spec fn is_getter_of(getter: Getter, column: ColumnMetaView)
    -> bool {
    getter.name@ == column.column_name && getter.return_type@ == column.column_type.rust_name_of()
}

/// The filter field of a column: named after the column, comparing values
/// of the column's scalar type, whether or not the column admits null.
pub open spec fn is_filter_field_of(
    field: FilterField,
    column: ColumnMetaView,
) -> bool {
    field.name@ == column.column_name && field.filter_type@
        == column.column_filter_type.rust_name_of()
}

/// The getters of `table`, one for each column and in their order.
pub fn generate_entity_getters(table: &TableMeta) -> (getters: Vec<Getter>)
    ensures
        getters.len() == table.columns.len(),
        forall|i: int|
            0 <= i < getters.len() ==> is_getter_of(#[trigger] getters@[i], table@.columns[i]),
{
    let mut getters: Vec<Getter> = Vec::new();
    let mut i: usize = 0;
    while i < table.columns.len()
        invariant
            0 <= i <= table.columns.len(),
            getters.len() == i,
            forall|j: int|
                0 <= j < i ==> is_getter_of(#[trigger] getters@[j], table@.columns[j]),
        decreases table.columns.len() - i,
    {
        let column = &table.columns[i];
        assert(table@.columns[i as int] == column@);
        getters.push(
            Getter {
                name: column.column_name.clone(),
                return_type: column.column_type.rust_name(),
            },
        );
        i += 1;
    }
    getters
}

/// The fields of the filter input of `table`, one for each column and in
/// their order.
pub fn generate_entity_filters(table: &TableMeta) -> (fields: Vec<FilterField>)
    ensures
        fields.len() == table.columns.len(),
        forall|i: int|
            0 <= i < fields.len() ==> is_filter_field_of(#[trigger] fields@[i], table@.columns[i]),
{
    let mut fields: Vec<FilterField> = Vec::new();
    let mut i: usize = 0;
    while i < table.columns.len()
        invariant
            0 <= i <= table.columns.len(),
            fields.len() == i,
            forall|j: int|
                0 <= j < i ==> is_filter_field_of(#[trigger] fields@[j], table@.columns[j]),
        decreases table.columns.len() - i,
    {
        let column = &table.columns[i];
        assert(table@.columns[i as int] == column@);
        fields.push(
            FilterField {
                name: column.column_name.clone(),
                filter_type: column.column_filter_type.rust_name(),
            },
        );
        i += 1;
    }
    fields
}

/// The GraphQL layer of one entity.
#[derive(Debug, PartialEq, Eq)]
pub struct EntityPlan {
    /// The entity's module, after which its file is named.
    pub module: String,
    /// The name of the entity's GraphQL object.
    pub name: String,
    /// The name of the entity's filter input.
    pub filter_name: String,
    pub filters: Vec<FilterField>,
    pub getters: Vec<Getter>,
    pub relations: Vec<Relation>,
    pub loaders: Vec<LoaderPlan>,
}

/// `plan` is the GraphQL layer of `table`: named after it, with a getter and
/// a filter field for each column, and with the table's relations and their
/// loaders.
pub open spec fn is_plan_of(plan: EntityPlan, table: TableMetaView)
    -> bool {
    &&& plan.module@ == table.entity_module
    &&& plan.name@ == table.entity_name
    &&& plan.filter_name@ == entity_filter_of(table.entity_name)
    &&& plan.filters.len() == table.columns.len()
    &&& forall|i: int|
        0 <= i < plan.filters.len() ==> is_filter_field_of(
            #[trigger] plan.filters@[i],
            table.columns[i],
        )
    &&& plan.getters.len() == table.columns.len()
    &&& forall|i: int|
        0 <= i < plan.getters.len() ==> is_getter_of(#[trigger] plan.getters@[i], table.columns[i])
    &&& relation_views(plan.relations@) == relations_of(table.entity_name, table.foreign_keys)
    &&& loader_views(plan.loaders@) == loaders_of(table.entity_name, table.foreign_keys)
}

/// The GraphQL layers of the entities of a graph, one for each table and in
/// their order.
pub fn generate_graphql_entities(tables: &Vec<TableMeta>) -> (plans: Vec<EntityPlan>)
    ensures
        plans.len() == tables.len(),
        forall|i: int| 0 <= i < plans.len() ==> is_plan_of(#[trigger] plans@[i], tables@[i]@),
{
    let mut plans: Vec<EntityPlan> = Vec::new();
    let mut i: usize = 0;
    while i < tables.len()
        invariant
            0 <= i <= tables.len(),
            plans.len() == i,
            forall|j: int| 0 <= j < i ==> is_plan_of(#[trigger] plans@[j], tables@[j]@),
        decreases tables.len() - i,
    {
        let table = &tables[i];
        let mut filter_name = table.entity_name.clone();
        filter_name.append("Filter");
        proof {
            reveal_strlit("Filter");
            assert("Filter"@ =~= seq!['F', 'i', 'l', 't', 'e', 'r']);
        }
        let plan = EntityPlan {
            module: table.entity_module.clone(),
            name: table.entity_name.clone(),
            filter_name,
            filters: generate_entity_filters(table),
            getters: generate_entity_getters(table),
            relations: generate_entity_relations(table),
            loaders: generate_foreign_keys_and_loaders(table),
        };
        plans.push(plan);
        i += 1;
    }
    plans
}

} // verus!
