//! Relations: the directed edges of the entity graph. Each foreign key gives
//! two of them, one on the entity that owns the key and one on the entity
//! the key points at.

use crate::naming::{
    copy_texts, relation_name, relation_name_of, snake_cases, texts, to_snake_cases,
};
use crate::types::column_meta::ColumnType;
use crate::types::foreign_key_meta::{any_optional, ForeignKeyMeta, ForeignKeyMetaView};
use vstd::prelude::*;
use vstd::string::*;

verus! {

/// Which end of the foreign key the relation's owner is.
#[derive(Debug, Clone, Copy, PartialEq, Eq, Structural)]
pub enum Direction {
    /// The owner holds the foreign key.
    Forward,
    /// The other entity holds the foreign key, which points at the owner.
    Reverse,
}

/// How many rows a relation yields for one row of its owner.
#[derive(Debug, Clone, Copy, PartialEq, Eq, Structural)]
pub enum Cardinality {
    ToOne,
    ToOneOptional,
    ToMany,
}

/// A relation of an entity (its source) to another (its destination).
#[derive(Debug, Clone, PartialEq, Eq)]
pub struct Relation {
    /// The relation's identifier among those of its source entity.
    pub name: String,
    /// The name of the key type that carries the source columns' values.
    pub key_name: String,
    pub source_entity: String,
    pub source_columns: Vec<String>,
    /// The fields of the source row that hold the key, in snake case.
    pub key_items: Vec<String>,
    pub destination_entity: String,
    pub destination_module: String,
    pub destination_columns: Vec<String>,
    pub cardinality: Cardinality,
    pub direction: Direction,
}

/// The mathematical content of a [`Relation`].
pub struct RelationView {
    pub name: Seq<char>,
    pub key_name: Seq<char>,
    pub source_entity: Seq<char>,
    pub source_columns: Seq<Seq<char>>,
    pub key_items: Seq<Seq<char>>,
    pub destination_entity: Seq<char>,
    pub destination_module: Seq<char>,
    pub destination_columns: Seq<Seq<char>>,
    pub cardinality: Cardinality,
    pub direction: Direction,
}

impl View for Relation {
    type V = RelationView;

    open spec fn view(&self) -> RelationView {
        RelationView {
            name: self.name@,
            key_name: self.key_name@,
            source_entity: self.source_entity@,
            source_columns: texts(self.source_columns@),
            key_items: texts(self.key_items@),
            destination_entity: self.destination_entity@,
            destination_module: self.destination_module@,
            destination_columns: texts(self.destination_columns@),
            cardinality: self.cardinality,
            direction: self.direction,
        }
    }
}

/// The views of a list of relations.
pub open spec fn relation_views(list: Seq<Relation>) -> Seq<RelationView> {
    list.map_values(|r: Relation| r@)
}

impl RelationView {
    /// The columns pair up, there is at least one, and the cardinality is
    /// `ToMany` exactly for a reverse relation.
    pub open spec fn well_formed(self) -> bool {
        &&& self.source_columns.len() >= 1
        &&& self.source_columns.len() == self.destination_columns.len()
        &&& self.key_items.len() == self.source_columns.len()
        &&& (self.cardinality == Cardinality::ToMany) == (self.direction == Direction::Reverse)
    }

    /// `other` is the reverse view of the constraint of which `self` is the
    /// forward view: the same two entities and column tuples, swapped, and
    /// many rows for one.
    pub open spec fn complemented_by(self, other: RelationView) -> bool {
        &&& self.direction == Direction::Forward
        &&& other.direction == Direction::Reverse
        &&& other.cardinality == Cardinality::ToMany
        &&& other.source_entity == self.destination_entity
        &&& other.destination_entity == self.source_entity
        &&& other.source_columns == self.destination_columns
        &&& other.destination_columns == self.source_columns
    }
}

/// The name of the key type between two entities.
pub open spec fn key_name_of(source: Seq<char>, destination: Seq<char>) -> Seq<char> {
    source + destination + seq!['F', 'K']
}

/// The cardinality of a forward relation whose source columns have `types`.
pub open spec fn forward_cardinality(types: Seq<ColumnType>) -> Cardinality {
    if any_optional(types) {
        Cardinality::ToOneOptional
    } else {
        Cardinality::ToOne
    }
}

/// The relation that `key` gives to the entity that owns it.
pub open spec fn forward_of(key: ForeignKeyMetaView) -> RelationView {
    RelationView {
        name: relation_name_of(key.source_columns, key.destination_table_module),
        key_name: key_name_of(key.source_table_name, key.destination_table_name),
        source_entity: key.source_table_name,
        source_columns: key.source_columns,
        key_items: snake_cases(key.source_columns),
        destination_entity: key.destination_table_name,
        destination_module: key.destination_table_module,
        destination_columns: key.destination_columns,
        cardinality: forward_cardinality(key.source_column_types),
        direction: Direction::Forward,
    }
}

/// The relation that `key` gives to the entity it points at.
pub open spec fn reverse_of(key: ForeignKeyMetaView) -> RelationView {
    RelationView {
        name: relation_name_of(key.destination_columns, key.source_table_module),
        key_name: key_name_of(key.destination_table_name, key.source_table_name),
        source_entity: key.destination_table_name,
        source_columns: key.destination_columns,
        key_items: snake_cases(key.destination_columns),
        destination_entity: key.source_table_name,
        destination_module: key.source_table_module,
        destination_columns: key.source_columns,
        cardinality: Cardinality::ToMany,
        direction: Direction::Reverse,
    }
}

/// The relations that `key` gives to the entity called `entity`: the forward
/// one if the entity owns the key, then the reverse one if the key points at
/// it.
pub open spec fn relations_from(entity: Seq<char>, key: ForeignKeyMetaView) -> Seq<RelationView> {
    let forward = if key.source_table_name == entity {
        seq![forward_of(key)]
    } else {
        Seq::empty()
    };
    let reverse = if key.destination_table_name == entity {
        seq![reverse_of(key)]
    } else {
        Seq::empty()
    };
    forward + reverse
}

/// The relations that `keys` give to the entity called `entity`, key by key.
pub open spec fn relations_of(entity: Seq<char>, keys: Seq<ForeignKeyMetaView>) -> Seq<
    RelationView,
>
    decreases keys.len(),
{
    if keys.len() == 0 {
        Seq::empty()
    } else {
        relations_of(entity, keys.drop_last()) + relations_from(entity, keys.last())
    }
}

/// The name of the key type between two entities.
pub fn key_name(source: &String, destination: &String) -> (name: String)
    ensures
        name@ == key_name_of(source@, destination@),
{
    let mut name = source.clone();
    name.append(destination.as_str());
    name.append("FK");
    proof {
        reveal_strlit("FK");
        assert("FK"@ =~= seq!['F', 'K']);
    }
    name
}

/// The relation that `key` gives to the entity that owns it.
pub fn forward_relation(key: &ForeignKeyMeta) -> (relation: Relation)
    ensures
        relation@ == forward_of(key@),
{
    let cardinality = if key.is_source_optional() {
        Cardinality::ToOneOptional
    } else {
        Cardinality::ToOne
    };
    Relation {
        name: relation_name(&key.source_columns, &key.destination_table_module),
        key_name: key_name(&key.source_table_name, &key.destination_table_name),
        source_entity: key.source_table_name.clone(),
        source_columns: copy_texts(&key.source_columns),
        key_items: to_snake_cases(&key.source_columns),
        destination_entity: key.destination_table_name.clone(),
        destination_module: key.destination_table_module.clone(),
        destination_columns: copy_texts(&key.destination_columns),
        cardinality,
        direction: Direction::Forward,
    }
}

/// The relation that `key` gives to the entity it points at.
pub fn reverse_relation(key: &ForeignKeyMeta) -> (relation: Relation)
    ensures
        relation@ == reverse_of(key@),
{
    Relation {
        name: relation_name(&key.destination_columns, &key.source_table_module),
        key_name: key_name(&key.destination_table_name, &key.source_table_name),
        source_entity: key.destination_table_name.clone(),
        source_columns: copy_texts(&key.destination_columns),
        key_items: to_snake_cases(&key.destination_columns),
        destination_entity: key.source_table_name.clone(),
        destination_module: key.source_table_module.clone(),
        destination_columns: copy_texts(&key.source_columns),
        cardinality: Cardinality::ToMany,
        direction: Direction::Reverse,
    }
}

} // verus!
