//! What holds of every graph that the metadata builder gives.

use crate::database_schema::{
    all_keys, column_of, keys_sound, entity_of, is_first_table, is_key, key_fault, key_meta, keys_of_table,
    keys_touching, keys_upto, names_distinct, relations_of_table, schema_valid, touches,
    SchemaView,
};
use crate::naming::{snake_case, upper_camel_case};
use crate::relation::{
    forward_of, relations_from, relations_of, reverse_of, Cardinality, Direction, RelationView,
};
use crate::types::foreign_key_meta::ForeignKeyMetaView;
use vstd::prelude::*;

verus! {

/// A sequence made of two holds what either part holds.
proof fn lemma_contains_add<A>(a: Seq<A>, b: Seq<A>, x: A)
    ensures
        (a + b).contains(x) <==> a.contains(x) || b.contains(x),
{
    if a.contains(x) {
        let i = choose|i: int| 0 <= i < a.len() && a[i] == x;
        assert((a + b)[i] == x);
    }
    if b.contains(x) {
        let i = choose|i: int| 0 <= i < b.len() && b[i] == x;
        assert((a + b)[a.len() + i] == x);
    }
    if (a + b).contains(x) {
        let i = choose|i: int| 0 <= i < (a + b).len() && (a + b)[i] == x;
        if i < a.len() {
            assert(a[i] == x);
        } else {
            assert(b[i - a.len()] == x);
        }
    }
}

/// `key` is the metadata of some foreign key among those of the first `n`
/// tables.
pub open spec fn is_key_upto(schema: SchemaView, n: int, key: ForeignKeyMetaView) -> bool {
    exists|t: int, f: int| is_key(schema, t, f) && t < n && key == key_meta(schema, t, f)
}

proof fn lemma_keys_upto_contains(schema: SchemaView, n: int, key: ForeignKeyMetaView)
    requires
        0 <= n <= schema.tables.len(),
    ensures
        keys_upto(schema, n).contains(key) <==> is_key_upto(schema, n, key),
    decreases n,
{
    if n == 0 {
        assert(keys_upto(schema, n) =~= Seq::empty());
        if is_key_upto(schema, n, key) {
            let (t, f) = choose|t: int, f: int|
                is_key(schema, t, f) && t < n && key == key_meta(schema, t, f);
            assert(false);
        }
    } else {
        let head = keys_upto(schema, n - 1);
        let tail = keys_of_table(schema, n - 1);
        lemma_keys_upto_contains(schema, n - 1, key);
        lemma_contains_add(head, tail, key);
        if tail.contains(key) {
            let f = choose|f: int| 0 <= f < tail.len() && tail[f] == key;
            assert(is_key(schema, n - 1, f) && n - 1 < n && key == key_meta(schema, n - 1, f));
        }
        if head.contains(key) {
            let (t, f) = choose|t: int, f: int|
                is_key(schema, t, f) && t < n - 1 && key == key_meta(schema, t, f);
            assert(is_key(schema, t, f) && t < n && key == key_meta(schema, t, f));
        }
        if is_key_upto(schema, n, key) {
            let (t, f) = choose|t: int, f: int|
                is_key(schema, t, f) && t < n && key == key_meta(schema, t, f);
            if t == n - 1 {
                assert(tail[f] == key);
            } else {
                assert(is_key(schema, t, f) && t < n - 1 && key == key_meta(schema, t, f));
            }
        }
    }
}

/// `relation` comes from one of `keys`.
pub open spec fn comes_from(
    entity: Seq<char>,
    keys: Seq<ForeignKeyMetaView>,
    relation: RelationView,
) -> bool {
    exists|m: int| 0 <= m < keys.len() && relations_from(entity, keys[m]).contains(relation)
}

proof fn lemma_relations_of_contains(
    entity: Seq<char>,
    keys: Seq<ForeignKeyMetaView>,
    relation: RelationView,
)
    ensures
        relations_of(entity, keys).contains(relation) <==> comes_from(entity, keys, relation),
    decreases keys.len(),
{
    if keys.len() == 0 {
        assert(relations_of(entity, keys) =~= Seq::empty());
    } else {
        let head = relations_of(entity, keys.drop_last());
        let tail = relations_from(entity, keys.last());
        lemma_relations_of_contains(entity, keys.drop_last(), relation);
        lemma_contains_add(head, tail, relation);
        if tail.contains(relation) {
            assert(relations_from(entity, keys[keys.len() - 1]).contains(relation));
        }
        if head.contains(relation) {
            let m = choose|m: int|
                0 <= m < keys.drop_last().len() && relations_from(
                    entity,
                    keys.drop_last()[m],
                ).contains(relation);
            assert(keys.drop_last()[m] == keys[m]);
        }
        if comes_from(entity, keys, relation) {
            let m = choose|m: int|
                0 <= m < keys.len() && relations_from(entity, keys[m]).contains(relation);
            if m < keys.len() - 1 {
                assert(keys.drop_last()[m] == keys[m]);
                assert(comes_from(entity, keys.drop_last(), relation));
            }
        }
    }
}

/// The keys of an entity are those of the schema that touch it.
proof fn lemma_keys_touching_contains(
    keys: Seq<ForeignKeyMetaView>,
    entity: Seq<char>,
    key: ForeignKeyMetaView,
)
    ensures
        keys_touching(keys, entity).contains(key) <==> keys.contains(key) && touches(key, entity),
{
    let pred = |k: ForeignKeyMetaView| touches(k, entity);
    if keys_touching(keys, entity).contains(key) {
        keys.lemma_filter_contains_rev(pred, key);
        let i = choose|i: int| 0 <= i < keys.filter(pred).len() && keys.filter(pred)[i] == key;
        keys.lemma_filter_pred(pred, i);
    }
    if keys.contains(key) && touches(key, entity) {
        let i = choose|i: int| 0 <= i < keys.len() && keys[i] == key;
        keys.lemma_filter_contains(pred, i);
    }
}

/// The relations of the built entity `t` are the forward relations of the
/// keys that table `t` owns and the reverse relations of the keys that point
/// at it.
pub proof fn lemma_entity_relations(schema: SchemaView, t: int, relation: RelationView)
    requires
        0 <= t < schema.tables.len(),
    ensures
        relations_of_table(schema, t).contains(relation) <==> exists|u: int, f: int|
            is_key(schema, u, f) && relations_from(
                upper_camel_case(schema.tables[t].name),
                #[trigger] key_meta(schema, u, f),
            ).contains(relation),
{
    let entity = upper_camel_case(schema.tables[t].name);
    let keys = keys_touching(all_keys(schema), entity);
    assert(entity_of(schema, t).foreign_keys == keys);
    lemma_relations_of_contains(entity, keys, relation);
    if relations_of_table(schema, t).contains(relation) {
        let m = choose|m: int|
            0 <= m < keys.len() && relations_from(entity, keys[m]).contains(relation);
        assert(keys.contains(keys[m]));
        lemma_keys_touching_contains(all_keys(schema), entity, keys[m]);
        lemma_keys_upto_contains(schema, schema.tables.len() as int, keys[m]);
        let (u, f) = choose|u: int, f: int|
            is_key(schema, u, f) && u < schema.tables.len() && keys[m] == key_meta(schema, u, f);
        assert(is_key(schema, u, f) && relations_from(entity, key_meta(schema, u, f)).contains(
            relation,
        ));
    }
    if exists|u: int, f: int|
        is_key(schema, u, f) && relations_from(entity, #[trigger] key_meta(schema, u, f)).contains(
            relation,
        ) {
        let (u, f) = choose|u: int, f: int|
            is_key(schema, u, f) && relations_from(
                entity,
                #[trigger] key_meta(schema, u, f),
            ).contains(relation);
        let key = key_meta(schema, u, f);
        assert(is_key_upto(schema, schema.tables.len() as int, key));
        lemma_keys_upto_contains(schema, schema.tables.len() as int, key);
        assert(touches(key, entity)) by {
            if !touches(key, entity) {
                assert(relations_from(entity, key) =~= Seq::empty());
            }
        }
        lemma_keys_touching_contains(all_keys(schema), entity, key);
        let m = choose|m: int| 0 <= m < keys.len() && keys[m] == key;
        assert(relations_from(entity, keys[m]).contains(relation));
    }
}

/// Relation `j` of the built entity `b` is a complement of `relation`, and
/// `b` is the entity that `relation` leads to.
pub open spec fn is_complement_at(schema: SchemaView, relation: RelationView, b: int, j: int)
    -> bool {
    &&& 0 <= b < schema.tables.len()
    &&& upper_camel_case(schema.tables[b].name) == relation.destination_entity
    &&& 0 <= j < relations_of_table(schema, b).len()
    &&& relation.complemented_by(relations_of_table(schema, b)[j])
}

/// A reverse relation of a built entity is the reverse view of one of the
/// schema's keys.
proof fn lemma_reverse_origin(schema: SchemaView, b: int, j: int) -> (key: ForeignKeyMetaView)
    requires
        0 <= b < schema.tables.len(),
        0 <= j < relations_of_table(schema, b).len(),
        relations_of_table(schema, b)[j].direction == Direction::Reverse,
    ensures
        relations_of_table(schema, b)[j] == reverse_of(key),
        key.source_table_module == snake_case(key.source_table_name),
{
    let entity = upper_camel_case(schema.tables[b].name);
    let relation = relations_of_table(schema, b)[j];
    assert(relations_of_table(schema, b).contains(relation));
    lemma_entity_relations(schema, b, relation);
    let (u, f) = choose|u: int, f: int|
        is_key(schema, u, f) && relations_from(entity, #[trigger] key_meta(schema, u, f)).contains(
            relation,
        );
    let key = key_meta(schema, u, f);
    let from = relations_from(entity, key);
    let i = choose|i: int| 0 <= i < from.len() && from[i] == relation;
    assert(from[i] == relation);
    key
}

/// In a graph built from a valid schema, every forward relation has exactly
/// one complement: one reverse relation, on the entity that the forward
/// relation leads to, between the same two entities and column tuples taken
/// the other way round, and yielding many rows for one.
pub proof fn lemma_forward_has_one_reverse(schema: SchemaView, a: int, i: int)
    requires
        schema_valid(schema),
        0 <= a < schema.tables.len(),
        0 <= i < relations_of_table(schema, a).len(),
        relations_of_table(schema, a)[i].direction == Direction::Forward,
    ensures
        exists|b: int, j: int| is_complement_at(schema, relations_of_table(schema, a)[i], b, j),
        forall|b1: int, j1: int, b2: int, j2: int|
            is_complement_at(schema, relations_of_table(schema, a)[i], b1, j1) && is_complement_at(
                schema,
                relations_of_table(schema, a)[i],
                b2,
                j2,
            ) ==> b1 == b2 && j1 == j2,
{
    let entity = upper_camel_case(schema.tables[a].name);
    let relation = relations_of_table(schema, a)[i];
    assert(relations_of_table(schema, a).contains(relation));
    lemma_entity_relations(schema, a, relation);
    let (u, f) = choose|u: int, f: int|
        is_key(schema, u, f) && relations_from(entity, #[trigger] key_meta(schema, u, f)).contains(
            relation,
        );
    let key = key_meta(schema, u, f);
    let from = relations_from(entity, key);
    let at = choose|at: int| 0 <= at < from.len() && from[at] == relation;
    assert(from[at] == relation);
    assert(relation == forward_of(key));
    assert(key_fault(schema, u, f) is None);
    let target = key.destination_table_name;
    let b = choose|b: int| is_first_table(schema, target, b);
    let reverse = reverse_of(key);
    assert(relations_from(target, key).contains(reverse)) by {
        let list = relations_from(target, key);
        assert(list[list.len() - 1] == reverse);
    }
    lemma_entity_relations(schema, b, reverse);
    assert(relations_of_table(schema, b).contains(reverse));
    let j = choose|j: int|
        0 <= j < relations_of_table(schema, b).len() && relations_of_table(schema, b)[j]
            == reverse;
    assert(is_complement_at(schema, relation, b, j));
    assert forall|b1: int, j1: int, b2: int, j2: int|
        is_complement_at(schema, relation, b1, j1) && is_complement_at(
            schema,
            relation,
            b2,
            j2,
        ) implies b1 == b2 && j1 == j2 by {
        assert(b1 == b2) by {
            if b1 < b2 {
                assert(upper_camel_case(schema.tables[b1].name) != upper_camel_case(
                    schema.tables[b2].name,
                ));
            }
            if b2 < b1 {
                assert(upper_camel_case(schema.tables[b2].name) != upper_camel_case(
                    schema.tables[b1].name,
                ));
            }
        }
        let list = relations_of_table(schema, b1);
        let k1 = lemma_reverse_origin(schema, b1, j1);
        let k2 = lemma_reverse_origin(schema, b1, j2);
        assert(list[j1].name == list[j2].name);
        assert(names_distinct(list));
        if j1 < j2 {
            assert(list[j1].name != list[j2].name);
        }
        if j2 < j1 {
            assert(list[j2].name != list[j1].name);
        }
    }
}

/// The forward relation of a sound key yields at most one row: it is
/// optional exactly where one of the key's own columns admits null, and
/// mandatory otherwise.
pub proof fn lemma_forward_cardinality(schema: SchemaView, t: int, f: int)
    requires
        is_key(schema, t, f),
        key_fault(schema, t, f) is None,
    ensures
        forward_of(key_meta(schema, t, f)).cardinality == Cardinality::ToOneOptional <==> exists|
            k: int,
        |
            0 <= k < schema.tables[t].foreign_keys[f].columns.len() && column_of(
                schema.tables[t].columns,
                #[trigger] schema.tables[t].foreign_keys[f].columns[k],
            ).nullable,
        forward_of(key_meta(schema, t, f)).cardinality != Cardinality::ToOneOptional
            ==> forward_of(key_meta(schema, t, f)).cardinality == Cardinality::ToOne,
{
    let table = schema.tables[t];
    let names = table.foreign_keys[f].columns;
    let types = key_meta(schema, t, f).source_column_types;
    if forward_of(key_meta(schema, t, f)).cardinality == Cardinality::ToOneOptional {
        let k = choose|k: int| 0 <= k < types.len() && (#[trigger] types[k]).optional;
        assert(column_of(table.columns, names[k]).nullable);
    }
    if exists|k: int|
        0 <= k < names.len() && column_of(table.columns, #[trigger] names[k]).nullable {
        let k = choose|k: int|
            0 <= k < names.len() && column_of(table.columns, #[trigger] names[k]).nullable;
        assert(types[k].optional);
    }
}

/// In every built entity, a column's type is optional exactly where the
/// column admits null, and its filters compare with its own scalar type.
pub proof fn lemma_built_columns_agree(schema: SchemaView, t: int, c: int)
    requires
        0 <= t < schema.tables.len(),
        0 <= c < schema.tables[t].columns.len(),
    ensures
        entity_of(schema, t).columns[c].well_formed(),
        entity_of(schema, t).columns[c].not_null == !schema.tables[t].columns[c].nullable,
{
}

/// The metadata of a sound key pairs its columns, and so do both relations
/// that the key gives; the reverse one yields many rows, the forward one at
/// most one.
pub proof fn lemma_sound_key_is_well_formed(schema: SchemaView, t: int, f: int)
    requires
        is_key(schema, t, f),
        key_fault(schema, t, f) is None,
    ensures
        key_meta(schema, t, f).well_formed(),
        forward_of(key_meta(schema, t, f)).well_formed(),
        reverse_of(key_meta(schema, t, f)).well_formed(),
{
}

/// Every relation of a graph built from sound keys is well formed: its
/// columns pair up, and it yields many rows exactly if it is a reverse
/// relation.
pub proof fn lemma_relations_well_formed(schema: SchemaView, t: int, i: int)
    requires
        keys_sound(schema),
        0 <= t < schema.tables.len(),
        0 <= i < relations_of_table(schema, t).len(),
    ensures
        relations_of_table(schema, t)[i].well_formed(),
{
    let entity = upper_camel_case(schema.tables[t].name);
    let relation = relations_of_table(schema, t)[i];
    assert(relations_of_table(schema, t).contains(relation));
    lemma_entity_relations(schema, t, relation);
    let (u, f) = choose|u: int, f: int|
        is_key(schema, u, f) && relations_from(entity, #[trigger] key_meta(schema, u, f)).contains(
            relation,
        );
    let from = relations_from(entity, key_meta(schema, u, f));
    let at = choose|at: int| 0 <= at < from.len() && from[at] == relation;
    assert(from[at] == relation);
    assert(key_fault(schema, u, f) is None);
    lemma_sound_key_is_well_formed(schema, u, f);
}

} // verus!
