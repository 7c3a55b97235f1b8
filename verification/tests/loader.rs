use rust_graphql_generator_demo::database_schema::{
    get_database_schema, ColumnDef, ForeignKeyDef, Schema, TableDef,
};
use rust_graphql_generator_demo::filter::{
    compile, FilterFault, FilterNode, Operand, Operator, Predicate, Value,
};
use rust_graphql_generator_demo::graphql::entities::{
    field_positions, generate_entity_relations, relation_positions, resolve, Resolution,
};
use rust_graphql_generator_demo::graphql::orm_data_loader::{
    answer_batch, BackendExecutionError, LookupError,
};
use rust_graphql_generator_demo::graphql::orm_data_loader::{
    batch_query, distribute, find_tuple, locate, plan, row_answers, select_answering, settle,
    Batch, Loaded, RelationCardinalityViolation, RelationId, RelationKey,
};
use rust_graphql_generator_demo::relation::{Cardinality, Direction};
use rust_graphql_generator_demo::types::{ScalarKind, TableMeta};

fn text(s: &str) -> String {
    s.to_string()
}

fn column(name: &str, kind: ScalarKind, nullable: bool, primary_key: bool) -> ColumnDef {
    ColumnDef { name: text(name), kind, nullable, primary_key }
}

fn music() -> Vec<TableMeta> {
    let artist = TableDef {
        name: text("Artist"),
        columns: vec![column("id", ScalarKind::Integer, false, true)],
        foreign_keys: vec![],
    };
    let album = TableDef {
        name: text("Album"),
        columns: vec![
            column("id", ScalarKind::Integer, false, true),
            column("artistId", ScalarKind::Integer, false, false),
            column("producerId", ScalarKind::Integer, true, false),
        ],
        foreign_keys: vec![
            ForeignKeyDef {
                columns: vec![text("artistId")],
                ref_table: text("Artist"),
                ref_columns: vec![text("id")],
            },
        ],
    };
    get_database_schema(&Schema { tables: vec![artist, album] }).unwrap()
}

const ALBUMS_OF_ARTIST: RelationId = RelationId { entity: 0, relation: 0 };
const ARTIST_OF_ALBUM: RelationId = RelationId { entity: 1, relation: 0 };

fn ints(values: &[i128]) -> Vec<Value> {
    values.iter().map(|v| Value::Int(*v)).collect()
}

fn key(relation: RelationId, values: &[i128], filter: Option<FilterNode>) -> RelationKey {
    RelationKey { relation, values: ints(values), filter }
}

fn title_filter(title: &str) -> FilterNode {
    FilterNode::Leaf {
        field: text("id"),
        operator: Operator::Ne,
        operand: Operand::Single(Value::Text(text(title))),
    }
}

fn id_filter(id: i128) -> FilterNode {
    FilterNode::Leaf {
        field: text("id"),
        operator: Operator::Gt,
        operand: Operand::Single(Value::Int(id)),
    }
}

#[test]
fn filter_on_album_and_albums_of_one_artist() {
    let tables = music();
    let filter = FilterNode::Leaf {
        field: text("artist_id"),
        operator: Operator::Eq,
        operand: Operand::Single(Value::Int(3)),
    };
    assert_eq!(
        compile(&tables[1], &filter),
        Ok(Predicate::Compare { column: 1, operator: Operator::Eq, value: Value::Int(3) })
    );

    let relations = generate_entity_relations(&tables[0]);
    let albums = &relations[0];
    assert_eq!(albums.direction, Direction::Reverse);
    assert_eq!(albums.cardinality, Cardinality::ToMany);
    let source = field_positions(&tables[0], &albums.key_items).unwrap();
    assert_eq!(source, vec![0]);
    let destination_fields: Vec<String> = vec![text("artist_id")];
    let destination = field_positions(&tables[1], &destination_fields).unwrap();
    assert_eq!(destination, vec![1]);

    let artist_row = ints(&[3]);
    let resolution = resolve(albums.cardinality, ALBUMS_OF_ARTIST, &source, &artist_row, None);
    let lookup = match resolution {
        Resolution::Lookup(lookup) => lookup,
        Resolution::Absent => panic!("a lookup is due"),
    };
    assert_eq!(lookup, key(ALBUMS_OF_ARTIST, &[3], None));

    let keys = vec![lookup];
    let batches = plan(&keys);
    assert_eq!(batches.len(), 1);
    assert_eq!(batches[0].tuples, vec![ints(&[3])]);
    assert_eq!(batches[0].members, vec![0]);

    let query = batch_query(&tables[1], &destination, &batches[0].tuples, &keys[0].filter);
    assert_eq!(
        query,
        Ok(Predicate::All(vec![
            Predicate::TupleMember { columns: vec![1], tuples: vec![ints(&[3])] },
            Predicate::All(vec![]),
        ]))
    );

    let found = vec![
        vec![Value::Int(10), Value::Int(3), Value::Null],
        vec![Value::Int(11), Value::Int(3), Value::Int(7)],
    ];
    let outcomes =
        distribute(albums.cardinality, ALBUMS_OF_ARTIST, &destination, &batches[0].tuples, &found);
    assert_eq!(outcomes, vec![Ok(Loaded::Many(found.clone()))]);
    assert_eq!(locate(&batches, 0, &keys[0].values), Some((0, 0)));
}

#[test]
fn lookups_of_one_relation_make_one_batch_and_find_their_rows() {
    let tables = music();
    let artist_of = &generate_entity_relations(&tables[1])[0];
    assert_eq!(artist_of.cardinality, Cardinality::ToOne);
    let source = field_positions(&tables[1], &artist_of.key_items).unwrap();
    assert_eq!(source, vec![1]);
    let albums = vec![
        vec![Value::Int(10), Value::Int(3), Value::Null],
        vec![Value::Int(11), Value::Int(5), Value::Null],
        vec![Value::Int(12), Value::Int(4), Value::Null],
    ];
    let mut keys = Vec::new();
    for row in &albums {
        match resolve(artist_of.cardinality, ARTIST_OF_ALBUM, &source, row, None) {
            Resolution::Lookup(lookup) => keys.push(lookup),
            Resolution::Absent => panic!("a lookup is due"),
        }
    }
    let batches = plan(&keys);
    assert_eq!(batches.len(), 1);
    assert_eq!(batches[0].relation, ARTIST_OF_ALBUM);
    assert_eq!(batches[0].representative, 0);
    assert_eq!(batches[0].members, vec![0, 1, 2]);
    assert_eq!(batches[0].tuples, vec![ints(&[3]), ints(&[5]), ints(&[4])]);

    let artists = vec![ints(&[4]), ints(&[3]), ints(&[5])];
    let outcomes =
        distribute(Cardinality::ToOne, ARTIST_OF_ALBUM, &vec![0], &batches[0].tuples, &artists);
    for (position, row) in albums.iter().enumerate() {
        let (batch, tuple) = locate(&batches, position, &keys[position].values).unwrap();
        assert_eq!(batch, 0);
        assert_eq!(outcomes[tuple], Ok(Loaded::One(vec![row[1].clone()])));
    }
}

#[test]
fn composite_tuples_are_grouped_once_each() {
    let relation = RelationId { entity: 2, relation: 0 };
    let keys = vec![
        key(relation, &[7, 1], None),
        key(relation, &[7, 2], None),
        key(relation, &[7, 1], None),
    ];
    let batches = plan(&keys);
    assert_eq!(batches.len(), 1);
    assert_eq!(batches[0].tuples, vec![ints(&[7, 1]), ints(&[7, 2])]);
    assert_eq!(batches[0].members, vec![0, 1, 2]);
    assert_eq!(locate(&batches, 2, &keys[2].values), Some((0, 0)));
    assert_eq!(locate(&batches, 1, &keys[1].values), Some((0, 1)));
    assert!(keys[0].same_identity(&keys[2]));
    assert!(!keys[0].same_identity(&keys[1]));
}

#[test]
fn batches_are_split_by_relation_and_by_filter() {
    let keys = vec![
        key(ALBUMS_OF_ARTIST, &[1], None),
        key(ARTIST_OF_ALBUM, &[1], None),
        key(ALBUMS_OF_ARTIST, &[2], Some(id_filter(5))),
        key(ALBUMS_OF_ARTIST, &[3], Some(id_filter(5))),
        key(ALBUMS_OF_ARTIST, &[1], Some(id_filter(6))),
        key(ALBUMS_OF_ARTIST, &[4], None),
        key(ALBUMS_OF_ARTIST, &[2], Some(id_filter(5))),
    ];
    let batches = plan(&keys);
    assert_eq!(
        batches,
        vec![
            Batch {
                relation: ALBUMS_OF_ARTIST,
                representative: 0,
                tuples: vec![ints(&[1]), ints(&[4])],
                members: vec![0, 5],
            },
            Batch {
                relation: ARTIST_OF_ALBUM,
                representative: 1,
                tuples: vec![ints(&[1])],
                members: vec![1],
            },
            Batch {
                relation: ALBUMS_OF_ARTIST,
                representative: 2,
                tuples: vec![ints(&[2]), ints(&[3])],
                members: vec![2, 3, 6],
            },
            Batch {
                relation: ALBUMS_OF_ARTIST,
                representative: 4,
                tuples: vec![ints(&[1])],
                members: vec![4],
            },
        ]
    );
    assert!(keys[0].same_identity(&keys[4]));
    assert!(!keys[0].same_group(&keys[4]));
    assert!(keys[2].same_group(&keys[3]));
    assert!(!keys[0].same_group(&keys[1]));
    for position in 0..keys.len() {
        let holders = batches.iter().filter(|b| b.members.contains(&position)).count();
        assert_eq!(holders, 1);
        assert!(locate(&batches, position, &keys[position].values).is_some());
    }
    assert_eq!(locate(&batches, 7, &ints(&[1])), None);
    assert_eq!(locate(&batches, 0, &ints(&[9])), None);
}

#[test]
fn round_without_lookups_gives_no_batch() {
    assert_eq!(plan(&vec![]), vec![]);
}

#[test]
fn null_key_of_optional_relation_is_absent_without_lookup() {
    let row = vec![Value::Int(10), Value::Int(3), Value::Null];
    assert_eq!(
        resolve(Cardinality::ToOneOptional, ARTIST_OF_ALBUM, &vec![2], &row, None),
        Resolution::Absent
    );
    assert_eq!(
        resolve(Cardinality::ToOneOptional, ARTIST_OF_ALBUM, &vec![1, 2], &row, Some(id_filter(1))),
        Resolution::Absent
    );
    assert_eq!(
        resolve(Cardinality::ToOneOptional, ARTIST_OF_ALBUM, &vec![1], &row, Some(id_filter(1))),
        Resolution::Lookup(key(ARTIST_OF_ALBUM, &[3], Some(id_filter(1))))
    );
    assert_eq!(
        resolve(Cardinality::ToOne, ARTIST_OF_ALBUM, &vec![2], &row, None),
        Resolution::Lookup(RelationKey {
            relation: ARTIST_OF_ALBUM,
            values: vec![Value::Null],
            filter: None,
        })
    );
    assert_eq!(
        resolve(Cardinality::ToMany, ALBUMS_OF_ARTIST, &vec![0, 1], &row, None),
        Resolution::Lookup(key(ALBUMS_OF_ARTIST, &[10, 3], None))
    );
    assert_eq!(
        resolve(Cardinality::ToOneOptional, ARTIST_OF_ALBUM, &vec![5], &row, None),
        Resolution::Absent
    );
}

#[test]
fn batch_query_joins_membership_and_filter() {
    let tables = music();
    let tuples = vec![ints(&[3]), ints(&[4])];
    assert_eq!(
        batch_query(&tables[1], &vec![1], &tuples, &Some(id_filter(10))),
        Ok(Predicate::All(vec![
            Predicate::TupleMember { columns: vec![1], tuples: tuples.clone() },
            Predicate::Compare { column: 0, operator: Operator::Gt, value: Value::Int(10) },
        ]))
    );
    let fault = batch_query(&tables[1], &vec![1], &tuples, &Some(title_filter("x"))).unwrap_err();
    assert_eq!(fault.fault, FilterFault::OperandType);
    assert_eq!(fault.entity, "Album");
    assert_eq!(fault.field, "id");
    assert_eq!(fault.operator, Operator::Ne);
}

#[test]
fn rows_answer_the_lookup_whose_tuple_they_bear() {
    let row = vec![Value::Int(10), Value::Int(3), Value::Null];
    assert!(row_answers(&row, &vec![1], &ints(&[3])));
    assert!(row_answers(&row, &vec![1, 0], &ints(&[3, 10])));
    assert!(!row_answers(&row, &vec![0], &ints(&[3])));
    assert!(!row_answers(&row, &vec![2], &vec![Value::Null]));
    assert!(!row_answers(&row, &vec![3], &ints(&[3])));
    assert!(!row_answers(&row, &vec![1], &ints(&[3, 10])));
    let rows = vec![
        vec![Value::Int(1), Value::Int(3)],
        vec![Value::Int(2), Value::Int(4)],
        vec![Value::Int(3), Value::Int(3)],
    ];
    assert_eq!(
        select_answering(&rows, &vec![1], &ints(&[3])),
        vec![rows[0].clone(), rows[2].clone()]
    );
    assert_eq!(select_answering(&rows, &vec![1], &ints(&[9])), Vec::<Vec<Value>>::new());
    assert_eq!(find_tuple(&rows, &rows[1]), Some(1));
    assert_eq!(find_tuple(&rows, &ints(&[9, 9])), None);
}

#[test]
fn outcomes_follow_the_cardinality() {
    let values = ints(&[3]);
    let one = vec![ints(&[3, 1])];
    let two = vec![ints(&[3, 1]), ints(&[3, 2])];
    let violation = |matches: usize| RelationCardinalityViolation {
        relation: ARTIST_OF_ALBUM,
        values: ints(&[3]),
        matches,
    };
    assert_eq!(
        settle(Cardinality::ToMany, ARTIST_OF_ALBUM, &values, vec![]),
        Ok(Loaded::Many(vec![]))
    );
    assert_eq!(
        settle(Cardinality::ToMany, ARTIST_OF_ALBUM, &values, two.clone()),
        Ok(Loaded::Many(two.clone()))
    );
    assert_eq!(
        settle(Cardinality::ToOneOptional, ARTIST_OF_ALBUM, &values, vec![]),
        Ok(Loaded::Absent)
    );
    assert_eq!(
        settle(Cardinality::ToOneOptional, ARTIST_OF_ALBUM, &values, one.clone()),
        Ok(Loaded::One(ints(&[3, 1])))
    );
    assert_eq!(
        settle(Cardinality::ToOneOptional, ARTIST_OF_ALBUM, &values, two.clone()),
        Err(violation(2))
    );
    assert_eq!(settle(Cardinality::ToOne, ARTIST_OF_ALBUM, &values, vec![]), Err(violation(0)));
    assert_eq!(
        settle(Cardinality::ToOne, ARTIST_OF_ALBUM, &values, one),
        Ok(Loaded::One(ints(&[3, 1])))
    );
    assert_eq!(settle(Cardinality::ToOne, ARTIST_OF_ALBUM, &values, two), Err(violation(2)));
}

#[test]
fn distribution_keeps_the_order_of_tuples_and_rows() {
    let tuples = vec![ints(&[3]), ints(&[4]), ints(&[5])];
    let rows = vec![ints(&[5, 1]), ints(&[3, 2]), ints(&[5, 3]), ints(&[3, 4])];
    assert_eq!(
        distribute(Cardinality::ToMany, ALBUMS_OF_ARTIST, &vec![0], &tuples, &rows),
        vec![
            Ok(Loaded::Many(vec![ints(&[3, 2]), ints(&[3, 4])])),
            Ok(Loaded::Many(vec![])),
            Ok(Loaded::Many(vec![ints(&[5, 1]), ints(&[5, 3])])),
        ]
    );
    assert_eq!(
        distribute(Cardinality::ToOneOptional, ALBUMS_OF_ARTIST, &vec![0], &tuples, &rows[..1].to_vec()),
        vec![Ok(Loaded::Absent), Ok(Loaded::Absent), Ok(Loaded::One(ints(&[5, 1])))]
    );
}

#[test]
fn positions_are_found_by_field_name() {
    let tables = music();
    assert_eq!(
        field_positions(&tables[1], &vec![text("producer_id"), text("id")]),
        Some(vec![2, 0])
    );
    assert_eq!(field_positions(&tables[1], &vec![text("id"), text("producerId")]), None);
    assert_eq!(field_positions(&tables[1], &vec![]), Some(vec![]));
}

#[test]
fn failed_query_fails_every_lookup_of_its_batch() {
    let tuples = vec![ints(&[3]), ints(&[4])];
    let failure = BackendExecutionError { message: text("connection lost") };
    assert_eq!(
        answer_batch(Cardinality::ToMany, ALBUMS_OF_ARTIST, &vec![0], &tuples, &Err(failure.clone())),
        vec![
            Err(LookupError::Backend(failure.clone())),
            Err(LookupError::Backend(failure.clone())),
        ]
    );
    let rows = vec![ints(&[3, 1]), ints(&[3, 2])];
    assert_eq!(
        answer_batch(Cardinality::ToOne, ALBUMS_OF_ARTIST, &vec![0], &tuples, &Ok(rows)),
        vec![
            Err(LookupError::Cardinality(RelationCardinalityViolation {
                relation: ALBUMS_OF_ARTIST,
                values: ints(&[3]),
                matches: 2,
            })),
            Err(LookupError::Cardinality(RelationCardinalityViolation {
                relation: ALBUMS_OF_ARTIST,
                values: ints(&[4]),
                matches: 0,
            })),
        ]
    );
    assert_eq!(
        answer_batch(Cardinality::ToOneOptional, ALBUMS_OF_ARTIST, &vec![0], &tuples, &Ok(vec![ints(&[4, 9])])),
        vec![Ok(Loaded::Absent), Ok(Loaded::One(ints(&[4, 9])))]
    );
}

#[test]
fn key_positions_of_a_relation_are_found_on_both_entities() {
    let tables = music();
    let albums = &generate_entity_relations(&tables[0])[0];
    assert_eq!(relation_positions(&tables[0], &tables[1], albums), Some((vec![0], vec![1])));
    let artist = &generate_entity_relations(&tables[1])[0];
    assert_eq!(relation_positions(&tables[1], &tables[0], artist), Some((vec![1], vec![0])));
    assert_eq!(relation_positions(&tables[0], &tables[0], albums), None);
}
