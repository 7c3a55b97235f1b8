use rust_graphql_generator_demo::database_schema::{
    get_database_schema, ColumnDef, ForeignKeyDef, Schema, SchemaIntegrityError, TableDef,
};
use rust_graphql_generator_demo::graphql::entities::generate_entity_relations;
use rust_graphql_generator_demo::relation::{Cardinality, Direction};
use rust_graphql_generator_demo::types::{ColumnType, ScalarKind};

fn text(s: &str) -> String {
    s.to_string()
}

fn column(name: &str, kind: ScalarKind, nullable: bool, primary_key: bool) -> ColumnDef {
    ColumnDef { name: text(name), kind, nullable, primary_key }
}

fn key(columns: &[&str], ref_table: &str, ref_columns: &[&str]) -> ForeignKeyDef {
    ForeignKeyDef {
        columns: columns.iter().map(|c| text(c)).collect(),
        ref_table: text(ref_table),
        ref_columns: ref_columns.iter().map(|c| text(c)).collect(),
    }
}

fn artist() -> TableDef {
    TableDef {
        name: text("Artist"),
        columns: vec![
            column("id", ScalarKind::Integer, false, true),
            column("name", ScalarKind::Text, true, false),
        ],
        foreign_keys: vec![],
    }
}

fn album(artist_nullable: bool) -> TableDef {
    TableDef {
        name: text("Album"),
        columns: vec![
            column("id", ScalarKind::Integer, false, true),
            column("artistId", ScalarKind::Integer, artist_nullable, false),
            column("title", ScalarKind::Text, false, false),
        ],
        foreign_keys: vec![key(&["artistId"], "Artist", &["id"])],
    }
}

fn music(artist_nullable: bool) -> Schema {
    Schema { tables: vec![artist(), album(artist_nullable)] }
}

#[test]
fn entities_follow_the_tables_in_order() {
    let tables = get_database_schema(&music(false)).unwrap();
    assert_eq!(tables.len(), 2);
    assert_eq!(tables[0].entity_name, "Artist");
    assert_eq!(tables[0].entity_module, "artist");
    assert_eq!(tables[0].entity_filter, "ArtistFilter");
    assert_eq!(tables[1].entity_name, "Album");
    assert_eq!(tables[1].entity_module, "album");
    assert_eq!(tables[1].entity_filter, "AlbumFilter");
}

#[test]
fn columns_keep_schema_order_and_take_optionality_from_nullability() {
    let tables = get_database_schema(&music(false)).unwrap();
    let columns = &tables[1].columns;
    let names: Vec<&str> = columns.iter().map(|c| c.column_name.as_str()).collect();
    assert_eq!(names, vec!["id", "artist_id", "title"]);
    let enum_names: Vec<&str> = columns.iter().map(|c| c.column_enum_name.as_str()).collect();
    assert_eq!(enum_names, vec!["Id", "ArtistId", "Title"]);
    assert!(columns[0].is_primary_key);
    assert!(!columns[1].is_primary_key);
    for c in columns {
        assert_eq!(c.column_type.optional, !c.not_null);
        assert_eq!(c.column_filter_type, c.column_type.kind);
        assert!(!c.is_foreign_key);
    }
    let artist_name = &tables[0].columns[1];
    assert!(!artist_name.not_null);
    assert_eq!(artist_name.column_type, ColumnType { kind: ScalarKind::Text, optional: true });
}

#[test]
fn a_key_is_recorded_on_both_of_its_entities() {
    let tables = get_database_schema(&music(false)).unwrap();
    assert_eq!(tables[0].foreign_keys.len(), 1);
    assert_eq!(tables[1].foreign_keys.len(), 1);
    assert_eq!(tables[0].foreign_keys[0], tables[1].foreign_keys[0]);
    let fk = &tables[1].foreign_keys[0];
    assert_eq!(fk.source_table_name, "Album");
    assert_eq!(fk.source_table_module, "album");
    assert_eq!(fk.source_columns, vec![text("artistId")]);
    assert_eq!(
        fk.source_column_types,
        vec![ColumnType { kind: ScalarKind::Integer, optional: false }]
    );
    assert_eq!(fk.destination_table_name, "Artist");
    assert_eq!(fk.destination_table_module, "artist");
    assert_eq!(fk.destination_columns, vec![text("id")]);
    assert_eq!(
        fk.destination_column_types,
        vec![ColumnType { kind: ScalarKind::Integer, optional: false }]
    );
}

#[test]
fn forward_relation_has_one_complementary_reverse_relation() {
    let tables = get_database_schema(&music(false)).unwrap();
    let on_album = generate_entity_relations(&tables[1]);
    let on_artist = generate_entity_relations(&tables[0]);
    assert_eq!(on_album.len(), 1);
    assert_eq!(on_artist.len(), 1);
    let forward = &on_album[0];
    let reverse = &on_artist[0];
    assert_eq!(forward.direction, Direction::Forward);
    assert_eq!(forward.cardinality, Cardinality::ToOne);
    assert_eq!(forward.source_entity, "Album");
    assert_eq!(forward.destination_entity, "Artist");
    assert_eq!(forward.name, "artist_artist");
    assert_eq!(forward.key_name, "AlbumArtistFK");
    assert_eq!(forward.key_items, vec![text("artist_id")]);
    assert_eq!(reverse.direction, Direction::Reverse);
    assert_eq!(reverse.cardinality, Cardinality::ToMany);
    assert_eq!(reverse.source_entity, forward.destination_entity);
    assert_eq!(reverse.destination_entity, forward.source_entity);
    assert_eq!(reverse.source_columns, forward.destination_columns);
    assert_eq!(reverse.destination_columns, forward.source_columns);
    assert_eq!(reverse.name, "id_album");
    assert_eq!(reverse.key_name, "ArtistAlbumFK");
    assert_eq!(reverse.destination_module, "album");
    let complements = on_artist
        .iter()
        .filter(|r| {
            r.direction == Direction::Reverse
                && r.source_columns == forward.destination_columns
                && r.destination_columns == forward.source_columns
                && r.destination_entity == forward.source_entity
        })
        .count();
    assert_eq!(complements, 1);
}

#[test]
fn nullable_source_column_makes_the_forward_relation_optional() {
    let tables = get_database_schema(&music(true)).unwrap();
    let forward = &generate_entity_relations(&tables[1])[0];
    assert_eq!(forward.cardinality, Cardinality::ToOneOptional);
    let reverse = &generate_entity_relations(&tables[0])[0];
    assert_eq!(reverse.cardinality, Cardinality::ToMany);
}

#[test]
fn composite_key_is_optional_if_any_column_is_nullable() {
    let order_line = TableDef {
        name: text("order_line"),
        columns: vec![
            column("order_id", ScalarKind::BigInteger, false, true),
            column("line_no", ScalarKind::Integer, false, true),
        ],
        foreign_keys: vec![],
    };
    let shipment = TableDef {
        name: text("shipment"),
        columns: vec![
            column("id", ScalarKind::BigInteger, false, true),
            column("order_id", ScalarKind::BigInteger, false, false),
            column("line_no", ScalarKind::Integer, true, false),
        ],
        foreign_keys: vec![key(&["order_id", "line_no"], "order_line", &["order_id", "line_no"])],
    };
    let tables = get_database_schema(&Schema { tables: vec![order_line, shipment] }).unwrap();
    assert_eq!(tables[0].entity_name, "OrderLine");
    let forward = &generate_entity_relations(&tables[1])[0];
    assert_eq!(forward.cardinality, Cardinality::ToOneOptional);
    assert_eq!(forward.name, "order_line_no_order_line");
    assert_eq!(forward.key_name, "ShipmentOrderLineFK");
    assert_eq!(forward.source_columns.len(), 2);
    assert_eq!(forward.destination_columns.len(), 2);
    let fk = &tables[1].foreign_keys[0];
    assert!(fk.is_source_optional());
    assert!(!fk.is_destination_optional());
    assert_eq!(fk.get_source_optional(), vec![false, true]);
    assert_eq!(fk.get_destination_optional(), vec![false, false]);
    assert!(fk.is_optional(false));
    assert!(!fk.is_optional(true));
    assert_eq!(fk.get_optional_columns(false), vec![false, true]);
    assert!(fk.is_reverse(&text("OrderLine")));
    assert!(!fk.is_reverse(&text("Shipment")));
}

#[test]
fn self_reference_gives_both_relations_to_one_entity() {
    let employee = TableDef {
        name: text("employee"),
        columns: vec![
            column("employee_id", ScalarKind::Integer, false, true),
            column("reports_to", ScalarKind::Integer, true, false),
        ],
        foreign_keys: vec![key(&["reports_to"], "employee", &["employee_id"])],
    };
    let tables = get_database_schema(&Schema { tables: vec![employee] }).unwrap();
    assert_eq!(tables[0].foreign_keys.len(), 1);
    let relations = generate_entity_relations(&tables[0]);
    assert_eq!(relations.len(), 2);
    assert_eq!(relations[0].direction, Direction::Forward);
    assert_eq!(relations[0].name, "reports_to_employee");
    assert_eq!(relations[0].cardinality, Cardinality::ToOneOptional);
    assert_eq!(relations[1].direction, Direction::Reverse);
    assert_eq!(relations[1].name, "employee_employee");
    assert_eq!(relations[1].cardinality, Cardinality::ToMany);
}

#[test]
fn key_to_a_missing_table_is_a_dangling_reference() {
    let schema = Schema { tables: vec![album(false)] };
    assert_eq!(
        get_database_schema(&schema),
        Err(SchemaIntegrityError::DanglingReference { table: text("Album"), target: text("Artist") })
    );
}

#[test]
fn key_to_a_missing_column_is_a_dangling_reference() {
    let mut broken = album(false);
    broken.foreign_keys = vec![key(&["artistId"], "Artist", &["artist_no"])];
    let schema = Schema { tables: vec![artist(), broken] };
    assert_eq!(
        get_database_schema(&schema),
        Err(SchemaIntegrityError::DanglingReference {
            table: text("Album"),
            target: text("artist_no"),
        })
    );
}

#[test]
fn key_on_a_missing_own_column_is_a_dangling_reference() {
    let mut broken = album(false);
    broken.foreign_keys = vec![key(&["artist"], "Artist", &["id"])];
    let schema = Schema { tables: vec![artist(), broken] };
    assert_eq!(
        get_database_schema(&schema),
        Err(SchemaIntegrityError::DanglingReference { table: text("Album"), target: text("artist") })
    );
}

#[test]
fn key_with_unpaired_columns_is_malformed() {
    let mut broken = album(false);
    broken.foreign_keys = vec![key(&["artistId", "id"], "Artist", &["id"])];
    let schema = Schema { tables: vec![artist(), broken] };
    assert_eq!(
        get_database_schema(&schema),
        Err(SchemaIntegrityError::MalformedKey { table: text("Album") })
    );
    let mut empty = album(false);
    empty.foreign_keys = vec![key(&[], "Artist", &[])];
    let schema = Schema { tables: vec![artist(), empty] };
    assert_eq!(
        get_database_schema(&schema),
        Err(SchemaIntegrityError::MalformedKey { table: text("Album") })
    );
}

#[test]
fn first_faulty_key_is_reported() {
    let mut first = album(false);
    first.foreign_keys =
        vec![key(&["artistId"], "Artist", &["id"]), key(&["title"], "Label", &["id"])];
    let mut second = artist();
    second.foreign_keys = vec![key(&["nothing"], "Album", &["id"])];
    let schema = Schema { tables: vec![first, second] };
    assert_eq!(
        get_database_schema(&schema),
        Err(SchemaIntegrityError::DanglingReference { table: text("Album"), target: text("Label") })
    );
}

#[test]
fn tables_with_one_entity_name_collide() {
    let mut twin = artist();
    twin.name = text("artist");
    let schema = Schema { tables: vec![artist(), twin] };
    assert_eq!(
        get_database_schema(&schema),
        Err(SchemaIntegrityError::EntityCollision { name: text("Artist") })
    );
}

#[test]
fn relations_with_one_identifier_collide() {
    let track = TableDef {
        name: text("Track"),
        columns: vec![
            column("id", ScalarKind::Integer, false, true),
            column("album_id", ScalarKind::Integer, false, false),
            column("previous_album_id", ScalarKind::Integer, true, false),
        ],
        foreign_keys: vec![
            key(&["album_id"], "Album", &["id"]),
            key(&["previous_album_id"], "Album", &["id"]),
        ],
    };
    let mut plain_album = album(false);
    plain_album.foreign_keys = vec![];
    let schema = Schema { tables: vec![plain_album, track] };
    assert_eq!(
        get_database_schema(&schema),
        Err(SchemaIntegrityError::RelationCollision { entity: text("Album"), name: text("id_track") })
    );
}

#[test]
fn schema_without_tables_gives_an_empty_graph() {
    assert_eq!(get_database_schema(&Schema { tables: vec![] }), Ok(vec![]));
}
