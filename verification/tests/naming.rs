use rust_graphql_generator_demo::column_mapping::column_mapping;
use rust_graphql_generator_demo::database_schema::ColumnDef;
use rust_graphql_generator_demo::naming::{copy_texts, relation_name, strip_id_suffix, to_snake_cases};
use rust_graphql_generator_demo::types::{ColumnType, ScalarKind};

fn text(s: &str) -> String {
    s.to_string()
}

#[test]
fn trailing_id_suffix_is_dropped() {
    assert_eq!(strip_id_suffix(&text("artist_id")), "artist");
    assert_eq!(strip_id_suffix(&text("_id")), "");
    assert_eq!(strip_id_suffix(&text("a_id_id")), "a_id");
}

#[test]
fn other_endings_stay() {
    assert_eq!(strip_id_suffix(&text("id")), "id");
    assert_eq!(strip_id_suffix(&text("artistid")), "artistid");
    assert_eq!(strip_id_suffix(&text("artist_id_")), "artist_id_");
    assert_eq!(strip_id_suffix(&text("")), "");
    assert_eq!(strip_id_suffix(&text("_ID")), "_ID");
    assert_eq!(strip_id_suffix(&text("h\u{e9}_id")), "h\u{e9}");
}

#[test]
fn relation_name_joins_stripped_columns_and_module() {
    assert_eq!(relation_name(&vec![text("ArtistId")], &text("artist")), "artist_artist");
    assert_eq!(
        relation_name(&vec![text("orderId"), text("lineNo")], &text("order_line")),
        "order_line_no_order_line"
    );
    assert_eq!(relation_name(&vec![], &text("album")), "_album");
}

#[test]
fn snake_case_is_applied_to_each_name() {
    assert_eq!(
        to_snake_cases(&vec![text("ArtistId"), text("XMLHttpRequest"), text("already_snake")]),
        vec![text("artist_id"), text("xml_http_request"), text("already_snake")]
    );
    assert_eq!(copy_texts(&vec![text("ArtistId"), text("b")]), vec![text("ArtistId"), text("b")]);
}

#[test]
fn scalar_kinds_name_their_types_and_filters() {
    let all = [
        (ScalarKind::TinyInteger, "i8", "TinyIntegerFilter"),
        (ScalarKind::SmallInteger, "i16", "SmallIntegerFilter"),
        (ScalarKind::Integer, "i32", "IntegerFilter"),
        (ScalarKind::BigInteger, "i64", "BigIntegerFilter"),
        (ScalarKind::TinyUnsigned, "u8", "TinyUnsignedFilter"),
        (ScalarKind::SmallUnsigned, "u16", "SmallUnsignedFilter"),
        (ScalarKind::Unsigned, "u32", "UnsignedFilter"),
        (ScalarKind::BigUnsigned, "u64", "BigUnsignedFilter"),
        (ScalarKind::Float, "f32", "FloatFilter"),
        (ScalarKind::Double, "f64", "DoubleFilter"),
        (ScalarKind::Boolean, "bool", "BooleanFilter"),
        (ScalarKind::Text, "String", "StringFilter"),
        (ScalarKind::DateTime, "DateTime", "DateTimeFilter"),
        (ScalarKind::Decimal, "Decimal", "DecimalFilter"),
    ];
    for (kind, rust, filter) in all {
        assert_eq!(kind.rust_name(), rust);
        assert_eq!(kind.filter_name(), filter);
        assert_eq!(ColumnType { kind, optional: false }.rust_name(), rust);
        assert_eq!(ColumnType { kind, optional: true }.rust_name(), format!("Option<{}>", rust));
    }
}

#[test]
fn column_getter_is_named_in_snake_case_and_typed() {
    let column = ColumnDef {
        name: text("UnitPrice"),
        kind: ScalarKind::Decimal,
        nullable: true,
        primary_key: false,
    };
    let getter = column_mapping(&column);
    assert_eq!(getter.name, "unit_price");
    assert_eq!(getter.return_type, "Option<Decimal>");
    let id = ColumnDef {
        name: text("TrackId"),
        kind: ScalarKind::Integer,
        nullable: false,
        primary_key: true,
    };
    let getter = column_mapping(&id);
    assert_eq!(getter.name, "track_id");
    assert_eq!(getter.return_type, "i32");
}
