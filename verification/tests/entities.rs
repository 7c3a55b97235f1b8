use rust_graphql_generator_demo::database_schema::{
    get_database_schema, ColumnDef, ForeignKeyDef, Schema, TableDef,
};
use rust_graphql_generator_demo::graphql::entities::{
    generate_entity_filters, generate_entity_getters, generate_entity_relations,
    generate_foreign_keys_and_loaders, generate_graphql_entities, loader_plan, FilterField,
    Gathering, Getter, KeyConversion,
};
use rust_graphql_generator_demo::relation::{forward_relation, key_name, reverse_relation};
use rust_graphql_generator_demo::types::{ColumnType, ScalarKind, TableMeta};

fn text(s: &str) -> String {
    s.to_string()
}

fn column(name: &str, kind: ScalarKind, nullable: bool, primary_key: bool) -> ColumnDef {
    ColumnDef { name: text(name), kind, nullable, primary_key }
}

fn store() -> Vec<TableMeta> {
    let customer = TableDef {
        name: text("customer"),
        columns: vec![
            column("CustomerId", ScalarKind::Integer, true, true),
            column("Email", ScalarKind::Text, false, false),
        ],
        foreign_keys: vec![],
    };
    let invoice = TableDef {
        name: text("invoice"),
        columns: vec![
            column("InvoiceId", ScalarKind::BigInteger, false, true),
            column("CustomerId", ScalarKind::Integer, false, false),
            column("Total", ScalarKind::Decimal, true, false),
        ],
        foreign_keys: vec![
            ForeignKeyDef {
                columns: vec![text("CustomerId")],
                ref_table: text("customer"),
                ref_columns: vec![text("CustomerId")],
            },
        ],
    };
    get_database_schema(&Schema { tables: vec![customer, invoice] }).unwrap()
}

#[test]
fn getters_and_filter_fields_follow_the_columns() {
    let tables = store();
    assert_eq!(
        generate_entity_getters(&tables[1]),
        vec![
            Getter { name: text("invoice_id"), return_type: text("i64") },
            Getter { name: text("customer_id"), return_type: text("i32") },
            Getter { name: text("total"), return_type: text("Option<Decimal>") },
        ]
    );
    assert_eq!(
        generate_entity_filters(&tables[1]),
        vec![
            FilterField { name: text("invoice_id"), filter_type: text("i64") },
            FilterField { name: text("customer_id"), filter_type: text("i32") },
            FilterField { name: text("total"), filter_type: text("Decimal") },
        ]
    );
}

#[test]
fn loaders_follow_the_relations() {
    let tables = store();
    let forward = generate_foreign_keys_and_loaders(&tables[1]);
    let relations = generate_entity_relations(&tables[1]);
    assert_eq!(forward.len(), relations.len());
    assert_eq!(forward.len(), 1);
    assert_eq!(forward[0].key_name, relations[0].key_name);
    assert_eq!(forward[0].key_name, "InvoiceCustomerFK");
    assert_eq!(
        forward[0].key_field_types,
        vec![ColumnType { kind: ScalarKind::Integer, optional: false }]
    );
    assert_eq!(forward[0].destination_module, "customer");
    assert_eq!(forward[0].destination_columns, vec![text("CustomerId")]);
    assert_eq!(forward[0].destination_fields, vec![text("customer_id")]);
    assert_eq!(forward[0].conversions, vec![KeyConversion::Unwrap]);
    assert_eq!(forward[0].gathering, Gathering::Collect);

    let reverse = generate_foreign_keys_and_loaders(&tables[0]);
    assert_eq!(reverse.len(), 1);
    assert_eq!(reverse[0].key_name, "CustomerInvoiceFK");
    assert_eq!(
        reverse[0].key_field_types,
        vec![ColumnType { kind: ScalarKind::Integer, optional: true }]
    );
    assert_eq!(reverse[0].destination_module, "invoice");
    assert_eq!(reverse[0].conversions, vec![KeyConversion::WrapSome]);
    assert_eq!(reverse[0].gathering, Gathering::Group);
    assert_eq!(reverse[0], loader_plan(&tables[0].foreign_keys[0], true));
    assert_eq!(forward[0], loader_plan(&tables[0].foreign_keys[0], false));
}

#[test]
fn equal_types_are_kept_as_they_are() {
    let mut tables = store();
    let key = &mut tables[0].foreign_keys[0];
    key.destination_column_types = vec![ColumnType { kind: ScalarKind::Integer, optional: false }];
    assert_eq!(loader_plan(key, false).conversions, vec![KeyConversion::Keep]);
    assert_eq!(loader_plan(key, true).conversions, vec![KeyConversion::Keep]);
}

#[test]
fn relations_are_built_from_either_end_of_a_key() {
    let tables = store();
    let key = &tables[0].foreign_keys[0];
    let relations_of_invoice = generate_entity_relations(&tables[1]);
    let relations_of_customer = generate_entity_relations(&tables[0]);
    assert_eq!(relations_of_invoice, vec![forward_relation(key)]);
    assert_eq!(relations_of_customer, vec![reverse_relation(key)]);
    assert_eq!(relations_of_invoice[0].name, "customer_customer");
    assert_eq!(relations_of_customer[0].name, "customer_invoice");
    assert_eq!(key_name(&text("Invoice"), &text("Customer")), "InvoiceCustomerFK");
}

#[test]
fn entity_plans_gather_the_parts_of_each_entity() {
    let tables = store();
    let plans = generate_graphql_entities(&tables);
    assert_eq!(plans.len(), 2);
    for (plan, table) in plans.iter().zip(tables.iter()) {
        assert_eq!(plan.module, table.entity_module);
        assert_eq!(plan.name, table.entity_name);
        assert_eq!(plan.filter_name, format!("{}Filter", table.entity_name));
        assert_eq!(plan.filters, generate_entity_filters(table));
        assert_eq!(plan.getters, generate_entity_getters(table));
        assert_eq!(plan.relations, generate_entity_relations(table));
        assert_eq!(plan.loaders, generate_foreign_keys_and_loaders(table));
    }
    assert_eq!(plans[0].module, "customer");
    assert_eq!(plans[1].filter_name, "InvoiceFilter");
}
