use rust_graphql_generator_demo::filter::{
    compile, compile_filter, same_filter, same_node, same_values, CombinatorKind, FilterFault,
    FilterNode, FilterValidationError, Operand, Operator, Predicate, Value,
};
use rust_graphql_generator_demo::types::{ColumnMeta, ColumnType, ScalarKind, TableMeta};

fn text(s: &str) -> String {
    s.to_string()
}

fn column(name: &str, kind: ScalarKind, not_null: bool) -> ColumnMeta {
    ColumnMeta {
        column_name: text(name),
        column_enum_name: text(name),
        column_type: ColumnType { kind, optional: !not_null },
        column_filter_type: kind,
        not_null,
        is_primary_key: false,
        is_foreign_key: false,
    }
}

fn album() -> TableMeta {
    TableMeta {
        entity_name: text("Album"),
        entity_module: text("album"),
        entity_filter: text("AlbumFilter"),
        columns: vec![
            column("id", ScalarKind::Integer, true),
            column("artist_id", ScalarKind::Integer, true),
            column("title", ScalarKind::Text, false),
            column("live", ScalarKind::Boolean, true),
            column("price", ScalarKind::Decimal, false),
        ],
        foreign_keys: vec![],
    }
}

fn leaf(field: &str, operator: Operator, operand: Operand) -> FilterNode {
    FilterNode::Leaf { field: text(field), operator, operand }
}

fn fault(fault: FilterFault, field: &str, operator: Operator) -> FilterValidationError {
    FilterValidationError { fault, entity: text("Album"), field: text(field), operator }
}

#[test]
fn equality_on_a_field_compiles_to_one_comparison() {
    let node = leaf("artist_id", Operator::Eq, Operand::Single(Value::Int(3)));
    assert_eq!(
        compile(&album(), &node),
        Ok(Predicate::Compare { column: 1, operator: Operator::Eq, value: Value::Int(3) })
    );
}

#[test]
fn each_comparison_keeps_its_operator() {
    for operator in
        [Operator::Eq, Operator::Ne, Operator::Gt, Operator::Gte, Operator::Lt, Operator::Lte]
    {
        let node = leaf("title", operator, Operand::Single(Value::Text(text("Let It Be"))));
        assert_eq!(
            compile(&album(), &node),
            Ok(Predicate::Compare { column: 2, operator, value: Value::Text(text("Let It Be")) })
        );
    }
}

#[test]
fn membership_takes_a_collection() {
    let values = vec![Value::Int(1), Value::Int(2)];
    let node = leaf("id", Operator::In, Operand::List(values.clone()));
    assert_eq!(
        compile(&album(), &node),
        Ok(Predicate::Member { column: 0, values: values.clone(), negated: false })
    );
    let node = leaf("id", Operator::NotIn, Operand::List(values.clone()));
    assert_eq!(
        compile(&album(), &node),
        Ok(Predicate::Member { column: 0, values, negated: true })
    );
    let node = leaf("id", Operator::In, Operand::Single(Value::Int(1)));
    assert_eq!(compile(&album(), &node), Err(fault(FilterFault::OperandShape, "id", Operator::In)));
    let node = leaf("id", Operator::Eq, Operand::List(vec![Value::Int(1)]));
    assert_eq!(compile(&album(), &node), Err(fault(FilterFault::OperandShape, "id", Operator::Eq)));
    let node = leaf("id", Operator::IsNull, Operand::Single(Value::Int(1)));
    assert_eq!(
        compile(&album(), &node),
        Err(fault(FilterFault::OperandShape, "id", Operator::IsNull))
    );
}

#[test]
fn null_check_is_for_nullable_fields_only() {
    let node = leaf("title", Operator::IsNull, Operand::Flag(true));
    assert_eq!(compile(&album(), &node), Ok(Predicate::Null { column: 2, negated: false }));
    let node = leaf("title", Operator::IsNull, Operand::Flag(false));
    assert_eq!(compile(&album(), &node), Ok(Predicate::Null { column: 2, negated: true }));
    let node = leaf("id", Operator::IsNull, Operand::Flag(true));
    assert_eq!(
        compile(&album(), &node),
        Err(fault(FilterFault::NullCheckOnRequiredField, "id", Operator::IsNull))
    );
}

#[test]
fn unknown_field_is_a_fault() {
    let node = leaf("artistId", Operator::Eq, Operand::Single(Value::Int(3)));
    assert_eq!(
        compile(&album(), &node),
        Err(fault(FilterFault::UnknownField, "artistId", Operator::Eq))
    );
}

#[test]
fn operand_must_be_of_the_fields_type() {
    let node = leaf("artist_id", Operator::Eq, Operand::Single(Value::Text(text("3"))));
    assert_eq!(
        compile(&album(), &node),
        Err(fault(FilterFault::OperandType, "artist_id", Operator::Eq))
    );
    let node = leaf("live", Operator::Eq, Operand::Single(Value::Int(1)));
    assert_eq!(compile(&album(), &node), Err(fault(FilterFault::OperandType, "live", Operator::Eq)));
    let node = leaf("title", Operator::Eq, Operand::Single(Value::Null));
    assert_eq!(
        compile(&album(), &node),
        Err(fault(FilterFault::OperandType, "title", Operator::Eq))
    );
    let node =
        leaf("id", Operator::In, Operand::List(vec![Value::Int(1), Value::Bool(true)]));
    assert_eq!(compile(&album(), &node), Err(fault(FilterFault::OperandType, "id", Operator::In)));
    let node = leaf("price", Operator::Gt, Operand::Single(Value::Text(text("9.99"))));
    assert_eq!(
        compile(&album(), &node),
        Ok(Predicate::Compare {
            column: 4,
            operator: Operator::Gt,
            value: Value::Text(text("9.99")),
        })
    );
    let node = leaf("live", Operator::Ne, Operand::Single(Value::Bool(false)));
    assert_eq!(
        compile(&album(), &node),
        Ok(Predicate::Compare { column: 3, operator: Operator::Ne, value: Value::Bool(false) })
    );
}

#[test]
fn value_fits_by_kind() {
    assert!(Value::Int(7).fits(ScalarKind::TinyInteger));
    assert!(Value::Int(7).fits(ScalarKind::BigUnsigned));
    assert!(!Value::Int(7).fits(ScalarKind::Text));
    assert!(!Value::Int(7).fits(ScalarKind::Double));
    assert!(Value::Text(text("1.5")).fits(ScalarKind::Double));
    assert!(Value::Text(text("1.5")).fits(ScalarKind::Float));
    assert!(Value::Text(text("2020-01-01")).fits(ScalarKind::DateTime));
    assert!(!Value::Text(text("x")).fits(ScalarKind::Boolean));
    assert!(Value::Bool(true).fits(ScalarKind::Boolean));
    assert!(!Value::Bool(true).fits(ScalarKind::Integer));
    for kind in [ScalarKind::Integer, ScalarKind::Text, ScalarKind::Boolean] {
        assert!(!Value::Null.fits(kind));
    }
}

#[test]
fn empty_or_compiles_to_the_empty_disjunction() {
    let node = FilterNode::Combinator { kind: CombinatorKind::Or, children: vec![] };
    assert_eq!(compile(&album(), &node), Ok(Predicate::Any(vec![])));
}

#[test]
fn empty_and_compiles_to_the_empty_conjunction() {
    let node = FilterNode::Combinator { kind: CombinatorKind::And, children: vec![] };
    assert_eq!(compile(&album(), &node), Ok(Predicate::All(vec![])));
}

#[test]
fn absent_filter_selects_everything() {
    assert_eq!(compile_filter(&album(), &None), Ok(Predicate::All(vec![])));
    let node = leaf("id", Operator::Eq, Operand::Single(Value::Int(1)));
    assert_eq!(
        compile_filter(&album(), &Some(node)),
        Ok(Predicate::Compare { column: 0, operator: Operator::Eq, value: Value::Int(1) })
    );
}

fn nested() -> FilterNode {
    FilterNode::Combinator {
        kind: CombinatorKind::And,
        children: vec![
            leaf("artist_id", Operator::Eq, Operand::Single(Value::Int(3))),
            FilterNode::Combinator {
                kind: CombinatorKind::Or,
                children: vec![
                    leaf("title", Operator::IsNull, Operand::Flag(true)),
                    leaf("id", Operator::NotIn, Operand::List(vec![Value::Int(9)])),
                    FilterNode::Combinator { kind: CombinatorKind::Or, children: vec![] },
                ],
            },
        ],
    }
}

#[test]
fn combinators_keep_their_children_in_order() {
    assert_eq!(
        compile(&album(), &nested()),
        Ok(Predicate::All(vec![
            Predicate::Compare { column: 1, operator: Operator::Eq, value: Value::Int(3) },
            Predicate::Any(vec![
                Predicate::Null { column: 2, negated: false },
                Predicate::Member { column: 0, values: vec![Value::Int(9)], negated: true },
                Predicate::Any(vec![]),
            ]),
        ]))
    );
}

#[test]
fn compiling_twice_gives_the_same_predicate() {
    assert_eq!(compile(&album(), &nested()), compile(&album(), &nested()));
    let bad = leaf("nope", Operator::Eq, Operand::Single(Value::Int(3)));
    assert_eq!(compile(&album(), &bad), compile(&album(), &bad));
}

#[test]
fn first_invalid_leaf_in_reading_order_is_reported() {
    let node = FilterNode::Combinator {
        kind: CombinatorKind::Or,
        children: vec![
            leaf("id", Operator::Eq, Operand::Single(Value::Int(1))),
            FilterNode::Combinator {
                kind: CombinatorKind::And,
                children: vec![
                    leaf("missing", Operator::Lt, Operand::Single(Value::Int(1))),
                    leaf("id", Operator::IsNull, Operand::Flag(true)),
                ],
            },
            leaf("other", Operator::Eq, Operand::Single(Value::Int(1))),
        ],
    };
    assert_eq!(
        compile(&album(), &node),
        Err(fault(FilterFault::UnknownField, "missing", Operator::Lt))
    );
}

#[test]
fn filters_are_compared_part_by_part() {
    assert!(same_node(&nested(), &nested()));
    let other = leaf("artist_id", Operator::Eq, Operand::Single(Value::Int(4)));
    assert!(!same_node(&nested(), &other));
    assert!(!same_node(
        &leaf("artist_id", Operator::Eq, Operand::Single(Value::Int(3))),
        &other
    ));
    assert!(!same_node(
        &FilterNode::Combinator { kind: CombinatorKind::Or, children: vec![] },
        &FilterNode::Combinator { kind: CombinatorKind::And, children: vec![] }
    ));
    assert!(same_filter(&None, &None));
    assert!(same_filter(&Some(nested()), &Some(nested())));
    assert!(!same_filter(&Some(nested()), &None));
    assert!(same_values(&vec![Value::Null, Value::Int(1)], &vec![Value::Null, Value::Int(1)]));
    assert!(!same_values(&vec![Value::Int(1)], &vec![Value::Int(1), Value::Int(1)]));
    assert!(!same_values(&vec![Value::Int(1)], &vec![Value::Text(text("1"))]));
    assert!(Value::Text(text("a")).same(&Value::Text(text("a"))));
    assert!(!Value::Bool(true).same(&Value::Bool(false)));
    assert_eq!(Value::Text(text("a")).copy(), Value::Text(text("a")));
    assert!(Operand::Flag(true).same(&Operand::Flag(true)));
    assert!(!Operand::Flag(true).same(&Operand::Single(Value::Bool(true))));
}
