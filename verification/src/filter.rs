//! Filters: nested logical conditions over the fields of one entity, and
//! the predicates they compile to.

use crate::types::column_meta::{ColumnMeta, ColumnMetaView, ScalarKind};
use crate::types::table_meta::{TableMeta, TableMetaView};
use vstd::prelude::*;
use vstd::string::*;

verus! {

/// A scalar value of a row or of a condition. Numbers that are not integers,
/// and dates, are carried as text.
#[derive(Debug, Clone, PartialEq, Eq)]
pub enum Value {
    Null,
    Bool(bool),
    Int(i128),
    Text(String),
}

/// The mathematical content of a [`Value`].
pub enum ValueView {
    Null,
    Bool(bool),
    Int(int),
    Text(Seq<char>),
}

impl View for Value {
    type V = ValueView;

    open spec fn view(&self) -> ValueView {
        match self {
            Value::Null => ValueView::Null,
            Value::Bool(b) => ValueView::Bool(*b),
            Value::Int(i) => ValueView::Int(*i as int),
            Value::Text(t) => ValueView::Text(t@),
        }
    }
}

/// The views of a list of values.
pub open spec fn value_views(list: Seq<Value>) -> Seq<ValueView> {
    list.map_values(|v: Value| v@)
}

/// The views of a list of value tuples.
pub open spec fn tuple_views(list: Seq<Vec<Value>>) -> Seq<Seq<ValueView>> {
    list.map_values(|t: Vec<Value>| value_views(t@))
}

/// How a leaf compares its field.
#[derive(Debug, Clone, Copy, PartialEq, Eq, Structural)]
pub enum Operator {
    Eq,
    Ne,
    Gt,
    Gte,
    Lt,
    Lte,
    In,
    NotIn,
    IsNull,
}

/// What a leaf compares its field with.
#[derive(Debug, Clone, PartialEq, Eq)]
pub enum Operand {
    /// One value, for the six comparisons.
    Single(Value),
    /// A collection of values, for `In` and `NotIn`.
    List(Vec<Value>),
    /// For `IsNull`: whether the field is to be null (`true`) or not.
    Flag(bool),
}

pub enum OperandView {
    Single(ValueView),
    List(Seq<ValueView>),
    Flag(bool),
}

impl View for Operand {
    type V = OperandView;

    open spec fn view(&self) -> OperandView {
        match self {
            Operand::Single(v) => OperandView::Single(v@),
            Operand::List(l) => OperandView::List(value_views(l@)),
            Operand::Flag(f) => OperandView::Flag(*f),
        }
    }
}

/// How a combinator joins its children.
#[derive(Debug, Clone, Copy, PartialEq, Eq, Structural)]
pub enum CombinatorKind {
    And,
    Or,
}

/// A filter over one entity: a comparison of one field, or a combination of
/// filters.
#[derive(Debug, PartialEq, Eq)]
pub enum FilterNode {
    Leaf { field: String, operator: Operator, operand: Operand },
    Combinator { kind: CombinatorKind, children: Vec<FilterNode> },
}

/// The mathematical content of a [`FilterNode`].
pub enum FilterNodeView {
    Leaf { field: Seq<char>, operator: Operator, operand: OperandView },
    Combinator { kind: CombinatorKind, children: Seq<FilterNodeView> },
}

impl View for FilterNode {
    type V = FilterNodeView;

    open spec fn view(&self) -> FilterNodeView
        decreases self,
    {
        match self {
            FilterNode::Leaf { field, operator, operand } => FilterNodeView::Leaf {
                field: field@,
                operator: *operator,
                operand: operand@,
            },
            FilterNode::Combinator { kind, children } => FilterNodeView::Combinator {
                kind: *kind,
                children: node_views(children@),
            },
        }
    }
}

/// The views of a list of filters.
pub open spec fn node_views(list: Seq<FilterNode>) -> Seq<FilterNodeView>
    decreases list,
{
    Seq::new(
        list.len(),
        |i: int|
            if 0 <= i < list.len() {
                list[i].view()
            } else {
                arbitrary()
            },
    )
}

/// A condition on the rows of one entity, ready for the backend. Columns
/// are given by their position among the entity's columns.
#[derive(Debug, PartialEq, Eq)]
pub enum Predicate {
    /// The column, not null, compares with `value` as `operator` says; the
    /// operator is one of the six comparisons.
    Compare { column: usize, operator: Operator, value: Value },
    /// The column, not null, is among `values`, or is not if `negated`.
    Member { column: usize, values: Vec<Value>, negated: bool },
    /// The column is null, or is not if `negated`.
    Null { column: usize, negated: bool },
    /// The values of `columns`, none of them null, are one of `tuples`.
    TupleMember { columns: Vec<usize>, tuples: Vec<Vec<Value>> },
    /// Every part holds.
    All(Vec<Predicate>),
    /// Some part holds.
    Any(Vec<Predicate>),
}

/// The mathematical content of a [`Predicate`].
pub enum PredicateView {
    Compare { column: int, operator: Operator, value: ValueView },
    Member { column: int, values: Seq<ValueView>, negated: bool },
    Null { column: int, negated: bool },
    TupleMember { columns: Seq<int>, tuples: Seq<Seq<ValueView>> },
    All(Seq<PredicateView>),
    Any(Seq<PredicateView>),
}

/// The views of a list of predicates.
pub open spec fn predicate_views(list: Seq<Predicate>) -> Seq<PredicateView>
    decreases list,
{
    Seq::new(
        list.len(),
        |i: int|
            if 0 <= i < list.len() {
                list[i].view()
            } else {
                arbitrary()
            },
    )
}

impl View for Predicate {
    type V = PredicateView;

    open spec fn view(&self) -> PredicateView
        decreases self,
    {
        match self {
            Predicate::Compare { column, operator, value } => PredicateView::Compare {
                column: *column as int,
                operator: *operator,
                value: value@,
            },
            Predicate::Member { column, values, negated } => PredicateView::Member {
                column: *column as int,
                values: value_views(values@),
                negated: *negated,
            },
            Predicate::Null { column, negated } => PredicateView::Null {
                column: *column as int,
                negated: *negated,
            },
            Predicate::TupleMember { columns, tuples } => PredicateView::TupleMember {
                columns: columns@.map_values(|c: usize| c as int),
                tuples: tuple_views(tuples@),
            },
            Predicate::All(parts) => PredicateView::All(predicate_views(parts@)),
            Predicate::Any(parts) => PredicateView::Any(predicate_views(parts@)),
        }
    }
}

/// The values of `row` at `columns`, in order.
pub open spec fn tuple_at(row: Seq<ValueView>, columns: Seq<int>) -> Seq<ValueView> {
    columns.map_values(|c: int| row[c])
}

/// No value of the tuple is null.
pub open spec fn no_null(tuple: Seq<ValueView>) -> bool {
    forall|i: int| 0 <= i < tuple.len() ==> #[trigger] tuple[i] != ValueView::Null
}

/// Every column is a position of the row.
pub open spec fn columns_within(columns: Seq<int>, width: int) -> bool {
    forall|i: int| 0 <= i < columns.len() ==> 0 <= #[trigger] columns[i] < width
}

/// Whether `left` compares with `right` as `operator` says, where `before`
/// is the order in which the backend ranks values.
pub open spec fn compares(
    operator: Operator,
    left: ValueView,
    right: ValueView,
    before: spec_fn(ValueView, ValueView) -> bool,
) -> bool {
    match operator {
        Operator::Eq => left == right,
        Operator::Ne => left != right,
        Operator::Lt => before(left, right),
        Operator::Lte => before(left, right) || left == right,
        Operator::Gt => before(right, left),
        Operator::Gte => before(right, left) || left == right,
        _ => false,
    }
}

impl PredicateView {
    /// Whether the predicate selects `row`, where `before` is the order in
    /// which the backend ranks values. A value that is null is equal to
    /// nothing, ranked against nothing and a member of nothing.
    pub open spec fn selects(
        self,
        row: Seq<ValueView>,
        before: spec_fn(ValueView, ValueView) -> bool,
    ) -> bool
        decreases self,
    {
        match self {
            PredicateView::Compare { column, operator, value } => {
                &&& 0 <= column < row.len()
                &&& row[column] != ValueView::Null
                &&& compares(operator, row[column], value, before)
            },
            PredicateView::Member { column, values, negated } => {
                &&& 0 <= column < row.len()
                &&& row[column] != ValueView::Null
                &&& values.contains(row[column]) != negated
            },
            PredicateView::Null { column, negated } => {
                &&& 0 <= column < row.len()
                &&& (row[column] == ValueView::Null) != negated
            },
            PredicateView::TupleMember { columns, tuples } => {
                &&& columns_within(columns, row.len() as int)
                &&& no_null(tuple_at(row, columns))
                &&& tuples.contains(tuple_at(row, columns))
            },
            PredicateView::All(parts) => all_select(parts, row, before),
            PredicateView::Any(parts) => any_selects(parts, row, before),
        }
    }
}

/// Every predicate of the list selects `row`.
pub open spec fn all_select(
    parts: Seq<PredicateView>,
    row: Seq<ValueView>,
    before: spec_fn(ValueView, ValueView) -> bool,
) -> bool
    decreases parts,
{
    forall|i: int| 0 <= i < parts.len() ==> (#[trigger] parts[i]).selects(row, before)
}

/// Some predicate of the list selects `row`.
pub open spec fn any_selects(
    parts: Seq<PredicateView>,
    row: Seq<ValueView>,
    before: spec_fn(ValueView, ValueView) -> bool,
) -> bool
    decreases parts,
{
    exists|i: int| 0 <= i < parts.len() && (#[trigger] parts[i]).selects(row, before)
}

/// Why a leaf is not a valid condition on its entity.
#[derive(Debug, Clone, Copy, PartialEq, Eq, Structural)]
pub enum FilterFault {
    /// The entity has no field of that name.
    UnknownField,
    /// The operand is not of the shape the operator takes: one value for a
    /// comparison, a collection for `In` and `NotIn`, a flag for `IsNull`.
    OperandShape,
    /// `IsNull` on a field that never is null.
    NullCheckOnRequiredField,
    /// A value of the operand is not of the field's scalar type.
    OperandType,
}

/// A filter that is not valid for its entity: the offending leaf.
#[derive(Debug, Clone, PartialEq, Eq)]
pub struct FilterValidationError {
    pub fault: FilterFault,
    pub entity: String,
    pub field: String,
    pub operator: Operator,
}

pub struct FilterValidationErrorView {
    pub fault: FilterFault,
    pub entity: Seq<char>,
    pub field: Seq<char>,
    pub operator: Operator,
}

impl View for FilterValidationError {
    type V = FilterValidationErrorView;

    open spec fn view(&self) -> FilterValidationErrorView {
        FilterValidationErrorView {
            fault: self.fault,
            entity: self.entity@,
            field: self.field@,
            operator: self.operator,
        }
    }
}

/// A value of this type of column can be `value`. Null is a value of no
/// type: a condition asks for it with `IsNull`.
pub open spec fn value_fits(kind: ScalarKind, value: ValueView) -> bool {
    match value {
        ValueView::Null => false,
        ValueView::Bool(_) => kind == ScalarKind::Boolean,
        ValueView::Int(_) => {
            ||| kind == ScalarKind::TinyInteger
            ||| kind == ScalarKind::SmallInteger
            ||| kind == ScalarKind::Integer
            ||| kind == ScalarKind::BigInteger
            ||| kind == ScalarKind::TinyUnsigned
            ||| kind == ScalarKind::SmallUnsigned
            ||| kind == ScalarKind::Unsigned
            ||| kind == ScalarKind::BigUnsigned
        },
        ValueView::Text(_) => {
            ||| kind == ScalarKind::Text
            ||| kind == ScalarKind::DateTime
            ||| kind == ScalarKind::Decimal
            ||| kind == ScalarKind::Float
            ||| kind == ScalarKind::Double
        },
    }
}

/// The operand has the shape that the operator takes.
pub open spec fn shape_fits(operator: Operator, operand: OperandView) -> bool {
    match operand {
        OperandView::Single(_) => {
            ||| operator == Operator::Eq
            ||| operator == Operator::Ne
            ||| operator == Operator::Gt
            ||| operator == Operator::Gte
            ||| operator == Operator::Lt
            ||| operator == Operator::Lte
        },
        OperandView::List(_) => operator == Operator::In || operator == Operator::NotIn,
        OperandView::Flag(_) => operator == Operator::IsNull,
    }
}

/// Every value of the list is of this type of column.
pub open spec fn values_fit(kind: ScalarKind, values: Seq<ValueView>) -> bool {
    forall|i: int| 0 <= i < values.len() ==> value_fits(kind, #[trigger] values[i])
}

/// Every value of the operand is of this type of column.
pub open spec fn type_fits(kind: ScalarKind, operand: OperandView) -> bool {
    match operand {
        OperandView::Single(value) => value_fits(kind, value),
        OperandView::List(values) => values_fit(kind, values),
        OperandView::Flag(_) => true,
    }
}

/// The column at `i` is the first whose field is called `field`.
pub open spec fn is_first_field(columns: Seq<ColumnMetaView>, field: Seq<char>, i: int) -> bool {
    &&& 0 <= i < columns.len()
    &&& columns[i].column_name == field
    &&& forall|j: int| 0 <= j < i ==> (#[trigger] columns[j]).column_name != field
}

/// The entity has a field called `field`.
pub open spec fn has_field(columns: Seq<ColumnMetaView>, field: Seq<char>) -> bool {
    exists|i: int| is_first_field(columns, field, i)
}

/// The position of the first column whose field is called `field`.
pub open spec fn field_index(columns: Seq<ColumnMetaView>, field: Seq<char>) -> int {
    choose|i: int| is_first_field(columns, field, i)
}

/// What is wrong with a leaf, if anything, checked in this order: the field
/// is unknown; the operand has the wrong shape; the field never is null and
/// is asked to be; a value is not of the field's type.
pub open spec fn leaf_fault(
    entity: TableMetaView,
    field: Seq<char>,
    operator: Operator,
    operand: OperandView,
) -> Option<FilterFault> {
    let column = entity.columns[field_index(entity.columns, field)];
    if !has_field(entity.columns, field) {
        Some(FilterFault::UnknownField)
    } else if !shape_fits(operator, operand) {
        Some(FilterFault::OperandShape)
    } else if operator == Operator::IsNull && column.not_null {
        Some(FilterFault::NullCheckOnRequiredField)
    } else if !type_fits(column.column_filter_type, operand) {
        Some(FilterFault::OperandType)
    } else {
        None
    }
}

/// The predicate of a valid leaf.
pub open spec fn leaf_predicate(
    entity: TableMetaView,
    field: Seq<char>,
    operator: Operator,
    operand: OperandView,
) -> PredicateView {
    let column = field_index(entity.columns, field);
    match operand {
        OperandView::Single(value) => PredicateView::Compare { column, operator, value },
        OperandView::List(values) => PredicateView::Member {
            column,
            values,
            negated: operator == Operator::NotIn,
        },
        OperandView::Flag(null) => PredicateView::Null { column, negated: !null },
    }
}

/// What a filter compiles to against an entity: its predicate, or the first
/// leaf, in reading order, that is not valid. A combinator of kind `And`
/// gives the conjunction of its children's predicates, one of kind `Or` their
/// disjunction.
pub open spec fn compiled(entity: TableMetaView, node: FilterNodeView) -> Result<
    PredicateView,
    FilterValidationErrorView,
>
    decreases node,
{
    match node {
        FilterNodeView::Leaf { field, operator, operand } => match leaf_fault(
            entity,
            field,
            operator,
            operand,
        ) {
            Some(fault) => Err(
                FilterValidationErrorView { fault, entity: entity.entity_name, field, operator },
            ),
            None => Ok(leaf_predicate(entity, field, operator, operand)),
        },
        FilterNodeView::Combinator { kind, children } => match compiled_all(entity, children) {
            Err(fault) => Err(fault),
            Ok(parts) => Ok(
                match kind {
                    CombinatorKind::And => PredicateView::All(parts),
                    CombinatorKind::Or => PredicateView::Any(parts),
                },
            ),
        },
    }
}

/// What a list of filters compiles to: their predicates, in order, or the
/// first leaf that is not valid.
pub open spec fn compiled_all(entity: TableMetaView, nodes: Seq<FilterNodeView>) -> Result<
    Seq<PredicateView>,
    FilterValidationErrorView,
>
    decreases nodes,
{
    if nodes.len() == 0 {
        Ok(Seq::empty())
    } else {
        match compiled_all(entity, nodes.drop_last()) {
            Err(fault) => Err(fault),
            Ok(parts) => match compiled(entity, nodes.last()) {
                Err(fault) => Err(fault),
                Ok(part) => Ok(parts.push(part)),
            },
        }
    }
}

impl Value {
    /// A copy of the value.
    pub fn copy(&self) -> (copy: Value)
        ensures
            copy@ == self@,
    {
        match self {
            Value::Null => Value::Null,
            Value::Bool(b) => Value::Bool(*b),
            Value::Int(i) => Value::Int(*i),
            Value::Text(t) => Value::Text(t.clone()),
        }
    }

    /// Whether the two values are the same.
    pub fn same(&self, other: &Value) -> (same: bool)
        ensures
            same == (self@ == other@),
    {
        match (self, other) {
            (Value::Null, Value::Null) => true,
            (Value::Bool(a), Value::Bool(b)) => *a == *b,
            (Value::Int(a), Value::Int(b)) => *a == *b,
            (Value::Text(a), Value::Text(b)) => *a == *b,
            _ => false,
        }
    }

    /// Whether a value of a column of type `kind` can be this value.
    pub fn fits(&self, kind: ScalarKind) -> (fits: bool)
        ensures
            fits == value_fits(kind, self@),
    {
        match self {
            Value::Null => false,
            Value::Bool(_) => matches!(kind, ScalarKind::Boolean),
            Value::Int(_) => matches!(
                kind,
                ScalarKind::TinyInteger | ScalarKind::SmallInteger | ScalarKind::Integer
                    | ScalarKind::BigInteger | ScalarKind::TinyUnsigned | ScalarKind::SmallUnsigned
                    | ScalarKind::Unsigned | ScalarKind::BigUnsigned
            ),
            Value::Text(_) => matches!(
                kind,
                ScalarKind::Text | ScalarKind::DateTime | ScalarKind::Decimal | ScalarKind::Float
                    | ScalarKind::Double
            ),
        }
    }
}

/// The views of a list of values with one more value.
pub proof fn lemma_value_views_push(list: Seq<Value>, last: Value)
    ensures
        value_views(list.push(last)) == value_views(list).push(last@),
{
    assert(value_views(list.push(last)) =~= value_views(list).push(last@));
}

/// A copy of a list of values.
pub fn copy_values(list: &Vec<Value>) -> (copy: Vec<Value>)
    ensures
        value_views(copy@) == value_views(list@),
{
    let mut copy: Vec<Value> = Vec::new();
    let mut i: usize = 0;
    while i < list.len()
        invariant
            0 <= i <= list.len(),
            value_views(copy@) == value_views(list@).take(i as int),
        decreases list.len() - i,
    {
        let item = list[i].copy();
        proof {
            lemma_value_views_push(copy@, item);
            assert(value_views(list@).take(i as int).push(item@) =~= value_views(list@).take(
                i + 1,
            ));
        }
        copy.push(item);
        i += 1;
    }
    assert(value_views(list@).take(list.len() as int) =~= value_views(list@));
    copy
}

fn all_fit(values: &Vec<Value>, kind: ScalarKind) -> (fit: bool)
    ensures
        fit == values_fit(kind, value_views(values@)),
{
    let mut i: usize = 0;
    while i < values.len()
        invariant
            0 <= i <= values.len(),
            forall|j: int| 0 <= j < i ==> value_fits(kind, #[trigger] value_views(values@)[j]),
        decreases values.len() - i,
    {
        if !values[i].fits(kind) {
            proof {
                let list = value_views(values@);
                assert(0 <= i < list.len());
                assert(list[i as int] == values@[i as int]@);
                assert(!value_fits(kind, list[i as int]));
            }
            return false;
        }
        i += 1;
    }
    true
}

fn find_field(columns: &Vec<ColumnMeta>, field: &String) -> (found: Option<usize>)
    ensures
        match found {
            Some(i) => is_first_field(columns@.map_values(|c: ColumnMeta| c@), field@, i as int),
            None => !has_field(columns@.map_values(|c: ColumnMeta| c@), field@),
        },
{
    let ghost views = columns@.map_values(|c: ColumnMeta| c@);
    let mut i: usize = 0;
    while i < columns.len()
        invariant
            0 <= i <= columns.len(),
            views == columns@.map_values(|c: ColumnMeta| c@),
            forall|j: int| 0 <= j < i ==> (#[trigger] views[j]).column_name != field@,
        decreases columns.len() - i,
    {
        if columns[i].column_name == *field {
            assert(views[i as int].column_name == field@);
            return Some(i);
        }
        i += 1;
    }
    None
}

fn is_comparison(operator: Operator) -> (yes: bool)
    ensures
        yes == shape_fits(operator, OperandView::Single(ValueView::Null)),
{
    matches!(
        operator,
        Operator::Eq | Operator::Ne | Operator::Gt | Operator::Gte | Operator::Lt | Operator::Lte
    )
}

/// Compiles one leaf.
fn compile_leaf(entity: &TableMeta, field: &String, operator: Operator, operand: &Operand) -> (out:
    Result<Predicate, FilterValidationError>)
    ensures
        match out {
            Ok(predicate) => leaf_fault(entity@, field@, operator, operand@) is None && predicate@
                == leaf_predicate(entity@, field@, operator, operand@),
            Err(fault) => leaf_fault(entity@, field@, operator, operand@) == Some(fault.fault)
                && fault@.entity == entity@.entity_name && fault@.field == field@
                && fault@.operator == operator,
        },
{
    let found = find_field(&entity.columns, field);
    let column = match found {
        Some(column) => column,
        None => {
            return Err(
                FilterValidationError {
                    fault: FilterFault::UnknownField,
                    entity: entity.entity_name.clone(),
                    field: field.clone(),
                    operator,
                },
            );
        },
    };
    proof {
        let chosen = field_index(entity@.columns, field@);
        assert(is_first_field(entity@.columns, field@, column as int));
        assert(chosen == column);
        assert(entity@.columns[column as int] == entity.columns[column as int]@);
    }
    let meta = &entity.columns[column];
    let shape = match operand {
        Operand::Single(_) => is_comparison(operator),
        Operand::List(_) => matches!(operator, Operator::In | Operator::NotIn),
        Operand::Flag(_) => matches!(operator, Operator::IsNull),
    };
    if !shape {
        return Err(
            FilterValidationError {
                fault: FilterFault::OperandShape,
                entity: entity.entity_name.clone(),
                field: field.clone(),
                operator,
            },
        );
    }
    if matches!(operator, Operator::IsNull) && meta.not_null {
        return Err(
            FilterValidationError {
                fault: FilterFault::NullCheckOnRequiredField,
                entity: entity.entity_name.clone(),
                field: field.clone(),
                operator,
            },
        );
    }
    let typed = match operand {
        Operand::Single(value) => value.fits(meta.column_filter_type),
        Operand::List(values) => all_fit(values, meta.column_filter_type),
        Operand::Flag(_) => true,
    };
    if !typed {
        return Err(
            FilterValidationError {
                fault: FilterFault::OperandType,
                entity: entity.entity_name.clone(),
                field: field.clone(),
                operator,
            },
        );
    }
    Ok(
        match operand {
            Operand::Single(value) => Predicate::Compare { column, operator, value: value.copy() },
            Operand::List(values) => Predicate::Member {
                column,
                values: copy_values(values),
                negated: matches!(operator, Operator::NotIn),
            },
            Operand::Flag(null) => Predicate::Null { column, negated: !*null },
        },
    )
}

/// Compiles a filter against an entity: gives its predicate, or the first
/// leaf, in reading order, that is not valid for the entity.
pub fn compile(entity: &TableMeta, node: &FilterNode) -> (out: Result<
    Predicate,
    FilterValidationError,
>)
    ensures
        match out {
            Ok(predicate) => compiled(entity@, node@) == Ok::<
                PredicateView,
                FilterValidationErrorView,
            >(predicate@),
            Err(fault) => compiled(entity@, node@) == Err::<
                PredicateView,
                FilterValidationErrorView,
            >(fault@),
        },
    decreases node,
{
    match node {
        FilterNode::Leaf { field, operator, operand } => {
            compile_leaf(entity, field, *operator, operand)
        },
        FilterNode::Combinator { kind, children } => {
            let ghost nodes = node_views(children@);
            let mut parts: Vec<Predicate> = Vec::new();
            let mut i: usize = 0;
            assert(nodes.take(0) =~= Seq::empty());
            assert(predicate_views(parts@) =~= Seq::empty());
            while i < children.len()
                invariant
                    0 <= i <= children.len(),
                    nodes == node_views(children@),
                    node == (FilterNode::Combinator { kind: *kind, children: *children }),
                    compiled_all(entity@, nodes.take(i as int)) == Ok::<
                        Seq<PredicateView>,
                        FilterValidationErrorView,
                    >(predicate_views(parts@)),
                decreases children.len() - i,
            {
                proof {
                    assert(nodes.take(i + 1).drop_last() =~= nodes.take(i as int));
                    assert(nodes.take(i + 1).last() == children@[i as int]@);
                }
                match compile(entity, &children[i]) {
                    Ok(part) => {
                        proof {
                            assert(predicate_views(parts@.push(part)) =~= predicate_views(
                                parts@,
                            ).push(part@));
                        }
                        parts.push(part);
                    },
                    Err(fault) => {
                        proof {
                            lemma_fault_persists(entity@, nodes, i + 1);
                            assert(nodes.take(children.len() as int) =~= nodes);
                        }
                        return Err(fault);
                    },
                }
                i += 1;
            }
            assert(nodes.take(children.len() as int) =~= nodes);
            Ok(
                match kind {
                    CombinatorKind::And => Predicate::All(parts),
                    CombinatorKind::Or => Predicate::Any(parts),
                },
            )
        },
    }
}

/// Once a prefix of a list of filters fails to compile, the whole list fails
/// in the same way.
proof fn lemma_fault_persists(entity: TableMetaView, nodes: Seq<FilterNodeView>, n: int)
    requires
        0 <= n <= nodes.len(),
        compiled_all(entity, nodes.take(n)) is Err,
    ensures
        compiled_all(entity, nodes) == compiled_all(entity, nodes.take(n)),
    decreases nodes.len() - n,
{
    if n < nodes.len() {
        assert(nodes.take(n + 1).drop_last() =~= nodes.take(n));
        lemma_fault_persists(entity, nodes, n + 1);
    } else {
        assert(nodes.take(n) =~= nodes);
    }
}

/// Compiles the filter of a request, if it has one. A request without a
/// filter selects every row.
pub fn compile_filter(entity: &TableMeta, filter: &Option<FilterNode>) -> (out: Result<
    Predicate,
    FilterValidationError,
>)
    ensures
        match out {
            Ok(predicate) => compiled_filter(entity@, filter_view(*filter)) == Ok::<
                PredicateView,
                FilterValidationErrorView,
            >(predicate@),
            Err(fault) => compiled_filter(entity@, filter_view(*filter)) == Err::<
                PredicateView,
                FilterValidationErrorView,
            >(fault@),
        },
{
    match filter {
        Some(node) => compile(entity, node),
        None => {
            let parts: Vec<Predicate> = Vec::new();
            assert(predicate_views(parts@) =~= Seq::empty());
            Ok(Predicate::All(parts))
        },
    }
}

/// The view of a filter that may be absent.
pub open spec fn filter_view(filter: Option<FilterNode>) -> Option<FilterNodeView> {
    match filter {
        Some(node) => Some(node@),
        None => None,
    }
}

/// What a filter that may be absent compiles to: an absent one to the empty
/// conjunction.
pub open spec fn compiled_filter(entity: TableMetaView, filter: Option<FilterNodeView>) -> Result<
    PredicateView,
    FilterValidationErrorView,
> {
    match filter {
        Some(node) => compiled(entity, node),
        None => Ok(PredicateView::All(Seq::empty())),
    }
}

/// Compiling a filter twice against the same entity gives the same outcome:
/// both attempts fail with the same fault, or both give predicates that
/// select the same rows, whatever order the backend ranks values in.
pub proof fn lemma_compile_is_repeatable(
    entity: TableMetaView,
    node: FilterNodeView,
    first: Result<PredicateView, FilterValidationErrorView>,
    second: Result<PredicateView, FilterValidationErrorView>,
)
    requires
        first == compiled(entity, node),
        second == compiled(entity, node),
    ensures
        first is Err ==> second == first,
        first is Ok ==> second is Ok && forall|
            row: Seq<ValueView>,
            before: spec_fn(ValueView, ValueView) -> bool,
        | #[trigger]
            first->Ok_0.selects(row, before) == second->Ok_0.selects(row, before),
{
}

/// A disjunction without children compiles, and selects no row.
pub proof fn lemma_empty_or_selects_nothing(
    entity: TableMetaView,
    row: Seq<ValueView>,
    before: spec_fn(ValueView, ValueView) -> bool,
)
    ensures
        compiled(
            entity,
            FilterNodeView::Combinator { kind: CombinatorKind::Or, children: Seq::empty() },
        ) matches Ok(predicate) && !predicate.selects(row, before),
{
    let children = Seq::<FilterNodeView>::empty();
    assert(compiled_all(entity, children) == Ok::<Seq<PredicateView>, FilterValidationErrorView>(
        Seq::empty(),
    ));
}

/// A conjunction without children compiles, and selects every row.
pub proof fn lemma_empty_and_selects_all(
    entity: TableMetaView,
    row: Seq<ValueView>,
    before: spec_fn(ValueView, ValueView) -> bool,
)
    ensures
        compiled(
            entity,
            FilterNodeView::Combinator { kind: CombinatorKind::And, children: Seq::empty() },
        ) matches Ok(predicate) && predicate.selects(row, before),
{
    let children = Seq::<FilterNodeView>::empty();
    assert(compiled_all(entity, children) == Ok::<Seq<PredicateView>, FilterValidationErrorView>(
        Seq::empty(),
    ));
}

/// A part without children leaves the predicate it is added to as it was:
/// an empty conjunction constrains no conjunction, and an empty disjunction
/// adds nothing to a disjunction.
pub proof fn lemma_empty_part_is_neutral(
    parts: Seq<PredicateView>,
    row: Seq<ValueView>,
    before: spec_fn(ValueView, ValueView) -> bool,
)
    ensures
        PredicateView::All(parts.push(PredicateView::All(Seq::empty()))).selects(row, before)
            == PredicateView::All(parts).selects(row, before),
        PredicateView::Any(parts.push(PredicateView::Any(Seq::empty()))).selects(row, before)
            == PredicateView::Any(parts).selects(row, before),
{
    reveal_with_fuel(PredicateView::selects, 2);
    reveal_with_fuel(all_select, 2);
    reveal_with_fuel(any_selects, 2);
    let all = parts.push(PredicateView::All(Seq::empty()));
    let any = parts.push(PredicateView::Any(Seq::empty()));
    let n = parts.len() as int;
    assert(all[n] == PredicateView::All(Seq::empty()));
    assert(any[n] == PredicateView::Any(Seq::empty()));
    assert(all[n].selects(row, before));
    assert(!any[n].selects(row, before));
    if PredicateView::All(parts).selects(row, before) {
        assert forall|i: int| 0 <= i < all.len() implies (#[trigger] all[i]).selects(
            row,
            before,
        ) by {
            if i < parts.len() {
                assert(all[i] == parts[i]);
                assert(parts[i].selects(row, before));
            } else {
                assert(all[i] == all[n]);
            }
        }
    }
    if PredicateView::All(all).selects(row, before) {
        assert forall|i: int| 0 <= i < parts.len() implies (#[trigger] parts[i]).selects(
            row,
            before,
        ) by {
            assert(all[i] == parts[i]);
        }
    }
    if PredicateView::Any(parts).selects(row, before) {
        let i = choose|i: int| 0 <= i < parts.len() && (#[trigger] parts[i]).selects(row, before);
        assert(any[i] == parts[i]);
    }
    if PredicateView::Any(any).selects(row, before) {
        let i = choose|i: int| 0 <= i < any.len() && (#[trigger] any[i]).selects(row, before);
        if i == n {
            assert(any[i] == any[n]);
        }
        assert(i < parts.len());
        assert(any[i] == parts[i]);
        assert(parts[i].selects(row, before));
    }
}

/// Whether the two lists hold the same values in the same order.
pub fn same_values(left: &Vec<Value>, right: &Vec<Value>) -> (same: bool)
    ensures
        same == (value_views(left@) == value_views(right@)),
{
    if left.len() != right.len() {
        assert(value_views(left@).len() != value_views(right@).len());
        return false;
    }
    let mut i: usize = 0;
    while i < left.len()
        invariant
            0 <= i <= left.len(),
            left.len() == right.len(),
            forall|j: int| 0 <= j < i ==> (#[trigger] left@[j])@ == right@[j]@,
        decreases left.len() - i,
    {
        if !left[i].same(&right[i]) {
            assert(value_views(left@)[i as int] != value_views(right@)[i as int]);
            return false;
        }
        i += 1;
    }
    assert(value_views(left@) =~= value_views(right@));
    true
}

impl Operand {
    /// Whether the two operands are the same.
    pub fn same(&self, other: &Operand) -> (same: bool)
        ensures
            same == (self@ == other@),
    {
        match (self, other) {
            (Operand::Single(a), Operand::Single(b)) => a.same(b),
            (Operand::List(a), Operand::List(b)) => same_values(a, b),
            (Operand::Flag(a), Operand::Flag(b)) => *a == *b,
            _ => false,
        }
    }
}

/// Whether the two filters are the same, part by part.
pub fn same_node(left: &FilterNode, right: &FilterNode) -> (same: bool)
    ensures
        same == (left@ == right@),
    decreases left,
{
    match left {
        FilterNode::Leaf { field, operator, operand } => match right {
            FilterNode::Leaf { field: f2, operator: o2, operand: p2 } => *field == *f2
                && *operator == *o2 && operand.same(p2),
            FilterNode::Combinator { .. } => false,
        },
        FilterNode::Combinator { kind, children } => match right {
            FilterNode::Leaf { .. } => false,
            FilterNode::Combinator { kind: k2, children: c2 } => *kind == *k2 && same_nodes(
                children,
                c2,
            ),
        },
    }
}

/// Whether the two lists hold the same filters in the same order.
pub fn same_nodes(left: &Vec<FilterNode>, right: &Vec<FilterNode>) -> (same: bool)
    ensures
        same == (node_views(left@) == node_views(right@)),
    decreases left,
{
    if left.len() != right.len() {
        assert(node_views(left@).len() != node_views(right@).len());
        return false;
    }
    let mut i: usize = 0;
    while i < left.len()
        invariant
            0 <= i <= left.len(),
            left.len() == right.len(),
            forall|j: int| 0 <= j < i ==> (#[trigger] left@[j])@ == right@[j]@,
        decreases left.len() - i,
    {
        proof {
            assert(node_views(left@)[i as int] == left@[i as int]@);
            assert(node_views(right@)[i as int] == right@[i as int]@);
        }
        if !same_node(&left[i], &right[i]) {
            return false;
        }
        i += 1;
    }
    assert(node_views(left@) =~= node_views(right@));
    true
}

/// Whether the two filters, each of which may be absent, are the same.
pub fn same_filter(left: &Option<FilterNode>, right: &Option<FilterNode>) -> (same: bool)
    ensures
        same == (filter_view(*left) == filter_view(*right)),
{
    match (left, right) {
        (Some(a), Some(b)) => same_node(a, b),
        (None, None) => true,
        _ => false,
    }
}

} // verus!
