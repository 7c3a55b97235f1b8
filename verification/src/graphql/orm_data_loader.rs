//! The batch loader: relation lookups that share a relation and a filter
//! are answered by one query.

use crate::filter::{
    all_select, columns_within, compile_filter, compiled_filter, copy_values, filter_view,
    no_null, predicate_views, same_filter, same_values, tuple_at, tuple_views, value_views,
    FilterNode, FilterNodeView, FilterValidationError, FilterValidationErrorView, Predicate,
    PredicateView, Value, ValueView,
};
use crate::relation::Cardinality;
use crate::types::table_meta::TableMeta;
use vstd::prelude::*;
use vstd::string::*;

verus! {

/// Which relation of which entity: the entity's position in the graph and
/// the relation's position among the entity's relations.
#[derive(Debug, Clone, Copy, PartialEq, Eq, Structural)]
pub struct RelationId {
    pub entity: usize,
    pub relation: usize,
}

/// One lookup: the rows that a relation yields for the key values of one
/// source row, narrowed by a filter on the destination entity.
#[derive(Debug, PartialEq, Eq)]
pub struct RelationKey {
    pub relation: RelationId,
    /// The values of the source row at the relation's source columns, which
    /// matching rows bear at the destination columns.
    pub values: Vec<Value>,
    pub filter: Option<FilterNode>,
}

/// The mathematical content of a [`RelationKey`].
pub struct RelationKeyView {
    pub relation: RelationId,
    pub values: Seq<ValueView>,
    pub filter: Option<FilterNodeView>,
}

impl View for RelationKey {
    type V = RelationKeyView;

    open spec fn view(&self) -> RelationKeyView {
        RelationKeyView {
            relation: self.relation,
            values: value_views(self.values@),
            filter: filter_view(self.filter),
        }
    }
}

/// The views of a list of keys.
pub open spec fn key_views(list: Seq<RelationKey>) -> Seq<RelationKeyView> {
    list.map_values(|k: RelationKey| k@)
}

impl RelationKeyView {
    /// What decides which query answers the key: its relation and its
    /// filter.
    pub open spec fn group(self) -> (RelationId, Option<FilterNodeView>) {
        (self.relation, self.filter)
    }

    /// The key's identity: its relation and values. The filter is no part
    /// of it.
    pub open spec fn identity(self) -> (RelationId, Seq<ValueView>) {
        (self.relation, self.values)
    }
}

impl RelationKey {
    /// Whether the two keys have the same identity: the same relation and
    /// the same values, whatever their filters.
    pub fn same_identity(&self, other: &RelationKey) -> (same: bool)
        ensures
            same == (self@.identity() == other@.identity()),
    {
        self.relation == other.relation && same_values(&self.values, &other.values)
    }

    /// Whether the two keys are answered by the same query: the same
    /// relation, and filters that are the same part by part.
    pub fn same_group(&self, other: &RelationKey) -> (same: bool)
        ensures
            same == (self@.group() == other@.group()),
    {
        self.relation == other.relation && same_filter(&self.filter, &other.filter)
    }
}

/// The lookups that one query answers.
#[derive(Debug, PartialEq, Eq)]
pub struct Batch {
    pub relation: RelationId,
    /// The position of the first key of the batch; every key of the batch
    /// has this key's filter.
    pub representative: usize,
    /// The distinct value tuples of the batch's keys, in order of first
    /// appearance.
    pub tuples: Vec<Vec<Value>>,
    /// The positions of the batch's keys, ascending.
    pub members: Vec<usize>,
}

/// The mathematical content of a [`Batch`].
pub struct BatchView {
    pub relation: RelationId,
    pub representative: int,
    pub tuples: Seq<Seq<ValueView>>,
    pub members: Seq<int>,
}

impl View for Batch {
    type V = BatchView;

    open spec fn view(&self) -> BatchView {
        BatchView {
            relation: self.relation,
            representative: self.representative as int,
            tuples: tuple_views(self.tuples@),
            members: self.members@.map_values(|m: usize| m as int),
        }
    }
}

/// The views of a list of batches.
pub open spec fn batch_views(list: Seq<Batch>) -> Seq<BatchView> {
    list.map_values(|b: Batch| b@)
}

/// The distinct groups of the first `n` keys, in order of first appearance.
pub open spec fn groups_upto(keys: Seq<RelationKeyView>, n: int) -> Seq<
    (RelationId, Option<FilterNodeView>),
>
    decreases n,
{
    if n <= 0 {
        Seq::empty()
    } else {
        let earlier = groups_upto(keys, n - 1);
        if earlier.contains(keys[n - 1].group()) {
            earlier
        } else {
            earlier.push(keys[n - 1].group())
        }
    }
}

/// The positions, ascending, of those of the first `n` keys that belong to
/// `group`.
pub open spec fn members_upto(
    keys: Seq<RelationKeyView>,
    group: (RelationId, Option<FilterNodeView>),
    n: int,
) -> Seq<int>
    decreases n,
{
    if n <= 0 {
        Seq::empty()
    } else {
        let earlier = members_upto(keys, group, n - 1);
        if keys[n - 1].group() == group {
            earlier.push(n - 1)
        } else {
            earlier
        }
    }
}

/// The distinct value tuples, in order of first appearance, of those of the
/// first `n` keys that belong to `group`.
pub open spec fn tuples_upto(
    keys: Seq<RelationKeyView>,
    group: (RelationId, Option<FilterNodeView>),
    n: int,
) -> Seq<Seq<ValueView>>
    decreases n,
{
    if n <= 0 {
        Seq::empty()
    } else {
        let earlier = tuples_upto(keys, group, n - 1);
        if keys[n - 1].group() == group && !earlier.contains(keys[n - 1].values) {
            earlier.push(keys[n - 1].values)
        } else {
            earlier
        }
    }
}

/// The batch of `group` among the first `n` keys.
pub open spec fn batch_upto(
    keys: Seq<RelationKeyView>,
    group: (RelationId, Option<FilterNodeView>),
    n: int,
) -> BatchView {
    BatchView {
        relation: group.0,
        representative: members_upto(keys, group, n)[0],
        tuples: tuples_upto(keys, group, n),
        members: members_upto(keys, group, n),
    }
}

/// The batches of the first `n` keys: one for each distinct group, in order
/// of first appearance.
pub open spec fn planned_upto(keys: Seq<RelationKeyView>, n: int) -> Seq<BatchView> {
    groups_upto(keys, n).map_values(
        |g: (RelationId, Option<FilterNodeView>)| batch_upto(keys, g, n),
    )
}

/// The batches of a round of lookups: one for each distinct pair of relation
/// and filter, in order of first appearance, each with the positions of its
/// keys and with their distinct value tuples.
pub open spec fn planned(keys: Seq<RelationKeyView>) -> Seq<BatchView> {
    planned_upto(keys, keys.len() as int)
}

/// No group occurs twice among the groups of the first `n` keys.
pub proof fn lemma_groups_distinct(keys: Seq<RelationKeyView>, n: int)
    requires
        0 <= n <= keys.len(),
    ensures
        forall|a: int, b: int|
            0 <= a < b < groups_upto(keys, n).len() ==> groups_upto(keys, n)[a] != groups_upto(
                keys,
                n,
            )[b],
    decreases n,
{
    if n > 0 {
        lemma_groups_distinct(keys, n - 1);
        let earlier = groups_upto(keys, n - 1);
        let all = groups_upto(keys, n);
        assert forall|a: int, b: int| 0 <= a < b < all.len() implies all[a] != all[b] by {
            if b < earlier.len() {
                assert(all[a] == earlier[a] && all[b] == earlier[b]);
            } else {
                assert(all[a] == earlier[a]);
                assert(earlier.contains(earlier[a]));
            }
        }
    }
}

/// The group of each of the first `n` keys is among their groups.
pub proof fn lemma_group_listed(keys: Seq<RelationKeyView>, n: int, m: int)
    requires
        0 <= m < n <= keys.len(),
    ensures
        groups_upto(keys, n).contains(keys[m].group()),
    decreases n,
{
    let earlier = groups_upto(keys, n - 1);
    let all = groups_upto(keys, n);
    if m < n - 1 {
        lemma_group_listed(keys, n - 1, m);
        let at = choose|at: int| 0 <= at < earlier.len() && earlier[at] == keys[m].group();
        assert(all[at] == keys[m].group());
    } else {
        if earlier.contains(keys[m].group()) {
        } else {
            assert(all[earlier.len() as int] == keys[m].group());
        }
    }
}

/// Every listed group is the group of one of the first `n` keys.
pub proof fn lemma_listed_group_has_key(keys: Seq<RelationKeyView>, n: int, at: int) -> (m: int)
    requires
        0 <= n <= keys.len(),
        0 <= at < groups_upto(keys, n).len(),
    ensures
        0 <= m < n,
        keys[m].group() == groups_upto(keys, n)[at],
    decreases n,
{
    let earlier = groups_upto(keys, n - 1);
    if at < earlier.len() {
        let m = lemma_listed_group_has_key(keys, n - 1, at);
        m
    } else {
        n - 1
    }
}

/// A group that none of the first `n` keys has, has no member and no tuple
/// among them.
pub proof fn lemma_unlisted_group_is_empty(
    keys: Seq<RelationKeyView>,
    group: (RelationId, Option<FilterNodeView>),
    n: int,
)
    requires
        0 <= n <= keys.len(),
        !groups_upto(keys, n).contains(group),
    ensures
        members_upto(keys, group, n) == Seq::<int>::empty(),
        tuples_upto(keys, group, n) == Seq::<Seq<ValueView>>::empty(),
    decreases n,
{
    if n > 0 {
        lemma_group_listed(keys, n, n - 1);
        let earlier = groups_upto(keys, n - 1);
        if earlier.contains(group) {
            let at = choose|at: int| 0 <= at < earlier.len() && earlier[at] == group;
            assert(groups_upto(keys, n)[at] == group);
        }
        lemma_unlisted_group_is_empty(keys, group, n - 1);
    }
}

/// The members of a group among the first `n` keys are positions below
/// `n` of keys of that group.
pub proof fn lemma_members_belong(
    keys: Seq<RelationKeyView>,
    group: (RelationId, Option<FilterNodeView>),
    n: int,
)
    requires
        0 <= n <= keys.len(),
    ensures
        forall|at: int|
            0 <= at < members_upto(keys, group, n).len() ==> {
                &&& 0 <= (#[trigger] members_upto(keys, group, n)[at]) < n
                &&& keys[members_upto(keys, group, n)[at]].group() == group
            },
    decreases n,
{
    if n > 0 {
        lemma_members_belong(keys, group, n - 1);
        let earlier = members_upto(keys, group, n - 1);
        let members = members_upto(keys, group, n);
        assert forall|at: int| 0 <= at < members.len() implies {
            &&& 0 <= (#[trigger] members[at]) < n
            &&& keys[members[at]].group() == group
        } by {
            if at < earlier.len() {
                assert(members[at] == earlier[at]);
            }
        }
    }
}

/// A key of a group among the first `n` keys is a member of the group, and
/// its values are among the group's tuples.
pub proof fn lemma_key_is_member(keys: Seq<RelationKeyView>, n: int, m: int)
    requires
        0 <= m < n <= keys.len(),
    ensures
        members_upto(keys, keys[m].group(), n).contains(m),
        tuples_upto(keys, keys[m].group(), n).contains(keys[m].values),
    decreases n,
{
    let group = keys[m].group();
    let members = members_upto(keys, group, n);
    let tuples = tuples_upto(keys, group, n);
    let earlier_members = members_upto(keys, group, n - 1);
    let earlier_tuples = tuples_upto(keys, group, n - 1);
    if m < n - 1 {
        lemma_key_is_member(keys, n - 1, m);
        let a = choose|a: int| 0 <= a < earlier_members.len() && earlier_members[a] == m;
        assert(members[a] == m);
        let b = choose|b: int| 0 <= b < earlier_tuples.len() && earlier_tuples[b] == keys[m].values;
        assert(tuples[b] == keys[m].values);
    } else {
        assert(members[earlier_members.len() as int] == m);
        if earlier_tuples.contains(keys[m].values) {
        } else {
            assert(tuples[earlier_tuples.len() as int] == keys[m].values);
        }
    }
}

proof fn lemma_batch_views_push(list: Seq<Batch>, last: Batch)
    ensures
        batch_views(list.push(last)) == batch_views(list).push(last@),
{
    assert(batch_views(list.push(last)) =~= batch_views(list).push(last@));
}

proof fn lemma_tuple_views_push(list: Seq<Vec<Value>>, last: Vec<Value>)
    ensures
        tuple_views(list.push(last)) == tuple_views(list).push(value_views(last@)),
{
    assert(tuple_views(list.push(last)) =~= tuple_views(list).push(value_views(last@)));
}

/// Groups the lookups of a round into batches: one batch for each distinct
/// pair of relation and filter, in order of first appearance, each with the
/// positions of its keys and with their distinct value tuples. A round
/// without lookups gives no batch.
pub fn plan(keys: &Vec<RelationKey>) -> (batches: Vec<Batch>)
    ensures
        batch_views(batches@) == planned(key_views(keys@)),
{
    let ghost all = key_views(keys@);
    let mut batches: Vec<Batch> = Vec::new();
    let mut i: usize = 0;
    assert(batch_views(batches@) =~= planned_upto(all, 0));
    while i < keys.len()
        invariant
            0 <= i <= keys.len(),
            all == key_views(keys@),
            batch_views(batches@) == planned_upto(all, i as int),
        decreases keys.len() - i,
    {
        let key = &keys[i];
        let ghost groups = groups_upto(all, i as int);
        let ghost group = all[i as int].group();
        proof {
            assert(all[i as int] == key@);
            assert(batch_views(batches@).len() == batches.len());
            assert(planned_upto(all, i as int).len() == groups.len());
        }
        let mut j: usize = 0;
        let mut found: Option<usize> = None;
        while j < batches.len()
            invariant_except_break
                found is None,
            invariant
                0 <= j <= batches.len(),
                0 <= i < keys.len(),
                all == key_views(keys@),
                groups == groups_upto(all, i as int),
                group == all[i as int].group(),
                key@ == all[i as int],
                batches.len() == groups.len(),
                batch_views(batches@) == planned_upto(all, i as int),
                forall|b: int| 0 <= b < j ==> #[trigger] groups[b] != group,
            ensures
                match found {
                    Some(at) => at < batches.len() && groups[at as int] == group,
                    None => !groups.contains(group),
                },
            decreases batches.len() - j,
        {
            let representative = batches[j].representative;
            proof {
                let m = lemma_listed_group_has_key(all, i as int, j as int);
                lemma_key_is_member(all, i as int, m);
                lemma_members_belong(all, groups[j as int], i as int);
                assert(batch_views(batches@)[j as int] == batch_upto(
                    all,
                    groups[j as int],
                    i as int,
                ));
                assert(batches@[j as int]@.representative == members_upto(
                    all,
                    groups[j as int],
                    i as int,
                )[0]);
                assert(all[representative as int] == keys@[representative as int]@);
            }
            if key.same_group(&keys[representative]) {
                found = Some(j);
                break;
            }
            j += 1;
        }
        match found {
            Some(at) => {
                let fresh = find_tuple(&batches[at].tuples, &key.values).is_none();
                let ghost before = batches@;
                proof {
                    assert(batch_views(before)[at as int] == batch_upto(all, group, i as int));
                }
                batches[at].members.push(i);
                if fresh {
                    let copy = copy_values(&key.values);
                    proof {
                        lemma_tuple_views_push(before[at as int].tuples@, copy);
                    }
                    batches[at].tuples.push(copy);
                }
                proof {
                    lemma_groups_distinct(all, i as int);
                    lemma_members_belong(all, group, i as int);
                    let m = lemma_listed_group_has_key(all, i as int, at as int);
                    lemma_key_is_member(all, i as int, m);
                    assert(groups_upto(all, i + 1) == groups);
                    assert(batch_views(batches@).len() == planned_upto(all, i + 1).len());
                    assert forall|b: int| 0 <= b < batches.len() implies batch_views(batches@)[b]
                        == planned_upto(all, i + 1)[b] by {
                        assert(batch_views(before)[b] == batch_upto(all, groups[b], i as int));
                        if b == at as int {
                            assert(batches@[b]@.members =~= members_upto(all, group, i + 1));
                            assert(batches@[b]@.tuples =~= tuples_upto(all, group, i + 1));
                            assert(members_upto(all, group, i + 1)[0] == members_upto(
                                all,
                                group,
                                i as int,
                            )[0]);
                        } else {
                            assert(groups[b] != group);
                            assert(batches@[b] == before[b]);
                        }
                    }
                    assert(batch_views(batches@) =~= planned_upto(all, i + 1));
                }
            },
            None => {
                let mut tuples: Vec<Vec<Value>> = Vec::new();
                let copy = copy_values(&key.values);
                proof {
                    lemma_tuple_views_push(tuples@, copy);
                }
                tuples.push(copy);
                let mut members: Vec<usize> = Vec::new();
                members.push(i);
                let batch = Batch { relation: key.relation, representative: i, tuples, members };
                proof {
                    lemma_unlisted_group_is_empty(all, group, i as int);
                    lemma_batch_views_push(batches@, batch);
                    assert(groups_upto(all, i + 1) == groups.push(group));
                    assert(batch@.members =~= members_upto(all, group, i + 1));
                    assert(batch@.tuples =~= tuples_upto(all, group, i + 1));
                    assert(batch@ == batch_upto(all, group, i + 1));
                    assert forall|b: int| 0 <= b < batches.len() implies batch_views(batches@)[b]
                        == planned_upto(all, i + 1)[b] by {
                        assert(batch_views(batches@)[b] == batch_upto(all, groups[b], i as int));
                        assert(groups.contains(groups[b]));
                        assert(groups[b] != group);
                    }
                    assert(batch_views(batches@).push(batch@) =~= planned_upto(all, i + 1));
                }
                batches.push(batch);
            },
        }
        i += 1;
    }
    batches
}

/// The positions of a list of columns.
pub open spec fn column_views(columns: Seq<usize>) -> Seq<int> {
    columns.map_values(|c: usize| c as int)
}

/// The predicate of a batch's query: the destination columns bear one of the
/// batch's tuples, and the batch's filter holds.
pub open spec fn batch_predicate(
    columns: Seq<int>,
    tuples: Seq<Seq<ValueView>>,
    secondary: PredicateView,
) -> PredicateView {
    PredicateView::All(seq![PredicateView::TupleMember { columns, tuples }, secondary])
}

fn copy_tuples(tuples: &Vec<Vec<Value>>) -> (copy: Vec<Vec<Value>>)
    ensures
        tuple_views(copy@) == tuple_views(tuples@),
{
    let mut copy: Vec<Vec<Value>> = Vec::new();
    let mut i: usize = 0;
    while i < tuples.len()
        invariant
            0 <= i <= tuples.len(),
            tuple_views(copy@) == tuple_views(tuples@).take(i as int),
        decreases tuples.len() - i,
    {
        let item = copy_values(&tuples[i]);
        proof {
            lemma_tuple_views_push(copy@, item);
            assert(tuple_views(tuples@).take(i as int).push(value_views(item@)) =~= tuple_views(
                tuples@,
            ).take(i + 1));
        }
        copy.push(item);
        i += 1;
    }
    assert(tuple_views(tuples@).take(tuples.len() as int) =~= tuple_views(tuples@));
    copy
}

fn copy_columns(columns: &Vec<usize>) -> (copy: Vec<usize>)
    ensures
        copy@ == columns@,
{
    let mut copy: Vec<usize> = Vec::new();
    let mut i: usize = 0;
    while i < columns.len()
        invariant
            0 <= i <= columns.len(),
            copy@ == columns@.take(i as int),
        decreases columns.len() - i,
    {
        copy.push(columns[i]);
        assert(copy@ =~= columns@.take(i + 1));
        i += 1;
    }
    assert(columns@.take(columns.len() as int) =~= columns@);
    copy
}

/// The one query of a batch: the rows of the destination entity that bear
/// one of `tuples` at `columns` and that `filter` selects. The filter is
/// compiled against the destination entity; a filter that is not valid for
/// it gives the fault and no query.
pub fn batch_query(
    destination: &TableMeta,
    columns: &Vec<usize>,
    tuples: &Vec<Vec<Value>>,
    filter: &Option<FilterNode>,
) -> (out: Result<Predicate, FilterValidationError>)
    ensures
        match out {
            Ok(predicate) => compiled_filter(destination@, filter_view(*filter)) matches Ok(
                secondary,
            ) && predicate@ == batch_predicate(
                column_views(columns@),
                tuple_views(tuples@),
                secondary,
            ),
            Err(fault) => compiled_filter(destination@, filter_view(*filter)) == Err::<
                PredicateView,
                FilterValidationErrorView,
            >(fault@),
        },
{
    let secondary = match compile_filter(destination, filter) {
        Ok(secondary) => secondary,
        Err(fault) => {
            return Err(fault);
        },
    };
    let membership = Predicate::TupleMember {
        columns: copy_columns(columns),
        tuples: copy_tuples(tuples),
    };
    let mut parts: Vec<Predicate> = Vec::new();
    parts.push(membership);
    parts.push(secondary);
    proof {
        assert(predicate_views(parts@) =~= seq![
            parts@[0]@,
            parts@[1]@,
        ]);
    }
    Ok(Predicate::All(parts))
}

/// The query of a batch selects exactly the rows that bear one of the
/// batch's tuples, none of its values null, and that the batch's filter
/// selects.
pub proof fn lemma_batch_predicate_selects(
    columns: Seq<int>,
    tuples: Seq<Seq<ValueView>>,
    secondary: PredicateView,
    row: Seq<ValueView>,
    before: spec_fn(ValueView, ValueView) -> bool,
)
    ensures
        batch_predicate(columns, tuples, secondary).selects(row, before) <==> {
            &&& columns_within(columns, row.len() as int)
            &&& no_null(tuple_at(row, columns))
            &&& tuples.contains(tuple_at(row, columns))
            &&& secondary.selects(row, before)
        },
{
    reveal_with_fuel(PredicateView::selects, 2);
    reveal_with_fuel(all_select, 2);
    let parts = seq![PredicateView::TupleMember { columns, tuples }, secondary];
    assert(parts[0] == PredicateView::TupleMember { columns, tuples });
    assert(parts[1] == secondary);
    if batch_predicate(columns, tuples, secondary).selects(row, before) {
        assert(parts[0].selects(row, before));
        assert(parts[1].selects(row, before));
    }
}

/// The row answers a lookup for `values`: it bears them, none of them null,
/// at `columns`.
pub open spec fn answers(row: Seq<ValueView>, columns: Seq<int>, values: Seq<ValueView>) -> bool {
    &&& columns_within(columns, row.len() as int)
    &&& no_null(values)
    &&& tuple_at(row, columns) == values
}

/// The rows that answer a lookup for `values`, in the order in which they
/// came.
pub open spec fn rows_answering(
    rows: Seq<Seq<ValueView>>,
    columns: Seq<int>,
    values: Seq<ValueView>,
) -> Seq<Seq<ValueView>> {
    rows.filter(|row: Seq<ValueView>| answers(row, columns, values))
}

/// Whether the row answers a lookup for `values`.
pub fn row_answers(row: &Vec<Value>, columns: &Vec<usize>, values: &Vec<Value>) -> (yes: bool)
    ensures
        yes == answers(value_views(row@), column_views(columns@), value_views(values@)),
{
    let ghost r = value_views(row@);
    let ghost c = column_views(columns@);
    let ghost v = value_views(values@);
    if columns.len() != values.len() {
        assert(tuple_at(r, c).len() != v.len());
        return false;
    }
    let mut k: usize = 0;
    while k < columns.len()
        invariant
            0 <= k <= columns.len(),
            columns.len() == values.len(),
            r == value_views(row@),
            c == column_views(columns@),
            v == value_views(values@),
            forall|j: int| 0 <= j < k ==> 0 <= #[trigger] c[j] < r.len(),
            forall|j: int| 0 <= j < k ==> #[trigger] v[j] != ValueView::Null,
            forall|j: int| 0 <= j < k ==> r[c[j]] == #[trigger] v[j],
        decreases columns.len() - k,
    {
        let column = columns[k];
        assert(c[k as int] == column);
        if column >= row.len() {
            return false;
        }
        assert(v[k as int] == values@[k as int]@);
        assert(r[column as int] == row@[column as int]@);
        if matches!(values[k], Value::Null) {
            return false;
        }
        if !row[column].same(&values[k]) {
            assert(tuple_at(r, c)[k as int] != v[k as int]);
            return false;
        }
        k += 1;
    }
    assert(tuple_at(r, c) =~= v);
    true
}

/// What a lookup yields.
#[derive(Debug, PartialEq, Eq)]
pub enum Loaded {
    /// The rows of a to-many relation, in the order in which they came;
    /// there may be none.
    Many(Vec<Vec<Value>>),
    /// The one row of a to-one relation.
    One(Vec<Value>),
    /// No row, where the relation is optional.
    Absent,
}

pub enum LoadedView {
    Many(Seq<Seq<ValueView>>),
    One(Seq<ValueView>),
    Absent,
}

impl View for Loaded {
    type V = LoadedView;

    open spec fn view(&self) -> LoadedView {
        match self {
            Loaded::Many(rows) => LoadedView::Many(tuple_views(rows@)),
            Loaded::One(row) => LoadedView::One(value_views(row@)),
            Loaded::Absent => LoadedView::Absent,
        }
    }
}

/// A to-one relation that did not yield the one row it promises: `matches`
/// rows answered the lookup for `values`, none where one is owed, or more
/// than one.
#[derive(Debug, PartialEq, Eq)]
pub struct RelationCardinalityViolation {
    pub relation: RelationId,
    pub values: Vec<Value>,
    pub matches: usize,
}

pub struct RelationCardinalityViolationView {
    pub relation: RelationId,
    pub values: Seq<ValueView>,
    pub matches: int,
}

impl View for RelationCardinalityViolation {
    type V = RelationCardinalityViolationView;

    open spec fn view(&self) -> RelationCardinalityViolationView {
        RelationCardinalityViolationView {
            relation: self.relation,
            values: value_views(self.values@),
            matches: self.matches as int,
        }
    }
}

/// What a lookup for `values` yields when `answering` are the rows that
/// answer it: for a to-many relation, the rows; for an optional one, the row
/// or nothing; for a mandatory one, the row. More than one row for a to-one
/// relation is a violation, and so is no row for a mandatory one.
pub open spec fn outcome_of(
    cardinality: Cardinality,
    relation: RelationId,
    values: Seq<ValueView>,
    answering: Seq<Seq<ValueView>>,
) -> Result<LoadedView, RelationCardinalityViolationView> {
    let violation = RelationCardinalityViolationView {
        relation,
        values,
        matches: answering.len() as int,
    };
    match cardinality {
        Cardinality::ToMany => Ok(LoadedView::Many(answering)),
        Cardinality::ToOneOptional => if answering.len() == 0 {
            Ok(LoadedView::Absent)
        } else if answering.len() == 1 {
            Ok(LoadedView::One(answering[0]))
        } else {
            Err(violation)
        },
        Cardinality::ToOne => if answering.len() == 1 {
            Ok(LoadedView::One(answering[0]))
        } else {
            Err(violation)
        },
    }
}

/// The rows that answer a lookup for `values`, in the order in which they
/// came.
pub fn select_answering(rows: &Vec<Vec<Value>>, columns: &Vec<usize>, values: &Vec<Value>) -> (
    answering: Vec<Vec<Value>>)
    ensures
        tuple_views(answering@) == rows_answering(
            tuple_views(rows@),
            column_views(columns@),
            value_views(values@),
        ),
{
    let ghost all = tuple_views(rows@);
    let ghost pred = |row: Seq<ValueView>|
        answers(row, column_views(columns@), value_views(values@));
    let mut answering: Vec<Vec<Value>> = Vec::new();
    let mut i: usize = 0;
    proof {
        reveal(Seq::filter);
        assert(tuple_views(answering@) =~= all.take(0).filter(pred));
    }
    while i < rows.len()
        invariant
            0 <= i <= rows.len(),
            all == tuple_views(rows@),
            pred == |row: Seq<ValueView>|
                answers(row, column_views(columns@), value_views(values@)),
            tuple_views(answering@) == all.take(i as int).filter(pred),
        decreases rows.len() - i,
    {
        proof {
            reveal(Seq::filter);
            assert(all[i as int] == value_views(rows@[i as int]@));
            assert(all.take(i + 1).drop_last() =~= all.take(i as int));
            assert(all.take(i + 1).last() == all[i as int]);
        }
        if row_answers(&rows[i], columns, values) {
            let copy = copy_values(&rows[i]);
            proof {
                lemma_tuple_views_push(answering@, copy);
            }
            answering.push(copy);
        }
        i += 1;
    }
    assert(all.take(rows.len() as int) =~= all);
    answering
}

/// Settles what a lookup for `values` yields, given the rows that answer
/// it.
pub fn settle(
    cardinality: Cardinality,
    relation: RelationId,
    values: &Vec<Value>,
    answering: Vec<Vec<Value>>,
) -> (outcome: Result<Loaded, RelationCardinalityViolation>)
    ensures
        match outcome {
            Ok(loaded) => outcome_of(
                cardinality,
                relation,
                value_views(values@),
                tuple_views(answering@),
            ) == Ok::<LoadedView, RelationCardinalityViolationView>(loaded@),
            Err(violation) => outcome_of(
                cardinality,
                relation,
                value_views(values@),
                tuple_views(answering@),
            ) == Err::<LoadedView, RelationCardinalityViolationView>(violation@),
        },
{
    let count = answering.len();
    let mut answering = answering;
    let ghost rows = tuple_views(answering@);
    match cardinality {
        Cardinality::ToMany => Ok(Loaded::Many(answering)),
        Cardinality::ToOneOptional => {
            if count == 0 {
                Ok(Loaded::Absent)
            } else if count == 1 {
                let row = answering.pop().unwrap();
                assert(value_views(row@) == rows[0]);
                Ok(Loaded::One(row))
            } else {
                Err(
                    RelationCardinalityViolation {
                        relation,
                        values: copy_values(values),
                        matches: count,
                    },
                )
            }
        },
        Cardinality::ToOne => {
            if count == 1 {
                let row = answering.pop().unwrap();
                assert(value_views(row@) == rows[0]);
                Ok(Loaded::One(row))
            } else {
                Err(
                    RelationCardinalityViolation {
                        relation,
                        values: copy_values(values),
                        matches: count,
                    },
                )
            }
        },
    }
}

/// The outcomes of the lookups for each of `tuples`, given `rows`.
pub open spec fn outcomes_of(
    cardinality: Cardinality,
    relation: RelationId,
    columns: Seq<int>,
    tuples: Seq<Seq<ValueView>>,
    rows: Seq<Seq<ValueView>>,
) -> Seq<Result<LoadedView, RelationCardinalityViolationView>> {
    tuples.map_values(
        |values: Seq<ValueView>|
            outcome_of(cardinality, relation, values, rows_answering(rows, columns, values)),
    )
}

/// The view of an outcome.
pub open spec fn outcome_view(outcome: Result<Loaded, RelationCardinalityViolation>) -> Result<
    LoadedView,
    RelationCardinalityViolationView,
> {
    match outcome {
        Ok(loaded) => Ok(loaded@),
        Err(violation) => Err(violation@),
    }
}

/// The views of a list of outcomes.
pub open spec fn outcome_views(
    list: Seq<Result<Loaded, RelationCardinalityViolation>>,
) -> Seq<Result<LoadedView, RelationCardinalityViolationView>> {
    list.map_values(|o: Result<Loaded, RelationCardinalityViolation>| outcome_view(o))
}

/// Hands the rows of a batch's query back to its lookups: for each of the
/// batch's tuples, in order, what the lookup for that tuple yields. A row
/// answers the lookup whose tuple it bears at `columns`; rows keep the order
/// in which they came; a tuple that no row bears has no answering row.
pub fn distribute(
    cardinality: Cardinality,
    relation: RelationId,
    columns: &Vec<usize>,
    tuples: &Vec<Vec<Value>>,
    rows: &Vec<Vec<Value>>,
) -> (outcomes: Vec<Result<Loaded, RelationCardinalityViolation>>)
    ensures
        outcome_views(outcomes@) == outcomes_of(
            cardinality,
            relation,
            column_views(columns@),
            tuple_views(tuples@),
            tuple_views(rows@),
        ),
{
    let ghost wanted = outcomes_of(
        cardinality,
        relation,
        column_views(columns@),
        tuple_views(tuples@),
        tuple_views(rows@),
    );
    let mut outcomes: Vec<Result<Loaded, RelationCardinalityViolation>> = Vec::new();
    let mut i: usize = 0;
    while i < tuples.len()
        invariant
            0 <= i <= tuples.len(),
            wanted == outcomes_of(
                cardinality,
                relation,
                column_views(columns@),
                tuple_views(tuples@),
                tuple_views(rows@),
            ),
            outcome_views(outcomes@) == wanted.take(i as int),
        decreases tuples.len() - i,
    {
        let answering = select_answering(rows, columns, &tuples[i]);
        let outcome = settle(cardinality, relation, &tuples[i], answering);
        proof {
            assert(tuple_views(tuples@)[i as int] == value_views(tuples@[i as int]@));
            assert(outcome_view(outcome) == wanted[i as int]);
            assert(outcome_views(outcomes@.push(outcome)) =~= outcome_views(outcomes@).push(
                outcome_view(outcome),
            ));
            assert(wanted.take(i as int).push(wanted[i as int]) =~= wanted.take(i + 1));
        }
        outcomes.push(outcome);
        i += 1;
    }
    assert(wanted.take(tuples.len() as int) =~= wanted);
    outcomes
}

/// The position of `values` among `tuples`: the position of the outcome of
/// the lookup for `values`.
pub fn find_tuple(tuples: &Vec<Vec<Value>>, values: &Vec<Value>) -> (found: Option<usize>)
    ensures
        match found {
            Some(at) => {
                &&& at < tuples.len()
                &&& tuple_views(tuples@)[at as int] == value_views(values@)
                &&& forall|j: int|
                    0 <= j < at ==> #[trigger] tuple_views(tuples@)[j] != value_views(values@)
            },
            None => !tuple_views(tuples@).contains(value_views(values@)),
        },
{
    let ghost views = tuple_views(tuples@);
    let mut i: usize = 0;
    while i < tuples.len()
        invariant
            0 <= i <= tuples.len(),
            views == tuple_views(tuples@),
            forall|j: int| 0 <= j < i ==> #[trigger] views[j] != value_views(values@),
        decreases tuples.len() - i,
    {
        if same_values(&tuples[i], values) {
            assert(views[i as int] == value_views(values@));
            return Some(i);
        }
        i += 1;
    }
    None
}

/// No tuple occurs twice among the tuples of a batch.
pub proof fn lemma_tuples_distinct(
    keys: Seq<RelationKeyView>,
    group: (RelationId, Option<FilterNodeView>),
    n: int,
)
    requires
        0 <= n <= keys.len(),
    ensures
        forall|a: int, b: int|
            0 <= a < b < tuples_upto(keys, group, n).len() ==> tuples_upto(keys, group, n)[a]
                != tuples_upto(keys, group, n)[b],
    decreases n,
{
    if n > 0 {
        lemma_tuples_distinct(keys, group, n - 1);
        let earlier = tuples_upto(keys, group, n - 1);
        let all = tuples_upto(keys, group, n);
        assert forall|a: int, b: int| 0 <= a < b < all.len() implies all[a] != all[b] by {
            if b < earlier.len() {
                assert(all[a] == earlier[a] && all[b] == earlier[b]);
            } else {
                assert(all[a] == earlier[a]);
                assert(earlier.contains(earlier[a]));
            }
        }
    }
}

/// Every tuple of a batch is the value tuple of one of the batch's keys.
pub proof fn lemma_tuple_has_key(
    keys: Seq<RelationKeyView>,
    group: (RelationId, Option<FilterNodeView>),
    n: int,
    at: int,
) -> (m: int)
    requires
        0 <= n <= keys.len(),
        0 <= at < tuples_upto(keys, group, n).len(),
    ensures
        0 <= m < n,
        keys[m].group() == group,
        keys[m].values == tuples_upto(keys, group, n)[at],
    decreases n,
{
    let earlier = tuples_upto(keys, group, n - 1);
    if at < earlier.len() {
        lemma_tuple_has_key(keys, group, n - 1, at)
    } else {
        n - 1
    }
}

/// Lookups that all share one relation and one filter are answered by one
/// query: the round has exactly one batch, and every lookup is a member of
/// it, in order.
pub proof fn lemma_one_group_one_batch(keys: Seq<RelationKeyView>, n: int)
    requires
        0 < n <= keys.len(),
        forall|i: int| 0 <= i < n ==> (#[trigger] keys[i]).group() == keys[0].group(),
    ensures
        groups_upto(keys, n) == seq![keys[0].group()],
        planned_upto(keys, n).len() == 1,
        planned_upto(keys, n)[0].relation == keys[0].relation,
        planned_upto(keys, n)[0].members == Seq::new(n as nat, |i: int| i),
    decreases n,
{
    let group = keys[0].group();
    if n == 1 {
        assert(groups_upto(keys, 0) =~= Seq::empty());
        assert(groups_upto(keys, 1) =~= seq![group]);
        assert(members_upto(keys, group, 0) =~= Seq::empty());
        assert(members_upto(keys, group, 1) =~= Seq::new(1, |i: int| i));
    } else {
        lemma_one_group_one_batch(keys, n - 1);
        let earlier = groups_upto(keys, n - 1);
        assert(earlier[0] == group);
        assert(earlier.contains(keys[n - 1].group()));
        assert(planned_upto(keys, n - 1)[0].members == members_upto(keys, group, n - 1));
        assert(members_upto(keys, group, n) =~= Seq::new(n as nat, |i: int| i));
    }
}

/// Where the lookups of one batch have pairwise different value tuples, the
/// batch's tuples are those of its keys, in order.
pub proof fn lemma_distinct_values_are_tuples(keys: Seq<RelationKeyView>, n: int)
    requires
        0 < n <= keys.len(),
        forall|i: int| 0 <= i < n ==> (#[trigger] keys[i]).group() == keys[0].group(),
        forall|i: int, j: int|
            0 <= i < j < n ==> (#[trigger] keys[i]).values != (#[trigger] keys[j]).values,
    ensures
        tuples_upto(keys, keys[0].group(), n) == Seq::new(n as nat, |i: int| keys[i].values),
    decreases n,
{
    let group = keys[0].group();
    if n == 1 {
        assert(tuples_upto(keys, group, 0) =~= Seq::empty());
        assert(tuples_upto(keys, group, 1) =~= Seq::new(1, |i: int| keys[i].values));
    } else {
        lemma_distinct_values_are_tuples(keys, n - 1);
        let earlier = tuples_upto(keys, group, n - 1);
        if earlier.contains(keys[n - 1].values) {
            let at = choose|at: int| 0 <= at < earlier.len() && earlier[at] == keys[n - 1].values;
            assert(keys[at].values == keys[n - 1].values);
        }
        assert(tuples_upto(keys, group, n) =~= Seq::new(n as nat, |i: int| keys[i].values));
    }
}

/// Every lookup of a round is a member of exactly one batch, the batch of
/// its relation and filter, and finds its value tuple among that batch's
/// tuples.
pub proof fn lemma_key_in_one_batch(keys: Seq<RelationKeyView>, m: int) -> (b: int)
    requires
        0 <= m < keys.len(),
    ensures
        0 <= b < planned(keys).len(),
        planned(keys)[b].members.contains(m),
        planned(keys)[b].tuples.contains(keys[m].values),
        forall|c: int|
            0 <= c < planned(keys).len() && (#[trigger] planned(keys)[c]).members.contains(m)
                ==> c == b,
{
    let n = keys.len() as int;
    let groups = groups_upto(keys, n);
    lemma_group_listed(keys, n, m);
    let b = choose|b: int| 0 <= b < groups.len() && groups[b] == keys[m].group();
    lemma_key_is_member(keys, n, m);
    lemma_groups_distinct(keys, n);
    assert forall|c: int|
        0 <= c < planned(keys).len() && (#[trigger] planned(keys)[c]).members.contains(
            m,
        ) implies c == b by {
        let members = members_upto(keys, groups[c], n);
        lemma_members_belong(keys, groups[c], n);
        let at = choose|at: int| 0 <= at < members.len() && members[at] == m;
        assert(keys[members[at]].group() == groups[c]);
    }
    b
}

/// `member` is one of `members`.
fn is_member(members: &Vec<usize>, member: usize) -> (yes: bool)
    ensures
        yes == members@.map_values(|m: usize| m as int).contains(member as int),
{
    let ghost views = members@.map_values(|m: usize| m as int);
    let mut i: usize = 0;
    while i < members.len()
        invariant
            0 <= i <= members.len(),
            views == members@.map_values(|m: usize| m as int),
            forall|j: int| 0 <= j < i ==> #[trigger] views[j] != member,
        decreases members.len() - i,
    {
        if members[i] == member {
            assert(views[i as int] == member);
            return true;
        }
        i += 1;
    }
    false
}

/// Where the outcome of the lookup at position `key` is found: the first
/// batch of which it is a member, and the position of `values`, its value
/// tuple, among that batch's tuples. None where no batch has the lookup as
/// a member, or where that batch lacks the tuple.
pub fn locate(batches: &Vec<Batch>, key: usize, values: &Vec<Value>) -> (found: Option<
    (usize, usize),
>)
    ensures
        match found {
            Some((batch, tuple)) => {
                &&& batch < batches.len()
                &&& batches@[batch as int]@.members.contains(key as int)
                &&& forall|b: int|
                    0 <= b < batch ==> !(#[trigger] batches@[b])@.members.contains(key as int)
                &&& tuple < batches@[batch as int].tuples.len()
                &&& batches@[batch as int]@.tuples[tuple as int] == value_views(values@)
            },
            None => {
                ||| forall|b: int|
                    0 <= b < batches.len() ==> !(#[trigger] batches@[b])@.members.contains(
                        key as int,
                    )
                ||| exists|b: int|
                    0 <= b < batches.len() && (#[trigger] batches@[b])@.members.contains(
                        key as int,
                    ) && !batches@[b]@.tuples.contains(value_views(values@))
            },
        },
{
    let mut b: usize = 0;
    while b < batches.len()
        invariant
            0 <= b <= batches.len(),
            forall|c: int| 0 <= c < b ==> !(#[trigger] batches@[c])@.members.contains(key as int),
        decreases batches.len() - b,
    {
        if is_member(&batches[b].members, key) {
            return match find_tuple(&batches[b].tuples, values) {
                Some(tuple) => Some((b, tuple)),
                None => None,
            };
        }
        b += 1;
    }
    None
}

/// In the batches of a round, the outcome of every lookup is found.
pub proof fn lemma_every_lookup_is_located(keys: Seq<RelationKeyView>, m: int)
    requires
        0 <= m < keys.len(),
    ensures
        exists|b: int|
            0 <= b < planned(keys).len() && (#[trigger] planned(keys)[b]).members.contains(m)
                && planned(keys)[b].tuples.contains(keys[m].values),
{
    let b = lemma_key_in_one_batch(keys, m);
    assert(planned(keys)[b].members.contains(m));
}

/// What a lookup yields answers it: every row handed to the lookup for
/// `values` is one of `rows` and bears `values` at `columns`.
pub proof fn lemma_outcome_answers_its_key(
    cardinality: Cardinality,
    relation: RelationId,
    columns: Seq<int>,
    values: Seq<ValueView>,
    rows: Seq<Seq<ValueView>>,
)
    ensures
        match outcome_of(cardinality, relation, values, rows_answering(rows, columns, values)) {
            Ok(LoadedView::One(row)) => rows.contains(row) && answers(row, columns, values),
            Ok(LoadedView::Many(found)) => forall|i: int|
                0 <= i < found.len() ==> rows.contains(#[trigger] found[i]) && answers(
                    found[i],
                    columns,
                    values,
                ),
            Ok(LoadedView::Absent) => forall|i: int|
                0 <= i < rows.len() ==> !answers(#[trigger] rows[i], columns, values),
            Err(violation) => violation.matches != 1,
        },
{
    let pred = |row: Seq<ValueView>| answers(row, columns, values);
    let found = rows.filter(pred);
    assert forall|i: int| 0 <= i < found.len() implies rows.contains(#[trigger] found[i])
        && answers(found[i], columns, values) by {
        rows.lemma_filter_pred(pred, i);
        assert(found.contains(found[i]));
        rows.lemma_filter_contains_rev(pred, found[i]);
    }
    if found.len() == 0 {
        assert forall|i: int| 0 <= i < rows.len() implies !answers(
            #[trigger] rows[i],
            columns,
            values,
        ) by {
            if answers(rows[i], columns, values) {
                rows.lemma_filter_contains(pred, i);
            }
        }
    }
}

/// The backend could not run a query.
#[derive(Debug, Clone, PartialEq, Eq)]
pub struct BackendExecutionError {
    /// What the backend said.
    pub message: String,
}

/// Why a lookup yields nothing to hand on.
#[derive(Debug, PartialEq, Eq)]
pub enum LookupError {
    /// The query of the lookup's batch failed.
    Backend(BackendExecutionError),
    /// The rows that answer the lookup are not what its relation promises.
    Cardinality(RelationCardinalityViolation),
}

pub enum LookupErrorView {
    Backend(Seq<char>),
    Cardinality(RelationCardinalityViolationView),
}

impl View for LookupError {
    type V = LookupErrorView;

    open spec fn view(&self) -> LookupErrorView {
        match self {
            LookupError::Backend(fault) => LookupErrorView::Backend(fault.message@),
            LookupError::Cardinality(violation) => LookupErrorView::Cardinality(violation@),
        }
    }
}

/// The view of the answer to a lookup.
pub open spec fn answer_view(answer: Result<Loaded, LookupError>) -> Result<
    LoadedView,
    LookupErrorView,
> {
    match answer {
        Ok(loaded) => Ok(loaded@),
        Err(fault) => Err(fault@),
    }
}

/// The answer to the lookup for `values`, given what the query of its batch
/// gave: the outcome among the rows, or the failure of the query.
pub open spec fn answer_of(
    cardinality: Cardinality,
    relation: RelationId,
    columns: Seq<int>,
    values: Seq<ValueView>,
    fetched: Result<Seq<Seq<ValueView>>, Seq<char>>,
) -> Result<LoadedView, LookupErrorView> {
    match fetched {
        Ok(rows) => match outcome_of(
            cardinality,
            relation,
            values,
            rows_answering(rows, columns, values),
        ) {
            Ok(loaded) => Ok(loaded),
            Err(violation) => Err(LookupErrorView::Cardinality(violation)),
        },
        Err(message) => Err(LookupErrorView::Backend(message)),
    }
}

/// The view of what a query gave.
pub open spec fn fetched_view(fetched: Result<Vec<Vec<Value>>, BackendExecutionError>) -> Result<
    Seq<Seq<ValueView>>,
    Seq<char>,
> {
    match fetched {
        Ok(rows) => Ok(tuple_views(rows@)),
        Err(fault) => Err(fault.message@),
    }
}

/// Answers the lookups of one batch from what the batch's query gave: for
/// each of the batch's tuples, in order, the outcome among the rows. A query
/// that failed fails every lookup of its batch, and those of no other.
pub fn answer_batch(
    cardinality: Cardinality,
    relation: RelationId,
    columns: &Vec<usize>,
    tuples: &Vec<Vec<Value>>,
    fetched: &Result<Vec<Vec<Value>>, BackendExecutionError>,
) -> (answers: Vec<Result<Loaded, LookupError>>)
    ensures
        answers.len() == tuples.len(),
        forall|i: int|
            0 <= i < answers.len() ==> answer_view(#[trigger] answers@[i]) == answer_of(
                cardinality,
                relation,
                column_views(columns@),
                tuple_views(tuples@)[i],
                fetched_view(*fetched),
            ),
{
    let mut answers: Vec<Result<Loaded, LookupError>> = Vec::new();
    let mut i: usize = 0;
    while i < tuples.len()
        invariant
            0 <= i <= tuples.len(),
            answers.len() == i,
            forall|j: int|
                0 <= j < i ==> answer_view(#[trigger] answers@[j]) == answer_of(
                    cardinality,
                    relation,
                    column_views(columns@),
                    tuple_views(tuples@)[j],
                    fetched_view(*fetched),
                ),
        decreases tuples.len() - i,
    {
        assert(tuple_views(tuples@)[i as int] == value_views(tuples@[i as int]@));
        let answer = match fetched {
            Ok(rows) => {
                let answering = select_answering(rows, columns, &tuples[i]);
                match settle(cardinality, relation, &tuples[i], answering) {
                    Ok(loaded) => Ok(loaded),
                    Err(violation) => Err(LookupError::Cardinality(violation)),
                }
            },
            Err(fault) => Err(
                LookupError::Backend(BackendExecutionError { message: fault.message.clone() }),
            ),
        };
        answers.push(answer);
        i += 1;
    }
    answers
}

} // verus!
