//! The root queries of an entity: the rows that a filter selects, page by
//! page.

use crate::filter::{copy_values, tuple_views, value_views, Value, ValueView};
use crate::types::table_meta::{TableMeta, TableMetaView};
use vstd::prelude::*;
use vstd::string::*;

verus! {

/// Which page of a result is asked for. Pages are numbered from 1, and a
/// page holds at least one row.
#[derive(Debug, Clone, Copy, PartialEq, Eq, Structural)]
pub struct PaginationInput {
    /// The number of rows of a page.
    pub limit: usize,
    /// The number of the page.
    pub page: usize,
}

impl PaginationInput {
    /// The page size and the page number are both positive.
    pub open spec fn well_formed(self) -> bool {
        self.limit >= 1 && self.page >= 1
    }

    /// The page `page` of pages of `limit` rows, where both are positive.
    pub fn new(limit: usize, page: usize) -> (input: Option<PaginationInput>)
        ensures
            input is Some <==> limit >= 1 && page >= 1,
            input matches Some(i) ==> i.limit == limit && i.page == page,
    {
        if limit >= 1 && page >= 1 {
            Some(PaginationInput { limit, page })
        } else {
            None
        }
    }
}

/// The part of a result that a page covers: `limit` rows from the row
/// numbered `offset`, counting from 0.
#[derive(Debug, Clone, Copy, PartialEq, Eq, Structural)]
pub struct PageWindow {
    pub offset: usize,
    pub limit: usize,
    /// The number of pages of the whole result.
    pub pages: usize,
    /// The number of this page.
    pub current: usize,
}

/// One page of a result.
#[derive(Debug, PartialEq, Eq)]
pub struct PaginatedResult {
    pub data: Vec<Vec<Value>>,
    /// The number of pages of the whole result.
    pub pages: usize,
    /// The number of this page.
    pub current: usize,
}

/// The number of pages of `limit` rows that `count` rows fill: the quotient
/// rounded up.
pub open spec fn total_pages(count: int, limit: int) -> int {
    if count % limit == 0 {
        count / limit
    } else {
        count / limit + 1
    }
}

/// Where page `page` starts among `count` rows: after the rows of the pages
/// before it, or at the end if there are not so many rows.
pub open spec fn page_start(count: int, limit: int, page: int) -> int {
    if (page - 1) * limit < count {
        (page - 1) * limit
    } else {
        count
    }
}

/// Where page `page` ends among `count` rows: `limit` rows after its start,
/// or at the end if there are not so many rows.
pub open spec fn page_end(count: int, limit: int, page: int) -> int {
    if page_start(count, limit, page) + limit < count {
        page_start(count, limit, page) + limit
    } else {
        count
    }
}

/// The window of a request among `count` matching rows. A request without
/// pagination asks for one page that holds every row.
pub open spec fn window_of(count: int, pagination: Option<PaginationInput>) -> PageWindow {
    match pagination {
        Some(input) => PageWindow {
            offset: page_start(count, input.limit as int, input.page as int) as usize,
            limit: input.limit,
            pages: total_pages(count, input.limit as int) as usize,
            current: input.page,
        },
        None => PageWindow { offset: 0, limit: count as usize, pages: 1, current: 1 },
    }
}

/// The rows of the window of a request among `rows`.
pub open spec fn page_of(rows: Seq<Seq<ValueView>>, pagination: Option<PaginationInput>) -> Seq<
    Seq<ValueView>,
> {
    match pagination {
        Some(input) => rows.subrange(
            page_start(rows.len() as int, input.limit as int, input.page as int),
            page_end(rows.len() as int, input.limit as int, input.page as int),
        ),
        None => rows,
    }
}

/// The window of a request among `count` matching rows: where the page
/// starts, how many rows it may hold, and how many pages there are. A page
/// beyond the last starts at the end.
pub fn page_window(count: usize, pagination: Option<PaginationInput>) -> (window: PageWindow)
    requires
        pagination matches Some(input) ==> input.well_formed(),
    ensures
        window == window_of(count as int, pagination),
        window.offset <= count,
{
    match pagination {
        Some(input) => {
            let full = count / input.limit;
            let pages = if count % input.limit == 0 {
                full
            } else {
                assert(count / input.limit < count) by (nonlinear_arith)
                    requires
                        input.limit >= 1,
                        count % input.limit != 0,
                ;
                full + 1
            };
            let offset = match (input.page - 1).checked_mul(input.limit) {
                Some(offset) => if offset < count {
                    offset
                } else {
                    count
                },
                None => count,
            };
            PageWindow { offset, limit: input.limit, pages, current: input.page }
        },
        None => PageWindow { offset: 0, limit: count, pages: 1, current: 1 },
    }
}

/// One page of the rows that a query selected. A page beyond the last holds
/// no row; the number of pages is that of the whole result.
pub fn paginate(rows: &Vec<Vec<Value>>, pagination: Option<PaginationInput>) -> (result:
    PaginatedResult)
    requires
        pagination matches Some(input) ==> input.well_formed(),
    ensures
        tuple_views(result.data@) == page_of(tuple_views(rows@), pagination),
        result.pages == window_of(rows.len() as int, pagination).pages,
        result.current == window_of(rows.len() as int, pagination).current,
{
    let window = page_window(rows.len(), pagination);
    let end = if window.limit < rows.len() - window.offset {
        window.offset + window.limit
    } else {
        rows.len()
    };
    let ghost all = tuple_views(rows@);
    let ghost start = window.offset as int;
    let mut data: Vec<Vec<Value>> = Vec::new();
    let mut i: usize = window.offset;
    assert(tuple_views(data@) =~= all.subrange(start, start));
    while i < end
        invariant
            0 <= start <= i <= end <= rows.len(),
            all == tuple_views(rows@),
            all.len() == rows.len(),
            tuple_views(data@) == all.subrange(start, i as int),
        decreases end - i,
    {
        let row = copy_values(&rows[i]);
        proof {
            assert(all[i as int] == value_views(rows@[i as int]@));
            assert(tuple_views(data@.push(row)) =~= tuple_views(data@).push(value_views(row@)));
            assert(all.subrange(start, i as int).push(all[i as int]) =~= all.subrange(
                start,
                i + 1,
            ));
        }
        data.push(row);
        i += 1;
    }
    proof {
        match pagination {
            Some(input) => {
                assert(end == page_end(rows.len() as int, input.limit as int, input.page as int));
            },
            None => {
                assert(all.subrange(0, rows.len() as int) =~= all);
            },
        }
    }
    PaginatedResult { data, pages: window.pages, current: window.current }
}

/// The number of pages is the quotient of the row count by the page size,
/// rounded up: the least number of pages that hold every row.
pub proof fn lemma_total_pages_is_ceiling(count: int, limit: int)
    requires
        count >= 0,
        limit >= 1,
    ensures
        total_pages(count, limit) >= 0,
        total_pages(count, limit) * limit >= count,
        (total_pages(count, limit) - 1) * limit < count || count == 0,
{
    let q = count / limit;
    let r = count % limit;
    assert(count == q * limit + r && 0 <= r < limit && q >= 0) by (nonlinear_arith)
        requires
            count >= 0,
            limit >= 1,
            q == count / limit,
            r == count % limit,
    ;
    if r == 0 {
        assert((q - 1) * limit == q * limit - limit) by (nonlinear_arith);
    } else {
        assert((q + 1) * limit == q * limit + limit) by (nonlinear_arith);
    }
}

/// A page beyond the last holds no row.
pub proof fn lemma_page_beyond_last_is_empty(rows: Seq<Seq<ValueView>>, input: PaginationInput)
    requires
        input.well_formed(),
        input.page > total_pages(rows.len() as int, input.limit as int),
    ensures
        page_of(rows, Some(input)).len() == 0,
{
    let count = rows.len() as int;
    let limit = input.limit as int;
    let page = input.page as int;
    lemma_total_pages_is_ceiling(count, limit);
    let pages = total_pages(count, limit);
    assert((page - 1) * limit >= pages * limit) by (nonlinear_arith)
        requires
            page - 1 >= pages,
            limit >= 1,
    ;
}

/// A page that is not beyond the last holds the rows of its window: as many
/// as the page size, or, on the last page, those that are left.
pub proof fn lemma_page_holds_its_window(rows: Seq<Seq<ValueView>>, input: PaginationInput)
    requires
        input.well_formed(),
        input.page <= total_pages(rows.len() as int, input.limit as int),
    ensures
        page_of(rows, Some(input)).len() == if input.page * input.limit <= rows.len() {
            input.limit as int
        } else {
            rows.len() - (input.page - 1) * input.limit
        },
        forall|k: int|
            0 <= k < page_of(rows, Some(input)).len() ==> #[trigger] page_of(rows, Some(input))[k]
                == rows[(input.page - 1) * input.limit + k],
{
    let count = rows.len() as int;
    let limit = input.limit as int;
    let page = input.page as int;
    lemma_total_pages_is_ceiling(count, limit);
    let pages = total_pages(count, limit);
    let start = (page - 1) * limit;
    let last = (pages - 1) * limit;
    assert(start <= last) by (nonlinear_arith)
        requires
            start == (page - 1) * limit,
            last == (pages - 1) * limit,
            page <= pages,
            limit >= 1,
    ;
    assert(start >= 0) by (nonlinear_arith)
        requires
            start == (page - 1) * limit,
            page >= 1,
            limit >= 1,
    ;
    assert(input.page * input.limit == start + limit) by (nonlinear_arith)
        requires
            start == (page - 1) * limit,
            page == input.page,
            limit == input.limit,
    ;
    assert(count > 0);
    assert(start < count);
    assert(page_start(count, limit, page) == start);
    let end = page_end(count, limit, page);
    assert(page_of(rows, Some(input)) == rows.subrange(start, end));
}

/// The paginated result type of one entity: its name, and the module of
/// the entity whose rows it holds.
#[derive(Debug, Clone, PartialEq, Eq)]
pub struct PaginatedType {
    pub name: String,
    pub module: String,
}

/// The name of the paginated result type of the entity called `entity`.
pub open spec fn paginated_name_of(entity: Seq<char>) -> Seq<char> {
    "Paginated"@ + entity + "Result"@
}

/// `result` is the paginated result type of `table`.
pub open spec fn is_paginated_type_of(result: PaginatedType, table: TableMetaView) -> bool {
    result.name@ == paginated_name_of(table.entity_name) && result.module@ == table.entity_module
}

/// The paginated result types of the entities of a graph, one for each
/// table and in their order.
pub fn generate_paginated_result(tables: &Vec<TableMeta>) -> (results: Vec<PaginatedType>)
    ensures
        results.len() == tables.len(),
        forall|i: int|
            0 <= i < results.len() ==> is_paginated_type_of(#[trigger] results@[i], tables@[i]@),
{
    let mut results: Vec<PaginatedType> = Vec::new();
    let mut i: usize = 0;
    while i < tables.len()
        invariant
            0 <= i <= tables.len(),
            results.len() == i,
            forall|j: int|
                0 <= j < i ==> is_paginated_type_of(#[trigger] results@[j], tables@[j]@),
        decreases tables.len() - i,
    {
        let table = &tables[i];
        let mut name = String::from_str("Paginated");
        name.append(table.entity_name.as_str());
        name.append("Result");
        results.push(PaginatedType { name, module: table.entity_module.clone() });
        i += 1;
    }
    results
}

} // verus!
