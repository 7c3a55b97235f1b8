use rust_graphql_generator_demo::filter::Value;
use rust_graphql_generator_demo::graphql::root_node::{
    generate_paginated_result, page_window, paginate, PageWindow, PaginationInput,
};
use rust_graphql_generator_demo::types::TableMeta;

fn rows(count: i128) -> Vec<Vec<Value>> {
    (1..=count).map(|i| vec![Value::Int(i)]).collect()
}

fn page(limit: usize, page: usize) -> Option<PaginationInput> {
    Some(PaginationInput::new(limit, page).unwrap())
}

#[test]
fn second_page_of_two_over_five_rows_holds_rows_three_and_four() {
    let result = paginate(&rows(5), page(2, 2));
    assert_eq!(result.data, vec![vec![Value::Int(3)], vec![Value::Int(4)]]);
    assert_eq!(result.pages, 3);
    assert_eq!(result.current, 2);
}

#[test]
fn page_beyond_the_last_is_empty_with_the_same_page_count() {
    let result = paginate(&rows(5), page(2, 10));
    assert_eq!(result.data, Vec::<Vec<Value>>::new());
    assert_eq!(result.pages, 3);
    assert_eq!(result.current, 10);
}

#[test]
fn last_page_holds_what_is_left() {
    let result = paginate(&rows(5), page(2, 3));
    assert_eq!(result.data, vec![vec![Value::Int(5)]]);
    assert_eq!(result.pages, 3);
    let result = paginate(&rows(4), page(2, 2));
    assert_eq!(result.data, vec![vec![Value::Int(3)], vec![Value::Int(4)]]);
    assert_eq!(result.pages, 2);
}

#[test]
fn without_pagination_one_page_holds_everything() {
    let result = paginate(&rows(5), None);
    assert_eq!(result.data, rows(5));
    assert_eq!(result.pages, 1);
    assert_eq!(result.current, 1);
    let result = paginate(&rows(0), None);
    assert_eq!(result.data, rows(0));
    assert_eq!(result.pages, 1);
}

#[test]
fn no_rows_make_no_pages() {
    let result = paginate(&rows(0), page(3, 1));
    assert_eq!(result.data, rows(0));
    assert_eq!(result.pages, 0);
    assert_eq!(result.current, 1);
}

#[test]
fn window_gives_offset_limit_and_page_count() {
    assert_eq!(page_window(5, page(2, 2)), PageWindow { offset: 2, limit: 2, pages: 3, current: 2 });
    assert_eq!(page_window(5, page(2, 10)), PageWindow { offset: 5, limit: 2, pages: 3, current: 10 });
    assert_eq!(page_window(6, page(3, 2)), PageWindow { offset: 3, limit: 3, pages: 2, current: 2 });
    assert_eq!(page_window(7, page(1, 7)), PageWindow { offset: 6, limit: 1, pages: 7, current: 7 });
    assert_eq!(page_window(7, None), PageWindow { offset: 0, limit: 7, pages: 1, current: 1 });
    assert_eq!(
        page_window(10, page(usize::MAX, usize::MAX)),
        PageWindow { offset: 10, limit: usize::MAX, pages: 1, current: usize::MAX }
    );
}

#[test]
fn page_size_and_number_are_positive() {
    assert_eq!(PaginationInput::new(0, 1), None);
    assert_eq!(PaginationInput::new(1, 0), None);
    assert_eq!(PaginationInput::new(2, 3), Some(PaginationInput { limit: 2, page: 3 }));
}

#[test]
fn paginated_types_are_named_after_their_entities() {
    let table = TableMeta {
        entity_name: "MediaType".to_string(),
        entity_module: "media_type".to_string(),
        entity_filter: "MediaTypeFilter".to_string(),
        columns: vec![],
        foreign_keys: vec![],
    };
    let types = generate_paginated_result(&vec![table]);
    assert_eq!(types.len(), 1);
    assert_eq!(types[0].name, "PaginatedMediaTypeResult");
    assert_eq!(types[0].module, "media_type");
}
