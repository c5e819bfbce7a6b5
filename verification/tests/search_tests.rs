use otamoryx::search_query::{build_order_clause, build_where_clause, get_joins, search_plan, SearchRequest};

fn request() -> SearchRequest {
    SearchRequest {
        query: None,
        tags: None,
        min_pages: None,
        max_pages: None,
        min_file_size: None,
        max_file_size: None,
        created_after: None,
        created_before: None,
        sort_by: None,
        sort_order: None,
        page: None,
        limit: None,
    }
}

#[test]
fn an_empty_search_has_no_where_clause() {
    let (clause, values) = build_where_clause(&request());
    assert_eq!(clause, "");
    assert!(values.is_empty());
    assert_eq!(get_joins(&request()), "");
    assert_eq!(build_order_clause(&request()), "ORDER BY a.created_at DESC");
}

#[test]
fn filters_are_joined_in_order_with_their_values() {
    let mut r = request();
    r.query = Some("moon".to_string());
    r.tags = Some(vec!["space".to_string(), "drama".to_string()]);
    r.min_pages = Some(-3);
    r.max_file_size = Some(4096);
    r.created_before = Some("2024-01-01".to_string());
    let (clause, values) = build_where_clause(&r);
    assert_eq!(
        clause,
        "WHERE a.title LIKE ? AND a.id IN (SELECT DISTINCT at.archive_id FROM archive_tags at INNER JOIN tags t ON at.tag_id = t.id WHERE t.name IN (?,?)) AND COALESCE(a.page_count, 0) >= ? AND a.file_size <= ? AND a.created_at <= ?"
    );
    assert_eq!(values, vec!["%moon%", "space", "drama", "-3", "4096", "2024-01-01"]);
    assert_eq!(
        get_joins(&r),
        "LEFT JOIN archive_tags at ON a.id = at.archive_id LEFT JOIN tags t ON at.tag_id = t.id"
    );
}

#[test]
fn blank_queries_and_empty_tag_lists_do_not_filter() {
    let mut r = request();
    r.query = Some("   ".to_string());
    r.tags = Some(vec![]);
    let (clause, values) = build_where_clause(&r);
    assert_eq!(clause, "");
    assert!(values.is_empty());
    assert!(!get_joins(&r).is_empty());
}

#[test]
fn sorting_falls_back_to_creation_time_descending() {
    let mut r = request();
    r.sort_by = Some("page_count".to_string());
    r.sort_order = Some("AsC".to_string());
    assert_eq!(build_order_clause(&r), "ORDER BY COALESCE(a.page_count, 0) ASC");
    r.sort_by = Some("rating".to_string());
    r.sort_order = Some("up".to_string());
    assert_eq!(build_order_clause(&r), "ORDER BY a.created_at DESC");
}

#[test]
fn pages_are_limited_to_one_hundred_archives() {
    let mut r = request();
    r.page = Some(3);
    r.limit = Some(500);
    r.min_pages = Some(10);
    let plan = search_plan(&r);
    assert_eq!(plan.limit, 100);
    assert_eq!(plan.offset, 200);
    assert_eq!(plan.count_values, vec!["10"]);
    assert_eq!(plan.search_values, vec!["10", "100", "200"]);
    assert_eq!(
        plan.count_query,
        "SELECT COUNT(DISTINCT a.id) as total FROM archives a  WHERE COALESCE(a.page_count, 0) >= ?"
    );
    assert!(plan.search_query.ends_with("ORDER BY a.created_at DESC LIMIT ? OFFSET ?"));
    assert!(plan.has_next(301));
    assert!(!plan.has_next(300));
    let defaults = search_plan(&request());
    assert_eq!((defaults.page, defaults.limit, defaults.offset), (1, 20, 0));
}

#[test]
fn every_placeholder_has_its_value() {
    let mut r = request();
    r.query = Some("moon".to_string());
    r.tags = Some(vec!["a".to_string(), "b".to_string(), "c".to_string()]);
    r.max_pages = Some(400);
    r.min_file_size = Some(1);
    r.created_after = Some("2020-01-01".to_string());
    let (clause, values) = build_where_clause(&r);
    assert_eq!(clause.matches('?').count(), values.len());
    assert_eq!(values.len(), 7);
}
