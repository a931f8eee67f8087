use admission_control::paging::{page_offset, ListPatientsQuery, Pagination};

#[test]
fn query_defaults() {
    let q = ListPatientsQuery { page: None, limit: None, search: None };
    assert_eq!(q.effective_page(), 1);
    assert_eq!(q.effective_limit(), 20);
    let q = ListPatientsQuery { page: Some(3), limit: Some(50), search: Some("ann".to_string()) };
    assert_eq!(q.effective_page(), 3);
    assert_eq!(q.effective_limit(), 50);
}

#[test]
fn total_pages_rounds_up() {
    assert_eq!(Pagination::compute(1, 20, 0).total_pages, 0);
    assert_eq!(Pagination::compute(1, 20, 1).total_pages, 1);
    assert_eq!(Pagination::compute(1, 20, 20).total_pages, 1);
    assert_eq!(Pagination::compute(1, 20, 21).total_pages, 2);
    assert_eq!(Pagination::compute(2, 20, 45).total_pages, 3);
    let pg = Pagination::compute(2, 20, 45);
    assert_eq!(pg.page, 2);
    assert_eq!(pg.limit, 20);
    assert_eq!(pg.total, 45);
}

#[test]
fn total_pages_saturates() {
    // more pages than u32 can count
    assert_eq!(Pagination::compute(1, 1, 5_000_000_000).total_pages, u32::MAX);
    // a zero limit yields no pages of an empty listing, saturation otherwise
    assert_eq!(Pagination::compute(1, 0, 0).total_pages, 0);
    assert_eq!(Pagination::compute(1, 0, 7).total_pages, u32::MAX);
}

#[test]
fn offsets() {
    assert_eq!(page_offset(1, 20), 0);
    assert_eq!(page_offset(3, 20), 40);
    assert_eq!(page_offset(0, 20), 0);
    assert_eq!(page_offset(u32::MAX, u32::MAX), (u32::MAX as u64 - 1) * u32::MAX as u64);
}
