use permguard_control_plane::query::catalog_window_of;
use permguard_control_plane::ListWindow;

#[test]
fn no_window_is_the_whole_listing() {
    assert_eq!(ListWindow::of(0, 0).apply(vec![1, 2, 3]), vec![1, 2, 3]);
}

#[test]
fn pages_partition_the_listing_without_overlap() {
    let items: Vec<u32> = (1..=7).collect();
    assert_eq!(ListWindow::of(1, 3).apply(items.clone()), vec![1, 2, 3]);
    assert_eq!(ListWindow::of(2, 3).apply(items.clone()), vec![4, 5, 6]);
    assert_eq!(ListWindow::of(3, 3).apply(items.clone()), vec![7]);
    assert_eq!(ListWindow::of(4, 3).apply(items), Vec::<u32>::new());
}

#[test]
fn a_size_alone_is_the_first_page_and_a_page_alone_gets_the_default_size() {
    assert_eq!(ListWindow::of(0, 2).apply(vec![1, 2, 3]), vec![1, 2]);
    let many: Vec<u32> = (0..250).collect();
    assert_eq!(ListWindow::of(2, 0).apply(many)[0], 100, "page 2 of the default size");
}

#[test]
fn consecutive_pages_tile_a_listing_of_any_length() {
    for len in 0..25u32 {
        let items: Vec<u32> = (0..len).collect();
        let mut walked = Vec::new();
        for page in 1..=10 {
            walked.extend(ListWindow::of(page, 4).apply(items.clone()));
        }
        assert_eq!(walked, items);
    }
}

#[test]
fn a_size_is_clamped_to_the_maximum() {
    let many: Vec<u32> = (0..2500).collect();
    assert_eq!(ListWindow::of(1, 5000).apply(many.clone()).len(), 1000);
    assert_eq!(ListWindow::of(3, 5000).apply(many)[0], 2000);
}

#[test]
fn a_catalog_query_names_its_page_and_size() {
    assert_eq!(catalog_window_of(None), ListWindow { page: None, size: None });
    assert_eq!(
        catalog_window_of(Some("page=2&size=50")),
        ListWindow { page: Some(2), size: Some(50) }
    );
    // Zero, junk and undeclared names all mean "not asked".
    assert_eq!(
        catalog_window_of(Some("page=0&size=abc&color=red")),
        ListWindow { page: None, size: None }
    );
    // The last mention wins, and a piece without `=` is ignored.
    assert_eq!(
        catalog_window_of(Some("size=5&size=7&page")),
        ListWindow { page: None, size: Some(7) }
    );
}
