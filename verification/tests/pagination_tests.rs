use forum_archive::pagination::{
    page_bounds, paginate, window, OutOfRange, ADMIN_LOGS_PER_PAGE, COMMENTS_PER_PAGE,
    POSTS_PER_PAGE, THREADS_PER_PAGE, USER_RECORDS_PER_PAGE,
};

#[test]
fn page_sizes_are_the_product_constants() {
    assert_eq!(THREADS_PER_PAGE, 50);
    assert_eq!(ADMIN_LOGS_PER_PAGE, 50);
    assert_eq!(POSTS_PER_PAGE, 30);
    assert_eq!(USER_RECORDS_PER_PAGE, 30);
    assert_eq!(COMMENTS_PER_PAGE, 10);
}

#[test]
fn a_set_of_125_items_has_five_pages_of_thirty() {
    let floors: Vec<u32> = (1..=125).collect();
    let (page, pages) = paginate(&floors, 5, 30).unwrap();
    assert_eq!(pages, 5);
    assert_eq!(page, &[121, 122, 123, 124, 125]);
    let (page, pages) = paginate(&floors, 4, 30).unwrap();
    assert_eq!(pages, 5);
    assert_eq!(page.len(), 30);
    assert_eq!(page[0], 91);
    assert_eq!(page[29], 120);
}

#[test]
fn the_page_after_the_last_is_out_of_range() {
    let items: Vec<u32> = (1..=125).collect();
    assert_eq!(paginate(&items, 6, 30), Err(OutOfRange));
    assert_eq!(paginate(&items, u32::MAX, 30), Err(OutOfRange));
    let one: Vec<u32> = vec![7];
    assert_eq!(paginate(&one, 2, 50), Err(OutOfRange));
}

#[test]
fn an_empty_set_has_an_empty_first_page_and_no_pages() {
    let none: Vec<u32> = Vec::new();
    let (page, pages) = paginate(&none, 1, 50).unwrap();
    assert!(page.is_empty());
    assert_eq!(pages, 0);
    let (page, pages) = paginate(&none, 3, 10).unwrap();
    assert!(page.is_empty());
    assert_eq!(pages, 0);
}

#[test]
fn a_set_that_fits_on_one_page_is_that_page() {
    let items: Vec<u32> = (1..=30).collect();
    let (page, pages) = paginate(&items, 1, 30).unwrap();
    assert_eq!(pages, 1);
    assert_eq!(page, &items[..]);
    let fewer: Vec<u32> = (1..=7).collect();
    let (page, pages) = paginate(&fewer, 1, 10).unwrap();
    assert_eq!(pages, 1);
    assert_eq!(page, &fewer[..]);
}

#[test]
fn the_page_count_rounds_up() {
    for (len, size, expected) in [
        (1usize, 50usize, 1usize),
        (50, 50, 1),
        (51, 50, 2),
        (100, 50, 2),
        (101, 50, 3),
        (10, 10, 1),
        (11, 10, 2),
        (29, 30, 1),
        (31, 30, 2),
        (7, 1, 7),
    ] {
        let items: Vec<usize> = (0..len).collect();
        let (_, pages) = paginate(&items, 1, size).unwrap();
        assert_eq!(pages, expected, "{} items in pages of {}", len, size);
    }
}

#[test]
fn all_pages_in_order_give_back_the_set() {
    for len in [0usize, 1, 9, 10, 11, 99, 100, 101, 125] {
        let items: Vec<usize> = (0..len).collect();
        let (_, pages) = paginate(&items, 1, 10).unwrap();
        let mut joined: Vec<usize> = Vec::new();
        for page in 1..=pages {
            let (slice, total) = paginate(&items, page as u32, 10).unwrap();
            assert_eq!(total, pages);
            assert!(!slice.is_empty());
            assert!(slice.len() <= 10);
            joined.extend_from_slice(slice);
        }
        assert_eq!(joined, items);
    }
}

#[test]
fn paginating_twice_gives_the_same_page() {
    let items: Vec<u32> = (0..77).collect();
    for page in 1..=4 {
        assert_eq!(paginate(&items, page, 30), paginate(&items, page, 30));
    }
}

#[test]
fn a_window_past_the_end_is_empty() {
    let items: Vec<u32> = (0..120).collect();
    assert_eq!(window(&items, 1, 50), &items[0..50]);
    assert_eq!(window(&items, 2, 50), &items[50..100]);
    assert_eq!(window(&items, 3, 50), &items[100..120]);
    assert!(window(&items, 4, 50).is_empty());
    assert!(window(&items, u32::MAX, 50).is_empty());
    assert!(window(&items, u32::MAX, usize::MAX).is_empty());
}

#[test]
fn page_bounds_are_clamped_to_the_length() {
    assert_eq!(page_bounds(125, 1, 30), (0, 30));
    assert_eq!(page_bounds(125, 5, 30), (120, 125));
    assert_eq!(page_bounds(125, 6, 30), (125, 125));
    assert_eq!(page_bounds(0, 1, 30), (0, 0));
    assert_eq!(page_bounds(usize::MAX, 2, usize::MAX), (usize::MAX, usize::MAX));
    assert_eq!(page_bounds(usize::MAX, 1, usize::MAX), (0, usize::MAX));
}
