use trophy_bot::util::{holder_line, mention, paginate, COLOR_ERROR, COLOR_MAIN, COLOR_SUCCESS};

#[test]
fn embed_colors_match_legacy_palette() {
    assert_eq!(COLOR_MAIN, 0x0096FF);
    assert_eq!(COLOR_ERROR, 0xE02D44);
    assert_eq!(COLOR_SUCCESS, 0x2ECC71);
}

#[test]
fn paginate_empty_list_is_single_empty_page() {
    let items: [i32; 0] = [];
    let (slice, page, last) = paginate(&items, 10, 1);
    assert!(slice.is_empty());
    assert_eq!((page, last), (1, 1));
}

#[test]
fn paginate_clamps_out_of_range_pages() {
    let items: Vec<i32> = (0..25).collect();
    let (slice, page, last) = paginate(&items, 10, -5);
    assert_eq!((slice.len(), page, last), (10, 1, 3));
    let (slice, page, last) = paginate(&items, 10, 99);
    assert_eq!((slice.len(), page, last), (5, 3, 3));
}

#[test]
fn paginate_slices_the_requested_page() {
    let items: Vec<i32> = (0..25).collect();
    let (slice, page, last) = paginate(&items, 10, 2);
    assert_eq!(slice, &items[10..20]);
    assert_eq!((page, last), (2, 3));
}

#[test]
fn paginate_supports_non_default_page_sizes() {
    let items: Vec<i32> = (0..12).collect();
    let (slice, page, last) = paginate(&items, 5, 3);
    assert_eq!(slice, &items[10..12]);
    assert_eq!((page, last), (3, 3));
}

#[test]
fn mention_renders_any_id() {
    assert_eq!(mention(42), "<@42>");
    assert_eq!(mention(-7), "<@-7>");
    assert_eq!(mention(i64::MIN), "<@-9223372036854775808>");
}

#[test]
fn holder_line_shows_mention_and_time() {
    assert_eq!(holder_line(42, "2024-05-01 12:30"), "<@42> \u{2014} 2024-05-01 12:30");
}
