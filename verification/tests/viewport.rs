use book::pagination::Pagination;

fn numbered_lines(n: usize) -> Vec<String> {
    (1..=n).map(|i| format!("line {}", i)).collect()
}

#[test]
fn twenty_five_lines_scrolled_through_a_ten_row_window() {
    let lines = numbered_lines(25);
    let size = (80u16, 10u16);
    let mut p = Pagination::new();

    let rows = p.draw(&lines, size);
    assert_eq!(rows.len(), 10);
    assert_eq!(rows[0], "line 1");
    assert_eq!(rows[9], "line 10");

    for _ in 0..20 {
        p.line_down(lines.len(), size);
    }
    assert_eq!(p.current_start_line, 15);
    let rows = p.draw(&lines, size);
    assert_eq!(rows.len(), 10);
    assert_eq!(rows[0], "line 16");
    assert_eq!(rows[9], "line 25");

    for _ in 0..30 {
        p.line_up();
    }
    assert_eq!(p.current_start_line, 0);
}

#[test]
fn page_down_matches_sequential_line_downs() {
    let lines = numbered_lines(40);
    let size = (80u16, 10u16);
    let mut by_page = Pagination::new();
    let mut by_line = Pagination::new();

    by_page.page_down(7, lines.len(), size);
    for _ in 0..7 {
        by_line.line_down(lines.len(), size);
    }
    assert_eq!(by_page.current_start_line, by_line.current_start_line);

    by_page.page_down(100, lines.len(), size);
    for _ in 0..100 {
        by_line.line_down(lines.len(), size);
    }
    assert_eq!(by_page.current_start_line, by_line.current_start_line);
    assert_eq!(by_page.current_start_line, 30);

    by_page.page_up(5);
    for _ in 0..5 {
        by_line.line_up();
    }
    assert_eq!(by_page.current_start_line, by_line.current_start_line);
    assert_eq!(by_page.current_start_line, 25);
}

#[test]
fn short_content_never_scrolls_down() {
    let lines = numbered_lines(5);
    let size = (80u16, 10u16);
    let mut p = Pagination::new();
    for _ in 0..9 {
        p.line_down(lines.len(), size);
    }
    assert_eq!(p.current_start_line, 0);
}

#[test]
fn column_slicing_lengths() {
    let lines = vec![String::from("abcdefghij")];
    let size = (4u16, 5u16);
    let mut p = Pagination::new();

    let rows = p.draw(&lines, size);
    assert_eq!(rows, vec!["abcd"]);

    for _ in 0..7 {
        p.move_right(10, size);
    }
    assert_eq!(p.current_start_column, 6);
    let rows = p.draw(&lines, size);
    assert_eq!(rows, vec!["ghij"]);

    p.current_start_column = 9;
    let rows = p.draw(&lines, size);
    assert_eq!(rows, vec!["j"]);

    p.current_start_column = 10;
    let rows = p.draw(&lines, size);
    assert_eq!(rows, vec![""]);

    p.current_start_column = 25;
    let rows = p.draw(&lines, size);
    assert_eq!(rows, vec![""]);
}

#[test]
fn numbering_gutter_shows_original_line_numbers() {
    let lines = numbered_lines(25);
    let size = (80u16, 5u16);
    let mut p = Pagination::new();
    p.toggle_line_numbers();
    for _ in 0..12 {
        p.line_down(lines.len(), size);
    }
    let rows = p.draw(&lines, size);
    assert_eq!(rows[0], "  13 | line 13");
    assert_eq!(rows[4], "  17 | line 17");
}

#[test]
fn numbering_gutter_is_stable_under_horizontal_scroll() {
    let lines = vec![String::from("abcdefghijklmnop"), String::from("qrstuvwxyz")];
    let size = (11u16, 5u16);
    let mut p = Pagination::new();
    p.toggle_line_numbers();

    let before = p.draw(&lines, size);
    p.move_right(16, size);
    p.move_right(16, size);
    let after = p.draw(&lines, size);
    for (b, a) in before.iter().zip(after.iter()) {
        assert_eq!(&b[..7], &a[..7]);
    }
    assert_eq!(after[0], "   1 | cdef");
    assert_eq!(after[1], "   2 | stuv");
}

#[test]
fn numbering_consumes_gutter_columns() {
    let lines = vec![String::from("abcdefghijklmnop")];
    let size = (10u16, 5u16);
    let mut p = Pagination::new();
    let plain = p.draw(&lines, size);
    assert_eq!(plain, vec!["abcdefghij"]);
    p.toggle_line_numbers();
    let numbered = p.draw(&lines, size);
    assert_eq!(numbered, vec!["   1 | abc"]);
}

#[test]
fn move_right_clamps_against_line_width() {
    let size = (8u16, 5u16);
    let mut p = Pagination::new();
    for _ in 0..50 {
        p.move_right(12, size);
    }
    assert_eq!(p.current_start_column, 4);
    p.toggle_line_numbers();
    for _ in 0..50 {
        p.move_right(12, size);
    }
    assert_eq!(p.current_start_column, 11);
    for _ in 0..50 {
        p.move_left();
    }
    assert_eq!(p.current_start_column, 0);
}

#[test]
fn start_line_beyond_content_draws_nothing() {
    let lines = numbered_lines(3);
    let size = (80u16, 10u16);
    let mut p = Pagination::new();
    p.current_start_line = 7;
    let rows = p.draw(&lines, size);
    assert!(rows.is_empty());
}

#[test]
fn empty_content_draws_nothing() {
    let lines: Vec<String> = Vec::new();
    let size = (80u16, 10u16);
    let p = Pagination::new();
    assert!(p.draw(&lines, size).is_empty());
}
