use book::parsers::pdf::PdfParser;
use book::parsers::txt::TxtParser;

#[test]
fn txt_render_splits_and_trims_lines() {
    let mut p = TxtParser::new((80, 10));
    let bytes = b"  alpha beta \r\ngamma\n\n\tdelta\n".to_vec();
    let paginate = p.render(&bytes, (80, 10));
    assert!(!paginate);
    assert_eq!(p.lines, vec!["alpha beta", "gamma", "", "delta"]);
    assert_eq!(p.lines_wrapped, vec!["alpha beta", "gamma", "", "delta"]);
}

#[test]
fn txt_render_decodes_invalid_utf8_lossily() {
    let mut p = TxtParser::new((80, 10));
    let bytes = vec![b'c', b'a', b'f', 0xE9, b'!'];
    p.render(&bytes, (80, 10));
    assert_eq!(p.lines, vec!["caf\u{FFFD}!"]);
}

#[test]
fn txt_render_trims_unicode_whitespace() {
    let mut p = TxtParser::new((80, 10));
    let bytes = "\u{a0}alpha\u{2003}\ngamma\u{a0}\n".as_bytes().to_vec();
    p.render(&bytes, (80, 10));
    assert_eq!(p.lines, vec!["alpha", "gamma"]);
}

#[test]
fn txt_render_reports_when_paging_is_needed() {
    let mut p = TxtParser::new((80, 3));
    let bytes = b"one\ntwo\nthree\nfour\n".to_vec();
    assert!(p.render(&bytes, (80, 3)));
    let mut q = TxtParser::new((80, 4));
    assert!(!q.render(&bytes, (80, 4)));
}

#[test]
fn txt_render_wraps_against_the_terminal_width() {
    let mut p = TxtParser::new((10, 5));
    let bytes = b"This is a long line that needs folding\n".to_vec();
    p.render(&bytes, (10, 5));
    assert_eq!(p.lines.len(), 1);
    assert_eq!(p.lines_wrapped, vec!["This is a", "long line", "that needs", "folding"]);
}

#[test]
fn txt_draw_follows_the_active_source_and_scroll_state() {
    let mut p = TxtParser::new((6, 2));
    let bytes = b"alpha beta gamma\nsecond\n".to_vec();
    p.render(&bytes, (6, 2));
    assert_eq!(p.draw(), vec!["alpha ", "second"]);

    p.toggle_line_wrapping();
    assert_eq!(p.draw(), vec!["alpha", "beta"]);
    p.line_down();
    assert_eq!(p.draw(), vec!["beta", "gamma"]);
    p.line_down();
    p.line_down();
    assert_eq!(p.draw(), vec!["gamma", "second"]);

    p.toggle_line_wrapping();
    p.line_up();
    p.line_up();
    assert_eq!(p.refresh(), vec!["alpha ", "second"]);
}

#[test]
fn txt_horizontal_scroll_and_numbering() {
    let mut p = TxtParser::new((12, 2));
    let bytes = b"abcdefghijklmnop\nqrs\n".to_vec();
    p.render(&bytes, (12, 2));
    p.move_right();
    p.move_right();
    assert_eq!(p.draw(), vec!["cdefghijklmn", "s"]);
    p.move_left();
    p.move_left();
    p.move_left();
    p.toggle_line_numbers();
    assert_eq!(p.draw(), vec!["   1 | abcde", "   2 | qrs"]);
}

#[test]
fn txt_page_down_matches_single_steps() {
    let bytes: Vec<u8> = (1..=30).map(|i| format!("line {}\n", i)).collect::<String>().into_bytes();
    let mut by_page = TxtParser::new((80, 10));
    by_page.render(&bytes, (80, 10));
    let mut by_line = TxtParser::new((80, 10));
    by_line.render(&bytes, (80, 10));

    by_page.page_down(8);
    for _ in 0..8 {
        by_line.line_down();
    }
    assert_eq!(by_page.draw(), by_line.draw());

    by_page.page_up(3);
    for _ in 0..3 {
        by_line.line_up();
    }
    assert_eq!(by_page.draw(), by_line.draw());
}

fn minimal_pdf(text: &str) -> Vec<u8> {
    let mut pdf: Vec<u8> = Vec::new();
    pdf.extend_from_slice(b"%PDF-1.4\n");
    let content = format!("BT /F1 12 Tf 72 720 Td ({}) Tj ET", text);
    let objects = vec![
        String::from("1 0 obj\n<< /Type /Catalog /Pages 2 0 R >>\nendobj\n"),
        String::from("2 0 obj\n<< /Type /Pages /Kids [3 0 R] /Count 1 >>\nendobj\n"),
        String::from(
            "3 0 obj\n<< /Type /Page /Parent 2 0 R /MediaBox [0 0 612 792] /Contents 4 0 R \
             /Resources << /Font << /F1 5 0 R >> >> >>\nendobj\n",
        ),
        format!(
            "4 0 obj\n<< /Length {} >>\nstream\n{}\nendstream\nendobj\n",
            content.len(),
            content
        ),
        String::from("5 0 obj\n<< /Type /Font /Subtype /Type1 /BaseFont /Helvetica >>\nendobj\n"),
    ];
    let mut offsets: Vec<usize> = Vec::new();
    for o in &objects {
        offsets.push(pdf.len());
        pdf.extend_from_slice(o.as_bytes());
    }
    let xref_offset = pdf.len();
    let mut tail = String::from("xref\n0 6\n0000000000 65535 f \n");
    for off in &offsets {
        tail.push_str(&format!("{:010} 00000 n \n", off));
    }
    tail.push_str(&format!(
        "trailer\n<< /Size 6 /Root 1 0 R >>\nstartxref\n{}\n%%EOF\n",
        xref_offset
    ));
    pdf.extend_from_slice(tail.as_bytes());
    pdf
}

#[test]
fn pdf_load_text_holds_the_extracted_text() {
    let bytes = minimal_pdf("Hello viewport");
    let text = pdf_extract::extract_text_from_mem(&bytes).expect("extraction failed");
    let mut p = PdfParser::new((80, 10));
    let paginate = p.load_text(&text, (80, 10));
    assert!(!paginate);
    let joined = p.lines.join("\n");
    assert!(joined.contains("Hello viewport"), "extracted text was {:?}", p.lines);
}

#[test]
fn pdf_extraction_rejects_bytes_that_are_no_pdf() {
    let bytes = b"this is not a pdf at all".to_vec();
    assert!(pdf_extract::extract_text_from_mem(&bytes).is_err());
}

#[test]
fn pdf_load_text_replaces_previous_content() {
    let mut p = PdfParser::new((80, 10));
    p.load_text("first text\nwith two lines", (80, 10));
    assert_eq!(p.lines, vec!["first text", "with two lines"]);
    p.load_text("second", (80, 10));
    assert_eq!(p.lines, vec!["second"]);
    assert_eq!(p.lines_wrapped, vec!["second"]);
}

#[test]
fn pdf_load_text_keeps_lines_untrimmed_and_a_bare_final_cr() {
    let mut p = PdfParser::new((80, 10));
    p.load_text("  a \r\nb\r", (80, 10));
    assert_eq!(p.lines, vec!["  a ", "b\r"]);
}

#[test]
fn pdf_navigation_mirrors_the_text_adapter() {
    let bytes = minimal_pdf("alpha beta gamma delta");
    let text = pdf_extract::extract_text_from_mem(&bytes).expect("extraction failed");
    let mut p = PdfParser::new((7, 2));
    p.load_text(&text, (7, 2));
    p.toggle_line_wrapping();
    let rows = p.draw();
    assert!(rows.iter().all(|l| l.chars().count() <= 7), "rows were {:?}", rows);
}
