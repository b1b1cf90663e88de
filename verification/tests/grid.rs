use meatshell::grid::{
    cell_prefix, char_after_cell_end, char_at_cell_start, char_cells, compute_find_matches,
};

fn prefix(s: &str) -> Vec<usize> {
    let chars: Vec<char> = s.chars().collect();
    cell_prefix(&chars)
}

fn matches(rows: &[&str], query: &str) -> Vec<(i32, i32, i32)> {
    let rows: Vec<String> = rows.iter().map(|s| s.to_string()).collect();
    compute_find_matches(&rows, query).iter().map(|m| (m.row, m.col, m.len)).collect()
}

#[test]
fn widths_of_characters() {
    assert_eq!(char_cells('a'), 1);
    assert_eq!(char_cells('中'), 2);
    assert_eq!(char_cells('\u{301}'), 0);
    assert_eq!(char_cells('\u{7}'), 0);
    assert_eq!(char_cells('\u{9f}'), 0);
    assert_eq!(char_cells('\u{17d8}'), 3);
    for n in 0x20u32..0x7f {
        assert_eq!(char_cells(char::from_u32(n).unwrap()), 1);
    }
    for n in 0..0x110000u32 {
        if let Some(c) = char::from_u32(n) {
            assert!(char_cells(c) <= 3);
        }
    }
}

#[test]
fn prefix_of_a_line() {
    assert_eq!(prefix(""), vec![0]);
    assert_eq!(prefix("abc"), vec![0, 1, 2, 3]);
    assert_eq!(prefix("a中b"), vec![0, 1, 3, 4]);
    // A mark shares the column of its base.
    assert_eq!(prefix("e\u{301}x"), vec![0, 0, 1, 2]);
    assert_eq!(prefix("中\u{301}\u{302}x"), vec![0, 0, 0, 2, 3]);
    assert_eq!(prefix("ae\u{301}"), vec![0, 1, 1, 2]);
}

#[test]
fn columns_back_to_characters() {
    let p = prefix("a中b");
    assert_eq!(char_at_cell_start(&p, 0), 0);
    assert_eq!(char_at_cell_start(&p, 1), 1);
    assert_eq!(char_at_cell_start(&p, 2), 1);
    assert_eq!(char_at_cell_start(&p, 3), 2);
    assert_eq!(char_at_cell_start(&p, 4), 3);
    assert_eq!(char_at_cell_start(&p, 99), 3);
    assert_eq!(char_after_cell_end(&p, 0), 1);
    assert_eq!(char_after_cell_end(&p, 1), 2);
    assert_eq!(char_after_cell_end(&p, 2), 2);
    assert_eq!(char_after_cell_end(&p, 3), 3);
    assert_eq!(char_after_cell_end(&p, 99), 3);
    assert_eq!(char_at_cell_start(&[], 0), 0);
    assert_eq!(char_after_cell_end(&[], 0), 0);
    assert_eq!(char_at_cell_start(&[0], 0), 0);
}

#[test]
fn marks_stay_on_their_base() {
    let p = prefix("e\u{301}x");
    assert_eq!(char_at_cell_start(&p, 0), 0);
    assert_eq!(char_after_cell_end(&p, 0), 2);
    assert_eq!(char_at_cell_start(&p, 1), 2);
    assert_eq!(char_after_cell_end(&p, 1), 3);
}

#[test]
fn ascii_columns_are_indices() {
    let p = prefix("hello world");
    for i in 0..11 {
        assert_eq!(p[i], i);
        assert_eq!(char_at_cell_start(&p, i), i);
        assert_eq!(char_after_cell_end(&p, i), i + 1);
    }
}

#[test]
fn finding_text() {
    assert_eq!(matches(&["abc"], ""), vec![]);
    assert_eq!(matches(&["abcABC", "xabc"], "aBc"), vec![(0, 0, 3), (0, 3, 3), (1, 1, 3)]);
    assert_eq!(matches(&["aaaa"], "aa"), vec![(0, 0, 2), (0, 2, 2)]);
    assert_eq!(matches(&["aaa"], "aa"), vec![(0, 0, 2)]);
    assert_eq!(matches(&["ab"], "abc"), vec![]);
    assert_eq!(matches(&[], "a"), vec![]);
}

#[test]
fn highlights_line_up_with_wide_glyphs() {
    assert_eq!(matches(&["中文ab"], "ab"), vec![(0, 4, 2)]);
    assert_eq!(matches(&["a中文"], "中文"), vec![(0, 1, 4)]);
    // A base is highlighted in full without its mark, and a mark with its base's cell.
    assert_eq!(matches(&["xe\u{301}y"], "e"), vec![(0, 1, 1)]);
    assert_eq!(matches(&["xe\u{301}y"], "e\u{301}"), vec![(0, 1, 1)]);
    assert_eq!(matches(&["xe\u{301}y"], "\u{301}"), vec![(0, 1, 1)]);
}

#[test]
fn only_ascii_letters_fold() {
    assert_eq!(matches(&["ÄB"], "äb"), vec![]);
    assert_eq!(matches(&["ÄB"], "Äb"), vec![(0, 0, 2)]);
}
