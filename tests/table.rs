use memory_usage::matching::MatchedRow;
use memory_usage::table::{column_widths, render, rows_fit};

fn row(pid: &str, name: &str, mem: &str, virt: &str) -> MatchedRow {
    MatchedRow {
        pid: pid.to_string(),
        name: name.to_string(),
        match_offset: 0,
        memory: mem.to_string(),
        virtual_memory: virt.to_string(),
    }
}

#[test]
fn empty_table_is_the_frame() {
    let lines = render(&Vec::new());
    assert_eq!(
        lines,
        vec![
            "\u{250C}\u{2500}\u{2500}\u{2500}\u{2500}\u{2500}\u{252C}\u{2500}\u{2500}\u{2500}\u{2500}\u{2500}\u{2500}\u{252C}\u{2500}\u{2500}\u{2500}\u{2500}\u{2500}\u{2500}\u{2500}\u{2500}\u{252C}\u{2500}\u{2500}\u{2500}\u{2500}\u{2500}\u{2500}\u{2500}\u{2500}\u{2500}\u{2500}\u{2500}\u{2500}\u{2500}\u{2500}\u{2500}\u{2500}\u{2510}".to_string(),
            "\u{2502} Pid \u{2502} Name \u{2502} Memory \u{2502} Virtual memory \u{2502}".to_string(),
            "\u{251C}\u{2500}\u{2500}\u{2500}\u{2500}\u{2500}\u{253C}\u{2500}\u{2500}\u{2500}\u{2500}\u{2500}\u{2500}\u{253C}\u{2500}\u{2500}\u{2500}\u{2500}\u{2500}\u{2500}\u{2500}\u{2500}\u{253C}\u{2500}\u{2500}\u{2500}\u{2500}\u{2500}\u{2500}\u{2500}\u{2500}\u{2500}\u{2500}\u{2500}\u{2500}\u{2500}\u{2500}\u{2500}\u{2500}\u{2524}".to_string(),
            "\u{2514}\u{2500}\u{2500}\u{2500}\u{2500}\u{2500}\u{2534}\u{2500}\u{2500}\u{2500}\u{2500}\u{2500}\u{2500}\u{2534}\u{2500}\u{2500}\u{2500}\u{2500}\u{2500}\u{2500}\u{2500}\u{2500}\u{2534}\u{2500}\u{2500}\u{2500}\u{2500}\u{2500}\u{2500}\u{2500}\u{2500}\u{2500}\u{2500}\u{2500}\u{2500}\u{2500}\u{2500}\u{2500}\u{2500}\u{2518}".to_string(),
        ]
    );
}

#[test]
fn widths_come_from_labels_when_cells_are_short() {
    assert_eq!(column_widths(&Vec::new()), vec![5, 6, 8, 16]);
    assert_eq!(column_widths(&vec![row("1", "sh", "0.00 B", "0.00 B")]), vec![5, 6, 8, 16]);
}

#[test]
fn widths_grow_with_cells() {
    let rows = vec![
        row("123456", "a-long-name", "1023.99 KiB", "0.00 B"),
        row("1", "b", "1.00 B", "1023.99 PiB and more"),
    ];
    assert_eq!(column_widths(&rows), vec![8, 13, 13, 22]);
}

#[test]
fn n_rows_give_n_plus_four_lines_of_one_width() {
    let rows = vec![
        row("1", "bash", "5.00 MiB", "8.00 KiB"),
        row("22", "rebash-helper", "1.95 MiB", "4.00 KiB"),
        row("333", "x", "0.00 B", "0.00 B"),
    ];
    let lines = render(&rows);
    assert_eq!(lines.len(), 7);
    let w = column_widths(&rows);
    let total: usize = w.iter().sum::<usize>() + 5;
    for l in &lines {
        assert_eq!(l.chars().count(), total);
    }
}

#[test]
fn cells_are_centred_with_the_odd_space_on_the_right() {
    let rows = vec![row("1", "ab", "0.00 B", "0.00 B")];
    let lines = render(&rows);
    assert_eq!(
        lines[3],
        "\u{2502}  1  \u{2502}  ab  \u{2502} 0.00 B \u{2502}     0.00 B     \u{2502}"
    );
    let rows = vec![row("12", "abc", "0.00 B", "0.00 B")];
    let lines = render(&rows);
    assert_eq!(
        lines[3],
        "\u{2502} 12  \u{2502} abc  \u{2502} 0.00 B \u{2502}     0.00 B     \u{2502}"
    );
}

#[test]
fn widths_count_characters_not_bytes() {
    let rows = vec![row("1", "\u{e9}\u{e9}\u{e9}\u{e9}\u{e9}\u{e9}", "0.00 B", "0.00 B")];
    assert_eq!(column_widths(&rows), vec![5, 8, 8, 16]);
    let lines = render(&rows);
    let width = lines[0].chars().count();
    for l in &lines {
        assert_eq!(l.chars().count(), width);
    }
}

#[test]
fn ordinary_rows_fit() {
    assert!(rows_fit(&Vec::new()));
    assert!(rows_fit(&vec![row("1", "bash", "5.00 MiB", "8.00 KiB")]));
}
