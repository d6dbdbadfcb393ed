use hledger_clear::ledger::{
    append_entry, block_at, entry_for, has_mark, mark_cleared, open_blocks, render, Block,
};
use hledger_clear::statement::Row;

fn owned(parts: &[&str]) -> Vec<String> {
    parts.iter().map(|part| part.to_string()).collect()
}

fn row(date: &str, description: &str, amount: &str) -> Row {
    Row {
        date: date.to_string(),
        description: description.to_string(),
        amount: amount.to_string(),
    }
}

fn sample_ledger() -> Vec<String> {
    owned(&[
        "2025-01-01 Groceries",
        "    Expenses:Food          $50.00",
        "    Assets:Bank           -$50.00",
        "",
        "* 2025-01-02 Rent",
        "    Expenses:Rent         $1000.00",
        "    Assets:Bank          -$1000.00",
    ])
}

#[test]
fn has_mark_looks_at_the_first_character() {
    assert!(has_mark("* 2025-01-02 Rent"));
    assert!(has_mark("*"));
    assert!(!has_mark(" * indented"));
    assert!(!has_mark("2025-01-01 Groceries"));
    assert!(!has_mark(""));
}

#[test]
fn block_at_joins_three_lines() {
    let lines = sample_ledger();
    assert_eq!(
        block_at(&lines, 0),
        "2025-01-01 Groceries\n    Expenses:Food          $50.00\n    Assets:Bank           -$50.00"
    );
    assert_eq!(
        block_at(&lines, 4),
        "* 2025-01-02 Rent\n    Expenses:Rent         $1000.00\n    Assets:Bank          -$1000.00"
    );
}

#[test]
fn open_blocks_lists_uncleared_blocks_by_line_index() {
    let blocks = open_blocks(&sample_ledger());
    let indices: Vec<usize> = blocks.iter().map(|block| block.index).collect();
    assert_eq!(indices, vec![0, 1, 2, 3]);
    assert_eq!(
        blocks[3],
        Block {
            index: 3,
            text: "\n* 2025-01-02 Rent\n    Expenses:Rent         $1000.00".to_string(),
        }
    );
}

#[test]
fn open_blocks_keeps_the_line_index_behind_a_cleared_line() {
    let lines = owned(&["* a", "b", "c", "d"]);
    let blocks = open_blocks(&lines);
    assert_eq!(blocks, vec![Block { index: 1, text: "b\nc\nd".to_string() }]);
}

#[test]
fn open_blocks_needs_three_lines() {
    assert!(open_blocks(&owned(&[])).is_empty());
    assert!(open_blocks(&owned(&["a", "b"])).is_empty());
    assert_eq!(open_blocks(&owned(&["a", "b", "c"])).len(), 1);
}

#[test]
fn mark_cleared_prefixes_the_line() {
    let mut lines = sample_ledger();
    mark_cleared(&mut lines, 0);
    assert_eq!(lines[0], "* 2025-01-01 Groceries");
    assert_eq!(&lines[1..], &sample_ledger()[1..]);
}

#[test]
fn mark_cleared_drops_leading_white_space() {
    let mut lines = sample_ledger();
    mark_cleared(&mut lines, 1);
    assert_eq!(lines[1], "* Expenses:Food          $50.00");
    assert_eq!(lines.len(), 7);
}

#[test]
fn mark_cleared_marks_once_per_call() {
    let mut lines = owned(&["2025-01-01 Groceries"]);
    mark_cleared(&mut lines, 0);
    assert_eq!(lines[0], "* 2025-01-01 Groceries");
    mark_cleared(&mut lines, 0);
    assert_eq!(lines[0], "* * 2025-01-01 Groceries");
    let mut empty = owned(&[""]);
    mark_cleared(&mut empty, 0);
    assert_eq!(empty[0], "* ");
}

#[test]
fn entry_for_writes_a_header_and_two_postings() {
    assert_eq!(
        entry_for(&row("2025-01-03", "coffee", "4.50")),
        "2025-01-03 coffee\n    Expenses:Miscellaneous          $4.50\n    Assets:Bank                    -$4.50"
    );
}

#[test]
fn append_entry_adds_one_element_and_keeps_the_rest() {
    let mut lines = sample_ledger();
    append_entry(&mut lines, &row("2025-01-03", "coffee", "4.50"));
    assert_eq!(lines.len(), 8);
    assert_eq!(&lines[..7], &sample_ledger()[..]);
    assert_eq!(lines[7], entry_for(&row("2025-01-03", "coffee", "4.50")));
    assert_eq!(lines[7].lines().count(), 3);
}

#[test]
fn render_joins_the_buffer_by_line_feeds() {
    assert_eq!(render(&owned(&["a", "b"])), "a\nb");
    assert_eq!(render(&owned(&[])), "");
    let mut lines = owned(&["x"]);
    append_entry(&mut lines, &row("d", "e", "1"));
    assert_eq!(
        render(&lines),
        "x\nd e\n    Expenses:Miscellaneous          $1\n    Assets:Bank                    -$1"
    );
}
