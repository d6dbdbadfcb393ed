use hledger_clear::ledger::entry_for;
use hledger_clear::resolver::{Decision, MATCHED_QUESTION, UNMATCHED_QUESTION};
use hledger_clear::session::Session;
use hledger_clear::statement::{Row, StatementError};

const LEDGER: &str = "
2025-01-01 Groceries
    Expenses:Food          $50.00
    Assets:Bank           -$50.00

2025-01-02 Rent
    Expenses:Rent         $1000.00
    Assets:Bank          -$1000.00

";

const STATEMENT: &str = "
Date,Description,Amount
2025-01-01,Groceries,$50.00
2025-01-02,Rent,$1000.00

";

fn owned(parts: &[&str]) -> Vec<String> {
    parts.iter().map(|part| part.to_string()).collect()
}

fn row(date: &str, description: &str, amount: &str) -> Row {
    Row {
        date: date.to_string(),
        description: description.to_string(),
        amount: amount.to_string(),
    }
}

fn groceries_ledger() -> Vec<String> {
    owned(&[
        "2025-01-01 Groceries",
        "    Expenses:Food          $50.00",
        "    Assets:Bank           -$50.00",
    ])
}

/// The option that starts with `start`.
fn option_from(session: &Session, start: &str) -> String {
    let prompt = session.prompt().unwrap();
    prompt.options.into_iter().find(|option| option.starts_with(start)).unwrap()
}

#[test]
fn prompt_for_a_row_with_a_candidate() {
    let session = Session::new(groceries_ledger(), vec![row("2025-01-01", "groceries", "50.00")]);
    let prompt = session.prompt().unwrap();
    assert_eq!(prompt.row, row("2025-01-01", "groceries", "50.00"));
    assert_eq!(prompt.question, MATCHED_QUESTION);
    assert_eq!(prompt.question, "Match a transaction:");
    assert_eq!(prompt.candidates.len(), 1);
    assert_eq!(prompt.candidates[0].index, 0);
    assert_eq!(prompt.options, vec![groceries_ledger().join("\n"), "Ignore this line".to_string()]);
}

#[test]
fn prompt_for_a_row_without_a_candidate() {
    let session = Session::new(groceries_ledger(), vec![row("2025-01-02", "rent", "1000.00")]);
    let prompt = session.prompt().unwrap();
    assert_eq!(prompt.question, UNMATCHED_QUESTION);
    assert_eq!(prompt.question, "What would you like to do?");
    assert!(prompt.candidates.is_empty());
    assert_eq!(prompt.options, owned(&["Ignore", "Add Stock Expense Item", "Exit"]));
}

#[test]
fn clearing_the_groceries_line() {
    let mut session =
        Session::new(groceries_ledger(), vec![row("2025-01-01", "groceries", "50.00")]);
    let chosen = option_from(&session, "2025-01-01");
    assert_eq!(session.answer(Some(&chosen)), Some(Decision::Clear { index: 0 }));
    assert_eq!(session.lines()[0], "* 2025-01-01 Groceries");
    assert_eq!(&session.lines()[1..], &groceries_ledger()[1..]);
    assert!(session.is_finished());
    assert_eq!(
        session.output(),
        "* 2025-01-01 Groceries\n    Expenses:Food          $50.00\n    Assets:Bank           -$50.00"
    );
}

#[test]
fn ignoring_leaves_the_ledger_untouched() {
    let rows = vec![row("2025-01-01", "groceries", "50.00"), row("2025-01-02", "rent", "1000.00")];
    let mut session = Session::new(groceries_ledger(), rows);
    assert_eq!(session.answer(Some("Ignore this line")), Some(Decision::Skip));
    assert_eq!(session.answer(Some("Ignore")), Some(Decision::Ignore));
    assert!(session.is_finished());
    assert_eq!(session.lines(), &groceries_ledger());
}

#[test]
fn unreadable_answers_leave_the_ledger_untouched() {
    let rows = vec![row("2025-01-01", "groceries", "50.00"), row("2025-01-02", "rent", "1000.00")];
    let mut session = Session::new(groceries_ledger(), rows);
    assert_eq!(session.answer(None), Some(Decision::Skip));
    assert_eq!(session.answer(None), Some(Decision::Ignore));
    assert_eq!(session.lines(), &groceries_ledger());
    assert_eq!(session.answer(None), None);
}

#[test]
fn adding_an_entry_for_an_unmatched_row() {
    let rent = row("2025-01-02", "rent", "1000.00");
    let mut session = Session::new(groceries_ledger(), vec![rent.clone()]);
    assert_eq!(session.answer(Some("Add Stock Expense Item")), Some(Decision::AddEntry));
    assert_eq!(session.lines().len(), 4);
    assert_eq!(&session.lines()[..3], &groceries_ledger()[..]);
    assert_eq!(session.lines()[3], entry_for(&rent));
    assert_eq!(
        session.lines()[3],
        "2025-01-02 rent\n    Expenses:Miscellaneous          $1000.00\n    Assets:Bank                    -$1000.00"
    );
}

#[test]
fn exit_ends_the_session_before_the_remaining_rows() {
    let rows = vec![row("2025-01-02", "rent", "1000.00"), row("2025-01-01", "groceries", "50.00")];
    let mut session = Session::new(groceries_ledger(), rows);
    assert!(!session.is_finished());
    assert_eq!(session.answer(Some("Exit")), Some(Decision::Exit));
    assert!(session.is_finished());
    assert!(session.prompt().is_none());
    assert_eq!(session.answer(Some("Add Stock Expense Item")), None);
    assert_eq!(session.lines(), &groceries_ledger());
    assert_eq!(session.output(), groceries_ledger().join("\n"));
}

#[test]
fn added_entries_are_no_candidates_later() {
    let rent = row("2025-01-02", "rent", "1000.00");
    let mut session = Session::new(groceries_ledger(), vec![rent.clone(), rent.clone()]);
    assert_eq!(session.answer(Some("Add Stock Expense Item")), Some(Decision::AddEntry));
    let prompt = session.prompt().unwrap();
    assert!(prompt.candidates.is_empty());
    assert_eq!(session.answer(Some("Add Stock Expense Item")), Some(Decision::AddEntry));
    assert_eq!(session.lines().len(), 5);
    assert_eq!(session.lines()[3], session.lines()[4]);
}

#[test]
fn a_session_without_rows_is_finished() {
    let mut session = Session::new(groceries_ledger(), vec![]);
    assert!(session.is_finished());
    assert!(session.prompt().is_none());
    assert_eq!(session.answer(Some("Exit")), None);
    assert_eq!(session.output(), groceries_ledger().join("\n"));
}

#[test]
fn cleared_lines_of_the_loaded_ledger_are_no_candidates() {
    let lines = owned(&[
        "* 2025-01-01 Groceries",
        "    Expenses:Food          $50.00",
        "    Assets:Bank           -$50.00",
    ]);
    let session = Session::new(lines, vec![row("2025-01-01", "groceries", "50.00")]);
    assert!(session.prompt().unwrap().candidates.is_empty());
}

#[test]
fn a_candidate_behind_a_cleared_line_is_cleared_at_its_own_line() {
    let lines = owned(&[
        "* 2025-01-01 Groceries",
        "    Expenses:Food          $50.00",
        "    Assets:Bank           -$50.00",
        "2025-01-02 Rent",
        "    Expenses:Rent         $1000.00",
        "    Assets:Bank          -$1000.00",
    ]);
    let mut session = Session::new(lines.clone(), vec![row("2025-01-02", "rent", "1000.00")]);
    let chosen = option_from(&session, "2025-01-02");
    assert_eq!(session.answer(Some(&chosen)), Some(Decision::Clear { index: 3 }));
    assert_eq!(session.lines()[3], "* 2025-01-02 Rent");
    assert_eq!(session.lines()[0], lines[0]);
}

#[test]
fn replay_gives_the_answers_in_turn() {
    let rows = vec![
        row("2025-01-03", "coffee", "4.50"),
        row("2025-01-01", "groceries", "50.00"),
        row("2025-01-04", "books", "20.00"),
        row("2025-01-05", "tea", "3.00"),
    ];
    let mut session = Session::new(groceries_ledger(), rows.clone());
    let answers = vec![
        Some("Add Stock Expense Item".to_string()),
        Some(groceries_ledger().join("\n")),
        None,
        Some("Add Stock Expense Item".to_string()),
        Some("Exit".to_string()),
    ];
    session.replay(&answers);
    assert!(session.is_finished());
    let mut expected = groceries_ledger();
    expected[0] = "* 2025-01-01 Groceries".to_string();
    expected.push(entry_for(&rows[0]));
    expected.push(entry_for(&rows[3]));
    assert_eq!(session.lines(), &expected);
}

#[test]
fn load_reads_the_ledger_and_the_statement() {
    let session = Session::load(LEDGER, STATEMENT).unwrap();
    assert_eq!(session.lines().len(), 9);
    assert_eq!(session.lines()[1], "2025-01-01 Groceries");
    let prompt = session.prompt().unwrap();
    assert_eq!(prompt.row, row("2025-01-01", "groceries", "50.00"));
    let indices: Vec<usize> = prompt.candidates.iter().map(|candidate| candidate.index).collect();
    assert_eq!(indices, vec![0, 1]);
}

#[test]
fn load_fails_where_the_statement_does() {
    let result = Session::load(LEDGER, "Date,Description\n2025-01-01,Groceries\n");
    assert_eq!(result.err(), Some(StatementError::MissingField { record: 0 }));
}

#[test]
fn test_process_files() {
    let mut session = Session::load(LEDGER, STATEMENT).unwrap();
    while !session.is_finished() {
        let date = session.prompt().unwrap().row.date;
        let chosen = option_from(&session, &date);
        assert!(matches!(session.answer(Some(&chosen)), Some(Decision::Clear { .. })));
    }
    let updated_ledger = session.output();
    assert!(updated_ledger.contains("* 2025-01-01 Groceries"));
    assert!(updated_ledger.contains("* 2025-01-02 Rent"));
}

#[test]
fn output_keeps_lines_in_order_and_adds_entries_at_the_end() {
    let mut session = Session::load(LEDGER, "d,e,f\n2025-02-01,Taxi,$12.00\n").unwrap();
    assert_eq!(session.answer(Some("Add Stock Expense Item")), Some(Decision::AddEntry));
    let expected = format!(
        "{}\n2025-02-01 taxi\n    Expenses:Miscellaneous          $12.00\n    Assets:Bank                    -$12.00",
        LEDGER.lines().collect::<Vec<_>>().join("\n")
    );
    assert_eq!(session.output(), expected);
}
