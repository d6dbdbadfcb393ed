//! The reconciliation of a ledger with the rows of a statement, one row at a
//! time.
//!
//! A `Session` holds the ledger buffer and the rows. For the row that is
//! pending it offers a `Prompt`: the question to put to the user and the
//! options to choose from. The caller shows the prompt, by whatever means it
//! has, and hands the chosen option back to `Session::answer`, which changes
//! the buffer accordingly and moves on to the next row.

use crate::ledger::{
    append_entry, blocks_before, blocks_of, cleared, entry_text, mark_cleared, open_blocks,
    render, Block, BlockModel, LINE_BREAK,
};
use crate::matcher::{candidates_of, find_candidates, lemma_candidate_matches};
use crate::resolver::{
    decide, decision_for, first_with_text, lemma_first_in_range, options, options_for,
    question_for, Decision, DecisionModel, Prompt, MATCHED_QUESTION, UNMATCHED_QUESTION,
};
use crate::statement::{
    csv_records, is_statement_of, parse_statement, Row, RowModel, StatementError,
};
use crate::text::{joined, lines_of, split_lines};
use vstd::prelude::*;
use vstd::string::StringExecFns;

verus! {

/// What a `Session` stands for in contracts.
pub struct SessionModel {
    /// The ledger buffer.
    pub lines: Seq<Seq<char>>,
    /// The uncleared blocks of the ledger as it was loaded.
    pub blocks: Seq<BlockModel>,
    /// The rows of the statement.
    pub rows: Seq<RowModel>,
    /// Number of rows that are dealt with.
    pub position: int,
    /// Whether the session was ended before its last row.
    pub stopped: bool,
}

impl SessionModel {
    /// The start of a session.
    pub open spec fn start(lines: Seq<Seq<char>>, rows: Seq<RowModel>) -> SessionModel {
        SessionModel { lines, blocks: blocks_of(lines), rows, position: 0, stopped: false }
    }

    /// Every block starts at a line of the buffer, and the position is
    /// within the rows.
    pub open spec fn wf(self) -> bool {
        &&& 0 <= self.position <= self.rows.len()
        &&& forall|j: int|
            0 <= j < self.blocks.len() ==> 0 <= (#[trigger] self.blocks[j]).index
                < self.lines.len()
    }

    /// Whether no row is pending.
    pub open spec fn finished(self) -> bool {
        self.stopped || self.position >= self.rows.len()
    }

    /// The pending row.
    pub open spec fn row(self) -> RowModel
        recommends
            !self.finished(),
    {
        self.rows[self.position]
    }

    /// The candidates for the pending row.
    pub open spec fn candidates(self) -> Seq<BlockModel>
        recommends
            !self.finished(),
    {
        candidates_of(self.blocks, self.row())
    }

    /// What `selection` leads to for the pending row.
    pub open spec fn decision(self, selection: Option<Seq<char>>) -> DecisionModel
        recommends
            !self.finished(),
    {
        decision_for(self.candidates(), selection)
    }

    /// The session after `selection` is given for the pending row. A
    /// finished session stays as it is.
    pub open spec fn answer(self, selection: Option<Seq<char>>) -> SessionModel {
        if self.finished() {
            self
        } else {
            match self.decision(selection) {
                DecisionModel::AddEntry => SessionModel {
                    lines: self.lines.push(entry_text(self.row())),
                    position: self.position + 1,
                    ..self
                },
                DecisionModel::Exit => SessionModel { stopped: true, ..self },
                DecisionModel::Clear { index } => SessionModel {
                    lines: self.lines.update(index, cleared(self.lines[index])),
                    position: self.position + 1,
                    ..self
                },
                _ => SessionModel { position: self.position + 1, ..self },
            }
        }
    }

    /// The session after the answers `selections` are given one after
    /// another.
    pub open spec fn run(self, selections: Seq<Option<Seq<char>>>) -> SessionModel
        decreases selections.len(),
    {
        if selections.len() == 0 {
            self
        } else {
            self.answer(selections[0]).run(selections.drop_first())
        }
    }

    /// The positions of the rows for which `run` adds an entry, in the
    /// order in which the entries are added.
    pub open spec fn added_rows(self, selections: Seq<Option<Seq<char>>>) -> Seq<int>
        decreases selections.len(),
    {
        if selections.len() == 0 {
            Seq::empty()
        } else {
            let rest = self.answer(selections[0]).added_rows(selections.drop_first());
            if !self.finished() && self.decision(selections[0]) is AddEntry {
                seq![self.position] + rest
            } else {
                rest
            }
        }
    }
}

/// `line` after it is marked as cleared `times` times.
pub open spec fn marked(line: Seq<char>, times: nat) -> Seq<char>
    decreases times,
{
    if times == 0 {
        line
    } else {
        cleared(marked(line, (times - 1) as nat))
    }
}

/// Whether `now` is `then`, as it was or marked as cleared.
pub open spec fn derives_from(now: Seq<char>, then: Seq<char>) -> bool {
    exists|times: nat| now == marked(then, times)
}

/// The reconciliation of one ledger with one statement.
pub struct Session {
    lines: Vec<String>,
    blocks: Vec<Block>,
    rows: Vec<Row>,
    position: usize,
    stopped: bool,
}

impl View for Session {
    type V = SessionModel;

    closed spec fn view(&self) -> SessionModel {
        SessionModel {
            lines: self.lines.deep_view(),
            blocks: self.blocks.deep_view(),
            rows: self.rows.deep_view(),
            position: self.position as int,
            stopped: self.stopped,
        }
    }
}

impl Session {
    /// Starts a session on a ledger and the rows of a statement. The
    /// blocks in which rows are looked for are those of the ledger as it
    /// is now.
    pub fn new(lines: Vec<String>, rows: Vec<Row>) -> (session: Session)
        ensures
            session@ == SessionModel::start(lines.deep_view(), rows.deep_view()),
            session@.wf(),
    {
        let blocks = open_blocks(&lines);
        proof {
            lemma_blocks_in_ledger(lines.deep_view(), lines.len() as int);
        }
        Session { lines, blocks, rows, position: 0, stopped: false }
    }

    /// Starts a session on the text of a ledger and the CSV text of a
    /// statement. Fails where the statement does.
    pub fn load(ledger: &str, statement: &str) -> (result: Result<Session, StatementError>)
        ensures
            match result {
                Ok(session) => {
                    &&& session@.wf()
                    &&& is_statement_of(csv_records(statement@), Ok(session@.rows))
                    &&& session@ == SessionModel::start(lines_of(ledger@), session@.rows)
                },
                Err(error) => is_statement_of(csv_records(statement@), Err(error)),
            },
    {
        let lines = split_lines(ledger);
        match parse_statement(statement) {
            Ok(rows) => Ok(Session::new(lines, rows)),
            Err(error) => Err(error),
        }
    }

    /// Whether no row is pending: all rows are dealt with, or the session
    /// was ended.
    pub fn is_finished(&self) -> (finished: bool)
        ensures
            finished == self@.finished(),
    {
        self.stopped || self.position >= self.rows.len()
    }

    /// The ledger buffer as it stands.
    pub fn lines(&self) -> (lines: &Vec<String>)
        ensures
            lines.deep_view() == self@.lines,
    {
        &self.lines
    }

    /// The whole ledger buffer as one text, its lines joined by line feeds.
    pub fn output(&self) -> (out: String)
        ensures
            out@ == joined(self@.lines, LINE_BREAK@),
    {
        render(&self.lines)
    }

    /// What is to be shown for the pending row; nothing when the session
    /// is finished.
    pub fn prompt(&self) -> (prompt: Option<Prompt>)
        ensures
            prompt is None <==> self@.finished(),
            prompt is Some ==> {
                &&& prompt->0.row.deep_view() == self@.row()
                &&& prompt->0.candidates.deep_view() == self@.candidates()
                &&& prompt->0.question@ == question_for(self@.candidates())
                &&& prompt->0.options.deep_view() == options_for(self@.candidates())
            },
    {
        if self.is_finished() {
            return None;
        }
        let pending = &self.rows[self.position];
        let row = Row {
            date: pending.date.clone(),
            description: pending.description.clone(),
            amount: pending.amount.clone(),
        };
        let candidates = find_candidates(&self.blocks, pending);
        let question = if candidates.len() == 0 {
            String::from_str(UNMATCHED_QUESTION)
        } else {
            String::from_str(MATCHED_QUESTION)
        };
        let options = options(&candidates);
        Some(Prompt { row, candidates, question, options })
    }

    /// Takes the answer for the pending row, changes the ledger buffer as
    /// the answer asks, and moves on. `None` stands for an answer that could
    /// not be read. Returns what was decided, or nothing when the session
    /// was finished already.
    pub fn answer(&mut self, selection: Option<&str>) -> (decision: Option<Decision>)
        requires
            old(self)@.wf(),
        ensures
            final(self)@.wf(),
            final(self)@ == old(self)@.answer(selection.deep_view()),
            decision is None <==> old(self)@.finished(),
            decision is Some ==> decision->0.deep_view() == old(self)@.decision(
                selection.deep_view(),
            ),
    {
        if self.is_finished() {
            return None;
        }
        let candidates = find_candidates(&self.blocks, &self.rows[self.position]);
        let decision = decide(&candidates, selection);
        assert(self.position < self.rows.len());
        let next: usize = self.position + 1;
        match decision {
            Decision::AddEntry => {
                append_entry(&mut self.lines, &self.rows[self.position]);
                self.position = next;
            },
            Decision::Exit => {
                self.stopped = true;
            },
            Decision::Clear { index } => {
                proof {
                    lemma_answer(old(self)@, selection.deep_view());
                }
                mark_cleared(&mut self.lines, index);
                self.position = next;
            },
            _ => {
                self.position = next;
            },
        }
        Some(decision)
    }

    /// Gives the answers `selections` one after another, as `answer` takes
    /// them. Answers that come after the session's end change nothing.
    pub fn replay(&mut self, selections: &Vec<Option<String>>)
        requires
            old(self)@.wf(),
        ensures
            final(self)@.wf(),
            final(self)@ == old(self)@.run(selections.deep_view()),
    {
        let mut i: usize = 0;
        assert(selections.deep_view().skip(0) == selections.deep_view());
        while i < selections.len()
            invariant
                i <= selections.len(),
                self@.wf(),
                self@.run(selections.deep_view().skip(i as int)) == old(self)@.run(
                    selections.deep_view(),
                ),
            decreases selections.len() - i,
        {
            let ghost rest = selections.deep_view().skip(i as int);
            assert(rest.drop_first() == selections.deep_view().skip(i + 1));
            assert(rest[0] == selections@[i as int].deep_view());
            let selection: Option<&str> = match &selections[i] {
                Some(chosen) => Some(chosen.as_str()),
                None => None,
            };
            self.answer(selection);
            i += 1;
        }
    }
}

/// Every uncleared block that starts before line `n` starts at a line of
/// the ledger.
pub proof fn lemma_blocks_in_ledger(lines: Seq<Seq<char>>, n: int)
    requires
        n <= lines.len(),
    ensures
        forall|j: int|
            0 <= j < blocks_before(lines, n).len() ==> 0 <= (#[trigger] blocks_before(
                lines,
                n,
            )[j]).index < n,
    decreases n,
{
    if n > 0 {
        lemma_blocks_in_ledger(lines, n - 1);
        let earlier = blocks_before(lines, n - 1);
        assert forall|j: int| 0 <= j < blocks_before(lines, n).len() implies 0 <= (
        #[trigger] blocks_before(lines, n)[j]).index < n by {
            if j < earlier.len() {
                assert(blocks_before(lines, n)[j] == earlier[j]);
            }
        }
    }
}

/// Marking a cleared line again is marking the line once more.
proof fn lemma_marked_again(line: Seq<char>, times: nat)
    ensures
        marked(cleared(line), times) == marked(line, times + 1),
    decreases times,
{
    if times > 0 {
        lemma_marked_again(line, (times - 1) as nat);
    } else {
        assert(marked(line, 1) == cleared(marked(line, 0)));
    }
}

/// What one answer does to a session: it stays well formed, keeps its
/// blocks and rows, and changes the ledger in at most one place, by adding
/// the pending row's entry at the end or by marking a line at which a block
/// starts.
pub proof fn lemma_answer(session: SessionModel, selection: Option<Seq<char>>)
    requires
        session.wf(),
    ensures
        ({
            let next = session.answer(selection);
            &&& next.wf()
            &&& next.blocks == session.blocks
            &&& next.rows == session.rows
            &&& session.position <= next.position
            &&& if session.finished() {
                next == session
            } else {
                match session.decision(selection) {
                    DecisionModel::AddEntry => {
                        &&& next.lines == session.lines.push(entry_text(session.row()))
                        &&& next.position == session.position + 1
                    },
                    DecisionModel::Clear { index } => {
                        &&& exists|j: int|
                            0 <= j < session.blocks.len() && (#[trigger] session.blocks[j]).index
                                == index
                        &&& 0 <= index < session.lines.len()
                        &&& next.lines == session.lines.update(index, cleared(session.lines[index]))
                        &&& next.position == session.position + 1
                    },
                    DecisionModel::Exit => next.lines == session.lines && next.stopped,
                    _ => next.lines == session.lines && next.position == session.position + 1,
                }
            }
        }),
{
    if !session.finished() {
        let candidates = session.candidates();
        match session.decision(selection) {
            DecisionModel::Clear { index } => {
                lemma_first_in_range(candidates, selection->0, 0);
                let at = first_with_text(candidates, selection->0, 0)->0;
                lemma_candidate_matches(session.blocks, session.row(), at);
                let j = choose|j: int|
                    0 <= j < session.blocks.len() && session.blocks[j] == candidates[at];
                assert(session.blocks[j].index == index);
            },
            _ => {},
        }
    }
}

/// What a run of answers does to a session whose blocks all start before
/// line `base`: see `lemma_run_keeps_ledger`, which is the case of a session
/// at its start.
proof fn lemma_run_from(session: SessionModel, base: int, selections: Seq<Option<Seq<char>>>)
    requires
        session.wf(),
        0 <= base <= session.lines.len(),
        forall|j: int|
            0 <= j < session.blocks.len() ==> (#[trigger] session.blocks[j]).index < base,
    ensures
        ({
            let end = session.run(selections);
            let added = session.added_rows(selections);
            &&& end.wf()
            &&& end.blocks == session.blocks
            &&& end.rows == session.rows
            &&& end.lines.len() == session.lines.len() + added.len()
            &&& forall|i: int|
                0 <= i < base ==> derives_from(#[trigger] end.lines[i], session.lines[i])
            &&& forall|i: int|
                base <= i < session.lines.len() ==> #[trigger] end.lines[i] == session.lines[i]
            &&& forall|k: int|
                0 <= k < added.len() ==> session.position <= (#[trigger] added[k])
                    < session.rows.len()
            &&& forall|k: int|
                0 <= k < added.len() ==> end.lines[session.lines.len() + k] == entry_text(
                    session.rows[#[trigger] added[k]],
                )
            &&& forall|j: int, k: int|
                0 <= j < k < added.len() ==> (#[trigger] added[j]) < (#[trigger] added[k])
        }),
    decreases selections.len(),
{
    let end = session.run(selections);
    let added = session.added_rows(selections);
    if selections.len() == 0 {
        assert forall|i: int| 0 <= i < base implies derives_from(
            #[trigger] end.lines[i],
            session.lines[i],
        ) by {
            assert(end.lines[i] == marked(session.lines[i], 0));
        }
    } else {
        let next = session.answer(selections[0]);
        let rest = selections.drop_first();
        let later = next.added_rows(rest);
        lemma_answer(session, selections[0]);
        lemma_run_from(next, base, rest);
        let adds = !session.finished() && session.decision(selections[0]) is AddEntry;
        assert(added == if adds {
            seq![session.position] + later
        } else {
            later
        });
        assert forall|i: int| 0 <= i < base implies derives_from(
            #[trigger] end.lines[i],
            session.lines[i],
        ) by {
            assert(derives_from(end.lines[i], next.lines[i]));
            let times = choose|times: nat| end.lines[i] == marked(next.lines[i], times);
            if next.lines[i] == session.lines[i] {
            } else {
                assert(next.lines[i] == cleared(session.lines[i]));
                lemma_marked_again(session.lines[i], times);
                assert(end.lines[i] == marked(session.lines[i], times + 1));
            }
        }
        assert forall|k: int| 0 <= k < added.len() implies end.lines[session.lines.len() + k]
            == entry_text(session.rows[#[trigger] added[k]]) by {
            if adds {
                if k == 0 {
                    assert(end.lines[session.lines.len() as int] == next.lines[session.lines.len() as int]);
                } else {
                    assert(added[k] == later[k - 1]);
                }
            } else {
                assert(added[k] == later[k]);
            }
        }
        assert forall|k: int| 0 <= k < added.len() implies session.position <= (
        #[trigger] added[k]) < session.rows.len() by {
            if adds && k > 0 {
                assert(added[k] == later[k - 1]);
            }
        }
        assert forall|j: int, k: int| 0 <= j < k < added.len() implies (#[trigger] added[j]) < (
        #[trigger] added[k]) by {
            if adds {
                assert(added[k] == later[k - 1]);
                if j > 0 {
                    assert(added[j] == later[j - 1]);
                }
            }
        }
    }
}

/// Whatever answers are given, the ledger keeps every line it had at the
/// start, at its place, as it was or marked as cleared, and nothing is taken
/// away. What is added are the entries of rows, each as one element after the
/// lines from the start, in the order of the rows.
pub proof fn lemma_run_keeps_ledger(
    lines: Seq<Seq<char>>,
    rows: Seq<RowModel>,
    selections: Seq<Option<Seq<char>>>,
)
    ensures
        ({
            let start = SessionModel::start(lines, rows);
            let end = start.run(selections);
            let added = start.added_rows(selections);
            &&& end.lines.len() == lines.len() + added.len()
            &&& forall|i: int|
                0 <= i < lines.len() ==> derives_from(#[trigger] end.lines[i], lines[i])
            &&& forall|k: int| 0 <= k < added.len() ==> 0 <= (#[trigger] added[k]) < rows.len()
            &&& forall|k: int|
                0 <= k < added.len() ==> end.lines[lines.len() + k] == entry_text(
                    rows[#[trigger] added[k]],
                )
            &&& forall|j: int, k: int|
                0 <= j < k < added.len() ==> (#[trigger] added[j]) < (#[trigger] added[k])
        }),
{
    let start = SessionModel::start(lines, rows);
    lemma_blocks_in_ledger(lines, lines.len() as int);
    lemma_run_from(start, lines.len() as int, selections);
}

} // verus!
