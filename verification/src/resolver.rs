//! What to ask for a statement row, and what an answer leads to.

use crate::ledger::{Block, BlockModel};
use crate::statement::Row;
use vstd::prelude::*;
use vstd::string::StringExecFns;

verus! {

/// The question for a row without a candidate.
pub const UNMATCHED_QUESTION: &'static str = "What would you like to do?";

/// The question for a row with candidates.
pub const MATCHED_QUESTION: &'static str = "Match a transaction:";

/// Option for a row without a candidate: leave the ledger as it is.
pub const IGNORE: &'static str = "Ignore";

/// Option for a row without a candidate: add an entry for the row.
pub const ADD_ENTRY: &'static str = "Add Stock Expense Item";

/// Option for a row without a candidate: end the session.
pub const EXIT: &'static str = "Exit";

/// Option for a row with candidates: clear none of them.
pub const IGNORE_LINE: &'static str = "Ignore this line";

/// What an answer led to.
#[derive(Debug, Clone, Copy, PartialEq, Eq)]
pub enum Decision {
    /// No candidate; the row was passed over.
    Ignore,
    /// No candidate; an entry for the row was added at the end of the ledger.
    AddEntry,
    /// No candidate; the session was ended.
    Exit,
    /// Candidates were offered and none was taken.
    Skip,
    /// The candidate that starts at line `index` was marked as cleared.
    Clear { index: usize },
    /// Candidates were offered and the answer names none of the options;
    /// the ledger stays as it is.
    Unknown,
}

/// What a `Decision` stands for in contracts.
pub enum DecisionModel {
    Ignore,
    AddEntry,
    Exit,
    Skip,
    Clear { index: int },
    Unknown,
}

impl DeepView for Decision {
    type V = DecisionModel;

    open spec fn deep_view(&self) -> DecisionModel {
        match *self {
            Decision::Ignore => DecisionModel::Ignore,
            Decision::AddEntry => DecisionModel::AddEntry,
            Decision::Exit => DecisionModel::Exit,
            Decision::Skip => DecisionModel::Skip,
            Decision::Clear { index } => DecisionModel::Clear { index: index as int },
            Decision::Unknown => DecisionModel::Unknown,
        }
    }
}

/// What is to be shown for the pending row.
#[derive(Debug, Clone, PartialEq, Eq)]
pub struct Prompt {
    /// The pending row.
    pub row: Row,
    /// The candidates for it, in ledger order.
    pub candidates: Vec<Block>,
    /// The question to ask.
    pub question: String,
    /// The options to choose from.
    pub options: Vec<String>,
}

/// The question that goes with `candidates`.
pub open spec fn question_for(candidates: Seq<BlockModel>) -> Seq<char> {
    if candidates.len() == 0 {
        UNMATCHED_QUESTION@
    } else {
        MATCHED_QUESTION@
    }
}

/// The texts of `blocks`, in order.
pub open spec fn texts_of(blocks: Seq<BlockModel>) -> Seq<Seq<char>> {
    Seq::new(blocks.len(), |i: int| blocks[i].text)
}

/// The options that go with `candidates`: without candidates the three
/// fixed ones, else the text of each candidate, in order, and the option to
/// take none.
pub open spec fn options_for(candidates: Seq<BlockModel>) -> Seq<Seq<char>> {
    if candidates.len() == 0 {
        seq![IGNORE@, ADD_ENTRY@, EXIT@]
    } else {
        texts_of(candidates).push(IGNORE_LINE@)
    }
}

/// Position of the first candidate at or after `from` whose text is `text`.
pub open spec fn first_with_text(candidates: Seq<BlockModel>, text: Seq<char>, from: int) -> Option<
    int,
>
    decreases candidates.len() - from,
{
    if from < 0 || from >= candidates.len() {
        None
    } else if candidates[from].text == text {
        Some(from)
    } else {
        first_with_text(candidates, text, from + 1)
    }
}

/// What `selection` leads to for a row with these candidates. `None` stands
/// for an answer that could not be read, and counts as the option that
/// leaves the ledger as it is.
pub open spec fn decision_for(
    candidates: Seq<BlockModel>,
    selection: Option<Seq<char>>,
) -> DecisionModel {
    if candidates.len() == 0 {
        if selection == Some(ADD_ENTRY@) {
            DecisionModel::AddEntry
        } else if selection == Some(EXIT@) {
            DecisionModel::Exit
        } else {
            DecisionModel::Ignore
        }
    } else if selection is None || selection == Some(IGNORE_LINE@) {
        DecisionModel::Skip
    } else {
        match first_with_text(candidates, selection->0, 0) {
            Some(at) => DecisionModel::Clear { index: candidates[at].index },
            None => DecisionModel::Unknown,
        }
    }
}

/// The first candidate with a text is found by going through the
/// candidates in order.
proof fn lemma_first_with_text(candidates: Seq<BlockModel>, text: Seq<char>, from: int, at: int)
    requires
        0 <= from <= at <= candidates.len(),
        forall|k: int| from <= k < at ==> candidates[k].text != text,
        at < candidates.len() ==> candidates[at].text == text,
    ensures
        first_with_text(candidates, text, from) == if at < candidates.len() {
            Some(at)
        } else {
            None
        },
    decreases at - from,
{
    if from < at {
        lemma_first_with_text(candidates, text, from + 1, at);
    }
}

/// Where a candidate with the text is found, it is found at a position
/// among the candidates.
pub proof fn lemma_first_in_range(candidates: Seq<BlockModel>, text: Seq<char>, from: int)
    requires
        0 <= from,
    ensures
        first_with_text(candidates, text, from) is Some ==> from <= first_with_text(
            candidates,
            text,
            from,
        )->0 < candidates.len(),
    decreases candidates.len() - from,
{
    if from < candidates.len() && candidates[from].text != text {
        lemma_first_in_range(candidates, text, from + 1);
    }
}

/// Whether `a` and `b` hold the same text.
fn same_text(a: &str, b: &str) -> (same: bool)
    ensures
        same == (a@ == b@),
{
    String::from_str(a) == String::from_str(b)
}

/// Decides what `selection` leads to for a row with these candidates.
pub fn decide(candidates: &Vec<Block>, selection: Option<&str>) -> (decision: Decision)
    ensures
        decision.deep_view() == decision_for(candidates.deep_view(), selection.deep_view()),
{
    if candidates.len() == 0 {
        return match selection {
            Some(chosen) => {
                if same_text(chosen, ADD_ENTRY) {
                    Decision::AddEntry
                } else if same_text(chosen, EXIT) {
                    Decision::Exit
                } else {
                    Decision::Ignore
                }
            },
            None => Decision::Ignore,
        };
    }
    match selection {
        None => Decision::Skip,
        Some(chosen) => {
            if same_text(chosen, IGNORE_LINE) {
                return Decision::Skip;
            }
            let mut at: usize = 0;
            while at < candidates.len()
                invariant
                    at <= candidates.len(),
                    selection == Some(chosen),
                    chosen@ != IGNORE_LINE@,
                    forall|k: int| 0 <= k < at ==> candidates.deep_view()[k].text != chosen@,
                decreases candidates.len() - at,
            {
                assert(candidates.deep_view()[at as int] == candidates@[at as int].deep_view());
                if same_text(candidates[at].text.as_str(), chosen) {
                    proof {
                        lemma_first_with_text(candidates.deep_view(), chosen@, 0, at as int);
                    }
                    return Decision::Clear { index: candidates[at].index };
                }
                at += 1;
            }
            proof {
                lemma_first_with_text(candidates.deep_view(), chosen@, 0, at as int);
            }
            Decision::Unknown
        },
    }
}

/// The options that go with `candidates`.
pub fn options(candidates: &Vec<Block>) -> (options: Vec<String>)
    ensures
        options.deep_view() == options_for(candidates.deep_view()),
{
    let mut options: Vec<String> = Vec::new();
    if candidates.len() == 0 {
        options.push(String::from_str(IGNORE));
        options.push(String::from_str(ADD_ENTRY));
        options.push(String::from_str(EXIT));
        assert(options.deep_view() =~= options_for(candidates.deep_view()));
        return options;
    }
    let mut i: usize = 0;
    while i < candidates.len()
        invariant
            i <= candidates.len(),
            options.deep_view() == texts_of(candidates.deep_view().take(i as int)),
        decreases candidates.len() - i,
    {
        let ghost before = options.deep_view();
        options.push(candidates[i].text.clone());
        assert(options.deep_view() == before.push(candidates@[i as int].text@));
        i += 1;
        assert(options.deep_view() =~= texts_of(candidates.deep_view().take(i as int)));
    }
    assert(candidates.deep_view().take(candidates.len() as int) == candidates.deep_view());
    let ghost texts = options.deep_view();
    options.push(String::from_str(IGNORE_LINE));
    assert(options.deep_view() =~= texts.push(IGNORE_LINE@));
    options
}

} // verus!
