//! Finds the blocks of the ledger that a statement row may stand for.

use crate::ledger::{
    block_text, blocks_of, lemma_block_is_listed, opens_block, Block, BlockModel,
};
use crate::statement::{
    normalize, normalized, normalized_field, row_of, Row, RowModel, CURRENCY, ROW_FIELDS,
};
use crate::text::{
    chars_of, contains, has_part, lemma_without_keeps_part, lowercase, trimmed,
};
use vstd::prelude::*;

verus! {

/// Whether a text in normal form holds the date, the description and the
/// amount of `row`, each as a contiguous part.
pub open spec fn holds_row(normal_text: Seq<char>, row: RowModel) -> bool {
    &&& contains(normal_text, row.date)
    &&& contains(normal_text, row.description)
    &&& contains(normal_text, row.amount)
}

/// Whether `block` is a candidate for `row`: its text, brought into normal
/// form, holds all three fields of the row.
pub open spec fn is_candidate(block: BlockModel, row: RowModel) -> bool {
    holds_row(normalized(block.text), row)
}

/// The test that picks the candidates for `row`.
pub open spec fn candidate_for(row: RowModel) -> spec_fn(BlockModel) -> bool {
    |block: BlockModel| is_candidate(block, row)
}

/// The candidates for `row` among `blocks`: every block that matches, in
/// the order of `blocks`. Ties are not broken.
pub open spec fn candidates_of(blocks: Seq<BlockModel>, row: RowModel) -> Seq<BlockModel> {
    blocks.filter(candidate_for(row))
}

/// Every block that matches the row is among the candidates.
pub proof fn lemma_matching_block_is_candidate(blocks: Seq<BlockModel>, row: RowModel, i: int)
    requires
        0 <= i < blocks.len(),
        is_candidate(blocks[i], row),
    ensures
        candidates_of(blocks, row).contains(blocks[i]),
{
    blocks.lemma_filter_contains(candidate_for(row), i);
}

/// Every candidate is one of the blocks, and matches the row.
pub proof fn lemma_candidate_matches(blocks: Seq<BlockModel>, row: RowModel, j: int)
    requires
        0 <= j < candidates_of(blocks, row).len(),
    ensures
        blocks.contains(candidates_of(blocks, row)[j]),
        is_candidate(candidates_of(blocks, row)[j], row),
{
    let picked = candidates_of(blocks, row);
    assert(picked.contains(picked[j]));
    blocks.lemma_filter_contains_rev(candidate_for(row), picked[j]);
    blocks.lemma_filter_pred(candidate_for(row), j);
}

/// A text that holds a field of the statement, letter case apart, holds it
/// in normal form too.
pub proof fn lemma_shared_field_is_held(text: Seq<char>, field: Seq<char>)
    requires
        contains(lowercase(text), lowercase(trimmed(field))),
    ensures
        contains(normalized(text), normalized_field(field)),
{
    lemma_without_keeps_part(lowercase(text), lowercase(trimmed(field)), CURRENCY);
}

/// An uncleared block of the ledger whose text holds the date, the
/// description and the amount of a record, letter case apart, is a
/// candidate for the row that the record gives.
pub proof fn lemma_shared_block_is_candidate(
    lines: Seq<Seq<char>>,
    record: Seq<Seq<char>>,
    i: int,
)
    requires
        opens_block(lines, i),
        record.len() >= ROW_FIELDS,
        forall|f: int|
            0 <= f < ROW_FIELDS ==> contains(
                lowercase(block_text(lines, i)),
                lowercase(trimmed(#[trigger] record[f])),
            ),
    ensures
        candidates_of(blocks_of(lines), row_of(record)).contains(
            BlockModel { index: i, text: block_text(lines, i) },
        ),
{
    let text = block_text(lines, i);
    let block = BlockModel { index: i, text };
    assert(contains(lowercase(text), lowercase(trimmed(record[0]))));
    assert(contains(lowercase(text), lowercase(trimmed(record[1]))));
    assert(contains(lowercase(text), lowercase(trimmed(record[2]))));
    lemma_shared_field_is_held(text, record[0]);
    lemma_shared_field_is_held(text, record[1]);
    lemma_shared_field_is_held(text, record[2]);
    lemma_block_is_listed(lines, i);
    let blocks = blocks_of(lines);
    let at = choose|at: int| 0 <= at < blocks.len() && blocks[at] == block;
    lemma_matching_block_is_candidate(blocks, row_of(record), at);
}

/// Whether a text in normal form holds all three fields of `row`.
pub fn text_holds_row(normal_text: &str, row: &Row) -> (b: bool)
    ensures
        b == holds_row(normal_text@, row.deep_view()),
{
    let hay = chars_of(normal_text);
    has_part(&hay, &chars_of(row.date.as_str())) && has_part(
        &hay,
        &chars_of(row.description.as_str()),
    ) && has_part(&hay, &chars_of(row.amount.as_str()))
}

/// Whether `block` is a candidate for `row`.
pub fn block_matches(block: &Block, row: &Row) -> (b: bool)
    ensures
        b == is_candidate(block.deep_view(), row.deep_view()),
{
    let normal_text = normalize(block.text.as_str());
    text_holds_row(normal_text.as_str(), row)
}

/// Collects the candidates for `row` among `blocks`.
pub fn find_candidates(blocks: &Vec<Block>, row: &Row) -> (candidates: Vec<Block>)
    ensures
        candidates.deep_view() == candidates_of(blocks.deep_view(), row.deep_view()),
{
    let mut candidates: Vec<Block> = Vec::new();
    let mut i: usize = 0;
    while i < blocks.len()
        invariant
            i <= blocks.len(),
            candidates.deep_view() == candidates_of(
                blocks.deep_view().take(i as int),
                row.deep_view(),
            ),
        decreases blocks.len() - i,
    {
        proof {
            let upto = blocks.deep_view().take(i + 1);
            reveal_with_fuel(Seq::filter, 2);
            assert(upto.drop_last() == blocks.deep_view().take(i as int));
            assert(upto.last() == blocks@[i as int].deep_view());
        }
        if block_matches(&blocks[i], row) {
            let block = Block { index: blocks[i].index, text: blocks[i].text.clone() };
            let ghost before = candidates.deep_view();
            candidates.push(block);
            assert(candidates.deep_view() == before.push(blocks@[i as int].deep_view()));
        }
        i += 1;
    }
    assert(blocks.deep_view().take(blocks.len() as int) == blocks.deep_view());
    candidates
}

} // verus!
