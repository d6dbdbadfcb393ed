//! The ledger buffer: an ordered list of text lines, and the blocks of
//! consecutive lines in which a transaction is looked for.

use crate::statement::{Row, RowModel};
use crate::text::{
    join, joined, lemma_trimmed_start_is_suffix, trim_start, trimmed_start, white_space,
};
use vstd::prelude::*;
use vstd::string::StringExecFns;

verus! {

/// Number of consecutive lines that make up a block: a header and two postings.
pub const BLOCK_LINES: usize = 3;

/// What a cleared line starts with.
pub const CLEARED_PREFIX: &'static str = "* ";

/// What separates the lines of a block, and of the ledger when it is written out.
pub const LINE_BREAK: &'static str = "\n";

/// What stands between the date and the description in the header of a new entry.
pub const HEADER_GAP: &'static str = " ";

/// The posting of a new entry that books the expense, up to the amount.
pub const EXPENSE_POSTING: &'static str = "\n    Expenses:Miscellaneous          $";

/// The posting of a new entry that takes the amount from the bank account,
/// up to the amount.
pub const ASSET_POSTING: &'static str = "\n    Assets:Bank                    -$";

/// A block of the ledger that is not cleared yet.
#[derive(Debug, Clone, PartialEq, Eq)]
pub struct Block {
    /// Index of the block's first line in the ledger.
    pub index: usize,
    /// The block's lines, joined by line feeds.
    pub text: String,
}

/// What a `Block` stands for in contracts.
pub struct BlockModel {
    pub index: int,
    pub text: Seq<char>,
}

impl DeepView for Block {
    type V = BlockModel;

    open spec fn deep_view(&self) -> BlockModel {
        BlockModel { index: self.index as int, text: self.text@ }
    }
}

/// Whether `line` carries the clearance mark.
pub open spec fn is_cleared(line: Seq<char>) -> bool {
    line.len() > 0 && line[0] == '*'
}

/// `line` once it is marked as cleared.
pub open spec fn cleared(line: Seq<char>) -> Seq<char> {
    CLEARED_PREFIX@ + trimmed_start(line)
}

/// The entry that is added for a row without a match: a header and two
/// postings that offset each other, as one text of three lines.
pub open spec fn entry_text(row: RowModel) -> Seq<char> {
    row.date + HEADER_GAP@ + row.description + EXPENSE_POSTING@ + row.amount + ASSET_POSTING@
        + row.amount
}

/// The text of the block that starts at line `i`.
pub open spec fn block_text(lines: Seq<Seq<char>>, i: int) -> Seq<char> {
    joined(lines.subrange(i, i + BLOCK_LINES), LINE_BREAK@)
}

/// Whether an uncleared block starts at line `i`.
pub open spec fn opens_block(lines: Seq<Seq<char>>, i: int) -> bool {
    &&& 0 <= i
    &&& i + BLOCK_LINES <= lines.len()
    &&& !is_cleared(lines[i])
}

/// The uncleared blocks that start before line `n`, in ledger order.
pub open spec fn blocks_before(lines: Seq<Seq<char>>, n: int) -> Seq<BlockModel>
    decreases n,
{
    if n <= 0 {
        Seq::empty()
    } else {
        let earlier = blocks_before(lines, n - 1);
        if opens_block(lines, n - 1) {
            earlier.push(BlockModel { index: n - 1, text: block_text(lines, n - 1) })
        } else {
            earlier
        }
    }
}

/// All uncleared blocks of the ledger, in ledger order.
pub open spec fn blocks_of(lines: Seq<Seq<char>>) -> Seq<BlockModel> {
    blocks_before(lines, lines.len() as int)
}

/// Whether `line` carries the clearance mark.
pub fn has_mark(line: &str) -> (b: bool)
    ensures
        b == is_cleared(line@),
{
    !line.is_empty() && line.get_char(0) == '*'
}

/// The text of the block that starts at line `i`.
pub fn block_at(lines: &Vec<String>, i: usize) -> (text: String)
    requires
        i + BLOCK_LINES <= lines.len(),
    ensures
        text@ == block_text(lines.deep_view(), i as int),
{
    let mut part: Vec<String> = Vec::new();
    let mut k: usize = 0;
    while k < BLOCK_LINES
        invariant
            k <= BLOCK_LINES,
            i + BLOCK_LINES <= lines.len(),
            part.deep_view() == lines.deep_view().subrange(i as int, i + k),
        decreases BLOCK_LINES - k,
    {
        let ghost before = part.deep_view();
        part.push(lines[i + k].clone());
        assert(part.deep_view() == before.push(lines@[i + k]@));
        k += 1;
        assert(part.deep_view() == lines.deep_view().subrange(i as int, i + k));
    }
    join(&part, LINE_BREAK)
}

/// Collects the uncleared blocks of the ledger.
pub fn open_blocks(lines: &Vec<String>) -> (blocks: Vec<Block>)
    ensures
        blocks.deep_view() == blocks_of(lines.deep_view()),
{
    let mut blocks: Vec<Block> = Vec::new();
    if lines.len() < BLOCK_LINES {
        proof {
            lemma_no_block_after(lines.deep_view(), 0, lines.len() as int);
        }
        return blocks;
    }
    let last: usize = lines.len() - BLOCK_LINES;
    let mut i: usize = 0;
    while i <= last
        invariant
            i <= last + 1,
            last + BLOCK_LINES == lines.len(),
            blocks.deep_view() == blocks_before(lines.deep_view(), i as int),
        decreases last + 1 - i,
    {
        if !has_mark(lines[i].as_str()) {
            let block = Block { index: i, text: block_at(lines, i) };
            let ghost before = blocks.deep_view();
            blocks.push(block);
            assert(blocks.deep_view() == before.push(block.deep_view()));
        }
        i += 1;
    }
    proof {
        lemma_no_block_after(lines.deep_view(), last + 1, lines.len() as int);
    }
    blocks
}

/// No block starts in the last lines of the ledger, where fewer than a
/// block's lines are left.
proof fn lemma_no_block_after(lines: Seq<Seq<char>>, from: int, to: int)
    requires
        0 <= from <= to <= lines.len(),
        from + BLOCK_LINES > lines.len(),
    ensures
        blocks_before(lines, to) == blocks_before(lines, from),
    decreases to - from,
{
    if from < to {
        lemma_no_block_after(lines, from, to - 1);
    }
}

/// Marks the line at `index` as cleared: the line becomes the clearance
/// prefix followed by the old line without its leading white space.
pub fn mark_cleared(lines: &mut Vec<String>, index: usize)
    requires
        index < old(lines).len(),
    ensures
        final(lines).len() == old(lines).len(),
        final(lines).deep_view() == old(lines).deep_view().update(
            index as int,
            cleared(old(lines)@[index as int]@),
        ),
{
    let rest = trim_start(lines[index].as_str());
    let marked = String::from_str(CLEARED_PREFIX).concat(rest.as_str());
    lines.set(index, marked);
    assert(lines.deep_view() =~= old(lines).deep_view().update(
        index as int,
        cleared(old(lines)@[index as int]@),
    ));
}

/// A cleared line is the clearance prefix, once, and then the old line
/// from its first character that is not white space, unchanged.
pub proof fn lemma_cleared_line(line: Seq<char>)
    ensures
        cleared(line).len() == 2 + trimmed_start(line).len(),
        cleared(line)[0] == '*',
        cleared(line)[1] == ' ',
        cleared(line).skip(2) == trimmed_start(line),
        is_cleared(cleared(line)),
        exists|n: int| 0 <= n <= line.len() && trimmed_start(line) == line.skip(n),
        trimmed_start(line).len() > 0 ==> !white_space(trimmed_start(line)[0]),
{
    reveal_strlit("* ");
    assert(CLEARED_PREFIX@ =~= seq!['*', ' ']);
    assert(cleared(line).skip(2) =~= trimmed_start(line));
    lemma_trimmed_start_is_suffix(line);
}

/// Every uncleared block of the ledger is listed, with the index of its
/// first line and its text.
pub proof fn lemma_block_is_listed(lines: Seq<Seq<char>>, i: int)
    requires
        opens_block(lines, i),
    ensures
        blocks_of(lines).contains(BlockModel { index: i, text: block_text(lines, i) }),
{
    lemma_block_is_listed_before(lines, i, lines.len() as int);
}

proof fn lemma_block_is_listed_before(lines: Seq<Seq<char>>, i: int, n: int)
    requires
        opens_block(lines, i),
        i < n <= lines.len(),
    ensures
        blocks_before(lines, n).contains(BlockModel { index: i, text: block_text(lines, i) }),
    decreases n,
{
    let block = BlockModel { index: i, text: block_text(lines, i) };
    let earlier = blocks_before(lines, n - 1);
    if i == n - 1 {
        assert(blocks_before(lines, n) == earlier.push(block));
        assert(earlier.push(block).last() == block);
    } else {
        lemma_block_is_listed_before(lines, i, n - 1);
        let at = choose|at: int| 0 <= at < earlier.len() && earlier[at] == block;
        assert(blocks_before(lines, n)[at] == block);
    }
}

/// The entry that is added for `row`.
pub fn entry_for(row: &Row) -> (entry: String)
    ensures
        entry@ == entry_text(row.deep_view()),
{
    let mut entry = row.date.clone();
    entry.append(HEADER_GAP);
    entry.append(row.description.as_str());
    entry.append(EXPENSE_POSTING);
    entry.append(row.amount.as_str());
    entry.append(ASSET_POSTING);
    entry.append(row.amount.as_str());
    entry
}

/// Adds the entry for `row` at the end of the ledger, as one element that
/// holds all of the entry's lines. The lines before it stay as they are.
pub fn append_entry(lines: &mut Vec<String>, row: &Row)
    ensures
        final(lines).len() == old(lines).len() + 1,
        final(lines).deep_view() == old(lines).deep_view().push(entry_text(row.deep_view())),
{
    let entry = entry_for(row);
    lines.push(entry);
    assert(lines.deep_view() =~= old(lines).deep_view().push(entry_text(row.deep_view())));
}

/// The whole ledger as one text, its lines joined by line feeds.
pub fn render(lines: &Vec<String>) -> (out: String)
    ensures
        out@ == joined(lines.deep_view(), LINE_BREAK@),
{
    join(lines, LINE_BREAK)
}

} // verus!
