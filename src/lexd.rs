//! Statistics of lexd files, over the top of their syntax tree.

use vstd::prelude::*;

use crate::kinds::StatKind;
use crate::tree::{block_views, lexd_stats, tally, total_parts, Block};

verus! {

/// The statistics of a lexd file whose syntax tree's root has these children.
pub fn get_stats(blocks: &Vec<Block>) -> (r: Vec<(StatKind, usize)>)
    requires
        total_parts(block_views(blocks@)) <= usize::MAX,
    ensures
        r@.len() == 4,
        forall|i: int| 0 <= i < 4 ==> #[trigger] r@[i].0 == lexd_stats(block_views(blocks@))[i].0 && r@[i].1
            == lexd_stats(block_views(blocks@))[i].1,
{
    let (lexicons, lexicon_lines) = tally(blocks, "lexicon_block", "lexicon_line", None);
    let (patterns, pattern_lines) = tally(blocks, "pattern_block", "pattern_line", Some("pattern_start"));
    vec![
        (StatKind::Lexicons, lexicons),
        (StatKind::LexiconEntries, lexicon_lines),
        (StatKind::Patterns, patterns),
        (StatKind::PatternEntries, pattern_lines),
    ]
}

} // verus!
