//! Statistics of constraint-grammar rule files, over the top of their syntax
//! tree.

use vstd::prelude::*;

use crate::kinds::StatKind;
use crate::text::{chars_of, same_as};
use crate::tree::{block_views, child_count, lemma_child_count_bounded, rlx_stats, Block};

verus! {

/// The statistics of a constraint-grammar file whose syntax tree's root has
/// these children.
pub fn get_stats(blocks: &Vec<Block>) -> (r: Vec<(StatKind, usize)>)
    ensures
        r@.len() == 1,
        r@[0].0 == rlx_stats(block_views(blocks@))[0].0,
        r@[0].1 == rlx_stats(block_views(blocks@))[0].1,
{
    let ghost bs = block_views(blocks@);
    let mut rules: usize = 0;
    let mut i: usize = 0;
    while i < blocks.len()
        invariant
            i <= blocks@.len(),
            bs == block_views(blocks@),
            rules == child_count(bs.take(i as int), "rule"@),
        decreases blocks.len() - i,
    {
        assert(bs.take(i + 1).drop_last() =~= bs.take(i as int));
        assert(bs.take(i + 1).last() == blocks@[i as int].view());
        proof {
            lemma_child_count_bounded(bs.take(i as int), "rule"@);
        }
        if same_as(&chars_of(blocks[i].kind.as_str()), "rule") {
            rules = rules + 1;
        }
        i = i + 1;
    }
    assert(bs.take(bs.len() as int) =~= bs);
    vec![(StatKind::Rules, rules)]
}

} // verus!
