//! Counting over the top of a syntax tree: the lexd and constraint-grammar
//! formats, whose grammars produce the tree.

use vstd::prelude::*;

use crate::kinds::StatKind;
use crate::lexc::chars_seq;
use crate::text::{chars_of, same_as};

verus! {

/// A child of the tree's root, with its own children as (node kind, source
/// text) pairs.
pub struct Block {
    pub kind: String,
    pub parts: Vec<(String, String)>,
}

pub type PartView = (Seq<char>, Seq<char>);

pub type BlockView = (Seq<char>, Seq<PartView>);

impl Block {
    pub open spec fn view(&self) -> BlockView {
        (self.kind@, self.parts@.map_values(|p: (String, String)| (p.0@, p.1@)))
    }
}

pub open spec fn block_views(bs: Seq<Block>) -> Seq<BlockView> {
    bs.map_values(|b: Block| b.view())
}

/// How many parts of `ps` are of kind `kind`.
pub open spec fn kind_count(ps: Seq<PartView>, kind: Seq<char>) -> nat
    decreases ps.len(),
{
    if ps.len() == 0 {
        0
    } else {
        kind_count(ps.drop_last(), kind) + if ps.last().0 == kind {
            1nat
        } else {
            0nat
        }
    }
}

/// How many parts of kind `kind` the blocks of kind `block` hold.
pub open spec fn part_count(bs: Seq<BlockView>, block: Seq<char>, kind: Seq<char>) -> nat
    decreases bs.len(),
{
    if bs.len() == 0 {
        0
    } else {
        part_count(bs.drop_last(), block, kind) + if bs.last().0 == block {
            kind_count(bs.last().1, kind)
        } else {
            0
        }
    }
}

/// How many parts all the blocks hold.
pub open spec fn total_parts(bs: Seq<BlockView>) -> nat
    decreases bs.len(),
{
    if bs.len() == 0 {
        0
    } else {
        total_parts(bs.drop_last()) + bs.last().1.len()
    }
}

/// The texts of the identifiers among `ps`.
pub open spec fn identifiers(ps: Seq<PartView>) -> Set<Seq<char>>
    decreases ps.len(),
{
    if ps.len() == 0 {
        Set::empty()
    } else if ps.last().0 == "identifier"@ {
        identifiers(ps.drop_last()).insert(ps.last().1)
    } else {
        identifiers(ps.drop_last())
    }
}

/// The names that one block gives: the texts of its identifiers, and the
/// empty name where `start` is given and the block's first part is of that
/// kind.
pub open spec fn names_in(b: BlockView, start: Option<Seq<char>>) -> Set<Seq<char>> {
    if start is Some && b.1.len() > 0 && b.1[0].0 == start->Some_0 {
        identifiers(b.1).insert(Seq::empty())
    } else {
        identifiers(b.1)
    }
}

/// The distinct names of the blocks of kind `block`.
pub open spec fn block_names(bs: Seq<BlockView>, block: Seq<char>, start: Option<Seq<char>>) -> Set<Seq<char>>
    decreases bs.len(),
{
    if bs.len() == 0 {
        Set::empty()
    } else if bs.last().0 == block {
        block_names(bs.drop_last(), block, start).union(names_in(bs.last(), start))
    } else {
        block_names(bs.drop_last(), block, start)
    }
}

/// How many children of the root are of kind `kind`.
pub open spec fn child_count(bs: Seq<BlockView>, kind: Seq<char>) -> nat
    decreases bs.len(),
{
    if bs.len() == 0 {
        0
    } else {
        child_count(bs.drop_last(), kind) + if bs.last().0 == kind {
            1nat
        } else {
            0nat
        }
    }
}

/// The statistics of a lexd file whose syntax tree's root has these children:
/// distinct lexicon names, lexicon lines, distinct pattern names (a block that
/// opens with a bare pattern start names the unnamed pattern), pattern lines.
pub open spec fn lexd_stats(bs: Seq<BlockView>) -> Seq<(StatKind, nat)> {
    seq![
        (StatKind::Lexicons, block_names(bs, "lexicon_block"@, None).len()),
        (StatKind::LexiconEntries, part_count(bs, "lexicon_block"@, "lexicon_line"@)),
        (StatKind::Patterns, block_names(bs, "pattern_block"@, Some("pattern_start"@)).len()),
        (StatKind::PatternEntries, part_count(bs, "pattern_block"@, "pattern_line"@)),
    ]
}

/// The statistics of a constraint-grammar file whose syntax tree's root has
/// these children: its rules.
pub open spec fn rlx_stats(bs: Seq<BlockView>) -> Seq<(StatKind, nat)> {
    seq![(StatKind::Rules, child_count(bs, "rule"@))]
}

/// Adds `x` to a list of distinct names.
fn add_name(names: &mut Vec<Vec<char>>, x: Vec<char>)
    requires
        chars_seq(old(names)@).no_duplicates(),
    ensures
        chars_seq(final(names)@).no_duplicates(),
        chars_seq(final(names)@).to_set() == chars_seq(old(names)@).to_set().insert(x@),
{
    let ghost before = chars_seq(names@);
    let mut i: usize = 0;
    while i < names.len()
        invariant
            i <= names@.len(),
            before == chars_seq(names@),
            before.no_duplicates(),
            forall|m: int| 0 <= m < i ==> names@[m]@ != x@,
        decreases names.len() - i,
    {
        if crate::text::same_chars(&names[i], &x) {
            assert(before[i as int] == x@);
            assert(before.to_set().insert(x@) =~= before.to_set());
            return;
        }
        i = i + 1;
    }
    let ghost xv = x@;
    names.push(x);
    assert(chars_seq(names@) =~= before.push(xv));
    proof {
        before.lemma_push_to_set_commute(xv);
        assert(!before.contains(xv)) by {
            if before.contains(xv) {
                let m = choose|m: int| 0 <= m < before.len() && before[m] == xv;
                assert(names@[m]@ == xv);
            }
        }
    }
}

proof fn lemma_part_count_bounded(bs: Seq<BlockView>, block: Seq<char>, kind: Seq<char>)
    ensures
        part_count(bs, block, kind) <= total_parts(bs),
    decreases bs.len(),
{
    if bs.len() > 0 {
        lemma_part_count_bounded(bs.drop_last(), block, kind);
        lemma_kind_count_bounded(bs.last().1, kind);
    }
}

proof fn lemma_kind_count_bounded(ps: Seq<PartView>, kind: Seq<char>)
    ensures
        kind_count(ps, kind) <= ps.len(),
    decreases ps.len(),
{
    if ps.len() > 0 {
        lemma_kind_count_bounded(ps.drop_last(), kind);
    }
}

proof fn lemma_kind_count_prefix(ps: Seq<PartView>, k: int, kind: Seq<char>)
    requires
        0 <= k <= ps.len(),
    ensures
        kind_count(ps.take(k), kind) <= kind_count(ps, kind),
    decreases ps.len() - k,
{
    if k < ps.len() {
        assert(ps.take(k + 1).drop_last() =~= ps.take(k));
        lemma_kind_count_prefix(ps, k + 1, kind);
    } else {
        assert(ps.take(k) =~= ps);
    }
}

proof fn lemma_total_parts_prefix(bs: Seq<BlockView>, i: int)
    requires
        0 <= i <= bs.len(),
    ensures
        total_parts(bs.take(i)) <= total_parts(bs),
    decreases bs.len() - i,
{
    if i < bs.len() {
        assert(bs.take(i + 1).drop_last() =~= bs.take(i));
        lemma_total_parts_prefix(bs, i + 1);
    } else {
        assert(bs.take(i) =~= bs);
    }
}

/// The distinct names and the number of parts of kind `line` of the blocks of
/// kind `block`.
pub fn tally(blocks: &Vec<Block>, block: &str, line: &str, start: Option<&str>) -> (r: (usize, usize))
    requires
        total_parts(block_views(blocks@)) <= usize::MAX,
    ensures
        block_names(block_views(blocks@), block@, match start { Some(s) => Some(s@), None => None }).finite(),
        r.0 == block_names(block_views(blocks@), block@, match start { Some(s) => Some(s@), None => None }).len(),
        r.1 == part_count(block_views(blocks@), block@, line@),
{
    let ghost bs = block_views(blocks@);
    let ghost st = match start { Some(s) => Some(s@), None => None::<Seq<char>> };
    let mut names: Vec<Vec<char>> = Vec::new();
    let mut lines: usize = 0;
    let mut i: usize = 0;
    assert(chars_seq(names@).to_set() =~= Set::<Seq<char>>::empty());
    while i < blocks.len()
        invariant
            i <= blocks@.len(),
            bs == block_views(blocks@),
            total_parts(bs) <= usize::MAX,
            st == match start { Some(s) => Some(s@), None => None::<Seq<char>> },
            chars_seq(names@).no_duplicates(),
            chars_seq(names@).to_set() == block_names(bs.take(i as int), block@, st),
            lines == part_count(bs.take(i as int), block@, line@),
        decreases blocks.len() - i,
    {
        assert(bs.take(i + 1).drop_last() =~= bs.take(i as int));
        let b = &blocks[i];
        let ghost bv = b.view();
        assert(bs.take(i + 1).last() == bv);
        if same_as(&chars_of(b.kind.as_str()), block) {
            let ghost base = chars_seq(names@).to_set();
            proof {
                lemma_total_parts_prefix(bs, i + 1);
                lemma_part_count_bounded(bs.take(i + 1), block@, line@);
            }
            let mut opened = false;
            if let Some(s) = start {
                if b.parts.len() > 0 && same_as(&chars_of(b.parts[0].0.as_str()), s) {
                    add_name(&mut names, Vec::new());
                    opened = true;
                }
            }
            assert(opened == (st is Some && bv.1.len() > 0 && bv.1[0].0 == st->Some_0));
            let ghost count0 = lines as nat;
            let mut k: usize = 0;
            assert(bv.1.take(0) =~= Seq::<PartView>::empty());
            assert(base.union(identifiers(bv.1.take(0))).union(
                if opened { set![Seq::<char>::empty()] } else { Set::empty() },
            ) =~= chars_seq(names@).to_set());
            while k < b.parts.len()
                invariant
                    k <= b.parts@.len(),
                    bv == b.view(),
                    chars_seq(names@).no_duplicates(),
                    chars_seq(names@).to_set() == base.union(identifiers(bv.1.take(k as int))).union(
                        if opened { set![Seq::<char>::empty()] } else { Set::empty() },
                    ),
                    count0 + kind_count(bv.1, line@) <= usize::MAX,
                    lines == count0 + kind_count(bv.1.take(k as int), line@),
                decreases b.parts.len() - k,
            {
                let ghost ps = bv.1;
                assert(ps.take(k + 1).drop_last() =~= ps.take(k as int));
                assert(ps.take(k + 1).last() == (b.parts@[k as int].0@, b.parts@[k as int].1@));
                let ghost prev = chars_seq(names@).to_set();
                if same_as(&chars_of(b.parts[k].0.as_str()), "identifier") {
                    add_name(&mut names, chars_of(b.parts[k].1.as_str()));
                }
                assert(chars_seq(names@).to_set() =~= base.union(identifiers(ps.take(k + 1))).union(
                    if opened { set![Seq::<char>::empty()] } else { Set::empty() },
                ));
                if same_as(&chars_of(b.parts[k].0.as_str()), line) {
                    proof {
                        lemma_kind_count_prefix(ps, k + 1, line@);
                    }
                    lines = lines + 1;
                }
                k = k + 1;
            }
            assert(bv.1.take(bv.1.len() as int) =~= bv.1);
            assert(chars_seq(names@).to_set() =~= block_names(bs.take(i + 1), block@, st));
        }
        i = i + 1;
    }
    assert(bs.take(bs.len() as int) =~= bs);
    proof {
        chars_seq(names@).unique_seq_to_set();
    }
    (names.len(), lines)
}

pub proof fn lemma_child_count_bounded(bs: Seq<BlockView>, kind: Seq<char>)
    ensures
        child_count(bs, kind) <= bs.len(),
    decreases bs.len(),
{
    if bs.len() > 0 {
        lemma_child_count_bounded(bs.drop_last(), kind);
    }
}

} // verus!
