//! Statistics of one file, chosen by its kind.

use vstd::prelude::*;

use crate::kinds::{FileKind, StatKind};
use crate::text::{chars_of, lines_of, split_lines};
use crate::tree::{block_views, lexd_stats, rlx_stats, total_parts, Block};
use crate::xml::{bidix_stats, monodix_stats, transfer_stats, xml_outcome, xml_reading};

verus! {

/// Why the statistics of a file could not be computed.
#[derive(Clone, Debug)]
pub enum StatsError {
    /// The XML reader stopped at byte `position` of the file at `path`.
    Xml { position: usize, path: String },
    /// A lexc file has no `Root` lexicon.
    MissingRoot,
    /// A lexc `LEXICON` line (numbered from zero) names no lexicon.
    LexiconNameMissing { line: usize },
    /// A lexd or constraint-grammar file for which no syntax tree was given.
    Unparsed,
}

/// How many of the lines begin with a double quote.
pub open spec fn quoted_lines(lines: Seq<Seq<char>>) -> nat
    decreases lines.len(),
{
    if lines.len() == 0 {
        0
    } else {
        quoted_lines(lines.drop_last()) + if lines.last().len() > 0 && lines.last()[0] == '"' {
            1nat
        } else {
            0nat
        }
    }
}

proof fn lemma_quoted_bounded(lines: Seq<Seq<char>>)
    ensures
        quoted_lines(lines) <= lines.len(),
    decreases lines.len(),
{
    if lines.len() > 0 {
        lemma_quoted_bounded(lines.drop_last());
    }
}

/// The statistics of a two-level rule file: its rules are the lines that
/// begin with a double quote.
pub fn get_twol_stats(body: &str) -> (r: Vec<(StatKind, usize)>)
    ensures
        r@.len() == 1,
        r@[0].0 == StatKind::Rules,
        r@[0].1 == quoted_lines(lines_of(body@)),
{
    let lines = split_lines(&chars_of(body));
    let ghost ls = lines_of(body@);
    let mut rules: usize = 0;
    let mut i: usize = 0;
    while i < lines.len()
        invariant
            i <= lines@.len(),
            ls == lines_of(body@),
            lines@.len() == ls.len(),
            forall|k: int| 0 <= k < lines@.len() ==> #[trigger] lines@[k]@ == ls[k],
            rules == quoted_lines(ls.take(i as int)),
        decreases lines.len() - i,
    {
        assert(ls.take(i + 1).drop_last() =~= ls.take(i as int));
        assert(ls.take(i + 1).last() == lines@[i as int]@);
        proof {
            lemma_quoted_bounded(ls.take(i as int));
        }
        if lines[i].len() > 0 && lines[i][0] == '"' {
            rules = rules + 1;
        }
        i = i + 1;
    }
    assert(ls.take(ls.len() as int) =~= ls);
    vec![(StatKind::Rules, rules)]
}

/// Whether `r` is what a parser gives for a file of `kind` with this body,
/// path and, for the grammar-parsed kinds, the children of its syntax tree's
/// root.
pub open spec fn stats_outcome(
    kind: FileKind,
    body: Seq<char>,
    path: Seq<char>,
    tree: Option<Seq<crate::tree::BlockView>>,
    r: Result<Vec<(StatKind, usize)>, StatsError>,
) -> bool {
    match kind {
        FileKind::Monodix | FileKind::MetaMonodix => xml_outcome(xml_reading(body), path, |evs| monodix_stats(evs), r),
        FileKind::Bidix | FileKind::MetaBidix | FileKind::Postdix => xml_outcome(xml_reading(body), path, |evs| bidix_stats(evs), r),
        FileKind::Transfer => xml_outcome(xml_reading(body), path, |evs| transfer_stats(evs), r),
        FileKind::Twol => r is Ok && r->Ok_0@.len() == 1 && r->Ok_0@[0].0 == StatKind::Rules
            && r->Ok_0@[0].1 == quoted_lines(lines_of(body)),
        FileKind::Lexc => crate::lexc::lexc_outcome(body, r),
        FileKind::Rlx => match tree {
            None => r == Err::<Vec<(StatKind, usize)>, StatsError>(StatsError::Unparsed),
            Some(bs) => r is Ok && r->Ok_0@.len() == 1 && r->Ok_0@[0].0 == rlx_stats(bs)[0].0
                && r->Ok_0@[0].1 == rlx_stats(bs)[0].1,
        },
        FileKind::Lexd => match tree {
            None => r == Err::<Vec<(StatKind, usize)>, StatsError>(StatsError::Unparsed),
            Some(bs) => r is Ok && r->Ok_0@.len() == 4 && forall|i: int| 0 <= i < 4 ==> #[trigger] r->Ok_0@[i].0 == lexd_stats(bs)[i].0
                && r->Ok_0@[i].1 == lexd_stats(bs)[i].1,
        },
    }
}

/// The statistics of a file of `kind` with this body, found at `file_path`.
/// Lexd and constraint-grammar files are counted over `tree`, the children of
/// the root of their syntax tree.
pub fn get_file_stats(kind: FileKind, body: &str, file_path: &str, tree: &Option<Vec<Block>>) -> (r: Result<
    Vec<(StatKind, usize)>,
    StatsError,
>)
    requires
        tree matches Some(bs) ==> total_parts(block_views(bs@)) <= usize::MAX,
    ensures
        stats_outcome(kind, body@, file_path@, match tree { Some(bs) => Some(block_views(bs@)), None => None }, r),
{
    match kind {
        FileKind::Monodix | FileKind::MetaMonodix => crate::xml::get_monodix_stats(body, file_path),
        FileKind::Bidix | FileKind::MetaBidix | FileKind::Postdix => crate::xml::get_bidix_stats(body, file_path),
        FileKind::Transfer => crate::xml::get_transfer_stats(body, file_path),
        FileKind::Twol => Ok(get_twol_stats(body)),
        FileKind::Lexc => crate::lexc::get_stats(body),
        FileKind::Rlx => match tree {
            Some(bs) => Ok(crate::rlx::get_stats(bs)),
            None => Err(StatsError::Unparsed),
        },
        FileKind::Lexd => match tree {
            Some(bs) => Ok(crate::lexd::get_stats(bs)),
            None => Err(StatsError::Unparsed),
        },
    }
}

} // verus!
