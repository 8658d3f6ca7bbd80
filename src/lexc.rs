//! Stem counts of lexc lexicons.
//!
//! A lexc file is read line by line. A `LEXICON name` line opens a lexicon;
//! the lines after it, up to the next such line, belong to it. A content line
//! is an entry (a lemma and a set of continuation lexicons) or a pointer to
//! another lexicon. The stems are the distinct entries of the lexicons that can
//! be reached from `Root` by following pointers and continuations.

use vstd::prelude::*;

use crate::kinds::StatKind;
use crate::stats::StatsError;
use crate::text::{
    chars_of, has_char, lines_of, split_lines, split_tokens, starts_with_lit, tokens_of, trim, trimmed,
};

verus! {

/// The state of cleaning a line after some prefix: the characters kept, whether
/// the last character was an unescaped `%`, and whether a comment has begun.
pub open spec fn clean_state(s: Seq<char>) -> (Seq<char>, bool, bool)
    decreases s.len(),
{
    if s.len() == 0 {
        (Seq::empty(), false, false)
    } else {
        let (out, escaping, comment) = clean_state(s.drop_last());
        let c = s.last();
        if comment {
            (out, escaping, comment)
        } else if escaping {
            (out.push(c), false, false)
        } else if c == '%' {
            (out, true, false)
        } else if c == '!' {
            (out, false, true)
        } else {
            (out.push(c), false, false)
        }
    }
}

/// A line with each escape `%x` replaced by `x` and everything from the first
/// unescaped `!` removed; a `%` that ends the line is kept.
pub open spec fn uncommented(s: Seq<char>) -> Seq<char> {
    let (out, escaping, _comment) = clean_state(s);
    if escaping {
        out.push('%')
    } else {
        out
    }
}

/// A line unescaped, without its comment and without surrounding white space.
pub open spec fn clean_line(s: Seq<char>) -> Seq<char> {
    trim(uncommented(s))
}

pub fn clean(line: &Vec<char>) -> (r: Vec<char>)
    ensures
        r@ == clean_line(line@),
{
    let mut out: Vec<char> = Vec::new();
    let mut escaping = false;
    let mut comment = false;
    let mut i: usize = 0;
    while i < line.len()
        invariant
            i <= line@.len(),
            (out@, escaping, comment) == clean_state(line@.take(i as int)),
        decreases line.len() - i,
    {
        assert(line@.take(i + 1).drop_last() =~= line@.take(i as int));
        let c = line[i];
        if comment {
        } else if escaping {
            out.push(c);
            escaping = false;
        } else if c == '%' {
            escaping = true;
        } else if c == '!' {
            comment = true;
        } else {
            out.push(c);
        }
        i = i + 1;
    }
    assert(line@.take(line@.len() as int) =~= line@);
    if escaping {
        out.push('%');
    }
    trimmed(&out)
}

/// The state of splitting at `sep` after some prefix: the pieces completed
/// and the piece being read.
pub open spec fn pieces_state(s: Seq<char>, sep: char) -> (Seq<Seq<char>>, Seq<char>)
    decreases s.len(),
{
    if s.len() == 0 {
        (Seq::empty(), Seq::empty())
    } else {
        let (done, cur) = pieces_state(s.drop_last(), sep);
        if s.last() == sep {
            (done.push(cur), Seq::empty())
        } else {
            (done, cur.push(s.last()))
        }
    }
}

/// The pieces of `s` between occurrences of `sep`, as `str::split` gives
/// them: always at least one, possibly empty.
pub open spec fn pieces(s: Seq<char>, sep: char) -> Seq<Seq<char>> {
    pieces_state(s, sep).0.push(pieces_state(s, sep).1)
}

pub fn split_at_char(s: &Vec<char>, sep: char) -> (r: Vec<Vec<char>>)
    ensures
        r@.len() == pieces(s@, sep).len(),
        forall|i: int| 0 <= i < r@.len() ==> #[trigger] r@[i]@ == pieces(s@, sep)[i],
{
    let mut done: Vec<Vec<char>> = Vec::new();
    let mut cur: Vec<char> = Vec::new();
    let mut i: usize = 0;
    while i < s.len()
        invariant
            i <= s.len(),
            done@.len() == pieces_state(s@.take(i as int), sep).0.len(),
            forall|k: int|
                0 <= k < done@.len() ==> #[trigger] done@[k]@ == pieces_state(
                    s@.take(i as int),
                    sep,
                ).0[k],
            cur@ == pieces_state(s@.take(i as int), sep).1,
        decreases s.len() - i,
    {
        assert(s@.take(i + 1).drop_last() =~= s@.take(i as int));
        if s[i] == sep {
            done.push(cur);
            cur = Vec::new();
        } else {
            cur.push(s[i]);
        }
        i = i + 1;
    }
    assert(s@.take(s@.len() as int) =~= s@);
    done.push(cur);
    done
}

/// What a content line of a lexicon says.
pub enum LineParse {
    /// An entry: its lemma and its continuation lexicons.
    Entry(Vec<char>, Vec<Vec<char>>),
    /// A pointer to another lexicon.
    Pointer(Vec<char>),
    /// A line that is neither; it is skipped.
    Unparsable,
}

/// The view of a parsed line: an entry as (lemma, continuations), a pointer
/// as its target.
pub enum LineView {
    Entry(Seq<char>, Seq<Seq<char>>),
    Pointer(Seq<char>),
    Unparsable,
}

impl LineParse {
    pub open spec fn view(&self) -> LineView {
        match self {
            LineParse::Entry(l, cs) => LineView::Entry(l@, cs@.map_values(|c: Vec<char>| c@)),
            LineParse::Pointer(p) => LineView::Pointer(p@),
            LineParse::Unparsable => LineView::Unparsable,
        }
    }
}

/// The part of a line before its first `;`, or the whole line.
pub open spec fn before_semicolon(s: Seq<char>) -> Seq<char> {
    pieces(s, ';')[0]
}

/// How a cleaned content line reads. A line of three or more tokens, or one
/// with a colon, is an entry: before its first `;`, the first token is the
/// lemma and the second, split at `-`, gives the continuation lexicons. A line
/// of two tokens is a pointer: what stands before its `;`, which must hold no
/// space. Anything else cannot be read.
pub open spec fn line_view(s: Seq<char>) -> LineView {
    let n = tokens_of(s).len();
    if n >= 3 || s.contains(':') {
        let ts = tokens_of(before_semicolon(s));
        if ts.len() >= 2 {
            LineView::Entry(ts[0], pieces(ts[1], '-'))
        } else {
            LineView::Unparsable
        }
    } else if n == 2 {
        let p = trim(before_semicolon(s));
        if p.contains(' ') {
            LineView::Unparsable
        } else {
            LineView::Pointer(p)
        }
    } else {
        LineView::Unparsable
    }
}

pub fn parse_line(line: &Vec<char>) -> (r: LineParse)
    ensures
        r.view() == line_view(line@),
{
    let n = split_tokens(line).len();
    if n >= 3 || has_char(line, ':') {
        let head = split_at_char(line, ';');
        let ts = split_tokens(&head[0]);
        if ts.len() >= 2 {
            let conts = split_at_char(&ts[1], '-');
            let ghost want = pieces(ts@[1]@, '-');
            assert(conts@.map_values(|c: Vec<char>| c@) =~= want);
            LineParse::Entry(ts[0].clone(), conts)
        } else {
            LineParse::Unparsable
        }
    } else if n == 2 {
        let head = split_at_char(line, ';');
        let p = trimmed(&head[0]);
        if has_char(&p, ' ') {
            LineParse::Unparsable
        } else {
            LineParse::Pointer(p)
        }
    } else {
        LineParse::Unparsable
    }
}

/// A lexicon: its name, its pointers to other lexicons, and its entries as
/// (lemma, continuation lexicons).
pub struct Lexicon {
    pub name: Vec<char>,
    pub pointers: Vec<Vec<char>>,
    pub entries: Vec<(Vec<char>, Vec<Vec<char>>)>,
}

/// The view of a lexicon's entry.
pub type EntryView = (Seq<char>, Seq<Seq<char>>);

/// The view of a lexicon.
pub type LexView = (Seq<char>, Seq<Seq<char>>, Seq<EntryView>);

pub open spec fn chars_seq(v: Seq<Vec<char>>) -> Seq<Seq<char>> {
    v.map_values(|c: Vec<char>| c@)
}

pub open spec fn entry_view(e: (Vec<char>, Vec<Vec<char>>)) -> EntryView {
    (e.0@, chars_seq(e.1@))
}

impl Lexicon {
    pub open spec fn view(&self) -> LexView {
        (self.name@, chars_seq(self.pointers@), self.entries@.map_values(|e: (Vec<char>, Vec<Vec<char>>)| entry_view(e)))
    }
}

pub open spec fn lex_views(v: Seq<Lexicon>) -> Seq<LexView> {
    v.map_values(|l: Lexicon| l.view())
}

/// The position of the lexicon named `name`, searching from the end; -1 where
/// there is none.
pub open spec fn find_lex(lexs: Seq<LexView>, name: Seq<char>) -> int
    decreases lexs.len(),
{
    if lexs.len() == 0 {
        -1
    } else if lexs.last().0 == name {
        lexs.len() - 1
    } else {
        find_lex(lexs.drop_last(), name)
    }
}

proof fn lemma_find_lex(lexs: Seq<LexView>, name: Seq<char>)
    ensures
        -1 <= find_lex(lexs, name) < lexs.len(),
        find_lex(lexs, name) >= 0 ==> lexs[find_lex(lexs, name)].0 == name,
        find_lex(lexs, name) == -1 ==> forall|i: int| 0 <= i < lexs.len() ==> (#[trigger] lexs[i]).0 != name,
    decreases lexs.len(),
{
    if lexs.len() > 0 {
        lemma_find_lex(lexs.drop_last(), name);
        if lexs.last().0 != name {
            assert forall|i: int| 0 <= i < lexs.len() - 1 implies lexs[i] == lexs.drop_last()[i] by {}
        }
    }
}

/// The table with a lexicon named `name`, added empty at the end if there
/// is none.
pub open spec fn with_lexicon(lexs: Seq<LexView>, name: Seq<char>) -> Seq<LexView> {
    if find_lex(lexs, name) >= 0 {
        lexs
    } else {
        lexs.push((name, Seq::empty(), Seq::empty()))
    }
}

/// The table after a content line read as `v` in lexicon `i`.
pub open spec fn line_at(lexs: Seq<LexView>, i: int, v: LineView) -> Seq<LexView> {
    match v {
        LineView::Entry(l, cs) => lexs.update(i, (lexs[i].0, lexs[i].1, lexs[i].2.push((l, cs)))),
        LineView::Pointer(p) => lexs.update(i, (lexs[i].0, lexs[i].1.push(p), lexs[i].2)),
        LineView::Unparsable => lexs,
    }
}

/// The table after a content line read as `v` in lexicon `name`.
pub open spec fn with_line(lexs: Seq<LexView>, name: Seq<char>, v: LineView) -> Seq<LexView> {
    let i = find_lex(lexs, name);
    if i < 0 {
        lexs
    } else {
        line_at(lexs, i, v)
    }
}

/// Whether `lit` occurs in `s`.
pub open spec fn occurs(s: Seq<char>, lit: Seq<char>) -> bool {
    exists|i: int| 0 <= i && i + lit.len() <= s.len() && #[trigger] s.subrange(i, i + lit.len()) == lit
}

/// Whether a line counts towards the vanilla stems: it does not mention
/// `Use/MT`.
pub open spec fn vanilla(line: Seq<char>) -> bool {
    !occurs(line, "Use/MT"@)
}

/// The state after reading lines: the current lexicon and the table, or the
/// number of the first `LEXICON` line that names no lexicon. With
/// `vanilla_only`, content lines that mention `Use/MT` are passed over.
pub open spec fn table_state(lines: Seq<Seq<char>>, vanilla_only: bool) -> Result<
    (Option<Seq<char>>, Seq<LexView>),
    nat,
>
    decreases lines.len(),
{
    if lines.len() == 0 {
        Ok((None, Seq::empty()))
    } else {
        match table_state(lines.drop_last(), vanilla_only) {
            Err(n) => Err(n),
            Ok((cur, lexs)) => {
                let raw = lines.last();
                let c = clean_line(raw);
                if c.len() >= 7 && c.take(7) == "LEXICON"@ {
                    let ts = tokens_of(c);
                    if ts.len() < 2 {
                        Err((lines.len() - 1) as nat)
                    } else {
                        Ok((Some(ts[1]), with_lexicon(lexs, ts[1])))
                    }
                } else if c.len() > 0 && cur is Some && (!vanilla_only || vanilla(raw)) {
                    Ok((cur, with_line(lexs, cur->Some_0, line_view(c))))
                } else {
                    Ok((cur, lexs))
                }
            },
        }
    }
}

/// The lexicons of a file with these lines, or the number of the first
/// `LEXICON` line that names no lexicon.
pub open spec fn lexicon_table(lines: Seq<Seq<char>>, vanilla_only: bool) -> Result<Seq<LexView>, nat> {
    match table_state(lines, vanilla_only) {
        Ok((_, lexs)) => Ok(lexs),
        Err(n) => Err(n),
    }
}

fn mentions(s: &Vec<char>, lit: &str) -> (r: bool)
    ensures
        r == occurs(s@, lit@),
{
    let b = crate::text::chars_of(lit);
    if b.len() > s.len() {
        return false;
    }
    let mut i: usize = 0;
    while i <= s.len() - b.len()
        invariant
            b@ == lit@,
            b.len() <= s.len(),
            forall|j: int| 0 <= j < i ==> #[trigger] s@.subrange(j, j + b@.len()) != b@,
        decreases s.len() - i,
    {
        let mut k: usize = 0;
        let mut same = true;
        while k < b.len()
            invariant
                b.len() <= s.len(),
                i + b.len() <= s.len(),
                k <= b.len(),
                same == forall|m: int| 0 <= m < k ==> s@[i + m] == b@[m],
            decreases b.len() - k,
        {
            if s[i + k] != b[k] {
                same = false;
            }
            k = k + 1;
        }
        if same {
            assert(s@.subrange(i as int, i + b@.len()) =~= b@);
            return true;
        }
        assert(s@.subrange(i as int, i + b@.len()) != b@) by {
            let m = choose|m: int| 0 <= m < b@.len() && s@[i + m] != b@[m];
            assert(s@.subrange(i as int, i + b@.len())[m] != b@[m]);
        }
        i = i + 1;
    }
    proof {
        assert forall|j: int| 0 <= j && j + lit@.len() <= s@.len() implies #[trigger] s@.subrange(j, j + lit@.len()) != lit@ by {
            assert(j < i);
        }
    }
    false
}

/// Once a `LEXICON` line names no lexicon, the reading stays failed.
proof fn lemma_error_stays(lines: Seq<Seq<char>>, k: int, n: nat, vanilla_only: bool)
    requires
        0 <= k <= lines.len(),
        table_state(lines.take(k), vanilla_only) == Err::<(Option<Seq<char>>, Seq<LexView>), nat>(n),
    ensures
        table_state(lines, vanilla_only) == Err::<(Option<Seq<char>>, Seq<LexView>), nat>(n),
    decreases lines.len() - k,
{
    if lines.len() == k {
        assert(lines.take(k) =~= lines);
    } else {
        assert(lines.drop_last().take(k) =~= lines.take(k));
        lemma_error_stays(lines.drop_last(), k, n, vanilla_only);
    }
}

fn position_of(lexs: &Vec<Lexicon>, name: &Vec<char>) -> (r: Option<usize>)
    ensures
        r is Some ==> find_lex(lex_views(lexs@), name@) == r->Some_0 as int,
        r is None ==> find_lex(lex_views(lexs@), name@) == -1,
{
    let mut i: usize = lexs.len();
    assert(lex_views(lexs@).take(lexs@.len() as int) =~= lex_views(lexs@));
    while i > 0
        invariant
            i <= lexs@.len(),
            find_lex(lex_views(lexs@), name@) == find_lex(lex_views(lexs@).take(i as int), name@),
        decreases i,
    {
        assert(lex_views(lexs@).take(i as int).drop_last() =~= lex_views(lexs@).take(i - 1));
        if crate::text::same_chars(&lexs[i - 1].name, name) {
            return Some(i - 1);
        }
        i = i - 1;
    }
    None
}

/// Records a parsed content line in lexicon `k`: an entry joins its entries,
/// a pointer its pointers.
pub fn update_lexicons(lexs: &mut Vec<Lexicon>, k: usize, parsed: LineParse)
    requires
        k < old(lexs)@.len(),
    ensures
        lex_views(final(lexs)@) == line_at(lex_views(old(lexs)@), k as int, parsed.view()),
{
    let ghost before = lex_views(lexs@);
    match parsed {
        LineParse::Entry(l, cs) => {
            let ghost ev = (l@, chars_seq(cs@));
            let ghost old_lexs = lexs@;
            let mut lex = lexs.remove(k);
            let ghost lv = lex.view();
            assert(lv == before[k as int]);
            lex.entries.push((l, cs));
            assert(lex.view().2 =~= lv.2.push(ev));
            assert(lex.view().1 =~= lv.1);
            lexs.insert(k, lex);
            assert(lexs@ =~= old_lexs.update(k as int, lex));
            assert(lex_views(lexs@) =~= before.update(k as int, (before[k as int].0, before[k as int].1, before[k as int].2.push(ev))));
        },
        LineParse::Pointer(p) => {
            let ghost pv = p@;
            let ghost old_lexs = lexs@;
            let mut lex = lexs.remove(k);
            let ghost lv = lex.view();
            assert(lv == before[k as int]);
            lex.pointers.push(p);
            assert(lex.view().1 =~= lv.1.push(pv));
            assert(lex.view().2 =~= lv.2);
            lexs.insert(k, lex);
            assert(lexs@ =~= old_lexs.update(k as int, lex));
            assert(lex_views(lexs@) =~= before.update(k as int, (before[k as int].0, before[k as int].1.push(pv), before[k as int].2)));
        },
        LineParse::Unparsable => {},
    }
}

/// The lexicons of a file with these lines, or the number of the first
/// `LEXICON` line that names no lexicon.
pub fn read_lexicons(lines: &Vec<Vec<char>>, vanilla_only: bool) -> (r: Result<Vec<Lexicon>, usize>)
    ensures
        match r {
            Ok(v) => lexicon_table(chars_seq(lines@), vanilla_only) == Ok::<Seq<LexView>, nat>(lex_views(v@)),
            Err(n) => lexicon_table(chars_seq(lines@), vanilla_only) == Err::<Seq<LexView>, nat>(n as nat),
        },
{
    let mut lexs: Vec<Lexicon> = Vec::new();
    let mut cur: Option<Vec<char>> = None;
    let mut i: usize = 0;
    assert(lex_views(lexs@) =~= Seq::<LexView>::empty());
    while i < lines.len()
        invariant
            i <= lines@.len(),
            table_state(chars_seq(lines@).take(i as int), vanilla_only) == Ok::<(Option<Seq<char>>, Seq<LexView>), nat>(
                (match cur { Some(c) => Some(c@), None => None }, lex_views(lexs@)),
            ),
        decreases lines.len() - i,
    {
        assert(chars_seq(lines@).take(i + 1).drop_last() =~= chars_seq(lines@).take(i as int));
        assert(chars_seq(lines@).take(i + 1).last() == lines@[i as int]@);
        let raw = &lines[i];
        let c = clean(raw);
        if starts_with_lit(&c, "LEXICON") {
            proof {
                reveal_strlit("LEXICON");
            }
            let ts = split_tokens(&c);
            if ts.len() < 2 {
                proof {
                    lemma_error_stays(chars_seq(lines@), (i + 1) as int, i as nat, vanilla_only);
                    assert(chars_seq(lines@).take(lines@.len() as int) =~= chars_seq(lines@));
                }
                return Err(i);
            }
            let name = ts[1].clone();
            match position_of(&lexs, &name) {
                Some(_) => {},
                None => {
                    let ghost before = lex_views(lexs@);
                    let fresh = Lexicon { name: name.clone(), pointers: Vec::new(), entries: Vec::new() };
                    assert(fresh.view().1 =~= Seq::<Seq<char>>::empty());
                    assert(fresh.view().2 =~= Seq::<EntryView>::empty());
                    lexs.push(fresh);
                    assert(chars_seq(Seq::<Vec<char>>::empty()) =~= Seq::<Seq<char>>::empty());
                    assert(lex_views(lexs@) =~= before.push((name@, Seq::empty(), Seq::empty())));
                },
            }
            cur = Some(name);
        } else if c.len() > 0 && cur.is_some() && (!vanilla_only || !mentions(raw, "Use/MT")) {
            let name = cur.clone().unwrap();
            let parsed = parse_line(&c);
            match position_of(&lexs, &name) {
                None => {},
                Some(k) => {
                    proof {
                        lemma_find_lex(lex_views(lexs@), name@);
                    }
                    update_lexicons(&mut lexs, k, parsed);
                },
            }
        }
        i = i + 1;
    }
    assert(chars_seq(lines@).take(lines@.len() as int) =~= chars_seq(lines@));
    Ok(lexs)
}

/// Whether lexicon `l` leads to the lexicon named `name`: by a pointer, or
/// as a continuation of one of its entries.
pub open spec fn leads_to(l: LexView, name: Seq<char>) -> bool {
    l.1.contains(name) || exists|k: int| 0 <= k < l.2.len() && (#[trigger] l.2[k]).1.contains(name)
}

/// Whether lexicon `i` of the table leads to lexicon `j`.
pub open spec fn edge(lexs: Seq<LexView>, i: int, j: int) -> bool {
    0 <= i < lexs.len() && 0 <= j < lexs.len() && leads_to(lexs[i], lexs[j].0)
}

/// The lexicons reached from `root` in at most `n` steps.
pub open spec fn reach_within(lexs: Seq<LexView>, root: int, n: nat) -> Set<int>
    decreases n,
{
    if n == 0 {
        set![root]
    } else {
        let prev = reach_within(lexs, root, (n - 1) as nat);
        prev.union(Set::new(|j: int| exists|i: int| prev.contains(i) && edge(lexs, i, j)))
    }
}

/// Whether lexicon `j` can be reached from lexicon `root` (itself included).
pub open spec fn reachable(lexs: Seq<LexView>, root: int, j: int) -> bool {
    exists|n: nat| #[trigger] reach_within(lexs, root, n).contains(j)
}

/// How many positions of `s` are `false`.
pub open spec fn count_false(s: Seq<bool>) -> nat
    decreases s.len(),
{
    if s.len() == 0 {
        0
    } else {
        count_false(s.drop_last()) + if s.last() {
            0nat
        } else {
            1nat
        }
    }
}

proof fn lemma_count_false_set(s: Seq<bool>, j: int)
    requires
        0 <= j < s.len(),
        !s[j],
    ensures
        count_false(s.update(j, true)) + 1 == count_false(s),
    decreases s.len(),
{
    if j < s.len() - 1 {
        assert(s.update(j, true).drop_last() =~= s.drop_last().update(j, true));
        lemma_count_false_set(s.drop_last(), j);
    } else {
        assert(s.update(j, true).drop_last() =~= s.drop_last());
    }
}

fn leads(l: &Lexicon, name: &Vec<char>) -> (r: bool)
    ensures
        r == leads_to(l.view(), name@),
{
    let mut i: usize = 0;
    while i < l.pointers.len()
        invariant
            i <= l.pointers@.len(),
            forall|m: int| 0 <= m < i ==> l.pointers@[m]@ != name@,
        decreases l.pointers.len() - i,
    {
        if crate::text::same_chars(&l.pointers[i], name) {
            assert(l.view().1[i as int] == name@);
            return true;
        }
        i = i + 1;
    }
    assert(!l.view().1.contains(name@)) by {
        if l.view().1.contains(name@) {
            let m = choose|m: int| 0 <= m < l.view().1.len() && l.view().1[m] == name@;
            assert(l.pointers@[m]@ == name@);
        }
    }
    let mut k: usize = 0;
    while k < l.entries.len()
        invariant
            k <= l.entries@.len(),
            !l.view().1.contains(name@),
            forall|m: int| 0 <= m < k ==> !(#[trigger] l.view().2[m]).1.contains(name@),
        decreases l.entries.len() - k,
    {
        let conts = &l.entries[k].1;
        let mut c: usize = 0;
        while c < conts.len()
            invariant
                c <= conts@.len(),
                *conts == l.entries@[k as int].1,
                k < l.entries@.len(),
                forall|m: int| 0 <= m < c ==> conts@[m]@ != name@,
            decreases conts.len() - c,
        {
            if crate::text::same_chars(&conts[c], name) {
                assert(l.view().2[k as int].1[c as int] == name@);
                return true;
            }
            c = c + 1;
        }
        assert(!l.view().2[k as int].1.contains(name@)) by {
            if l.view().2[k as int].1.contains(name@) {
                let m = choose|m: int| 0 <= m < l.view().2[k as int].1.len() && l.view().2[k as int].1[m] == name@;
                assert(conts@[m]@ == name@);
            }
        }
        k = k + 1;
    }
    false
}

/// Reachability follows every step: what a reachable lexicon leads to is
/// reachable too, and so is `root` itself.
pub proof fn lemma_reachable_step(lexs: Seq<LexView>, root: int, i: int, j: int)
    requires
        reachable(lexs, root, i),
        edge(lexs, i, j),
    ensures
        reachable(lexs, root, j),
        reachable(lexs, root, root),
{
    let n = choose|n: nat| #[trigger] reach_within(lexs, root, n).contains(i);
    assert(reach_within(lexs, root, n + 1).contains(j));
    assert(reach_within(lexs, root, 0).contains(root));
}

/// Every lexicon that can be reached is marked, once the marked ones are
/// closed under steps and include `root`.
proof fn lemma_closed_marks_reachable(lexs: Seq<LexView>, root: int, marked: Seq<bool>, n: nat)
    requires
        marked.len() == lexs.len(),
        0 <= root < lexs.len(),
        marked[root],
        forall|i: int, j: int| 0 <= i < lexs.len() && marked[i] && #[trigger] edge(lexs, i, j) ==> marked[j],
    ensures
        forall|j: int| #[trigger] reach_within(lexs, root, n).contains(j) ==> 0 <= j < lexs.len() && marked[j],
    decreases n,
{
    if n > 0 {
        lemma_closed_marks_reachable(lexs, root, marked, (n - 1) as nat);
        let prev = reach_within(lexs, root, (n - 1) as nat);
        assert forall|j: int| #[trigger] reach_within(lexs, root, n).contains(j) implies 0 <= j < lexs.len() && marked[j] by {
            if !prev.contains(j) {
                let i = choose|i: int| prev.contains(i) && edge(lexs, i, j);
                assert(marked[i]);
            }
        }
    }
}

/// The lexicons that can be reached from lexicon `root`, as marks.
pub fn get_all_lexicons(lexs: &Vec<Lexicon>, root: usize) -> (marked: Vec<bool>)
    requires
        root < lexs@.len(),
    ensures
        marked@.len() == lexs@.len(),
        forall|j: int| 0 <= j < lexs@.len() ==> (marked@[j] <==> reachable(lex_views(lexs@), root as int, j)),
{
    let ghost v = lex_views(lexs@);
    let n = lexs.len();
    let mut marked: Vec<bool> = Vec::new();
    let mut m: usize = 0;
    while m < n
        invariant
            m <= n,
            marked@.len() == m,
            forall|j: int| 0 <= j < m ==> !marked@[j],
        decreases n - m,
    {
        marked.push(false);
        m = m + 1;
    }
    proof {
        lemma_count_false_set(marked@, root as int);
        assert(reach_within(v, root as int, 0).contains(root as int));
    }
    marked.set(root, true);
    let mut stack: Vec<usize> = vec![root];
    while stack.len() > 0
        invariant
            n == lexs@.len(),
            v == lex_views(lexs@),
            marked@.len() == n,
            root < n,
            marked@[root as int],
            forall|j: int| 0 <= j < n && marked@[j] ==> reachable(v, root as int, j),
            forall|q: int| 0 <= q < stack@.len() ==> (#[trigger] stack@[q]) < n && marked@[stack@[q] as int],
            forall|i: int, j: int|
                0 <= i < n && marked@[i] && !stack@.contains(i as usize) && #[trigger] edge(v, i, j) ==> marked@[j],
        decreases 2 * count_false(marked@) + stack@.len(),
    {
        let ghost measure = 2 * count_false(marked@) + stack@.len();
        let ghost old_stack = stack@;
        let i = stack.pop().unwrap();
        proof {
            assert(stack@.len() + 1 == measure - 2 * count_false(marked@));
            assert(stack@ =~= old_stack.drop_last());
            assert forall|a: int, b: int|
                0 <= a < n && a != i && marked@[a] && !stack@.contains(a as usize) && #[trigger] edge(v, a, b) implies marked@[b] by {
                if old_stack.contains(a as usize) {
                    let q = choose|q: int| 0 <= q < old_stack.len() && old_stack[q] == a as usize;
                    assert(q != old_stack.len() - 1);
                    assert(stack@[q] == a as usize);
                }
            }
        }
        let mut j: usize = 0;
        while j < n
            invariant
                n == lexs@.len(),
                v == lex_views(lexs@),
                marked@.len() == n,
                root < n,
                i < n,
                j <= n,
                marked@[root as int],
                marked@[i as int],
                2 * count_false(marked@) + stack@.len() < measure,
                forall|x: int| 0 <= x < n && marked@[x] ==> reachable(v, root as int, x),
                forall|q: int| 0 <= q < stack@.len() ==> (#[trigger] stack@[q]) < n && marked@[stack@[q] as int],
                forall|a: int, b: int|
                    0 <= a < n && a != i && marked@[a] && !stack@.contains(a as usize) && #[trigger] edge(v, a, b) ==> marked@[b],
                forall|b: int| 0 <= b < j && #[trigger] edge(v, i as int, b) ==> marked@[b],
            decreases n - j,
        {
            if !marked[j] && leads(&lexs[i], &lexs[j].name) {
                proof {
                    assert(v[i as int] == lexs@[i as int].view());
                    assert(edge(v, i as int, j as int));
                    let w = choose|w: nat| #[trigger] reach_within(v, root as int, w).contains(i as int);
                    assert(reach_within(v, root as int, w + 1).contains(j as int));
                    lemma_count_false_set(marked@, j as int);
                }
                let ghost old_marked = marked@;
                let ghost old_stack = stack@;
                marked.set(j, true);
                stack.push(j);
                proof {
                    assert(stack@ == old_stack.push(j));
                    assert forall|a: int, b: int|
                        0 <= a < n && a != i && marked@[a] && !stack@.contains(a as usize) && #[trigger] edge(v, a, b) implies marked@[b] by {
                        if a == j {
                            assert(stack@[stack@.len() - 1] == j);
                        } else {
                            if old_stack.contains(a as usize) {
                                let q = choose|q: int| 0 <= q < old_stack.len() && old_stack[q] == a as usize;
                                assert(stack@[q] == a as usize);
                            }
                            assert(old_marked[a]);
                            assert(old_marked[b]);
                        }
                    }
                }
            } else {
                proof {
                    if !marked@[j as int] {
                        assert(v[i as int] == lexs@[i as int].view());
                    }
                }
            }
            j = j + 1;
        }
        proof {
            assert forall|a: int, b: int|
                0 <= a < n && marked@[a] && !stack@.contains(a as usize) && #[trigger] edge(v, a, b) implies marked@[b] by {
                if a == i {
                    assert(edge(v, i as int, b) ==> 0 <= b < n);
                }
            }
        }
    }
    proof {
        assert forall|j: int| 0 <= j < n implies (marked@[j] <==> reachable(v, root as int, j)) by {
            if reachable(v, root as int, j) {
                let w = choose|w: nat| #[trigger] reach_within(v, root as int, w).contains(j);
                assert forall|a: int, b: int| 0 <= a < v.len() && marked@[a] && #[trigger] edge(v, a, b) implies marked@[b] by {
                    assert(!stack@.contains(a as usize));
                }
                lemma_closed_marks_reachable(v, root as int, marked@, w);
            }
        }
    }
    marked
}

/// An entry as a stem: its lemma and the set of its continuations.
pub open spec fn stem(e: EntryView) -> (Seq<char>, Set<Seq<char>>) {
    (e.0, e.1.to_set())
}

/// The distinct stems of the lexicons that `sel` marks.
pub open spec fn stems_of(lexs: Seq<LexView>, sel: Seq<bool>) -> Set<(Seq<char>, Set<Seq<char>>)> {
    Set::new(
        |x: (Seq<char>, Set<Seq<char>>)|
            exists|j: int, k: int|
                0 <= j < lexs.len() && j < sel.len() && sel[j] && 0 <= k < lexs[j].2.len() && x == stem(
                    #[trigger] lexs[j].2[k],
                ),
    )
}

/// The stems of the marked lexicons before entry `k` of lexicon `j`.
pub open spec fn stems_before(lexs: Seq<LexView>, sel: Seq<bool>, j: int, k: int) -> Set<
    (Seq<char>, Set<Seq<char>>),
> {
    Set::new(
        |x: (Seq<char>, Set<Seq<char>>)|
            exists|a: int, b: int|
                0 <= a < lexs.len() && a < sel.len() && sel[a] && 0 <= b < lexs[a].2.len() && (a < j || (
                a == j && b < k)) && x == stem(#[trigger] lexs[a].2[b]),
    )
}

pub open spec fn stems_seq(out: Seq<(Vec<char>, Vec<Vec<char>>)>) -> Seq<(Seq<char>, Set<Seq<char>>)> {
    out.map_values(|e: (Vec<char>, Vec<Vec<char>>)| stem(entry_view(e)))
}

fn contains_name(names: &Vec<Vec<char>>, name: &Vec<char>) -> (r: bool)
    ensures
        r == chars_seq(names@).contains(name@),
{
    let mut i: usize = 0;
    while i < names.len()
        invariant
            i <= names@.len(),
            forall|m: int| 0 <= m < i ==> names@[m]@ != name@,
        decreases names.len() - i,
    {
        if crate::text::same_chars(&names[i], name) {
            assert(chars_seq(names@)[i as int] == name@);
            return true;
        }
        i = i + 1;
    }
    assert(!chars_seq(names@).contains(name@)) by {
        if chars_seq(names@).contains(name@) {
            let m = choose|m: int| 0 <= m < chars_seq(names@).len() && chars_seq(names@)[m] == name@;
            assert(names@[m]@ == name@);
        }
    }
    false
}

fn covers(a: &Vec<Vec<char>>, b: &Vec<Vec<char>>) -> (r: bool)
    ensures
        r == forall|x: Seq<char>| chars_seq(a@).contains(x) ==> chars_seq(b@).contains(x),
{
    let mut i: usize = 0;
    while i < a.len()
        invariant
            i <= a@.len(),
            forall|m: int| 0 <= m < i ==> chars_seq(b@).contains(#[trigger] chars_seq(a@)[m]),
        decreases a.len() - i,
    {
        if !contains_name(b, &a[i]) {
            assert(chars_seq(a@)[i as int] == a@[i as int]@);
            assert(chars_seq(a@).contains(a@[i as int]@));
            return false;
        }
        i = i + 1;
    }
    assert forall|x: Seq<char>| chars_seq(a@).contains(x) implies chars_seq(b@).contains(x) by {
        let m = choose|m: int| 0 <= m < chars_seq(a@).len() && chars_seq(a@)[m] == x;
    }
    true
}

fn same_stem(a: &(Vec<char>, Vec<Vec<char>>), b: &(Vec<char>, Vec<Vec<char>>)) -> (r: bool)
    ensures
        r == (stem(entry_view(*a)) == stem(entry_view(*b))),
{
    if !crate::text::same_chars(&a.0, &b.0) {
        return false;
    }
    let ab = covers(&a.1, &b.1);
    let ba = covers(&b.1, &a.1);
    proof {
        if ab && ba {
            assert(chars_seq(a.1@).to_set() =~= chars_seq(b.1@).to_set());
        }
        if !ab {
            let x = choose|x: Seq<char>| chars_seq(a.1@).contains(x) && !chars_seq(b.1@).contains(x);
            assert(chars_seq(a.1@).to_set().contains(x));
        }
        if !ba {
            let x = choose|x: Seq<char>| chars_seq(b.1@).contains(x) && !chars_seq(a.1@).contains(x);
            assert(chars_seq(b.1@).to_set().contains(x));
        }
    }
    ab && ba
}

fn has_stem(out: &Vec<(Vec<char>, Vec<Vec<char>>)>, e: &(Vec<char>, Vec<Vec<char>>)) -> (r: bool)
    ensures
        r == stems_seq(out@).contains(stem(entry_view(*e))),
{
    let mut i: usize = 0;
    while i < out.len()
        invariant
            i <= out@.len(),
            forall|m: int| 0 <= m < i ==> stems_seq(out@)[m] != stem(entry_view(*e)),
        decreases out.len() - i,
    {
        if same_stem(&out[i], e) {
            assert(stems_seq(out@)[i as int] == stem(entry_view(*e)));
            return true;
        }
        i = i + 1;
    }
    false
}

fn clone_entry(e: &(Vec<char>, Vec<Vec<char>>)) -> (r: (Vec<char>, Vec<Vec<char>>))
    ensures
        entry_view(r) == entry_view(*e),
{
    let mut conts: Vec<Vec<char>> = Vec::new();
    let mut i: usize = 0;
    while i < e.1.len()
        invariant
            i <= e.1@.len(),
            chars_seq(conts@) == chars_seq(e.1@).take(i as int),
        decreases e.1.len() - i,
    {
        let c = e.1[i].clone();
        assert(c@ == e.1@[i as int]@);
        let ghost before = chars_seq(conts@);
        conts.push(c);
        assert(chars_seq(conts@) =~= before.push(c@));
        assert(chars_seq(e.1@).take(i + 1) =~= chars_seq(e.1@).take(i as int).push(e.1@[i as int]@));
        i = i + 1;
    }
    assert(chars_seq(e.1@).take(e.1@.len() as int) =~= chars_seq(e.1@));
    (e.0.clone(), conts)
}

/// How many distinct stems the marked lexicons hold.
pub fn count_stems(lexs: &Vec<Lexicon>, marked: &Vec<bool>) -> (r: usize)
    requires
        marked@.len() == lexs@.len(),
    ensures
        stems_of(lex_views(lexs@), marked@).finite(),
        r == stems_of(lex_views(lexs@), marked@).len(),
{
    let ghost v = lex_views(lexs@);
    let mut out: Vec<(Vec<char>, Vec<Vec<char>>)> = Vec::new();
    let mut j: usize = 0;
    assert(stems_seq(out@).to_set() =~= stems_before(v, marked@, 0, 0));
    while j < lexs.len()
        invariant
            j <= lexs@.len(),
            v == lex_views(lexs@),
            marked@.len() == lexs@.len(),
            stems_seq(out@).no_duplicates(),
            stems_seq(out@).to_set() == stems_before(v, marked@, j as int, 0),
        decreases lexs.len() - j,
    {
        let ghost vj = v[j as int];
        assert(vj == lexs@[j as int].view());
        if marked[j] {
            let es = &lexs[j].entries;
            let mut k: usize = 0;
            while k < es.len()
                invariant
                    j < lexs@.len(),
                    k <= es@.len(),
                    v == lex_views(lexs@),
                    *es == lexs@[j as int].entries,
                    vj == lexs@[j as int].view(),
                    marked@.len() == lexs@.len(),
                    marked@[j as int],
                    stems_seq(out@).no_duplicates(),
                    stems_seq(out@).to_set() == stems_before(v, marked@, j as int, k as int),
                decreases es.len() - k,
            {
                let ghost x = stem(entry_view(es@[k as int]));
                assert(vj.2[k as int] == entry_view(es@[k as int]));
                let ghost before = stems_seq(out@);
                if !has_stem(&out, &es[k]) {
                    let c = clone_entry(&es[k]);
                    out.push(c);
                    assert(stems_seq(out@) =~= before.push(x));
                    proof {
                        before.lemma_push_to_set_commute(x);
                    }
                }
                assert(stems_seq(out@).to_set() =~= stems_before(v, marked@, j as int, k + 1)) by {
                    assert forall|y: (Seq<char>, Set<Seq<char>>)| stems_before(v, marked@, j as int, k + 1).contains(y) implies stems_seq(out@).to_set().contains(y) by {
                        let (a, b) = choose|a: int, b: int|
                            0 <= a < v.len() && a < marked@.len() && marked@[a] && 0 <= b < v[a].2.len() && (a < j || (
                            a == j && b < k + 1)) && y == stem(#[trigger] v[a].2[b]);
                        if !(a == j && b == k) {
                            assert(stems_before(v, marked@, j as int, k as int).contains(y));
                        }
                    }
                    assert forall|y: (Seq<char>, Set<Seq<char>>)| stems_seq(out@).to_set().contains(y) implies stems_before(v, marked@, j as int, k + 1).contains(y) by {
                        if y != x {
                            assert(before.to_set().contains(y));
                            let (a, b) = choose|a: int, b: int|
                                0 <= a < v.len() && a < marked@.len() && marked@[a] && 0 <= b < v[a].2.len() && (a < j || (
                                a == j && b < k)) && y == stem(#[trigger] v[a].2[b]);
                        } else {
                            assert(y == stem(v[j as int].2[k as int]));
                        }
                    }
                }
                k = k + 1;
            }
        }
        assert(stems_seq(out@).to_set() =~= stems_before(v, marked@, j + 1, 0)) by {
            assert forall|y: (Seq<char>, Set<Seq<char>>)| stems_before(v, marked@, j + 1, 0).contains(y) implies stems_before(v, marked@, j as int, v[j as int].2.len() as int).contains(y) by {
                let (a, b) = choose|a: int, b: int|
                    0 <= a < v.len() && a < marked@.len() && marked@[a] && 0 <= b < v[a].2.len() && (a < j + 1 || (
                    a == j + 1 && b < 0)) && y == stem(#[trigger] v[a].2[b]);
            }
            assert forall|y: (Seq<char>, Set<Seq<char>>)| stems_before(v, marked@, j as int, 0).contains(y) implies stems_before(v, marked@, j + 1, 0).contains(y) by {
                let (a, b) = choose|a: int, b: int|
                    0 <= a < v.len() && a < marked@.len() && marked@[a] && 0 <= b < v[a].2.len() && (a < j || (
                    a == j && b < 0)) && y == stem(#[trigger] v[a].2[b]);
            }
            if marked@[j as int] {
                assert(vj.2.len() == lexs@[j as int].entries@.len());
            } else {
                assert forall|y: (Seq<char>, Set<Seq<char>>)| stems_before(v, marked@, j + 1, 0).contains(y) implies stems_before(v, marked@, j as int, 0).contains(y) by {
                    let (a, b) = choose|a: int, b: int|
                        0 <= a < v.len() && a < marked@.len() && marked@[a] && 0 <= b < v[a].2.len() && (a < j + 1 || (
                        a == j + 1 && b < 0)) && y == stem(#[trigger] v[a].2[b]);
                    assert(a != j);
                }
            }
        }
        j = j + 1;
    }
    assert(stems_before(v, marked@, lexs@.len() as int, 0) =~= stems_of(v, marked@));
    proof {
        stems_seq(out@).unique_seq_to_set();
    }
    out.len()
}

/// The marks of the lexicons that can be reached from lexicon `root`.
pub open spec fn reach_marks(lexs: Seq<LexView>, root: int) -> Seq<bool> {
    Seq::new(lexs.len(), |j: int| reachable(lexs, root, j))
}

/// Why stems cannot be counted: `Some(n)` where line `n` is a `LEXICON` line
/// that names no lexicon, `None` where there is no `Root` lexicon.
pub type StemFault = Option<nat>;

/// The number of stems of a file with these lines: the distinct entries of
/// the lexicons that can be reached from `Root`. With `vanilla_only`, lines
/// that mention `Use/MT` are left out.
pub open spec fn stem_count(lines: Seq<Seq<char>>, vanilla_only: bool) -> Result<nat, StemFault> {
    match lexicon_table(lines, vanilla_only) {
        Err(n) => Err(Some(n)),
        Ok(lexs) => {
            let root = find_lex(lexs, "Root"@);
            if root < 0 {
                Err(None)
            } else {
                Ok(stems_of(lexs, reach_marks(lexs, root)).len())
            }
        },
    }
}

/// Whether `e` is the error for `fault`.
pub open spec fn reports(fault: StemFault, e: StatsError) -> bool {
    match fault {
        Some(n) => e == StatsError::LexiconNameMissing { line: n as usize },
        None => e == StatsError::MissingRoot,
    }
}

/// The stems of a file with these lines, as `VanillaStems` with
/// `vanilla_only` and as `Stems` without.
pub fn get_stems(lines: &Vec<Vec<char>>, vanilla_only: bool) -> (r: Result<(StatKind, usize), StatsError>)
    ensures
        match stem_count(chars_seq(lines@), vanilla_only) {
            Ok(n) => r is Ok && r->Ok_0.1 == n && r->Ok_0.0 == if vanilla_only {
                StatKind::VanillaStems
            } else {
                StatKind::Stems
            },
            Err(f) => r is Err && reports(f, r->Err_0),
        },
{
    let lexs = match read_lexicons(lines, vanilla_only) {
        Ok(l) => l,
        Err(n) => return Err(StatsError::LexiconNameMissing { line: n }),
    };
    let root_name = chars_of("Root");
    match position_of(&lexs, &root_name) {
        None => Err(StatsError::MissingRoot),
        Some(root) => {
            proof {
                lemma_find_lex(lex_views(lexs@), root_name@);
            }
            let marked = get_all_lexicons(&lexs, root);
            assert(marked@ =~= reach_marks(lex_views(lexs@), root as int));
            let n = count_stems(&lexs, &marked);
            if vanilla_only {
                Ok((StatKind::VanillaStems, n))
            } else {
                Ok((StatKind::Stems, n))
            }
        },
    }
}

/// The statistics of a lexc file: its vanilla stems, then all its stems.
pub open spec fn lexc_outcome(body: Seq<char>, r: Result<Vec<(StatKind, usize)>, StatsError>) -> bool {
    let lines = lines_of(body);
    match (stem_count(lines, true), stem_count(lines, false)) {
        (Ok(a), Ok(b)) => r is Ok && r->Ok_0@.len() == 2 && r->Ok_0@[0] == (StatKind::VanillaStems, a as usize)
            && r->Ok_0@[1] == (StatKind::Stems, b as usize),
        (Err(f), _) => r is Err && reports(f, r->Err_0),
        (Ok(_), Err(f)) => r is Err && reports(f, r->Err_0),
    }
}

pub fn get_stats(body: &str) -> (r: Result<Vec<(StatKind, usize)>, StatsError>)
    ensures
        lexc_outcome(body@, r),
{
    let lines = split_lines(&chars_of(body));
    assert(chars_seq(lines@) =~= lines_of(body@));
    let vanilla = match get_stems(&lines, true) {
        Ok(s) => s,
        Err(e) => return Err(e),
    };
    let all = match get_stems(&lines, false) {
        Ok(s) => s,
        Err(e) => return Err(e),
    };
    Ok(vec![vanilla, all])
}

} // verus!
