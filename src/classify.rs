//! Recognising a resource file's format from its name.

use vstd::prelude::*;
use vstd::string::StrSliceExecFns;
use vstd::string::StringExecFns;

use crate::kinds::FileKind;
use crate::text::chars_of;

verus! {

/// For each pattern of a set of regular expressions, whether it matches
/// somewhere in the text; `None` where the patterns do not compile as a set.
pub uninterp spec fn regex_set_matches_of(patterns: Seq<Seq<char>>, text: Seq<char>) -> Option<Seq<bool>>;

/// Relies on regex's `RegexSet::new` and `RegexSet::matches`: which patterns
/// match depends on the patterns and the text alone, with one answer per
/// pattern.
#[verifier::external_body]
fn regex_set_matches(patterns: &Vec<String>, text: &str) -> (r: Option<Vec<bool>>)
    ensures
        r is None ==> regex_set_matches_of(patterns@.map_values(|p: String| p@), text@) is None,
        r is Some ==> regex_set_matches_of(patterns@.map_values(|p: String| p@), text@) == Some(
            r->Some_0@,
        ) && r->Some_0@.len() == patterns@.len(),
{
    let set = regex::RegexSet::new(patterns).ok()?;
    let found = set.matches(text);
    Some((0..patterns.len()).map(|i| found.matched(i)).collect())
}

/// The file-name patterns, in priority order: where several match, the last
/// one decides. A language code is two or three word characters, optionally
/// followed by `_` and a variant.
pub open spec fn file_patterns() -> Seq<Seq<char>> {
    seq![
        r"apertium-(\w{2,3}?)(?:_(\w+))?\.(\w{2,3}?)(?:_(\w+))?\.dix$"@,
        r"apertium-(\w{2,3}?)(?:_(\w+))?-(\w{2,3}?)(?:_(\w+))?\.(\w{2,3}?)(?:_(\w+))?-(\w{2,3}?)(?:_(\w+))?\.dix$"@,
        r"apertium-(\w{2,3}?)(?:_(\w+))?\.(\w{2,3}?)(?:_(\w+))?\.metadix$"@,
        r"apertium-(\w{2,3}?)(?:_(\w+))?-(\w{2,3}?)(?:_(\w+))?\.(\w{2,3}?)(?:_(\w+))?\.metadix$"@,
        r"apertium-(\w{2,3}?)(?:_(\w+))?-(\w{2,3}?)(?:_(\w+))?\.(\w{2,3}?)(?:_(\w+))?-(\w{2,3}?)(?:_(\w+))?\.metadix$"@,
        r"apertium-(\w{2,3}?)(?:_(\w+))?-(\w{2,3}?)(?:_(\w+))?\.post-(\w{2,3}?)(?:_(\w+))?\.dix$"@,
        r"apertium-(\w{2,3}?)(?:_(\w+))?\.post-(\w{2,3}?)(?:_(\w+))?\.dix$"@,
        r"apertium-(\w{2,3}?)(?:_(\w+))?-(\w{2,3}?)(?:_(\w+))?\.(\w{2,3}?)(?:_(\w+))?-(\w{2,3}?)(?:_(\w+))?\.rlx$"@,
        r"apertium-(\w{2,3}?)(?:_(\w+))?\.(\w{2,3}?)(?:_(\w+))?\.rlx$"@,
        r"apertium-(\w{2,3}?)(?:_(\w+))?-(\w{2,3}?)(?:_(\w+))?\.(\w{2,3}?)(?:_(\w+))?-(\w{2,3}?)(?:_(\w+))?\.t\dx$"@,
        r"apertium-(\w{2,3}?)(?:_(\w+))?\.(\w{2,3}?)(?:_(\w+))?\.lexc$"@,
        r"apertium-(\w{2,3}?)(?:_(\w+))?-(\w{2,3}?)(?:_(\w+))?\.(\w{2,3}?)(?:_(\w+))?\.twol$"@,
        r"apertium-(\w{2,3}?)(?:_(\w+))?\.(\w{2,3}?)(?:_(\w+))?\.twol$"@,
        r"apertium-(\w{2,3}?)(?:_(\w+))?\.(\w{2,3}?)(?:_(\w+))?\.lexd$"@,
    ]
}

/// The patterns of `file_patterns`, as strings.
pub fn file_pattern_strings() -> (r: Vec<String>)
    ensures
        r@.map_values(|p: String| p@) == file_patterns(),
{
    let r = vec![
        String::from_str(r"apertium-(\w{2,3}?)(?:_(\w+))?\.(\w{2,3}?)(?:_(\w+))?\.dix$"),
        String::from_str(r"apertium-(\w{2,3}?)(?:_(\w+))?-(\w{2,3}?)(?:_(\w+))?\.(\w{2,3}?)(?:_(\w+))?-(\w{2,3}?)(?:_(\w+))?\.dix$"),
        String::from_str(r"apertium-(\w{2,3}?)(?:_(\w+))?\.(\w{2,3}?)(?:_(\w+))?\.metadix$"),
        String::from_str(r"apertium-(\w{2,3}?)(?:_(\w+))?-(\w{2,3}?)(?:_(\w+))?\.(\w{2,3}?)(?:_(\w+))?\.metadix$"),
        String::from_str(r"apertium-(\w{2,3}?)(?:_(\w+))?-(\w{2,3}?)(?:_(\w+))?\.(\w{2,3}?)(?:_(\w+))?-(\w{2,3}?)(?:_(\w+))?\.metadix$"),
        String::from_str(r"apertium-(\w{2,3}?)(?:_(\w+))?-(\w{2,3}?)(?:_(\w+))?\.post-(\w{2,3}?)(?:_(\w+))?\.dix$"),
        String::from_str(r"apertium-(\w{2,3}?)(?:_(\w+))?\.post-(\w{2,3}?)(?:_(\w+))?\.dix$"),
        String::from_str(r"apertium-(\w{2,3}?)(?:_(\w+))?-(\w{2,3}?)(?:_(\w+))?\.(\w{2,3}?)(?:_(\w+))?-(\w{2,3}?)(?:_(\w+))?\.rlx$"),
        String::from_str(r"apertium-(\w{2,3}?)(?:_(\w+))?\.(\w{2,3}?)(?:_(\w+))?\.rlx$"),
        String::from_str(r"apertium-(\w{2,3}?)(?:_(\w+))?-(\w{2,3}?)(?:_(\w+))?\.(\w{2,3}?)(?:_(\w+))?-(\w{2,3}?)(?:_(\w+))?\.t\dx$"),
        String::from_str(r"apertium-(\w{2,3}?)(?:_(\w+))?\.(\w{2,3}?)(?:_(\w+))?\.lexc$"),
        String::from_str(r"apertium-(\w{2,3}?)(?:_(\w+))?-(\w{2,3}?)(?:_(\w+))?\.(\w{2,3}?)(?:_(\w+))?\.twol$"),
        String::from_str(r"apertium-(\w{2,3}?)(?:_(\w+))?\.(\w{2,3}?)(?:_(\w+))?\.twol$"),
        String::from_str(r"apertium-(\w{2,3}?)(?:_(\w+))?\.(\w{2,3}?)(?:_(\w+))?\.lexd$"),
    ];
    assert(r@.map_values(|p: String| p@) =~= file_patterns());
    r
}

/// The kind that the pattern at position `i` of `file_patterns` recognises.
pub open spec fn pattern_kind(i: int) -> Option<FileKind> {
    if i == 0 {
        Some(FileKind::Monodix)
    } else if i == 1 {
        Some(FileKind::Bidix)
    } else if i == 2 || i == 3 {
        Some(FileKind::MetaMonodix)
    } else if i == 4 {
        Some(FileKind::MetaBidix)
    } else if i == 5 || i == 6 {
        Some(FileKind::Postdix)
    } else if i == 7 || i == 8 {
        Some(FileKind::Rlx)
    } else if i == 9 {
        Some(FileKind::Transfer)
    } else if i == 10 {
        Some(FileKind::Lexc)
    } else if i == 11 || i == 12 {
        Some(FileKind::Twol)
    } else if i == 13 {
        Some(FileKind::Lexd)
    } else {
        None
    }
}

fn kind_of_pattern(i: usize) -> (r: Option<FileKind>)
    ensures
        r == pattern_kind(i as int),
{
    if i == 0 {
        Some(FileKind::Monodix)
    } else if i == 1 {
        Some(FileKind::Bidix)
    } else if i == 2 || i == 3 {
        Some(FileKind::MetaMonodix)
    } else if i == 4 {
        Some(FileKind::MetaBidix)
    } else if i == 5 || i == 6 {
        Some(FileKind::Postdix)
    } else if i == 7 || i == 8 {
        Some(FileKind::Rlx)
    } else if i == 9 {
        Some(FileKind::Transfer)
    } else if i == 10 {
        Some(FileKind::Lexc)
    } else if i == 11 || i == 12 {
        Some(FileKind::Twol)
    } else if i == 13 {
        Some(FileKind::Lexd)
    } else {
        None
    }
}

/// Whether position `i` is the last `true` of `m`.
pub open spec fn is_last_match(m: Seq<bool>, i: int) -> bool {
    0 <= i < m.len() && m[i] && forall|j: int| i < j < m.len() ==> !#[trigger] m[j]
}

/// The kind given by the answers `m` of the patterns: that of the last
/// pattern that matched; none where none matched.
pub open spec fn kind_of_matches(m: Seq<bool>) -> Option<FileKind> {
    if exists|i: int| is_last_match(m, i) {
        pattern_kind(choose|i: int| is_last_match(m, i))
    } else {
        None
    }
}

/// The kind given by the answers of the patterns, one per pattern in
/// `file_patterns` order: the last pattern that matched decides.
pub fn kind_from_matches(m: &Vec<bool>) -> (r: Option<FileKind>)
    ensures
        r == kind_of_matches(m@),
        (forall|i: int| 0 <= i < m@.len() ==> !#[trigger] m@[i]) ==> r is None,
        forall|i: int| is_last_match(m@, i) ==> r == pattern_kind(i),
{
    let mut i: usize = m.len();
    while i > 0
        invariant
            i <= m@.len(),
            forall|j: int| i <= j < m@.len() ==> !#[trigger] m@[j],
        decreases i,
    {
        if m[i - 1] {
            assert(is_last_match(m@, i - 1));
            proof {
                assert forall|a: int| is_last_match(m@, a) implies a == i - 1 by {
                    if a < i - 1 {
                        assert(!m@[i - 1]);
                    }
                }
            }
            return kind_of_pattern(i - 1);
        }
        i = i - 1;
    }
    assert(!exists|a: int| is_last_match(m@, a));
    None
}

/// `s` with every trailing `.xml` removed, as `str::trim_end_matches(".xml")`
/// gives it.
pub open spec fn trim_xml(s: Seq<char>) -> Seq<char>
    decreases s.len(),
{
    if s.len() >= 4 && s[s.len() - 4] == '.' && s[s.len() - 3] == 'x' && s[s.len() - 2] == 'm'
        && s[s.len() - 1] == 'l' {
        trim_xml(s.take(s.len() - 4))
    } else {
        s
    }
}

/// The kind of a file named `name`, as `get_file_kind` finds it.
pub open spec fn classified(name: Seq<char>) -> Option<FileKind> {
    match regex_set_matches_of(file_patterns(), trim_xml(name)) {
        Some(m) => kind_of_matches(m),
        None => None,
    }
}

/// The kind of a file named `file_name`: the patterns are matched against the
/// name without its trailing `.xml` suffixes, and the last one that matches
/// decides. `None` where none matches (or the patterns cannot be compiled).
pub fn get_file_kind(file_name: &str) -> (r: Option<FileKind>)
    ensures
        r == classified(file_name@),
{
    let cs = chars_of(file_name);
    let mut k: usize = cs.len();
    assert(cs@.take(k as int) =~= cs@);
    while k >= 4 && cs[k - 4] == '.' && cs[k - 3] == 'x' && cs[k - 2] == 'm' && cs[k - 1] == 'l'
        invariant
            k <= cs@.len(),
            cs@ == file_name@,
            trim_xml(file_name@) == trim_xml(cs@.take(k as int)),
        decreases k,
    {
        assert(cs@.take(k as int).take(k - 4) =~= cs@.take(k - 4));
        k = k - 4;
    }
    let stem = file_name.substring_char(0, k);
    assert(stem@ =~= cs@.take(k as int));
    let patterns = file_pattern_strings();
    match regex_set_matches(&patterns, stem) {
        Some(m) => kind_from_matches(&m),
        None => None,
    }
}

} // verus!
