//! Counting in dictionary and transfer XML, over the reader's event stream.

use vstd::prelude::*;
use vstd::string::StringExecFns;

use quick_xml::events::attributes::Attributes;
use quick_xml::events::Event::{End, Eof, Start, Text};
use quick_xml::Reader;

use crate::kinds::StatKind;
use crate::stats::StatsError;
use crate::text::same_as;

verus! {

/// One event of an XML reader, with names and texts as strings.
#[derive(Clone, Debug)]
pub enum XmlEvent {
    /// An opening tag: its name and the text of its attributes. A
    /// self-closing tag gives a `Start` followed by an `End`.
    Start(String, String),
    /// A closing tag.
    End(String),
    /// Text between tags, unescaped; `None` where it cannot be unescaped.
    Text(Option<String>),
    /// Any other event (declaration, comment, CDATA, ...).
    Other,
}

/// What quick_xml's reader yields for a document: its events up to the end of
/// input, or the byte position at which it stopped on an error.
pub uninterp spec fn xml_reading(body: Seq<char>) -> Result<Seq<XmlEvent>, usize>;

/// Relies on quick_xml's `Reader` (read from a `&str`, with self-closing tags
/// expanded): the events, or the error position, follow from the text alone.
#[verifier::external_body]
pub(crate) fn read_xml(body: &str) -> (r: Result<Vec<XmlEvent>, usize>)
    ensures
        match r {
            Ok(v) => xml_reading(body@) == Ok::<Seq<XmlEvent>, usize>(v@),
            Err(p) => xml_reading(body@) == Err::<Seq<XmlEvent>, usize>(p),
        },
{
    let t = |b: &[u8]| String::from_utf8_lossy(b).into_owned();
    let mut r = Reader::from_str(body);
    r.expand_empty_elements(true);
    let (mut buf, mut out) = (vec![], vec![]);
    loop {
        out.push(match r.read_event(&mut buf) {
            Ok(Start(e)) => XmlEvent::Start(t(e.name()), t(e.attributes_raw())),
            Ok(End(e)) => XmlEvent::End(t(e.name())),
            Ok(Text(e)) => XmlEvent::Text(e.unescape_and_decode(&r).ok()),
            Ok(Eof) => return Ok(out),
            Ok(_) => XmlEvent::Other,
            Err(_) => return Err(r.buffer_position()),
        });
        buf.clear();
    }
}

/// The (key, raw value) pairs that quick_xml's attribute iterator reads from
/// the attribute text of a tag, leaving out those it cannot read.
pub uninterp spec fn xml_attributes_of(raw: Seq<char>) -> Seq<(Seq<char>, Seq<char>)>;

/// Relies on quick_xml's `Attributes` iterator (as `BytesStart::attributes`
/// runs it): the pairs follow from the text alone.
#[verifier::external_body]
pub(crate) fn attributes_of(raw: &str) -> (r: Vec<(String, String)>)
    ensures
        r@.map_values(|a: (String, String)| (a.0@, a.1@)) == xml_attributes_of(raw@),
{
    let t = |b: &[u8]| String::from_utf8_lossy(b).into_owned();
    Attributes::new(raw.as_bytes(), 0).flatten().map(|a| (t(a.key), t(&a.value))).collect()
}

/// Whether the event opens an element named `name`.
pub open spec fn opens(e: XmlEvent, name: Seq<char>) -> bool {
    match e {
        XmlEvent::Start(n, _) => n@ == name,
        _ => false,
    }
}

/// Whether the event closes an element named `name`.
pub open spec fn closes(e: XmlEvent, name: Seq<char>) -> bool {
    match e {
        XmlEvent::End(n) => n@ == name,
        _ => false,
    }
}

/// Whether the event opens an element that carries an `lm` attribute.
pub open spec fn has_lemma(e: XmlEvent) -> bool {
    match e {
        XmlEvent::Start(_, raw) => exists|k: int|
            0 <= k < xml_attributes_of(raw@).len() && (#[trigger] xml_attributes_of(raw@)[k]).0 == "lm"@,
        _ => false,
    }
}

/// The counters of a dictionary or transfer file after some events.
#[derive(Clone, Copy, Debug)]
pub struct DixCounts {
    /// Inside a `<section>`.
    pub in_section: bool,
    /// Inside a `<pardefs>`.
    pub in_pardefs: bool,
    /// `<e>` elements inside a section.
    pub entries: usize,
    /// `<e>` elements inside a section that carry an `lm` attribute.
    pub stems: usize,
    /// `<pardef>` elements inside a `<pardefs>`.
    pub paradigms: usize,
    /// `<rule>` elements anywhere.
    pub rules: usize,
    /// `<def-macro>` elements anywhere.
    pub macros: usize,
}

/// How one event changes the counters.
pub open spec fn dix_step(c: DixCounts, e: XmlEvent) -> DixCounts {
    if opens(e, "section"@) {
        DixCounts { in_section: true, ..c }
    } else if opens(e, "pardefs"@) {
        DixCounts { in_pardefs: true, ..c }
    } else if opens(e, "e"@) && c.in_section {
        DixCounts {
            entries: (c.entries + 1) as usize,
            stems: if has_lemma(e) {
                (c.stems + 1) as usize
            } else {
                c.stems
            },
            ..c
        }
    } else if opens(e, "pardef"@) && c.in_pardefs {
        DixCounts { paradigms: (c.paradigms + 1) as usize, ..c }
    } else if opens(e, "rule"@) {
        DixCounts { rules: (c.rules + 1) as usize, ..c }
    } else if opens(e, "def-macro"@) {
        DixCounts { macros: (c.macros + 1) as usize, ..c }
    } else if closes(e, "section"@) {
        DixCounts { in_section: false, ..c }
    } else if closes(e, "pardefs"@) {
        DixCounts { in_pardefs: false, ..c }
    } else {
        c
    }
}

pub open spec fn no_counts() -> DixCounts {
    DixCounts {
        in_section: false,
        in_pardefs: false,
        entries: 0,
        stems: 0,
        paradigms: 0,
        rules: 0,
        macros: 0,
    }
}

/// The counters after a sequence of events, from none.
pub open spec fn dix_counts(evs: Seq<XmlEvent>) -> DixCounts
    decreases evs.len(),
{
    if evs.len() == 0 {
        no_counts()
    } else {
        dix_step(dix_counts(evs.drop_last()), evs.last())
    }
}

/// No counter exceeds the number of events.
pub open spec fn bounded(c: DixCounts, n: nat) -> bool {
    c.entries <= n && c.stems <= n && c.paradigms <= n && c.rules <= n && c.macros <= n
}

proof fn lemma_counts_bounded(evs: Seq<XmlEvent>)
    ensures
        bounded(dix_counts(evs), evs.len()),
    decreases evs.len(),
{
    if evs.len() > 0 {
        lemma_counts_bounded(evs.drop_last());
    }
}

/// Outside a section an `<e>` counts for nothing, and outside `<pardefs>` a
/// `<pardef>` counts for nothing: after such an event the entries, stems and
/// paradigms are those before it.
pub proof fn lemma_counts_are_scoped(evs: Seq<XmlEvent>, e: XmlEvent)
    ensures
        opens(e, "e"@) && !dix_counts(evs).in_section ==> dix_counts(evs.push(e)).entries == dix_counts(evs).entries
            && dix_counts(evs.push(e)).stems == dix_counts(evs).stems,
        opens(e, "pardef"@) && !dix_counts(evs).in_pardefs ==> dix_counts(evs.push(e)).paradigms
            == dix_counts(evs).paradigms,
{
    assert(evs.push(e).drop_last() =~= evs);
    reveal_strlit("e");
    reveal_strlit("pardef");
    reveal_strlit("section");
    reveal_strlit("pardefs");
    reveal_strlit("rule");
    reveal_strlit("def-macro");
}

fn opens_tag(e: &XmlEvent, name: &str) -> (r: bool)
    ensures
        r == opens(*e, name@),
{
    match e {
        XmlEvent::Start(n, _) => same_as(&crate::text::chars_of(n.as_str()), name),
        _ => false,
    }
}

fn closes_tag(e: &XmlEvent, name: &str) -> (r: bool)
    ensures
        r == closes(*e, name@),
{
    match e {
        XmlEvent::End(n) => same_as(&crate::text::chars_of(n.as_str()), name),
        _ => false,
    }
}

fn lm_among(raw: &String) -> (r: bool)
    ensures
        r == exists|k: int|
            0 <= k < xml_attributes_of(raw@).len() && (#[trigger] xml_attributes_of(raw@)[k]).0 == "lm"@,
{
    let attrs = attributes_of(raw.as_str());
    let ghost av = attrs@.map_values(|a: (String, String)| (a.0@, a.1@));
    let mut k: usize = 0;
    while k < attrs.len()
        invariant
            k <= attrs@.len(),
            av == attrs@.map_values(|a: (String, String)| (a.0@, a.1@)),
            av == xml_attributes_of(raw@),
            forall|j: int| 0 <= j < k ==> (#[trigger] av[j]).0 != "lm"@,
        decreases attrs.len() - k,
    {
        if same_as(&crate::text::chars_of(attrs[k].0.as_str()), "lm") {
            assert(av[k as int].0 == "lm"@);
            return true;
        }
        k = k + 1;
    }
    false
}

fn carries_lemma(e: &XmlEvent) -> (r: bool)
    ensures
        r == has_lemma(*e),
{
    match e {
        XmlEvent::Start(_, raw) => lm_among(raw),
        _ => false,
    }
}

/// The counters after all of `evs`.
pub fn count_dix(evs: &Vec<XmlEvent>) -> (r: DixCounts)
    ensures
        r == dix_counts(evs@),
{
    let mut c = DixCounts {
        in_section: false,
        in_pardefs: false,
        entries: 0,
        stems: 0,
        paradigms: 0,
        rules: 0,
        macros: 0,
    };
    let mut i: usize = 0;
    while i < evs.len()
        invariant
            i <= evs@.len(),
            c == dix_counts(evs@.take(i as int)),
        decreases evs.len() - i,
    {
        assert(evs@.take(i + 1).drop_last() =~= evs@.take(i as int));
        proof {
            lemma_counts_bounded(evs@.take(i as int));
        }
        let e = &evs[i];
        if opens_tag(e, "section") {
            c.in_section = true;
        } else if opens_tag(e, "pardefs") {
            c.in_pardefs = true;
        } else if opens_tag(e, "e") && c.in_section {
            c.entries = c.entries + 1;
            if carries_lemma(e) {
                c.stems = c.stems + 1;
            }
        } else if opens_tag(e, "pardef") && c.in_pardefs {
            c.paradigms = c.paradigms + 1;
        } else if opens_tag(e, "rule") {
            c.rules = c.rules + 1;
        } else if opens_tag(e, "def-macro") {
            c.macros = c.macros + 1;
        } else if closes_tag(e, "section") {
            c.in_section = false;
        } else if closes_tag(e, "pardefs") {
            c.in_pardefs = false;
        }
        i = i + 1;
    }
    assert(evs@.take(evs@.len() as int) =~= evs@);
    c
}

/// The statistics of a bilingual dictionary (also meta-bidix and post-dix)
/// read as `evs`: the `<e>` elements inside sections.
pub open spec fn bidix_stats(evs: Seq<XmlEvent>) -> Seq<(StatKind, usize)> {
    seq![(StatKind::Entries, dix_counts(evs).entries)]
}

/// The statistics of a monolingual dictionary (also meta-monodix) read as
/// `evs`: the `<e>` elements inside sections that carry a lemma, and the
/// `<pardef>` elements inside `<pardefs>`.
pub open spec fn monodix_stats(evs: Seq<XmlEvent>) -> Seq<(StatKind, usize)> {
    seq![(StatKind::Stems, dix_counts(evs).stems), (StatKind::Paradigms, dix_counts(evs).paradigms)]
}

/// The statistics of a transfer file read as `evs`: its `<rule>` and
/// `<def-macro>` elements, wherever they stand.
pub open spec fn transfer_stats(evs: Seq<XmlEvent>) -> Seq<(StatKind, usize)> {
    seq![(StatKind::Rules, dix_counts(evs).rules), (StatKind::Macros, dix_counts(evs).macros)]
}

/// The outcome of a statistics function over XML whose reading is `reading`.
pub open spec fn xml_outcome(
    reading: Result<Seq<XmlEvent>, usize>,
    path: Seq<char>,
    stats: spec_fn(Seq<XmlEvent>) -> Seq<(StatKind, usize)>,
    r: Result<Vec<(StatKind, usize)>, StatsError>,
) -> bool {
    match reading {
        Ok(evs) => r is Ok && r->Ok_0@ == stats(evs),
        Err(p) => match r {
            Err(StatsError::Xml { position, path: q }) => position == p && q@ == path,
            _ => false,
        },
    }
}

fn xml_error(position: usize, file_path: &str) -> (r: StatsError)
    ensures
        r matches StatsError::Xml { position: p, path: q } && p == position && q@ == file_path@,
{
    StatsError::Xml { position, path: String::from_str(file_path) }
}

pub fn get_bidix_stats(body: &str, file_path: &str) -> (r: Result<
    Vec<(StatKind, usize)>,
    StatsError,
>)
    ensures
        xml_outcome(xml_reading(body@), file_path@, |evs| bidix_stats(evs), r),
{
    match read_xml(body) {
        Ok(evs) => {
            let c = count_dix(&evs);
            let r = vec![(StatKind::Entries, c.entries)];
            assert(r@ =~= bidix_stats(evs@));
            Ok(r)
        },
        Err(p) => Err(xml_error(p, file_path)),
    }
}

pub fn get_monodix_stats(body: &str, file_path: &str) -> (r: Result<
    Vec<(StatKind, usize)>,
    StatsError,
>)
    ensures
        xml_outcome(xml_reading(body@), file_path@, |evs| monodix_stats(evs), r),
{
    match read_xml(body) {
        Ok(evs) => {
            let c = count_dix(&evs);
            let r = vec![(StatKind::Stems, c.stems), (StatKind::Paradigms, c.paradigms)];
            assert(r@ =~= monodix_stats(evs@));
            Ok(r)
        },
        Err(p) => Err(xml_error(p, file_path)),
    }
}

pub fn get_transfer_stats(body: &str, file_path: &str) -> (r: Result<
    Vec<(StatKind, usize)>,
    StatsError,
>)
    ensures
        xml_outcome(xml_reading(body@), file_path@, |evs| transfer_stats(evs), r),
{
    match read_xml(body) {
        Ok(evs) => {
            let c = count_dix(&evs);
            let r = vec![(StatKind::Rules, c.rules), (StatKind::Macros, c.macros)];
            assert(r@ =~= transfer_stats(evs@));
            Ok(r)
        },
        Err(p) => Err(xml_error(p, file_path)),
    }
}

} // verus!
