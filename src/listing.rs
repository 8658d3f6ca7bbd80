//! Reading the XML listing of a package's files that the version-control
//! client prints.

use vstd::prelude::*;
use vstd::string::StringExecFns;

use crate::registry::FileWithoutSha;
use crate::text::{chars_of, same_as};
use crate::xml::{attributes_of, read_xml, xml_attributes_of, xml_reading, XmlEvent};

verus! {

/// Why a package's files could not be listed.
#[derive(Clone, Debug)]
pub enum ListingError {
    /// The listing command failed; what it printed on its error stream.
    PackageNotFound(String),
    /// The listing command could not be run.
    SearchFailed(String),
    /// The listing is not well-formed XML; the byte position of the fault.
    MalformedXml(usize),
    /// A revision attribute is not an integer.
    BadRevision,
    /// A file size is not an integer.
    BadSize,
    /// A modification time cannot be read.
    BadDate,
    /// A text cannot be unescaped.
    BadText,
}

/// The message shown for a listing error.
pub open spec fn listing_message(e: ListingError) -> Seq<char> {
    match e {
        ListingError::PackageNotFound(s) => "Package not found: "@ + s@,
        ListingError::SearchFailed(s) => "Package search failed: "@ + s@,
        ListingError::MalformedXml(_) => "Listing is not well-formed XML"@,
        ListingError::BadRevision => "Revision number parsing error"@,
        ListingError::BadSize => "File size number parsing error"@,
        ListingError::BadDate => "Datetime parsing error"@,
        ListingError::BadText => "Decoding error"@,
    }
}

impl ListingError {
    pub fn message(&self) -> (r: String)
        ensures
            r@ == listing_message(*self),
    {
        match self {
            ListingError::PackageNotFound(s) => String::from_str("Package not found: ").concat(s.as_str()),
            ListingError::SearchFailed(s) => String::from_str("Package search failed: ").concat(s.as_str()),
            ListingError::MalformedXml(_) => String::from_str("Listing is not well-formed XML"),
            ListingError::BadRevision => String::from_str("Revision number parsing error"),
            ListingError::BadSize => String::from_str("File size number parsing error"),
            ListingError::BadDate => String::from_str("Datetime parsing error"),
            ListingError::BadText => String::from_str("Decoding error"),
        }
    }
}

/// The value of a sequence of decimal digits.
pub open spec fn digits_value(d: Seq<char>) -> int
    decreases d.len(),
{
    if d.len() == 0 {
        0
    } else {
        digits_value(d.drop_last()) * 10 + (d.last() as int - '0' as int)
    }
}

pub open spec fn all_digits(d: Seq<char>) -> bool {
    d.len() > 0 && forall|i: int| 0 <= i < d.len() ==> '0' <= #[trigger] d[i] <= '9'
}

/// The integer that `s` writes in decimal, with an optional sign, as
/// `i32::from_str` reads it; `None` where it writes none or one out of range.
pub open spec fn i32_text(s: Seq<char>) -> Option<i32> {
    let v = if s.len() > 0 && s[0] == '-' && all_digits(s.drop_first()) {
        Some(-digits_value(s.drop_first()))
    } else if s.len() > 0 && s[0] == '+' && all_digits(s.drop_first()) {
        Some(digits_value(s.drop_first()))
    } else if all_digits(s) {
        Some(digits_value(s))
    } else {
        None::<int>
    };
    match v {
        Some(n) => if i32::MIN <= n <= i32::MAX {
            Some(n as i32)
        } else {
            None
        },
        None => None,
    }
}

/// Relies on `i32::from_str` (`str::parse::<i32>`): an optional `+` or `-`
/// followed by one or more ASCII digits, in range.
#[verifier::external_body]
fn parse_i32(s: &str) -> (r: Option<i32>)
    ensures
        r == i32_text(s@),
{
    s.parse::<i32>().ok()
}

/// The time, in milliseconds since the Unix epoch, that chrono's
/// `NaiveDateTime::parse_from_str` reads from `s` in the listing's format
/// `%Y-%m-%dT%H:%M:%S.%fZ`; `None` where it reads none.
pub uninterp spec fn listing_time_of(s: Seq<char>) -> Option<i64>;

/// Relies on chrono's `NaiveDateTime::parse_from_str` with the listing's
/// format, and `timestamp_millis`: the result follows from the text alone.
#[verifier::external_body]
fn parse_listing_time(s: &str) -> (r: Option<i64>)
    ensures
        r == listing_time_of(s@),
{
    chrono::NaiveDateTime::parse_from_str(s, "%Y-%m-%dT%H:%M:%S.%fZ").ok().map(|t| t.and_utc().timestamp_millis())
}

/// What has been read of the current entry.
pub struct Scan {
    /// The current entry is a file.
    pub in_file_entry: bool,
    pub in_name: bool,
    pub in_author: bool,
    pub in_date: bool,
    pub in_size: bool,
    pub name: Option<String>,
    pub author: Option<String>,
    pub date: Option<i64>,
    pub size: Option<i32>,
    pub revision: Option<i32>,
}

pub open spec fn fresh_scan() -> Scan {
    Scan {
        in_file_entry: false,
        in_name: false,
        in_author: false,
        in_date: false,
        in_size: false,
        name: None,
        author: None,
        date: None,
        size: None,
        revision: None,
    }
}

/// Whether the attributes mark the entry as a file (`kind="file"`).
pub open spec fn is_file_entry(attrs: Seq<(Seq<char>, Seq<char>)>) -> bool {
    exists|k: int| 0 <= k < attrs.len() && (#[trigger] attrs[k]).0 == "kind"@ && attrs[k].1 == "file"@
}

/// The value of the first `revision` attribute.
pub open spec fn revision_attr(attrs: Seq<(Seq<char>, Seq<char>)>) -> Option<Seq<char>>
    decreases attrs.len(),
{
    if attrs.len() == 0 {
        None
    } else if attrs[0].0 == "revision"@ {
        Some(attrs[0].1)
    } else {
        revision_attr(attrs.drop_first())
    }
}

/// The file that a completed entry describes, where all its fields were read.
pub open spec fn entry_file(s: Scan) -> Option<FileWithoutSha> {
    if s.in_file_entry && s.name is Some && s.size is Some && s.revision is Some && s.author is Some
        && s.date is Some {
        Some(
            FileWithoutSha {
                path: s.name->Some_0,
                size: s.size->Some_0,
                revision: s.revision->Some_0,
                last_author: s.author->Some_0,
                last_changed: s.date->Some_0,
            },
        )
    } else {
        None
    }
}

/// How one event changes what has been read.
pub open spec fn scan_step(s: Scan, files: Seq<FileWithoutSha>, e: XmlEvent) -> Result<
    (Scan, Seq<FileWithoutSha>),
    ListingError,
> {
    match e {
        XmlEvent::Start(n, raw) => if n@ == "entry"@ {
            Ok((Scan { in_file_entry: is_file_entry(xml_attributes_of(raw@)), ..s }, files))
        } else if s.in_file_entry && n@ == "author"@ {
            Ok((Scan { in_author: true, ..s }, files))
        } else if s.in_file_entry && n@ == "date"@ {
            Ok((Scan { in_date: true, ..s }, files))
        } else if s.in_file_entry && n@ == "name"@ {
            Ok((Scan { in_name: true, ..s }, files))
        } else if s.in_file_entry && n@ == "size"@ {
            Ok((Scan { in_size: true, ..s }, files))
        } else if s.in_file_entry && n@ == "commit"@ {
            match revision_attr(xml_attributes_of(raw@)) {
                None => Ok((s, files)),
                Some(v) => match i32_text(v) {
                    Some(r) => Ok((Scan { revision: Some(r), ..s }, files)),
                    None => Err(ListingError::BadRevision),
                },
            }
        } else {
            Ok((s, files))
        },
        XmlEvent::Text(t) => if s.in_name || s.in_date || s.in_author || s.in_size {
            match t {
                None => Err(ListingError::BadText),
                Some(t) => if s.in_name {
                    Ok((Scan { name: Some(t), ..s }, files))
                } else if s.in_date {
                    match listing_time_of(t@) {
                        Some(d) => Ok((Scan { date: Some(d), ..s }, files)),
                        None => Err(ListingError::BadDate),
                    }
                } else if s.in_author {
                    Ok((Scan { author: Some(t), ..s }, files))
                } else {
                    match i32_text(t@) {
                        Some(z) => Ok((Scan { size: Some(z), ..s }, files)),
                        None => Err(ListingError::BadSize),
                    }
                },
            }
        } else {
            Ok((s, files))
        },
        XmlEvent::End(n) => if n@ == "author"@ {
            Ok((Scan { in_author: false, ..s }, files))
        } else if n@ == "date"@ {
            Ok((Scan { in_date: false, ..s }, files))
        } else if n@ == "name"@ {
            Ok((Scan { in_name: false, ..s }, files))
        } else if n@ == "size"@ {
            Ok((Scan { in_size: false, ..s }, files))
        } else if n@ == "entry"@ {
            let files2 = match entry_file(s) {
                Some(f) => files.push(f),
                None => files,
            };
            Ok((Scan { in_file_entry: false, name: None, size: None, revision: None, author: None, date: None, ..s }, files2))
        } else {
            Ok((s, files))
        },
        XmlEvent::Other => Ok((s, files)),
    }
}

/// What has been read after a sequence of events, or the first fault.
pub open spec fn scan_events(evs: Seq<XmlEvent>) -> Result<(Scan, Seq<FileWithoutSha>), ListingError>
    decreases evs.len(),
{
    if evs.len() == 0 {
        Ok((fresh_scan(), Seq::empty()))
    } else {
        match scan_events(evs.drop_last()) {
            Err(e) => Err(e),
            Ok((s, files)) => scan_step(s, files, evs.last()),
        }
    }
}

/// The files that a listing command's output describes: the entries of kind
/// `file` whose name, size, revision, author and time were all read; an error
/// where the command failed, the output is not XML, or a field cannot be
/// read.
pub open spec fn listing_files(succeeded: bool, stdout: Seq<char>, stderr: String) -> Result<Seq<FileWithoutSha>, ListingError> {
    if !succeeded {
        Err(ListingError::PackageNotFound(stderr))
    } else {
        match xml_reading(stdout) {
            Err(p) => Err(ListingError::MalformedXml(p)),
            Ok(evs) => match scan_events(evs) {
                Err(e) => Err(e),
                Ok((_, files)) => Ok(files),
            },
        }
    }
}

fn file_entry(raw: &String) -> (r: bool)
    ensures
        r == is_file_entry(xml_attributes_of(raw@)),
{
    let attrs = attributes_of(raw.as_str());
    let ghost av = attrs@.map_values(|a: (String, String)| (a.0@, a.1@));
    let mut k: usize = 0;
    while k < attrs.len()
        invariant
            k <= attrs@.len(),
            av == attrs@.map_values(|a: (String, String)| (a.0@, a.1@)),
            av == xml_attributes_of(raw@),
            forall|j: int| 0 <= j < k ==> !((#[trigger] av[j]).0 == "kind"@ && av[j].1 == "file"@),
        decreases attrs.len() - k,
    {
        if same_as(&chars_of(attrs[k].0.as_str()), "kind") && same_as(&chars_of(attrs[k].1.as_str()), "file") {
            assert(av[k as int].0 == "kind"@ && av[k as int].1 == "file"@);
            return true;
        }
        k = k + 1;
    }
    false
}

fn first_revision(raw: &String) -> (r: Option<String>)
    ensures
        match r {
            Some(v) => revision_attr(xml_attributes_of(raw@)) == Some(v@),
            None => revision_attr(xml_attributes_of(raw@)) is None,
        },
{
    let attrs = attributes_of(raw.as_str());
    let ghost av = attrs@.map_values(|a: (String, String)| (a.0@, a.1@));
    let mut k: usize = 0;
    assert(av.skip(0) =~= av);
    while k < attrs.len()
        invariant
            k <= attrs@.len(),
            av == attrs@.map_values(|a: (String, String)| (a.0@, a.1@)),
            av == xml_attributes_of(raw@),
            revision_attr(av) == revision_attr(av.skip(k as int)),
        decreases attrs.len() - k,
    {
        assert(av.skip(k as int).drop_first() =~= av.skip(k + 1));
        assert(av.skip(k as int)[0] == av[k as int]);
        if same_as(&chars_of(attrs[k].0.as_str()), "revision") {
            return Some(attrs[k].1.clone());
        }
        k = k + 1;
    }
    None
}

fn is_tag(n: &String, lit: &str) -> (r: bool)
    ensures
        r == (n@ == lit@),
{
    same_as(&chars_of(n.as_str()), lit)
}

/// Reads one event.
fn scan_one(s: &mut Scan, files: &mut Vec<FileWithoutSha>, e: &XmlEvent) -> (r: Result<(), ListingError>)
    ensures
        match scan_step(*old(s), old(files)@, *e) {
            Ok((s2, f2)) => r is Ok && *final(s) == s2 && final(files)@ == f2,
            Err(x) => r == Err::<(), ListingError>(x),
        },
{
    match e {
        XmlEvent::Start(n, raw) => {
            if is_tag(n, "entry") {
                s.in_file_entry = file_entry(raw);
            } else if s.in_file_entry && is_tag(n, "author") {
                s.in_author = true;
            } else if s.in_file_entry && is_tag(n, "date") {
                s.in_date = true;
            } else if s.in_file_entry && is_tag(n, "name") {
                s.in_name = true;
            } else if s.in_file_entry && is_tag(n, "size") {
                s.in_size = true;
            } else if s.in_file_entry && is_tag(n, "commit") {
                match first_revision(raw) {
                    None => {},
                    Some(v) => match parse_i32(v.as_str()) {
                        Some(r) => {
                            s.revision = Some(r);
                        },
                        None => {
                            return Err(ListingError::BadRevision);
                        },
                    },
                }
            }
            Ok(())
        },
        XmlEvent::Text(t) => {
            if s.in_name || s.in_date || s.in_author || s.in_size {
                match t {
                    None => {
                        return Err(ListingError::BadText);
                    },
                    Some(t) => {
                        if s.in_name {
                            s.name = Some(t.clone());
                        } else if s.in_date {
                            match parse_listing_time(t.as_str()) {
                                Some(d) => {
                                    s.date = Some(d);
                                },
                                None => {
                                    return Err(ListingError::BadDate);
                                },
                            }
                        } else if s.in_author {
                            s.author = Some(t.clone());
                        } else {
                            match parse_i32(t.as_str()) {
                                Some(z) => {
                                    s.size = Some(z);
                                },
                                None => {
                                    return Err(ListingError::BadSize);
                                },
                            }
                        }
                    },
                }
            }
            Ok(())
        },
        XmlEvent::End(n) => {
            if is_tag(n, "author") {
                s.in_author = false;
            } else if is_tag(n, "date") {
                s.in_date = false;
            } else if is_tag(n, "name") {
                s.in_name = false;
            } else if is_tag(n, "size") {
                s.in_size = false;
            } else if is_tag(n, "entry") {
                if s.in_file_entry && s.name.is_some() && s.size.is_some() && s.revision.is_some()
                    && s.author.is_some() && s.date.is_some() {
                    let f = FileWithoutSha {
                        path: s.name.take().unwrap(),
                        size: s.size.unwrap(),
                        revision: s.revision.unwrap(),
                        last_author: s.author.take().unwrap(),
                        last_changed: s.date.unwrap(),
                    };
                    files.push(f);
                }
                s.in_file_entry = false;
                s.name = None;
                s.size = None;
                s.revision = None;
                s.author = None;
                s.date = None;
            }
            Ok(())
        },
        XmlEvent::Other => Ok(()),
    }
}

/// The files that the events of a listing describe, or the first field that
/// cannot be read.
pub fn files_from_events(evs: &Vec<XmlEvent>) -> (r: Result<Vec<FileWithoutSha>, ListingError>)
    ensures
        match scan_events(evs@) {
            Ok((_, fs)) => r is Ok && r->Ok_0@ == fs,
            Err(e) => r == Err::<Vec<FileWithoutSha>, ListingError>(e),
        },
{
    let mut s = Scan {
        in_file_entry: false,
        in_name: false,
        in_author: false,
        in_date: false,
        in_size: false,
        name: None,
        author: None,
        date: None,
        size: None,
        revision: None,
    };
    let mut files: Vec<FileWithoutSha> = Vec::new();
    let mut i: usize = 0;
    while i < evs.len()
        invariant
            i <= evs@.len(),
            scan_events(evs@.take(i as int)) == Ok::<(Scan, Seq<FileWithoutSha>), ListingError>((s, files@)),
        decreases evs.len() - i,
    {
        assert(evs@.take(i + 1).drop_last() =~= evs@.take(i as int));
        assert(evs@.take(i + 1).last() == evs@[i as int]);
        match scan_one(&mut s, &mut files, &evs[i]) {
            Ok(()) => {},
            Err(e) => {
                assert(scan_events(evs@.take(i + 1)) == Err::<(Scan, Seq<FileWithoutSha>), ListingError>(e));
                proof {
                    lemma_scan_error_stays(evs@, (i + 1) as int, e);
                }
                return Err(e);
            },
        }
        i = i + 1;
    }
    assert(evs@.take(evs@.len() as int) =~= evs@);
    Ok(files)
}

/// The files that the output of a listing command describes, given whether
/// the command succeeded, what it printed, and what it printed on its error
/// stream.
pub fn list_files(succeeded: bool, stdout: &str, stderr: String) -> (r: Result<Vec<FileWithoutSha>, ListingError>)
    ensures
        match listing_files(succeeded, stdout@, stderr) {
            Ok(fs) => r is Ok && r->Ok_0@ == fs,
            Err(e) => r == Err::<Vec<FileWithoutSha>, ListingError>(e),
        },
{
    if !succeeded {
        return Err(ListingError::PackageNotFound(stderr));
    }
    match read_xml(stdout) {
        Ok(evs) => files_from_events(&evs),
        Err(p) => Err(ListingError::MalformedXml(p)),
    }
}

/// Once a field cannot be read, the listing stays failed.
proof fn lemma_scan_error_stays(evs: Seq<XmlEvent>, k: int, e: ListingError)
    requires
        0 <= k <= evs.len(),
        scan_events(evs.take(k)) == Err::<(Scan, Seq<FileWithoutSha>), ListingError>(e),
    ensures
        scan_events(evs) == Err::<(Scan, Seq<FileWithoutSha>), ListingError>(e),
    decreases evs.len() - k,
{
    if evs.len() == k {
        assert(evs.take(k) =~= evs);
    } else {
        assert(evs.drop_last().take(k) =~= evs.take(k));
        lemma_scan_error_stays(evs.drop_last(), k, e);
    }
}

} // verus!
