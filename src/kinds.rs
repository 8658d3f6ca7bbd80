//! The closed sets of file formats and of measured quantities, and the options
//! of a statistics request.

use vstd::prelude::*;
use vstd::string::StringExecFns;

use crate::text::{chars_of, same_as};

verus! {

/// A recognised resource format.
#[derive(PartialEq, Eq, Structural, Clone, Copy, Debug)]
pub enum FileKind {
    /// Emits Stems and Paradigms.
    Monodix,
    /// Emits Entries.
    Bidix,
    /// Emits Stems and Paradigms.
    MetaMonodix,
    /// Emits Entries.
    MetaBidix,
    /// Emits Entries.
    Postdix,
    /// Emits Rules.
    Rlx,
    /// Emits Rules and Macros.
    Transfer,
    /// Emits VanillaStems and Stems.
    Lexc,
    /// Emits Rules.
    Twol,
    /// Emits Lexicons, LexiconEntries, Patterns and PatternEntries.
    Lexd,
}

/// A measurable quantity of a resource file.
#[derive(PartialEq, Eq, Structural, Clone, Copy, Debug)]
pub enum StatKind {
    Entries,
    Paradigms,
    Rules,
    Macros,
    Stems,
    VanillaStems,
    Lexicons,
    LexiconEntries,
    Patterns,
    PatternEntries,
}

/// What `str::to_lowercase` returns for a string with these characters.
pub uninterp spec fn lowercase_of(s: Seq<char>) -> Seq<char>;

/// Relies on `str::to_lowercase`: its result is determined by the characters
/// of the input, and an empty input gives an empty result.
#[verifier::external_body]
fn to_lowercase(s: &str) -> (r: String)
    ensures
        r@ == lowercase_of(s@),
        s@.len() == 0 ==> r@.len() == 0,
{
    s.to_lowercase()
}

/// `s` with every underscore removed.
pub open spec fn without_underscores(s: Seq<char>) -> Seq<char> {
    s.filter(|c: char| c != '_')
}

/// The kind whose name, in lower case and without underscores, is `s`.
pub open spec fn kind_named(s: Seq<char>) -> Option<FileKind> {
    if s == "monodix"@ {
        Some(FileKind::Monodix)
    } else if s == "bidix"@ {
        Some(FileKind::Bidix)
    } else if s == "metamonodix"@ {
        Some(FileKind::MetaMonodix)
    } else if s == "metabidix"@ {
        Some(FileKind::MetaBidix)
    } else if s == "postdix"@ {
        Some(FileKind::Postdix)
    } else if s == "rlx"@ {
        Some(FileKind::Rlx)
    } else if s == "transfer"@ {
        Some(FileKind::Transfer)
    } else if s == "lexc"@ {
        Some(FileKind::Lexc)
    } else if s == "twol"@ {
        Some(FileKind::Twol)
    } else if s == "lexd"@ {
        Some(FileKind::Lexd)
    } else {
        None
    }
}

/// The message given for a kind name that names no kind.
pub open spec fn invalid_kind_message(s: Seq<char>) -> Seq<char> {
    "Invalid file kind: "@ + s
}

fn drop_underscores(s: &Vec<char>) -> (r: Vec<char>)
    ensures
        r@ == without_underscores(s@),
{
    let mut r: Vec<char> = Vec::new();
    let mut i: usize = 0;
    proof {
        reveal(Seq::filter);
    }
    while i < s.len()
        invariant
            i <= s.len(),
            r@ == without_underscores(s@.take(i as int)),
        decreases s.len() - i,
    {
        assert(s@.take(i + 1).drop_last() =~= s@.take(i as int));
        proof {
            reveal(Seq::filter);
        }
        if s[i] != '_' {
            r.push(s[i]);
        }
        i = i + 1;
    }
    assert(s@.take(s@.len() as int) =~= s@);
    r
}

impl FileKind {
    /// The kind named by a lower-case name, ignoring underscores
    /// (`meta_monodix` names `MetaMonodix`).
    pub fn from_lowercase(name: &str) -> (r: Option<FileKind>)
        ensures
            r == kind_named(without_underscores(name@)),
    {
        let s = drop_underscores(&chars_of(name));
        if same_as(&s, "monodix") {
            Some(FileKind::Monodix)
        } else if same_as(&s, "bidix") {
            Some(FileKind::Bidix)
        } else if same_as(&s, "metamonodix") {
            Some(FileKind::MetaMonodix)
        } else if same_as(&s, "metabidix") {
            Some(FileKind::MetaBidix)
        } else if same_as(&s, "postdix") {
            Some(FileKind::Postdix)
        } else if same_as(&s, "rlx") {
            Some(FileKind::Rlx)
        } else if same_as(&s, "transfer") {
            Some(FileKind::Transfer)
        } else if same_as(&s, "lexc") {
            Some(FileKind::Lexc)
        } else if same_as(&s, "twol") {
            Some(FileKind::Twol)
        } else if same_as(&s, "lexd") {
            Some(FileKind::Lexd)
        } else {
            None
        }
    }

    /// The kind named by `s`, in any case and with any underscores; an
    /// error message naming `s` otherwise.
    pub fn from_string(s: &str) -> (r: Result<FileKind, String>)
        ensures
            r is Ok <==> kind_named(without_underscores(lowercase_of(s@))) is Some,
            r is Ok ==> r == Ok::<FileKind, String>(
                kind_named(without_underscores(lowercase_of(s@)))->Some_0,
            ),
            r is Err ==> r->Err_0@ == invalid_kind_message(s@),
    {
        let lowered = to_lowercase(s);
        match FileKind::from_lowercase(lowered.as_str()) {
            Some(k) => Ok(k),
            None => Err(String::from_str("Invalid file kind: ").concat(s)),
        }
    }
}

/// The options of a statistics request.
pub struct Params {
    pub recursive: Option<bool>,
    pub run_async: Option<bool>,
}

impl Params {
    /// Whether the caller does not wait for the results; so unless it says
    /// otherwise.
    pub fn is_async(&self) -> (r: bool)
        ensures
            r == match self.run_async {
                Some(b) => b,
                None => true,
            },
    {
        match self.run_async {
            Some(b) => b,
            None => true,
        }
    }

    /// Whether the listing descends into directories; not unless asked.
    pub fn is_recursive(&self) -> (r: bool)
        ensures
            r == match self.recursive {
                Some(b) => b,
                None => false,
            },
    {
        match self.recursive {
            Some(b) => b,
            None => false,
        }
    }
}

impl Default for Params {
    fn default() -> (r: Params)
        ensures
            r.recursive is None,
            r.run_async == Some(true),
    {
        Params { recursive: None, run_async: Some(true) }
    }
}

} // verus!
