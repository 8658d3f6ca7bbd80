//! Package names: the `apertium-` prefix and conversion between two- and
//! three-letter language codes.

use vstd::prelude::*;
use vstd::string::StrSliceExecFns;
use vstd::string::StringExecFns;

use crate::text::{chars_of, same_as, starts_with_lit};

verus! {

/// The capture groups of the first match of a regular expression in a text,
/// group 0 being the whole match and `None` standing for a group that took no
/// part; `None` where the pattern does not compile or does not match.
pub uninterp spec fn regex_captures_of(pattern: Seq<char>, text: Seq<char>) -> Option<Seq<Option<Seq<char>>>>;

pub open spec fn group_views(v: Seq<Option<String>>) -> Seq<Option<Seq<char>>> {
    v.map_values(|g: Option<String>| match g {
        Some(s) => Some(s@),
        None => None,
    })
}

/// Relies on regex's `Regex::new` and `Regex::captures`: the groups follow
/// from the pattern and the text alone.
#[verifier::external_body]
fn regex_captures(pattern: &str, text: &str) -> (r: Option<Vec<Option<String>>>)
    ensures
        match r {
            Some(v) => regex_captures_of(pattern@, text@) == Some(group_views(v@)),
            None => regex_captures_of(pattern@, text@) is None,
        },
{
    let re = regex::Regex::new(pattern).ok()?;
    let caps = re.captures(text)?;
    Some(caps.iter().map(|g| g.map(|m| m.as_str().to_string())).collect())
}

/// A module's name: `apertium-` and one language code (two or three word
/// characters, optionally with `_` and a variant).
pub open spec fn module_pattern() -> Seq<char> {
    r"^apertium-(\w{2,3}?)(?:_(\w+))?$"@
}

/// A pair's name: `apertium-` and two language codes joined by `-`.
pub open spec fn pair_pattern() -> Seq<char> {
    r"^apertium-(\w{2,3}?)(?:_(\w+))?-(\w{2,3}?)(?:_(\w+))?$"@
}

/// The value of the last (key, value) pair whose key is `key`: a table read
/// into a map, later lines replacing earlier ones.
pub open spec fn table_lookup(pairs: Seq<(Seq<char>, Seq<char>)>, key: Seq<char>) -> Option<Seq<char>>
    decreases pairs.len(),
{
    if pairs.len() == 0 {
        None
    } else if pairs.last().0 == key {
        Some(pairs.last().1)
    } else {
        table_lookup(pairs.drop_last(), key)
    }
}

/// The (two-letter, three-letter) code pairs of the table.
pub open spec fn code_pairs(codes: Seq<(String, String)>) -> Seq<(Seq<char>, Seq<char>)> {
    codes.map_values(|c: (String, String)| (c.0@, c.1@))
}

/// The same pairs, each turned round.
pub open spec fn turned(codes: Seq<(String, String)>) -> Seq<(Seq<char>, Seq<char>)> {
    codes.map_values(|c: (String, String)| (c.1@, c.0@))
}

/// The other form of a language code, with its variant kept after `_`: a
/// three-letter code becomes two letters and a two-letter code three, by the
/// table of (two-letter, three-letter) pairs.
pub open spec fn converted_code(codes: Seq<(String, String)>, code: Seq<char>, sub: Option<Seq<char>>) -> Option<Seq<char>> {
    let found = if code.len() == 3 {
        table_lookup(turned(codes), code)
    } else if code.len() == 2 {
        table_lookup(code_pairs(codes), code)
    } else {
        None
    };
    match (found, sub) {
        (Some(x), Some(y)) => Some(x + "_"@ + y),
        (Some(x), None) => Some(x),
        (None, _) => None,
    }
}

fn lookup(codes: &Vec<(String, String)>, key: &str, three_first: bool) -> (r: Option<String>)
    ensures
        match r {
            Some(s) => Some(s@) == table_lookup(if three_first { turned(codes@) } else { code_pairs(codes@) }, key@),
            None => table_lookup(if three_first { turned(codes@) } else { code_pairs(codes@) }, key@) is None,
        },
{
    let ghost t = if three_first { turned(codes@) } else { code_pairs(codes@) };
    let k = chars_of(key);
    let mut i: usize = codes.len();
    assert(t.take(codes@.len() as int) =~= t);
    while i > 0
        invariant
            i <= codes@.len(),
            k@ == key@,
            t == if three_first { turned(codes@) } else { code_pairs(codes@) },
            table_lookup(t, key@) == table_lookup(t.take(i as int), key@),
        decreases i,
    {
        assert(t.take(i as int).drop_last() =~= t.take(i - 1));
        let (from, to) = if three_first {
            (&codes[i - 1].1, &codes[i - 1].0)
        } else {
            (&codes[i - 1].0, &codes[i - 1].1)
        };
        if crate::text::same_chars(&chars_of(from.as_str()), &k) {
            return Some(to.clone());
        }
        i = i - 1;
    }
    None
}

/// The other form of a language code `code`, with its variant `sub_code`
/// kept; `codes` is the table of (two-letter, three-letter) pairs.
pub fn convert_language_code(codes: &Vec<(String, String)>, code: &str, sub_code: Option<&str>) -> (r: Option<String>)
    ensures
        match r {
            Some(s) => converted_code(codes@, code@, match sub_code { Some(y) => Some(y@), None => None }) == Some(s@),
            None => converted_code(codes@, code@, match sub_code { Some(y) => Some(y@), None => None }) is None,
        },
{
    let n = code.unicode_len();
    let found = if n == 3 {
        lookup(codes, code, true)
    } else if n == 2 {
        lookup(codes, code, false)
    } else {
        None
    };
    match (found, sub_code) {
        (Some(x), Some(y)) => Some(x.concat("_").concat(y)),
        (Some(x), None) => Some(x),
        (None, _) => None,
    }
}

/// A package name with the `apertium-` prefix, added where it is missing.
pub open spec fn prefixed(name: Seq<char>) -> Seq<char> {
    if name.len() >= 9 && name.take(9) == "apertium-"@ {
        name
    } else {
        "apertium-"@ + name
    }
}

/// Whether some known package has this name.
pub open spec fn known(packages: Seq<String>, n: Seq<char>) -> bool {
    exists|i: int| 0 <= i < packages.len() && (#[trigger] packages[i])@ == n
}

pub open spec fn group(g: Seq<Option<Seq<char>>>, i: int) -> Option<Seq<char>> {
    if 0 <= i < g.len() {
        g[i]
    } else {
        None
    }
}

/// How a prefixed name reads, given what the module pattern and the pair
/// pattern capture of it: whether it has the form of a module or pair name,
/// and the name with its language codes converted, where they convert.
pub open spec fn reading_of(
    codes: Seq<(String, String)>,
    module: Option<Seq<Option<Seq<char>>>>,
    pair: Option<Seq<Option<Seq<char>>>>,
) -> (bool, Option<Seq<char>>) {
    if module is Some && group(module->Some_0, 1) is Some {
        let g = module->Some_0;
        match converted_code(codes, group(g, 1)->Some_0, group(g, 2)) {
            Some(x) => (true, Some("apertium-"@ + x)),
            None => (true, None),
        }
    } else {
        match pair {
            None => (false, None),
            Some(g) => if group(g, 1) is Some && group(g, 3) is Some {
                match (
                    converted_code(codes, group(g, 1)->Some_0, group(g, 2)),
                    converted_code(codes, group(g, 3)->Some_0, group(g, 4)),
                ) {
                    (Some(a), Some(b)) => (true, Some("apertium-"@ + a + "-"@ + b)),
                    _ => (true, None),
                }
            } else {
                (true, None)
            },
        }
    }
}

/// How a prefixed name reads against the module and pair patterns.
pub open spec fn name_reading(codes: Seq<(String, String)>, n: Seq<char>) -> (bool, Option<Seq<char>>) {
    reading_of(codes, regex_captures_of(module_pattern(), n), regex_captures_of(pair_pattern(), n))
}

pub open spec fn opt_groups(g: Option<Vec<Option<String>>>) -> Option<Seq<Option<Seq<char>>>> {
    match g {
        Some(v) => Some(group_views(v@)),
        None => None,
    }
}

pub open spec fn opt_view(s: Option<String>) -> Option<Seq<char>> {
    match s {
        Some(x) => Some(x@),
        None => None,
    }
}

/// The name of the package that `name` designates: the prefixed name where a
/// package has it; else the name with its language codes converted where a
/// package has that; else the prefixed name where it has the form of a module
/// or pair name; else an error.
pub open spec fn normalized(packages: Seq<String>, codes: Seq<(String, String)>, name: Seq<char>) -> Result<Seq<char>, Seq<char>> {
    let n = prefixed(name);
    if known(packages, n) {
        Ok(n)
    } else {
        let (form, conv) = name_reading(codes, n);
        if conv is Some && known(packages, conv->Some_0) {
            Ok(conv->Some_0)
        } else if form {
            Ok(n)
        } else {
            Err("Invalid package name: "@ + name)
        }
    }
}

fn is_known(packages: &Vec<String>, n: &String) -> (r: bool)
    ensures
        r == known(packages@, n@),
{
    let mut i: usize = 0;
    while i < packages.len()
        invariant
            i <= packages@.len(),
            forall|j: int| 0 <= j < i ==> (#[trigger] packages@[j])@ != n@,
        decreases packages.len() - i,
    {
        if packages[i] == *n {
            return true;
        }
        i = i + 1;
    }
    false
}

fn group_at(g: &Vec<Option<String>>, i: usize) -> (r: Option<&String>)
    ensures
        match r {
            Some(s) => group(group_views(g@), i as int) == Some(s@),
            None => group(group_views(g@), i as int) is None,
        },
{
    if i < g.len() {
        match &g[i] {
            Some(s) => Some(s),
            None => None,
        }
    } else {
        None
    }
}

fn code_of(codes: &Vec<(String, String)>, g: &Vec<Option<String>>, i: usize) -> (r: Option<String>)
    requires
        i < 8,
        group(group_views(g@), i as int) is Some,
    ensures
        match r {
            Some(s) => converted_code(codes@, group(group_views(g@), i as int)->Some_0, group(group_views(g@), i + 1)) == Some(s@),
            None => converted_code(codes@, group(group_views(g@), i as int)->Some_0, group(group_views(g@), i + 1)) is None,
        },
{
    let code = group_at(g, i).unwrap();
    match group_at(g, i + 1) {
        Some(sub) => convert_language_code(codes, code.as_str(), Some(sub.as_str())),
        None => convert_language_code(codes, code.as_str(), None),
    }
}

/// How a prefixed name reads, given what the module pattern and the pair
/// pattern capture of it.
pub fn reading_from_groups(
    codes: &Vec<(String, String)>,
    module: &Option<Vec<Option<String>>>,
    pair: &Option<Vec<Option<String>>>,
) -> (r: (bool, Option<String>))
    ensures
        (r.0, opt_view(r.1)) == reading_of(codes@, opt_groups(*module), opt_groups(*pair)),
{
    let module_code = match module {
        Some(g) => group_at(g, 1).is_some(),
        None => false,
    };
    if module_code {
        let g = module.as_ref().unwrap();
        match code_of(codes, g, 1) {
            Some(x) => (true, Some(String::from_str("apertium-").concat(x.as_str()))),
            None => (true, None),
        }
    } else {
        match pair {
            None => (false, None),
            Some(g) => {
                if group_at(g, 1).is_some() && group_at(g, 3).is_some() {
                    match (code_of(codes, g, 1), code_of(codes, g, 3)) {
                        (Some(a), Some(b)) => (
                            true,
                            Some(String::from_str("apertium-").concat(a.as_str()).concat("-").concat(b.as_str())),
                        ),
                        _ => (true, None),
                    }
                } else {
                    (true, None)
                }
            },
        }
    }
}

/// The name of the package that `name` designates, among `package_names`,
/// with `codes` the table of (two-letter, three-letter) language codes.
pub fn normalize_name(name: &str, package_names: &Vec<String>, codes: &Vec<(String, String)>) -> (r: Result<String, String>)
    ensures
        match normalized(package_names@, codes@, name@) {
            Ok(n) => r is Ok && r->Ok_0@ == n,
            Err(m) => r is Err && r->Err_0@ == m,
        },
{
    let n = if starts_with_lit(&chars_of(name), "apertium-") {
        proof {
            reveal_strlit("apertium-");
        }
        String::from_str(name)
    } else {
        proof {
            reveal_strlit("apertium-");
        }
        String::from_str("apertium-").concat(name)
    };
    if is_known(package_names, &n) {
        return Ok(n);
    }
    let module = regex_captures(r"^apertium-(\w{2,3}?)(?:_(\w+))?$", n.as_str());
    let pair = regex_captures(r"^apertium-(\w{2,3}?)(?:_(\w+))?-(\w{2,3}?)(?:_(\w+))?$", n.as_str());
    let (form, conv) = reading_from_groups(codes, &module, &pair);
    match conv {
        Some(c) => {
            if is_known(package_names, &c) {
                return Ok(c);
            }
        },
        None => {},
    }
    if form {
        Ok(n)
    } else {
        Err(String::from_str("Invalid package name: ").concat(name))
    }
}

} // verus!
