use vstd::prelude::*;

use regex::Regex;

verus! {

/// `regex::Regex`, carried through opaquely.
#[verifier::external_type_specification]
#[verifier::external_body]
pub struct ExRegex(Regex);

/// Whether `Regex::new` accepts the pattern `p`.
pub uninterp spec fn regex_accepts(p: Seq<char>) -> bool;

/// Whether the regex compiled from the pattern `p` matches somewhere in `text`.
pub uninterp spec fn regex_finds(p: Seq<char>, text: Seq<char>) -> bool;

/// The kind of a directory entry.
#[derive(Clone, Copy, Debug, PartialEq, Eq, Structural)]
pub enum EntryType {
    Dir,
    File,
    Link,
}

/// A name pattern: a regular expression together with its source text.
#[derive(Debug)]
pub struct NamePattern {
    source: String,
    re: Regex,
}

impl View for NamePattern {
    type V = Seq<char>;

    closed spec fn view(&self) -> Seq<char> {
        self.source@
    }
}

/// Options of the directory-tree filter.
#[derive(Debug)]
pub struct Config {
    pub paths: Vec<String>,
    pub names: Vec<NamePattern>,
    pub entry_types: Vec<EntryType>,
}

/// Relies on `regex::Regex::new`: whether it succeeds depends on the pattern alone.
#[verifier::external_body]
fn compile_pattern(p: &str) -> (r: Option<NamePattern>)
    ensures
        r is Some <==> regex_accepts(p@),
        r is Some ==> r->0@ == p@,
{
    match Regex::new(p) {
        Ok(re) => Some(NamePattern { source: p.to_string(), re }),
        Err(_) => None,
    }
}

/// Relies on `regex::Regex::is_match`: whether the regex matches anywhere in `text`.
#[verifier::external_body]
fn pattern_finds(pat: &NamePattern, text: &str) -> (r: bool)
    ensures
        r == regex_finds(pat@, text@),
{
    pat.re.is_match(text)
}

/// The kind of an entry from what its file type says.
pub fn entry_type_of(is_dir: bool, is_symlink: bool) -> (r: EntryType)
    ensures
        r == (if is_dir {
            EntryType::Dir
        } else if is_symlink {
            EntryType::Link
        } else {
            EntryType::File
        }),
{
    if is_dir {
        EntryType::Dir
    } else if is_symlink {
        EntryType::Link
    } else {
        EntryType::File
    }
}

/// The entry kind named by `d`, `f` or `l`.
pub fn parse_entry_type(val: &str) -> (r: Option<EntryType>)
    ensures
        r == (if val@ == seq!['d'] {
            Some(EntryType::Dir)
        } else if val@ == seq!['f'] {
            Some(EntryType::File)
        } else if val@ == seq!['l'] {
            Some(EntryType::Link)
        } else {
            None::<EntryType>
        }),
{
    let cs = crate::text::chars_of(val);
    if cs.len() != 1 {
        return None;
    }
    assert(cs@ =~= seq![cs@[0]]);
    if cs[0] == 'd' {
        Some(EntryType::Dir)
    } else if cs[0] == 'f' {
        Some(EntryType::File)
    } else if cs[0] == 'l' {
        Some(EntryType::Link)
    } else {
        None
    }
}

/// Compiles each name pattern; on failure returns the first pattern that does not compile.
pub fn parse_name_patterns(names: &Vec<String>) -> (r: Result<Vec<NamePattern>, String>)
    ensures
        r is Ok <==> forall|i: int| 0 <= i < names@.len() ==> regex_accepts(#[trigger] names@[i]@),
        r is Ok ==> r->Ok_0@.len() == names@.len() && forall|i: int|
            0 <= i < names@.len() ==> (#[trigger] r->Ok_0@[i])@ == names@[i]@,
        r is Err ==> exists|i: int|
            0 <= i < names@.len() && !regex_accepts(#[trigger] names@[i]@) && r->Err_0@
                == names@[i]@ && forall|j: int| 0 <= j < i ==> regex_accepts(#[trigger] names@[j]@),
{
    let mut out: Vec<NamePattern> = Vec::new();
    let n = names.len();
    let mut i: usize = 0;
    while i < n
        invariant
            n == names@.len(),
            i <= n,
            out@.len() == i,
            forall|j: int| 0 <= j < i ==> (#[trigger] out@[j])@ == names@[j]@,
            forall|j: int| 0 <= j < i ==> regex_accepts(#[trigger] names@[j]@),
        decreases n - i,
    {
        match compile_pattern(names[i].as_str()) {
            Some(p) => {
                out.push(p);
            },
            None => {
                return Err(names[i].clone());
            },
        }
        i = i + 1;
    }
    Ok(out)
}

/// The number of patterns found in the name among `hits`.
pub open spec fn hit_count(hits: Seq<bool>) -> nat
    decreases hits.len(),
{
    if hits.len() == 0 {
        0
    } else {
        hit_count(hits.drop_last()) + if hits.last() {
            1nat
        } else {
            0nat
        }
    }
}

/// Whether an entry of kind `t` passes the kind filter `types` (empty: every kind).
pub open spec fn kind_passes(types: Seq<EntryType>, t: EntryType) -> bool {
    types.len() == 0 || types.contains(t)
}

/// How many times an entry is listed: once if no name pattern is given, else once per
/// pattern found in its name (`hits`); never if its kind is filtered out.
pub open spec fn listings_spec(pattern_count: nat, hits: Seq<bool>, types: Seq<EntryType>, t: EntryType) -> nat {
    if !kind_passes(types, t) {
        0
    } else if pattern_count == 0 {
        1
    } else {
        hit_count(hits)
    }
}

/// How many times an entry of kind `t` is listed, given for each name pattern whether it
/// is found in the entry's name.
pub fn count_listings(hits: &Vec<bool>, types: &Vec<EntryType>, t: EntryType) -> (r: usize)
    ensures
        r == listings_spec(hits@.len(), hits@, types@, t),
{
    let mut kind_ok = types.len() == 0;
    let mut k: usize = 0;
    while k < types.len()
        invariant
            k <= types@.len(),
            kind_ok == (types@.len() == 0 || exists|j: int| 0 <= j < k && types@[j] == t),
        decreases types@.len() - k,
    {
        if types[k] == t {
            kind_ok = true;
        }
        k = k + 1;
    }
    assert(kind_ok == kind_passes(types@, t));
    if !kind_ok {
        return 0;
    }
    if hits.len() == 0 {
        return 1;
    }
    let mut count: usize = 0;
    let mut i: usize = 0;
    while i < hits.len()
        invariant
            i <= hits@.len(),
            count == hit_count(hits@.take(i as int)),
            count <= i,
        decreases hits@.len() - i,
    {
        assert(hits@.take(i + 1).drop_last() =~= hits@.take(i as int));
        if hits[i] {
            count = count + 1;
        }
        i = i + 1;
    }
    assert(hits@.take(hits@.len() as int) =~= hits@);
    count
}

/// The name-pattern results for `name`, pattern by pattern.
pub open spec fn hits_for(names: Seq<NamePattern>, name: Seq<char>) -> Seq<bool> {
    names.map_values(|p: NamePattern| regex_finds(p@, name))
}

/// How many times an entry named `name` of kind `t` is listed under `config`.
pub fn times_listed(config: &Config, name: &str, t: EntryType) -> (r: usize)
    ensures
        r == listings_spec(
            config.names@.len(),
            hits_for(config.names@, name@),
            config.entry_types@,
            t,
        ),
{
    let mut hits: Vec<bool> = Vec::new();
    let n = config.names.len();
    let mut i: usize = 0;
    while i < n
        invariant
            n == config.names@.len(),
            i <= n,
            hits@ == hits_for(config.names@, name@).take(i as int),
        decreases n - i,
    {
        let h = pattern_finds(&config.names[i], name);
        hits.push(h);
        i = i + 1;
        assert(hits@ =~= hits_for(config.names@, name@).take(i as int));
    }
    assert(hits@ =~= hits_for(config.names@, name@));
    count_listings(&hits, &config.entry_types, t)
}

} // verus!
