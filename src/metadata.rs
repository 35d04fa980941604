//! Core metadata: the RFC 822-style header block of a distribution (`METADATA`
//! or `PKG-INFO`). Headers run up to the first empty line; a line that starts
//! with whitespace continues a folded header and is not read on its own.

use vstd::prelude::*;
use crate::artifact::{ArtifactName, SDistFilename, SDistFormat, STreeFilename};
use crate::name::{NormalizedPackageName, normalized};
use crate::direct_url::first_index_of;
use crate::text::{chars_of, same_text, slice_string, split, split_on, views};

verus! {

/// A line without its trailing carriage return.
pub open spec fn strip_cr(l: Seq<char>) -> Seq<char> {
    if l.len() > 0 && l.last() == '\r' { l.drop_last() } else { l }
}

/// The number of lines before the first empty one.
pub open spec fn header_count(lines: Seq<Seq<char>>) -> int
    decreases lines.len(),
{
    if lines.len() == 0 || strip_cr(lines[0]).len() == 0 {
        0
    } else {
        1 + header_count(lines.drop_first())
    }
}

/// A line that continues the header before it.
pub open spec fn is_continuation(l: Seq<char>) -> bool {
    l.len() > 0 && (l[0] == ' ' || l[0] == '\t')
}

/// A value without its leading spaces.
pub open spec fn skip_spaces(v: Seq<char>) -> Seq<char>
    decreases v.len(),
{
    if v.len() > 0 && v[0] == ' ' { skip_spaces(v.drop_first()) } else { v }
}

/// The key and value of a header line, split at its first `:`.
pub open spec fn header_field(l: Seq<char>) -> (Seq<char>, Seq<char>) {
    let c = first_index_of(l, ':');
    (l.take(c), skip_spaces(l.skip(c + 1)))
}

/// The fields of header lines (already without carriage returns); `None` when a
/// line that is not a continuation has no `:`.
pub open spec fn parse_fields(hs: Seq<Seq<char>>) -> Option<Seq<(Seq<char>, Seq<char>)>>
    decreases hs.len(),
{
    if hs.len() == 0 {
        Some(Seq::empty())
    } else {
        match parse_fields(hs.drop_last()) {
            None => None,
            Some(fs) => {
                let l = hs.last();
                if is_continuation(l) {
                    Some(fs)
                } else if first_index_of(l, ':') == l.len() {
                    None
                } else {
                    Some(fs.push(header_field(l)))
                }
            },
        }
    }
}

/// The header lines of a text.
pub open spec fn header_lines(text: Seq<char>) -> Seq<Seq<char>> {
    let lines = split(text, '\n');
    lines.take(header_count(lines)).map_values(|l: Seq<char>| strip_cr(l))
}

/// The value of the first field named `key`.
pub open spec fn first_value(fs: Seq<(Seq<char>, Seq<char>)>, key: Seq<char>) -> Option<Seq<char>>
    decreases fs.len(),
{
    if fs.len() == 0 {
        None
    } else {
        match first_value(fs.drop_last(), key) {
            Some(v) => Some(v),
            None => if fs.last().0 == key { Some(fs.last().1) } else { None },
        }
    }
}

/// The values of all fields named `key`, in order.
pub open spec fn all_values(fs: Seq<(Seq<char>, Seq<char>)>, key: Seq<char>) -> Seq<Seq<char>>
    decreases fs.len(),
{
    if fs.len() == 0 {
        Seq::empty()
    } else if fs.last().0 == key {
        all_values(fs.drop_last(), key).push(fs.last().1)
    } else {
        all_values(fs.drop_last(), key)
    }
}

/// Why a metadata text could not be read.
#[derive(Debug, Clone, PartialEq, Eq)]
pub enum MetadataError {
    /// A header line without `:`.
    MalformedHeader(String),
    /// A required field is absent.
    MissingField(String),
}

/// Parsed core metadata.
#[derive(Debug, Clone, PartialEq, Eq)]
pub struct CoreMetadata {
    pub metadata_version: String,
    pub name: String,
    pub version: String,
    pub summary: Option<String>,
    pub requires_python: Option<String>,
    pub requires_dist: Vec<String>,
    pub provides_extras: Vec<String>,
}

pub open spec fn opt_view(o: Option<String>) -> Option<Seq<char>> {
    match o {
        Some(s) => Some(s@),
        None => None,
    }
}

/// The metadata that fields describe, if the required ones are there.
pub open spec fn metadata_of(fs: Seq<(Seq<char>, Seq<char>)>, m: CoreMetadata) -> bool {
    &&& first_value(fs, "Metadata-Version"@) == Some(m.metadata_version@)
    &&& first_value(fs, "Name"@) == Some(m.name@)
    &&& first_value(fs, "Version"@) == Some(m.version@)
    &&& first_value(fs, "Summary"@) == opt_view(m.summary)
    &&& first_value(fs, "Requires-Python"@) == opt_view(m.requires_python)
    &&& all_values(fs, "Requires-Dist"@) == views(m.requires_dist@)
    &&& all_values(fs, "Provides-Extra"@) == views(m.provides_extras@)
}

fn without_cr(l: &String) -> (r: Vec<char>)
    ensures
        r@ == strip_cr(l@),
{
    let cs = chars_of(l.as_str());
    if cs.len() > 0 && cs[cs.len() - 1] == '\r' {
        let mut out = cs;
        out.pop();
        assert(out@ =~= strip_cr(l@));
        out
    } else {
        cs
    }
}

fn skip_spaces_exec(cs: &Vec<char>, from: usize) -> (r: String)
    requires
        from <= cs@.len(),
    ensures
        r@ == skip_spaces(cs@.skip(from as int)),
{
    let mut i: usize = from;
    while i < cs.len() && cs[i] == ' '
        invariant
            from <= i <= cs@.len(),
            skip_spaces(cs@.skip(from as int)) == skip_spaces(cs@.skip(i as int)),
        decreases cs@.len() - i,
    {
        assert(cs@.skip(i as int).drop_first() =~= cs@.skip(i as int + 1));
        i = i + 1;
    }
    let r = slice_string(cs, i, cs.len());
    assert(r@ =~= cs@.skip(i as int));
    r
}

fn first_colon(cs: &Vec<char>) -> (r: usize)
    ensures
        r as int == first_index_of(cs@, ':'),
        r <= cs@.len(),
{
    proof {
        crate::direct_url::lemma_first_index_of(cs@, ':');
    }
    let mut i: usize = 0;
    while i < cs.len() && cs[i] != ':'
        invariant
            i <= cs@.len(),
            forall|j: int| 0 <= j < i ==> cs@[j] != ':',
            i <= first_index_of(cs@, ':'),
            0 <= first_index_of(cs@, ':') <= cs@.len(),
            first_index_of(cs@, ':') < cs@.len() ==> cs@[first_index_of(cs@, ':')] == ':',
        decreases cs@.len() - i,
    {
        i = i + 1;
    }
    i
}

proof fn lemma_header_count(lines: Seq<Seq<char>>)
    ensures
        0 <= header_count(lines) <= lines.len(),
        forall|j: int| 0 <= j < header_count(lines) ==> strip_cr(#[trigger] lines[j]).len() != 0,
        header_count(lines) < lines.len() ==> strip_cr(lines[header_count(lines)]).len() == 0,
    decreases lines.len(),
{
    if lines.len() > 0 && strip_cr(lines[0]).len() != 0 {
        lemma_header_count(lines.drop_first());
        assert forall|j: int| 0 <= j < header_count(lines) implies strip_cr(#[trigger] lines[j]).len() != 0 by {
            if j > 0 {
                assert(lines[j] == lines.drop_first()[j - 1]);
            }
        }
    }
}

proof fn lemma_parse_fields_none_extends(hs: Seq<Seq<char>>, i: int)
    requires
        0 <= i <= hs.len(),
        parse_fields(hs.take(i)) is None,
    ensures
        parse_fields(hs) is None,
    decreases hs.len(),
{
    if hs.len() == i {
        assert(hs.take(i) =~= hs);
    } else {
        assert(hs.drop_last().take(i) =~= hs.take(i));
        lemma_parse_fields_none_extends(hs.drop_last(), i);
    }
}

/// The fields of the header block of `text`.
pub fn header_fields(text: &str) -> (r: Result<Vec<(String, String)>, MetadataError>)
    ensures
        r is Ok <==> parse_fields(header_lines(text@)) is Some,
        r matches Ok(fs) ==> parse_fields(header_lines(text@)) == Some(fs@.map_values(|f: (String, String)| (f.0@, f.1@))),
        r is Err ==> r->Err_0 is MalformedHeader,
{
    let lines = split_on(text, '\n');
    let ghost lv = views(lines@);
    proof {
        lemma_header_count(lv);
    }
    let ghost hc = header_count(lv);
    let mut n: usize = 0;
    while n < lines.len() && without_cr(&lines[n]).len() > 0
        invariant
            lv == views(lines@),
            hc == header_count(lv),
            0 <= hc <= lv.len(),
            forall|j: int| 0 <= j < hc ==> strip_cr(#[trigger] lv[j]).len() != 0,
            hc < lv.len() ==> strip_cr(lv[hc]).len() == 0,
            n <= hc,
        decreases lines@.len() - n,
    {
        assert(lv[n as int] == lines@[n as int]@);
        n = n + 1;
    }
    proof {
        if n < lines@.len() {
            assert(lv[n as int] == lines@[n as int]@);
        }
    }
    assert(n as int == hc);
    let ghost hs = header_lines(text@);
    assert(hs.len() == hc);
    let mut fields: Vec<(String, String)> = Vec::new();
    let mut i: usize = 0;
    while i < n
        invariant
            lv == views(lines@),
            lv == split(text@, '\n'),
            hs == header_lines(text@),
            hs.len() == n,
            n == header_count(lv),
            n <= lines@.len(),
            i <= n,
            parse_fields(hs.take(i as int)) == Some(fields@.map_values(|f: (String, String)| (f.0@, f.1@))),
        decreases n - i,
    {
        let l = without_cr(&lines[i]);
        let ghost prev = fields@.map_values(|f: (String, String)| (f.0@, f.1@));
        assert(lv[i as int] == lines@[i as int]@);
        assert(hs[i as int] == l@);
        assert(hs.take(i as int + 1).drop_last() =~= hs.take(i as int));
        let continuation = l.len() > 0 && (l[0] == ' ' || l[0] == '\t');
        if !continuation {
            let c = first_colon(&l);
            if c == l.len() {
                proof {
                    lemma_parse_fields_none_extends(hs, i as int + 1);
                }
                let line = slice_string(&l, 0, l.len());
                return Err(MetadataError::MalformedHeader(line));
            }
            let key = slice_string(&l, 0, c);
            let value = skip_spaces_exec(&l, c + 1);
            assert(key@ =~= l@.take(c as int));
            fields.push((key, value));
            assert(fields@.map_values(|f: (String, String)| (f.0@, f.1@)) =~= prev.push(header_field(l@)));
        }
        i = i + 1;
    }
    assert(hs.take(i as int) =~= hs);
    Ok(fields)
}

fn first_field(fields: &Vec<(String, String)>, key: &str) -> (r: Option<String>)
    ensures
        opt_view(r) == first_value(fields@.map_values(|f: (String, String)| (f.0@, f.1@)), key@),
{
    let ghost fv = fields@.map_values(|f: (String, String)| (f.0@, f.1@));
    let mut found: Option<String> = None;
    let mut i: usize = 0;
    while i < fields.len()
        invariant
            fv == fields@.map_values(|f: (String, String)| (f.0@, f.1@)),
            i <= fields@.len(),
            opt_view(found) == first_value(fv.take(i as int), key@),
        decreases fields@.len() - i,
    {
        assert(fv.take(i as int + 1).drop_last() =~= fv.take(i as int));
        if found.is_none() && same_text(fields[i].0.as_str(), key) {
            found = Some(fields[i].1.clone());
        }
        i = i + 1;
    }
    assert(fv.take(i as int) =~= fv);
    found
}

fn all_fields(fields: &Vec<(String, String)>, key: &str) -> (r: Vec<String>)
    ensures
        views(r@) == all_values(fields@.map_values(|f: (String, String)| (f.0@, f.1@)), key@),
{
    let ghost fv = fields@.map_values(|f: (String, String)| (f.0@, f.1@));
    let mut out: Vec<String> = Vec::new();
    let mut i: usize = 0;
    while i < fields.len()
        invariant
            fv == fields@.map_values(|f: (String, String)| (f.0@, f.1@)),
            i <= fields@.len(),
            views(out@) == all_values(fv.take(i as int), key@),
        decreases fields@.len() - i,
    {
        assert(fv.take(i as int + 1).drop_last() =~= fv.take(i as int));
        if same_text(fields[i].0.as_str(), key) {
            let ghost before = views(out@);
            out.push(fields[i].1.clone());
            assert(views(out@) =~= before.push(fields[i as int].1@));
        }
        i = i + 1;
    }
    assert(fv.take(i as int) =~= fv);
    out
}

fn required_field(fields: &Vec<(String, String)>, key: &str) -> (r: Result<String, MetadataError>)
    ensures
        r matches Ok(v) ==> first_value(fields@.map_values(|f: (String, String)| (f.0@, f.1@)), key@) == Some(v@),
        r is Err ==> first_value(fields@.map_values(|f: (String, String)| (f.0@, f.1@)), key@) is None,
        r matches Err(MetadataError::MissingField(k)) ==> k@ == key@,
        r is Err ==> r->Err_0 is MissingField,
{
    match first_field(fields, key) {
        Some(v) => Ok(v),
        None => Err(MetadataError::MissingField(key.to_owned())),
    }
}

impl CoreMetadata {
    /// Reads core metadata from its text: `Metadata-Version`, `Name` and `Version`
    /// are required; `Summary` and `Requires-Python` are read from their first
    /// occurrence, `Requires-Dist` and `Provides-Extra` from every one.
    pub fn parse(text: &str) -> (r: Result<CoreMetadata, MetadataError>)
        ensures
            r matches Ok(m) ==> (parse_fields(header_lines(text@)) matches Some(fs) && metadata_of(fs, m)),
            r matches Err(MetadataError::MalformedHeader(_)) ==> parse_fields(header_lines(text@)) is None,
            r matches Err(MetadataError::MissingField(k)) ==> (parse_fields(header_lines(text@)) matches Some(fs)
                && first_value(fs, k@) is None
                && (k@ == "Metadata-Version"@ || k@ == "Name"@ || k@ == "Version"@)),
            parse_fields(header_lines(text@)) matches Some(fs) ==> (r is Ok <==> (
                first_value(fs, "Metadata-Version"@) is Some && first_value(fs, "Name"@) is Some
                && first_value(fs, "Version"@) is Some)),
    {
        let fields = match header_fields(text) {
            Ok(f) => f,
            Err(e) => return Err(e),
        };
        let metadata_version = match required_field(&fields, "Metadata-Version") {
            Ok(v) => v,
            Err(e) => return Err(e),
        };
        let name = match required_field(&fields, "Name") {
            Ok(v) => v,
            Err(e) => return Err(e),
        };
        let version = match required_field(&fields, "Version") {
            Ok(v) => v,
            Err(e) => return Err(e),
        };
        let summary = first_field(&fields, "Summary");
        let requires_python = first_field(&fields, "Requires-Python");
        let requires_dist = all_fields(&fields, "Requires-Dist");
        let provides_extras = all_fields(&fields, "Provides-Extra");
        Ok(CoreMetadata { metadata_version, name, version, summary, requires_python, requires_dist, provides_extras })
    }

    /// Whether this metadata describes the package `expected`.
    pub fn names_package(&self, expected: &NormalizedPackageName) -> (r: bool)
        ensures
            r == (normalized(self.name@) == expected@),
    {
        let n = NormalizedPackageName::from_name(self.name.as_str());
        same_text(n.as_str(), expected.as_str())
    }
}

/// The name of a source archive reached through a direct reference: its
/// distribution and version are known only from the metadata read from it.
pub fn sdist_name_from_metadata(m: &CoreMetadata, format: SDistFormat) -> (r: ArtifactName)
    ensures
        r matches ArtifactName::SDist(s) && s.distribution@ == m.name@ && s.version@ == m.version@ && s.format == format,
{
    ArtifactName::SDist(SDistFilename { distribution: m.name.clone(), version: m.version.clone(), format })
}

/// The name of a source tree reached through `url`, from the metadata read from it.
pub fn stree_name_from_metadata(m: &CoreMetadata, url: &str) -> (r: ArtifactName)
    ensures
        r matches ArtifactName::STree(t) && t.distribution@ == m.name@ && t.version@ == m.version@ && t.url@ == url@,
{
    ArtifactName::STree(STreeFilename { distribution: m.name.clone(), version: m.version.clone(), url: url.to_owned() })
}

} // verus!
