//! Wheel filenames: `{distribution}-{version}(-{build tag})?-{python tag}-{abi tag}-{platform tag}.whl`,
//! where each tag may be a `.`-separated set.

use vstd::prelude::*;
use crate::name::{normalized, NormalizedPackageName};
use crate::text::{
    chars_of, ends_with_chars, has_suffix, join, join_with, lemma_join_split, slice_string,
    split, split_on, views,
};

verus! {

/// Why a string is not a valid artifact filename.
#[derive(Debug, Clone, Copy, PartialEq, Eq, Structural)]
pub enum ParseArtifactNameError {
    /// The name does not end in the extension of its kind.
    InvalidExtension,
    /// The name has too few or too many `-`-separated components.
    InvalidComponentCount,
    /// One of the `-`-separated components is empty.
    EmptyComponent,
    /// The build tag does not start with a digit.
    InvalidBuildTag,
    /// The distribution does not match the expected package name.
    PackageNameMismatch,
}

/// The parts of a wheel filename.
#[derive(Debug, Clone, PartialEq, Eq, Hash)]
pub struct WheelFilename {
    pub distribution: String,
    pub version: String,
    pub build_tag: Option<String>,
    pub py_tags: Vec<String>,
    pub abi_tags: Vec<String>,
    pub arch_tags: Vec<String>,
}

pub struct WheelFilenameView {
    pub distribution: Seq<char>,
    pub version: Seq<char>,
    pub build_tag: Option<Seq<char>>,
    pub py_tags: Seq<Seq<char>>,
    pub abi_tags: Seq<Seq<char>>,
    pub arch_tags: Seq<Seq<char>>,
}

impl View for WheelFilename {
    type V = WheelFilenameView;

    open spec fn view(&self) -> WheelFilenameView {
        WheelFilenameView {
            distribution: self.distribution@,
            version: self.version@,
            build_tag: match self.build_tag {
                Some(b) => Some(b@),
                None => None,
            },
            py_tags: views(self.py_tags@),
            abi_tags: views(self.abi_tags@),
            arch_tags: views(self.arch_tags@),
        }
    }
}

pub open spec fn wheel_extension() -> Seq<char> {
    seq!['.', 'w', 'h', 'l']
}

pub open spec fn is_ascii_digit(c: char) -> bool {
    '0' <= c && c <= '9'
}

/// The parts of a wheel filename, from its `-`-separated components.
pub open spec fn wheel_parts_view(parts: Seq<Seq<char>>) -> WheelFilenameView {
    let n = parts.len();
    WheelFilenameView {
        distribution: parts[0],
        version: parts[1],
        build_tag: if n == 6 { Some(parts[2]) } else { None },
        py_tags: split(parts[n - 3], '.'),
        abi_tags: split(parts[n - 2], '.'),
        arch_tags: split(parts[n - 1], '.'),
    }
}

/// The `-`-separated components of a name that ends in `.whl`.
pub open spec fn wheel_components(s: Seq<char>) -> Seq<Seq<char>> {
    split(s.take(s.len() - 4), '-')
}

/// What parsing `s` as a wheel filename gives.
pub open spec fn parse_wheel_filename(s: Seq<char>) -> Result<WheelFilenameView, ParseArtifactNameError> {
    let parts = wheel_components(s);
    if !has_suffix(s, wheel_extension()) {
        Err(ParseArtifactNameError::InvalidExtension)
    } else if parts.len() != 5 && parts.len() != 6 {
        Err(ParseArtifactNameError::InvalidComponentCount)
    } else if exists|i: int| 0 <= i < parts.len() && (#[trigger] parts[i]).len() == 0 {
        Err(ParseArtifactNameError::EmptyComponent)
    } else if parts.len() == 6 && !is_ascii_digit(parts[2][0]) {
        Err(ParseArtifactNameError::InvalidBuildTag)
    } else {
        Ok(wheel_parts_view(parts))
    }
}

/// The `-`-separated components that a wheel filename is written with.
pub open spec fn wheel_text_components(v: WheelFilenameView) -> Seq<Seq<char>> {
    let head = match v.build_tag {
        Some(b) => seq![v.distribution, v.version, b],
        None => seq![v.distribution, v.version],
    };
    head + seq![join(v.py_tags, '.'), join(v.abi_tags, '.'), join(v.arch_tags, '.')]
}

/// The filename that a wheel's parts are written as.
pub open spec fn wheel_filename_text(v: WheelFilenameView) -> Seq<char> {
    join(wheel_text_components(v), '-') + wheel_extension()
}

/// Writing out a parsed wheel filename gives back the filename.
pub proof fn lemma_wheel_filename_round_trip(s: Seq<char>)
    requires
        parse_wheel_filename(s) is Ok,
    ensures
        wheel_filename_text(parse_wheel_filename(s)->Ok_0) == s,
{
    let parts = wheel_components(s);
    let n = parts.len();
    let v = wheel_parts_view(parts);
    lemma_join_split(parts[n - 3], '.');
    lemma_join_split(parts[n - 2], '.');
    lemma_join_split(parts[n - 1], '.');
    assert(wheel_text_components(v) =~= parts);
    lemma_join_split(s.take(s.len() - 4), '-');
    assert(s.take(s.len() - 4) + wheel_extension() =~= s);
}

fn wheel_extension_chars() -> (r: Vec<char>)
    ensures
        r@ == wheel_extension(),
{
    let r = vec!['.', 'w', 'h', 'l'];
    assert(r@ =~= wheel_extension());
    r
}

fn take_string(v: &Vec<String>, i: usize) -> (r: String)
    requires
        i < v@.len(),
    ensures
        r@ == v@[i as int]@,
{
    v[i].clone()
}

impl WheelFilename {
    /// Parses a wheel filename.
    pub fn parse(s: &str) -> (r: Result<WheelFilename, ParseArtifactNameError>)
        ensures
            r matches Ok(w) ==> parse_wheel_filename(s@) == Ok::<WheelFilenameView, ParseArtifactNameError>(w@),
            r matches Err(e) ==> parse_wheel_filename(s@) == Err::<WheelFilenameView, ParseArtifactNameError>(e),
    {
        let cs = chars_of(s);
        if !ends_with_chars(&cs, &wheel_extension_chars()) {
            return Err(ParseArtifactNameError::InvalidExtension);
        }
        let stem = slice_string(&cs, 0, cs.len() - 4);
        assert(stem@ =~= s@.take(s@.len() - 4));
        let parts = split_on(stem.as_str(), '-');
        let ghost pv = views(parts@);
        assert(pv == wheel_components(s@));
        let n = parts.len();
        if n != 5 && n != 6 {
            return Err(ParseArtifactNameError::InvalidComponentCount);
        }
        let mut i: usize = 0;
        while i < n
            invariant
                n == parts@.len(),
                pv == views(parts@),
                pv == wheel_components(s@),
                has_suffix(s@, wheel_extension()),
                n == 5 || n == 6,
                i <= n,
                forall|j: int| 0 <= j < i ==> (#[trigger] pv[j]).len() != 0,
            decreases n - i,
        {
            if parts[i].as_str().is_empty() {
                assert(pv[i as int].len() == 0);
                return Err(ParseArtifactNameError::EmptyComponent);
            }
            i = i + 1;
        }
        let build_tag = if n == 6 {
            let tag = take_string(&parts, 2);
            let c = tag.as_str().get_char(0);
            if !('0' <= c && c <= '9') {
                return Err(ParseArtifactNameError::InvalidBuildTag);
            }
            Some(tag)
        } else {
            None
        };
        let py = split_on(parts[n - 3].as_str(), '.');
        let abi = split_on(parts[n - 2].as_str(), '.');
        let arch = split_on(parts[n - 1].as_str(), '.');
        let w = WheelFilename {
            distribution: take_string(&parts, 0),
            version: take_string(&parts, 1),
            build_tag,
            py_tags: py,
            abi_tags: abi,
            arch_tags: arch,
        };
        assert(w@ == wheel_parts_view(pv));
        Ok(w)
    }

    /// Parses a wheel filename and checks that it names the package `expected`.
    pub fn from_filename(s: &str, expected: &NormalizedPackageName) -> (r: Result<WheelFilename, ParseArtifactNameError>)
        ensures
            r matches Ok(w) ==> parse_wheel_filename(s@) == Ok::<WheelFilenameView, ParseArtifactNameError>(w@)
                && normalized(w@.distribution) == expected@,
            r matches Err(e) ==> (parse_wheel_filename(s@) == Err::<WheelFilenameView, ParseArtifactNameError>(e))
                || (e == ParseArtifactNameError::PackageNameMismatch
                    && parse_wheel_filename(s@) is Ok
                    && normalized(parse_wheel_filename(s@)->Ok_0.distribution) != expected@),
    {
        let w = WheelFilename::parse(s)?;
        let name = NormalizedPackageName::from_name(w.distribution.as_str());
        if !crate::text::same_text(name.as_str(), expected.as_str()) {
            return Err(ParseArtifactNameError::PackageNameMismatch);
        }
        Ok(w)
    }

    /// The filename that these parts are written as.
    pub fn to_string(&self) -> (r: String)
        ensures
            r@ == wheel_filename_text(self@),
    {
        let mut comps: Vec<String> = Vec::new();
        comps.push(self.distribution.clone());
        comps.push(self.version.clone());
        match &self.build_tag {
            Some(b) => comps.push(b.clone()),
            None => {},
        }
        comps.push(join_with(&self.py_tags, '.'));
        comps.push(join_with(&self.abi_tags, '.'));
        comps.push(join_with(&self.arch_tags, '.'));
        assert(views(comps@) =~= wheel_text_components(self@));
        let mut out = join_with(&comps, '-');
        out.append(".whl");
        proof {
            reveal_strlit(".whl");
        }
        assert(out@ =~= wheel_filename_text(self@));
        out
    }
}

} // verus!
