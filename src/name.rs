//! Package names and their normalized form.

use vstd::prelude::*;
use crate::text::{chars_of, string_of};

verus! {

/// One of the characters that separate the words of a package name.
pub open spec fn is_separator(c: char) -> bool {
    c == '-' || c == '_' || c == '.'
}

pub open spec fn is_ascii_upper(c: char) -> bool {
    'A' <= c && c <= 'Z'
}

/// ASCII lowercase of one character.
pub open spec fn lower_char(c: char) -> char {
    if is_ascii_upper(c) {
        (((c as u32) + 32) as u8) as char
    } else {
        c
    }
}

fn to_lower_char(c: char) -> (r: char)
    ensures
        r == lower_char(c),
{
    if 'A' <= c && c <= 'Z' {
        (((c as u8) + 32) as u8) as char
    } else {
        c
    }
}


/// The normalized form of a name: ASCII letters lowercased, and each run of
/// separators (`-`, `_`, `.`) replaced by a single `-`.
pub open spec fn normalized(s: Seq<char>) -> Seq<char>
    decreases s.len(),
{
    if s.len() == 0 {
        Seq::empty()
    } else {
        let p = normalized(s.drop_last());
        let c = s.last();
        if is_separator(c) {
            if p.len() > 0 && p.last() == '-' {
                p
            } else {
                p.push('-')
            }
        } else {
            p.push(lower_char(c))
        }
    }
}

/// A name that normalization leaves as it is: no uppercase ASCII letter, `-`
/// as the only separator, and no two separators side by side.
pub open spec fn is_normal(t: Seq<char>) -> bool {
    &&& forall|i: int| 0 <= i < t.len() ==> !is_ascii_upper(#[trigger] t[i])
    &&& forall|i: int| 0 <= i < t.len() && is_separator(#[trigger] t[i]) ==> t[i] == '-'
    &&& forall|i: int| 1 <= i < t.len() && #[trigger] t[i] == '-' ==> t[i - 1] != '-'
}

proof fn lemma_lower_char(c: char)
    ensures
        !is_ascii_upper(lower_char(c)),
        is_separator(lower_char(c)) <==> is_separator(c),
        !is_ascii_upper(c) ==> lower_char(c) == c,
{
}

proof fn lemma_normalized_is_normal(s: Seq<char>)
    ensures
        is_normal(normalized(s)),
    decreases s.len(),
{
    if s.len() > 0 {
        lemma_normalized_is_normal(s.drop_last());
        lemma_lower_char(s.last());
        let p = normalized(s.drop_last());
        let t = normalized(s);
        assert forall|i: int| 0 <= i < t.len() - 1 implies t[i] == p[i] by {}
    }
}

proof fn lemma_normal_is_fixed(t: Seq<char>)
    requires
        is_normal(t),
    ensures
        normalized(t) == t,
    decreases t.len(),
{
    if t.len() > 0 {
        let q = t.drop_last();
        assert forall|i: int| 1 <= i < q.len() && #[trigger] q[i] == '-' implies q[i - 1] != '-' by {
            assert(t[i] == '-');
        }
        assert(forall|i: int| 0 <= i < q.len() ==> #[trigger] q[i] == t[i]);
        lemma_normal_is_fixed(q);
        lemma_lower_char(t.last());
        assert(t == q.push(t.last()));
        if is_separator(t.last()) && q.len() > 0 {
            assert(t[t.len() - 1] == '-');
            assert(q.last() == t[t.len() - 2]);
        }
    }
}

/// Normalizing a normalized name changes nothing.
pub proof fn lemma_normalize_idempotent(s: Seq<char>)
    ensures
        normalized(normalized(s)) == normalized(s),
{
    lemma_normalized_is_normal(s);
    lemma_normal_is_fixed(normalized(s));
}

/// The normalized form of `name`.
pub fn normalize(name: &str) -> (r: String)
    ensures
        r@ == normalized(name@),
{
    let cs = chars_of(name);
    let mut out: Vec<char> = Vec::new();
    let mut i: usize = 0;
    while i < cs.len()
        invariant
            cs@ == name@,
            i <= cs@.len(),
            out@ == normalized(cs@.take(i as int)),
        decreases cs@.len() - i,
    {
        let c = cs[i];
        assert(cs@.take(i as int + 1).drop_last() =~= cs@.take(i as int));
        if c == '-' || c == '_' || c == '.' {
            let n = out.len();
            if !(n > 0 && out[n - 1] == '-') {
                out.push('-');
            }
        } else {
            out.push(to_lower_char(c));
        }
        i = i + 1;
    }
    assert(cs@.take(cs@.len() as int) =~= cs@);
    string_of(&out)
}


/// A package name in its normalized form, the key of every package-level cache.
#[derive(Clone, Debug, PartialEq, Eq, Hash)]
pub struct NormalizedPackageName {
    name: String,
}

impl View for NormalizedPackageName {
    type V = Seq<char>;

    closed spec fn view(&self) -> Seq<char> {
        self.name@
    }
}

impl NormalizedPackageName {
    /// The normalized form of `name`.
    pub fn from_name(name: &str) -> (r: NormalizedPackageName)
        ensures
            r@ == normalized(name@),
            is_normal(r@),
    {
        proof {
            lemma_normalized_is_normal(name@);
        }
        NormalizedPackageName { name: normalize(name) }
    }

    pub fn as_str(&self) -> (r: &str)
        ensures
            r@ == self@,
    {
        self.name.as_str()
    }
}

} // verus!
