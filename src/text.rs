//! Character-level helpers on strings shared by the parsers of this crate.

use vstd::prelude::*;
use vstd::string::*;

verus! {

/// Appends one character to a string.
pub assume_specification[ String::push ](s: &mut String, c: char)
    ensures
        final(s)@ == old(s)@.push(c),
;

/// The characters of a string, one by one.
pub fn chars_of(s: &str) -> (r: Vec<char>)
    ensures
        r@ == s@,
{
    let n = s.unicode_len();
    let mut r: Vec<char> = Vec::new();
    let mut i: usize = 0;
    while i < n
        invariant
            n == s@.len(),
            i <= n,
            r@ == s@.take(i as int),
        decreases n - i,
    {
        let c = s.get_char(i);
        r.push(c);
        i = i + 1;
        assert(r@ =~= s@.take(i as int));
    }
    assert(r@ =~= s@);
    r
}

/// A string made of the given characters.
pub fn string_of(cs: &Vec<char>) -> (r: String)
    ensures
        r@ == cs@,
{
    let mut r = String::new();
    let mut i: usize = 0;
    while i < cs.len()
        invariant
            i <= cs@.len(),
            r@ == cs@.take(i as int),
        decreases cs@.len() - i,
    {
        r.push(cs[i]);
        i = i + 1;
        assert(r@ =~= cs@.take(i as int));
    }
    assert(r@ =~= cs@);
    r
}


/// The views of a vector of strings.
pub open spec fn views(v: Seq<String>) -> Seq<Seq<char>> {
    v.map_values(|x: String| x@)
}

/// The pieces of `s` between occurrences of `d`; always at least one piece.
pub open spec fn split(s: Seq<char>, d: char) -> Seq<Seq<char>>
    decreases s.len(),
{
    if s.len() == 0 {
        seq![Seq::empty()]
    } else {
        let p = split(s.drop_last(), d);
        if s.last() == d {
            p.push(Seq::empty())
        } else {
            p.update(p.len() - 1, p.last().push(s.last()))
        }
    }
}

/// The pieces joined, with `d` between each two of them.
pub open spec fn join(parts: Seq<Seq<char>>, d: char) -> Seq<char>
    decreases parts.len(),
{
    if parts.len() == 0 {
        Seq::empty()
    } else if parts.len() == 1 {
        parts[0]
    } else {
        join(parts.drop_last(), d).push(d) + parts.last()
    }
}

pub proof fn lemma_split_nonempty(s: Seq<char>, d: char)
    ensures
        split(s, d).len() >= 1,
    decreases s.len(),
{
    if s.len() > 0 {
        lemma_split_nonempty(s.drop_last(), d);
    }
}

proof fn lemma_join_extend_last(p: Seq<Seq<char>>, d: char, c: char)
    requires
        p.len() >= 1,
    ensures
        join(p.update(p.len() - 1, p.last().push(c)), d) == join(p, d).push(c),
{
    let q = p.update(p.len() - 1, p.last().push(c));
    if p.len() > 1 {
        assert(q.drop_last() =~= p.drop_last());
        assert(join(q, d) =~= join(p, d).push(c));
    }
}

/// Splitting on a character and joining on it again gives back the string.
pub proof fn lemma_join_split(s: Seq<char>, d: char)
    ensures
        join(split(s, d), d) == s,
    decreases s.len(),
{
    if s.len() > 0 {
        let p = split(s.drop_last(), d);
        lemma_join_split(s.drop_last(), d);
        lemma_split_nonempty(s.drop_last(), d);
        if s.last() == d {
            assert(p.push(Seq::empty()).drop_last() =~= p);
            assert(join(p.push(Seq::empty()), d) =~= s);
        } else {
            lemma_join_extend_last(p, d, s.last());
            assert(s.drop_last().push(s.last()) =~= s);
        }
    }
}

/// The pieces of `s` between occurrences of `d`.
pub fn split_on(s: &str, d: char) -> (r: Vec<String>)
    ensures
        views(r@) == split(s@, d),
{
    let cs = chars_of(s);
    let mut done: Vec<String> = Vec::new();
    let mut cur: Vec<char> = Vec::new();
    let mut i: usize = 0;
    while i < cs.len()
        invariant
            cs@ == s@,
            i <= cs@.len(),
            views(done@).push(cur@) == split(cs@.take(i as int), d),
        decreases cs@.len() - i,
    {
        let c = cs[i];
        let ghost before = views(done@).push(cur@);
        assert(cs@.take(i as int + 1).drop_last() =~= cs@.take(i as int));
        if c == d {
            let piece = string_of(&cur);
            done.push(piece);
            cur = Vec::new();
            assert(views(done@).push(cur@) =~= before.push(Seq::empty()));
        } else {
            cur.push(c);
            assert(views(done@).push(cur@) =~= before.update(before.len() - 1, before.last().push(c)));
        }
        i = i + 1;
    }
    assert(cs@.take(cs@.len() as int) =~= cs@);
    let last = string_of(&cur);
    done.push(last);
    assert(views(done@) =~= split(s@, d));
    done
}

/// The pieces joined, with `d` between each two of them.
pub fn join_with(parts: &Vec<String>, d: char) -> (r: String)
    ensures
        r@ == join(views(parts@), d),
{
    let mut out = String::new();
    let mut i: usize = 0;
    while i < parts.len()
        invariant
            i <= parts@.len(),
            out@ == join(views(parts@.take(i as int)), d),
        decreases parts@.len() - i,
    {
        let ghost prev = views(parts@.take(i as int));
        assert(views(parts@.take(i as int + 1)).drop_last() =~= prev);
        if i > 0 {
            out.push(d);
        }
        out.append(parts[i].as_str());
        i = i + 1;
        assert(views(parts@.take(i as int)).last() == parts@[i - 1]@);
    }
    assert(parts@.take(parts@.len() as int) =~= parts@);
    out
}


/// `s` ends with `suffix`.
pub open spec fn has_suffix(s: Seq<char>, suffix: Seq<char>) -> bool {
    s.len() >= suffix.len() && s.skip(s.len() - suffix.len()) == suffix
}

/// `s` starts with `prefix`.
pub open spec fn has_prefix(s: Seq<char>, prefix: Seq<char>) -> bool {
    s.len() >= prefix.len() && s.take(prefix.len() as int) == prefix
}

/// Whether the characters `cs` end with the characters `suffix`.
pub fn ends_with_chars(cs: &Vec<char>, suffix: &Vec<char>) -> (r: bool)
    ensures
        r == has_suffix(cs@, suffix@),
{
    if cs.len() < suffix.len() {
        return false;
    }
    let off = cs.len() - suffix.len();
    let mut i: usize = 0;
    while i < suffix.len()
        invariant
            off + suffix@.len() == cs@.len(),
            cs@.len() <= usize::MAX,
            i <= suffix@.len(),
            forall|j: int| 0 <= j < i ==> cs@[off + j] == suffix@[j],
        decreases suffix@.len() - i,
    {
        if cs[off + i] != suffix[i] {
            assert(cs@.skip(off as int)[i as int] != suffix@[i as int]);
            return false;
        }
        i = i + 1;
    }
    assert(cs@.skip(off as int) =~= suffix@);
    true
}

/// Whether the characters `cs` start with the characters `prefix`.
pub fn starts_with_chars(cs: &Vec<char>, prefix: &Vec<char>) -> (r: bool)
    ensures
        r == has_prefix(cs@, prefix@),
{
    if cs.len() < prefix.len() {
        return false;
    }
    let mut i: usize = 0;
    while i < prefix.len()
        invariant
            prefix@.len() <= cs@.len(),
            i <= prefix@.len(),
            forall|j: int| 0 <= j < i ==> cs@[j] == prefix@[j],
        decreases prefix@.len() - i,
    {
        if cs[i] != prefix[i] {
            assert(cs@.take(prefix@.len() as int)[i as int] != prefix@[i as int]);
            return false;
        }
        i = i + 1;
    }
    assert(cs@.take(prefix@.len() as int) =~= prefix@);
    true
}

/// The characters `cs[from..to]` as a string.
pub fn slice_string(cs: &Vec<char>, from: usize, to: usize) -> (r: String)
    requires
        from <= to <= cs@.len(),
    ensures
        r@ == cs@.subrange(from as int, to as int),
{
    let mut r = String::new();
    let mut i: usize = from;
    while i < to
        invariant
            from <= i <= to <= cs@.len(),
            r@ == cs@.subrange(from as int, i as int),
        decreases to - i,
    {
        r.push(cs[i]);
        i = i + 1;
        assert(r@ =~= cs@.subrange(from as int, i as int));
    }
    r
}


/// Whether two strings hold the same characters.
pub fn same_text(a: &str, b: &str) -> (r: bool)
    ensures
        r == (a@ == b@),
{
    let x = chars_of(a);
    let y = chars_of(b);
    if x.len() != y.len() {
        return false;
    }
    let mut i: usize = 0;
    while i < x.len()
        invariant
            x@ == a@,
            y@ == b@,
            x@.len() == y@.len(),
            i <= x@.len(),
            forall|j: int| 0 <= j < i ==> x@[j] == y@[j],
        decreases x@.len() - i,
    {
        if x[i] != y[i] {
            assert(x@[i as int] != y@[i as int]);
            return false;
        }
        i = i + 1;
    }
    assert(x@ =~= y@);
    true
}

} // verus!
