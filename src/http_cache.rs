//! The freshness policy of the HTTP cache: given the cache mode of a request and
//! what the store holds for it, whether to serve the stored response, revalidate
//! it, go to the network, or fail.

use vstd::prelude::*;
use crate::text::{chars_of, has_prefix, split, split_on, starts_with_chars, views};

verus! {

/// How a request may use the cache.
#[derive(Debug, Clone, Copy, PartialEq, Eq, Structural)]
pub enum CacheMode {
    /// Honor the HTTP freshness rules: serve fresh entries, revalidate stale ones.
    Default,
    /// Bypass the cache in both directions.
    NoStore,
    /// Serve from the cache or fail; never go to the network.
    OnlyIfCached,
    /// Revalidate unconditionally.
    NoCache,
}

/// What the store holds for a request.
#[derive(Debug, Clone, Copy, PartialEq, Eq, Structural)]
pub enum StoredResponse {
    Missing,
    Fresh,
    Stale,
}

/// What to do with a request.
#[derive(Debug, Clone, Copy, PartialEq, Eq, Structural)]
pub enum CacheAction {
    /// Answer with the stored response.
    ServeStored,
    /// Ask the server whether the stored response is still valid.
    Revalidate,
    /// Go to the network; keep the response in the store when `store` holds.
    Fetch { store: bool },
}

/// A request under `OnlyIfCached` whose response is not in the cache.
#[derive(Debug, Clone, Copy, PartialEq, Eq, Structural)]
pub struct NotCached;

impl NotCached {
    /// The message that describes this error.
    pub fn to_string(&self) -> (r: String)
        ensures
            r@ == "request not in cache, and cache_mode=OnlyIfCached"@,
    {
        String::from_str("request not in cache, and cache_mode=OnlyIfCached")
    }
}

/// The action that the policy picks.
pub open spec fn cache_action_spec(mode: CacheMode, stored: StoredResponse) -> Result<CacheAction, NotCached> {
    match mode {
        CacheMode::NoStore => Ok(CacheAction::Fetch { store: false }),
        CacheMode::OnlyIfCached => if stored == StoredResponse::Missing {
            Err(NotCached)
        } else {
            Ok(CacheAction::ServeStored)
        },
        CacheMode::Default => match stored {
            StoredResponse::Missing => Ok(CacheAction::Fetch { store: true }),
            StoredResponse::Fresh => Ok(CacheAction::ServeStored),
            StoredResponse::Stale => Ok(CacheAction::Revalidate),
        },
        CacheMode::NoCache => match stored {
            StoredResponse::Missing => Ok(CacheAction::Fetch { store: true }),
            _ => Ok(CacheAction::Revalidate),
        },
    }
}

/// Picks what to do with a request in `mode` when the store holds `stored`.
pub fn cache_action(mode: CacheMode, stored: StoredResponse) -> (r: Result<CacheAction, NotCached>)
    ensures
        r == cache_action_spec(mode, stored),
        r is Err <==> (mode == CacheMode::OnlyIfCached && stored == StoredResponse::Missing),
        mode == CacheMode::OnlyIfCached ==> !(r matches Ok(CacheAction::Fetch { .. })),
{
    match mode {
        CacheMode::NoStore => Ok(CacheAction::Fetch { store: false }),
        CacheMode::OnlyIfCached => match stored {
            StoredResponse::Missing => Err(NotCached),
            _ => Ok(CacheAction::ServeStored),
        },
        CacheMode::Default => match stored {
            StoredResponse::Missing => Ok(CacheAction::Fetch { store: true }),
            StoredResponse::Fresh => Ok(CacheAction::ServeStored),
            StoredResponse::Stale => Ok(CacheAction::Revalidate),
        },
        CacheMode::NoCache => match stored {
            StoredResponse::Missing => Ok(CacheAction::Fetch { store: true }),
            _ => Ok(CacheAction::Revalidate),
        },
    }
}

/// After a revalidation: a `304 Not Modified` answer means the stored body is served.
pub fn serve_stored_after_revalidation(status: u16) -> (r: bool)
    ensures
        r == (status == 304),
{
    status == 304
}


/// The number that a string of decimal digits spells.
pub open spec fn digits_value(s: Seq<char>) -> int
    decreases s.len(),
{
    if s.len() == 0 {
        0
    } else {
        digits_value(s.drop_last()) * 10 + (s.last() as int - '0' as int)
    }
}

pub open spec fn all_digits(s: Seq<char>) -> bool {
    forall|i: int| 0 <= i < s.len() ==> '0' <= #[trigger] s[i] && s[i] <= '9'
}

/// A directive without the spaces around it.
pub open spec fn trim_spaces(s: Seq<char>) -> Seq<char>
    decreases s.len(),
{
    if s.len() > 0 && s[0] == ' ' {
        trim_spaces(s.drop_first())
    } else if s.len() > 0 && s.last() == ' ' {
        trim_spaces(s.drop_last())
    } else {
        s
    }
}

pub open spec fn max_age_prefix() -> Seq<char> {
    seq!['m', 'a', 'x', '-', 'a', 'g', 'e', '=']
}

/// The seconds that one `Cache-Control` directive gives as `max-age`, if it is one.
pub open spec fn directive_max_age(d: Seq<char>) -> Option<int> {
    let t = trim_spaces(d);
    let v = t.skip(8);
    if has_prefix(t, max_age_prefix()) && v.len() > 0 && all_digits(v) {
        Some(digits_value(v))
    } else {
        None
    }
}

/// The `max-age` of a `Cache-Control` value: the first directive that gives one.
pub open spec fn first_max_age(ds: Seq<Seq<char>>) -> Option<int>
    decreases ds.len(),
{
    if ds.len() == 0 {
        None
    } else {
        match first_max_age(ds.drop_last()) {
            Some(a) => Some(a),
            None => directive_max_age(ds.last()),
        }
    }
}

fn trim_spaces_exec(cs: &Vec<char>) -> (r: Vec<char>)
    ensures
        r@ == trim_spaces(cs@),
{
    let mut lo: usize = 0;
    let mut hi: usize = cs.len();
    assert(cs@.subrange(0, cs@.len() as int) =~= cs@);
    while lo < hi && (cs[lo] == ' ' || cs[hi - 1] == ' ')
        invariant
            lo <= hi <= cs@.len(),
            trim_spaces(cs@) == trim_spaces(cs@.subrange(lo as int, hi as int)),
        decreases hi - lo,
    {
        let ghost t = cs@.subrange(lo as int, hi as int);
        if cs[lo] == ' ' {
            assert(t.drop_first() =~= cs@.subrange(lo as int + 1, hi as int));
            lo = lo + 1;
        } else {
            assert(t[0] != ' ');
            assert(t.drop_last() =~= cs@.subrange(lo as int, hi as int - 1));
            hi = hi - 1;
        }
    }
    let mut r: Vec<char> = Vec::new();
    let mut i: usize = lo;
    while i < hi
        invariant
            lo <= i <= hi <= cs@.len(),
            r@ == cs@.subrange(lo as int, i as int),
        decreases hi - i,
    {
        r.push(cs[i]);
        i = i + 1;
        assert(r@ =~= cs@.subrange(lo as int, i as int));
    }
    r
}

/// The value of a directive's digits, if they fit in a `u64`.
fn digits_u64(cs: &Vec<char>, from: usize) -> (r: Option<u64>)
    requires
        from <= cs@.len(),
        all_digits(cs@.skip(from as int)),
    ensures
        r matches Some(v) ==> v as int == digits_value(cs@.skip(from as int)),
        r is None ==> digits_value(cs@.skip(from as int)) > u64::MAX,
{
    let ghost d = cs@.skip(from as int);
    let mut v: u64 = 0;
    let mut i: usize = from;
    while i < cs.len()
        invariant
            from <= i <= cs@.len(),
            d == cs@.skip(from as int),
            all_digits(d),
            v as int == digits_value(d.take(i - from)),
        decreases cs@.len() - i,
    {
        let c = cs[i];
        assert(d[i - from] == c);
        assert(d.take(i - from + 1).drop_last() =~= d.take(i - from));
        let digit = (c as u32 - '0' as u32) as u64;
        if v > (u64::MAX - digit) / 10 {
            proof {
                lemma_digits_value_grows(d, (i - from + 1) as int);
            }
            return None;
        }
        v = v * 10 + digit;
        i = i + 1;
    }
    assert(d.take(i - from) =~= d);
    Some(v)
}

proof fn lemma_digits_value_grows(d: Seq<char>, k: int)
    requires
        0 <= k <= d.len(),
        all_digits(d),
    ensures
        digits_value(d) >= digits_value(d.take(k)),
    decreases d.len(),
{
    lemma_digits_nonneg(d);
    if k < d.len() {
        assert(d.drop_last().take(k) =~= d.take(k));
        lemma_digits_value_grows(d.drop_last(), k);
        lemma_digits_nonneg(d.drop_last());
    } else {
        assert(d.take(k) =~= d);
    }
}

proof fn lemma_digits_nonneg(d: Seq<char>)
    requires
        all_digits(d),
    ensures
        digits_value(d) >= 0,
    decreases d.len(),
{
    if d.len() > 0 {
        lemma_digits_nonneg(d.drop_last());
    }
}

/// The seconds that one directive gives as `max-age`; `None` when it is no such
/// directive or the number does not fit in a `u64`.
fn max_age_of_directive(d: &str) -> (r: (bool, Option<u64>))
    ensures
        r.0 == (directive_max_age(d@) is Some),
        r.1 matches Some(v) ==> directive_max_age(d@) == Some(v as int),
        r.0 && r.1 is None ==> directive_max_age(d@)->Some_0 > u64::MAX,
{
    let cs = chars_of(d);
    let t = trim_spaces_exec(&cs);
    let prefix = vec!['m', 'a', 'x', '-', 'a', 'g', 'e', '='];
    assert(prefix@ =~= max_age_prefix());
    if !starts_with_chars(&t, &prefix) || t.len() == 8 {
        return (false, None);
    }
    let mut i: usize = 8;
    while i < t.len()
        invariant
            8 <= i <= t@.len(),
            t@ == trim_spaces(d@),
            has_prefix(t@, max_age_prefix()),
            t@.len() > 8,
            forall|j: int| 8 <= j < i ==> '0' <= #[trigger] t@[j] && t@[j] <= '9',
        decreases t@.len() - i,
    {
        if !('0' <= t[i] && t[i] <= '9') {
            assert(t@.skip(8)[i - 8] == t@[i as int]);
            assert(!all_digits(t@.skip(8)));
            return (false, None);
        }
        i = i + 1;
    }
    assert forall|j: int| 0 <= j < t@.skip(8).len() implies '0' <= #[trigger] t@.skip(8)[j] && t@.skip(8)[j] <= '9' by {
        assert(t@.skip(8)[j] == t@[j + 8]);
    }
    (true, digits_u64(&t, 8))
}

/// The `max-age` of a `Cache-Control` value, in seconds: the first directive
/// that gives one. `None` when there is none, or when it does not fit in a `u64`.
pub fn max_age(cache_control: &str) -> (r: Option<u64>)
    ensures
        r matches Some(v) ==> first_max_age(split(cache_control@, ',')) == Some(v as int),
        r is None ==> first_max_age(split(cache_control@, ',')) is None
            || first_max_age(split(cache_control@, ','))->Some_0 > u64::MAX,
{
    let ds = split_on(cache_control, ',');
    let ghost dv = views(ds@);
    let mut i: usize = 0;
    while i < ds.len()
        invariant
            dv == views(ds@),
            dv == split(cache_control@, ','),
            i <= ds@.len(),
            first_max_age(dv.take(i as int)) is None,
        decreases ds@.len() - i,
    {
        assert(dv.take(i as int + 1).drop_last() =~= dv.take(i as int));
        let (found, value) = max_age_of_directive(ds[i].as_str());
        if found {
            proof {
                lemma_first_max_age_prefix(dv, i as int + 1);
            }
            return value;
        }
        i = i + 1;
    }
    assert(dv.take(i as int) =~= dv);
    None
}

proof fn lemma_first_max_age_prefix(ds: Seq<Seq<char>>, k: int)
    requires
        0 <= k <= ds.len(),
        first_max_age(ds.take(k)) is Some,
    ensures
        first_max_age(ds) == first_max_age(ds.take(k)),
    decreases ds.len(),
{
    if k == ds.len() {
        assert(ds.take(k) =~= ds);
    } else {
        assert(ds.drop_last().take(k) =~= ds.take(k));
        lemma_first_max_age_prefix(ds.drop_last(), k);
    }
}

/// The state of a stored response that is `age` seconds old, under the
/// `max-age` it was stored with.
pub fn stored_response(present: bool, age: u64, max_age: Option<u64>) -> (r: StoredResponse)
    ensures
        !present ==> r == StoredResponse::Missing,
        present ==> r == (if max_age matches Some(m) && age < m { StoredResponse::Fresh } else { StoredResponse::Stale }),
{
    if !present {
        StoredResponse::Missing
    } else {
        match max_age {
            Some(m) => if age < m { StoredResponse::Fresh } else { StoredResponse::Stale },
            None => StoredResponse::Stale,
        }
    }
}

} // verus!
