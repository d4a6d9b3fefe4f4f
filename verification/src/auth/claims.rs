//! The claims of a verified token, and a cache of them.
use crate::chars::{char_is_space, char_rows, is_space, same_chars};
use crate::outside::hashes::{xxh3_64, xxh3_64_of};
use crate::text::{chars_of, text_eq};
use vstd::prelude::*;
use vstd::string::*;

verus! {

#[derive(Clone, Debug)]
pub struct Claims {
    /// Subject: usually a user or service account. Kept for audit logs.
    pub sub: String,
    /// The tenant this token may operate against.
    pub tenant_id: u64,
    /// Token expiry, in seconds since the epoch.
    pub exp: i64,
    /// Permissions, separated by white space, such as `"ingest read admin"`. Empty means
    /// read-only.
    pub scope: String,
}

/// The words of a text: what stands between white space.
pub open spec fn words(s: Seq<char>) -> Seq<Seq<char>>
    decreases s.len(),
{
    if s.len() == 0 {
        Seq::empty()
    } else {
        let w = words(s.drop_last());
        let c = s.last();
        if is_space(c) {
            w
        } else if s.len() == 1 || is_space(s[s.len() - 2]) {
            w.push(seq![c])
        } else {
            w.update(w.len() - 1, w.last().push(c))
        }
    }
}

proof fn lemma_words_open(s: Seq<char>)
    requires
        s.len() > 0,
        !is_space(s.last()),
    ensures
        words(s).len() > 0,
    decreases s.len(),
{
    if s.len() > 1 && !is_space(s[s.len() - 2]) {
        let d = s.drop_last();
        assert(d.last() == s[s.len() - 2]);
        lemma_words_open(d);
    }
}

/// The words of a text.
fn split_words(s: &[char]) -> (r: Vec<Vec<char>>)
    ensures
        char_rows(r@) == words(s@),
{
    let mut out: Vec<Vec<char>> = Vec::new();
    let mut i: usize = 0;
    assert(s@.take(0) =~= Seq::empty());
    assert(char_rows(out@) =~= words(s@.take(0)));
    while i < s.len()
        invariant
            i <= s.len(),
            char_rows(out@) == words(s@.take(i as int)),
        decreases s.len() - i,
    {
        let c: char = s[i];
        let ghost here = s@.take(i + 1);
        let ghost before = char_rows(out@);
        proof {
            assert(here.drop_last() =~= s@.take(i as int));
            assert(here.last() == c);
            if i > 0 {
                assert(here[here.len() - 2] == s@[i - 1]);
            }
        }
        if !char_is_space(c) {
            if i == 0 || char_is_space(s[i - 1]) {
                let mut word: Vec<char> = Vec::new();
                word.push(c);
                assert(word@ =~= seq![c]);
                out.push(word);
                assert(char_rows(out@) =~= before.push(seq![c]));
            } else {
                proof {
                    assert(s@.take(i as int).last() == s@[i - 1]);
                    lemma_words_open(s@.take(i as int));
                }
                let n: usize = out.len();
                assert(before.len() == n);
                let ghost list = out@;
                out[n - 1].push(c);
                assert(char_rows(out@) =~= before.update(n - 1, before.last().push(c)));
            }
        }
        i = i + 1;
    }
    assert(s@.take(i as int) =~= s@);
    out
}

impl Claims {
    /// Whether the token grants the permission: it is one of the words of the scope, and
    /// an empty scope grants reading.
    pub open spec fn grants(self, needed: Seq<char>) -> bool {
        if self.scope@.len() == 0 {
            needed == "read"@
        } else {
            words(self.scope@).contains(needed)
        }
    }

    pub fn has_scope(&self, needed: &str) -> (r: bool)
        ensures
            r == self.grants(needed@),
    {
        let scope = chars_of(self.scope.as_str());
        if scope.len() == 0 {
            return text_eq(needed, "read");
        }
        let wanted = chars_of(needed);
        let list = split_words(scope.as_slice());
        let ghost rows = words(scope@);
        let mut i: usize = 0;
        assert(char_rows(list@).len() == list@.len());
        while i < list.len()
            invariant
                i <= list@.len(),
                rows == char_rows(list@),
                rows.len() == list@.len(),
                wanted@ == needed@,
                forall|k: int| 0 <= k < i ==> rows[k] != needed@,
                self.grants(needed@) == rows.contains(needed@),
            decreases list.len() - i,
        {
            assert(rows[i as int] == list@[i as int]@);
            if same_chars(list[i].as_slice(), wanted.as_slice()) {
                return true;
            }
            i = i + 1;
        }
        false
    }

    pub fn copy(&self) -> (r: Self)
        ensures
            r == *self,
    {
        Claims {
            sub: self.sub.clone(),
            tenant_id: self.tenant_id,
            exp: self.exp,
            scope: self.scope.clone(),
        }
    }
}

/// The cache key of a token.
pub fn token_hash(bytes: &[u8]) -> (r: u64)
    ensures
        r == xxh3_64_of(bytes@),
{
    xxh3_64(bytes)
}

/// Claims from the cache that can be used: expiry is checked again on every hit, because
/// the cache does not enforce it.
pub fn usable_claims(cached: Option<Claims>, now: i64) -> (r: Option<Claims>)
    ensures
        match cached {
            Some(c) => if c.exp > now { r == Some(c) } else { r is None },
            None => r is None,
        },
{
    match cached {
        Some(c) => if c.exp > now {
            Some(c)
        } else {
            None
        },
        None => None,
    }
}

/// A concurrent cache that evicts by size and by age.
#[verifier::external_type_specification]
#[verifier::external_body]
#[verifier::reject_recursive_types(K)]
#[verifier::reject_recursive_types(V)]
#[verifier::reject_recursive_types(S)]
pub struct ExCache<K, V, S>(moka::sync::Cache<K, V, S>);

/// The limits that a cache was made with: for how many claims, and for how many seconds it
/// keeps each at most.
pub uninterp spec fn cache_limits(c: moka::sync::Cache<u64, Claims>) -> (u64, u64);

/// The claims that are put into a cache at any time, each with the key that they are put
/// under.
pub uninterp spec fn cache_puts(c: moka::sync::Cache<u64, Claims>) -> Set<(u64, Claims)>;

/// Calls `moka::sync::Cache::builder` with the capacity and the time to live. Nothing is
/// said of what the cache will hold: claims leave it with time. It panics on more than a
/// thousand years of 365 days.
#[verifier::external_body]
fn cache_new(capacity: u64, ttl_seconds: u64) -> (r: moka::sync::Cache<u64, Claims>)
    requires
        ttl_seconds <= 31_536_000_000,
    ensures
        cache_limits(r) == (capacity, ttl_seconds),
{
    let ttl = std::time::Duration::from_secs(ttl_seconds);
    moka::sync::Cache::builder().max_capacity(capacity).time_to_live(ttl).build()
}

/// Calls `moka::sync::Cache::get`. Claims that it returns were put into the cache under
/// that key. Whether they are still there rests on time and on what else was inserted, and
/// is left open.
#[verifier::external_body]
fn cache_get(cache: &moka::sync::Cache<u64, Claims>, key: u64) -> (r: Option<Claims>)
    ensures
        r matches Some(v) ==> cache_puts(*cache).contains((key, v)),
{
    cache.get(&key)
}

/// Calls `moka::sync::Cache::insert`, and returns the key. The claims are put into the
/// cache under that key. Nothing is said of how long they stay.
#[verifier::external_body]
fn cache_insert(cache: &moka::sync::Cache<u64, Claims>, key: u64, claims: Claims) -> (r: u64)
    ensures
        r == key && cache_puts(*cache).contains((r, claims)),
{
    cache.insert(key, claims);
    key
}

/// Calls `clone` of `moka::sync::Cache`. The clone is a handle to the same cache: what is
/// put into either is put into both, and the limits are the same.
#[verifier::external_body]
fn cache_handle(cache: &moka::sync::Cache<u64, Claims>) -> (r: moka::sync::Cache<u64, Claims>)
    ensures
        cache_puts(r) == cache_puts(*cache),
        cache_limits(r) == cache_limits(*cache),
{
    cache.clone()
}

/// Calls `moka::sync::Cache::run_pending_tasks`, then `entry_count`: how many claims are
/// left when those that have to leave are gone. Nothing is said of the number.
#[verifier::external_body]
fn cache_settled_len(cache: &moka::sync::Cache<u64, Claims>) -> u64 {
    cache.run_pending_tasks();
    cache.entry_count()
}

/// Cache of verified claims, found by a hash of the token.
pub struct ClaimsCache {
    inner: moka::sync::Cache<u64, Claims>,
}

impl ClaimsCache {
    /// For how many claims the cache is, and for how many seconds it keeps each at most.
    pub closed spec fn limits(&self) -> (u64, u64) {
        cache_limits(self.inner)
    }

    /// The claims that are put into the cache at any time, each with its token's hash.
    pub closed spec fn puts(&self) -> Set<(u64, Claims)> {
        cache_puts(self.inner)
    }

    /// A cache for so many claims, each kept for so many seconds at most.
    pub fn new(capacity: u64, ttl_seconds: u64) -> (r: Self)
        requires
            ttl_seconds <= 31_536_000_000,
        ensures
            r.limits() == (capacity, ttl_seconds),
    {
        ClaimsCache { inner: cache_new(capacity, ttl_seconds) }
    }

    /// The claims that are still held under a token's hash: none but those that were put
    /// there.
    pub fn get(&self, token_hash: u64) -> (r: Option<Claims>)
        ensures
            r matches Some(c) ==> self.puts().contains((token_hash, c)),
    {
        cache_get(&self.inner, token_hash)
    }

    /// Keeps claims under a token's hash, for a time.
    pub fn insert(&self, token_hash: u64, claims: Claims)
        ensures
            self.puts().contains((token_hash, claims)),
    {
        let _ = cache_insert(&self.inner, token_hash, claims);
    }

    /// How many claims are held, once those that have to leave are gone.
    pub fn settled_len(&self) -> u64 {
        cache_settled_len(&self.inner)
    }

    /// The claims that are held for a token and have not expired. They were put into the
    /// cache under the hash of this token.
    pub fn get_fresh(&self, token: &[u8], now: i64) -> (r: Option<Claims>)
        ensures
            r matches Some(c) ==> c.exp > now && self.puts().contains((xxh3_64_of(token@), c)),
    {
        usable_claims(self.get(token_hash(token)), now)
    }
}

impl Clone for ClaimsCache {
    /// Another handle to the same cache.
    fn clone(&self) -> (r: Self)
        ensures
            r.puts() == self.puts(),
            r.limits() == self.limits(),
    {
        ClaimsCache { inner: cache_handle(&self.inner) }
    }
}

impl Default for ClaimsCache {
    fn default() -> (r: Self)
        ensures
            r.limits() == (16_384u64, 300u64),
    {
        ClaimsCache::new(16_384, 300)
    }
}

} // verus!
