//! Waveform peaks of an artifact's audio: the cache of computed peaks, keyed
//! by artifact, file size and modification time, and how windows of audio are
//! shared out among the buckets of a waveform.
use vstd::prelude::*;

use crate::text::{decimal, from_chars, push_all, push_decimal, to_chars};

verus! {

broadcast use vstd::string::group_string_axioms;

/// Buckets of a waveform.
pub const PEAK_BUCKETS: usize = 180;

/// Samples of one window, whose loudest sample is one value to share out.
pub const WINDOW_SAMPLES: usize = 4096;

// ---------------------------------------------------------------------------
// Cache keys
// ---------------------------------------------------------------------------

/// The key of an artifact's peaks: its id, its file's size in bytes and its
/// modification time in nanoseconds, joined by `:`.
pub open spec fn cache_key_spec(artifact_id: Seq<char>, size: u64, mtime_nanos: u128) -> Seq<char> {
    artifact_id + seq![':'] + decimal(size as nat) + seq![':'] + decimal(mtime_nanos as nat)
}

pub fn cache_key_for(artifact_id: &str, size: u64, mtime_nanos: u128) -> (k: String)
    ensures
        k@ == cache_key_spec(artifact_id@, size, mtime_nanos),
{
    let mut out = to_chars(artifact_id);
    out.push(':');
    push_decimal(&mut out, size as u128);
    out.push(':');
    push_decimal(&mut out, mtime_nanos);
    from_chars(out.as_slice())
}

/// The prefix that every key of an artifact's peaks starts with.
pub open spec fn artifact_prefix(artifact_id: Seq<char>) -> Seq<char> {
    artifact_id + seq![':']
}

pub open spec fn has_prefix(s: Seq<char>, p: Seq<char>) -> bool {
    p.len() <= s.len() && s.take(p.len() as int) == p
}

fn starts_with(s: &Vec<char>, p: &Vec<char>) -> (b: bool)
    ensures
        b == has_prefix(s@, p@),
{
    if p.len() > s.len() {
        return false;
    }
    let mut i: usize = 0;
    while i < p.len()
        invariant
            0 <= i <= p.len() <= s.len(),
            forall|j: int| 0 <= j < i ==> s@[j] == p@[j],
        decreases p.len() - i,
    {
        if s[i] != p[i] {
            assert(s@.take(p@.len() as int)[i as int] != p@[i as int]);
            return false;
        }
        i = i + 1;
    }
    assert(s@.take(p@.len() as int) =~= p@);
    true
}

// ---------------------------------------------------------------------------
// The cache
// ---------------------------------------------------------------------------

/// What a list of entries gives for a key: the value of the entry with that
/// key, if any.
pub open spec fn lookup<V>(entries: Seq<(Seq<char>, V)>, key: Seq<char>) -> Option<V> {
    if exists|i: int| 0 <= i < entries.len() && entries[i].0 == key {
        Some(entries[choose|i: int| 0 <= i < entries.len() && entries[i].0 == key].1)
    } else {
        None
    }
}

pub open spec fn keys_unique<V>(entries: Seq<(Seq<char>, V)>) -> bool {
    forall|i: int, j: int| 0 <= i < j < entries.len() ==> entries[i].0 != entries[j].0
}

proof fn lemma_lookup_at<V>(entries: Seq<(Seq<char>, V)>, i: int)
    requires
        keys_unique(entries),
        0 <= i < entries.len(),
    ensures
        lookup(entries, entries[i].0) == Some(entries[i].1),
{
    let k = entries[i].0;
    let j = choose|j: int| 0 <= j < entries.len() && entries[j].0 == k;
    if j != i {
        if j < i {
        } else {
        }
    }
}

/// Peaks computed before, kept per key.
pub struct PeaksCache<V> {
    entries: Vec<(String, V)>,
}

impl<V> PeaksCache<V> {
    /// The cache's entries as keys and values.
    pub closed spec fn entries(&self) -> Seq<(Seq<char>, V)> {
        self.entries@.map_values(|e: (String, V)| (e.0@, e.1))
    }

    /// What the cache holds for a key.
    pub open spec fn lookup(&self, key: Seq<char>) -> Option<V> {
        lookup(self.entries(), key)
    }

    pub closed spec fn wf(&self) -> bool {
        keys_unique(self.entries())
    }

    /// An empty cache.
    pub fn new() -> (c: Self)
        ensures
            c.wf(),
            forall|k: Seq<char>| #[trigger] c.lookup(k) is None,
    {
        let c = PeaksCache { entries: Vec::new() };
        assert(c.entries() =~= Seq::<(Seq<char>, V)>::empty());
        c
    }

    fn index_of_key(&self, key: &String) -> (r: Option<usize>)
        ensures
            match r {
                Some(i) => i < self.entries().len() && self.entries()[i as int].0 == key@,
                None => forall|i: int|
                    0 <= i < self.entries().len() ==> #[trigger] self.entries()[i].0 != key@,
            },
    {
        let mut i: usize = 0;
        while i < self.entries.len()
            invariant
                0 <= i <= self.entries@.len(),
                forall|j: int| 0 <= j < i ==> #[trigger] self.entries()[j].0 != key@,
            decreases self.entries.len() - i,
        {
            if self.entries[i].0 == *key {
                return Some(i);
            }
            i = i + 1;
        }
        None
    }

    /// The peaks kept for a key.
    pub fn get(&self, key: &str) -> (r: Option<&V>)
        requires
            self.wf(),
        ensures
            match r {
                Some(v) => self.lookup(key@) == Some(*v),
                None => self.lookup(key@) is None,
            },
    {
        let k = key.to_owned();
        match self.index_of_key(&k) {
            Some(i) => {
                proof {
                    lemma_lookup_at(self.entries(), i as int);
                }
                Some(&self.entries[i].1)
            },
            None => None,
        }
    }

    /// Keeps `value` for `key`, in place of what was kept for it.
    pub fn put(&mut self, key: String, value: V)
        requires
            old(self).wf(),
        ensures
            final(self).wf(),
            final(self).lookup(key@) == Some(value),
            forall|k: Seq<char>| k != key@ ==> #[trigger] final(self).lookup(k) == old(self).lookup(k),
    {
        let ghost old_e = self.entries();
        let ghost kv = key@;
        let ghost vv = value;
        match self.index_of_key(&key) {
            Some(i) => {
                self.entries.set(i, (key, value));
                assert(self.entries() =~= old_e.update(i as int, (kv, vv)));
                proof {
                    lemma_lookup_at(self.entries(), i as int);
                    assert forall|k: Seq<char>| k != kv implies #[trigger] lookup(self.entries(), k)
                        == lookup(old_e, k) by {
                        if exists|j: int| 0 <= j < old_e.len() && old_e[j].0 == k {
                            let j = choose|j: int| 0 <= j < old_e.len() && old_e[j].0 == k;
                            lemma_lookup_at(old_e, j);
                            lemma_lookup_at(self.entries(), j);
                        } else {
                            assert(!exists|j: int|
                                0 <= j < self.entries().len() && self.entries()[j].0 == k) by {
                                if exists|j: int|
                                    0 <= j < self.entries().len() && self.entries()[j].0 == k {
                                    let j = choose|j: int|
                                        0 <= j < self.entries().len() && self.entries()[j].0 == k;
                                    assert(old_e[j].0 == k);
                                }
                            }
                        }
                    }
                }
            },
            None => {
                self.entries.push((key, value));
                assert(self.entries() =~= old_e.push((kv, vv)));
                proof {
                    lemma_lookup_at(self.entries(), old_e.len() as int);
                    assert forall|k: Seq<char>| k != kv implies #[trigger] lookup(self.entries(), k)
                        == lookup(old_e, k) by {
                        if exists|j: int| 0 <= j < old_e.len() && old_e[j].0 == k {
                            let j = choose|j: int| 0 <= j < old_e.len() && old_e[j].0 == k;
                            lemma_lookup_at(old_e, j);
                            lemma_lookup_at(self.entries(), j);
                        } else {
                            assert(!exists|j: int|
                                0 <= j < self.entries().len() && self.entries()[j].0 == k) by {
                                if exists|j: int|
                                    0 <= j < self.entries().len() && self.entries()[j].0 == k {
                                    let j = choose|j: int|
                                        0 <= j < self.entries().len() && self.entries()[j].0 == k;
                                    if j < old_e.len() {
                                        assert(old_e[j].0 == k);
                                    }
                                }
                            }
                        }
                    }
                }
            },
        }
    }

    /// Drops the peaks kept for an artifact: every key that starts with its
    /// id and `:`. Other keys keep what they hold.
    pub fn invalidate_artifact(&mut self, artifact_id: &str)
        requires
            old(self).wf(),
        ensures
            final(self).wf(),
            forall|k: Seq<char>| #[trigger]
                final(self).lookup(k) == if has_prefix(k, artifact_prefix(artifact_id@)) {
                    None
                } else {
                    old(self).lookup(k)
                },
    {
        let ghost old_e = self.entries();
        let mut prefix = to_chars(artifact_id);
        prefix.push(':');
        let ghost p = prefix@;
        assert(p == artifact_prefix(artifact_id@));
        let ghost q = |e: (Seq<char>, V)| !has_prefix(e.0, p);
        let mut entries: Vec<(String, V)> = Vec::new();
        std::mem::swap(&mut entries, &mut self.entries);
        let ghost orig = entries@;
        let mut kept: Vec<(String, V)> = Vec::new();
        let ghost mut i: int = 0;
        while entries.len() > 0
            invariant
                0 <= i <= orig.len(),
                entries@ == orig.skip(i),
                prefix@ == p,
                q == (|e: (Seq<char>, V)| !has_prefix(e.0, p)),
                old_e == orig.map_values(|e: (String, V)| (e.0@, e.1)),
                kept@.map_values(|e: (String, V)| (e.0@, e.1)) == old_e.take(i).filter(q),
            decreases entries@.len(),
        {
            proof {
                crate::db::lemma_filter_push(old_e.take(i), old_e[i], q);
                assert(old_e.take(i + 1) == old_e.take(i).push(old_e[i]));
            }
            let e = entries.remove(0);
            assert(e == orig[i]);
            let name = to_chars(e.0.as_str());
            let ghost kb = kept@;
            if !starts_with(&name, &prefix) {
                kept.push(e);
                assert(kept@.map_values(|e: (String, V)| (e.0@, e.1)) == kb.map_values(
                    |e: (String, V)| (e.0@, e.1),
                ).push(old_e[i]));
            }
            proof {
                i = i + 1;
                assert(entries@ =~= orig.skip(i));
            }
        }
        assert(old_e.take(old_e.len() as int) == old_e);
        self.entries = kept;
        proof {
            lemma_lookup_filter(old_e, q);
            assert forall|k: Seq<char>| #[trigger]
                self.lookup(k) == if has_prefix(k, p) {
                    None
                } else {
                    lookup(old_e, k)
                } by {
                lemma_lookup_filter_key(old_e, q, k);
            }
        }
    }
}

proof fn lemma_lookup_filter<V>(s: Seq<(Seq<char>, V)>, q: spec_fn((Seq<char>, V)) -> bool)
    requires
        keys_unique(s),
    ensures
        keys_unique(s.filter(q)),
{
    let key = |e: (Seq<char>, V)| e.0;
    assert(crate::db::unique_by(s, key));
    crate::db::lemma_filter_unique(s, key, q);
    assert(crate::db::unique_by(s.filter(q), key));
}

/// What a filtered list gives for a key: what the list gives, when the
/// entry with that key passes the filter.
proof fn lemma_lookup_filter_key<V>(
    s: Seq<(Seq<char>, V)>,
    q: spec_fn((Seq<char>, V)) -> bool,
    k: Seq<char>,
)
    requires
        keys_unique(s),
    ensures
        lookup(s.filter(q), k) == if exists|j: int| 0 <= j < s.len() && s[j].0 == k && q(s[j]) {
            lookup(s, k)
        } else {
            None
        },
{
    broadcast use vstd::seq_lib::group_filter_ensures;

    lemma_lookup_filter(s, q);
    let f = s.filter(q);
    if exists|i: int| 0 <= i < f.len() && f[i].0 == k {
        let i = choose|i: int| 0 <= i < f.len() && f[i].0 == k;
        assert(f.contains(f[i]));
        s.lemma_filter_contains_rev(q, f[i]);
        let j = choose|j: int| 0 <= j < s.len() && s[j] == f[i];
        lemma_lookup_at(f, i);
        lemma_lookup_at(s, j);
        assert(0 <= j < s.len() && s[j].0 == k && q(s[j]));
    } else {
        if exists|j: int| 0 <= j < s.len() && s[j].0 == k && q(s[j]) {
            let j = choose|j: int| 0 <= j < s.len() && s[j].0 == k && q(s[j]);
            assert(f.contains(s[j]));
            let i = choose|i: int| 0 <= i < f.len() && f[i] == s[j];
            assert(f[i].0 == k);
        }
    }
}

// ---------------------------------------------------------------------------
// Buckets
// ---------------------------------------------------------------------------

/// The windows that bucket `i` of `buckets` takes from `len` windows: the
/// windows from `i * len / buckets` to `(i + 1) * len / buckets`, or the one
/// window at the start when that range is empty, cut at the end of the list.
pub open spec fn bucket_bounds_spec(i: nat, len: nat, buckets: nat) -> (nat, nat) {
    let start = i * len / buckets;
    let end0 = (i + 1) * len / buckets;
    if end0 <= start {
        (start, if start + 1 < len { start + 1 } else { len })
    } else {
        (start, if end0 < len { end0 } else { len })
    }
}

proof fn lemma_start_below(i: int, len: int, b: int)
    requires
        0 <= i < b,
        0 <= len,
    ensures
        0 <= i * len / b <= len,
        len > 0 ==> i * len / b < len,
{
    vstd::arithmetic::mul::lemma_mul_inequality(i, b - 1, len);
    vstd::arithmetic::mul::lemma_mul_nonnegative(i, len);
    assert((b - 1) * len == b * len - len) by (nonlinear_arith);
    vstd::arithmetic::div_mod::lemma_div_pos_is_pos(i * len, b);
    vstd::arithmetic::div_mod::lemma_multiply_divide_le(i * len, b, len);
    if len > 0 {
        vstd::arithmetic::div_mod::lemma_multiply_divide_lt(i * len, b, len);
    }
}

/// The windows a bucket of the waveform takes; for a non-empty list each
/// bucket takes at least one window and stays within the list.
pub fn bucket_bounds(i: usize, len: usize, buckets: usize) -> (r: (usize, usize))
    requires
        i < buckets,
    ensures
        (r.0 as nat, r.1 as nat) == bucket_bounds_spec(i as nat, len as nat, buckets as nat),
        len > 0 ==> r.0 < r.1 <= len,
{
    assert((i as u128 + 1) * (len as u128) <= u128::MAX) by (nonlinear_arith)
        requires
            i < usize::MAX,
            len <= usize::MAX,
            usize::MAX < 0x1_0000_0000_0000_0000,
    ;
    assert((i as u128) * (len as u128) <= (i as u128 + 1) * (len as u128)) by (nonlinear_arith);
    let start = (i as u128) * (len as u128) / (buckets as u128);
    let end0 = ((i as u128) + 1) * (len as u128) / (buckets as u128);
    proof {
        lemma_start_below(i as int, len as int, buckets as int);
    }
    let start = start as usize;
    if end0 <= start as u128 {
        let end = if start < len && start + 1 < len {
            start + 1
        } else {
            len
        };
        (start, end)
    } else {
        let end = if end0 < len as u128 {
            end0 as usize
        } else {
            len
        };
        (start, end)
    }
}

} // verus!
