//! The header mapping of a request: a last-write-wins association from
//! header names to values, and `payload_parser`, which fills it from the
//! line fragments that follow the request line. A non-empty fragment
//! without the `": "` separator is taken for the request body: its NUL
//! padding is trimmed and it is stored under the reserved key
//! `post_payload`, beside the genuine headers.
use vstd::prelude::*;

use crate::ascii::post_payload_key;
use crate::ascii::post_payload_key_vec;
use crate::scan::bytes_eq;
use crate::scan::copy_range;
use crate::scan::find2;
use crate::scan::find2_from;
use crate::scan::lemma_find2_props;
use crate::scan::trim_nul_bytes;
use crate::scan::trim_nuls;

verus! {

/// A mapping from header names to values, keyed by exact bytes, holding
/// at most one entry per name.
pub struct HeaderMap {
    entries: Vec<(Vec<u8>, Vec<u8>)>,
}

/// The mathematical mapping that a run of entries stands for, later
/// entries overwriting earlier ones with the same key.
spec fn entries_map(s: Seq<(Vec<u8>, Vec<u8>)>) -> Map<Seq<u8>, Seq<u8>>
    decreases s.len(),
{
    if s.len() == 0 {
        Map::empty()
    } else {
        entries_map(s.drop_last()).insert(s.last().0@, s.last().1@)
    }
}

/// With pairwise distinct keys, the mapping holds exactly the entries'
/// keys, each bound to that entry's value.
proof fn lemma_entries_map(s: Seq<(Vec<u8>, Vec<u8>)>)
    requires
        forall|i: int, j: int| 0 <= i < j < s.len() ==> s[i].0@ != s[j].0@,
    ensures
        forall|k: Seq<u8>|
            entries_map(s).contains_key(k) <==> exists|i: int| 0 <= i < s.len() && (#[trigger] s[i]).0@ == k,
        forall|i: int|
            0 <= i < s.len() ==> entries_map(s).contains_key((#[trigger] s[i]).0@) && entries_map(
                s,
            )[s[i].0@] == s[i].1@,
    decreases s.len(),
{
    if s.len() == 0 {
    } else {
        lemma_entries_map(s.drop_last());
        assert forall|i: int|
            0 <= i < s.len() implies entries_map(s).contains_key((#[trigger] s[i]).0@)
            && entries_map(s)[s[i].0@] == s[i].1@ by {
            if i < s.len() - 1 {
                assert(s.drop_last()[i] == s[i]);
                assert(s[i].0@ != s.last().0@);
            }
        }
        assert forall|k: Seq<u8>| entries_map(s).contains_key(k) implies exists|i: int|
            0 <= i < s.len() && (#[trigger] s[i]).0@ == k by {
            if k == s.last().0@ {
                assert((#[trigger] s[s.len() - 1]).0@ == k);
            } else {
                assert(entries_map(s.drop_last()).contains_key(k));
                let i = choose|i: int|
                    0 <= i < s.drop_last().len() && (#[trigger] s.drop_last()[i]).0@ == k;
                assert(s.drop_last()[i] == s[i]);
                assert((#[trigger] s[i]).0@ == k);
            }
        }
    }
}

impl View for HeaderMap {
    type V = Map<Seq<u8>, Seq<u8>>;

    closed spec fn view(&self) -> Map<Seq<u8>, Seq<u8>> {
        entries_map(self.entries@)
    }
}

impl HeaderMap {
    /// The entries hold pairwise distinct keys.
    pub closed spec fn wf(&self) -> bool {
        forall|i: int, j: int|
            0 <= i < j < self.entries@.len() ==> self.entries@[i].0@ != self.entries@[j].0@
    }

    /// The empty mapping.
    pub fn new() -> (h: HeaderMap)
        ensures
            h.wf(),
            h@ == Map::<Seq<u8>, Seq<u8>>::empty(),
    {
        HeaderMap { entries: Vec::new() }
    }

    /// Binds `key` to `value`, replacing any earlier binding of the same
    /// key.
    pub fn insert(&mut self, key: Vec<u8>, value: Vec<u8>)
        requires
            old(self).wf(),
        ensures
            final(self).wf(),
            final(self)@ == old(self)@.insert(key@, value@),
    {
        let ghost orig = self.entries@;
        let ghost kv = key@;
        let ghost vv = value@;
        let mut i: usize = 0;
        while i < self.entries.len()
            invariant
                0 <= i <= self.entries@.len(),
                self.entries@ == orig,
                orig == old(self).entries@,
                key@ == kv,
                value@ == vv,
                forall|a: int, b: int| 0 <= a < b < orig.len() ==> orig[a].0@ != orig[b].0@,
                forall|j: int| 0 <= j < i ==> (#[trigger] orig[j]).0@ != kv,
            decreases self.entries@.len() - i,
        {
            if bytes_eq(self.entries[i].0.as_slice(), key.as_slice()) {
                self.entries.remove(i);
                self.entries.push((key, value));
                proof {
                    let now = self.entries@;
                    let rem = orig.remove(i as int);
                    assert(now.last().0@ == kv && now.last().1@ == vv);
                    assert(now.len() == orig.len());
                    assert forall|j: int| 0 <= j < i implies #[trigger] now[j] == orig[j] by {
                        assert(now[j] == rem[j]);
                    }
                    assert forall|j: int| i <= j < orig.len() - 1 implies #[trigger] now[j]
                        == orig[j + 1] by {
                        assert(now[j] == rem[j]);
                    }
                    assert forall|p: int, q: int| 0 <= p < q < now.len() implies now[p].0@
                        != now[q].0@ by {
                        if q == now.len() - 1 {
                            if p < i {
                                assert(now[p] == orig[p]);
                                assert(orig[p].0@ != orig[i as int].0@);
                            } else {
                                assert(now[p] == orig[p + 1]);
                                assert(orig[i as int].0@ != orig[p + 1].0@);
                            }
                        } else {
                            if p < i && q < i {
                                assert(now[p] == orig[p] && now[q] == orig[q]);
                            } else if p < i {
                                assert(now[p] == orig[p] && now[q] == orig[q + 1]);
                            } else {
                                assert(now[p] == orig[p + 1] && now[q] == orig[q + 1]);
                            }
                        }
                    }
                    lemma_entries_map(orig);
                    lemma_entries_map(now);
                    assert forall|k: Seq<u8>| #[trigger] entries_map(now).contains_key(k)
                        <==> entries_map(orig).insert(kv, vv).contains_key(k) by {
                        lemma_remove_key_set(orig, now, i as int, k, kv);
                    }
                    assert forall|k: Seq<u8>|
                        #[trigger] entries_map(now).contains_key(k) implies entries_map(now)[k]
                        == entries_map(orig).insert(kv, vv)[k] by {
                        lemma_remove_key_val(orig, now, i as int, k, kv);
                    }
                    assert(entries_map(now) =~= entries_map(orig).insert(kv, vv));
                }
                return ;
            }
            i += 1;
        }
        self.entries.push((key, value));
        proof {
            let now = self.entries@;
            assert(forall|j: int| 0 <= j < orig.len() ==> #[trigger] now[j] == orig[j]);
            assert(now.drop_last() =~= orig);
        }
    }

    /// The value bound to `key`, if the key is bound at all.
    pub fn get(&self, key: &[u8]) -> (r: Option<&Vec<u8>>)
        requires
            self.wf(),
        ensures
            match r {
                Some(v) => self@.contains_key(key@) && v@ == self@[key@],
                None => !self@.contains_key(key@),
            },
    {
        proof {
            lemma_entries_map(self.entries@);
        }
        let mut i: usize = 0;
        while i < self.entries.len()
            invariant
                0 <= i <= self.entries@.len(),
                self.wf(),
                forall|j: int| 0 <= j < i ==> (#[trigger] self.entries@[j]).0@ != key@,
            decreases self.entries@.len() - i,
        {
            if bytes_eq(self.entries[i].0.as_slice(), key) {
                proof {
                    lemma_entries_map(self.entries@);
                }
                return Some(&self.entries[i].1);
            }
            i += 1;
        }
        proof {
            lemma_entries_map(self.entries@);
        }
        None
    }
}

/// After `remove(i)` and a push of `(key, value)` with `key` equal to the
/// removed entry's key, the key set is the original's with `key` added.
proof fn lemma_remove_key_set(
    orig: Seq<(Vec<u8>, Vec<u8>)>,
    now: Seq<(Vec<u8>, Vec<u8>)>,
    i: int,
    k: Seq<u8>,
    key: Seq<u8>,
)
    requires
        forall|a: int, b: int| 0 <= a < b < orig.len() ==> orig[a].0@ != orig[b].0@,
        forall|a: int, b: int| 0 <= a < b < now.len() ==> now[a].0@ != now[b].0@,
        0 <= i < orig.len(),
        orig[i].0@ == key,
        now.len() == orig.len(),
        now.last().0@ == key,
        forall|j: int| 0 <= j < i ==> #[trigger] now[j] == orig[j],
        forall|j: int| i <= j < orig.len() - 1 ==> #[trigger] now[j] == orig[j + 1],
    ensures
        entries_map(now).contains_key(k) <==> (entries_map(orig).contains_key(k) || k == key),
{
    lemma_entries_map(orig);
    lemma_entries_map(now);
    if entries_map(now).contains_key(k) {
        let j = choose|j: int| 0 <= j < now.len() && (#[trigger] now[j]).0@ == k;
        if j == now.len() - 1 {
        } else if j < i {
            assert(orig[j].0@ == k);
        } else {
            assert(orig[j + 1].0@ == k);
        }
    }
    if entries_map(orig).contains_key(k) {
        let j = choose|j: int| 0 <= j < orig.len() && (#[trigger] orig[j]).0@ == k;
        if j == i {
            assert(now.last().0@ == k);
            assert((#[trigger] now[now.len() - 1]).0@ == k);
        } else if j < i {
            assert((#[trigger] now[j]).0@ == k);
        } else {
            assert((#[trigger] now[j - 1]).0@ == k);
        }
    }
    if k == key {
        assert((#[trigger] now[now.len() - 1]).0@ == k);
    }
}

/// As `lemma_remove_key_set`, for the bound values.
proof fn lemma_remove_key_val(
    orig: Seq<(Vec<u8>, Vec<u8>)>,
    now: Seq<(Vec<u8>, Vec<u8>)>,
    i: int,
    k: Seq<u8>,
    key: Seq<u8>,
)
    requires
        forall|a: int, b: int| 0 <= a < b < orig.len() ==> orig[a].0@ != orig[b].0@,
        forall|a: int, b: int| 0 <= a < b < now.len() ==> now[a].0@ != now[b].0@,
        0 <= i < orig.len(),
        orig[i].0@ == key,
        now.len() == orig.len(),
        now.last().0@ == key,
        forall|j: int| 0 <= j < i ==> #[trigger] now[j] == orig[j],
        forall|j: int| i <= j < orig.len() - 1 ==> #[trigger] now[j] == orig[j + 1],
        entries_map(now).contains_key(k),
    ensures
        entries_map(now)[k] == entries_map(orig).insert(key, now.last().1@)[k],
{
    lemma_entries_map(orig);
    lemma_entries_map(now);
    let j = choose|j: int| 0 <= j < now.len() && (#[trigger] now[j]).0@ == k;
    if j == now.len() - 1 {
    } else if j < i {
        assert(orig[j].0@ == k);
        assert(k != key);
    } else {
        assert(orig[j + 1].0@ == k);
        assert(k != key);
    }
}

/// Where a fragment's first `": "` stands, split there into name and
/// value; a non-empty fragment without one is the body, NUL-trimmed,
/// under the reserved key; empty fragments contribute nothing.
pub open spec fn fragment_step(m: Map<Seq<u8>, Seq<u8>>, f: Seq<u8>) -> Map<Seq<u8>, Seq<u8>> {
    let c = find2(f, 58, 32);
    if c >= 0 {
        m.insert(f.take(c), f.skip(c + 2))
    } else if f.len() > 0 {
        m.insert(post_payload_key(), trim_nuls(f))
    } else {
        m
    }
}

/// The mapping that a run of fragments parses to, processed in order,
/// later bindings overwriting earlier ones.
pub open spec fn parse_fragments(frags: Seq<Seq<u8>>) -> Map<Seq<u8>, Seq<u8>>
    decreases frags.len(),
{
    if frags.len() == 0 {
        Map::empty()
    } else {
        fragment_step(parse_fragments(frags.drop_last()), frags.last())
    }
}

/// Fills a header mapping from the line fragments after the request
/// line: each fragment with a `": "` becomes a header, split at the first
/// occurrence; a non-empty fragment without one becomes the body under
/// the reserved `post_payload` key, NUL padding trimmed; empty fragments
/// are ignored; on every key the last write wins.
pub fn payload_parser(payload: &[Vec<u8>]) -> (h: HeaderMap)
    ensures
        h.wf(),
        h@ == parse_fragments(payload@.map_values(|f: Vec<u8>| f@)),
{
    let ghost all = payload@.map_values(|f: Vec<u8>| f@);
    let mut h = HeaderMap::new();
    let mut i: usize = 0;
    proof {
        assert(all.take(0) =~= Seq::<Seq<u8>>::empty());
    }
    while i < payload.len()
        invariant
            0 <= i <= payload@.len(),
            all == payload@.map_values(|f: Vec<u8>| f@),
            h.wf(),
            h@ == parse_fragments(all.take(i as int)),
        decreases payload@.len() - i,
    {
        let part = &payload[i];
        proof {
            assert(all.take(i + 1).drop_last() =~= all.take(i as int));
            assert(all.take(i + 1).last() == part@);
        }
        match find2_from(part.as_slice(), 0, 58, 32) {
            Some(c) => {
                proof {
                    assert(part@.skip(0) =~= part@);
                    lemma_find2_props(part@, 58, 32);
                    assert(c + 2 <= part@.len());
                }
                let n = part.len();
                let name = copy_range(part.as_slice(), 0, c);
                let value = copy_range(part.as_slice(), c + 2, n);
                proof {
                    assert(part@.subrange(0, c as int) =~= part@.take(c as int));
                    assert(part@.subrange(c + 2, part@.len() as int) =~= part@.skip(c + 2));
                }
                h.insert(name, value);
            },
            None => {
                proof {
                    assert(part@.skip(0) =~= part@);
                }
                if part.len() > 0 {
                    let body = trim_nul_bytes(part.as_slice());
                    h.insert(post_payload_key_vec(), body);
                }
            },
        }
        i += 1;
    }
    proof {
        assert(all.take(payload@.len() as int) =~= all);
    }
    h
}

} // verus!
