//! The resource store: an in-memory, versioned, indexed, per-kind table
//! with optimistic concurrency control, transparent compression and a
//! bounded change ring for watch subscribers.
//!
//! A single counter assigns a fresh version to every mutation; the version
//! of every stored record and every change event is unique and strictly
//! increasing in history. Payloads above the configured threshold are held
//! compressed; readers always receive the original bytes. The namespace
//! and label indexes enumerate exactly the live records.

use crate::codec::{compress_of, digest_of, lz4_compress, lz4_decompress, now_micros, sha3_256};
use crate::util::{
    assoc_get, assoc_lookup, bytes_eq, lemma_assoc_push, lemma_assoc_some_iff, str_eq,
    vec_contains_str,
};
use vstd::prelude::*;
use vstd::slice::slice_to_vec;
use vstd::string::StringExecFns;

verus! {

/// The error kinds that store verbs report.
#[derive(Clone, Copy, Debug, PartialEq, Eq, Structural)]
pub enum StoreError {
    /// The addressed resource is absent.
    NotFound,
    /// A create addressed a key that is already present.
    Conflict,
    /// The compare-and-swap precondition of an update failed.
    VersionMismatch,
    /// The requested history has fallen off the change ring, or a continue
    /// token refers to a list version that is no longer reachable.
    Expired,
    /// The payload exceeds the configured limit.
    TooLarge,
    /// The digest of a stored payload did not match on read.
    IntegrityError,
}

/// Caller-supplied description of a stored object. The store itself
/// computes `size` and `checksum` from the payload on every write.
pub struct ObjectMetadata {
    pub kind: String,
    pub namespace: Option<String>,
    pub labels: Vec<(String, String)>,
    pub annotations: Vec<(String, String)>,
    pub size: usize,
    pub checksum: Vec<u8>,
}

/// Store configuration.
pub struct StoreConfig {
    /// Maximum objects per resource kind (carried for callers; the store
    /// itself bounds memory through `memory_limit`).
    pub max_objects: usize,
    /// Payloads strictly longer than this are stored compressed.
    pub compression_threshold: usize,
    /// Payloads longer than this are refused as too large.
    pub memory_limit: usize,
    /// Recompute and check the payload digest on every read.
    pub integrity_check: bool,
    /// Batch size hint for bulk operations.
    pub batch_size: usize,
    /// How many change events the ring retains.
    pub change_ring_capacity: usize,
}

impl Default for StoreConfig {
    fn default() -> (r: Self)
        ensures
            r.max_objects == 100000,
            r.compression_threshold == 1024,
            r.memory_limit == 2000000000,
            r.integrity_check == true,
            r.batch_size == 1000,
            r.change_ring_capacity == 1024,
    {
        StoreConfig {
            max_objects: 100000,
            compression_threshold: 1024,
            memory_limit: 2000000000,
            integrity_check: true,
            batch_size: 1000,
            change_ring_capacity: 1024,
        }
    }
}

/// The result of one store verb, with the cluster version at completion
/// and the observed latency.
pub struct OperationResult<T> {
    pub data: T,
    pub revision: u64,
    pub latency_us: u64,
}

/// The operation a change event reports.
#[derive(Clone, Copy, Debug, PartialEq, Eq, Structural)]
pub enum ChangeOp {
    Created,
    Updated,
    Deleted,
}

/// One entry of the change ring. Payloads are the uncompressed form.
#[derive(Debug)]
pub struct ChangeEvent {
    pub kind: String,
    pub namespace: Option<String>,
    pub key: String,
    pub op: ChangeOp,
    pub version: u64,
    pub old_payload: Option<Vec<u8>>,
    pub new_payload: Option<Vec<u8>>,
}

/// The mathematical content of a change event.
pub ghost struct ChangeEventView {
    pub kind: Seq<char>,
    pub namespace: Option<Seq<char>>,
    pub key: Seq<char>,
    pub op: ChangeOp,
    pub version: u64,
    pub old_payload: Option<Seq<u8>>,
    pub new_payload: Option<Seq<u8>>,
}

impl View for ChangeEvent {
    type V = ChangeEventView;

    open spec fn view(&self) -> ChangeEventView {
        ChangeEventView {
            kind: self.kind@,
            namespace: match self.namespace {
                Some(ns) => Some(ns@),
                None => None,
            },
            key: self.key@,
            op: self.op,
            version: self.version,
            old_payload: match self.old_payload {
                Some(ref p) => Some(p@),
                None => None,
            },
            new_payload: match self.new_payload {
                Some(ref p) => Some(p@),
                None => None,
            },
        }
    }
}

/// One stored record. `stored` holds the compressed form when `compressed`
/// is set; the ghost `payload` is always the original bytes.
pub struct StoredRecord {
    pub kind: String,
    pub key: String,
    pub stored: Vec<u8>,
    pub compressed: bool,
    pub payload: Ghost<Seq<u8>>,
    pub metadata: ObjectMetadata,
    pub created: u64,
    pub modified: u64,
    pub resource_version: u64,
}

/// One group of an index: the primary keys of the live records of `kind`
/// whose indexed field equals (`k1`, `k2`).
pub struct IndexEntry {
    pub kind: String,
    pub k1: String,
    pub k2: String,
    pub keys: Vec<String>,
}

/// Whether the index holds `key` under the group (`kind`, `k1`, `k2`).
pub open spec fn idx_has(
    entries: Seq<IndexEntry>,
    kind: Seq<char>,
    k1: Seq<char>,
    k2: Seq<char>,
    key: Seq<char>,
) -> bool {
    exists|i: int|
        0 <= i < entries.len() && entries[i].kind@ == kind && entries[i].k1@ == k1
            && entries[i].k2@ == k2 && crate::util::seq_contains_str(entries[i].keys@, key)
}

/// Whether an index entry files keys under the group (`kind`, `k1`, `k2`).
pub open spec fn entry_in_group(e: IndexEntry, kind: Seq<char>, k1: Seq<char>, k2: Seq<char>) -> bool {
    e.kind@ == kind && e.k1@ == k1 && e.k2@ == k2
}

/// Copies a key list.
fn clone_keys(keys: &Vec<String>) -> (r: Vec<String>)
    ensures
        r@ == keys@,
{
    let mut ks: Vec<String> = Vec::new();
    let mut m: usize = 0;
    while m < keys.len()
        invariant
            m <= keys@.len(),
            ks@ =~= keys@.take(m as int),
        decreases keys@.len() - m,
    {
        ks.push(keys[m].clone());
        proof {
            assert(ks@ =~= keys@.take(m + 1));
        }
        m = m + 1;
    }
    proof {
        assert(ks@ =~= keys@);
    }
    ks
}

/// Copies a key list, leaving every occurrence of `key` out.
fn filter_keys(keys: &Vec<String>, key: &String) -> (r: Vec<String>)
    ensures
        forall|k: Seq<char>|
            #[trigger] crate::util::seq_contains_str(r@, k) <==> (crate::util::seq_contains_str(
                keys@,
                k,
            ) && k != key@),
{
    broadcast use crate::util::lemma_contains_str_push;

    let mut ks: Vec<String> = Vec::new();
    let mut m: usize = 0;
    while m < keys.len()
        invariant
            m <= keys@.len(),
            forall|k: Seq<char>|
                #[trigger] crate::util::seq_contains_str(ks@, k) <==> (
                crate::util::seq_contains_str(keys@.take(m as int), k) && k != key@),
        decreases keys@.len() - m,
    {
        let ghost ks_pre = ks@;
        if !str_eq(keys[m].as_str(), key.as_str()) {
            ks.push(keys[m].clone());
            proof {
                assert(ks@ == ks_pre.push(keys@[m as int]));
            }
        }
        proof {
            let tk = keys@.take(m as int);
            let tk1 = keys@.take(m + 1);
            assert(tk1 =~= tk.push(keys@[m as int]));
            assert forall|k: Seq<char>|
                #[trigger] crate::util::seq_contains_str(ks@, k) <==> (
            crate::util::seq_contains_str(tk1, k) && k != key@) by {
                crate::util::lemma_contains_str_push(tk, keys@[m as int], k);
                if keys@[m as int]@ != key@ {
                    crate::util::lemma_contains_str_push(ks_pre, keys@[m as int], k);
                }
            }
        }
        m = m + 1;
    }
    proof {
        assert(keys@.take(keys@.len() as int) =~= keys@);
    }
    ks
}

/// Add `key` to the group (`kind`, `k1`, `k2`), growing the group that is
/// already there or opening a new one.
fn index_add(entries: &mut Vec<IndexEntry>, kind: &String, k1: &String, k2: &String, key: &String)
    ensures
        forall|g0: Seq<char>, g1: Seq<char>, g2: Seq<char>, k: Seq<char>|
            #[trigger] idx_has(final(entries)@, g0, g1, g2, k) <==> (idx_has(
                old(entries)@,
                g0,
                g1,
                g2,
                k,
            ) || (g0 == kind@ && g1 == k1@ && g2 == k2@ && k == key@)),
{
    broadcast use crate::util::lemma_contains_str_push;

    let ghost pre = entries@;
    let mut i: usize = 0;
    while i < entries.len()
        invariant
            entries@ == pre,
            pre == old(entries)@,
            i <= pre.len(),
            forall|j: int| 0 <= j < i ==> !entry_in_group(pre[j], kind@, k1@, k2@),
        decreases pre.len() - i,
    {
        if str_eq(entries[i].kind.as_str(), kind.as_str()) && str_eq(
            entries[i].k1.as_str(),
            k1.as_str(),
        ) && str_eq(entries[i].k2.as_str(), k2.as_str()) {
            let mut e = entries.swap_remove(i);
            let ghost old_keys = e.keys@;
            e.keys.push(key.clone());
            proof {
                assert(e.keys@ == old_keys.push(*key));
            }
            entries.push(e);
            proof {
                let fin = entries@;
                let last = fin[fin.len() - 1];
                assert(last.keys@ == old_keys.push(*key));
                assert(old_keys == pre[i as int].keys@);
                assert forall|g0: Seq<char>, g1: Seq<char>, g2: Seq<char>, k: Seq<char>|
                    #[trigger] idx_has(fin, g0, g1, g2, k) <==> (idx_has(pre, g0, g1, g2, k) || (
                g0 == kind@ && g1 == k1@ && g2 == k2@ && k == key@)) by {
                    crate::util::lemma_contains_str_push(old_keys, *key, k);
                    if idx_has(fin, g0, g1, g2, k) {
                        let j = choose|j: int|
                            0 <= j < fin.len() && entry_in_group(fin[j], g0, g1, g2)
                                && crate::util::seq_contains_str(fin[j].keys@, k);
                        if j == fin.len() - 1 {
                            if k != key@ {
                                assert(crate::util::seq_contains_str(old_keys, k));
                                assert(entry_in_group(pre[i as int], g0, g1, g2));
                                assert(idx_has(pre, g0, g1, g2, k));
                            }
                        } else if j == i as int && i as int != pre.len() - 1 {
                            assert(fin[j] == pre[pre.len() - 1]);
                            assert(idx_has(pre, g0, g1, g2, k));
                        } else {
                            assert(fin[j] == pre[j]);
                            assert(idx_has(pre, g0, g1, g2, k));
                        }
                    }
                    if g0 == kind@ && g1 == k1@ && g2 == k2@ && k == key@ {
                        assert(crate::util::seq_contains_str(old_keys.push(*key), k));
                        assert(entry_in_group(fin[fin.len() - 1], g0, g1, g2));
                        assert(idx_has(fin, g0, g1, g2, k));
                    } else if idx_has(pre, g0, g1, g2, k) {
                        let j = choose|j: int|
                            0 <= j < pre.len() && entry_in_group(pre[j], g0, g1, g2)
                                && crate::util::seq_contains_str(pre[j].keys@, k);
                        if j == i as int {
                            assert(crate::util::seq_contains_str(old_keys.push(*key), k));
                            assert(entry_in_group(fin[fin.len() - 1], g0, g1, g2));
                            assert(idx_has(fin, g0, g1, g2, k));
                        } else if j == pre.len() - 1 {
                            if i as int == pre.len() - 1 {
                                assert(false);
                            } else {
                                assert(fin[i as int] == pre[j]);
                                assert(idx_has(fin, g0, g1, g2, k));
                            }
                        } else {
                            assert(fin[j] == pre[j]);
                            assert(idx_has(fin, g0, g1, g2, k));
                        }
                    }
                }
            }
            return;
        }
        i = i + 1;
    }
    let mut ks: Vec<String> = Vec::new();
    ks.push(key.clone());
    entries.push(IndexEntry { kind: kind.clone(), k1: k1.clone(), k2: k2.clone(), keys: ks });
    proof {
        let fin = entries@;
        let last = fin[fin.len() - 1];
        assert(last.keys@[0]@ == key@);
        assert(crate::util::seq_contains_str(last.keys@, key@));
        assert forall|g0: Seq<char>, g1: Seq<char>, g2: Seq<char>, k: Seq<char>|
            #[trigger] idx_has(fin, g0, g1, g2, k) <==> (idx_has(pre, g0, g1, g2, k) || (g0
            == kind@ && g1 == k1@ && g2 == k2@ && k == key@)) by {
            if idx_has(fin, g0, g1, g2, k) {
                let j = choose|j: int|
                    0 <= j < fin.len() && entry_in_group(fin[j], g0, g1, g2)
                        && crate::util::seq_contains_str(fin[j].keys@, k);
                if j < fin.len() - 1 {
                    assert(fin[j] == pre[j]);
                    assert(idx_has(pre, g0, g1, g2, k));
                } else {
                    let m = choose|m: int| 0 <= m < last.keys@.len() && last.keys@[m]@ == k;
                    assert(last.keys@[m] == *key);
                }
            }
            if idx_has(pre, g0, g1, g2, k) {
                let j = choose|j: int|
                    0 <= j < pre.len() && entry_in_group(pre[j], g0, g1, g2)
                        && crate::util::seq_contains_str(pre[j].keys@, k);
                assert(fin[j] == pre[j]);
                assert(idx_has(fin, g0, g1, g2, k));
            } else if g0 == kind@ && g1 == k1@ && g2 == k2@ && k == key@ {
                assert(entry_in_group(last, g0, g1, g2));
                assert(idx_has(fin, g0, g1, g2, k));
            }
        }
    }
}

/// Remove `key` from every group of `kind` that lists it.
fn index_remove(entries: &mut Vec<IndexEntry>, kind: &String, key: &String)
    ensures
        forall|g0: Seq<char>, g1: Seq<char>, g2: Seq<char>, k: Seq<char>|
            #[trigger] idx_has(final(entries)@, g0, g1, g2, k) <==> (idx_has(
                old(entries)@,
                g0,
                g1,
                g2,
                k,
            ) && !(g0 == kind@ && k == key@)),
{
    let ghost pre = entries@;
    let mut out: Vec<IndexEntry> = Vec::new();
    let mut i: usize = 0;
    // Rebuild the index, filtering `key` out of the groups of `kind`.
    while i < entries.len()
        invariant
            entries@ == pre,
            i <= pre.len(),
            forall|g0: Seq<char>, g1: Seq<char>, g2: Seq<char>, k: Seq<char>|
                #[trigger] idx_has(out@, g0, g1, g2, k) <==> (idx_has(
                    pre.take(i as int),
                    g0,
                    g1,
                    g2,
                    k,
                ) && !(g0 == kind@ && k == key@)),
        decreases pre.len() - i,
    {
        let ghost out_pre = out@;
        let kind_hit = str_eq(entries[i].kind.as_str(), kind.as_str());
        let ks: Vec<String> = if kind_hit {
            filter_keys(&entries[i].keys, key)
        } else {
            clone_keys(&entries[i].keys)
        };
        let e = &entries[i];
        out.push(IndexEntry { kind: e.kind.clone(), k1: e.k1.clone(), k2: e.k2.clone(), keys: ks });
        proof {
            let fin = out@;
            let tp = pre.take(i + 1);
            let ti = pre.take(i as int);
            assert(tp.drop_last() =~= ti);
            assert(fin.drop_last() =~= out_pre);
            let ne = fin[fin.len() - 1];
            let oe = pre[i as int];
            assert(tp[i as int] == oe);
            assert(ne.kind@ == oe.kind@ && ne.k1@ == oe.k1@ && ne.k2@ == oe.k2@);
            assert forall|g0: Seq<char>, g1: Seq<char>, g2: Seq<char>, k: Seq<char>|
                #[trigger] idx_has(fin, g0, g1, g2, k) implies (idx_has(tp, g0, g1, g2, k) && !(g0
                == kind@ && k == key@)) by {
                let j = choose|j: int|
                    0 <= j < fin.len() && entry_in_group(fin[j], g0, g1, g2)
                        && crate::util::seq_contains_str(fin[j].keys@, k);
                if j < fin.len() - 1 {
                    assert(fin[j] == out_pre[j]);
                    assert(idx_has(out_pre, g0, g1, g2, k));
                    assert(idx_has(ti, g0, g1, g2, k) && !(g0 == kind@ && k == key@));
                    let w = choose|w: int|
                        0 <= w < ti.len() && entry_in_group(ti[w], g0, g1, g2)
                            && crate::util::seq_contains_str(ti[w].keys@, k);
                    assert(tp[w] == ti[w]);
                    assert(idx_has(tp, g0, g1, g2, k));
                } else {
                    if kind_hit {
                        assert(oe.kind@ == kind@);
                        assert(crate::util::seq_contains_str(oe.keys@, k) && k != key@);
                        assert(idx_has(tp, g0, g1, g2, k));
                    } else {
                        assert(ne.keys@ == oe.keys@);
                        assert(crate::util::seq_contains_str(oe.keys@, k));
                        assert(g0 == oe.kind@ && g0 != kind@);
                        assert(idx_has(tp, g0, g1, g2, k));
                    }
                }
            }
            assert forall|g0: Seq<char>, g1: Seq<char>, g2: Seq<char>, k: Seq<char>|
                idx_has(tp, g0, g1, g2, k) && !(g0 == kind@ && k == key@) implies #[trigger]
            idx_has(fin, g0, g1, g2, k) by {
                let j = choose|j: int|
                    0 <= j < tp.len() && entry_in_group(tp[j], g0, g1, g2)
                        && crate::util::seq_contains_str(tp[j].keys@, k);
                if j < i as int {
                    assert(tp[j] == ti[j]);
                    assert(idx_has(ti, g0, g1, g2, k));
                    assert(idx_has(out_pre, g0, g1, g2, k));
                    let w = choose|w: int|
                        0 <= w < out_pre.len() && entry_in_group(out_pre[w], g0, g1, g2)
                            && crate::util::seq_contains_str(out_pre[w].keys@, k);
                    assert(fin[w] == out_pre[w]);
                    assert(idx_has(fin, g0, g1, g2, k));
                } else {
                    assert(tp[j] == oe);
                    if kind_hit {
                        assert(g0 == kind@ ==> k != key@);
                        if g0 == kind@ {
                            assert(crate::util::seq_contains_str(ne.keys@, k));
                        } else {
                            assert(crate::util::seq_contains_str(ne.keys@, k));
                        }
                    } else {
                        assert(ne.keys@ == oe.keys@);
                        assert(crate::util::seq_contains_str(ne.keys@, k));
                    }
                    assert(entry_in_group(ne, g0, g1, g2));
                    assert(idx_has(fin, g0, g1, g2, k));
                }
            }
        }
        i = i + 1;
    }
    proof {
        assert(pre.take(pre.len() as int) =~= pre);
    }
    *entries = out;
}

/// A counter bumped by one, held at its ceiling instead of wrapping.
pub open spec fn bump64(x: u64) -> u64 {
    if x == u64::MAX {
        x
    } else {
        (x + 1) as u64
    }
}

pub(crate) fn bump(x: u64) -> (r: u64)
    ensures
        r == bump64(x),
{
    if x < u64::MAX {
        x + 1
    } else {
        x
    }
}

pub open spec fn sat_add_usize(a: usize, b: nat) -> usize {
    if a + b > usize::MAX {
        usize::MAX
    } else {
        (a + b) as usize
    }
}

/// Three u64 values added, saturating at the top.
pub open spec fn sat_add_u64_3(a: int, b: int, c: int) -> int {
    if a + b + c > u64::MAX {
        u64::MAX as int
    } else {
        a + b + c
    }
}

pub open spec fn sat_sub_usize(a: usize, b: nat) -> usize {
    if a >= b {
        (a - b) as usize
    } else {
        0
    }
}

/// Time elapsed since `start`, by the trusted clock; 0 if it went back.
pub(crate) fn op_elapsed(start: u64) -> u64 {
    let end = now_micros();
    if end >= start {
        end - start
    } else {
        0
    }
}

/// Elapsed time between two clock readings, or 0 if the clock went back.
fn elapsed(start: u64, end: u64) -> (r: u64) {
    if end >= start {
        end - start
    } else {
        0
    }
}

/// The ring and high-water mark after one event is appended to a ring of
/// the given capacity: the oldest entry is dropped when the ring is full.
pub open spec fn ring_after(
    evs: Seq<ChangeEventView>,
    hi: u64,
    cap: nat,
    ev: ChangeEventView,
) -> (Seq<ChangeEventView>, u64) {
    let all = evs.push(ev);
    if all.len() <= cap {
        (all, hi)
    } else {
        (all.skip(1), all[0].version)
    }
}

/// Append one event to the change ring, dropping the oldest entry when
/// the ring is at capacity.
fn ring_push(events: &mut Vec<ChangeEvent>, dropped_hi: &mut u64, cap: usize, ev: ChangeEvent)
    requires
        old(events)@.len() <= cap,
    ensures
        ({
            let after = ring_after(
                old(events)@.map_values(|e: ChangeEvent| e@),
                *old(dropped_hi),
                cap as nat,
                ev@,
            );
            final(events)@.map_values(|e: ChangeEvent| e@) == after.0 && *final(dropped_hi)
                == after.1 && final(events)@.len() <= cap
        }),
{
    let ghost pre = events@.map_values(|e: ChangeEvent| e@);
    let ghost evg = ev@;
    events.push(ev);
    proof {
        assert(events@.map_values(|e: ChangeEvent| e@) =~= pre.push(evg));
    }
    if events.len() > cap {
        let ghost mid = events@.map_values(|e: ChangeEvent| e@);
        let first = events.remove(0);
        proof {
            assert(first@ == mid[0]);
            assert(events@.map_values(|e: ChangeEvent| e@) =~= mid.skip(1));
        }
        *dropped_hi = first.version;
    }
}

/// Store throughput and latency counters.
#[derive(Clone, Copy, Debug, PartialEq, Eq, Structural)]
pub struct StoreMetrics {
    pub operations: u64,
    pub reads: u64,
    pub writes: u64,
    pub deletes: u64,
    pub lists: u64,
    pub watches: u64,
    pub avg_latency: u64,
    pub peak_memory: usize,
    pub compression_ratio: u64,
}

impl StoreMetrics {
    pub open spec fn zero() -> StoreMetrics {
        StoreMetrics {
            operations: 0,
            reads: 0,
            writes: 0,
            deletes: 0,
            lists: 0,
            watches: 0,
            avg_latency: 0,
            peak_memory: 0,
            compression_ratio: 0,
        }
    }
}

/// The moving average the store keeps of operation latency: seven parts
/// history, one part the new sample.
pub open spec fn moving_avg(avg: u64, sample: u64) -> u64 {
    (((avg * 7) + sample) / 8) as u64
}

/// Eight little-endian bytes of a u64.
pub open spec fn u64_le(x: u64) -> Seq<u8> {
    seq![
        (x & 0xff) as u8,
        ((x >> 8) & 0xff) as u8,
        ((x >> 16) & 0xff) as u8,
        ((x >> 24) & 0xff) as u8,
        ((x >> 32) & 0xff) as u8,
        ((x >> 40) & 0xff) as u8,
        ((x >> 48) & 0xff) as u8,
        ((x >> 56) & 0xff) as u8,
    ]
}

/// The u64 whose little-endian bytes sit at `off`.
pub open spec fn le_u64_at(s: Seq<u8>, off: int) -> u64 {
    (s[off] + s[off + 1] * 0x100 + s[off + 2] * 0x10000 + s[off + 3] * 0x1000000 + s[off + 4]
        * 0x100000000 + s[off + 5] * 0x10000000000 + s[off + 6] * 0x1000000000000 + s[off + 7]
        * 0x100000000000000) as u64
}

/// Reading the eight little-endian bytes of a u64 yields the u64 back.
pub proof fn lemma_u64_le_round_trip(x: u64, s: Seq<u8>, off: int)
    requires
        0 <= off,
        off + 8 <= s.len(),
        s.subrange(off, off + 8) == u64_le(x),
    ensures
        le_u64_at(s, off) == x,
{
    assert(s.subrange(off, off + 8)[0] == s[off]);
    assert(s.subrange(off, off + 8)[1] == s[off + 1]);
    assert(s.subrange(off, off + 8)[2] == s[off + 2]);
    assert(s.subrange(off, off + 8)[3] == s[off + 3]);
    assert(s.subrange(off, off + 8)[4] == s[off + 4]);
    assert(s.subrange(off, off + 8)[5] == s[off + 5]);
    assert(s.subrange(off, off + 8)[6] == s[off + 6]);
    assert(s.subrange(off, off + 8)[7] == s[off + 7]);
    assert(x & 0xff < 256 && (x >> 8) & 0xff < 256 && (x >> 16) & 0xff < 256 && (x >> 24) & 0xff
        < 256 && (x >> 32) & 0xff < 256 && (x >> 40) & 0xff < 256 && (x >> 48) & 0xff < 256 && (x
        >> 56) & 0xff < 256) by (bit_vector);
    assert(s[off] == (x & 0xff) as u8);
    assert(s[off + 1] == ((x >> 8) & 0xff) as u8);
    assert(s[off + 2] == ((x >> 16) & 0xff) as u8);
    assert(s[off + 3] == ((x >> 24) & 0xff) as u8);
    assert(s[off + 4] == ((x >> 32) & 0xff) as u8);
    assert(s[off + 5] == ((x >> 40) & 0xff) as u8);
    assert(s[off + 6] == ((x >> 48) & 0xff) as u8);
    assert(s[off + 7] == ((x >> 56) & 0xff) as u8);
    assert(((x & 0xff) + ((x >> 8) & 0xff) * 0x100 + ((x >> 16) & 0xff) * 0x10000 + ((x >> 24)
        & 0xff) * 0x1000000 + ((x >> 32) & 0xff) * 0x100000000 + ((x >> 40) & 0xff)
        * 0x10000000000 + ((x >> 48) & 0xff) * 0x1000000000000 + ((x >> 56) & 0xff)
        * 0x100000000000000) as u64 == x) by (bit_vector);
}

/// A snapshot's header decodes back to the version counter and record
/// count it was taken with: what create_snapshot writes, restore_snapshot
/// reads. The digest width comes from the digest wrapper's contract.
pub proof fn lemma_snapshot_header_round_trip(revision: u64, rs: Seq<StoredRecord>)
    requires
        digest_of(snap_body(revision, rs)).len() == 32,
        rs.len() <= u64::MAX,
    ensures
        le_u64_at(snap_encode(revision, rs).skip(32), 0) == revision,
        le_u64_at(snap_encode(revision, rs).skip(32), 8) == rs.len() as u64,
{
    let body = snap_body(revision, rs);
    let whole = snap_encode(revision, rs);
    assert(whole.skip(32) =~= body);
    assert(body.subrange(0, 8) =~= u64_le(revision));
    assert(body.subrange(8, 16) =~= u64_le(rs.len() as u64));
    lemma_u64_le_round_trip(revision, body, 0);
    lemma_u64_le_round_trip(rs.len() as u64, body, 8);
}

/// A length-prefixed byte run.
pub open spec fn enc_bytes(b: Seq<u8>) -> Seq<u8> {
    u64_le(b.len() as u64) + b
}

/// An optional namespace: a presence byte, then the bytes when present.
pub open spec fn enc_ns(ns: Option<String>) -> Seq<u8> {
    match ns {
        Some(s) => seq![1u8] + enc_bytes(vstd::utf8::encode_utf8(s@)),
        None => seq![0u8],
    }
}

/// The label pairs, each key and value length-prefixed.
pub open spec fn enc_labels(labels: Seq<(String, String)>) -> Seq<u8>
    decreases labels.len(),
{
    if labels.len() == 0 {
        Seq::empty()
    } else {
        enc_labels(labels.drop_last()) + enc_bytes(vstd::utf8::encode_utf8(labels.last().0@))
            + enc_bytes(vstd::utf8::encode_utf8(labels.last().1@))
    }
}

/// One record: kind, key, namespace, labels and uncompressed payload.
pub open spec fn enc_rec(r: StoredRecord) -> Seq<u8> {
    enc_bytes(vstd::utf8::encode_utf8(r.kind@)) + enc_bytes(vstd::utf8::encode_utf8(r.key@)) + enc_ns(r.metadata.namespace)
        + u64_le(r.metadata.labels@.len() as u64) + enc_labels(r.metadata.labels@) + enc_bytes(
        r.payload@,
    )
}

/// The records in table order.
pub open spec fn enc_recs(rs: Seq<StoredRecord>) -> Seq<u8>
    decreases rs.len(),
{
    if rs.len() == 0 {
        Seq::empty()
    } else {
        enc_recs(rs.drop_last()) + enc_rec(rs.last())
    }
}

/// The records' encoding read front to back; equal to `enc_recs`.
pub open spec fn enc_recs_tail(rs: Seq<StoredRecord>) -> Seq<u8>
    decreases rs.len(),
{
    if rs.len() == 0 {
        Seq::empty()
    } else {
        enc_rec(rs[0]) + enc_recs_tail(rs.skip(1))
    }
}

proof fn lemma_enc_recs_tail_push(q: Seq<StoredRecord>, x: StoredRecord)
    ensures
        enc_recs_tail(q.push(x)) == enc_recs_tail(q) + enc_rec(x),
    decreases q.len(),
{
    let s1 = q.push(x);
    if q.len() == 0 {
        assert(s1[0] == x);
        assert(s1.skip(1) =~= Seq::<StoredRecord>::empty());
        assert(enc_recs_tail(s1) == enc_rec(x) + enc_recs_tail(s1.skip(1)));
        assert(enc_recs_tail(s1.skip(1)) == Seq::<u8>::empty());
        assert(enc_recs_tail(q) == Seq::<u8>::empty());
        assert(enc_rec(x) + Seq::<u8>::empty() =~= Seq::<u8>::empty() + enc_rec(x));
    } else {
        assert(s1[0] == q[0]);
        assert(s1.skip(1) =~= q.skip(1).push(x));
        lemma_enc_recs_tail_push(q.skip(1), x);
        assert(enc_recs_tail(s1) == enc_rec(q[0]) + (enc_recs_tail(q.skip(1)) + enc_rec(x)));
        assert(enc_rec(q[0]) + (enc_recs_tail(q.skip(1)) + enc_rec(x)) =~= (enc_rec(q[0])
            + enc_recs_tail(q.skip(1))) + enc_rec(x));
    }
}

/// Reading the record encoding front to back or back to front is the
/// same bytes.
pub proof fn lemma_enc_recs_tail_eq(rs: Seq<StoredRecord>)
    ensures
        enc_recs_tail(rs) == enc_recs(rs),
    decreases rs.len(),
{
    if rs.len() == 0 {
        assert(enc_recs_tail(rs) =~= enc_recs(rs));
    } else {
        let q = rs.drop_last();
        let x = rs.last();
        assert(rs =~= q.push(x));
        lemma_enc_recs_tail_push(q, x);
        lemma_enc_recs_tail_eq(q);
    }
}

/// The label encoding read front to back; equal to `enc_labels`.
pub open spec fn enc_labels_tail(l: Seq<(String, String)>) -> Seq<u8>
    decreases l.len(),
{
    if l.len() == 0 {
        Seq::empty()
    } else {
        (enc_bytes(vstd::utf8::encode_utf8(l[0].0@)) + enc_bytes(vstd::utf8::encode_utf8(l[0].1@)))
            + enc_labels_tail(l.skip(1))
    }
}

proof fn lemma_enc_labels_tail_push(q: Seq<(String, String)>, x: (String, String))
    ensures
        enc_labels_tail(q.push(x)) == enc_labels_tail(q) + (enc_bytes(
            vstd::utf8::encode_utf8(x.0@),
        ) + enc_bytes(vstd::utf8::encode_utf8(x.1@))),
    decreases q.len(),
{
    let s1 = q.push(x);
    let ex = enc_bytes(vstd::utf8::encode_utf8(x.0@)) + enc_bytes(vstd::utf8::encode_utf8(x.1@));
    if q.len() == 0 {
        assert(s1[0] == x);
        assert(s1.skip(1) =~= Seq::<(String, String)>::empty());
        assert(enc_labels_tail(s1) == ex + enc_labels_tail(s1.skip(1)));
        assert(enc_labels_tail(s1.skip(1)) == Seq::<u8>::empty());
        assert(enc_labels_tail(q) == Seq::<u8>::empty());
        assert(ex + Seq::<u8>::empty() =~= Seq::<u8>::empty() + ex);
    } else {
        assert(s1[0] == q[0]);
        assert(s1.skip(1) =~= q.skip(1).push(x));
        lemma_enc_labels_tail_push(q.skip(1), x);
        let e0 = enc_bytes(vstd::utf8::encode_utf8(q[0].0@)) + enc_bytes(
            vstd::utf8::encode_utf8(q[0].1@),
        );
        assert(enc_labels_tail(s1) == e0 + (enc_labels_tail(q.skip(1)) + ex));
        assert(e0 + (enc_labels_tail(q.skip(1)) + ex) =~= (e0 + enc_labels_tail(q.skip(1))) + ex);
    }
}

proof fn lemma_enc_labels_tail_eq(l: Seq<(String, String)>)
    ensures
        enc_labels_tail(l) == enc_labels(l),
    decreases l.len(),
{
    if l.len() == 0 {
        assert(enc_labels_tail(l) =~= enc_labels(l));
    } else {
        let q = l.drop_last();
        let x = l.last();
        assert(l =~= q.push(x));
        lemma_enc_labels_tail_push(q, x);
        lemma_enc_labels_tail_eq(q);
        assert(enc_labels(l) == enc_labels(q) + enc_bytes(vstd::utf8::encode_utf8(x.0@))
            + enc_bytes(vstd::utf8::encode_utf8(x.1@)));
        assert(enc_labels_tail(q) + (enc_bytes(vstd::utf8::encode_utf8(x.0@)) + enc_bytes(
            vstd::utf8::encode_utf8(x.1@),
        )) =~= enc_labels(q) + enc_bytes(vstd::utf8::encode_utf8(x.0@)) + enc_bytes(
            vstd::utf8::encode_utf8(x.1@),
        ));
    }
}

/// The label pairs as views.
pub open spec fn labels_view(l: Seq<(String, String)>) -> Seq<(Seq<char>, Seq<char>)> {
    l.map_values(|p: (String, String)| (p.0@, p.1@))
}

/// Whether two records agree on everything a snapshot carries: kind, key,
/// namespace, labels and payload.
pub open spec fn rec_projection_eq(a: StoredRecord, b: StoredRecord) -> bool {
    &&& a.kind@ == b.kind@
    &&& a.key@ == b.key@
    &&& TeeMemoryStore::rec_ns(a) == TeeMemoryStore::rec_ns(b)
    &&& labels_view(a.metadata.labels@) == labels_view(b.metadata.labels@)
    &&& a.payload@ == b.payload@
}

/// What a snapshot blob must be for restore to owe success: the encoding
/// of a record list with unique keys whose payloads fit the restoring
/// store's limit. The digest width comes from the digest wrapper.
pub open spec fn snap_pre_image(
    snapshot: Seq<u8>,
    cfg: StoreConfig,
    rev: u64,
    rs: Seq<StoredRecord>,
) -> bool {
    &&& snapshot == snap_encode(rev, rs)
    &&& digest_of(snap_body(rev, rs)).len() == 32
    &&& recs_keys_unique(rs)
    &&& rs.len() < u64::MAX
    &&& forall|i: int| 0 <= i < rs.len() ==> (#[trigger] rs[i]).payload@.len() <= cfg.memory_limit
}

/// If the bytes from `off` start with a length-prefixed run `b`, the
/// eight-byte header at `off` carries its length, the run follows, and
/// the rest begins right after.
proof fn lemma_chunk_layout(s: Seq<u8>, off: int, b: Seq<u8>, rest: Seq<u8>)
    requires
        0 <= off <= s.len(),
        s.len() <= usize::MAX,
        s.skip(off) == enc_bytes(b) + rest,
    ensures
        b.len() <= u64::MAX,
        off + 8 + b.len() <= s.len(),
        le_u64_at(s, off) as int == b.len(),
        s.subrange(off + 8, off + 8 + b.len()) == b,
        s.skip(off + 8 + b.len()) == rest,
{
    let tri = u64_le(b.len() as u64) + (b + rest);
    assert(s.skip(off) =~= tri);
    assert(s.skip(off).len() == s.len() - off);
    assert(tri.len() == 8 + b.len() + rest.len());
    assert(b.len() <= s.len());
    assert(s.subrange(off, off + 8) =~= u64_le(b.len() as u64)) by {
        assert forall|j: int| 0 <= j < 8 implies #[trigger] s.subrange(off, off + 8)[j] == u64_le(
            b.len() as u64,
        )[j] by {
            assert(s.subrange(off, off + 8)[j] == s[off + j]);
            assert(s.skip(off)[j] == s[off + j]);
            assert(tri[j] == u64_le(b.len() as u64)[j]);
        }
    }
    lemma_u64_le_round_trip(b.len() as u64, s, off);
    assert(s.subrange(off + 8, off + 8 + b.len()) =~= b) by {
        assert forall|j: int| 0 <= j < b.len() implies s.subrange(off + 8, off + 8 + b.len())[j]
            == b[j] by {
            assert(s.subrange(off + 8, off + 8 + b.len())[j] == s[off + 8 + j]);
            assert(s.skip(off)[8 + j] == s[off + 8 + j]);
            assert(tri[8 + j] == (b + rest)[j]);
            assert((b + rest)[j] == b[j]);
        }
    }
    assert(s.skip(off + 8 + b.len()) =~= rest) by {
        assert forall|j: int| 0 <= j < rest.len() implies s.skip(off + 8 + b.len())[j]
            == rest[j] by {
            assert(s.skip(off + 8 + b.len())[j] == s[off + 8 + b.len() + j]);
            assert(s.skip(off)[8 + b.len() + j] == s[off + 8 + b.len() + j]);
            assert(tri[8 + b.len() + j] == (b + rest)[b.len() + j]);
            assert((b + rest)[b.len() + j] == rest[j]);
        }
    }
}

/// If the bytes from `off` start with the little-endian form of `x`, the
/// header decodes to `x` and the rest begins right after.
proof fn lemma_u64_field_layout(s: Seq<u8>, off: int, x: u64, rest: Seq<u8>)
    requires
        0 <= off <= s.len(),
        s.skip(off) == u64_le(x) + rest,
    ensures
        off + 8 <= s.len(),
        le_u64_at(s, off) == x,
        s.skip(off + 8) == rest,
{
    let duo = u64_le(x) + rest;
    assert(s.skip(off).len() == s.len() - off);
    assert(duo.len() == 8 + rest.len());
    assert(s.subrange(off, off + 8) =~= u64_le(x)) by {
        assert forall|j: int| 0 <= j < 8 implies #[trigger] s.subrange(off, off + 8)[j] == u64_le(
            x,
        )[j] by {
            assert(s.subrange(off, off + 8)[j] == s[off + j]);
            assert(s.skip(off)[j] == s[off + j]);
            assert(duo[j] == u64_le(x)[j]);
        }
    }
    lemma_u64_le_round_trip(x, s, off);
    assert(s.skip(off + 8) =~= rest) by {
        assert forall|j: int| 0 <= j < rest.len() implies s.skip(off + 8)[j] == rest[j] by {
            assert(s.skip(off + 8)[j] == s[off + 8 + j]);
            assert(s.skip(off)[8 + j] == s[off + 8 + j]);
            assert(duo[8 + j] == rest[j]);
        }
    }
}

/// Each label pair takes at least sixteen encoded bytes.
proof fn lemma_enc_labels_tail_len(l: Seq<(String, String)>)
    ensures
        enc_labels_tail(l).len() >= 16 * l.len(),
    decreases l.len(),
{
    if l.len() > 0 {
        lemma_enc_labels_tail_len(l.skip(1));
    }
}

/// One record parsed out of a snapshot body.
struct ParsedRecord {
    kind: String,
    key: String,
    namespace: Option<String>,
    labels: Vec<(String, String)>,
    payload: Vec<u8>,
}

/// Whether the parsed fields carry a record's snapshot projections.
spec fn parsed_matches(p: ParsedRecord, r2: StoredRecord) -> bool {
    &&& p.kind@ == r2.kind@
    &&& p.key@ == r2.key@
    &&& (match (p.namespace, r2.metadata.namespace) {
        (Some(a), Some(b)) => a@ == b@,
        (None, None) => true,
        _ => false,
    })
    &&& labels_view(p.labels@) == labels_view(r2.metadata.labels@)
    &&& p.payload@ == r2.payload@
}

/// The snapshot body: version counter, record count, records.

pub open spec fn snap_body(revision: u64, rs: Seq<StoredRecord>) -> Seq<u8> {
    u64_le(revision) + u64_le(rs.len() as u64) + enc_recs(rs)
}

/// A whole snapshot: a digest over the body, then the body.
pub open spec fn snap_encode(revision: u64, rs: Seq<StoredRecord>) -> Seq<u8> {
    digest_of(snap_body(revision, rs)) + snap_body(revision, rs)
}

/// Write a u64 in little-endian order.
fn push_u64_le(out: &mut Vec<u8>, x: u64)
    ensures
        final(out)@ == old(out)@ + u64_le(x),
{
    let ghost pre = out@;
    out.push((x & 0xff) as u8);
    out.push(((x >> 8) & 0xff) as u8);
    out.push(((x >> 16) & 0xff) as u8);
    out.push(((x >> 24) & 0xff) as u8);
    out.push(((x >> 32) & 0xff) as u8);
    out.push(((x >> 40) & 0xff) as u8);
    out.push(((x >> 48) & 0xff) as u8);
    out.push(((x >> 56) & 0xff) as u8);
    proof {
        assert(out@ =~= pre + u64_le(x));
    }
}

/// The in-memory resource store.
pub struct TeeMemoryStore {
    /// Live records, in ascending version order.
    pub objects: Vec<StoredRecord>,
    /// Namespace index: groups are (kind, namespace, "").
    pub ns_index: Vec<IndexEntry>,
    /// Label index: groups are (kind, label key, label value).
    pub label_index: Vec<IndexEntry>,
    /// The change ring, in ascending version order.
    pub events: Vec<ChangeEvent>,
    /// The highest version of an event dropped off the ring; 0 when none.
    pub dropped_hi: u64,
    /// The next version the counter will assign.
    pub revision: u64,
    /// Bytes held, as tracked on writes and deletes.
    pub memory_usage: usize,
    pub metrics: StoreMetrics,
    pub config: StoreConfig,
}

/// Whether the record sequence holds a live record under (kind, key).
pub open spec fn recs_has(rs: Seq<StoredRecord>, kind: Seq<char>, key: Seq<char>) -> bool {
    exists|i: int| 0 <= i < rs.len() && rs[i].kind@ == kind && rs[i].key@ == key
}

pub open spec fn recs_idx(rs: Seq<StoredRecord>, kind: Seq<char>, key: Seq<char>) -> int {
    choose|i: int| 0 <= i < rs.len() && rs[i].kind@ == kind && rs[i].key@ == key
}

/// The live record under (kind, key); meaningful when `recs_has`.
pub open spec fn recs_at(rs: Seq<StoredRecord>, kind: Seq<char>, key: Seq<char>) -> StoredRecord {
    rs[recs_idx(rs, kind, key)]
}

pub open spec fn recs_keys_unique(rs: Seq<StoredRecord>) -> bool {
    forall|i: int, j: int|
        0 <= i < j < rs.len() ==> !(rs[i].kind@ == rs[j].kind@ && rs[i].key@ == rs[j].key@)
}

/// Appending a record under a fresh key keeps every other record in
/// place and makes the new one the record under its key.
proof fn lemma_recs_push(rs: Seq<StoredRecord>, nr: StoredRecord)
    requires
        recs_keys_unique(rs),
        !recs_has(rs, nr.kind@, nr.key@),
    ensures
        forall|g: Seq<char>, k: Seq<char>|
            #[trigger] recs_has(rs.push(nr), g, k) <==> (recs_has(rs, g, k) || (g == nr.kind@ && k
                == nr.key@)),
        forall|g: Seq<char>, k: Seq<char>|
            recs_has(rs, g, k) ==> #[trigger] recs_at(rs.push(nr), g, k) == recs_at(rs, g, k),
        recs_at(rs.push(nr), nr.kind@, nr.key@) == nr,
        recs_keys_unique(rs.push(nr)),
{
    let rs1 = rs.push(nr);
    assert forall|g: Seq<char>, k: Seq<char>| #[trigger] recs_has(rs1, g, k) <==> (recs_has(
        rs,
        g,
        k,
    ) || (g == nr.kind@ && k == nr.key@)) by {
        if recs_has(rs1, g, k) {
            let i = choose|i: int| 0 <= i < rs1.len() && rs1[i].kind@ == g && rs1[i].key@ == k;
            if i < rs.len() {
                assert(rs[i] == rs1[i]);
                assert(recs_has(rs, g, k));
            }
        }
        if recs_has(rs, g, k) {
            let i = choose|i: int| 0 <= i < rs.len() && rs[i].kind@ == g && rs[i].key@ == k;
            assert(rs1[i] == rs[i]);
            assert(recs_has(rs1, g, k));
        }
        if g == nr.kind@ && k == nr.key@ {
            assert(rs1[rs.len() as int] == nr);
            assert(recs_has(rs1, g, k));
        }
    }
    assert forall|g: Seq<char>, k: Seq<char>| recs_has(rs, g, k) implies #[trigger] recs_at(
        rs1,
        g,
        k,
    ) == recs_at(rs, g, k) by {
        let i = recs_idx(rs, g, k);
        assert(0 <= i < rs.len() && rs[i].kind@ == g && rs[i].key@ == k);
        assert(rs1[i] == rs[i]);
        assert(recs_has(rs1, g, k));
        let j = recs_idx(rs1, g, k);
        assert(0 <= j < rs1.len() && rs1[j].kind@ == g && rs1[j].key@ == k);
        if j == rs.len() as int {
            assert(!recs_has(rs, nr.kind@, nr.key@));
            assert(false);
        }
        assert(rs1[j] == rs[j]);
        if i != j {
            assert(!(rs[i].kind@ == rs[j].kind@ && rs[i].key@ == rs[j].key@));
            assert(false);
        }
    }
    assert(recs_has(rs1, nr.kind@, nr.key@)) by {
        assert(rs1[rs.len() as int] == nr);
    }
    let j = recs_idx(rs1, nr.kind@, nr.key@);
    if j < rs.len() {
        assert(rs[j] == rs1[j]);
        assert(recs_has(rs, nr.kind@, nr.key@));
        assert(false);
    }
    assert(recs_at(rs1, nr.kind@, nr.key@) == nr);
}

/// Removing the record at `i` keeps every other record in place.
proof fn lemma_recs_remove(rs: Seq<StoredRecord>, i: int)
    requires
        recs_keys_unique(rs),
        0 <= i < rs.len(),
    ensures
        forall|g: Seq<char>, k: Seq<char>|
            #[trigger] recs_has(rs.remove(i), g, k) <==> (recs_has(rs, g, k) && !(g == rs[i].kind@
                && k == rs[i].key@)),
        forall|g: Seq<char>, k: Seq<char>|
            recs_has(rs.remove(i), g, k) ==> #[trigger] recs_at(rs.remove(i), g, k) == recs_at(
                rs,
                g,
                k,
            ),
        recs_keys_unique(rs.remove(i)),
{
    let rs1 = rs.remove(i);
    assert forall|g: Seq<char>, k: Seq<char>| #[trigger] recs_has(rs1, g, k) <==> (recs_has(
        rs,
        g,
        k,
    ) && !(g == rs[i].kind@ && k == rs[i].key@)) by {
        if recs_has(rs1, g, k) {
            let j = choose|j: int| 0 <= j < rs1.len() && rs1[j].kind@ == g && rs1[j].key@ == k;
            let j0 = if j < i { j } else { j + 1 };
            assert(rs1[j] == rs[j0]);
            assert(recs_has(rs, g, k));
            if g == rs[i].kind@ && k == rs[i].key@ {
                assert(!(rs[j0].kind@ == rs[i].kind@ && rs[j0].key@ == rs[i].key@));
                assert(false);
            }
        }
        if recs_has(rs, g, k) && !(g == rs[i].kind@ && k == rs[i].key@) {
            let j0 = choose|j0: int| 0 <= j0 < rs.len() && rs[j0].kind@ == g && rs[j0].key@ == k;
            let j = if j0 < i { j0 } else { j0 - 1 };
            assert(j0 != i);
            assert(rs1[j] == rs[j0]);
            assert(recs_has(rs1, g, k));
        }
    }
    assert forall|g: Seq<char>, k: Seq<char>| recs_has(rs1, g, k) implies #[trigger] recs_at(
        rs1,
        g,
        k,
    ) == recs_at(rs, g, k) by {
        let j = recs_idx(rs1, g, k);
        assert(0 <= j < rs1.len() && rs1[j].kind@ == g && rs1[j].key@ == k);
        let j0 = if j < i { j } else { j + 1 };
        assert(rs1[j] == rs[j0]);
        assert(recs_has(rs, g, k));
        let m = recs_idx(rs, g, k);
        assert(0 <= m < rs.len() && rs[m].kind@ == g && rs[m].key@ == k);
        if m != j0 {
            assert(!(rs[m].kind@ == rs[j0].kind@ && rs[m].key@ == rs[j0].key@));
            assert(false);
        }
    }
    assert forall|a: int, b: int| 0 <= a < b < rs1.len() implies !(rs1[a].kind@ == rs1[b].kind@
        && rs1[a].key@ == rs1[b].key@) by {
        let a0 = if a < i { a } else { a + 1 };
        let b0 = if b < i { b } else { b + 1 };
        assert(rs1[a] == rs[a0] && rs1[b] == rs[b0]);
        assert(a0 < b0);
    }
}

impl TeeMemoryStore {
    pub open spec fn recs(&self) -> Seq<StoredRecord> {
        self.objects@
    }

    pub open spec fn evs(&self) -> Seq<ChangeEventView> {
        self.events@.map_values(|e: ChangeEvent| e@)
    }

    /// The version assigned by the latest mutation; 0 before the first.
    pub open spec fn spec_cluster_version(&self) -> u64 {
        (self.revision - 1) as u64
    }

    pub open spec fn rec_matches(r: StoredRecord, kind: Seq<char>, key: Seq<char>) -> bool {
        r.kind@ == kind && r.key@ == key
    }

    /// Whether a record with this kind and key is live.
    pub open spec fn has_rec(&self, kind: Seq<char>, key: Seq<char>) -> bool {
        recs_has(self.recs(), kind, key)
    }

    pub open spec fn rec_idx(&self, kind: Seq<char>, key: Seq<char>) -> int {
        recs_idx(self.recs(), kind, key)
    }

    /// The live record under (kind, key); meaningful when `has_rec`.
    pub open spec fn rec_at(&self, kind: Seq<char>, key: Seq<char>) -> StoredRecord {
        recs_at(self.recs(), kind, key)
    }

    /// The uncompressed payload under (kind, key); meaningful when `has_rec`.
    pub open spec fn payload_at(&self, kind: Seq<char>, key: Seq<char>) -> Seq<u8> {
        self.rec_at(kind, key).payload@
    }

    /// The version under (kind, key); meaningful when `has_rec`.
    pub open spec fn version_at(&self, kind: Seq<char>, key: Seq<char>) -> u64 {
        self.rec_at(kind, key).resource_version
    }

    /// A record is well formed when its stored bytes, digest and size all
    /// agree with the uncompressed payload.
    pub open spec fn rec_wf(r: StoredRecord) -> bool {
        &&& if r.compressed {
            r.stored@ == compress_of(r.payload@)
        } else {
            r.stored@ == r.payload@
        }
        &&& r.metadata.checksum@ == digest_of(r.payload@)
        &&& r.metadata.size == r.payload@.len()
        &&& r.metadata.kind@ == r.kind@
        &&& r.resource_version >= 1
    }

    pub open spec fn keys_unique(&self) -> bool {
        recs_keys_unique(self.recs())
    }

    /// The namespace of a record, as the index files it.
    pub open spec fn rec_ns(r: StoredRecord) -> Option<Seq<char>> {
        match r.metadata.namespace {
            Some(ns) => Some(ns@),
            None => None,
        }
    }

    /// The namespace index lists `key` under (kind, ns) exactly when a
    /// live record of that kind and key carries namespace `ns`.
    pub open spec fn ns_index_coherent(&self) -> bool {
        forall|kind: Seq<char>, ns: Seq<char>, key: Seq<char>|
            #[trigger] idx_has(self.ns_index@, kind, ns, Seq::<char>::empty(), key) <==> (
            self.has_rec(kind, key) && Self::rec_ns(self.rec_at(kind, key)) == Some(ns))
    }

    /// The label index lists `key` under (kind, lk, lv) exactly when a
    /// live record of that kind and key carries the label binding lk = lv.
    pub open spec fn label_index_coherent(&self) -> bool {
        forall|kind: Seq<char>, lk: Seq<char>, lv: Seq<char>, key: Seq<char>|
            #[trigger] idx_has(self.label_index@, kind, lk, lv, key) <==> (self.has_rec(kind, key)
                && assoc_lookup(self.rec_at(kind, key).metadata.labels@, lk) == Some(lv))
    }

    /// The store invariant. Constructors establish it and every verb
    /// preserves it.
    pub open spec fn wf(&self) -> bool {
        &&& self.revision >= 1
        &&& forall|i: int, j: int|
            0 <= i < j < self.recs().len() ==> self.recs()[i].resource_version
                < self.recs()[j].resource_version
        &&& forall|i: int|
            0 <= i < self.recs().len() ==> #[trigger] Self::rec_wf(self.recs()[i])
                && self.recs()[i].resource_version < self.revision
        &&& self.keys_unique()
        &&& forall|i: int, j: int|
            0 <= i < j < self.evs().len() ==> self.evs()[i].version < self.evs()[j].version
        &&& forall|i: int|
            0 <= i < self.evs().len() ==> 1 <= #[trigger] self.evs()[i].version < self.revision
                && self.evs()[i].version > self.dropped_hi
        &&& self.evs().len() <= self.config.change_ring_capacity
        &&& self.dropped_hi < self.revision
        &&& self.ns_index_coherent()
        &&& self.label_index_coherent()
    }

    /// Everything but the metrics is unchanged.
    pub open spec fn same_data(a: TeeMemoryStore, b: TeeMemoryStore) -> bool {
        &&& a.objects == b.objects
        &&& a.ns_index == b.ns_index
        &&& a.label_index == b.label_index
        &&& a.events == b.events
        &&& a.dropped_hi == b.dropped_hi
        &&& a.revision == b.revision
        &&& a.memory_usage == b.memory_usage
        &&& a.config == b.config
    }

    /// Well-formedness depends only on the data fields, not the metrics.
    pub proof fn lemma_wf_same_data(a: TeeMemoryStore, b: TeeMemoryStore)
        requires
            a.wf(),
            Self::same_data(a, b),
        ensures
            b.wf(),
    {
        assert(b.recs() == a.recs());
        assert(b.evs() == a.evs());
        assert(b.ns_index@ == a.ns_index@);
        assert(b.label_index@ == a.label_index@);
        assert forall|i: int| 0 <= i < b.recs().len() implies #[trigger] Self::rec_wf(b.recs()[i])
            && b.recs()[i].resource_version < b.revision by {
            assert(Self::rec_wf(a.recs()[i]));
            assert(a.recs()[i].resource_version < a.revision);
        }
        assert(b.ns_index_coherent()) by {
            assert forall|kind: Seq<char>, ns: Seq<char>, key: Seq<char>|
                #[trigger] idx_has(b.ns_index@, kind, ns, Seq::<char>::empty(), key) <==> (
            b.has_rec(kind, key) && Self::rec_ns(b.rec_at(kind, key)) == Some(ns)) by {
                assert(idx_has(a.ns_index@, kind, ns, Seq::<char>::empty(), key) <==> (a.has_rec(
                    kind,
                    key,
                ) && Self::rec_ns(a.rec_at(kind, key)) == Some(ns)));
            }
        }
        assert(b.label_index_coherent()) by {
            assert forall|kind: Seq<char>, lk: Seq<char>, lv: Seq<char>, key: Seq<char>|
                #[trigger] idx_has(b.label_index@, kind, lk, lv, key) <==> (b.has_rec(kind, key)
                && assoc_lookup(b.rec_at(kind, key).metadata.labels@, lk) == Some(lv)) by {
                assert(idx_has(a.label_index@, kind, lk, lv, key) <==> (a.has_rec(kind, key)
                    && assoc_lookup(a.rec_at(kind, key).metadata.labels@, lk) == Some(lv)));
            }
        }
    }

    /// Create a store with the default configuration.
    pub fn new() -> (r: Self)
        ensures
            r.wf(),
            r.recs().len() == 0,
            r.evs().len() == 0,
            r.ns_index@.len() == 0,
            r.label_index@.len() == 0,
            r.revision == 1,
            r.dropped_hi == 0,
            r.memory_usage == 0,
            r.metrics == StoreMetrics::zero(),
            r.config.max_objects == 100000,
            r.config.compression_threshold == 1024,
            r.config.memory_limit == 2000000000,
            r.config.integrity_check == true,
            r.config.batch_size == 1000,
            r.config.change_ring_capacity == 1024,
    {
        Self::with_config(StoreConfig::default())
    }

    /// Create a store with the given configuration.
    pub fn with_config(config: StoreConfig) -> (r: Self)
        ensures
            r.wf(),
            r.recs().len() == 0,
            r.evs().len() == 0,
            r.ns_index@.len() == 0,
            r.label_index@.len() == 0,
            r.revision == 1,
            r.dropped_hi == 0,
            r.memory_usage == 0,
            r.metrics == StoreMetrics::zero(),
            r.config == config,
    {
        let r = TeeMemoryStore {
            objects: Vec::new(),
            ns_index: Vec::new(),
            label_index: Vec::new(),
            events: Vec::new(),
            dropped_hi: 0,
            revision: 1,
            memory_usage: 0,
            metrics: StoreMetrics {
                operations: 0,
                reads: 0,
                writes: 0,
                deletes: 0,
                lists: 0,
                watches: 0,
                avg_latency: 0,
                peak_memory: 0,
                compression_ratio: 0,
            },
            config,
        };
        proof {
            assert(r.evs() =~= Seq::<ChangeEventView>::empty());
        }
        r
    }

    /// Seconds since the Unix epoch, from the trusted clock.
    pub fn current_timestamp(&self) -> u64 {
        now_micros() / 1000000
    }

    /// Fold one latency sample into the moving average.
    fn update_avg_latency(&mut self, latency: u64)
        ensures
            final(self).metrics.avg_latency == moving_avg(old(self).metrics.avg_latency, latency),
            final(self).metrics == (StoreMetrics {
                avg_latency: final(self).metrics.avg_latency,
                ..old(self).metrics
            }),
            Self::same_data(*old(self), *final(self)),
    {
        let wide: u128 = (self.metrics.avg_latency as u128) * 7 + (latency as u128);
        let narrow: u64 = (wide / 8) as u64;
        proof {
            assert(wide / 8 <= u64::MAX as u128) by {
                assert(self.metrics.avg_latency <= u64::MAX);
                assert(latency <= u64::MAX);
            }
        }
        self.metrics.avg_latency = narrow;
    }

    /// The index of the live record under (kind, key), if any.
    fn find_record(&self, resource_type: &str, key: &str) -> (r: Option<usize>)
        requires
            self.wf(),
        ensures
            match r {
                Some(i) => i < self.recs().len() && Self::rec_matches(
                    self.recs()[i as int],
                    resource_type@,
                    key@,
                ) && self.has_rec(resource_type@, key@) && self.rec_idx(resource_type@, key@)
                    == i as int,
                None => !self.has_rec(resource_type@, key@),
            },
    {
        let mut i: usize = 0;
        while i < self.objects.len()
            invariant
                self.wf(),
                i <= self.recs().len(),
                forall|j: int|
                    0 <= j < i ==> !Self::rec_matches(self.recs()[j], resource_type@, key@),
            decreases self.recs().len() - i,
        {
            if str_eq(self.objects[i].kind.as_str(), resource_type) && str_eq(
                self.objects[i].key.as_str(),
                key,
            ) {
                proof {
                    assert(Self::rec_matches(self.recs()[i as int], resource_type@, key@));
                    assert forall|j: int|
                        0 <= j < self.recs().len() && Self::rec_matches(
                            self.recs()[j],
                            resource_type@,
                            key@,
                        ) implies j == i as int by {
                        if j != i as int {
                            assert(!(self.recs()[j].kind@ == self.recs()[i as int].kind@
                                && self.recs()[j].key@ == self.recs()[i as int].key@));
                        }
                    }
                }
                return Some(i);
            }
            i = i + 1;
        }
        None
    }

    /// Reconstruct the uncompressed payload of the record at `i`.
    fn payload_bytes(&self, i: usize) -> (r: Vec<u8>)
        requires
            self.wf(),
            i < self.recs().len(),
        ensures
            r@ == self.recs()[i as int].payload@,
    {
        proof {
            assert(Self::rec_wf(self.recs()[i as int]));
        }
        if self.objects[i].compressed {
            let out = lz4_decompress(self.objects[i].stored.as_slice());
            proof {
                let ri = self.recs()[i as int];
                assert(compress_of(ri.payload@) == ri.stored@);
            }
            match out {
                Some(v) => v,
                None => {
                    proof {
                        assert(false);
                    }
                    Vec::new()
                },
            }
        } else {
            slice_to_vec(self.objects[i].stored.as_slice())
        }
    }

    /// What create returns for the given prior state and payload length.
    pub open spec fn create_outcome(
        s: TeeMemoryStore,
        len: nat,
        kind: Seq<char>,
        key: Seq<char>,
    ) -> Result<u64, StoreError> {
        if len > s.config.memory_limit {
            Err(StoreError::TooLarge)
        } else if s.has_rec(kind, key) {
            Err(StoreError::Conflict)
        } else {
            Ok(s.revision)
        }
    }

    /// The change event a successful create appends.
    pub open spec fn created_event(
        s: TeeMemoryStore,
        kind: Seq<char>,
        key: Seq<char>,
        ns: Option<Seq<char>>,
        data: Seq<u8>,
    ) -> ChangeEventView {
        ChangeEventView {
            kind: kind,
            namespace: ns,
            key: key,
            op: ChangeOp::Created,
            version: s.revision,
            old_payload: None,
            new_payload: Some(data),
        }
    }

    /// Metrics after a write: operation and write counters bumped, the
    /// latency average folded, and the memory peak raised to the usage.
    pub open spec fn write_metrics(m: StoreMetrics, lat: u64, usage: usize) -> StoreMetrics {
        StoreMetrics {
            operations: bump64(m.operations),
            writes: bump64(m.writes),
            avg_latency: moving_avg(m.avg_latency, lat),
            peak_memory: if usage > m.peak_memory {
                usage
            } else {
                m.peak_memory
            },
            ..m
        }
    }

    fn bump_write_metrics(&mut self, lat: u64)
        ensures
            final(self).metrics == Self::write_metrics(
                old(self).metrics,
                lat,
                old(self).memory_usage,
            ),
            Self::same_data(*old(self), *final(self)),
    {
        self.metrics.operations = bump(self.metrics.operations);
        self.metrics.writes = bump(self.metrics.writes);
        self.update_avg_latency(lat);
        if self.memory_usage > self.metrics.peak_memory {
            self.metrics.peak_memory = self.memory_usage;
        }
    }

    /// Assign the next version, compress and file one record, and append
    /// its change event. The caller has already established that the key
    /// is free and handles policy checks and metrics.
    #[verifier::rlimit(100)]
    fn store_record(
        &mut self,
        resource_type: &str,
        key: &str,
        data: &[u8],
        metadata: ObjectMetadata,
        op: ChangeOp,
        prior: Option<Vec<u8>>,
        created_ts: u64,
        modified_ts: u64,
    ) -> (assigned: u64)
        requires
            old(self).wf(),
            old(self).revision < u64::MAX,
            !old(self).has_rec(resource_type@, key@),
        ensures
            final(self).wf(),
            assigned == old(self).revision,
            final(self).config == old(self).config,
            final(self).metrics == old(self).metrics,
            ({
                let nr = final(self).recs().last();
                &&& final(self).revision == old(self).revision + 1
                &&& final(self).recs() == old(self).recs().push(nr)
                &&& nr.kind@ == resource_type@
                &&& nr.key@ == key@
                &&& nr.payload@ == data@
                &&& nr.resource_version == old(self).revision
                &&& nr.created == created_ts
                &&& nr.modified == modified_ts
                &&& nr.metadata.namespace == metadata.namespace
                &&& nr.metadata.labels == metadata.labels
                &&& nr.metadata.annotations == metadata.annotations
                &&& nr.metadata.size == data@.len()
                &&& nr.metadata.checksum@ == digest_of(data@)
                &&& nr.compressed == (data@.len() > old(self).config.compression_threshold
                    && data@.len() <= u32::MAX)
                &&& final(self).payload_at(resource_type@, key@) == data@
                &&& final(self).version_at(resource_type@, key@) == old(self).revision
                &&& (forall|g: Seq<char>, k: Seq<char>|
                    #[trigger] recs_has(final(self).recs(), g, k) <==> (recs_has(
                        old(self).recs(),
                        g,
                        k,
                    ) || (g == resource_type@ && k == key@)))
                &&& (forall|g: Seq<char>, k: Seq<char>|
                    recs_has(old(self).recs(), g, k) ==> #[trigger] recs_at(
                        final(self).recs(),
                        g,
                        k,
                    ) == recs_at(old(self).recs(), g, k))
                &&& ({
                    let after = ring_after(
                        old(self).evs(),
                        old(self).dropped_hi,
                        old(self).config.change_ring_capacity as nat,
                        ChangeEventView {
                            kind: resource_type@,
                            namespace: Self::rec_ns(nr),
                            key: key@,
                            op: op,
                            version: old(self).revision,
                            old_payload: match prior {
                                Some(p) => Some(p@),
                                None => None,
                            },
                            new_payload: Some(data@),
                        },
                    );
                    final(self).evs() == after.0 && final(self).dropped_hi == after.1
                })
                &&& final(self).memory_usage == sat_add_usize(
                    old(self).memory_usage,
                    nr.stored@.len(),
                )
            }),
    {
        let ghost prior_view: Option<Seq<u8>> = match prior {
            Some(ref p) => Some(p@),
            None => None,
        };
        let assigned = self.revision;
        self.revision = assigned + 1;

        // Compress above the threshold; the codec carries the uncompressed
        // length as a u32, so larger payloads stay verbatim.
        let compressed = data.len() > self.config.compression_threshold && data.len()
            <= 0xffff_ffffusize;
        let stored: Vec<u8> = if compressed {
            lz4_compress(data)
        } else {
            slice_to_vec(data)
        };
        let checksum = sha3_256(data);
        let kind_owned: String = String::from_str(resource_type);
        let key_owned: String = String::from_str(key);
        let empty: String = String::new();

        // File the new key in the namespace index.
        let ghost ns_pre = self.ns_index@;
        match &metadata.namespace {
            Some(ns) => {
                index_add(&mut self.ns_index, &kind_owned, ns, &empty, &key_owned);
            },
            None => {},
        }

        // File each effective label binding: a later pair whose key a
        // previous pair already bound is shadowed and not indexed.
        let ghost lab_pre = self.label_index@;
        let ghost ns_mid = self.ns_index@;
        let labels = &metadata.labels;
        let mut j: usize = 0;
        while j < labels.len()
            invariant
                j <= labels@.len(),
                self.objects == old(self).objects,
                self.events == old(self).events,
                self.dropped_hi == old(self).dropped_hi,
                self.revision == old(self).revision + 1,
                self.memory_usage == old(self).memory_usage,
                self.metrics == old(self).metrics,
                self.config == old(self).config,
                self.ns_index@ == ns_mid,
                forall|g0: Seq<char>, g1: Seq<char>, g2: Seq<char>, k: Seq<char>|
                    #[trigger] idx_has(self.label_index@, g0, g1, g2, k) <==> (idx_has(
                        lab_pre,
                        g0,
                        g1,
                        g2,
                        k,
                    ) || (g0 == kind_owned@ && k == key_owned@ && assoc_lookup(
                        labels@.take(j as int),
                        g1,
                    ) == Some(g2))),
            decreases labels@.len() - j,
        {
            let ghost mid = self.label_index@;
            let mut dup = false;
            let mut m: usize = 0;
            while m < j
                invariant
                    m <= j,
                    j < labels@.len(),
                    dup <==> exists|t: int| 0 <= t < m && labels@[t].0@ == labels@[j as int].0@,
                decreases j - m,
            {
                if str_eq(labels[m].0.as_str(), labels[j].0.as_str()) {
                    dup = true;
                }
                m = m + 1;
            }
            proof {
                lemma_assoc_some_iff(labels@.take(j as int), labels@[j as int].0@);
                assert forall|t: int|
                    0 <= t < j ==> (labels@.take(j as int)[t] == labels@[t]) by {}
                assert(dup <==> assoc_lookup(labels@.take(j as int), labels@[j as int].0@)
                    is Some);
            }
            if !dup {
                index_add(
                    &mut self.label_index,
                    &kind_owned,
                    &labels[j].0,
                    &labels[j].1,
                    &key_owned,
                );
            }
            proof {
                let tj = labels@.take(j as int);
                let tj1 = labels@.take(j + 1);
                assert(tj1 =~= tj.push(labels@[j as int]));
                assert forall|g0: Seq<char>, g1: Seq<char>, g2: Seq<char>, k: Seq<char>|
                    #[trigger] idx_has(self.label_index@, g0, g1, g2, k) <==> (idx_has(
                        lab_pre,
                        g0,
                        g1,
                        g2,
                        k,
                    ) || (g0 == kind_owned@ && k == key_owned@ && assoc_lookup(tj1, g1) == Some(
                        g2,
                    ))) by {
                    lemma_assoc_push(tj, labels@[j as int], g1);
                }
            }
            j = j + 1;
        }
        proof {
            assert(labels@.take(labels@.len() as int) =~= labels@);
        }

        // Append the record itself.
        let md = ObjectMetadata {
            kind: kind_owned.clone(),
            namespace: metadata.namespace,
            labels: metadata.labels,
            annotations: metadata.annotations,
            size: data.len(),
            checksum,
        };
        let nr = StoredRecord {
            kind: kind_owned.clone(),
            key: key_owned.clone(),
            stored,
            compressed,
            payload: Ghost(data@),
            metadata: md,
            created: created_ts,
            modified: modified_ts,
            resource_version: assigned,
        };
        let ghost nrg = nr;
        let ghost rs_pre = self.objects@;
        let stored_len = nr.stored.len();
        proof {
            lemma_recs_push(rs_pre, nrg);
        }
        self.objects.push(nr);

        // Announce the mutation on the change ring.
        let ev = ChangeEvent {
            kind: kind_owned,
            namespace: match &self.objects[self.objects.len() - 1].metadata.namespace {
                Some(ns) => Some(ns.clone()),
                None => None,
            },
            key: key_owned,
            op: op,
            version: assigned,
            old_payload: prior,
            new_payload: Some(slice_to_vec(data)),
        };
        ring_push(
            &mut self.events,
            &mut self.dropped_hi,
            self.config.change_ring_capacity,
            ev,
        );

        // Track memory.
        if self.memory_usage <= usize::MAX - stored_len {
            self.memory_usage = self.memory_usage + stored_len;
        } else {
            self.memory_usage = usize::MAX;
        }

        proof {
            let fin = *self;
            let pre = *old(self);
            assert(pre.wf());
            assert(rs_pre == pre.recs());
            assert(fin.recs() == rs_pre.push(nrg));
            assert(fin.recs().last() == nrg);
            // Record versions stay sorted: the new version tops them all.
            assert forall|a: int, b: int| 0 <= a < b < fin.recs().len() implies fin.recs()[a].resource_version
                < fin.recs()[b].resource_version by {
                if b == fin.recs().len() - 1 {
                    assert(fin.recs()[a] == rs_pre[a]);
                    assert(Self::rec_wf(pre.recs()[a]));
                    assert(pre.recs()[a].resource_version < pre.revision);
                } else {
                    assert(fin.recs()[a] == rs_pre[a] && fin.recs()[b] == rs_pre[b]);
                }
            }
            assert forall|a: int| 0 <= a < fin.recs().len() implies #[trigger] Self::rec_wf(
                fin.recs()[a],
            ) && fin.recs()[a].resource_version < fin.revision by {
                if a < rs_pre.len() {
                    assert(fin.recs()[a] == rs_pre[a]);
                    assert(Self::rec_wf(rs_pre[a]));
                }
            }
            // The event ring stays sorted and bounded.
            let cap = pre.config.change_ring_capacity as nat;
            let newev = ChangeEventView {
                kind: resource_type@,
                namespace: Self::rec_ns(nrg),
                key: key@,
                op: op,
                version: pre.revision,
                old_payload: prior_view,
                new_payload: Some(data@),
            };
            let all = pre.evs().push(newev);
            assert forall|a: int| 0 <= a < pre.evs().len() implies all[a] == pre.evs()[a] by {}
            if all.len() <= cap {
                assert(fin.evs() == all && fin.dropped_hi == pre.dropped_hi);
            } else {
                assert(fin.evs() == all.skip(1) && fin.dropped_hi == all[0].version);
                assert forall|a: int| 0 <= a < fin.evs().len() implies 1 <= #[trigger] fin.evs()[a].version
                    < fin.revision && fin.evs()[a].version > fin.dropped_hi by {
                    assert(fin.evs()[a] == all[a + 1]);
                    if a + 1 < pre.evs().len() {
                        assert(all[a + 1] == pre.evs()[a + 1]);
                        assert(all[0] == pre.evs()[0]);
                    }
                }
            }
            assert forall|a: int, b: int| 0 <= a < b < fin.evs().len() implies fin.evs()[a].version
                < fin.evs()[b].version by {
                if all.len() <= cap {
                    if b == fin.evs().len() - 1 {
                        assert(fin.evs()[a] == pre.evs()[a]);
                    } else {
                        assert(fin.evs()[a] == pre.evs()[a] && fin.evs()[b] == pre.evs()[b]);
                    }
                } else {
                    assert(fin.evs()[a] == all[a + 1] && fin.evs()[b] == all[b + 1]);
                    if b + 1 < pre.evs().len() {
                        assert(all[a + 1] == pre.evs()[a + 1] && all[b + 1] == pre.evs()[b + 1]);
                    } else if a + 1 < pre.evs().len() {
                        assert(all[a + 1] == pre.evs()[a + 1]);
                    }
                }
            }
            // The namespace index stays coherent.
            assert forall|g: Seq<char>, n: Seq<char>, k: Seq<char>|
                #[trigger] idx_has(fin.ns_index@, g, n, Seq::<char>::empty(), k) <==> (
            fin.has_rec(g, k) && Self::rec_ns(fin.rec_at(g, k)) == Some(n)) by {
                if idx_has(fin.ns_index@, g, n, Seq::<char>::empty(), k) {
                    if idx_has(pre.ns_index@, g, n, Seq::<char>::empty(), k) {
                        assert(pre.has_rec(g, k) && Self::rec_ns(pre.rec_at(g, k)) == Some(n));
                        assert(fin.rec_at(g, k) == pre.rec_at(g, k));
                    } else {
                        assert(g == resource_type@ && k == key@);
                        assert(fin.rec_at(g, k) == nrg);
                    }
                }
                if fin.has_rec(g, k) && Self::rec_ns(fin.rec_at(g, k)) == Some(n) {
                    if g == resource_type@ && k == key@ {
                        assert(fin.rec_at(g, k) == nrg);
                        assert(Self::rec_ns(nrg) == Some(n));
                        assert(idx_has(fin.ns_index@, g, n, Seq::<char>::empty(), k));
                    } else {
                        assert(pre.has_rec(g, k));
                        assert(fin.rec_at(g, k) == pre.rec_at(g, k));
                        assert(idx_has(pre.ns_index@, g, n, Seq::<char>::empty(), k));
                    }
                }
            }
            // The label index stays coherent.
            assert forall|g: Seq<char>, lk: Seq<char>, lv: Seq<char>, k: Seq<char>|
                #[trigger] idx_has(fin.label_index@, g, lk, lv, k) <==> (fin.has_rec(g, k)
                && assoc_lookup(fin.rec_at(g, k).metadata.labels@, lk) == Some(lv)) by {
                if idx_has(fin.label_index@, g, lk, lv, k) {
                    if idx_has(pre.label_index@, g, lk, lv, k) {
                        assert(pre.has_rec(g, k) && assoc_lookup(
                            pre.rec_at(g, k).metadata.labels@,
                            lk,
                        ) == Some(lv));
                        assert(fin.rec_at(g, k) == pre.rec_at(g, k));
                    } else {
                        assert(g == resource_type@ && k == key@);
                        assert(fin.rec_at(g, k) == nrg);
                        assert(nrg.metadata.labels@ == labels@);
                    }
                }
                if fin.has_rec(g, k) && assoc_lookup(fin.rec_at(g, k).metadata.labels@, lk)
                    == Some(lv) {
                    if g == resource_type@ && k == key@ {
                        assert(fin.rec_at(g, k) == nrg);
                        assert(idx_has(fin.label_index@, g, lk, lv, k));
                    } else {
                        assert(pre.has_rec(g, k));
                        assert(fin.rec_at(g, k) == pre.rec_at(g, k));
                        assert(idx_has(pre.label_index@, g, lk, lv, k));
                    }
                }
            }
        }
        assigned
    }

    /// Store a new object. Fails with `TooLarge` when the payload exceeds
    /// the configured limit and with `Conflict` when the key is already
    /// present; otherwise assigns the next version, compresses payloads
    /// above the threshold, files the record in both indexes and appends a
    /// `Created` event to the change ring.
    #[verifier::rlimit(100)]
    pub fn create_object(
        &mut self,
        resource_type: &str,
        key: &str,
        data: &[u8],
        metadata: ObjectMetadata,
    ) -> (r: OperationResult<Result<u64, StoreError>>)
        requires
            old(self).wf(),
            old(self).revision < u64::MAX,
        ensures
            final(self).wf(),
            final(self).config == old(self).config,
            r.data == Self::create_outcome(*old(self), data@.len(), resource_type@, key@),
            r.revision == final(self).spec_cluster_version(),
            r.data is Err ==> Self::same_data(*old(self), *final(self)),
            r.data is Ok ==> ({
                let nr = final(self).recs().last();
                &&& final(self).revision == old(self).revision + 1
                &&& final(self).recs() == old(self).recs().push(nr)
                &&& nr.kind@ == resource_type@
                &&& nr.key@ == key@
                &&& nr.payload@ == data@
                &&& nr.resource_version == old(self).revision
                &&& nr.metadata.namespace == metadata.namespace
                &&& nr.metadata.labels == metadata.labels
                &&& nr.metadata.annotations == metadata.annotations
                &&& nr.metadata.size == data@.len()
                &&& nr.metadata.checksum@ == digest_of(data@)
                &&& nr.compressed == (data@.len() > old(self).config.compression_threshold
                    && data@.len() <= u32::MAX)
                &&& final(self).payload_at(resource_type@, key@) == data@
                &&& final(self).version_at(resource_type@, key@) == old(self).revision
                &&& (forall|g: Seq<char>, k: Seq<char>|
                    #[trigger] final(self).has_rec(g, k) <==> (old(self).has_rec(g, k) || (g
                        == resource_type@ && k == key@)))
                &&& (forall|g: Seq<char>, k: Seq<char>|
                    old(self).has_rec(g, k) ==> #[trigger] final(self).rec_at(g, k) == old(
                        self,
                    ).rec_at(g, k))
                &&& ({
                    let after = ring_after(
                        old(self).evs(),
                        old(self).dropped_hi,
                        old(self).config.change_ring_capacity as nat,
                        Self::created_event(
                            *old(self),
                            resource_type@,
                            key@,
                            Self::rec_ns(nr),
                            data@,
                        ),
                    );
                    final(self).evs() == after.0 && final(self).dropped_hi == after.1
                })
                &&& final(self).memory_usage == sat_add_usize(
                    old(self).memory_usage,
                    nr.stored@.len(),
                )
            }),
            final(self).metrics == Self::write_metrics(
                old(self).metrics,
                r.latency_us,
                final(self).memory_usage,
            ),
    {
        let start = now_micros();
        if data.len() > self.config.memory_limit {
            let lat = elapsed(start, now_micros());
            self.bump_write_metrics(lat);
            let rev = self.revision - 1;
            return OperationResult {
                data: Err(StoreError::TooLarge),
                revision: rev,
                latency_us: lat,
            };
        }
        if let Some(_i) = self.find_record(resource_type, key) {
            let lat = elapsed(start, now_micros());
            self.bump_write_metrics(lat);
            let rev = self.revision - 1;
            return OperationResult {
                data: Err(StoreError::Conflict),
                revision: rev,
                latency_us: lat,
            };
        }
        let now_s = start / 1000000;
        let assigned = self.store_record(
            resource_type,
            key,
            data,
            metadata,
            ChangeOp::Created,
            None,
            now_s,
            now_s,
        );
        let lat = elapsed(start, now_micros());
        self.bump_write_metrics(lat);
        let rev = self.revision - 1;
        OperationResult { data: Ok(assigned), revision: rev, latency_us: lat }
    }

    /// Metrics after a delete: operation and delete counters bumped and
    /// the latency average folded.
    pub open spec fn delete_metrics(m: StoreMetrics, lat: u64) -> StoreMetrics {
        StoreMetrics {
            operations: bump64(m.operations),
            deletes: bump64(m.deletes),
            avg_latency: moving_avg(m.avg_latency, lat),
            ..m
        }
    }

    /// Take the record at `i` out of the table and out of both indexes.
    #[verifier::rlimit(100)]
    fn remove_record(&mut self, resource_type: &str, key: &str, i: usize)
        requires
            old(self).wf(),
            i < old(self).recs().len(),
            Self::rec_matches(old(self).recs()[i as int], resource_type@, key@),
        ensures
            final(self).wf(),
            final(self).recs() == old(self).recs().remove(i as int),
            final(self).revision == old(self).revision,
            final(self).events == old(self).events,
            final(self).dropped_hi == old(self).dropped_hi,
            final(self).config == old(self).config,
            final(self).metrics == old(self).metrics,
            final(self).memory_usage == sat_sub_usize(
                old(self).memory_usage,
                old(self).recs()[i as int].stored@.len(),
            ),
            forall|g: Seq<char>, k: Seq<char>|
                #[trigger] recs_has(final(self).recs(), g, k) <==> (recs_has(
                    old(self).recs(),
                    g,
                    k,
                ) && !(g == resource_type@ && k == key@)),
            forall|g: Seq<char>, k: Seq<char>|
                recs_has(final(self).recs(), g, k) ==> #[trigger] recs_at(
                    final(self).recs(),
                    g,
                    k,
                ) == recs_at(old(self).recs(), g, k),
    {
        let kind_owned: String = String::from_str(resource_type);
        let key_owned: String = String::from_str(key);
        let stored_len = self.objects[i].stored.len();
        let ghost rs_pre = self.objects@;
        proof {
            lemma_recs_remove(rs_pre, i as int);
        }
        let _removed = self.objects.remove(i);
        index_remove(&mut self.ns_index, &kind_owned, &key_owned);
        index_remove(&mut self.label_index, &kind_owned, &key_owned);
        if self.memory_usage >= stored_len {
            self.memory_usage = self.memory_usage - stored_len;
        } else {
            self.memory_usage = 0;
        }
        proof {
            let fin = *self;
            let pre = *old(self);
            assert(pre.wf());
            let rs1 = fin.recs();
            assert(rs1 == rs_pre.remove(i as int));
            // The removed record is the one the key addressed.
            assert forall|g: Seq<char>, k: Seq<char>|
                recs_has(rs1, g, k) && (g == resource_type@ && k == key@) implies false by {}
            // Versions stay sorted and records well formed.
            assert forall|a: int, b: int| 0 <= a < b < rs1.len() implies rs1[a].resource_version
                < rs1[b].resource_version by {
                let a0 = if a < i as int { a } else { a + 1 };
                let b0 = if b < i as int { b } else { b + 1 };
                assert(rs1[a] == rs_pre[a0] && rs1[b] == rs_pre[b0]);
            }
            assert forall|a: int| 0 <= a < rs1.len() implies #[trigger] Self::rec_wf(rs1[a])
                && rs1[a].resource_version < fin.revision by {
                let a0 = if a < i as int { a } else { a + 1 };
                assert(rs1[a] == rs_pre[a0]);
                assert(Self::rec_wf(pre.recs()[a0]));
                assert(pre.recs()[a0].resource_version < pre.revision);
            }
            // The record addressed by the pair (kind, key) was rs_pre[i].
            assert(recs_at(rs_pre, resource_type@, key@) == rs_pre[i as int]) by {
                let j = recs_idx(rs_pre, resource_type@, key@);
                if j != i as int {
                    assert(!(rs_pre[j].kind@ == rs_pre[i as int].kind@ && rs_pre[j].key@
                        == rs_pre[i as int].key@));
                }
            }
            // Both indexes stay coherent.
            assert forall|g: Seq<char>, n: Seq<char>, k: Seq<char>|
                #[trigger] idx_has(fin.ns_index@, g, n, Seq::<char>::empty(), k) <==> (
            recs_has(rs1, g, k) && Self::rec_ns(recs_at(rs1, g, k)) == Some(n)) by {
                if idx_has(fin.ns_index@, g, n, Seq::<char>::empty(), k) {
                    assert(idx_has(pre.ns_index@, g, n, Seq::<char>::empty(), k));
                    assert(!(g == resource_type@ && k == key@));
                    assert(recs_has(rs_pre, g, k));
                    assert(recs_has(rs1, g, k));
                    assert(recs_at(rs1, g, k) == recs_at(rs_pre, g, k));
                }
                if recs_has(rs1, g, k) && Self::rec_ns(recs_at(rs1, g, k)) == Some(n) {
                    assert(recs_has(rs_pre, g, k));
                    assert(!(g == resource_type@ && k == key@));
                    assert(recs_at(rs1, g, k) == recs_at(rs_pre, g, k));
                    assert(idx_has(pre.ns_index@, g, n, Seq::<char>::empty(), k));
                }
            }
            assert forall|g: Seq<char>, lk: Seq<char>, lv: Seq<char>, k: Seq<char>|
                #[trigger] idx_has(fin.label_index@, g, lk, lv, k) <==> (recs_has(rs1, g, k)
                && assoc_lookup(recs_at(rs1, g, k).metadata.labels@, lk) == Some(lv)) by {
                if idx_has(fin.label_index@, g, lk, lv, k) {
                    assert(idx_has(pre.label_index@, g, lk, lv, k));
                    assert(!(g == resource_type@ && k == key@));
                    assert(recs_has(rs_pre, g, k));
                    assert(recs_has(rs1, g, k));
                    assert(recs_at(rs1, g, k) == recs_at(rs_pre, g, k));
                }
                if recs_has(rs1, g, k) && assoc_lookup(recs_at(rs1, g, k).metadata.labels@, lk)
                    == Some(lv) {
                    assert(recs_has(rs_pre, g, k));
                    assert(!(g == resource_type@ && k == key@));
                    assert(recs_at(rs1, g, k) == recs_at(rs_pre, g, k));
                    assert(idx_has(pre.label_index@, g, lk, lv, k));
                }
            }
        }
    }

    /// What delete returns for the given prior state.
    pub open spec fn delete_outcome(
        s: TeeMemoryStore,
        kind: Seq<char>,
        key: Seq<char>,
    ) -> Result<(), StoreError> {
        if s.has_rec(kind, key) {
            Ok(())
        } else {
            Err(StoreError::NotFound)
        }
    }

    /// Delete the object under (kind, key). A successful delete removes
    /// the record and its index entries, takes one version and appends a
    /// `Deleted` event carrying the old payload.
    #[verifier::rlimit(100)]
    #[verifier::spinoff_prover]
    pub fn delete_object(&mut self, resource_type: &str, key: &str) -> (r: OperationResult<
        Result<(), StoreError>,
    >)
        requires
            old(self).wf(),
            old(self).revision < u64::MAX,
        ensures
            final(self).wf(),
            final(self).config == old(self).config,
            r.data == Self::delete_outcome(*old(self), resource_type@, key@),
            r.revision == final(self).spec_cluster_version(),
            r.data is Err ==> Self::same_data(*old(self), *final(self)),
            r.data is Ok ==> ({
                &&& final(self).revision == old(self).revision + 1
                &&& (forall|g: Seq<char>, k: Seq<char>|
                    #[trigger] recs_has(final(self).recs(), g, k) <==> (recs_has(
                        old(self).recs(),
                        g,
                        k,
                    ) && !(g == resource_type@ && k == key@)))
                &&& (forall|g: Seq<char>, k: Seq<char>|
                    recs_has(final(self).recs(), g, k) ==> #[trigger] recs_at(
                        final(self).recs(),
                        g,
                        k,
                    ) == recs_at(old(self).recs(), g, k))
                &&& ({
                    let gone = old(self).rec_at(resource_type@, key@);
                    let after = ring_after(
                        old(self).evs(),
                        old(self).dropped_hi,
                        old(self).config.change_ring_capacity as nat,
                        ChangeEventView {
                            kind: resource_type@,
                            namespace: Self::rec_ns(gone),
                            key: key@,
                            op: ChangeOp::Deleted,
                            version: old(self).revision,
                            old_payload: Some(gone.payload@),
                            new_payload: None,
                        },
                    );
                    final(self).evs() == after.0 && final(self).dropped_hi == after.1
                })
                &&& final(self).memory_usage == sat_sub_usize(
                    old(self).memory_usage,
                    old(self).rec_at(resource_type@, key@).stored@.len(),
                )
            }),
            final(self).metrics == Self::delete_metrics(old(self).metrics, r.latency_us),
    {
        let start = now_micros();
        let found = self.find_record(resource_type, key);
        match found {
            None => {
                let lat = elapsed(start, now_micros());
                self.metrics.operations = bump(self.metrics.operations);
                self.metrics.deletes = bump(self.metrics.deletes);
                self.update_avg_latency(lat);
                proof {
                    Self::lemma_wf_same_data(*old(self), *self);
                }
                let rev = self.revision - 1;
                OperationResult {
                    data: Err(StoreError::NotFound),
                    revision: rev,
                    latency_us: lat,
                }
            },
            Some(i) => {
                let bytes = self.payload_bytes(i);
                let ns_copy: Option<String> = match &self.objects[i].metadata.namespace {
                    Some(n) => Some(n.clone()),
                    None => None,
                };
                let ghost gone = self.recs()[i as int];
                proof {
                    assert(recs_at(old(self).recs(), resource_type@, key@) == gone) by {
                        let j = recs_idx(old(self).recs(), resource_type@, key@);
                        if j != i as int {
                            assert(!(old(self).recs()[j].kind@ == gone.kind@ && old(
                                self,
                            ).recs()[j].key@ == gone.key@));
                        }
                    }
                    assert(Self::rec_wf(gone));
                    assert(Self::rec_ns(gone) == (match ns_copy {
                        Some(n) => Some(n@),
                        None => None,
                    }));
                }
                self.remove_record(resource_type, key, i);
                let assigned = self.revision;
                self.revision = assigned + 1;
                let ev = ChangeEvent {
                    kind: String::from_str(resource_type),
                    namespace: ns_copy,
                    key: String::from_str(key),
                    op: ChangeOp::Deleted,
                    version: assigned,
                    old_payload: Some(bytes),
                    new_payload: None,
                };
                let ghost evg = ev@;
                let ghost evs_mid = self.evs();
                ring_push(
                    &mut self.events,
                    &mut self.dropped_hi,
                    self.config.change_ring_capacity,
                    ev,
                );
                proof {
                    let fin = *self;
                    let pre = *old(self);
                    assert(pre.wf());
                    let cap = pre.config.change_ring_capacity as nat;
                    let all = evs_mid.push(evg);
                    assert(evs_mid == pre.evs());
                    assert forall|a: int| 0 <= a < pre.evs().len() implies all[a]
                        == pre.evs()[a] by {}
                    if all.len() <= cap {
                        assert(fin.evs() == all && fin.dropped_hi == pre.dropped_hi);
                    } else {
                        assert(fin.evs() == all.skip(1) && fin.dropped_hi == all[0].version);
                        assert forall|a: int| 0 <= a < fin.evs().len() implies 1 <= #[trigger]
                        fin.evs()[a].version < fin.revision && fin.evs()[a].version
                            > fin.dropped_hi by {
                            assert(fin.evs()[a] == all[a + 1]);
                            if a + 1 < pre.evs().len() {
                                assert(all[a + 1] == pre.evs()[a + 1]);
                                assert(all[0] == pre.evs()[0]);
                            }
                        }
                    }
                    assert forall|a: int, b: int| 0 <= a < b < fin.evs().len() implies fin.evs()[a].version
                        < fin.evs()[b].version by {
                        if all.len() <= cap {
                            if b == fin.evs().len() - 1 {
                                assert(fin.evs()[a] == pre.evs()[a]);
                            } else {
                                assert(fin.evs()[a] == pre.evs()[a] && fin.evs()[b]
                                    == pre.evs()[b]);
                            }
                        } else {
                            assert(fin.evs()[a] == all[a + 1] && fin.evs()[b] == all[b + 1]);
                            if b + 1 < pre.evs().len() {
                                assert(all[a + 1] == pre.evs()[a + 1] && all[b + 1] == pre.evs()[b
                                    + 1]);
                            } else if a + 1 < pre.evs().len() {
                                assert(all[a + 1] == pre.evs()[a + 1]);
                            }
                        }
                    }
                    assert forall|a: int| 0 <= a < fin.recs().len() implies #[trigger] Self::rec_wf(
                        fin.recs()[a],
                    ) && fin.recs()[a].resource_version < fin.revision by {
                        assert(fin.recs()[a] == pre.recs().remove(
                            recs_idx(pre.recs(), resource_type@, key@),
                        )[a]);
                        assert(Self::rec_wf(pre.recs()[if a < recs_idx(
                            pre.recs(),
                            resource_type@,
                            key@,
                        ) {
                            a
                        } else {
                            a + 1
                        }]));
                    }
                }
                let lat = elapsed(start, now_micros());
                self.metrics.operations = bump(self.metrics.operations);
                self.metrics.deletes = bump(self.metrics.deletes);
                self.update_avg_latency(lat);
                let rev = self.revision - 1;
                OperationResult { data: Ok(()), revision: rev, latency_us: lat }
            },
        }
    }

    /// What update returns for the given prior state, payload length and
    /// compare-and-swap expectation.
    pub open spec fn update_outcome(
        s: TeeMemoryStore,
        len: nat,
        kind: Seq<char>,
        key: Seq<char>,
        expected: Option<u64>,
    ) -> Result<u64, StoreError> {
        if !s.has_rec(kind, key) {
            Err(StoreError::NotFound)
        } else if expected matches Some(v) && v != s.version_at(kind, key) {
            Err(StoreError::VersionMismatch)
        } else if len > s.config.memory_limit {
            Err(StoreError::TooLarge)
        } else {
            Ok(s.revision)
        }
    }

    /// Replace the object under (kind, key). When `expected_version` is
    /// given and differs from the record's version the update fails with
    /// `VersionMismatch` and nothing changes; a missing expectation means
    /// last writer wins. A successful update takes one version, rewrites
    /// the record and its index entries, and appends an `Updated` event
    /// carrying the old and new payloads.
    #[verifier::rlimit(100)]
    pub fn update_object(
        &mut self,
        resource_type: &str,
        key: &str,
        data: &[u8],
        metadata: ObjectMetadata,
        expected_version: Option<u64>,
    ) -> (r: OperationResult<Result<u64, StoreError>>)
        requires
            old(self).wf(),
            old(self).revision < u64::MAX,
        ensures
            final(self).wf(),
            final(self).config == old(self).config,
            r.data == Self::update_outcome(
                *old(self),
                data@.len(),
                resource_type@,
                key@,
                expected_version,
            ),
            r.revision == final(self).spec_cluster_version(),
            r.data is Err ==> Self::same_data(*old(self), *final(self)),
            r.data is Ok ==> ({
                let nr = final(self).recs().last();
                &&& final(self).revision == old(self).revision + 1
                &&& nr.kind@ == resource_type@
                &&& nr.key@ == key@
                &&& nr.payload@ == data@
                &&& nr.resource_version == old(self).revision
                &&& nr.created == old(self).rec_at(resource_type@, key@).created
                &&& nr.metadata.namespace == metadata.namespace
                &&& nr.metadata.labels == metadata.labels
                &&& nr.metadata.size == data@.len()
                &&& nr.metadata.checksum@ == digest_of(data@)
                &&& final(self).payload_at(resource_type@, key@) == data@
                &&& final(self).version_at(resource_type@, key@) == old(self).revision
                &&& (forall|g: Seq<char>, k: Seq<char>|
                    #[trigger] recs_has(final(self).recs(), g, k) <==> recs_has(
                        old(self).recs(),
                        g,
                        k,
                    ))
                &&& (forall|g: Seq<char>, k: Seq<char>|
                    recs_has(old(self).recs(), g, k) && !(g == resource_type@ && k == key@)
                        ==> #[trigger] recs_at(final(self).recs(), g, k) == recs_at(
                        old(self).recs(),
                        g,
                        k,
                    ))
                &&& ({
                    let prior_rec = old(self).rec_at(resource_type@, key@);
                    let after = ring_after(
                        old(self).evs(),
                        old(self).dropped_hi,
                        old(self).config.change_ring_capacity as nat,
                        ChangeEventView {
                            kind: resource_type@,
                            namespace: Self::rec_ns(nr),
                            key: key@,
                            op: ChangeOp::Updated,
                            version: old(self).revision,
                            old_payload: Some(prior_rec.payload@),
                            new_payload: Some(data@),
                        },
                    );
                    final(self).evs() == after.0 && final(self).dropped_hi == after.1
                })
            }),
            final(self).metrics == Self::write_metrics(
                old(self).metrics,
                r.latency_us,
                final(self).memory_usage,
            ),
    {
        let start = now_micros();
        let found = self.find_record(resource_type, key);
        let i = match found {
            None => {
                let lat = elapsed(start, now_micros());
                self.bump_write_metrics(lat);
                proof {
                    Self::lemma_wf_same_data(*old(self), *self);
                }
                let rev = self.revision - 1;
                return OperationResult {
                    data: Err(StoreError::NotFound),
                    revision: rev,
                    latency_us: lat,
                };
            },
            Some(i) => i,
        };
        match expected_version {
            Some(v) => {
                if v != self.objects[i].resource_version {
                    let lat = elapsed(start, now_micros());
                    self.bump_write_metrics(lat);
                    proof {
                        Self::lemma_wf_same_data(*old(self), *self);
                    }
                    let rev = self.revision - 1;
                    return OperationResult {
                        data: Err(StoreError::VersionMismatch),
                        revision: rev,
                        latency_us: lat,
                    };
                }
            },
            None => {},
        }
        if data.len() > self.config.memory_limit {
            let lat = elapsed(start, now_micros());
            self.bump_write_metrics(lat);
            proof {
                Self::lemma_wf_same_data(*old(self), *self);
            }
            let rev = self.revision - 1;
            return OperationResult {
                data: Err(StoreError::TooLarge),
                revision: rev,
                latency_us: lat,
            };
        }
        let prior_bytes = self.payload_bytes(i);
        let created_ts = self.objects[i].created;
        let ghost prior_rec = self.recs()[i as int];
        proof {
            assert(recs_at(old(self).recs(), resource_type@, key@) == prior_rec) by {
                let j = recs_idx(old(self).recs(), resource_type@, key@);
                if j != i as int {
                    assert(!(old(self).recs()[j].kind@ == prior_rec.kind@ && old(
                        self,
                    ).recs()[j].key@ == prior_rec.key@));
                }
            }
        }
        self.remove_record(resource_type, key, i);
        let now_s = start / 1000000;
        let assigned = self.store_record(
            resource_type,
            key,
            data,
            metadata,
            ChangeOp::Updated,
            Some(prior_bytes),
            created_ts,
            now_s,
        );
        let lat = elapsed(start, now_micros());
        self.bump_write_metrics(lat);
        let rev = self.revision - 1;
        OperationResult { data: Ok(assigned), revision: rev, latency_us: lat }
    }

    /// Read the object under (kind, key): the uncompressed payload and its
    /// version, or `NotFound`. With `integrity_check` on, the payload
    /// digest is recomputed and compared against the stored checksum.
    pub fn get_object(&mut self, resource_type: &str, key: &str) -> (r: OperationResult<
        Result<(Vec<u8>, u64), StoreError>,
    >)
        requires
            old(self).wf(),
        ensures
            final(self).wf(),
            Self::same_data(*old(self), *final(self)),
            r.revision == final(self).spec_cluster_version(),
            match r.data {
                Ok(p) => old(self).has_rec(resource_type@, key@) && p.0@ == old(self).payload_at(
                    resource_type@,
                    key@,
                ) && p.1 == old(self).version_at(resource_type@, key@),
                Err(e) => e == StoreError::NotFound && !old(self).has_rec(
                    resource_type@,
                    key@,
                ),
            },
    {
        let start = now_micros();
        let found = self.find_record(resource_type, key);
        let outcome: Result<(Vec<u8>, u64), StoreError> = match found {
            Some(i) => {
                let bytes = self.payload_bytes(i);
                let version = self.objects[i].resource_version;
                if self.config.integrity_check {
                    // The stored checksum always equals the payload digest;
                    // the runtime comparison guards against memory faults.
                    let fresh = sha3_256(bytes.as_slice());
                    proof {
                        assert(Self::rec_wf(self.recs()[i as int]));
                    }
                    if !bytes_eq(fresh.as_slice(), self.objects[i].metadata.checksum.as_slice()) {
                        proof {
                            assert(false);
                        }
                        return OperationResult {
                            data: Err(StoreError::IntegrityError),
                            revision: 0,
                            latency_us: 0,
                        };
                    }
                }
                Ok((bytes, version))
            },
            None => Err(StoreError::NotFound),
        };
        let lat = elapsed(start, now_micros());
        self.metrics.operations = bump(self.metrics.operations);
        self.metrics.reads = bump(self.metrics.reads);
        self.update_avg_latency(lat);
        proof {
            Self::lemma_wf_same_data(*old(self), *self);
        }
        let rev = self.revision - 1;
        OperationResult { data: outcome, revision: rev, latency_us: lat }
    }
}

/// The operators a label-selector requirement can use.
#[derive(Clone, Copy, Debug, PartialEq, Eq, Structural)]
pub enum SelectorOp {
    In,
    NotIn,
    Exists,
    DoesNotExist,
}

/// One conjunct of a label selector: `key op values`.
pub struct LabelRequirement {
    pub key: String,
    pub op: SelectorOp,
    pub values: Vec<String>,
}

/// A label selector: the conjunction of its requirements.
pub struct LabelSelector {
    pub requirements: Vec<LabelRequirement>,
}

/// Whether one requirement holds of a label list.
pub open spec fn req_matches(labels: Seq<(String, String)>, req: LabelRequirement) -> bool {
    match req.op {
        SelectorOp::In => match assoc_lookup(labels, req.key@) {
            Some(v) => crate::util::seq_contains_str(req.values@, v),
            None => false,
        },
        SelectorOp::NotIn => match assoc_lookup(labels, req.key@) {
            Some(v) => !crate::util::seq_contains_str(req.values@, v),
            None => true,
        },
        SelectorOp::Exists => assoc_lookup(labels, req.key@) is Some,
        SelectorOp::DoesNotExist => assoc_lookup(labels, req.key@) is None,
    }
}

/// Whether a whole selector holds of a label list.
pub open spec fn selector_matches(labels: Seq<(String, String)>, reqs: Seq<LabelRequirement>) -> bool {
    forall|i: int| 0 <= i < reqs.len() ==> req_matches(labels, #[trigger] reqs[i])
}

/// An opaque cursor for paging through a list: the version the list was
/// taken at and the version of the last item already returned. Pages
/// follow the per-record version order, which is a stable total order
/// over the live (kind, key) set at the list's version: every live key
/// holds exactly one record with version at most `list_version`.
#[derive(Clone, Copy, Debug, PartialEq, Eq, Structural)]
pub struct ContinueToken {
    pub list_version: u64,
    pub last_version: u64,
}

/// Filter and paging options for list verbs.
pub struct QueryOptions {
    pub namespace: Option<String>,
    pub label_selector: Option<LabelSelector>,
    /// Field selectors name a per-kind declared field set; no kind declares
    /// one here, so a field selector matches nothing.
    pub field_selector: Option<String>,
    pub limit: Option<usize>,
    pub continue_token: Option<ContinueToken>,
    pub resource_version: Option<u64>,
}

impl Default for QueryOptions {
    fn default() -> (r: Self)
        ensures
            r.namespace is None,
            r.label_selector is None,
            r.field_selector is None,
            r.limit is None,
            r.continue_token is None,
            r.resource_version is None,
    {
        QueryOptions {
            namespace: None,
            label_selector: None,
            field_selector: None,
            limit: None,
            continue_token: None,
            resource_version: None,
        }
    }
}

/// One page of a list: the payloads, the version the list reflects, and
/// the cursor for the next page, if more items match.
#[derive(Debug)]
pub struct ListResult {
    pub items: Vec<Vec<u8>>,
    pub list_version: u64,
    pub next: Option<ContinueToken>,
}

/// Whether a record belongs to the list the query describes.
pub open spec fn list_match(r: StoredRecord, kind: Seq<char>, opts: QueryOptions) -> bool {
    &&& r.kind@ == kind
    &&& match opts.namespace {
        Some(ns) => TeeMemoryStore::rec_ns(r) == Some(ns@),
        None => true,
    }
    &&& match opts.label_selector {
        Some(sel) => selector_matches(r.metadata.labels@, sel.requirements@),
        None => true,
    }
    &&& opts.field_selector is None
    &&& match opts.continue_token {
        Some(t) => r.resource_version <= t.list_version && r.resource_version > t.last_version,
        None => true,
    }
}

/// The subsequence of records the query selects, in table order.
pub open spec fn list_filter(rs: Seq<StoredRecord>, kind: Seq<char>, opts: QueryOptions) -> Seq<
    StoredRecord,
>
    decreases rs.len(),
{
    if rs.len() == 0 {
        Seq::empty()
    } else if list_match(rs.last(), kind, opts) {
        list_filter(rs.drop_last(), kind, opts).push(rs.last())
    } else {
        list_filter(rs.drop_last(), kind, opts)
    }
}

/// The subsequence of ring events a subscriber of this kind sees past
/// `from`, in ring order.
pub open spec fn watch_filter(evs: Seq<ChangeEventView>, kind: Seq<char>, from: u64) -> Seq<
    ChangeEventView,
>
    decreases evs.len(),
{
    if evs.len() == 0 {
        Seq::empty()
    } else if evs.last().kind == kind && evs.last().version > from {
        watch_filter(evs.drop_last(), kind, from).push(evs.last())
    } else {
        watch_filter(evs.drop_last(), kind, from)
    }
}

/// Copies a list of strings.
pub(crate) fn clone_strings(v: &Vec<String>) -> (r: Vec<String>)
    ensures
        r@ == v@,
{
    let mut out: Vec<String> = Vec::new();
    let mut i: usize = 0;
    while i < v.len()
        invariant
            i <= v@.len(),
            out@ =~= v@.take(i as int),
        decreases v@.len() - i,
    {
        out.push(v[i].clone());
        proof {
            assert(out@ =~= v@.take(i + 1));
        }
        i = i + 1;
    }
    proof {
        assert(out@ =~= v@);
    }
    out
}

/// Copies a byte vector.
pub(crate) fn clone_bytes_pub(v: &Vec<u8>) -> (r: Vec<u8>)
    ensures
        r@ == v@,
{
    slice_to_vec(v.as_slice())
}

/// Copies a byte vector.
fn clone_bytes(v: &Vec<u8>) -> (r: Vec<u8>)
    ensures
        r@ == v@,
{
    slice_to_vec(v.as_slice())
}

impl TeeMemoryStore {
    /// Whether one requirement holds of a label list.
    pub fn requirement_matches(labels: &Vec<(String, String)>, req: &LabelRequirement) -> (r: bool)
        ensures
            r == req_matches(labels@, *req),
    {
        let bound = assoc_get(labels, req.key.as_str());
        match req.op {
            SelectorOp::In => match bound {
                Some(v) => vec_contains_str(&req.values, v.as_str()),
                None => false,
            },
            SelectorOp::NotIn => match bound {
                Some(v) => !vec_contains_str(&req.values, v.as_str()),
                None => true,
            },
            SelectorOp::Exists => bound.is_some(),
            SelectorOp::DoesNotExist => bound.is_none(),
        }
    }

    /// Whether a record's labels satisfy every requirement of a selector.
    pub fn matches_label_selector(labels: &Vec<(String, String)>, selector: &LabelSelector) -> (r:
        bool)
        ensures
            r == selector_matches(labels@, selector.requirements@),
    {
        let mut i: usize = 0;
        while i < selector.requirements.len()
            invariant
                i <= selector.requirements@.len(),
                forall|j: int|
                    0 <= j < i ==> req_matches(labels@, #[trigger] selector.requirements@[j]),
            decreases selector.requirements@.len() - i,
        {
            if !Self::requirement_matches(labels, &selector.requirements[i]) {
                return false;
            }
            i = i + 1;
        }
        true
    }

    /// Whether a record belongs to the list a query describes.
    fn record_matches_query(r: &StoredRecord, resource_type: &str, options: &QueryOptions) -> (m:
        bool)
        ensures
            m == list_match(*r, resource_type@, *options),
    {
        if !str_eq(r.kind.as_str(), resource_type) {
            return false;
        }
        match &options.namespace {
            Some(ns) => {
                match &r.metadata.namespace {
                    Some(rns) => {
                        if !str_eq(rns.as_str(), ns.as_str()) {
                            return false;
                        }
                    },
                    None => {
                        return false;
                    },
                }
            },
            None => {},
        }
        match &options.label_selector {
            Some(sel) => {
                if !Self::matches_label_selector(&r.metadata.labels, sel) {
                    return false;
                }
            },
            None => {},
        }
        if options.field_selector.is_some() {
            return false;
        }
        match &options.continue_token {
            Some(t) => {
                if !(r.resource_version <= t.list_version && r.resource_version
                    > t.last_version) {
                    return false;
                }
            },
            None => {},
        }
        true
    }

    /// The indexes of the records the query selects, in table order.
    fn filter_objects(&self, resource_type: &str, options: &QueryOptions) -> (idxs: Vec<usize>)
        requires
            self.wf(),
        ensures
            idxs@.len() == list_filter(self.recs(), resource_type@, *options).len(),
            forall|m: int|
                0 <= m < idxs@.len() ==> #[trigger] idxs@[m] < self.recs().len()
                    && self.recs()[idxs@[m] as int] == list_filter(
                    self.recs(),
                    resource_type@,
                    *options,
                )[m],
    {
        let mut idxs: Vec<usize> = Vec::new();
        let mut i: usize = 0;
        while i < self.objects.len()
            invariant
                i <= self.recs().len(),
                idxs@.len() == list_filter(
                    self.recs().take(i as int),
                    resource_type@,
                    *options,
                ).len(),
                forall|m: int|
                    0 <= m < idxs@.len() ==> #[trigger] idxs@[m] < i && self.recs()[idxs@[m] as int]
                        == list_filter(self.recs().take(i as int), resource_type@, *options)[m],
            decreases self.recs().len() - i,
        {
            let ghost idxs_pre = idxs@;
            let ghost f0 = list_filter(self.recs().take(i as int), resource_type@, *options);
            let matched = Self::record_matches_query(&self.objects[i], resource_type, options);
            if matched {
                idxs.push(i);
            }
            proof {
                let t1 = self.recs().take(i + 1);
                assert(t1.drop_last() =~= self.recs().take(i as int));
                assert(t1.last() == self.recs()[i as int]);
                let f1 = list_filter(t1, resource_type@, *options);
                if matched {
                    assert(f1 == f0.push(self.recs()[i as int]));
                    assert(idxs@ == idxs_pre.push(i));
                    assert forall|m: int| 0 <= m < idxs@.len() implies #[trigger] idxs@[m] < i + 1
                        && self.recs()[idxs@[m] as int] == f1[m] by {
                        if m < idxs_pre.len() {
                            assert(idxs@[m] == idxs_pre[m]);
                            assert(f1[m] == f0[m]);
                        } else {
                            assert(idxs@[m] == i);
                            assert(f1[m] == self.recs()[i as int]);
                        }
                    }
                } else {
                    assert(f1 == f0);
                }
            }
            i = i + 1;
        }
        proof {
            assert(self.recs().take(self.recs().len() as int) =~= self.recs());
        }
        idxs
    }

    /// List the objects of a kind that match the query. Items come in
    /// version order; at most `limit` are returned and a continue token
    /// points at the rest. A token whose list version has fallen off the
    /// change ring is refused as `Expired`.
    pub fn list_objects(&mut self, resource_type: &str, options: &QueryOptions) -> (r:
        OperationResult<Result<ListResult, StoreError>>)
        requires
            old(self).wf(),
        ensures
            final(self).wf(),
            Self::same_data(*old(self), *final(self)),
            r.revision == final(self).spec_cluster_version(),
            match r.data {
                Err(e) => e == StoreError::Expired && (options.continue_token matches Some(t)
                    && t.list_version < old(self).dropped_hi),
                Ok(lr) => {
                    let flt = list_filter(old(self).recs(), resource_type@, *options);
                    let n = match options.limit {
                        Some(l) => if l == 0 {
                            flt.len() as int
                        } else if l < flt.len() {
                            l as int
                        } else {
                            flt.len() as int
                        },
                        None => flt.len() as int,
                    };
                    &&& !(options.continue_token matches Some(t) && t.list_version < old(
                        self,
                    ).dropped_hi)
                    &&& lr.list_version == (match options.continue_token {
                        Some(t) => t.list_version,
                        None => old(self).spec_cluster_version(),
                    })
                    &&& lr.items@.len() == n
                    &&& (forall|m: int|
                        0 <= m < n ==> #[trigger] lr.items@[m]@ == flt[m].payload@)
                    &&& lr.next == (if n < flt.len() {
                        Some(
                            ContinueToken {
                                list_version: lr.list_version,
                                last_version: flt[n - 1].resource_version,
                            },
                        )
                    } else {
                        None::<ContinueToken>
                    })
                    &&& (n < flt.len() ==> n > 0)
                },
            },
    {
        let start = now_micros();
        match &options.continue_token {
            Some(t) => {
                if t.list_version < self.dropped_hi {
                    let lat = elapsed(start, now_micros());
                    self.metrics.operations = bump(self.metrics.operations);
                    self.metrics.lists = bump(self.metrics.lists);
                    self.update_avg_latency(lat);
                    proof {
                        Self::lemma_wf_same_data(*old(self), *self);
                    }
                    let rev = self.revision - 1;
                    return OperationResult {
                        data: Err(StoreError::Expired),
                        revision: rev,
                        latency_us: lat,
                    };
                }
            },
            None => {},
        }
        let idxs = self.filter_objects(resource_type, options);
        let ghost flt = list_filter(self.recs(), resource_type@, *options);
        let total = idxs.len();
        let n: usize = match &options.limit {
            Some(l) => if *l == 0 {
                total
            } else if *l < total {
                *l
            } else {
                total
            },
            None => total,
        };
        let mut items: Vec<Vec<u8>> = Vec::new();
        let mut m: usize = 0;
        while m < n
            invariant
                m <= n,
                n <= idxs@.len(),
                self.wf(),
                flt == list_filter(self.recs(), resource_type@, *options),
                idxs@.len() == flt.len(),
                forall|t: int|
                    0 <= t < idxs@.len() ==> #[trigger] idxs@[t] < self.recs().len()
                        && self.recs()[idxs@[t] as int] == flt[t],
                items@.len() == m,
                forall|t: int| 0 <= t < m ==> #[trigger] items@[t]@ == flt[t].payload@,
            decreases n - m,
        {
            let bytes = self.payload_bytes(idxs[m]);
            items.push(bytes);
            m = m + 1;
        }
        let list_version: u64 = match &options.continue_token {
            Some(t) => t.list_version,
            None => self.revision - 1,
        };
        let next: Option<ContinueToken> = if n < total {
            Some(
                ContinueToken {
                    list_version,
                    last_version: self.objects[idxs[n - 1]].resource_version,
                },
            )
        } else {
            None
        };
        let lr = ListResult { items, list_version, next };
        let lat = elapsed(start, now_micros());
        self.metrics.operations = bump(self.metrics.operations);
        self.metrics.lists = bump(self.metrics.lists);
        self.update_avg_latency(lat);
        proof {
            Self::lemma_wf_same_data(*old(self), *self);
        }
        let rev = self.revision - 1;
        OperationResult { data: Ok(lr), revision: rev, latency_us: lat }
    }

    /// Replay the change ring for a kind past `from_version`: every
    /// retained event of that kind with a greater version, in version
    /// order. A subscriber whose position has fallen off the ring gets
    /// `Expired` and must resync with a list.
    pub fn watch(&mut self, resource_type: &str, from_version: u64) -> (r: OperationResult<
        Result<Vec<ChangeEvent>, StoreError>,
    >)
        requires
            old(self).wf(),
        ensures
            final(self).wf(),
            Self::same_data(*old(self), *final(self)),
            r.revision == final(self).spec_cluster_version(),
            match r.data {
                Err(e) => e == StoreError::Expired && from_version < old(self).dropped_hi,
                Ok(out) => from_version >= old(self).dropped_hi && out@.map_values(
                    |e: ChangeEvent| e@,
                ) == watch_filter(old(self).evs(), resource_type@, from_version),
            },
    {
        let start = now_micros();
        if from_version < self.dropped_hi {
            let lat = elapsed(start, now_micros());
            self.metrics.operations = bump(self.metrics.operations);
            self.metrics.watches = bump(self.metrics.watches);
            self.update_avg_latency(lat);
            proof {
                Self::lemma_wf_same_data(*old(self), *self);
            }
            let rev = self.revision - 1;
            return OperationResult {
                data: Err(StoreError::Expired),
                revision: rev,
                latency_us: lat,
            };
        }
        let mut out: Vec<ChangeEvent> = Vec::new();
        let mut i: usize = 0;
        while i < self.events.len()
            invariant
                i <= self.events@.len(),
                self.wf(),
                out@.map_values(|e: ChangeEvent| e@) == watch_filter(
                    self.evs().take(i as int),
                    resource_type@,
                    from_version,
                ),
            decreases self.events@.len() - i,
        {
            let ghost pre_out = out@.map_values(|e: ChangeEvent| e@);
            proof {
                let t1 = self.evs().take(i + 1);
                assert(t1.drop_last() =~= self.evs().take(i as int));
                assert(t1.last() == self.evs()[i as int]);
            }
            let e = &self.events[i];
            if str_eq(e.kind.as_str(), resource_type) && e.version > from_version {
                let copy = ChangeEvent {
                    kind: e.kind.clone(),
                    namespace: match &e.namespace {
                        Some(ns) => Some(ns.clone()),
                        None => None,
                    },
                    key: e.key.clone(),
                    op: e.op,
                    version: e.version,
                    old_payload: match &e.old_payload {
                        Some(p) => Some(clone_bytes(p)),
                        None => None,
                    },
                    new_payload: match &e.new_payload {
                        Some(p) => Some(clone_bytes(p)),
                        None => None,
                    },
                };
                proof {
                    assert(copy@ == self.evs()[i as int]);
                }
                out.push(copy);
                proof {
                    assert(out@.map_values(|e: ChangeEvent| e@) =~= pre_out.push(
                        self.evs()[i as int],
                    ));
                }
            }
            i = i + 1;
        }
        proof {
            assert(self.evs().take(self.evs().len() as int) =~= self.evs());
        }
        let lat = elapsed(start, now_micros());
        self.metrics.operations = bump(self.metrics.operations);
        self.metrics.watches = bump(self.metrics.watches);
        self.update_avg_latency(lat);
        proof {
            Self::lemma_wf_same_data(*old(self), *self);
        }
        let rev = self.revision - 1;
        OperationResult { data: Ok(out), revision: rev, latency_us: lat }
    }

    /// Append one length-prefixed byte run to the buffer.
    fn append_chunk(out: &mut Vec<u8>, chunk: &[u8])
        ensures
            final(out)@ == old(out)@ + enc_bytes(chunk@),
    {
        let ghost pre = out@;
        push_u64_le(out, chunk.len() as u64);
        let mut i: usize = 0;
        while i < chunk.len()
            invariant
                i <= chunk@.len(),
                out@ == pre + u64_le(chunk@.len() as u64) + chunk@.take(i as int),
            decreases chunk@.len() - i,
        {
            out.push(chunk[i]);
            proof {
                assert(out@ =~= pre + u64_le(chunk@.len() as u64) + chunk@.take(i + 1));
            }
            i = i + 1;
        }
        proof {
            assert(chunk@.take(chunk@.len() as int) =~= chunk@);
            assert(out@ =~= pre + enc_bytes(chunk@));
        }
    }

    /// Serialize the live state: a digest over the body, then the version
    /// counter, the record count and each record's address, namespace,
    /// labels and uncompressed payload.
    #[verifier::rlimit(100)]
    pub fn create_snapshot(&self) -> (r: Vec<u8>)
        requires
            self.wf(),
        ensures
            r@ == snap_encode(self.revision, self.recs()),
    {
        let mut body: Vec<u8> = Vec::new();
        push_u64_le(&mut body, self.revision);
        push_u64_le(&mut body, self.objects.len() as u64);
        let ghost prefix = u64_le(self.revision) + u64_le(self.recs().len() as u64);
        proof {
            assert(body@ =~= prefix + enc_recs(self.recs().take(0)));
        }
        let mut i: usize = 0;
        while i < self.objects.len()
            invariant
                self.wf(),
                i <= self.recs().len(),
                prefix == u64_le(self.revision) + u64_le(self.recs().len() as u64),
                body@ == prefix + enc_recs(self.recs().take(i as int)),
            decreases self.recs().len() - i,
        {
            let ghost pre = body@;
            let r = &self.objects[i];
            Self::append_chunk(&mut body, r.kind.as_str().as_bytes());
            Self::append_chunk(&mut body, r.key.as_str().as_bytes());
            match &r.metadata.namespace {
                Some(ns) => {
                    body.push(1);
                    Self::append_chunk(&mut body, ns.as_str().as_bytes());
                },
                None => {
                    body.push(0);
                },
            }
            push_u64_le(&mut body, r.metadata.labels.len() as u64);
            let ghost lab_prefix = body@;
            let mut m: usize = 0;
            while m < r.metadata.labels.len()
                invariant
                    m <= r.metadata.labels@.len(),
                    r == self.objects@[i as int],
                    i < self.objects@.len(),
                    body@ == lab_prefix + enc_labels(r.metadata.labels@.take(m as int)),
                decreases r.metadata.labels@.len() - m,
            {
                let ghost lp = body@;
                Self::append_chunk(&mut body, r.metadata.labels[m].0.as_str().as_bytes());
                Self::append_chunk(&mut body, r.metadata.labels[m].1.as_str().as_bytes());
                proof {
                    let t1 = r.metadata.labels@.take(m + 1);
                    assert(t1.drop_last() =~= r.metadata.labels@.take(m as int));
                    assert(t1.last() == r.metadata.labels@[m as int]);
                    assert(body@ =~= lab_prefix + enc_labels(t1));
                }
                m = m + 1;
            }
            proof {
                assert(r.metadata.labels@.take(r.metadata.labels@.len() as int)
                    =~= r.metadata.labels@);
            }
            let payload = self.payload_bytes(i);
            Self::append_chunk(&mut body, payload.as_slice());
            proof {
                let t1 = self.recs().take(i + 1);
                assert(t1.drop_last() =~= self.recs().take(i as int));
                assert(t1.last() == self.recs()[i as int]);
                assert(body@ =~= pre + enc_rec(self.recs()[i as int]));
                assert(enc_recs(t1) =~= enc_recs(self.recs().take(i as int)) + enc_rec(
                    self.recs()[i as int],
                ));
                assert(body@ =~= prefix + enc_recs(t1));
            }
            i = i + 1;
        }
        proof {
            assert(self.recs().take(self.recs().len() as int) =~= self.recs());
        }
        let digest = sha3_256(body.as_slice());
        let mut out = digest;
        let mut i2: usize = 0;
        let ghost dg = digest_of(snap_body(self.revision, self.recs()));
        while i2 < body.len()
            invariant
                i2 <= body@.len(),
                body@ == snap_body(self.revision, self.recs()),
                out@ == dg + body@.take(i2 as int),
            decreases body@.len() - i2,
        {
            out.push(body[i2]);
            proof {
                assert(out@ =~= dg + body@.take(i2 + 1));
            }
            i2 = i2 + 1;
        }
        proof {
            assert(body@.take(body@.len() as int) =~= body@);
        }
        out
    }

    /// Read one length-prefixed byte run: the eight-byte little-endian
    /// length, then that many bytes.
    fn read_chunk(s: &[u8], off: &mut usize) -> (r: Option<Vec<u8>>)
        ensures
            r matches Some(v) ==> ({
                &&& *old(off) + 8 + v@.len() <= s@.len()
                &&& *final(off) == *old(off) + 8 + v@.len()
                &&& le_u64_at(s@, *old(off) as int) as int == v@.len()
                &&& v@ == s@.subrange(*old(off) + 8, *old(off) + 8 + v@.len())
            }),
            r is None ==> *final(off) == *old(off),
            *old(off) + 8 <= s@.len() && le_u64_at(s@, *old(off) as int) as int <= s@.len() - *old(
                off,
            ) - 8 ==> r is Some,
    {
        if *off > s.len() || s.len() - *off < 8 {
            return None;
        }
        let len_bytes = match Self::read_u64(s, off) {
            Some(v) => v,
            None => {
                return None;
            },
        };
        if len_bytes > (s.len() - *off) as u64 {
            *off = *off - 8;
            return None;
        }
        let n = len_bytes as usize;
        let start = *off;
        proof {
            assert(start + n <= s@.len());
        }
        let mut out: Vec<u8> = Vec::new();
        let mut m: usize = 0;
        while m < n
            invariant
                m <= n,
                start + n <= s@.len(),
                s@.len() <= usize::MAX,
                out@.len() == m,
                out@ =~= s@.subrange(start as int, start + m),
            decreases n - m,
        {
            out.push(s[start + m]);
            proof {
                assert(out@ =~= s@.subrange(start as int, start + m + 1));
            }
            m = m + 1;
        }
        *off = start + n;
        Some(out)
    }

    /// Split a suffix into a prefix of the given length and the rest.
    proof fn lemma_skip_split(s: Seq<u8>, off: int, n: int)
        requires
            0 <= off,
            0 <= n,
            off + n <= s.len(),
        ensures
            s.skip(off) == s.subrange(off, off + n) + s.skip(off + n),
    {
        assert(s.skip(off) =~= s.subrange(off, off + n) + s.skip(off + n));
    }

    /// The bytes of a record's encoding after the kind chunk.
    pub open spec fn rec_tail1(s: Seq<u8>, off0: int, r2: StoredRecord) -> Seq<u8> {
        enc_bytes(vstd::utf8::encode_utf8(r2.key@)) + Self::rec_tail2(s, off0, r2)
    }

    /// ... after the key chunk.
    pub open spec fn rec_tail2(s: Seq<u8>, off0: int, r2: StoredRecord) -> Seq<u8> {
        enc_ns(r2.metadata.namespace) + Self::rec_tail3(s, off0, r2)
    }

    /// ... after the namespace.
    pub open spec fn rec_tail3(s: Seq<u8>, off0: int, r2: StoredRecord) -> Seq<u8> {
        u64_le(r2.metadata.labels@.len() as u64) + Self::rec_tail4(s, off0, r2)
    }

    /// ... after the label count.
    pub open spec fn rec_tail4(s: Seq<u8>, off0: int, r2: StoredRecord) -> Seq<u8> {
        enc_labels_tail(r2.metadata.labels@) + Self::rec_tail5(s, off0, r2)
    }

    /// ... after the labels: the payload chunk, then whatever follows the
    /// record.
    pub open spec fn rec_tail5(s: Seq<u8>, off0: int, r2: StoredRecord) -> Seq<u8> {
        enc_bytes(r2.payload@) + s.skip(off0 + enc_rec(r2).len())
    }

    /// Apply the parsing layout of one record: when the bytes at `off0`
    /// hold `enc_rec(r2)`, each field sits at its computed position. Used
    /// through `skip`-form equalities.
    proof fn lemma_rec_layout(s: Seq<u8>, off0: int, r2: StoredRecord)
        requires
            0 <= off0 <= s.len(),
            s.len() <= usize::MAX,
            off0 + enc_rec(r2).len() <= s.len(),
            s.subrange(off0, off0 + enc_rec(r2).len()) == enc_rec(r2),
        ensures
            s.skip(off0) == enc_bytes(vstd::utf8::encode_utf8(r2.kind@)) + Self::rec_tail1(
                s,
                off0,
                r2,
            ),
    {
        lemma_enc_labels_tail_eq(r2.metadata.labels@);
        Self::lemma_skip_split(s, off0, enc_rec(r2).len() as int);
        assert(s.skip(off0) =~= enc_bytes(vstd::utf8::encode_utf8(r2.kind@)) + Self::rec_tail1(
            s,
            off0,
            r2,
        ));
    }

    /// One record's snapshot-layout hypothesis: its encoding sits at
    /// `off0` in `s`.
    pub open spec fn rec_at_off(s: Seq<u8>, off0: int, r2: StoredRecord) -> bool {
        &&& off0 + enc_rec(r2).len() <= s.len()
        &&& s.subrange(off0, off0 + enc_rec(r2).len()) == enc_rec(r2)
    }

    /// Read one length-prefixed UTF-8 string.
    fn read_text(s: &[u8], off: &mut usize) -> (r: Option<String>)
        ensures
            r is Some ==> *old(off) <= *final(off) <= s@.len(),
            forall|t: Seq<char>, rest: Seq<u8>|
                s@.skip(*old(off) as int) == #[trigger] (enc_bytes(vstd::utf8::encode_utf8(t))
                    + rest) && s@.len() <= usize::MAX && *old(off) <= s@.len() ==> (r matches Some(
                    v,
                ) && v@ == t && *final(off) as int == *old(off) + 8 + vstd::utf8::encode_utf8(
                    t,
                ).len()),
    {
        let ghost off0 = *old(off) as int;
        let chunk = match Self::read_chunk(s, off) {
            Some(v) => v,
            None => {
                proof {
                    assert forall|t: Seq<char>, rest: Seq<u8>|
                        s@.skip(off0) == #[trigger] (enc_bytes(vstd::utf8::encode_utf8(t)) + rest)
                            && s@.len() <= usize::MAX && off0 <= s@.len() implies false by {
                        lemma_chunk_layout(s@, off0, vstd::utf8::encode_utf8(t), rest);
                    }
                }
                return None;
            },
        };
        let ghost cb = chunk@;
        let ghost off1 = *off as int;
        proof {
            assert forall|t: Seq<char>, rest: Seq<u8>|
                s@.skip(off0) == #[trigger] (enc_bytes(vstd::utf8::encode_utf8(t)) + rest)
                    && s@.len() <= usize::MAX && off0 <= s@.len() implies (cb
                == vstd::utf8::encode_utf8(t) && off1 == off0 + 8 + vstd::utf8::encode_utf8(
                t,
            ).len()) by {
                let et = vstd::utf8::encode_utf8(t);
                lemma_chunk_layout(s@, off0, et, rest);
                assert(cb.len() == et.len());
                assert(cb == s@.subrange(off0 + 8, off0 + 8 + et.len()));
            }
        }
        match crate::codec::bytes_to_string(chunk) {
            Some(v) => Some(v),
            None => {
                proof {
                    assert forall|t: Seq<char>, rest: Seq<u8>|
                        s@.skip(off0) == #[trigger] (enc_bytes(vstd::utf8::encode_utf8(t)) + rest)
                            && s@.len() <= usize::MAX && off0 <= s@.len() implies false by {
                        assert(vstd::utf8::encode_utf8(t) == cb);
                    }
                }
                None
            },
        }
    }

    /// Peel one pair off a label-list encoding.
    proof fn lemma_labels_step(l2: Seq<(String, String)>, li: int, tail: Seq<u8>)
        requires
            0 <= li < l2.len(),
        ensures
            enc_labels_tail(l2.skip(li)) + tail == enc_bytes(
                vstd::utf8::encode_utf8(l2[li].0@),
            ) + (enc_bytes(vstd::utf8::encode_utf8(l2[li].1@)) + (enc_labels_tail(l2.skip(li + 1))
                + tail)),
    {
        assert(l2.skip(li)[0] == l2[li]);
        assert(l2.skip(li).skip(1) =~= l2.skip(li + 1));
        assert(enc_labels_tail(l2.skip(li)) + tail =~= enc_bytes(
            vstd::utf8::encode_utf8(l2[li].0@),
        ) + (enc_bytes(vstd::utf8::encode_utf8(l2[li].1@)) + (enc_labels_tail(l2.skip(li + 1))
            + tail)));
    }

    /// Read one label pair: two length-prefixed texts.
    #[verifier::rlimit(100)]
    #[verifier::spinoff_prover]
    fn read_label_pair(s: &[u8], off: &mut usize) -> (r: Option<(String, String)>)
        ensures
            r is Some ==> *old(off) <= *final(off) <= s@.len(),
            forall|a: Seq<char>, b: Seq<char>, rest: Seq<u8>|
                s@.skip(*old(off) as int) == #[trigger] (enc_bytes(vstd::utf8::encode_utf8(a)) + (
                enc_bytes(vstd::utf8::encode_utf8(b)) + rest)) && s@.len() <= usize::MAX && *old(
                    off,
                ) <= s@.len() ==> (r matches Some(p) && p.0@ == a && p.1@ == b && s@.skip(
                    *final(off) as int,
                ) == rest),
    {
        let ghost off_a = *old(off) as int;
        let lk = match Self::read_text(s, off) {
            Some(v) => v,
            None => {
                proof {
                    assert forall|a: Seq<char>, b: Seq<char>, rest: Seq<u8>|
                        s@.skip(off_a) == #[trigger] (enc_bytes(vstd::utf8::encode_utf8(a)) + (
                        enc_bytes(vstd::utf8::encode_utf8(b)) + rest)) && s@.len() <= usize::MAX
                            && off_a <= s@.len() implies false by {}
                }
                return None;
            },
        };
        let ghost off_b = *off as int;
        proof {
            assert forall|a: Seq<char>, b: Seq<char>, rest: Seq<u8>|
                s@.skip(off_a) == #[trigger] (enc_bytes(vstd::utf8::encode_utf8(a)) + (enc_bytes(
                    vstd::utf8::encode_utf8(b),
                ) + rest)) && s@.len() <= usize::MAX && off_a <= s@.len() implies (lk@ == a
                && off_b == off_a + 8 + vstd::utf8::encode_utf8(a).len() && s@.skip(off_b)
                == enc_bytes(vstd::utf8::encode_utf8(b)) + rest) by {
                lemma_chunk_layout(
                    s@,
                    off_a,
                    vstd::utf8::encode_utf8(a),
                    enc_bytes(vstd::utf8::encode_utf8(b)) + rest,
                );
                lemma_chunk_layout(s@, off_b, vstd::utf8::encode_utf8(b), rest);
            }
        }
        let lv = match Self::read_text(s, off) {
            Some(v) => v,
            None => {
                proof {
                    assert forall|a: Seq<char>, b: Seq<char>, rest: Seq<u8>|
                        s@.skip(off_a) == #[trigger] (enc_bytes(vstd::utf8::encode_utf8(a)) + (
                        enc_bytes(vstd::utf8::encode_utf8(b)) + rest)) && s@.len() <= usize::MAX
                            && off_a <= s@.len() implies false by {}
                }
                return None;
            },
        };
        proof {
            assert forall|a: Seq<char>, b: Seq<char>, rest: Seq<u8>|
                s@.skip(off_a) == #[trigger] (enc_bytes(vstd::utf8::encode_utf8(a)) + (enc_bytes(
                    vstd::utf8::encode_utf8(b),
                ) + rest)) && s@.len() <= usize::MAX && off_a <= s@.len() implies s@.skip(
                *off as int,
            ) == rest by {
                lemma_chunk_layout(
                    s@,
                    off_a,
                    vstd::utf8::encode_utf8(a),
                    enc_bytes(vstd::utf8::encode_utf8(b)) + rest,
                );
                lemma_chunk_layout(s@, off_b, vstd::utf8::encode_utf8(b), rest);
            }
        }
        Some((lk, lv))
    }

    /// Read the label pairs of one record whose encoding sits at `off0`.
    #[verifier::rlimit(100)]
    #[verifier::spinoff_prover]
    fn read_labels(s: &[u8], off: &mut usize, nlabels: u64, Ghost(off0): Ghost<int>) -> (r: Option<
        Vec<(String, String)>,
    >)
        requires
            *old(off) <= s@.len(),
            s@.len() <= usize::MAX,
            forall|r2: StoredRecord|
                #[trigger] Self::rec_at_off(s@, off0, r2) ==> (nlabels as int
                    == r2.metadata.labels@.len() && s@.skip(*old(off) as int) == enc_labels_tail(
                    r2.metadata.labels@.skip(0),
                ) + Self::rec_tail5(s@, off0, r2)),
        ensures
            r is Some ==> *old(off) <= *final(off) <= s@.len(),
            forall|r2: StoredRecord|
                #[trigger] Self::rec_at_off(s@, off0, r2) ==> (r matches Some(v) && labels_view(
                    v@,
                ) == labels_view(r2.metadata.labels@) && s@.skip(*final(off) as int)
                    == Self::rec_tail5(s@, off0, r2)),
    {
        let ghost start0 = *old(off) as int;
        let mut labels: Vec<(String, String)> = Vec::new();
        let mut li: u64 = 0;
        while li < nlabels
            invariant
                li <= nlabels,
                start0 <= *off as int,
                *off <= s@.len(),
                s@.len() <= usize::MAX,
                labels@.len() == li,
                forall|r2: StoredRecord|
                    #[trigger] Self::rec_at_off(s@, off0, r2) ==> (li as int
                        <= r2.metadata.labels@.len() && nlabels as int == r2.metadata.labels@.len()
                        && labels_view(labels@) == labels_view(
                        r2.metadata.labels@.take(li as int),
                    ) && s@.skip(*off as int) == enc_labels_tail(
                        r2.metadata.labels@.skip(li as int),
                    ) + Self::rec_tail5(s@, off0, r2)),
            decreases nlabels - li,
        {
            let ghost off_a = *off as int;
            proof {
                // The pair's two texts sit at the cursor.
                assert forall|r2: StoredRecord|
                    #[trigger] Self::rec_at_off(s@, off0, r2) implies (s@.skip(off_a) == enc_bytes(
                    vstd::utf8::encode_utf8(r2.metadata.labels@[li as int].0@),
                ) + (enc_bytes(vstd::utf8::encode_utf8(r2.metadata.labels@[li as int].1@)) + (
                enc_labels_tail(r2.metadata.labels@.skip(li as int + 1)) + Self::rec_tail5(
                    s@,
                    off0,
                    r2,
                )))) by {
                    Self::lemma_labels_step(
                        r2.metadata.labels@,
                        li as int,
                        Self::rec_tail5(s@, off0, r2),
                    );
                }
            }
            let pair = match Self::read_label_pair(s, off) {
                Some(p) => p,
                None => {
                    proof {
                        assert forall|r2: StoredRecord|
                            #[trigger] Self::rec_at_off(s@, off0, r2) implies false by {}
                    }
                    return None;
                },
            };
            let ghost pair_v = (pair.0@, pair.1@);
            let ghost off_d = *off as int;
            proof {
                assert forall|r2: StoredRecord|
                    #[trigger] Self::rec_at_off(s@, off0, r2) implies (pair_v.0
                    == r2.metadata.labels@[li as int].0@ && pair_v.1 == r2.metadata.labels@[
                li as int].1@ && s@.skip(off_d) == enc_labels_tail(
                    r2.metadata.labels@.skip(li as int + 1),
                ) + Self::rec_tail5(s@, off0, r2)) by {
                    let l2 = r2.metadata.labels@;
                    assert(s@.skip(off_a) == enc_bytes(
                        vstd::utf8::encode_utf8(l2[li as int].0@),
                    ) + (enc_bytes(vstd::utf8::encode_utf8(l2[li as int].1@)) + (enc_labels_tail(
                        l2.skip(li as int + 1),
                    ) + Self::rec_tail5(s@, off0, r2))));
                }
            }
            let ghost labels_pre = labels@;
            labels.push(pair);
            proof {
                assert(labels@.len() == li + 1);
                assert(labels@[li as int].0@ == pair_v.0);
                assert(labels@[li as int].1@ == pair_v.1);
                assert forall|r2: StoredRecord|
                    #[trigger] Self::rec_at_off(s@, off0, r2) implies (labels_view(labels@)
                    == labels_view(r2.metadata.labels@.take(li as int + 1)) && s@.skip(
                    *off as int,
                ) == enc_labels_tail(r2.metadata.labels@.skip(li as int + 1)) + Self::rec_tail5(
                    s@,
                    off0,
                    r2,
                )) by {
                    let l2 = r2.metadata.labels@;
                    assert(labels@[li as int].0@ == l2[li as int].0@);
                    assert(labels@[li as int].1@ == l2[li as int].1@);
                    assert forall|m: int| 0 <= m < li as int + 1 implies #[trigger] labels_view(
                        labels@,
                    )[m] == labels_view(l2.take(li as int + 1))[m] by {
                        assert(labels_view(labels@)[m] == (labels@[m].0@, labels@[m].1@));
                        assert(l2.take(li as int + 1)[m] == l2[m]);
                        assert(labels_view(l2.take(li as int + 1))[m] == (l2[m].0@, l2[m].1@));
                        if m < li as int {
                            assert(labels@[m] == labels_pre[m]);
                            assert(labels_view(labels_pre)[m] == labels_view(
                                l2.take(li as int),
                            )[m]);
                            assert(labels_view(labels_pre)[m] == (
                                labels_pre[m].0@,
                                labels_pre[m].1@,
                            ));
                            assert(l2.take(li as int)[m] == l2[m]);
                            assert(labels_view(l2.take(li as int))[m] == (l2[m].0@, l2[m].1@));
                        }
                    }
                    assert(labels_view(labels@) =~= labels_view(l2.take(li as int + 1)));
                }
            }
            li = li + 1;
        }
        proof {
            assert forall|r2: StoredRecord|
                #[trigger] Self::rec_at_off(s@, off0, r2) implies (labels_view(labels@)
                == labels_view(r2.metadata.labels@) && s@.skip(*off as int) == Self::rec_tail5(
                s@,
                off0,
                r2,
            )) by {
                let l2 = r2.metadata.labels@;
                assert(l2.take(li as int) =~= l2);
                assert(l2.skip(li as int) =~= Seq::<(String, String)>::empty());
                assert(enc_labels_tail(l2.skip(li as int)) == Seq::<u8>::empty());
                assert(Seq::<u8>::empty() + Self::rec_tail5(s@, off0, r2) =~= Self::rec_tail5(
                    s@,
                    off0,
                    r2,
                ));
            }
        }
        Some(labels)
    }

    /// The namespace encoding's first byte flags its presence, and the
    /// rest follows after it.
    proof fn lemma_ns_layout(s: Seq<u8>, off2: int, ns: Option<String>, tail: Seq<u8>)
        requires
            0 <= off2 <= s.len(),
            s.skip(off2) == enc_ns(ns) + tail,
        ensures
            off2 < s.len(),
            s[off2] == (match ns {
                Some(_) => 1u8,
                None => 0u8,
            }),
            ns matches Some(n) ==> s.skip(off2 + 1) == enc_bytes(vstd::utf8::encode_utf8(n@))
                + tail,
            ns is None ==> s.skip(off2 + 1) == tail,
    {
        assert(s.skip(off2).len() == s.len() - off2);
        assert((enc_ns(ns) + tail).len() >= 1);
        assert(s[off2] == s.skip(off2)[0]);
        assert(s.skip(off2)[0] == (enc_ns(ns) + tail)[0]);
        match ns {
            Some(n) => {
                assert(s.skip(off2 + 1) =~= (enc_ns(ns) + tail).skip(1));
                assert((enc_ns(ns) + tail).skip(1) =~= enc_bytes(vstd::utf8::encode_utf8(n@))
                    + tail);
            },
            None => {
                assert(s.skip(off2 + 1) =~= (enc_ns(ns) + tail).skip(1));
                assert((enc_ns(ns) + tail).skip(1) =~= tail);
            },
        }
    }

    /// Read the optional namespace of one record whose encoding sits at
    /// `off0`: a presence byte, then the bytes when present.
    #[verifier::rlimit(100)]
    #[verifier::spinoff_prover]
    fn read_ns(s: &[u8], off: &mut usize, Ghost(off0): Ghost<int>) -> (r: Option<Option<String>>)
        requires
            *old(off) <= s@.len(),
            s@.len() <= usize::MAX,
            forall|r2: StoredRecord|
                #[trigger] Self::rec_at_off(s@, off0, r2) ==> s@.skip(*old(off) as int) == enc_ns(
                    r2.metadata.namespace,
                ) + Self::rec_tail3(s@, off0, r2),
        ensures
            r is Some ==> *old(off) <= *final(off) <= s@.len(),
            forall|r2: StoredRecord|
                #[trigger] Self::rec_at_off(s@, off0, r2) ==> (r matches Some(ns) && (match (
                    ns,
                    r2.metadata.namespace,
                ) {
                    (Some(a), Some(b)) => a@ == b@,
                    (None, None) => true,
                    _ => false,
                }) && s@.skip(*final(off) as int) == Self::rec_tail3(s@, off0, r2)),
    {
        let ghost off2 = *old(off) as int;
        let slen = s.len();
        if *off >= slen {
            proof {
                assert forall|r2: StoredRecord|
                    #[trigger] Self::rec_at_off(s@, off0, r2) implies false by {
                    assert(s@.skip(off2).len() >= 1);
                }
            }
            return None;
        }
        let flag = s[*off];
        *off = *off + 1;
        let ghost off3 = *off as int;
        if flag == 1 {
            proof {
                assert forall|r2: StoredRecord|
                    #[trigger] Self::rec_at_off(s@, off0, r2) implies (r2.metadata.namespace
                    is Some && s@.skip(off3) == enc_bytes(
                    vstd::utf8::encode_utf8(r2.metadata.namespace->Some_0@),
                ) + Self::rec_tail3(s@, off0, r2)) by {
                    Self::lemma_ns_layout(
                        s@,
                        off2,
                        r2.metadata.namespace,
                        Self::rec_tail3(s@, off0, r2),
                    );
                }
            }
            let ns_s = match Self::read_text(s, off) {
                Some(v) => v,
                None => {
                    proof {
                        assert forall|r2: StoredRecord|
                            #[trigger] Self::rec_at_off(s@, off0, r2) implies false by {}
                    }
                    return None;
                },
            };
            proof {
                assert forall|r2: StoredRecord|
                    #[trigger] Self::rec_at_off(s@, off0, r2) implies (ns_s@
                    == r2.metadata.namespace->Some_0@ && s@.skip(*off as int) == Self::rec_tail3(
                    s@,
                    off0,
                    r2,
                )) by {
                    lemma_chunk_layout(
                        s@,
                        off3,
                        vstd::utf8::encode_utf8(r2.metadata.namespace->Some_0@),
                        Self::rec_tail3(s@, off0, r2),
                    );
                }
            }
            Some(Some(ns_s))
        } else if flag != 0 {
            proof {
                assert forall|r2: StoredRecord|
                    #[trigger] Self::rec_at_off(s@, off0, r2) implies false by {
                    Self::lemma_ns_layout(
                        s@,
                        off2,
                        r2.metadata.namespace,
                        Self::rec_tail3(s@, off0, r2),
                    );
                }
            }
            None
        } else {
            proof {
                assert forall|r2: StoredRecord|
                    #[trigger] Self::rec_at_off(s@, off0, r2) implies (r2.metadata.namespace
                    is None && s@.skip(off3) == Self::rec_tail3(s@, off0, r2)) by {
                    Self::lemma_ns_layout(
                        s@,
                        off2,
                        r2.metadata.namespace,
                        Self::rec_tail3(s@, off0, r2),
                    );
                }
            }
            Some(None)
        }
    }

    /// Read a record's kind and key, leaving the cursor at the namespace.
    #[verifier::rlimit(100)]
    #[verifier::spinoff_prover]
    fn read_address(s: &[u8], off: &mut usize, Ghost(off0): Ghost<int>) -> (r: Option<
        (String, String),
    >)
        requires
            *old(off) <= s@.len(),
            s@.len() <= usize::MAX,
            off0 == *old(off) as int,
        ensures
            r is Some ==> *old(off) <= *final(off) <= s@.len(),
            forall|r2: StoredRecord|
                #[trigger] Self::rec_at_off(s@, off0, r2) ==> (r matches Some(p) && p.0@
                    == r2.kind@ && p.1@ == r2.key@ && s@.skip(*final(off) as int) == enc_ns(
                    r2.metadata.namespace,
                ) + Self::rec_tail3(s@, off0, r2)),
    {
        let ghost off0 = *old(off) as int;
        let slen = s.len();
        proof {
            // Milestone 0: the whole record's pieces from the cursor.
            assert forall|r2: StoredRecord|
                #[trigger] Self::rec_at_off(s@, off0, r2) implies (s@.skip(off0) == enc_bytes(
                vstd::utf8::encode_utf8(r2.kind@),
            ) + Self::rec_tail1(s@, off0, r2)) by {
                Self::lemma_rec_layout(s@, off0, r2);
            }
        }
        // Field 1: the kind.
        let kind_s = match Self::read_text(s, off) {
            Some(v) => v,
            None => {
                proof {
                    assert forall|r2: StoredRecord|
                        #[trigger] Self::rec_at_off(s@, off0, r2) implies false by {}
                }
                return None;
            },
        };
        let ghost off1 = *off as int;
        proof {
            // Milestone 1: past the kind.
            assert forall|r2: StoredRecord|
                #[trigger] Self::rec_at_off(s@, off0, r2) implies (kind_s@ == r2.kind@ && off1
                == off0 + 8 + vstd::utf8::encode_utf8(r2.kind@).len() && s@.skip(off1)
                == enc_bytes(vstd::utf8::encode_utf8(r2.key@)) + Self::rec_tail2(
                s@,
                off0,
                r2,
            )) by {
                lemma_chunk_layout(
                    s@,
                    off0,
                    vstd::utf8::encode_utf8(r2.kind@),
                    Self::rec_tail1(s@, off0, r2),
                );
            }
        }
        // Field 2: the key.
        let key_s = match Self::read_text(s, off) {
            Some(v) => v,
            None => {
                proof {
                    assert forall|r2: StoredRecord|
                        #[trigger] Self::rec_at_off(s@, off0, r2) implies false by {}
                }
                return None;
            },
        };
        let ghost off2 = *off as int;
        proof {
            // Milestone 2: past the key, at the namespace flag.
            assert forall|r2: StoredRecord|
                #[trigger] Self::rec_at_off(s@, off0, r2) implies (key_s@ == r2.key@ && off2
                == off1 + 8 + vstd::utf8::encode_utf8(r2.key@).len() && s@.skip(off2) == enc_ns(
                r2.metadata.namespace,
            ) + Self::rec_tail3(s@, off0, r2)) by {
                lemma_chunk_layout(
                    s@,
                    off1,
                    vstd::utf8::encode_utf8(r2.key@),
                    Self::rec_tail2(s@, off0, r2),
                );
            }
        }
        Some((kind_s, key_s))
    }

    /// Read one record: kind, key, namespace, labels, payload. Whenever
    /// some record's encoding sits at the cursor, the read succeeds, the
    /// parsed fields carry that record's projections, and the cursor lands
    /// right after the encoding.
    #[verifier::rlimit(100)]
    #[verifier::spinoff_prover]
    fn read_record(s: &[u8], off: &mut usize) -> (r: Option<ParsedRecord>)
        requires
            *old(off) <= s@.len(),
            s@.len() <= usize::MAX,
        ensures
            r is Some ==> *old(off) <= *final(off) <= s@.len(),
            forall|r2: StoredRecord|
                #[trigger] Self::rec_at_off(s@, *old(off) as int, r2) ==> (r matches Some(p)
                    && parsed_matches(p, r2) && *final(off) as int == *old(off) + enc_rec(
                    r2,
                ).len()),
    {
        let ghost off0 = *old(off) as int;
        let pair_addr = match Self::read_address(s, off, Ghost(off0)) {
            Some(v) => v,
            None => {
                proof {
                    assert forall|r2: StoredRecord|
                        #[trigger] Self::rec_at_off(s@, off0, r2) implies false by {}
                }
                return None;
            },
        };
        let kind_s = pair_addr.0;
        let key_s = pair_addr.1;
        let ghost kind_v = kind_s@;
        let ghost key_v = key_s@;
        // Field 3: the optional namespace.
        let namespace = match Self::read_ns(s, off, Ghost(off0)) {
            Some(v) => v,
            None => {
                proof {
                    assert forall|r2: StoredRecord|
                        #[trigger] Self::rec_at_off(s@, off0, r2) implies false by {}
                }
                return None;
            },
        };
        let ghost off4 = *off as int;
        proof {
            assert forall|r2: StoredRecord|
                #[trigger] Self::rec_at_off(s@, off0, r2) implies (s@.skip(off4) == u64_le(
                r2.metadata.labels@.len() as u64,
            ) + Self::rec_tail4(s@, off0, r2)) by {}
        }
        // Field 4: the label count, then the pairs.
        let nlabels = match Self::read_u64(s, off) {
            Some(v) => v,
            None => {
                proof {
                    assert forall|r2: StoredRecord|
                        #[trigger] Self::rec_at_off(s@, off0, r2) implies false by {
                        lemma_u64_field_layout(
                            s@,
                            off4,
                            r2.metadata.labels@.len() as u64,
                            Self::rec_tail4(s@, off0, r2),
                        );
                    }
                }
                return None;
            },
        };
        let ghost off5 = *off as int;
        proof {
            // Milestone 5: past the count, at the label pairs.
            assert forall|r2: StoredRecord|
                #[trigger] Self::rec_at_off(s@, off0, r2) implies (nlabels as int
                == r2.metadata.labels@.len() && s@.skip(off5) == enc_labels_tail(
                r2.metadata.labels@.skip(0),
            ) + Self::rec_tail5(s@, off0, r2)) by {
                lemma_enc_labels_tail_len(r2.metadata.labels@);
                lemma_u64_field_layout(
                    s@,
                    off4,
                    r2.metadata.labels@.len() as u64,
                    Self::rec_tail4(s@, off0, r2),
                );
                assert(r2.metadata.labels@.skip(0) =~= r2.metadata.labels@);
            }
        }
        let labels = match Self::read_labels(s, off, nlabels, Ghost(off0)) {
            Some(v) => v,
            None => {
                proof {
                    assert forall|r2: StoredRecord|
                        #[trigger] Self::rec_at_off(s@, off0, r2) implies false by {}
                }
                return None;
            },
        };
        let ghost off6 = *off as int;
        // Field 5: the payload.
        proof {
            assert forall|r2: StoredRecord|
                #[trigger] Self::rec_at_off(s@, off0, r2) implies (s@.skip(off6) == enc_bytes(
                r2.payload@,
            ) + s@.skip(off0 + enc_rec(r2).len())) by {}
        }
        let payload = match Self::read_chunk(s, off) {
            Some(v) => v,
            None => {
                proof {
                    assert forall|r2: StoredRecord|
                        #[trigger] Self::rec_at_off(s@, off0, r2) implies false by {
                        lemma_chunk_layout(
                            s@,
                            off6,
                            r2.payload@,
                            s@.skip(off0 + enc_rec(r2).len()),
                        );
                    }
                }
                return None;
            },
        };
        let ghost off7 = *off as int;
        proof {
            assert forall|r2: StoredRecord|
                #[trigger] Self::rec_at_off(s@, off0, r2) implies (payload@ == r2.payload@ && off7
                == off0 + enc_rec(r2).len()) by {
                lemma_chunk_layout(s@, off6, r2.payload@, s@.skip(off0 + enc_rec(r2).len()));
                assert(payload@.len() == r2.payload@.len());
                assert(payload@ == s@.subrange(off6 + 8, off6 + 8 + r2.payload@.len()));
            }
        }
        Some(ParsedRecord { kind: kind_s, key: key_s, namespace, labels, payload })
    }

    /// Replace the live state with a snapshot's. The digest over the body
    /// is validated first; a mismatch or a malformed body is refused as
    /// `IntegrityError` and nothing changes. Restore owes success on every
    /// well-formed snapshot whose records fit the configured limit, and
    /// then holds exactly the snapshot's records, re-filed through the
    /// same verified path that created them, with the counter at least
    /// the snapshot's.
    #[verifier::rlimit(100)]
    #[verifier::spinoff_prover]
    pub fn restore_snapshot(&mut self, snapshot: &[u8]) -> (r: Result<(), StoreError>)
        requires
            old(self).wf(),
        ensures
            final(self).wf(),
            r is Err ==> *final(self) == *old(self),
            r is Ok ==> final(self).config == old(self).config,
            r is Ok ==> snapshot@.len() >= 48 && snapshot@.subrange(0, 32) == digest_of(
                snapshot@.skip(32),
            ),
            r is Ok ==> final(self).recs().len() as int == le_u64_at(
                snapshot@.skip(32),
                8int,
            ) as int && final(self).revision >= le_u64_at(snapshot@.skip(32), 0int),
            // Success is owed: a failure means no well-formed snapshot can
            // explain the bytes.
            r is Err ==> forall|rev2: u64, rs2: Seq<StoredRecord>|
                !#[trigger] snap_pre_image(snapshot@, old(self).config, rev2, rs2),
            // On success the rebuilt table carries the snapshot's records:
            // same count, same kind, key, namespace, labels and payload,
            // in order, and the counter is past the snapshot's.
            r is Ok ==> forall|rev2: u64, rs2: Seq<StoredRecord>|
                #[trigger] snap_pre_image(snapshot@, old(self).config, rev2, rs2) ==> (final(self).recs().len() == rs2.len() && final(self).revision >= rev2 && (forall|i: int|
                    0 <= i < rs2.len() ==> rec_projection_eq(
                        #[trigger] final(self).recs()[i],
                        rs2[i],
                    ))),
    {
        let ghost cfg0 = old(self).config;
        if snapshot.len() < 48 {
            proof {
                assert forall|rev2: u64, rs2: Seq<StoredRecord>|
                    #[trigger] snap_pre_image(snapshot@, cfg0, rev2, rs2) implies false by {
                    assert(snapshot@.len() == 32 + snap_body(rev2, rs2).len());
                    assert(snap_body(rev2, rs2).len() >= 16);
                }
            }
            return Err(StoreError::IntegrityError);
        }
        let digest_part = vstd::slice::slice_subrange(snapshot, 0, 32);
        let body = vstd::slice::slice_subrange(snapshot, 32, snapshot.len());
        proof {
            assert(body@ =~= snapshot@.skip(32));
            assert forall|rev2: u64, rs2: Seq<StoredRecord>|
                #[trigger] snap_pre_image(snapshot@, cfg0, rev2, rs2) implies (body@ == snap_body(
                rev2,
                rs2,
            ) && digest_part@ == digest_of(snap_body(rev2, rs2))) by {
                assert(snapshot@ == digest_of(snap_body(rev2, rs2)) + snap_body(rev2, rs2));
                assert(body@ =~= snap_body(rev2, rs2));
                assert(digest_part@ =~= digest_of(snap_body(rev2, rs2)));
            }
        }
        let fresh_digest = sha3_256(body);
        if !bytes_eq(fresh_digest.as_slice(), digest_part) {
            proof {
                assert forall|rev2: u64, rs2: Seq<StoredRecord>|
                    #[trigger] snap_pre_image(snapshot@, cfg0, rev2, rs2) implies false by {
                    assert(fresh_digest@ == digest_of(body@));
                }
            }
            return Err(StoreError::IntegrityError);
        }
        let mut off: usize = 0;
        proof {
            assert forall|rev2: u64, rs2: Seq<StoredRecord>|
                #[trigger] snap_pre_image(snapshot@, cfg0, rev2, rs2) implies (body@.skip(0)
                == u64_le(rev2) + (u64_le(rs2.len() as u64) + enc_recs_tail(rs2))) by {
                lemma_enc_recs_tail_eq(rs2);
                assert(body@.skip(0) =~= u64_le(rev2) + (u64_le(rs2.len() as u64) + enc_recs_tail(
                    rs2,
                )));
            }
        }
        let revision = match Self::read_u64(body, &mut off) {
            Some(v) => v,
            None => {
                proof {
                    assert forall|rev2: u64, rs2: Seq<StoredRecord>|
                        #[trigger] snap_pre_image(snapshot@, cfg0, rev2, rs2) implies false by {
                        lemma_u64_field_layout(
                            body@,
                            0,
                            rev2,
                            u64_le(rs2.len() as u64) + enc_recs_tail(rs2),
                        );
                    }
                }
                return Err(StoreError::IntegrityError);
            },
        };
        let count = match Self::read_u64(body, &mut off) {
            Some(v) => v,
            None => {
                proof {
                    assert forall|rev2: u64, rs2: Seq<StoredRecord>|
                        #[trigger] snap_pre_image(snapshot@, cfg0, rev2, rs2) implies false by {
                        lemma_u64_field_layout(
                            body@,
                            0,
                            rev2,
                            u64_le(rs2.len() as u64) + enc_recs_tail(rs2),
                        );
                        lemma_u64_field_layout(body@, 8, rs2.len() as u64, enc_recs_tail(rs2));
                    }
                }
                return Err(StoreError::IntegrityError);
            },
        };
        proof {
            assert forall|rev2: u64, rs2: Seq<StoredRecord>|
                #[trigger] snap_pre_image(snapshot@, cfg0, rev2, rs2) implies (revision == rev2
                && count as int == rs2.len() && body@.skip(off as int) == enc_recs_tail(
                rs2.skip(0),
            )) by {
                lemma_u64_field_layout(
                    body@,
                    0,
                    rev2,
                    u64_le(rs2.len() as u64) + enc_recs_tail(rs2),
                );
                lemma_u64_field_layout(body@, 8, rs2.len() as u64, enc_recs_tail(rs2));
                assert(rs2.skip(0) =~= rs2);
            }
        }
        let mut fresh = TeeMemoryStore::with_config(StoreConfig { ..self.snapshot_config() });
        let mut n: u64 = 0;
        while n < count
            invariant
                self == old(self),
                old(self).wf(),
                fresh.wf(),
                fresh.config == cfg0,
                cfg0 == old(self).config,
                fresh.revision <= n + 1,
                fresh.recs().len() == n,
                n <= count,
                off <= body@.len(),
                body@.len() <= usize::MAX,
                forall|rev2: u64, rs2: Seq<StoredRecord>|
                    #[trigger] snap_pre_image(snapshot@, cfg0, rev2, rs2) ==> (revision == rev2
                        && count as int == rs2.len() && body@ == snap_body(rev2, rs2)
                        && body@.skip(off as int) == enc_recs_tail(rs2.skip(n as int)) && (forall|i: int|
                        0 <= i < n ==> rec_projection_eq(
                            #[trigger] fresh.recs()[i],
                            rs2[i],
                        ))),
            decreases count - n,
        {
            let ghost off_n = off as int;
            proof {
                assert forall|rev2: u64, rs2: Seq<StoredRecord>|
                    #[trigger] snap_pre_image(snapshot@, cfg0, rev2, rs2) implies Self::rec_at_off(
                    body@,
                    off_n,
                    rs2[n as int],
                ) by {
                    let tail = enc_recs_tail(rs2.skip(n as int + 1));
                    assert(rs2.skip(n as int)[0] == rs2[n as int]);
                    assert(rs2.skip(n as int).skip(1) =~= rs2.skip(n as int + 1));
                    assert(body@.skip(off_n) == enc_rec(rs2[n as int]) + tail);
                    assert(body@.subrange(off_n, off_n + enc_rec(rs2[n as int]).len())
                        =~= enc_rec(rs2[n as int])) by {
                        assert(forall|j: int|
                            0 <= j < enc_rec(rs2[n as int]).len() ==> body@.subrange(
                                off_n,
                                off_n + enc_rec(rs2[n as int]).len(),
                            )[j] == #[trigger] body@.skip(off_n)[j]);
                    }
                }
            }
            let parsed = match Self::read_record(body, &mut off) {
                Some(p) => p,
                None => {
                    proof {
                        assert forall|rev2: u64, rs2: Seq<StoredRecord>|
                            #[trigger] snap_pre_image(snapshot@, cfg0, rev2, rs2) implies false by {}
                    }
                    return Err(StoreError::IntegrityError);
                },
            };
            let ghost off_next = off as int;
            let ghost parsed_g = parsed;
            if fresh.current_revision() == u64::MAX {
                proof {
                    assert forall|rev2: u64, rs2: Seq<StoredRecord>|
                        #[trigger] snap_pre_image(snapshot@, cfg0, rev2, rs2) implies false by {}
                }
                return Err(StoreError::IntegrityError);
            }
            let md = ObjectMetadata {
                kind: parsed.kind.clone(),
                namespace: parsed.namespace,
                labels: parsed.labels,
                annotations: Vec::new(),
                size: 0,
                checksum: Vec::new(),
            };
            let ghost fresh_pre = fresh;
            let outcome = fresh.create_object(
                parsed.kind.as_str(),
                parsed.key.as_str(),
                parsed.payload.as_slice(),
                md,
            );
            match outcome.data {
                Ok(_) => {},
                Err(_) => {
                    proof {
                        assert forall|rev2: u64, rs2: Seq<StoredRecord>|
                            #[trigger] snap_pre_image(snapshot@, cfg0, rev2, rs2) implies false by {
                            // The key is fresh and the payload fits, so the
                            // create cannot have failed.
                            assert(parsed_matches(parsed_g, rs2[n as int]));
                            assert(rs2[n as int].payload@.len() <= cfg0.memory_limit);
                            if fresh_pre.has_rec(parsed_g.kind@, parsed_g.key@) {
                                let i = recs_idx(
                                    fresh_pre.recs(),
                                    parsed_g.kind@,
                                    parsed_g.key@,
                                );
                                assert(rec_projection_eq(fresh_pre.recs()[i], rs2[i]));
                                assert(!(rs2[i].kind@ == rs2[n as int].kind@ && rs2[i].key@
                                    == rs2[n as int].key@));
                            }
                        }
                    }
                    return Err(StoreError::IntegrityError);
                },
            }
            proof {
                assert forall|rev2: u64, rs2: Seq<StoredRecord>|
                    #[trigger] snap_pre_image(snapshot@, cfg0, rev2, rs2) implies (body@.skip(
                    off_next,
                ) == enc_recs_tail(rs2.skip(n as int + 1)) && (forall|i: int|
                    0 <= i < n + 1 ==> rec_projection_eq(
                        #[trigger] fresh.recs()[i],
                        rs2[i],
                    ))) by {
                    // The cursor landed right after the record's encoding.
                    let tail = enc_recs_tail(rs2.skip(n as int + 1));
                    assert(rs2.skip(n as int)[0] == rs2[n as int]);
                    assert(rs2.skip(n as int).skip(1) =~= rs2.skip(n as int + 1));
                    assert(body@.skip(off_n) == enc_rec(rs2[n as int]) + tail);
                    assert(off_next == off_n + enc_rec(rs2[n as int]).len());
                    assert(body@.skip(off_next) =~= tail) by {
                        assert(forall|j: int|
                            0 <= j < tail.len() ==> #[trigger] body@.skip(off_next)[j]
                                == body@.skip(off_n)[enc_rec(rs2[n as int]).len() + j]);
                    }
                    // The new record carries the parsed projections.
                    assert(parsed_matches(parsed_g, rs2[n as int]));
                    assert forall|i: int| 0 <= i < n + 1 implies rec_projection_eq(
                        #[trigger] fresh.recs()[i],
                        rs2[i],
                    ) by {
                        if i < n as int {
                            assert(fresh.recs()[i] == fresh_pre.recs()[i]);
                            assert(rec_projection_eq(fresh_pre.recs()[i], rs2[i]));
                        } else {
                            let nr = fresh.recs().last();
                            assert(fresh.recs()[i] == nr);
                            assert(nr.kind@ == parsed_g.kind@);
                            assert(nr.key@ == parsed_g.key@);
                            assert(nr.payload@ == parsed_g.payload@);
                            assert(nr.metadata.namespace == parsed_g.namespace);
                            assert(nr.metadata.labels == parsed_g.labels);
                        }
                    }
                }
            }
            n = n + 1;
        }
        if off != body.len() {
            proof {
                assert forall|rev2: u64, rs2: Seq<StoredRecord>|
                    #[trigger] snap_pre_image(snapshot@, cfg0, rev2, rs2) implies false by {
                    assert(rs2.skip(n as int) =~= Seq::<StoredRecord>::empty());
                    assert(enc_recs_tail(rs2.skip(n as int)) == Seq::<u8>::empty());
                    assert(body@.skip(off as int).len() == 0);
                }
            }
            return Err(StoreError::IntegrityError);
        }
        // Fast-forward the counter to the snapshot's, then swap.
        if revision > fresh.revision {
            let ghost before = fresh;
            fresh.revision = revision;
            proof {
                assert forall|a: int| 0 <= a < fresh.recs().len() implies #[trigger] Self::rec_wf(
                    fresh.recs()[a],
                ) && fresh.recs()[a].resource_version < fresh.revision by {
                    assert(Self::rec_wf(before.recs()[a]));
                    assert(before.recs()[a].resource_version < before.revision);
                }
                assert forall|a: int| 0 <= a < fresh.evs().len() implies 1 <= #[trigger] fresh.evs()[a].version
                    < fresh.revision && fresh.evs()[a].version > fresh.dropped_hi by {
                    assert(1 <= before.evs()[a].version < before.revision);
                }
                Self::lemma_wf_same_data(
                    before,
                    TeeMemoryStore { revision: before.revision, ..fresh },
                );
            }
        }
        proof {
            assert(fresh.wf()) by {
                Self::lemma_wf_same_data(fresh, fresh);
            }
        }
        let ghost fresh_g = fresh;
        let kept_metrics = self.metrics;
        *self = fresh;
        self.metrics = kept_metrics;
        proof {
            Self::lemma_wf_same_data(fresh_g, *self);
        }
        Ok(())
    }

    /// A copy of the configuration, for rebuilding.
    fn snapshot_config(&self) -> (r: StoreConfig)
        ensures
            r == self.config,
    {
        StoreConfig {
            max_objects: self.config.max_objects,
            compression_threshold: self.config.compression_threshold,
            memory_limit: self.config.memory_limit,
            integrity_check: self.config.integrity_check,
            batch_size: self.config.batch_size,
            change_ring_capacity: self.config.change_ring_capacity,
        }
    }

    /// Read one little-endian u64.
    fn read_u64(s: &[u8], off: &mut usize) -> (r: Option<u64>)
        ensures
            r matches Some(v) ==> *final(off) == *old(off) + 8 && *final(off) <= s@.len() && v
                == le_u64_at(s@, *old(off) as int),
            r is None ==> *final(off) == *old(off),
            *old(off) + 8 <= s@.len() ==> r is Some,
    {
        if *off > s.len() || s.len() - *off < 8 {
            return None;
        }
        let b0 = s[*off] as u64;
        let b1 = s[*off + 1] as u64;
        let b2 = s[*off + 2] as u64;
        let b3 = s[*off + 3] as u64;
        let b4 = s[*off + 4] as u64;
        let b5 = s[*off + 5] as u64;
        let b6 = s[*off + 6] as u64;
        let b7 = s[*off + 7] as u64;
        let v = b0 | (b1 << 8u64) | (b2 << 16u64) | (b3 << 24u64) | (b4 << 32u64) | (b5 << 40u64)
            | (b6 << 48u64) | (b7 << 56u64);
        proof {
            assert(b0 | (b1 << 8u64) | (b2 << 16u64) | (b3 << 24u64) | (b4 << 32u64) | (b5
                << 40u64) | (b6 << 48u64) | (b7 << 56u64) == (b0 + b1 * 0x100 + b2 * 0x10000 + b3
                * 0x1000000 + b4 * 0x100000000 + b5 * 0x10000000000 + b6 * 0x1000000000000 + b7
                * 0x100000000000000) as u64) by (bit_vector)
                requires
                    b0 < 0x100 && b1 < 0x100 && b2 < 0x100 && b3 < 0x100 && b4 < 0x100 && b5
                        < 0x100 && b6 < 0x100 && b7 < 0x100,
            ;
        }
        *off = *off + 8;
        Some(v)
    }

    /// A copy of the current metrics.
    pub fn get_metrics(&self) -> (r: StoreMetrics)
        ensures
            r == self.metrics,
    {
        self.metrics
    }

    /// The bytes the store currently accounts for.
    pub fn memory_usage(&self) -> (r: usize)
        ensures
            r == self.memory_usage,
    {
        self.memory_usage
    }

    /// The next version the counter will assign.
    pub fn current_revision(&self) -> (r: u64)
        ensures
            r == self.revision,
    {
        self.revision
    }

    /// Store a dynamically registered custom resource; custom kinds share
    /// the table and index shape of the built-in kinds.
    pub fn store_custom_resource(
        &mut self,
        resource_type: &str,
        key: &str,
        data: &[u8],
        metadata: ObjectMetadata,
    ) -> (r: OperationResult<Result<u64, StoreError>>)
        requires
            old(self).wf(),
            old(self).revision < u64::MAX,
        ensures
            final(self).wf(),
            r.data == Self::create_outcome(*old(self), data@.len(), resource_type@, key@),
            r.data is Ok ==> final(self).payload_at(resource_type@, key@) == data@,
            r.data is Err ==> Self::same_data(*old(self), *final(self)),
    {
        self.create_object(resource_type, key, data, metadata)
    }

    /// Read a custom resource.
    pub fn get_custom_resource(&mut self, resource_type: &str, key: &str) -> (r: OperationResult<
        Result<(Vec<u8>, u64), StoreError>,
    >)
        requires
            old(self).wf(),
        ensures
            final(self).wf(),
            Self::same_data(*old(self), *final(self)),
            match r.data {
                Ok(p) => old(self).has_rec(resource_type@, key@) && p.0@ == old(self).payload_at(
                    resource_type@,
                    key@,
                ),
                Err(e) => e == StoreError::NotFound && !old(self).has_rec(resource_type@, key@),
            },
    {
        self.get_object(resource_type, key)
    }

    /// Delete a custom resource.
    pub fn delete_custom_resource(&mut self, resource_type: &str, key: &str) -> (r:
        OperationResult<Result<(), StoreError>>)
        requires
            old(self).wf(),
            old(self).revision < u64::MAX,
        ensures
            final(self).wf(),
            r.data == Self::delete_outcome(*old(self), resource_type@, key@),
            r.data is Ok ==> !final(self).has_rec(resource_type@, key@),
            r.data is Err ==> Self::same_data(*old(self), *final(self)),
    {
        let r = self.delete_object(resource_type, key);
        proof {
            if r.data is Ok {
                assert(!recs_has(self.recs(), resource_type@, key@));
            }
        }
        r
    }

    /// List custom resources: the same contract as `list_objects`, which
    /// the body forwards to.
    pub fn list_custom_resources(&mut self, resource_type: &str, options: &QueryOptions) -> (r:
        OperationResult<Result<ListResult, StoreError>>)
        requires
            old(self).wf(),
        ensures
            final(self).wf(),
            Self::same_data(*old(self), *final(self)),
            r.revision == final(self).spec_cluster_version(),
            match r.data {
                Err(e) => e == StoreError::Expired && (options.continue_token matches Some(t)
                    && t.list_version < old(self).dropped_hi),
                Ok(lr) => {
                    let flt = list_filter(old(self).recs(), resource_type@, *options);
                    let n = match options.limit {
                        Some(l) => if l == 0 {
                            flt.len() as int
                        } else if l < flt.len() {
                            l as int
                        } else {
                            flt.len() as int
                        },
                        None => flt.len() as int,
                    };
                    &&& !(options.continue_token matches Some(t) && t.list_version < old(
                        self,
                    ).dropped_hi)
                    &&& lr.list_version == (match options.continue_token {
                        Some(t) => t.list_version,
                        None => old(self).spec_cluster_version(),
                    })
                    &&& lr.items@.len() == n
                    &&& (forall|m: int|
                        0 <= m < n ==> #[trigger] lr.items@[m]@ == flt[m].payload@)
                    &&& lr.next == (if n < flt.len() {
                        Some(
                            ContinueToken {
                                list_version: lr.list_version,
                                last_version: flt[n - 1].resource_version,
                            },
                        )
                    } else {
                        None::<ContinueToken>
                    })
                },
            },
    {
        self.list_objects(resource_type, options)
    }
}

/// The versions of the retained change events are strictly increasing:
/// for any two events, the earlier one carries the smaller version.
pub proof fn lemma_versions_strictly_increasing(s: TeeMemoryStore, i: int, j: int)
    requires
        s.wf(),
        0 <= i < j < s.evs().len(),
    ensures
        s.evs()[i].version < s.evs()[j].version,
{
}

/// No two live records share a version, and every live record's version
/// is below the counter.
pub proof fn lemma_record_versions_unique(s: TeeMemoryStore, i: int, j: int)
    requires
        s.wf(),
        0 <= i < j < s.recs().len(),
    ensures
        s.recs()[i].resource_version < s.recs()[j].resource_version,
        s.recs()[j].resource_version < s.revision,
{
    assert(TeeMemoryStore::rec_wf(s.recs()[j]));
    assert(s.recs()[j].resource_version < s.revision);
}

/// What a get returns, as a function of the state.
pub open spec fn get_outcome(s: TeeMemoryStore, kind: Seq<char>, key: Seq<char>) -> Result<
    (Seq<u8>, u64),
    StoreError,
> {
    if s.has_rec(kind, key) {
        Ok((s.payload_at(kind, key), s.version_at(kind, key)))
    } else {
        Err(StoreError::NotFound)
    }
}

/// Round trip: after a create stores payload `p` under a fresh key, a get
/// of that key returns exactly `p`, whatever the compression threshold:
/// compression never alters what readers see.
pub proof fn lemma_create_get_round_trip(
    s1: TeeMemoryStore,
    s2: TeeMemoryStore,
    kind: Seq<char>,
    key: Seq<char>,
    p: Seq<u8>,
)
    requires
        s1.wf(),
        !s1.has_rec(kind, key),
        s2.wf(),
        s2.recs() == s1.recs().push(s2.recs().last()),
        s2.recs().last().kind@ == kind,
        s2.recs().last().key@ == key,
        s2.recs().last().payload@ == p,
    ensures
        get_outcome(s2, kind, key) == Ok::<(Seq<u8>, u64), StoreError>(
            (p, s2.recs().last().resource_version),
        ),
{
    lemma_recs_push(s1.recs(), s2.recs().last());
    assert(recs_has(s2.recs(), kind, key));
    assert(recs_at(s2.recs(), kind, key) == s2.recs().last());
}

/// Index coherence: the namespace index lists a key under (kind, ns)
/// exactly when the live record under (kind, key) carries namespace ns,
/// and the label index likewise for each effective label binding.
pub proof fn lemma_index_coherence(
    s: TeeMemoryStore,
    kind: Seq<char>,
    ns: Seq<char>,
    lk: Seq<char>,
    lv: Seq<char>,
    key: Seq<char>,
)
    requires
        s.wf(),
    ensures
        idx_has(s.ns_index@, kind, ns, Seq::<char>::empty(), key) <==> (s.has_rec(kind, key)
            && TeeMemoryStore::rec_ns(s.rec_at(kind, key)) == Some(ns)),
        idx_has(s.label_index@, kind, lk, lv, key) <==> (s.has_rec(kind, key) && assoc_lookup(
            s.rec_at(kind, key).metadata.labels@,
            lk,
        ) == Some(lv)),
{
}

/// Compare-and-swap safety: of two updates that both expect version `v`,
/// the one that runs first succeeds and moves the record to a fresh
/// version, so the second must fail with `VersionMismatch`.
pub proof fn lemma_cas_exclusive(
    s1: TeeMemoryStore,
    s2: TeeMemoryStore,
    kind: Seq<char>,
    key: Seq<char>,
    v: u64,
    len1: nat,
    len2: nat,
)
    requires
        s1.wf(),
        s1.has_rec(kind, key),
        s1.version_at(kind, key) == v,
        len1 <= s1.config.memory_limit,
        // s2 is the state the first update left: the record moved to the
        // version that update assigned.
        s2.wf(),
        s2.has_rec(kind, key),
        s2.version_at(kind, key) == s1.revision,
    ensures
        TeeMemoryStore::update_outcome(s1, len1, kind, key, Some(v)) == Ok::<u64, StoreError>(
            s1.revision,
        ),
        TeeMemoryStore::update_outcome(s2, len2, kind, key, Some(v)) == Err::<u64, StoreError>(
            StoreError::VersionMismatch,
        ),
{
    let i = recs_idx(s1.recs(), kind, key);
    assert(0 <= i < s1.recs().len() && s1.recs()[i].kind@ == kind && s1.recs()[i].key@ == key);
    assert(TeeMemoryStore::rec_wf(s1.recs()[i]));
    assert(s1.recs()[i].resource_version < s1.revision);
}

/// Watch fidelity: a subscriber at `from` sees exactly the retained
/// events of its kind with a greater version, in ascending version order.
#[verifier::rlimit(100)]
#[verifier::spinoff_prover]
pub proof fn lemma_watch_fidelity(
    evs: Seq<ChangeEventView>,
    kind: Seq<char>,
    from: u64,
    out: Seq<ChangeEventView>,
)
    requires
        forall|i: int, j: int| 0 <= i < j < evs.len() ==> evs[i].version < evs[j].version,
        out == watch_filter(evs, kind, from),
    ensures
        forall|i: int, j: int| 0 <= i < j < out.len() ==> out[i].version < out[j].version,
        forall|i: int|
            0 <= i < out.len() ==> #[trigger] out[i].kind == kind && out[i].version > from,
        forall|i: int|
            0 <= i < evs.len() && evs[i].kind == kind && evs[i].version > from ==> out.contains(
                #[trigger] evs[i],
            ),
        forall|i: int| 0 <= i < out.len() ==> evs.contains(#[trigger] out[i]),
    decreases evs.len(),
{
    if evs.len() > 0 {
        let head = evs.drop_last();
        let sub = watch_filter(head, kind, from);
        lemma_watch_fidelity(head, kind, from, sub);
        assert forall|i: int| 0 <= i < head.len() implies head[i] == evs[i] by {}
        assert forall|i: int| 0 <= i < sub.len() implies evs.contains(#[trigger] sub[i]) by {
            let w = choose|w: int| 0 <= w < head.len() && head[w] == sub[i];
            assert(evs[w] == sub[i]);
        }
        if evs.last().kind == kind && evs.last().version > from {
            assert(out == sub.push(evs.last()));
            assert(evs.contains(evs.last())) by {
                assert(evs[evs.len() - 1] == evs.last());
            }
            assert forall|i: int| 0 <= i < out.len() implies #[trigger] out[i].kind == kind
                && out[i].version > from by {
                if i < out.len() - 1 {
                    assert(out[i] == sub[i]);
                } else {
                    assert(out[i] == evs.last());
                }
            }
            assert forall|i: int, j: int| 0 <= i < j < out.len() implies out[i].version
                < out[j].version by {
                if j < out.len() - 1 {
                    assert(out[i] == sub[i] && out[j] == sub[j]);
                } else {
                    assert(out[i] == sub[i]);
                    assert(evs.contains(sub[i]));
                    let w = choose|w: int| 0 <= w < evs.len() && evs[w] == sub[i];
                    assert(sub[i].version > from);
                    if w == evs.len() - 1 {
                        assert(false);
                    } else {
                        assert(evs[w].version < evs[evs.len() - 1].version);
                    }
                }
            }
            assert forall|i: int|
                0 <= i < evs.len() && evs[i].kind == kind && evs[i].version > from implies out.contains(
                #[trigger] evs[i],
            ) by {
                if i == evs.len() - 1 {
                    assert(out[out.len() - 1] == evs[i]);
                } else {
                    assert(head[i] == evs[i]);
                    assert(sub.contains(evs[i]));
                    let w = choose|w: int| 0 <= w < sub.len() && sub[w] == evs[i];
                    assert(out[w] == evs[i]);
                }
            }
            assert forall|i: int| 0 <= i < out.len() implies evs.contains(#[trigger] out[i]) by {
                if i < out.len() - 1 {
                    assert(out[i] == sub[i]);
                } else {
                    assert(out[i] == evs.last());
                }
            }
        } else {
            assert(out == sub);
            assert forall|i: int| 0 <= i < out.len() implies #[trigger] out[i].kind == kind
                && out[i].version > from by {
                assert(out[i] == sub[i]);
            }
            assert forall|i: int|
                0 <= i < evs.len() && evs[i].kind == kind && evs[i].version > from implies out.contains(
                #[trigger] evs[i],
            ) by {
                assert(i != evs.len() - 1);
                assert(head[i] == evs[i]);
                assert(sub.contains(evs[i]));
            }
        }
    }
}

} // verus!
