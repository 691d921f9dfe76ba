//! In-memory cache of waveform mipmaps with a memory budget.

use vstd::prelude::*;
use std::collections::HashMap;
use std::path::PathBuf;
use std::sync::Arc;
use crate::core_types::{is_ascii_alnum, join_path, path_joined, plain_file_name};
use crate::cues::string_from_chars;
use crate::mipmap::{MipmapLevel, WaveformMipmap, WaveformPoint};

verus! {

broadcast use vstd::std_specs::hash::group_hash_axioms;

/// Estimated memory of a mipmap: its header plus the points of every level.
pub open spec fn mipmap_size(w: WaveformMipmap) -> nat {
    vstd::layout::size_of::<WaveformMipmap>() + levels_points_size(w.levels@, w.levels@.len() as int)
}

/// Memory of the points of the first `n` levels.
pub open spec fn levels_points_size(levels: Seq<MipmapLevel>, n: int) -> nat
    decreases n,
{
    if n <= 0 {
        0
    } else {
        levels_points_size(levels, n - 1) + levels[n - 1].data@.len()
            * vstd::layout::size_of::<WaveformPoint>()
    }
}

/// Total estimated memory of the cached mipmaps under `keys`.
pub open spec fn total_size(m: Map<u64, Arc<WaveformMipmap>>, keys: Set<u64>) -> nat
    decreases keys.len(),
{
    if !keys.finite() || keys.len() == 0 {
        0
    } else {
        let k = keys.choose();
        proof {
            vstd::set::axiom_set_choose_len(keys);
            vstd::set::axiom_set_remove_len(keys, k);
        }
        mipmap_size(*m[k]) + total_size(m, keys.remove(k))
    }
}

proof fn lemma_total_size_remove(m: Map<u64, Arc<WaveformMipmap>>, keys: Set<u64>, k: u64)
    requires
        keys.finite(),
        keys.contains(k),
    ensures
        total_size(m, keys) == mipmap_size(*m[k]) + total_size(m, keys.remove(k)),
    decreases keys.len(),
{
    vstd::set::axiom_set_choose_len(keys);
    vstd::set::axiom_set_remove_len(keys, k);
    let c = keys.choose();
    if c != k {
        vstd::set::axiom_set_remove_len(keys, c);
        lemma_total_size_remove(m, keys.remove(c), k);
        lemma_total_size_remove(m, keys.remove(k), c);
        assert(keys.remove(c).remove(k) =~= keys.remove(k).remove(c));
    }
}

proof fn lemma_total_size_agree(m1: Map<u64, Arc<WaveformMipmap>>, m2: Map<u64, Arc<WaveformMipmap>>, keys: Set<u64>)
    requires
        keys.finite(),
        forall|k: u64| keys.contains(k) ==> m1[k] == m2[k],
    ensures
        total_size(m1, keys) == total_size(m2, keys),
    decreases keys.len(),
{
    if keys.len() > 0 {
        vstd::set::axiom_set_choose_len(keys);
        let c = keys.choose();
        vstd::set::axiom_set_remove_len(keys, c);
        lemma_total_size_agree(m1, m2, keys.remove(c));
    }
}

/// The waveform file of a track in the cache directory: its hash as 16
/// lowercase hex digits, then `.waveform`.
pub open spec fn hex_char(d: nat) -> char {
    if d < 10 { crate::cues::digit_char(d) }
    else if d == 10 { 'a' }
    else if d == 11 { 'b' }
    else if d == 12 { 'c' }
    else if d == 13 { 'd' }
    else if d == 14 { 'e' }
    else { 'f' }
}

/// The lowest `k` hex digits of `n`, most significant first, zero-padded.
pub open spec fn hex_fixed(n: nat, k: nat) -> Seq<char>
    decreases k,
{
    if k == 0 {
        Seq::empty()
    } else {
        hex_fixed(n / 16, (k - 1) as nat).push(hex_char(n % 16))
    }
}

/// Name of the waveform file of a track, as `format!("{:016x}.waveform")`
/// writes it.
pub open spec fn waveform_file_name_text(track_hash: u64) -> Seq<char> {
    hex_fixed(track_hash as nat, 16) + seq!['.', 'w', 'a', 'v', 'e', 'f', 'o', 'r', 'm']
}

/// Sixteen to the `k`.
pub open spec fn pow16(k: nat) -> nat
    decreases k,
{
    if k == 0 { 1 } else { 16 * pow16((k - 1) as nat) }
}

proof fn lemma_hex_fixed_len(n: nat, k: nat)
    ensures
        hex_fixed(n, k).len() == k,
        forall|i: int| 0 <= i < k ==> is_ascii_alnum(#[trigger] hex_fixed(n, k)[i]),
    decreases k,
{
    if k > 0 {
        lemma_hex_fixed_len(n / 16, (k - 1) as nat);
    }
}

/// Two numbers below sixteen to the `k` with the same `k` hex digits are
/// equal.
proof fn lemma_hex_fixed_injective(a: nat, b: nat, k: nat)
    requires
        a < pow16(k),
        b < pow16(k),
        hex_fixed(a, k) == hex_fixed(b, k),
    ensures
        a == b,
    decreases k,
{
    if k > 0 {
        let p = pow16((k - 1) as nat);
        let sa = hex_fixed(a, k);
        let sb = hex_fixed(b, k);
        assert(sa.last() == hex_char(a % 16));
        assert(sb.last() == hex_char(b % 16));
        assert(a % 16 == b % 16);
        assert(sa.drop_last() =~= hex_fixed(a / 16, (k - 1) as nat));
        assert(sb.drop_last() =~= hex_fixed(b / 16, (k - 1) as nat));
        assert(a / 16 < p) by (nonlinear_arith)
            requires
                a < 16 * p,
        ;
        assert(b / 16 < p) by (nonlinear_arith)
            requires
                b < 16 * p,
        ;
        lemma_hex_fixed_injective(a / 16, b / 16, (k - 1) as nat);
    }
}

/// Distinct track hashes have distinct waveform file names, and each name
/// is a plain file name.
pub proof fn lemma_waveform_file_names_distinct(h1: u64, h2: u64)
    ensures
        plain_file_name(waveform_file_name_text(h1)),
        h1 != h2 ==> waveform_file_name_text(h1) != waveform_file_name_text(h2),
{
    reveal_with_fuel(pow16, 17);
    assert(pow16(16) == 0x1_0000_0000_0000_0000);
    lemma_hex_fixed_len(h1 as nat, 16);
    lemma_hex_fixed_len(h2 as nat, 16);
    let n1 = waveform_file_name_text(h1);
    let n2 = waveform_file_name_text(h2);
    assert(n1.len() == 25);
    assert(n1[0] == hex_fixed(h1 as nat, 16)[0]);
    assert forall|i: int| 0 <= i < n1.len() implies is_ascii_alnum(#[trigger] n1[i]) || n1[i] == '.' by {
        if i < 16 {
            assert(n1[i] == hex_fixed(h1 as nat, 16)[i]);
        }
    }
    if h1 != h2 && n1 == n2 {
        assert(n1.subrange(0, 16) =~= hex_fixed(h1 as nat, 16));
        assert(n2.subrange(0, 16) =~= hex_fixed(h2 as nat, 16));
        lemma_hex_fixed_injective(h1 as nat, h2 as nat, 16);
    }
}

fn hex_to_char(d: u64) -> (c: char)
    requires
        d < 16,
    ensures
        c == hex_char(d as nat),
{
    if d < 10 {
        if d == 0 { '0' } else if d == 1 { '1' } else if d == 2 { '2' } else if d == 3 { '3' }
        else if d == 4 { '4' } else if d == 5 { '5' } else if d == 6 { '6' } else if d == 7 { '7' }
        else if d == 8 { '8' } else { '9' }
    } else if d == 10 { 'a' } else if d == 11 { 'b' } else if d == 12 { 'c' }
    else if d == 13 { 'd' } else if d == 14 { 'e' } else { 'f' }
}

/// Clone of a shared mipmap handle (`Arc::clone`): the same mipmap.
#[verifier::external_body]
fn arc_clone(a: &Arc<WaveformMipmap>) -> (r: Arc<WaveformMipmap>)
    ensures
        r == *a,
{
    Arc::clone(a)
}

/// Name of the waveform file of a track: its hash as 16 lowercase hex
/// digits, then `.waveform`.
pub fn waveform_file_name(track_hash: u64) -> (r: String)
    ensures
        r@ == waveform_file_name_text(track_hash),
{
    let mut digits: Vec<char> = Vec::new();
    let mut m = track_hash;
    let mut k: usize = 0;
    while k < 16
        invariant
            k <= 16,
            digits@.len() == k,
            hex_fixed(track_hash as nat, 16) == hex_fixed(m as nat, (16 - k) as nat) + digits@.reverse(),
        decreases 16 - k,
    {
        let c = hex_to_char(m % 16);
        proof {
            assert(hex_fixed(m as nat, (16 - k) as nat) == hex_fixed((m / 16) as nat, (16 - k - 1) as nat).push(c));
            assert(digits@.push(c).reverse() =~= seq![c] + digits@.reverse());
            assert(hex_fixed(track_hash as nat, 16) =~= hex_fixed((m / 16) as nat, (16 - k - 1) as nat) + digits@.push(c).reverse());
        }
        digits.push(c);
        m = m / 16;
        k = k + 1;
    }
    let mut out: Vec<char> = Vec::new();
    let mut j: usize = 16;
    while j > 0
        invariant
            j <= 16,
            digits@.len() == 16,
            out@ == digits@.reverse().take(16 - j),
        decreases j,
    {
        j = j - 1;
        out.push(digits[j]);
        assert(out@ =~= digits@.reverse().take(16 - j));
    }
    assert(hex_fixed(m as nat, 0) =~= Seq::<char>::empty());
    assert(digits@.reverse().take(16) =~= digits@.reverse());
    out.push('.');
    out.push('w');
    out.push('a');
    out.push('v');
    out.push('e');
    out.push('f');
    out.push('o');
    out.push('r');
    out.push('m');
    assert(out@ =~= waveform_file_name_text(track_hash));
    string_from_chars(out)
}

/// Cache of waveform mipmaps by track hash, within a memory budget.
pub struct WaveformCache {
    /// In-memory cache.
    cache: HashMap<u64, Arc<WaveformMipmap>>,
    /// Cache directory for disk persistence.
    cache_dir: PathBuf,
    /// Maximum memory usage in bytes.
    max_memory: usize,
    /// Current memory usage estimate: the total size of the cached waveforms.
    current_memory: usize,
    /// The cached track hashes in insertion order, oldest first: the order
    /// in which they are evicted.
    order: Vec<u64>,
}

impl WaveformCache {
    /// The cached mipmaps by track hash.
    pub closed spec fn entries(&self) -> Map<u64, Arc<WaveformMipmap>> {
        self.cache@
    }

    /// The memory budget in bytes.
    pub closed spec fn budget(&self) -> nat {
        self.max_memory as nat
    }

    /// The directory of the waveform files.
    pub closed spec fn dir(&self) -> PathBuf {
        self.cache_dir
    }

    /// The running memory estimate in bytes.
    pub closed spec fn memory(&self) -> nat {
        self.current_memory as nat
    }

    /// The cached track hashes, oldest insertion first.
    pub closed spec fn order(&self) -> Seq<u64> {
        self.order@
    }

    /// The memory estimate is the total size of the cached mipmaps, and the
    /// insertion order lists each cached track hash once.
    pub closed spec fn wf(&self) -> bool {
        &&& self.cache@.dom().finite()
        &&& self.current_memory == total_size(self.cache@, self.cache@.dom())
        &&& self.order@.no_duplicates()
        &&& forall|k: u64| #[trigger] self.cache@.contains_key(k) <==> self.order@.contains(k)
    }

    /// The budget and the memory estimate are byte counts that fit in a
    /// `usize`.
    pub proof fn lemma_bounds(&self)
        ensures
            self.budget() <= usize::MAX,
            self.memory() <= usize::MAX,
    {
    }

    /// The memory estimate once the waveform under `track_hash`, if any, is
    /// released.
    pub open spec fn memory_without(&self, track_hash: u64) -> nat {
        if self.entries().contains_key(track_hash) {
            (self.memory() - mipmap_size(*self.entries()[track_hash])) as nat
        } else {
            self.memory()
        }
    }

    /// What a lookup of `track_hash` finds.
    pub open spec fn lookup(&self, track_hash: u64) -> Option<Arc<WaveformMipmap>> {
        if self.entries().contains_key(track_hash) {
            Some(self.entries()[track_hash])
        } else {
            None
        }
    }

    /// An empty cache over `cache_dir` with a budget of `max_memory` bytes.
    pub fn new(cache_dir: PathBuf, max_memory: usize) -> (r: WaveformCache)
        ensures
            r.wf(),
            r.memory() == total_size(r.entries(), r.entries().dom()),
            r.entries() == Map::<u64, Arc<WaveformMipmap>>::empty(),
            r.budget() == max_memory,
            r.memory() == 0,
            r.dir() == cache_dir,
            r.order() == Seq::<u64>::empty(),
    {
        let r = WaveformCache { cache: HashMap::new(), cache_dir, max_memory, current_memory: 0, order: Vec::new() };
        assert(r.cache@.dom() =~= Set::<u64>::empty());
        r
    }

    /// The running memory estimate in bytes.
    pub fn memory_usage(&self) -> (r: usize)
        ensures
            r == self.memory(),
    {
        self.current_memory
    }

    /// The cached mipmap of a track, if any.
    pub fn get(&self, track_hash: u64) -> (r: Option<Arc<WaveformMipmap>>)
        ensures
            r == self.lookup(track_hash),
    {
        match self.cache.get(&track_hash) {
            Some(w) => Some(arc_clone(w)),
            None => None,
        }
    }

    /// Estimated memory of a mipmap in bytes; `None` when the estimate does
    /// not fit in a `usize`.
    pub fn estimate_size(&self, waveform: &WaveformMipmap) -> (r: Option<usize>)
        ensures
            match r {
                Some(n) => n == mipmap_size(*waveform),
                None => mipmap_size(*waveform) > usize::MAX,
            },
    {
        let mut size: usize = std::mem::size_of::<WaveformMipmap>();
        let point = std::mem::size_of::<WaveformPoint>();
        let n = waveform.levels.len();
        let mut i: usize = 0;
        while i < n
            invariant
                i <= n == waveform.levels@.len(),
                point == vstd::layout::size_of::<WaveformPoint>(),
                size == vstd::layout::size_of::<WaveformMipmap>() + levels_points_size(waveform.levels@, i as int),
            decreases n - i,
        {
            let len = waveform.levels[i].data.len();
            proof {
                lemma_levels_points_size_monotone(waveform.levels@, i as int + 1, n as int);
            }
            let part = match len.checked_mul(point) {
                Some(p) => p,
                None => {
                    proof {
                        assert(len * point <= levels_points_size(waveform.levels@, i + 1));
                    }
                    return None;
                },
            };
            size = match size.checked_add(part) {
                Some(s) => s,
                None => return None,
            };
            i = i + 1;
        }
        Some(size)
    }

    /// Inserts a waveform under `track_hash`, as the newest entry. The
    /// waveform it replaces, if any, is released from the memory estimate
    /// first; then the oldest cached waveforms are evicted, one at a time,
    /// while the new one would exceed the budget and any remain.
    pub fn insert(&mut self, track_hash: u64, waveform: WaveformMipmap)
        requires
            old(self).wf(),
            old(self).memory() + mipmap_size(waveform) <= usize::MAX,
        ensures
            final(self).wf(),
            final(self).memory() == total_size(final(self).entries(), final(self).entries().dom()),
            final(self).budget() == old(self).budget(),
            final(self).dir() == old(self).dir(),
            inserted(*old(self), track_hash, waveform, *final(self)),
            final(self).order() == kept_after_insert(*old(self), track_hash, waveform).push(track_hash),
            forall|k: u64| #[trigger] final(self).entries().contains_key(k)
                <==> k == track_hash || kept_after_insert(*old(self), track_hash, waveform).contains(k),
            final(self).memory() <= final(self).budget()
                || final(self).entries().dom() == set![track_hash],
    {
        let size = match self.estimate_size(&waveform) {
            Some(s) => s,
            None => {
                proof {
                    assert(false);
                }
                0
            },
        };
        // Release the waveform this one replaces.
        let ghost orig = self.cache@;
        if let Some(replaced) = self.cache.remove(&track_hash) {
            proof {
                assert(replaced == orig[track_hash]);
                lemma_total_size_remove(orig, orig.dom(), track_hash);
                assert(self.cache@.dom() =~= orig.dom().remove(track_hash));
                lemma_total_size_agree(orig, self.cache@, orig.dom().remove(track_hash));
            }
            let replaced_size = match self.estimate_size(&replaced) {
                Some(s) => s,
                None => {
                    proof {
                        assert(false);
                    }
                    0
                },
            };
            self.current_memory = self.current_memory - replaced_size;
        } else {
            proof {
                assert(self.cache@ =~= orig);
                assert(orig.remove(track_hash) =~= orig);
            }
        }
        let ghost old_order = self.order@;
        self.order = without_key_vec(&self.order, track_hash);
        let ghost m0 = self.cache@;
        let ghost kept = self.order@;
        let ghost base = self.current_memory;
        let ghost mut i: int = 0;
        proof {
            lemma_without_key(old_order, track_hash);
            assert(m0 =~= orig.remove(track_hash));
            assert(base == old(self).memory_without(track_hash));
            assert(kept.skip(0) =~= kept);
            assert forall|k: u64| #[trigger] self.cache@.contains_key(k) <==> self.order@.contains(k) by {
                assert(orig.contains_key(k) <==> old_order.contains(k));
            }
        }
        while self.current_memory + size > self.max_memory && self.order.len() > 0
            invariant
                self.wf(),
                self.max_memory == old(self).max_memory,
                self.cache_dir == old(self).cache_dir,
                size == mipmap_size(waveform),
                self.current_memory <= base,
                base <= old(self).current_memory,
                old(self).current_memory + size <= usize::MAX,
                m0 == old(self).cache@.remove(track_hash),
                kept == without_key(old(self).order@, track_hash),
                !kept.contains(track_hash),
                0 <= i <= kept.len(),
                self.order@ == kept.skip(i),
                forall|k: u64| #[trigger] self.cache@.contains_key(k)
                    ==> m0.contains_key(k) && self.cache@[k] == m0[k],
                evicted_count(m0, kept, base as int, size as nat, self.max_memory as nat)
                    == i + evicted_count(m0, kept.skip(i), self.current_memory as int, size as nat, self.max_memory as nat),
            decreases self.order@.len(),
        {
            let ghost before = self.cache@;
            let ghost key = self.order@[0];
            proof {
                assert(self.order@.contains(key));
                assert(kept.skip(i)[0] == key);
            }
            self.evict_oldest();
            proof {
                assert(kept.skip(i).drop_first() =~= kept.skip(i + 1));
                assert(before[key] == m0[key]);
                i = i + 1;
            }
        }
        proof {
            assert(evicted_count(m0, kept.skip(i), self.current_memory as int, size as nat, self.max_memory as nat) == 0);
            assert(kept_after_insert(*old(self), track_hash, waveform) == kept.skip(i));
        }
        let ghost fits = self.current_memory + size <= self.max_memory;
        self.current_memory = self.current_memory + size;
        let ghost before = self.cache@;
        let ghost before_order = self.order@;
        self.cache.insert(track_hash, Arc::new(waveform));
        self.order.push(track_hash);
        proof {
            let keys = before.dom();
            assert(!before_order.contains(track_hash));
            assert(!keys.contains(track_hash));
            lemma_total_size_remove(self.cache@, self.cache@.dom(), track_hash);
            assert(self.cache@.dom().remove(track_hash) =~= keys);
            lemma_total_size_agree(before, self.cache@, keys);
            if !fits {
                assert(before_order.len() == 0);
                assert forall|k: u64| !before.contains_key(k) by {
                    assert(before.contains_key(k) ==> before_order.contains(k));
                }
                assert(self.cache@.dom() =~= set![track_hash]);
            }
            assert forall|x: int, y: int| 0 <= x < self.order@.len() && 0 <= y < self.order@.len() && x != y
                implies self.order@[x] != self.order@[y] by {
                if x < before_order.len() && y < before_order.len() {
                } else if x < before_order.len() {
                    assert(before_order.contains(self.order@[x]));
                } else {
                    assert(before_order.contains(self.order@[y]));
                }
            }
            assert forall|k: u64| #[trigger] self.cache@.contains_key(k) <==> self.order@.contains(k) by {
                if self.order@.contains(k) && k != track_hash {
                    let j = choose|j: int| 0 <= j < self.order@.len() && self.order@[j] == k;
                    assert(before_order[j] == k);
                }
                if before.contains_key(k) {
                    let j = choose|j: int| 0 <= j < before_order.len() && before_order[j] == k;
                    assert(self.order@[j] == k);
                }
                assert(self.order@[self.order@.len() - 1] == track_hash);
            }
            assert forall|k: u64| #[trigger] self.entries().contains_key(k)
                <==> k == track_hash || kept_after_insert(*old(self), track_hash, waveform).contains(k) by {
                assert(before.contains_key(k) <==> before_order.contains(k));
            }
        }
    }

    /// Evicts the oldest cached waveform.
    fn evict_oldest(&mut self)
        requires
            old(self).wf(),
            old(self).order@.len() > 0,
        ensures
            final(self).wf(),
            final(self).max_memory == old(self).max_memory,
            final(self).cache_dir == old(self).cache_dir,
            final(self).order@ == old(self).order@.drop_first(),
            final(self).cache@ == old(self).cache@.remove(old(self).order@[0]),
            final(self).current_memory == old(self).current_memory - mipmap_size(*old(self).cache@[old(self).order@[0]]),
    {
        let ghost before = self.cache@;
        let ghost ord = self.order@;
        let key = self.order.remove(0);
        proof {
            assert(ord.remove(0) =~= ord.drop_first());
            assert(ord.contains(key));
            assert(before.contains_key(key));
            lemma_total_size_remove(before, before.dom(), key);
        }
        match self.cache.remove(&key) {
            Some(waveform) => {
                proof {
                    assert(self.cache@.dom() =~= before.dom().remove(key));
                    lemma_total_size_agree(before, self.cache@, before.dom().remove(key));
                }
                let size = match self.estimate_size(&waveform) {
                    Some(s) => s,
                    None => {
                        proof {
                            assert(false);
                        }
                        0
                    },
                };
                self.current_memory = self.current_memory - size;
            },
            None => {
                proof {
                    assert(false);
                }
            },
        }
        proof {
            assert forall|x: int, y: int| 0 <= x < self.order@.len() && 0 <= y < self.order@.len() && x != y
                implies self.order@[x] != self.order@[y] by {
                assert(self.order@[x] == ord[x + 1]);
                assert(self.order@[y] == ord[y + 1]);
            }
            assert forall|k: u64| #[trigger] self.cache@.contains_key(k) <==> self.order@.contains(k) by {
                if self.order@.contains(k) {
                    let j = choose|j: int| 0 <= j < self.order@.len() && self.order@[j] == k;
                    assert(ord[j + 1] == k);
                    assert(ord[0] == key);
                    assert(ord.contains(k));
                }
                if self.cache@.contains_key(k) {
                    assert(before.contains_key(k) && k != key);
                    assert(ord.contains(k));
                    let j = choose|j: int| 0 <= j < ord.len() && ord[j] == k;
                    assert(j != 0);
                    assert(self.order@[j - 1] == k);
                }
            }
        }
    }

    /// Path of a track's waveform file in the cache directory.
    pub fn disk_path(&self, track_hash: u64) -> (r: PathBuf)
        ensures
            r == path_joined(self.dir(), waveform_file_name_text(track_hash)),
            forall|other: u64| other != track_hash
                ==> #[trigger] path_joined(self.dir(), waveform_file_name_text(other)) != r,
    {
        let name = waveform_file_name(track_hash);
        let r = join_path(&self.cache_dir, name.as_str());
        proof {
            assert forall|other: u64| other != track_hash
                implies #[trigger] path_joined(self.dir(), waveform_file_name_text(other)) != r by {
                lemma_waveform_file_names_distinct(track_hash, other);
                lemma_waveform_file_names_distinct(other, track_hash);
            }
        }
        r
    }

    /// Clears all cached waveforms.
    pub fn clear(&mut self)
        ensures
            final(self).wf(),
            final(self).memory() == total_size(final(self).entries(), final(self).entries().dom()),
            final(self).entries() == Map::<u64, Arc<WaveformMipmap>>::empty(),
            final(self).budget() == old(self).budget(),
            final(self).dir() == old(self).dir(),
            final(self).memory() == 0,
            final(self).order() == Seq::<u64>::empty(),
    {
        self.cache.clear();
        self.order.clear();
        self.current_memory = 0;
        assert(self.cache@.dom() =~= Set::<u64>::empty());
    }
}

/// `keys` without `k`, the others in their order.
pub open spec fn without_key(keys: Seq<u64>, k: u64) -> Seq<u64>
    decreases keys.len(),
{
    if keys.len() == 0 {
        keys
    } else if keys.last() == k {
        without_key(keys.drop_last(), k)
    } else {
        without_key(keys.drop_last(), k).push(keys.last())
    }
}

proof fn lemma_without_key(s: Seq<u64>, k: u64)
    ensures
        forall|x: u64| #[trigger] without_key(s, k).contains(x) <==> s.contains(x) && x != k,
        s.no_duplicates() ==> without_key(s, k).no_duplicates(),
    decreases s.len(),
{
    if s.len() > 0 {
        let p = s.drop_last();
        let w = without_key(p, k);
        lemma_without_key(p, k);
        assert forall|x: u64| #[trigger] without_key(s, k).contains(x) <==> s.contains(x) && x != k by {
            if s.contains(x) {
                let j = choose|j: int| 0 <= j < s.len() && s[j] == x;
                if j < p.len() {
                    assert(p[j] == x);
                }
            }
            if p.contains(x) {
                let j = choose|j: int| 0 <= j < p.len() && p[j] == x;
                assert(s[j] == x);
            }
            if s.last() != k {
                assert(w.push(s.last())[w.len() as int] == s.last());
                if w.push(s.last()).contains(x) {
                    let j = choose|j: int| 0 <= j < w.len() + 1 && w.push(s.last())[j] == x;
                    if j < w.len() {
                        assert(w[j] == x);
                    }
                }
                if w.contains(x) {
                    let j = choose|j: int| 0 <= j < w.len() && w[j] == x;
                    assert(w.push(s.last())[j] == x);
                }
            }
        }
        if s.no_duplicates() {
            assert(p.no_duplicates());
            if s.last() != k {
                assert(!p.contains(s.last())) by {
                    if p.contains(s.last()) {
                        let j = choose|j: int| 0 <= j < p.len() && p[j] == s.last();
                        assert(s[j] == s[s.len() - 1]);
                    }
                }
                assert(!w.contains(s.last()));
                let q = w.push(s.last());
                assert forall|x: int, y: int| 0 <= x < q.len() && 0 <= y < q.len() && x != y
                    implies q[x] != q[y] by {
                    if x == w.len() {
                        assert(w.contains(q[y]));
                    } else if y == w.len() {
                        assert(w.contains(q[x]));
                    }
                }
            }
        }
    }
}

/// `keys` without `k`, in their order.
fn without_key_vec(keys: &Vec<u64>, k: u64) -> (r: Vec<u64>)
    ensures
        r@ == without_key(keys@, k),
{
    let mut r: Vec<u64> = Vec::new();
    let mut i: usize = 0;
    assert(keys@.take(0) =~= Seq::<u64>::empty());
    while i < keys.len()
        invariant
            i <= keys@.len(),
            r@ == without_key(keys@.take(i as int), k),
        decreases keys@.len() - i,
    {
        assert(keys@.take(i as int + 1).drop_last() =~= keys@.take(i as int));
        if keys[i] != k {
            r.push(keys[i]);
        }
        i = i + 1;
    }
    assert(keys@.take(keys@.len() as int) =~= keys@);
    r
}

/// How many of the oldest `keys` an insert evicts: while the memory in use,
/// `memory`, plus the new waveform's `size` exceeds `budget` and keys
/// remain, the oldest goes and its waveform's size is released.
pub open spec fn evicted_count(m: Map<u64, Arc<WaveformMipmap>>, keys: Seq<u64>, memory: int, size: nat, budget: nat) -> nat
    decreases keys.len(),
{
    if memory + size <= budget || keys.len() == 0 {
        0
    } else {
        1 + evicted_count(m, keys.drop_first(), memory - mipmap_size(*m[keys[0]]), size, budget)
    }
}

/// Size of the waveform under `k`.
pub open spec fn entry_size(m: Map<u64, Arc<WaveformMipmap>>, k: u64) -> nat {
    mipmap_size(*m[k])
}

/// Total size of the waveforms under the first `j` of `keys`.
pub open spec fn released_size(m: Map<u64, Arc<WaveformMipmap>>, keys: Seq<u64>, j: int) -> int
    decreases j,
{
    if j <= 0 {
        0
    } else {
        released_size(m, keys, j - 1) + mipmap_size(*m[keys[j - 1]])
    }
}

proof fn lemma_released_size_shift(m: Map<u64, Arc<WaveformMipmap>>, keys: Seq<u64>, j: int)
    requires
        keys.len() > 0,
        0 <= j < keys.len(),
    ensures
        released_size(m, keys, j + 1) == mipmap_size(*m[keys[0]]) + released_size(m, keys.drop_first(), j),
    decreases j,
{
    if j > 0 {
        lemma_released_size_shift(m, keys, j - 1);
        assert(keys.drop_first()[j - 1] == keys[j]);
        assert(released_size(m, keys.drop_first(), j)
            == released_size(m, keys.drop_first(), j - 1) + mipmap_size(*m[keys[j]]));
    } else {
        assert(released_size(m, keys, 0) == 0);
        assert(released_size(m, keys.drop_first(), 0) == 0);
    }
}

/// An insert evicts no more of the oldest entries than it must: each one
/// went while the memory in use, less what was released before it, plus
/// the new waveform still exceeded the budget; and unless every entry
/// went, the new waveform fits once the evicted ones are released.
pub proof fn lemma_evicted_count_fewest(
    m: Map<u64, Arc<WaveformMipmap>>,
    keys: Seq<u64>,
    memory: int,
    size: nat,
    budget: nat,
)
    ensures
        evicted_count(m, keys, memory, size, budget) <= keys.len(),
        evicted_count(m, keys, memory, size, budget) < keys.len()
            ==> memory - released_size(m, keys, evicted_count(m, keys, memory, size, budget) as int) + size <= budget,
        forall|j: int| 0 <= j < evicted_count(m, keys, memory, size, budget)
            ==> memory - #[trigger] released_size(m, keys, j) + size > budget,
    decreases keys.len(),
{
    if !(memory + size <= budget || keys.len() == 0) {
        let s0 = entry_size(m, keys[0]);
        let rest = keys.drop_first();
        lemma_evicted_count_fewest(m, rest, memory - s0, size, budget);
        let n = evicted_count(m, keys, memory, size, budget);
        assert(n == 1 + evicted_count(m, rest, memory - s0, size, budget));
        if n < keys.len() {
            lemma_released_size_shift(m, keys, n - 1);
        }
        assert forall|j: int| 0 <= j < n implies memory - #[trigger] released_size(m, keys, j) + size > budget by {
            if j > 0 {
                lemma_released_size_shift(m, keys, j - 1);
                assert(released_size(m, rest, j - 1) == released_size(m, keys, j) - s0);
            }
        }
    }
}

/// The cached track hashes, oldest first, that an insert of `waveform`
/// under `track_hash` into `c` keeps besides the new one: the others, less
/// the oldest ones evicted.
pub open spec fn kept_after_insert(c: WaveformCache, track_hash: u64, waveform: WaveformMipmap) -> Seq<u64> {
    let kept = without_key(c.order(), track_hash);
    let evicted = evicted_count(
        c.entries().remove(track_hash),
        kept,
        c.memory_without(track_hash) as int,
        mipmap_size(waveform),
        c.budget(),
    );
    kept.skip(evicted as int)
}

/// `after` holds `waveform` under `track_hash`, and under every other key
/// what `before` held there, unless that entry is gone.
pub open spec fn inserted(before: WaveformCache, track_hash: u64, waveform: WaveformMipmap, after: WaveformCache) -> bool {
    &&& after.entries().contains_key(track_hash)
    &&& after.entries()[track_hash] == waveform
    &&& forall|k: u64| #[trigger] after.entries().contains_key(k) && k != track_hash
        ==> before.entries().contains_key(k) && after.entries()[k] == before.entries()[k]
}

/// A lookup after an insert finds the waveform just inserted under its key;
/// under any other key it finds what it found before, or nothing when that
/// waveform was evicted to make room.
pub proof fn lemma_get_after_insert(
    before: WaveformCache,
    after: WaveformCache,
    track_hash: u64,
    waveform: WaveformMipmap,
    other: u64,
)
    requires
        inserted(before, track_hash, waveform, after),
        other != track_hash,
    ensures
        after.lookup(track_hash) == Some(Arc::new(waveform)),
        after.lookup(other) == before.lookup(other) || after.lookup(other) is None,
{
}

/// The points of a list of levels are the points of its first part plus
/// those of the rest: every level counts, each once.
pub proof fn lemma_levels_points_size_concat(first: Seq<MipmapLevel>, rest: Seq<MipmapLevel>)
    ensures
        levels_points_size(first + rest, (first.len() + rest.len()) as int)
            == levels_points_size(first, first.len() as int) + levels_points_size(rest, rest.len() as int),
    decreases rest.len(),
{
    if rest.len() > 0 {
        let shorter = rest.drop_last();
        lemma_levels_points_size_concat(first, shorter);
        assert((first + rest).drop_last() =~= first + shorter);
        lemma_levels_points_size_prefix(first + rest, first + shorter, (first.len() + shorter.len()) as int);
        lemma_levels_points_size_prefix(rest, shorter, shorter.len() as int);
    }
}

/// The points of one level: its point count times the size of a point.
pub proof fn lemma_levels_points_size_single(level: MipmapLevel)
    ensures
        levels_points_size(seq![level], 1) == level.data@.len() * vstd::layout::size_of::<WaveformPoint>(),
{
    assert(levels_points_size(seq![level], 0) == 0);
}

/// The points of the first `n` levels depend on those levels alone.
proof fn lemma_levels_points_size_prefix(a: Seq<MipmapLevel>, b: Seq<MipmapLevel>, n: int)
    requires
        0 <= n <= a.len(),
        n <= b.len(),
        forall|i: int| 0 <= i < n ==> a[i] == b[i],
    ensures
        levels_points_size(a, n) == levels_points_size(b, n),
    decreases n,
{
    if n > 0 {
        lemma_levels_points_size_prefix(a, b, n - 1);
    }
}

proof fn lemma_levels_points_size_monotone(levels: Seq<MipmapLevel>, i: int, n: int)
    requires
        0 <= i <= n,
    ensures
        levels_points_size(levels, i) <= levels_points_size(levels, n),
    decreases n - i,
{
    if i < n {
        lemma_levels_points_size_monotone(levels, i, n - 1);
    }
}

} // verus!
