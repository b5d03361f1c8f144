//! A capacity-bounded cache of decoded images, keyed by path, with
//! least-recently-used eviction.
//!
//! Entries are kept in recency order, least recently used first, so the
//! entry that eviction removes is always the first one.
use std::sync::Arc;
use vstd::prelude::*;

verus! {

/// What a cached image holds: its size and its RGBA8 pixels, row-major.
pub struct ImageView {
    pub width: u32,
    pub height: u32,
    pub pixels: Seq<u8>,
}

/// Four bytes per pixel, and nothing more.
pub open spec fn rgba_len_ok(v: ImageView) -> bool {
    v.pixels.len() == 4 * (v.width as int) * (v.height as int)
}

/// A decoded image. The pixel buffer is shared, never copied, between the
/// cache and whoever reads an entry.
pub struct CachedImage {
    pub width: u32,
    pub height: u32,
    pub pixels: Arc<Vec<u8>>,
}

impl View for CachedImage {
    type V = ImageView;

    open spec fn view(&self) -> ImageView {
        ImageView { width: self.width, height: self.height, pixels: self.pixels@ }
    }
}

/// Relies on `Arc::clone`: the new pointer refers to the same value.
#[verifier::external_body]
fn share_pixels(p: &Arc<Vec<u8>>) -> (r: Arc<Vec<u8>>)
    ensures
        r@ == p@,
{
    Arc::clone(p)
}

impl CachedImage {
    /// Wraps a pixel buffer, provided it holds exactly four bytes per pixel.
    pub fn from_rgba(width: u32, height: u32, pixels: Vec<u8>) -> (r: Option<CachedImage>)
        ensures
            r is Some <==> pixels@.len() == 4 * (width as int) * (height as int),
            r matches Some(img) ==> img@ == (ImageView { width, height, pixels: pixels@ }),
    {
        proof {
            lemma_rgba_len_fits(width, height);
        }
        let expected: u128 = 4u128 * (width as u128) * (height as u128);
        if (pixels.len() as u128) == expected {
            Some(CachedImage { width, height, pixels: Arc::new(pixels) })
        } else {
            None
        }
    }

    /// Another handle on the same image; the pixels are not copied.
    pub fn share(&self) -> (r: CachedImage)
        ensures
            r@ == self@,
    {
        CachedImage { width: self.width, height: self.height, pixels: share_pixels(&self.pixels) }
    }
}

/// Abstract state of a cache: its capacity, and its entries from least to
/// most recently used.
pub struct CacheModel {
    pub capacity: nat,
    pub entries: Seq<(Seq<char>, ImageView)>,
}

pub open spec fn keys_unique(es: Seq<(Seq<char>, ImageView)>) -> bool {
    forall|i: int, j: int| 0 <= i < j < es.len() ==> es[i].0 != es[j].0
}

/// A cache never holds more than its capacity, nor one path twice.
pub open spec fn cache_wf(m: CacheModel) -> bool {
    m.entries.len() <= m.capacity && keys_unique(m.entries)
}

pub open spec fn has_key(es: Seq<(Seq<char>, ImageView)>, k: Seq<char>) -> bool {
    exists|i: int| 0 <= i < es.len() && es[i].0 == k
}

/// Where `k` stands in `es`, when it does.
pub open spec fn key_index(es: Seq<(Seq<char>, ImageView)>, k: Seq<char>) -> int {
    choose|i: int| 0 <= i < es.len() && es[i].0 == k
}

/// The paths a cache holds, least recently used first.
pub open spec fn cache_keys(m: CacheModel) -> Seq<Seq<char>> {
    m.entries.map_values(|e: (Seq<char>, ImageView)| e.0)
}

/// A lookup of `k`: a hit returns the entry and makes it the most recently
/// used; a miss changes nothing.
pub open spec fn get_step(m: CacheModel, k: Seq<char>) -> (CacheModel, Option<ImageView>) {
    if has_key(m.entries, k) {
        let i = key_index(m.entries, k);
        (
            CacheModel { capacity: m.capacity, entries: m.entries.remove(i).push(m.entries[i]) },
            Some(m.entries[i].1),
        )
    } else {
        (m, None)
    }
}

/// An insertion of `v` under `k`. A present key is replaced and becomes the
/// most recently used. A new key is appended, after the least recently used
/// entry has been evicted if the cache was full. A cache of capacity zero
/// stores nothing.
pub open spec fn put_step(m: CacheModel, k: Seq<char>, v: ImageView) -> CacheModel {
    if has_key(m.entries, k) {
        CacheModel {
            capacity: m.capacity,
            entries: m.entries.remove(key_index(m.entries, k)).push((k, v)),
        }
    } else if m.capacity == 0 {
        m
    } else if m.entries.len() >= m.capacity {
        CacheModel { capacity: m.capacity, entries: m.entries.drop_first().push((k, v)) }
    } else {
        CacheModel { capacity: m.capacity, entries: m.entries.push((k, v)) }
    }
}

pub open spec fn image_opt_view(r: Option<CachedImage>) -> Option<ImageView> {
    match r {
        Some(img) => Some(img@),
        None => None,
    }
}

pub open spec fn entries_view(es: Seq<(String, CachedImage)>) -> Seq<(Seq<char>, ImageView)> {
    es.map_values(|e: (String, CachedImage)| (e.0@, e.1@))
}

/// The executable cache.
pub struct ImageCache {
    capacity: usize,
    entries: Vec<(String, CachedImage)>,
}

impl View for ImageCache {
    type V = CacheModel;

    closed spec fn view(&self) -> CacheModel {
        CacheModel { capacity: self.capacity as nat, entries: entries_view(self.entries@) }
    }
}

/// Finds the position of `key` among `es`.
fn find_key(es: &Vec<(String, CachedImage)>, key: &String) -> (r: Option<usize>)
    requires
        keys_unique(entries_view(es@)),
    ensures
        r is None <==> !has_key(entries_view(es@), key@),
        r matches Some(i) ==> i < es@.len() && i == key_index(entries_view(es@), key@),
{
    let ghost ev = entries_view(es@);
    let mut i: usize = 0;
    while i < es.len()
        invariant
            i <= es@.len(),
            ev == entries_view(es@),
            keys_unique(ev),
            forall|j: int| 0 <= j < i ==> ev[j].0 != key@,
        decreases es@.len() - i,
    {
        if es[i].0.eq(key) {
            proof {
                assert(ev[i as int].0 == key@);
                let c = key_index(ev, key@);
                assert(0 <= c < ev.len() && ev[c].0 == key@);
                assert(c == i as int);
            }
            return Some(i);
        }
        i = i + 1;
    }
    proof {
        assert forall|j: int| 0 <= j < ev.len() implies ev[j].0 != key@ by {}
    }
    None
}

impl ImageCache {
    #[verifier::type_invariant]
    spec fn inv(&self) -> bool {
        cache_wf(self@)
    }

    /// An empty cache that holds at most `capacity` images.
    pub fn new(capacity: usize) -> (r: ImageCache)
        ensures
            r@ == (CacheModel { capacity: capacity as nat, entries: Seq::empty() }),
            cache_wf(r@),
    {
        let r = ImageCache { capacity, entries: Vec::new() };
        assert(entries_view(r.entries@) =~= Seq::empty());
        r
    }

    pub fn capacity(&self) -> (r: usize)
        ensures
            r as nat == self@.capacity,
    {
        self.capacity
    }

    /// The number of images held.
    pub fn len(&self) -> (r: usize)
        ensures
            r as nat == self@.entries.len(),
    {
        self.entries.len()
    }

    /// Whether `path` is held; unlike `get`, this leaves the recency order as
    /// it is.
    pub fn contains(&self, path: &str) -> (r: bool)
        ensures
            r == has_key(self@.entries, path@),
    {
        proof {
            use_type_invariant(self);
        }
        let key = path.to_string();
        find_key(&self.entries, &key).is_some()
    }

    /// Looks `path` up; on a hit the entry becomes the most recently used.
    pub fn get(&mut self, path: &str) -> (r: Option<CachedImage>)
        ensures
            cache_wf(final(self)@),
            (final(self)@, image_opt_view(r)) == get_step(old(self)@, path@),
    {
        proof {
            use_type_invariant(&*self);
        }
        let key = path.to_string();
        match find_key(&self.entries, &key) {
            None => None,
            Some(i) => {
                let ghost old_es = self.entries@;
                let mut es: Vec<(String, CachedImage)> = Vec::new();
                std::mem::swap(&mut es, &mut self.entries);
                let e = es.remove(i);
                let out = e.1.share();
                es.push(e);
                proof {
                    let ov = entries_view(old_es);
                    assert(entries_view(es@) =~= ov.remove(i as int).push(ov[i as int]));
                    lemma_touch_keeps_unique(ov, i as int);
                }
                self.entries = es;
                Some(out)
            }
        }
    }

    /// Inserts or replaces the image under `path`, evicting the least recently
    /// used entry when a new path arrives at a full cache.
    pub fn put(&mut self, path: &str, image: CachedImage)
        ensures
            cache_wf(final(self)@),
            final(self)@ == put_step(old(self)@, path@, image@),
    {
        proof {
            use_type_invariant(&*self);
        }
        let key = path.to_string();
        let ghost old_es = self.entries@;
        let ghost ov = entries_view(old_es);
        let ghost kv = (path@, image@);
        let mut es: Vec<(String, CachedImage)> = Vec::new();
        std::mem::swap(&mut es, &mut self.entries);
        match find_key(&es, &key) {
            Some(i) => {
                es.remove(i);
                es.push((key, image));
                proof {
                    assert(entries_view(es@) =~= ov.remove(i as int).push(kv));
                    lemma_replace_keeps_unique(ov, i as int, kv);
                }
            },
            None => {
                if self.capacity > 0 {
                    if es.len() >= self.capacity {
                        es.remove(0);
                        proof {
                            assert(entries_view(es@) =~= ov.drop_first());
                        }
                    }
                    let ghost before = entries_view(es@);
                    es.push((key, image));
                    proof {
                        assert(entries_view(es@) =~= before.push(kv));
                        assert(!has_key(before, path@)) by {
                            if has_key(before, path@) {
                                let j = choose|j: int| 0 <= j < before.len() && before[j].0 == path@;
                                if ov.len() >= self.capacity {
                                    assert(ov[j + 1].0 == path@);
                                } else {
                                    assert(ov[j].0 == path@);
                                }
                            }
                        }
                        lemma_push_new_keeps_unique(before, kv);
                    }
                } else {
                    assert(entries_view(es@) == ov);
                }
            },
        }
        self.entries = es;
    }
}

pub(crate) proof fn lemma_rgba_len_fits(width: u32, height: u32)
    ensures
        4 * (width as int) * (height as int) <= 4 * 0xffff_ffffint * 0xffff_ffffint,
        0 <= 4 * (width as int) * (height as int),
{
    assert(4 * (width as int) * (height as int) <= 4 * 0xffff_ffffint * 0xffff_ffffint)
        by (nonlinear_arith)
        requires
            width <= 0xffff_ffff,
            height <= 0xffff_ffff,
    ;
    assert(0 <= 4 * (width as int) * (height as int)) by (nonlinear_arith);
}

proof fn lemma_touch_keeps_unique(es: Seq<(Seq<char>, ImageView)>, i: int)
    requires
        keys_unique(es),
        0 <= i < es.len(),
    ensures
        keys_unique(es.remove(i).push(es[i])),
{
    let r = es.remove(i).push(es[i]);
    assert forall|a: int, b: int| 0 <= a < b < r.len() implies r[a].0 != r[b].0 by {
        let oa = if a < i { a } else { a + 1 };
        if b == r.len() - 1 {
            assert(r[b] == es[i]);
        } else {
            let ob = if b < i { b } else { b + 1 };
            assert(r[b] == es[ob]);
        }
        assert(r[a] == es[oa]);
    }
}

proof fn lemma_replace_keeps_unique(
    es: Seq<(Seq<char>, ImageView)>,
    i: int,
    kv: (Seq<char>, ImageView),
)
    requires
        keys_unique(es),
        0 <= i < es.len(),
        es[i].0 == kv.0,
    ensures
        keys_unique(es.remove(i).push(kv)),
{
    let r = es.remove(i).push(kv);
    assert forall|a: int, b: int| 0 <= a < b < r.len() implies r[a].0 != r[b].0 by {
        let oa = if a < i { a } else { a + 1 };
        if b == r.len() - 1 {
            assert(r[b] == kv);
        } else {
            let ob = if b < i { b } else { b + 1 };
            assert(r[b] == es[ob]);
        }
        assert(r[a] == es[oa]);
    }
}

proof fn lemma_push_new_keeps_unique(es: Seq<(Seq<char>, ImageView)>, kv: (Seq<char>, ImageView))
    requires
        keys_unique(es),
        !has_key(es, kv.0),
    ensures
        keys_unique(es.push(kv)),
{
    let r = es.push(kv);
    assert forall|a: int, b: int| 0 <= a < b < r.len() implies r[a].0 != r[b].0 by {
        assert(r[a] == es[a]);
        if b == r.len() - 1 {
            assert(r[b] == kv);
        } else {
            assert(r[b] == es[b]);
        }
    }
}

/// Every insertion keeps a cache valid.
pub proof fn lemma_put_keeps_wf(m: CacheModel, k: Seq<char>, v: ImageView)
    requires
        cache_wf(m),
    ensures
        cache_wf(put_step(m, k, v)),
{
    let es = m.entries;
    if has_key(es, k) {
        lemma_replace_keeps_unique(es, key_index(es, k), (k, v));
    } else if m.capacity > 0 {
        let before = if es.len() >= m.capacity { es.drop_first() } else { es };
        assert(!has_key(before, k)) by {
            if has_key(before, k) {
                let j = choose|j: int| 0 <= j < before.len() && before[j].0 == k;
                if es.len() >= m.capacity {
                    assert(es[j + 1].0 == k);
                } else {
                    assert(es[j].0 == k);
                }
            }
        }
        assert forall|a: int, b: int| 0 <= a < b < before.len() implies before[a].0
            != before[b].0 by {
            if es.len() >= m.capacity {
                assert(before[a] == es[a + 1] && before[b] == es[b + 1]);
            }
        }
        lemma_push_new_keeps_unique(before, (k, v));
    }
}

/// Once `v` has been stored under `k` (capacity permitting), a lookup of `k`
/// is a hit that returns `v` itself, with no new decode.
pub proof fn lemma_hit_after_put(m: CacheModel, k: Seq<char>, v: ImageView)
    requires
        cache_wf(m),
        m.capacity > 0,
    ensures
        get_step(put_step(m, k, v), k).1 == Some(v),
{
    lemma_put_keeps_wf(m, k, v);
    let es = put_step(m, k, v).entries;
    let last = es.len() - 1;
    assert(es[last] == (k, v));
    assert(has_key(es, k));
    let i = key_index(es, k);
    assert(i == last);
}

/// Inserting a new path into a full cache evicts exactly the least recently
/// used entry, the first of the recency order, and keeps every other one.
pub proof fn lemma_full_put_evicts_lru(m: CacheModel, k: Seq<char>, v: ImageView)
    requires
        cache_wf(m),
        m.capacity > 0,
        m.entries.len() == m.capacity,
        !has_key(m.entries, k),
    ensures
        cache_keys(put_step(m, k, v)) == cache_keys(m).drop_first().push(k),
        !has_key(put_step(m, k, v).entries, m.entries[0].0),
        forall|j: int|
            1 <= j < m.entries.len() ==> has_key(put_step(m, k, v).entries, #[trigger] m.entries[j].0),
{
    let r = put_step(m, k, v).entries;
    assert(cache_keys(put_step(m, k, v)) =~= cache_keys(m).drop_first().push(k));
    if has_key(r, m.entries[0].0) {
        let j = choose|j: int| 0 <= j < r.len() && r[j].0 == m.entries[0].0;
        if j < r.len() - 1 {
            assert(r[j] == m.entries[j + 1]);
        }
    }
    assert forall|j: int| 1 <= j < m.entries.len() implies has_key(r, #[trigger] m.entries[j].0) by {
        assert(r[j - 1] == m.entries[j]);
    }
}

/// A lookup makes its entry the most recently used, so the next eviction
/// spares it: in a full cache of capacity two or more, a path just read
/// survives the insertion of a new path.
pub proof fn lemma_get_spares_from_eviction(
    m: CacheModel,
    a: Seq<char>,
    k: Seq<char>,
    v: ImageView,
)
    requires
        cache_wf(m),
        m.capacity >= 2,
        m.entries.len() == m.capacity,
        has_key(m.entries, a),
        !has_key(m.entries, k),
    ensures
        has_key(put_step(get_step(m, a).0, k, v).entries, a),
        has_key(put_step(get_step(m, a).0, k, v).entries, k),
{
    let es = m.entries;
    let i = key_index(es, a);
    let g = get_step(m, a).0;
    lemma_touch_keeps_unique(es, i);
    assert(!has_key(g.entries, k)) by {
        if has_key(g.entries, k) {
            let j = choose|j: int| 0 <= j < g.entries.len() && g.entries[j].0 == k;
            if j == g.entries.len() - 1 {
                assert(g.entries[j] == es[i]);
            } else if j < i {
                assert(g.entries[j] == es[j]);
            } else {
                assert(g.entries[j] == es[j + 1]);
            }
        }
    }
    let r = put_step(g, k, v).entries;
    assert(g.entries[g.entries.len() - 1] == es[i]);
    assert(r[r.len() - 2] == es[i]);
    assert(r[r.len() - 1] == (k, v));
}

} // verus!
