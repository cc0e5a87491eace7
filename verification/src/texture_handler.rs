//! The image-preparation pipeline's decisions: how the discovered paths are
//! split into worker chunks, what one worker computes for one file, and the
//! cache that the drained results land in.  The threads, the file reads and
//! the screen upload run outside the library; each hands values in and
//! takes values back.

use vstd::prelude::*;

use crate::image_codec::RgbaBitmap;
use crate::image_codec::decode_image;
use crate::image_codec::decode_ok;
use crate::image_codec::image_dimensions;
use crate::image_codec::image_to_rgba;
use crate::image_codec::resize_image;
use crate::image_path::ImagePath;
use crate::image_path::file_name_of;

verus! {

/// The longer edge of every prepared thumbnail.
pub const MAX_SIZE: u32 = 200;

/// The scaled length of the shorter edge when the longer one becomes
/// `MAX_SIZE`, and never below one pixel.
pub open spec fn scaled_edge(short: u32, long: u32) -> u32 {
    let e = (short as int) * 200 / (long as int);
    if e < 1 {
        1u32
    } else {
        e as u32
    }
}

/// The dimensions a picture is downsampled to: the longer edge becomes
/// `MAX_SIZE`, the shorter one keeps the aspect ratio, and degenerate
/// reported dimensions fall back to a single pixel.
pub open spec fn spec_target_dims(w: u32, h: u32) -> (u32, u32) {
    if w == 0 || h == 0 {
        (1u32, 1u32)
    } else if w > h {
        (MAX_SIZE, scaled_edge(h, w))
    } else {
        (scaled_edge(w, h), MAX_SIZE)
    }
}

/// Computes the thumbnail dimensions for a picture reported as `w` by `h`.
pub fn target_dims(w: u32, h: u32) -> (r: (u32, u32))
    ensures
        r == spec_target_dims(w, h),
{
    if w == 0 || h == 0 {
        (1, 1)
    } else if w > h {
        proof {
            assert((h as int) * 200 / (w as int) < 200) by (nonlinear_arith)
                requires
                    0 < h < w,
            ;
        }
        let e = ((h as u64) * 200 / (w as u64)) as u32;
        if e < 1 {
            (MAX_SIZE, 1)
        } else {
            (MAX_SIZE, e)
        }
    } else {
        proof {
            assert((w as int) * 200 / (h as int) <= 200) by (nonlinear_arith)
                requires
                    0 < w <= h,
            ;
        }
        let e = ((w as u64) * 200 / (h as u64)) as u32;
        if e < 1 {
            (1, MAX_SIZE)
        } else {
            (e, MAX_SIZE)
        }
    }
}

/// What one worker produces for one file whose raw bytes were read for it:
/// the path itself, its display name, and the prepared bitmap.
pub struct PendingImage {
    pub path: ImagePath,
    pub name: Vec<u8>,
    pub pixels: RgbaBitmap,
}

impl PendingImage {
    pub open spec fn wf(&self) -> bool {
        &&& self.name@ == file_name_of(self.path@)
        &&& self.name@.len() > 0
        &&& self.pixels.wf()
    }
}

/// The per-item worker computation, after the file's bytes were read for
/// it: decode, downsample, and name the result.  It succeeds exactly when
/// the bytes decode and the path has a file name; any failure only skips
/// the item.
pub fn prepare_pending(path: &ImagePath, bytes: &Vec<u8>) -> (r: Option<PendingImage>)
    ensures
        match r {
            Some(p) => {
                &&& decode_ok(bytes@)
                &&& file_name_of(path@).len() > 0
                &&& p.path@ == path@
                &&& p.wf()
            },
            None => !decode_ok(bytes@) || file_name_of(path@).len() == 0,
        },
{
    let name = path.file_name();
    if name.len() == 0 {
        return None;
    }
    let img = match decode_image(bytes) {
        Some(img) => img,
        None => {
            return None;
        },
    };
    let (w, h) = image_dimensions(&img);
    let (tw, th) = target_dims(w, h);
    let resized = resize_image(&img, tw, th);
    let pixels = image_to_rgba(&resized);
    Some(PendingImage { path: path.clone(), name, pixels })
}

/// The concatenation of a sequence of chunks.
pub open spec fn flat_chunks(s: Seq<Vec<ImagePath>>) -> Seq<ImagePath>
    decreases s.len(),
{
    if s.len() == 0 {
        Seq::<ImagePath>::empty()
    } else {
        flat_chunks(s.drop_last()) + s.last()@
    }
}

/// The chunk size `init` hands each worker: the discovered count divided by
/// the worker count, rounded up.
pub open spec fn spec_chunk_size(n: nat, workers: nat) -> nat {
    if workers == 0 {
        0
    } else if n % workers == 0 {
        n / workers
    } else {
        n / workers + 1
    }
}

/// Splits the discovered paths into at most `workers` contiguous chunks:
/// every chunk but the last holds exactly the computed chunk size, the last
/// holds the (nonempty) remainder, nothing is duplicated or lost, and an
/// empty discovery yields no chunks at all — so no worker need be spawned.
pub fn plan_chunks(paths: Vec<ImagePath>, workers: usize) -> (r: Vec<Vec<ImagePath>>)
    requires
        workers >= 1,
    ensures
        flat_chunks(r@) == paths@,
        r@.len() <= workers,
        paths@.len() == 0 <==> r@.len() == 0,
        forall|i: int|
            0 <= i < r@.len() - 1 ==> (#[trigger] r@[i])@.len() == spec_chunk_size(
                paths@.len(),
                workers as nat,
            ),
        r@.len() > 0 ==> 0 < r@.last()@.len() <= spec_chunk_size(paths@.len(), workers as nat),
{
    let ghost orig = paths@;
    let n = paths.len();
    let cs = if n % workers == 0 {
        n / workers
    } else {
        proof {
            assert(n / workers < n) by (nonlinear_arith)
                requires
                    workers >= 1,
                    n % workers != 0,
            ;
        }
        n / workers + 1
    };
    proof {
        assert(cs == spec_chunk_size(n as nat, workers as nat));
        assert(n <= cs * workers && (n > 0 ==> cs >= 1)) by (nonlinear_arith)
            requires
                workers >= 1,
                cs == (if n % workers == 0 {
                    n as int / workers as int
                } else {
                    n as int / workers as int + 1
                }),
        ;
    }
    let mut chunks: Vec<Vec<ImagePath>> = Vec::new();
    let mut rest = paths;
    while rest.len() > cs
        invariant
            n == orig.len(),
            cs == spec_chunk_size(n as nat, workers as nat),
            n <= cs * workers,
            n > 0 ==> cs >= 1,
            n == 0 ==> chunks@.len() == 0,
            flat_chunks(chunks@) + rest@ == orig,
            flat_chunks(chunks@).len() == chunks@.len() * cs,
            forall|i: int| 0 <= i < chunks@.len() ==> (#[trigger] chunks@[i])@.len() == cs,
        decreases rest@.len(),
    {
        let tail = rest.split_off(cs);
        proof {
            let cp = chunks@.push(rest);
            assert(cp.drop_last() =~= chunks@);
            assert(flat_chunks(cp) =~= flat_chunks(chunks@) + rest@);
            assert((flat_chunks(chunks@) + rest@) + tail@ =~= orig);
            assert((chunks@.len() + 1) * cs == chunks@.len() * cs + cs) by (nonlinear_arith);
        }
        chunks.push(rest);
        rest = tail;
    }
    if rest.len() > 0 {
        proof {
            let cp = chunks@.push(rest);
            assert(cp.drop_last() =~= chunks@);
            assert(flat_chunks(cp) =~= flat_chunks(chunks@) + rest@);
            assert(flat_chunks(chunks@) + rest@ =~= orig);
            assert(chunks@.len() * cs < n);
            assert(cs >= 1);
            assert(chunks@.len() < workers) by (nonlinear_arith)
                requires
                    chunks@.len() * cs < n <= cs * workers,
                    cs >= 1,
            ;
        }
        chunks.push(rest);
    } else {
        proof {
            assert(flat_chunks(chunks@) =~= orig);
            assert(chunks@.len() * cs == n);
            assert(chunks@.len() <= workers && (n > 0 ==> chunks@.len() > 0)) by (nonlinear_arith)
                requires
                    chunks@.len() * cs == n,
                    n <= cs * workers,
                    n > 0 ==> cs >= 1,
                    n == 0 ==> chunks@.len() == 0,
                    workers >= 1,
            ;
        }
    }
    chunks
}

/// The mapping an association list denotes: later entries win, though with
/// unique keys there is nothing to win over.
pub open spec fn cache_map_of<T>(s: Seq<(ImagePath, T)>) -> Map<Seq<u8>, T>
    decreases s.len(),
{
    if s.len() == 0 {
        Map::<Seq<u8>, T>::empty()
    } else {
        cache_map_of(s.drop_last()).insert(s.last().0@, s.last().1)
    }
}

/// No two entries name the same path.
pub open spec fn keys_unique<T>(s: Seq<(ImagePath, T)>) -> bool {
    forall|i: int, j: int|
        0 <= i < j < s.len() ==> (#[trigger] s[i]).0@ != (#[trigger] s[j]).0@
}

proof fn lemma_keys_unique_drop_last<T>(s: Seq<(ImagePath, T)>)
    requires
        keys_unique(s),
        s.len() > 0,
    ensures
        keys_unique(s.drop_last()),
{
    assert forall|i: int, j: int|
        0 <= i < j < s.drop_last().len() implies (#[trigger] s.drop_last()[i]).0@ != (
    #[trigger] s.drop_last()[j]).0@ by {
        assert(s.drop_last()[i] == s[i]);
        assert(s.drop_last()[j] == s[j]);
    }
}

proof fn lemma_cache_contains<T>(s: Seq<(ImagePath, T)>, k: Seq<u8>)
    ensures
        cache_map_of(s).dom().contains(k) <==> exists|i: int|
            0 <= i < s.len() && (#[trigger] s[i]).0@ == k,
    decreases s.len(),
{
    if s.len() > 0 {
        lemma_cache_contains(s.drop_last(), k);
        if s.last().0@ == k {
            assert(s[s.len() - 1].0@ == k);
        } else {
            if exists|i: int| 0 <= i < s.len() && (#[trigger] s[i]).0@ == k {
                let i = choose|i: int| 0 <= i < s.len() && (#[trigger] s[i]).0@ == k;
                assert(i < s.len() - 1);
                assert(s.drop_last()[i] == s[i]);
            }
            if exists|i: int| 0 <= i < s.drop_last().len() && (#[trigger] s.drop_last()[i]).0@
                == k {
                let i = choose|i: int|
                    0 <= i < s.drop_last().len() && (#[trigger] s.drop_last()[i]).0@ == k;
                assert(s[i] == s.drop_last()[i]);
            }
        }
    }
}

proof fn lemma_cache_index<T>(s: Seq<(ImagePath, T)>, i: int)
    requires
        keys_unique(s),
        0 <= i < s.len(),
    ensures
        cache_map_of(s).dom().contains(s[i].0@),
        cache_map_of(s)[s[i].0@] == s[i].1,
    decreases s.len(),
{
    if i < s.len() - 1 {
        lemma_keys_unique_drop_last(s);
        lemma_cache_index(s.drop_last(), i);
        assert(s.drop_last()[i] == s[i]);
        assert(s.last().0@ != s[i].0@);
    }
}

proof fn lemma_cache_len<T>(s: Seq<(ImagePath, T)>)
    requires
        keys_unique(s),
    ensures
        cache_map_of(s).dom().finite(),
        cache_map_of(s).dom().len() == s.len(),
    decreases s.len(),
{
    if s.len() == 0 {
        assert(cache_map_of(s).dom() =~= Set::<Seq<u8>>::empty());
    } else {
        lemma_keys_unique_drop_last(s);
        lemma_cache_len(s.drop_last());
        lemma_cache_contains(s.drop_last(), s.last().0@);
        assert forall|i: int| 0 <= i < s.drop_last().len() implies (#[trigger] s.drop_last()[i]).0@
            != s.last().0@ by {
            assert(s.drop_last()[i] == s[i]);
            assert(s[s.len() - 1].0@ == s.last().0@);
        }
        assert(!cache_map_of(s.drop_last()).dom().contains(s.last().0@));
        assert(cache_map_of(s).dom() =~= cache_map_of(s.drop_last()).dom().insert(s.last().0@));
        vstd::set::axiom_set_insert_len(
            cache_map_of(s.drop_last()).dom(),
            s.last().0@,
        );
    }
}

proof fn lemma_cache_update<T>(s: Seq<(ImagePath, T)>, i: int, p: ImagePath, v: T)
    requires
        keys_unique(s),
        0 <= i < s.len(),
        s[i].0@ == p@,
    ensures
        cache_map_of(s.update(i, (p, v))) == cache_map_of(s).insert(p@, v),
        keys_unique(s.update(i, (p, v))),
    decreases s.len(),
{
    let t = s.update(i, (p, v));
    assert forall|a: int, b: int| 0 <= a < b < t.len() implies (#[trigger] t[a]).0@ != (
    #[trigger] t[b]).0@ by {
        assert(t[a].0@ == s[a].0@);
        assert(t[b].0@ == s[b].0@);
    }
    if i == s.len() - 1 {
        assert(t.drop_last() =~= s.drop_last());
        assert(t.last() == (p, v));
        assert(cache_map_of(t) == cache_map_of(s.drop_last()).insert(p@, v));
        assert(cache_map_of(s).insert(p@, v) =~= cache_map_of(s.drop_last()).insert(p@, v));
    } else {
        lemma_keys_unique_drop_last(s);
        assert(t.drop_last() =~= s.drop_last().update(i, (p, v)));
        assert(t.last() == s.last());
        lemma_cache_update(s.drop_last(), i, p, v);
        assert(s.last().0@ != p@);
        assert(cache_map_of(t) == cache_map_of(s.drop_last()).insert(p@, v).insert(
            s.last().0@,
            s.last().1,
        ));
        assert(cache_map_of(s.drop_last()).insert(p@, v).insert(s.last().0@, s.last().1)
            =~= cache_map_of(s.drop_last()).insert(s.last().0@, s.last().1).insert(p@, v));
    }
}

/// The texture cache: a mapping from path to a renderer-owned handle.  The
/// handle type is the display layer's business and is carried opaquely; the
/// library proves how the mapping itself behaves.  Entries are added when
/// the interactive thread drains the pending queue and are never removed; a
/// second entry for the same path overwrites the first.
pub struct TextureCache<T> {
    entries: Vec<(ImagePath, T)>,
}

impl<T> View for TextureCache<T> {
    type V = Map<Seq<u8>, T>;

    closed spec fn view(&self) -> Map<Seq<u8>, T> {
        cache_map_of(self.entries@)
    }
}

impl<T> TextureCache<T> {
    pub closed spec fn wf(&self) -> bool {
        keys_unique(self.entries@)
    }

    /// A fresh, empty cache.
    pub fn new() -> (r: TextureCache<T>)
        ensures
            r.wf(),
            r@ == Map::<Seq<u8>, T>::empty(),
            r@.dom().len() == 0,
    {
        let r = TextureCache { entries: Vec::new() };
        proof {
            assert(r@.dom() =~= Set::<Seq<u8>>::empty());
        }
        r
    }

    /// How many pictures are ready to show.
    pub fn len(&self) -> (r: usize)
        requires
            self.wf(),
        ensures
            r == self@.dom().len(),
    {
        proof {
            lemma_cache_len(self.entries@);
        }
        self.entries.len()
    }

    /// Files `handle` under `path`.  A fresh path grows the cache by one;
    /// a path already present is overwritten and the count stays — so the
    /// count never exceeds the number of distinct paths ever inserted.
    pub fn insert(&mut self, path: ImagePath, handle: T)
        requires
            old(self).wf(),
        ensures
            final(self).wf(),
            final(self)@ == old(self)@.insert(path@, handle),
            final(self)@.dom().len() == old(self)@.dom().len() + (if old(self)@.dom().contains(
                path@,
            ) {
                0int
            } else {
                1int
            }),
    {
        proof {
            lemma_cache_len(self.entries@);
            lemma_cache_contains(self.entries@, path@);
        }
        let n = self.entries.len();
        let mut i: usize = 0;
        while i < n
            invariant
                *self == *old(self),
                keys_unique(self.entries@),
                n == self.entries@.len(),
                i <= n,
                forall|j: int| 0 <= j < i ==> (#[trigger] self.entries@[j]).0@ != path@,
            decreases n - i,
        {
            if self.entries[i].0.same_as(&path) {
                proof {
                    lemma_cache_update(self.entries@, i as int, path, handle);
                    lemma_cache_index(self.entries@, i as int);
                    lemma_cache_len(self.entries@.update(i as int, (path, handle)));
                    lemma_cache_len(self.entries@);
                    assert(cache_map_of(self.entries@).insert(path@, handle).dom()
                        =~= cache_map_of(self.entries@.update(i as int, (path, handle))).dom());
                }
                self.entries.set(i, (path, handle));
                return ;
            }
            i = i + 1;
        }
        proof {
            let s = self.entries@;
            let t = s.push((path, handle));
            assert(t.drop_last() =~= s);
            assert(t.last() == (path, handle));
            assert forall|a: int, b: int| 0 <= a < b < t.len() implies (#[trigger] t[a]).0@ != (
            #[trigger] t[b]).0@ by {
                if b < t.len() - 1 {
                    assert(t[a] == s[a]);
                    assert(t[b] == s[b]);
                } else {
                    assert(t[a] == s[a]);
                    assert(t[b] == (path, handle));
                }
            }
            assert(!cache_map_of(s).dom().contains(path@));
            lemma_cache_len(s);
            assert(cache_map_of(t) == cache_map_of(s).insert(path@, handle));
            vstd::set::axiom_set_insert_len(cache_map_of(s).dom(), path@);
            assert(cache_map_of(t).dom() =~= cache_map_of(s).dom().insert(path@));
        }
        self.entries.push((path, handle));
    }

    /// The handle filed under `path`: `Some` exactly when a drained entry
    /// for that path was inserted, `None` while the picture is still being
    /// produced — or was skipped for good.
    pub fn get(&self, path: &ImagePath) -> (r: Option<&T>)
        requires
            self.wf(),
        ensures
            match r {
                Some(v) => self@.dom().contains(path@) && *v == self@[path@],
                None => !self@.dom().contains(path@),
            },
    {
        proof {
            lemma_cache_contains(self.entries@, path@);
        }
        let n = self.entries.len();
        let mut i: usize = 0;
        while i < n
            invariant
                self.wf(),
                n == self.entries@.len(),
                i <= n,
                forall|j: int| 0 <= j < i ==> (#[trigger] self.entries@[j]).0@ != path@,
            decreases n - i,
        {
            let e = &self.entries[i];
            if e.0.same_as(path) {
                proof {
                    lemma_cache_index(self.entries@, i as int);
                }
                return Some(&e.1);
            }
            i = i + 1;
        }
        proof {
            lemma_cache_contains(self.entries@, path@);
        }
        None
    }
}

impl<T> Default for TextureCache<T> {
    /// A fresh, empty cache.
    fn default() -> (r: TextureCache<T>)
        ensures
            r.wf(),
            r@ == Map::<Seq<u8>, T>::empty(),
    {
        TextureCache::new()
    }
}

/// The mapping after a drained batch of pending entries is filed, first to
/// last.
pub open spec fn spec_absorb(m: Map<Seq<u8>, RgbaBitmap>, entries: Seq<PendingImage>) -> Map<
    Seq<u8>,
    RgbaBitmap,
>
    decreases entries.len(),
{
    if entries.len() == 0 {
        m
    } else {
        spec_absorb(m.insert(entries[0].path@, entries[0].pixels), entries.drop_first())
    }
}

/// The paths of a batch of pending entries.
pub open spec fn pending_paths(entries: Seq<PendingImage>) -> Set<Seq<u8>> {
    entries.map_values(|e: PendingImage| e.path@).to_set()
}

/// The consumer step: files every drained pending entry into the cache
/// under its path, in order.  Workers only append and this only moves
/// entries from the queue into the cache, so nothing is lost on the way.
pub fn absorb_pending(cache: &mut TextureCache<RgbaBitmap>, entries: Vec<PendingImage>)
    requires
        old(cache).wf(),
    ensures
        final(cache).wf(),
        final(cache)@ == spec_absorb(old(cache)@, entries@),
{
    let ghost m0 = cache@;
    let ghost all = entries@;
    let mut rest = entries;
    while rest.len() > 0
        invariant
            cache.wf(),
            spec_absorb(m0, all) == spec_absorb(cache@, rest@),
        decreases rest@.len(),
    {
        let ghost pre = rest@;
        let entry = rest.remove(0);
        proof {
            assert(rest@ =~= pre.drop_first());
        }
        cache.insert(entry.path, entry.pixels);
    }
    proof {
        assert(spec_absorb(cache@, rest@) == cache@);
    }
}

proof fn lemma_absorb_dom(m: Map<Seq<u8>, RgbaBitmap>, entries: Seq<PendingImage>)
    ensures
        spec_absorb(m, entries).dom() =~= m.dom().union(pending_paths(entries)),
    decreases entries.len(),
{
    if entries.len() == 0 {
        assert(entries.map_values(|e: PendingImage| e.path@) =~= Seq::<Seq<u8>>::empty());
        assert(pending_paths(entries) =~= Set::<Seq<u8>>::empty());
    } else {
        lemma_absorb_dom(m.insert(entries[0].path@, entries[0].pixels), entries.drop_first());
        let ps = entries.map_values(|e: PendingImage| e.path@);
        let ps1 = entries.drop_first().map_values(|e: PendingImage| e.path@);
        assert(ps =~= seq![entries[0].path@] + ps1);
        assert forall|k: Seq<u8>| ps.to_set().contains(k) implies m.dom().insert(
            entries[0].path@,
        ).union(ps1.to_set()).contains(k) by {
            let j = choose|j: int| 0 <= j < ps.len() && ps[j] == k;
            if j > 0 {
                assert(ps1[j - 1] == k);
            }
        }
        assert forall|k: Seq<u8>| ps1.to_set().contains(k) implies ps.to_set().contains(k) by {
            let j = choose|j: int| 0 <= j < ps1.len() && ps1[j] == k;
            assert(ps[j + 1] == k);
        }
        assert(ps[0] == entries[0].path@);
        assert(ps.contains(entries[0].path@));
        assert(ps.to_set().contains(entries[0].path@));
    }
}

/// Draining loses nothing and invents nothing: after a batch is filed, the
/// cache holds exactly its old keys and the batch's paths.
pub proof fn lemma_absorb_exact(m: Map<Seq<u8>, RgbaBitmap>, entries: Seq<PendingImage>)
    ensures
        spec_absorb(m, entries).dom() == m.dom().union(pending_paths(entries)),
{
    lemma_absorb_dom(m, entries);
}

/// The prepared count only moves forward: filing a drained batch never
/// shrinks the cache, and grows it by at most the batch size — the batch's
/// entries leave the queue as they enter the cache, so the session's
/// queue-plus-cache count never drops.
pub proof fn lemma_absorb_len(m: Map<Seq<u8>, RgbaBitmap>, entries: Seq<PendingImage>)
    requires
        m.dom().finite(),
    ensures
        m.dom().len() <= spec_absorb(m, entries).dom().len(),
        spec_absorb(m, entries).dom().len() <= m.dom().len() + entries.len(),
{
    broadcast use vstd::seq_lib::seq_to_set_is_finite;

    lemma_absorb_dom(m, entries);
    let ps = entries.map_values(|e: PendingImage| e.path@);
    ps.lemma_cardinality_of_set();
    vstd::set_lib::lemma_len_union(m.dom(), pending_paths(entries));
    vstd::set_lib::lemma_len_subset(m.dom(), m.dom().union(pending_paths(entries)));
}

/// However the worker threads race, the cache never outgrows the
/// discovered set: every key is a discovered path, and distinct keys bound
/// the count by the number of discovered paths.
pub proof fn lemma_cache_bounded<T>(m: Map<Seq<u8>, T>, discovered: Set<Seq<u8>>)
    requires
        discovered.finite(),
        m.dom().subset_of(discovered),
    ensures
        m.dom().len() <= discovered.len(),
{
    vstd::set_lib::lemma_len_subset(m.dom(), discovered);
}

} // verus!
