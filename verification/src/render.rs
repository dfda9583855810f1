use vstd::prelude::*;
use std::collections::HashSet;
use crate::model::{GridFit, ViewMode, MAX_RENDER_WIDTH, MIN_RENDER_WIDTH};

verus! {

broadcast use vstd::std_specs::hash::group_hash_axioms;

/// Grids with this many pages per view or more are rendered as thumbnails.
pub const DENSE_GRID_PAGES: usize = 40;

/// Frames between two bitmap-cache prunes.
pub const PRUNE_INTERVAL_FRAMES: u64 = 90;

/// Whether a view mode shows so many pages that they are rendered as thumbnails:
/// the overview always, other grids from `DENSE_GRID_PAGES` pages per view on.
pub fn dense_grid(mode: ViewMode, fit: GridFit) -> (r: bool)
    requires
        mode.fits(fit),
    ensures
        r == (mode == ViewMode::Overview || mode.spec_pages_per_view(fit) >= DENSE_GRID_PAGES),
{
    if let ViewMode::Overview = mode {
        return true;
    }
    mode.pages_per_view(fit) >= DENSE_GRID_PAGES
}

/// The render width for a page displayed `raw` device pixels wide: rounded up to
/// a multiple of 32 (thumbnails) or 64 pixels and kept between the minimum and
/// `MAX_RENDER_WIDTH`.
pub open spec fn spec_render_width(raw: u32, dense: bool) -> int {
    let quantum: int = if dense { 32 } else { 64 };
    let minimum: int = if dense { 32 } else { MIN_RENDER_WIDTH as int };
    let quantized = ((raw + quantum - 1) / quantum) * quantum;
    if quantized < minimum {
        minimum
    } else if quantized > MAX_RENDER_WIDTH {
        MAX_RENDER_WIDTH as int
    } else {
        quantized
    }
}

pub fn desired_render_width(raw: u32, dense: bool) -> (r: u32)
    ensures
        r == spec_render_width(raw, dense),
        r % 32 == 0,
        r <= MAX_RENDER_WIDTH,
{
    let quantum: u32 = if dense { 32 } else { 64 };
    let minimum: u32 = if dense { 32 } else { MIN_RENDER_WIDTH };
    if raw > MAX_RENDER_WIDTH {
        proof {
            let q = quantum as int;
            vstd::arithmetic::div_mod::lemma_fundamental_div_mod(raw + q - 1, q);
            vstd::arithmetic::div_mod::lemma_mod_bound(raw + q - 1, q);
            assert(((raw + q - 1) / q) * q >= raw) by (nonlinear_arith)
                requires
                    raw + q - 1 == q * ((raw + q - 1) / q) + (raw + q - 1) % q,
                    (raw + q - 1) % q < q,
                    q > 0,
            ;
        }
        return MAX_RENDER_WIDTH;
    }
    let quantized = ((raw + quantum - 1) / quantum) * quantum;
    proof {
        let q = quantum as int;
        assert(quantized as int == ((raw + q - 1) / q) * q);
        vstd::arithmetic::div_mod::lemma_mod_multiples_basic((raw + q - 1) / q, q);
        assert(quantized % 32 == 0) by (nonlinear_arith)
            requires
                quantized as int == ((raw + q - 1) / q) * q,
                q == 32 || q == 64,
        {
            if q == 64 {
                assert(((raw + q - 1) / q) * q == (((raw + q - 1) / q) * 2) * 32);
            }
        }
    }
    if quantized < minimum {
        minimum
    } else if quantized > MAX_RENDER_WIDTH {
        MAX_RENDER_WIDTH
    } else {
        quantized
    }
}

/// The width the renderer is asked for: the requested width kept between 64 and
/// `MAX_RENDER_WIDTH` pixels.
pub fn render_target_width(pixel_width: u32) -> (r: u32)
    ensures
        r == (if pixel_width < 64 { 64 } else if pixel_width > MAX_RENDER_WIDTH { MAX_RENDER_WIDTH } else { pixel_width }),
{
    if pixel_width < 64 {
        64
    } else if pixel_width > MAX_RENDER_WIDTH {
        MAX_RENDER_WIDTH
    } else {
        pixel_width
    }
}

/// Among the cached bitmaps `keys` (page, width), the one to draw page `page`
/// with when `desired` pixels are wanted: the narrowest that is wide enough, else
/// the widest available.
pub fn best_bitmap_key(keys: &Vec<(usize, u32)>, page: usize, desired: u32) -> (r: Option<(usize, u32)>)
    ensures
        r is None <==> forall|k: int| 0 <= k < keys@.len() ==> (#[trigger] keys@[k]).0 != page,
        r matches Some(key) ==> {
            &&& key.0 == page
            &&& keys@.contains(key)
            &&& key.1 >= desired ==> forall|k: int| 0 <= k < keys@.len() && (#[trigger] keys@[k]).0 == page
                && keys@[k].1 >= desired ==> key.1 <= keys@[k].1
            &&& key.1 < desired ==> forall|k: int| 0 <= k < keys@.len() && (#[trigger] keys@[k]).0 == page
                ==> keys@[k].1 <= key.1
        },
{
    let mut wider: Option<u32> = None;
    let mut narrower: Option<u32> = None;
    let mut i: usize = 0;
    while i < keys.len()
        invariant
            i <= keys@.len(),
            wider matches Some(w) ==> w >= desired && keys@.contains((page, w)) && forall|k: int|
                0 <= k < i && (#[trigger] keys@[k]).0 == page && keys@[k].1 >= desired ==> w <= keys@[k].1,
            wider is None ==> forall|k: int| 0 <= k < i && (#[trigger] keys@[k]).0 == page ==> keys@[k].1 < desired,
            narrower matches Some(n) ==> n < desired && keys@.contains((page, n)) && forall|k: int|
                0 <= k < i && (#[trigger] keys@[k]).0 == page && keys@[k].1 < desired ==> keys@[k].1 <= n,
            narrower is None ==> forall|k: int| 0 <= k < i && (#[trigger] keys@[k]).0 == page ==> keys@[k].1 >= desired,
        decreases keys@.len() - i,
    {
        let (candidate_page, width) = keys[i];
        if candidate_page == page {
            assert(keys@.contains((page, width))) by {
                assert(keys@[i as int] == (page, width));
            }
            if width >= desired {
                match wider {
                    Some(old) => if width < old { wider = Some(width); },
                    None => { wider = Some(width); },
                }
            } else {
                match narrower {
                    Some(old) => if width > old { narrower = Some(width); },
                    None => { narrower = Some(width); },
                }
            }
        }
        i = i + 1;
    }
    match wider {
        Some(w) => Some((page, w)),
        None => match narrower {
            Some(n) => Some((page, n)),
            None => None,
        },
    }
}

} // verus!

verus! {

/// A cached page bitmap as the pruning decision sees it.
#[derive(Clone, Copy, Debug, PartialEq, Eq, Structural)]
pub struct CacheEntry {
    pub page: usize,
    pub last_used: u64,
    pub bytes: usize,
}

/// Total size of the cached bitmaps.
pub open spec fn total_bytes(entries: Seq<CacheEntry>) -> int
    decreases entries.len(),
{
    if entries.len() == 0 {
        0
    } else {
        total_bytes(entries.drop_last()) + entries.last().bytes
    }
}

/// The byte count the pruning loop tracks after evicting `evicted`, in order,
/// starting from `start` (each eviction subtracts the bitmap's size, never below 0).
pub open spec fn bytes_after(entries: Seq<CacheEntry>, start: int, evicted: Seq<usize>) -> int
    decreases evicted.len(),
{
    if evicted.len() == 0 {
        start
    } else {
        let before = bytes_after(entries, start, evicted.drop_last());
        let size = entries[evicted.last() as int].bytes as int;
        if before > size { before - size } else { 0 }
    }
}

/// Whether entry `j` may be evicted: its page is not on screen.
pub open spec fn evictable(entries: Seq<CacheEntry>, visible: Set<usize>, j: int) -> bool {
    0 <= j < entries.len() && !visible.contains(entries[j].page)
}

/// Chooses which cached bitmaps to drop, every `PRUNE_INTERVAL_FRAMES` frames,
/// when the cache holds more than `budget` bytes: bitmaps of pages not on screen,
/// least recently used first, until the cache is within budget.  Returns the
/// positions in `entries` to drop, in eviction order.
pub fn prune_plan(frame_no: u64, entries: &Vec<CacheEntry>, visible: &HashSet<usize>, budget: usize) -> (r: Vec<usize>)
    requires
        total_bytes(entries@) <= usize::MAX,
    ensures
        (frame_no % PRUNE_INTERVAL_FRAMES != 0 || total_bytes(entries@) <= budget) ==> r@.len() == 0,
        r@.no_duplicates(),
        forall|k: int| 0 <= k < r@.len() ==> evictable(entries@, visible@, #[trigger] r@[k] as int),
        forall|k: int, l: int| 0 <= k < l < r@.len() ==> entries@[r@[k] as int].last_used <= entries@[r@[l] as int].last_used,
        forall|k: int, j: int| 0 <= k < r@.len() && evictable(entries@, visible@, j) && !r@.contains(j as usize)
            ==> entries@[#[trigger] r@[k] as int].last_used <= #[trigger] entries@[j].last_used,
        forall|k: int| 0 <= k < r@.len() ==> bytes_after(entries@, total_bytes(entries@), #[trigger] r@.take(k)) > budget,
        frame_no % PRUNE_INTERVAL_FRAMES == 0 && total_bytes(entries@) > budget ==> (bytes_after(
            entries@,
            total_bytes(entries@),
            r@,
        ) <= budget || forall|j: int| evictable(entries@, visible@, j) ==> r@.contains(j as usize)),
{
    let mut plan: Vec<usize> = Vec::new();
    if frame_no % PRUNE_INTERVAL_FRAMES != 0 {
        assert(plan@.no_duplicates());
        return plan;
    }
    let n = entries.len();
    let mut total: usize = 0;
    let mut i: usize = 0;
    while i < n
        invariant
            i <= n == entries@.len(),
            total == total_bytes(entries@.take(i as int)),
            total_bytes(entries@) <= usize::MAX,
        decreases n - i,
    {
        proof {
            assert(entries@.take(i + 1).drop_last() == entries@.take(i as int));
            lemma_total_bytes_prefix(entries@, i + 1);
        }
        total = total + entries[i].bytes;
        i = i + 1;
    }
    assert(entries@.take(n as int) == entries@);
    if total <= budget {
        assert(plan@.no_duplicates());
        return plan;
    }
    let mut bytes = total;
    let mut evicted: Vec<bool> = Vec::new();
    let mut z: usize = 0;
    while z < n
        invariant
            z <= n == entries@.len(),
            evicted@.len() == z,
            forall|j: int| 0 <= j < z ==> !evicted@[j],
        decreases n - z,
    {
        evicted.push(false);
        z = z + 1;
    }
    assert(plan@.no_duplicates());
    loop
        invariant
            n == entries@.len(),
            evicted@.len() == n,
            total == total_bytes(entries@),
            bytes == bytes_after(entries@, total as int, plan@),
            plan@.no_duplicates(),
            forall|j: int| 0 <= j < n ==> (evicted@[j] <==> plan@.contains(j as usize)),
            forall|k: int| 0 <= k < plan@.len() ==> evictable(entries@, visible@, #[trigger] plan@[k] as int),
            forall|k: int, l: int| 0 <= k < l < plan@.len() ==> entries@[plan@[k] as int].last_used <= entries@[plan@[l] as int].last_used,
            forall|k: int, j: int| 0 <= k < plan@.len() && evictable(entries@, visible@, j) && !plan@.contains(j as usize)
                ==> entries@[#[trigger] plan@[k] as int].last_used <= #[trigger] entries@[j].last_used,
            forall|k: int| 0 <= k < plan@.len() ==> bytes_after(entries@, total as int, #[trigger] plan@.take(k)) > budget,
        ensures
            bytes <= budget || forall|j: int| evictable(entries@, visible@, j) ==> plan@.contains(j as usize),
        decreases unevicted(evicted@),
    {
        if bytes <= budget {
            break;
        }
        let mut best: Option<usize> = None;
        let mut j: usize = 0;
        while j < n
            invariant
                j <= n == entries@.len(),
                evicted@.len() == n,
                best matches Some(b) ==> b < j && !evicted@[b as int] && evictable(entries@, visible@, b as int)
                    && forall|m: int| 0 <= m < j && !evicted@[m] && evictable(entries@, visible@, m)
                        ==> entries@[b as int].last_used <= #[trigger] entries@[m].last_used,
                best is None ==> forall|m: int| 0 <= m < j ==> evicted@[m] || !evictable(entries@, visible@, m),
            decreases n - j,
        {
            if !evicted[j] && !visible.contains(&entries[j].page) {
                match best {
                    Some(b) => {
                        if entries[j].last_used < entries[b].last_used {
                            best = Some(j);
                        }
                    },
                    None => {
                        best = Some(j);
                    },
                }
            }
            j = j + 1;
        }
        match best {
            Some(b) => {
                let ghost old_plan = plan@;
                proof {
                    assert(!old_plan.contains(b));
                    assert(old_plan.push(b).take(old_plan.len() as int) == old_plan);
                    assert(old_plan.push(b).drop_last() == old_plan);
                }
                let size = entries[b].bytes;
                bytes = if bytes > size { bytes - size } else { 0 };
                proof {
                    lemma_unevicted_update(evicted@, b as int);
                }
                evicted.set(b, true);
                plan.push(b);
                proof {
                    assert forall|k: int| 0 <= k < plan@.len() implies bytes_after(entries@, total as int, #[trigger] plan@.take(k)) > budget by {
                        if k < old_plan.len() {
                            assert(plan@.take(k) == old_plan.take(k));
                        } else {
                            assert(plan@.take(k) == old_plan);
                        }
                    }
                    assert forall|jj: int| 0 <= jj < n implies (evicted@[jj] <==> plan@.contains(jj as usize)) by {
                        if plan@.contains(jj as usize) && jj as usize != b {
                            let k = choose|k: int| 0 <= k < plan@.len() && plan@[k] == jj as usize;
                            assert(old_plan[k] == jj as usize);
                        }
                        if old_plan.contains(jj as usize) {
                            let k = choose|k: int| 0 <= k < old_plan.len() && old_plan[k] == jj as usize;
                            assert(plan@[k] == jj as usize);
                        }
                        if jj as usize == b {
                            assert(plan@[plan@.len() - 1] == b);
                        }
                    }
                    assert forall|k: int, jj: int| 0 <= k < plan@.len() && evictable(entries@, visible@, jj) && !plan@.contains(jj as usize)
                        implies entries@[#[trigger] plan@[k] as int].last_used <= #[trigger] entries@[jj].last_used by {
                        assert(!old_plan.contains(jj as usize)) by {
                            if old_plan.contains(jj as usize) {
                                let m = choose|m: int| 0 <= m < old_plan.len() && old_plan[m] == jj as usize;
                                assert(plan@[m] == jj as usize);
                            }
                        }
                        if k < old_plan.len() {
                            assert(plan@[k] == old_plan[k]);
                        } else {
                            assert(!evicted@[jj] || jj as usize == b);
                            if jj as usize == b {
                                assert(plan@[plan@.len() - 1] == b);
                            }
                        }
                    }
                }
            },
            None => {
                proof {
                    assert forall|jj: int| evictable(entries@, visible@, jj) implies plan@.contains(jj as usize) by {
                        assert(evicted@[jj]);
                    }
                }
                break;
            },
        }
    }
    plan
}

/// Number of entries not yet chosen for eviction.
spec fn unevicted(s: Seq<bool>) -> nat
    decreases s.len(),
{
    if s.len() == 0 {
        0
    } else {
        unevicted(s.drop_last()) + if s.last() { 0nat } else { 1nat }
    }
}

proof fn lemma_unevicted_update(s: Seq<bool>, b: int)
    requires
        0 <= b < s.len(),
        !s[b],
    ensures
        unevicted(s.update(b, true)) + 1 == unevicted(s),
    decreases s.len(),
{
    let t = s.update(b, true);
    if b == s.len() - 1 {
        assert(t.drop_last() == s.drop_last());
    } else {
        lemma_unevicted_update(s.drop_last(), b);
        assert(t.drop_last() == s.drop_last().update(b, true));
    }
}

proof fn lemma_total_bytes_prefix(entries: Seq<CacheEntry>, i: int)
    requires
        0 <= i <= entries.len(),
    ensures
        total_bytes(entries.take(i)) <= total_bytes(entries),
    decreases entries.len() - i,
{
    if i < entries.len() {
        lemma_total_bytes_prefix(entries, i + 1);
        assert(entries.take(i + 1).drop_last() == entries.take(i));
    } else {
        assert(entries.take(i) == entries);
    }
}

} // verus!

verus! {

/// Whether `keys` holds the bitmap request `key` (a page and a pixel width).
pub fn holds_key(keys: &Vec<(usize, u32)>, key: (usize, u32)) -> (r: bool)
    ensures
        r == keys@.contains(key),
{
    let mut i: usize = 0;
    while i < keys.len()
        invariant
            i <= keys@.len(),
            forall|j: int| 0 <= j < i ==> keys@[j] != key,
        decreases keys@.len() - i,
    {
        let k = keys[i];
        if k.0 == key.0 && k.1 == key.1 {
            assert(keys@[i as int] == key);
            return true;
        }
        i = i + 1;
    }
    false
}

/// `keys` without any copy of `key`, the others in their order.
fn without_key(keys: &Vec<(usize, u32)>, key: (usize, u32)) -> (r: Vec<(usize, u32)>)
    ensures
        forall|x: (usize, u32)| r@.contains(x) <==> keys@.contains(x) && x != key,
{
    let mut out: Vec<(usize, u32)> = Vec::new();
    let mut i: usize = 0;
    while i < keys.len()
        invariant
            i <= keys@.len(),
            forall|x: (usize, u32)| out@.contains(x) <==> keys@.take(i as int).contains(x) && x != key,
        decreases keys@.len() - i,
    {
        let k = keys[i];
        let ghost before = out@;
        assert(keys@.take(i + 1) == keys@.take(i as int).push(k));
        if !(k.0 == key.0 && k.1 == key.1) {
            out.push(k);
            assert(out@ == before.push(k));
            assert forall|x: (usize, u32)| out@.contains(x) <==> keys@.take(i + 1).contains(x) && x != key by {
                if out@.contains(x) {
                    let j = choose|j: int| 0 <= j < out@.len() && #[trigger] out@[j] == x;
                    if j < before.len() {
                        assert(before[j] == x);
                        assert(before.contains(x));
                        let j2 = choose|j2: int| 0 <= j2 < i && #[trigger] keys@.take(i as int)[j2] == x;
                        assert(keys@.take(i + 1)[j2] == x);
                    } else {
                        assert(x == k);
                        assert(keys@.take(i + 1)[i as int] == k);
                    }
                }
                if keys@.take(i + 1).contains(x) && x != key {
                    let j = choose|j: int| 0 <= j < i + 1 && #[trigger] keys@.take(i + 1)[j] == x;
                    if j < i {
                        assert(keys@.take(i as int)[j] == x);
                        assert(keys@.take(i as int).contains(x));
                        assert(before.contains(x));
                        let j2 = choose|j2: int| 0 <= j2 < before.len() && #[trigger] before[j2] == x;
                        assert(out@[j2] == x);
                    } else {
                        assert(out@[before.len() as int] == k);
                    }
                }
            }
        } else {
            assert forall|x: (usize, u32)| out@.contains(x) <==> keys@.take(i + 1).contains(x) && x != key by {
                if keys@.take(i + 1).contains(x) && x != key {
                    let j = choose|j: int| 0 <= j < i + 1 && #[trigger] keys@.take(i + 1)[j] == x;
                    if j == i {
                        assert(x == k);
                        assert(k == key);
                    }
                    assert(keys@.take(i as int)[j] == x);
                }
                if keys@.take(i as int).contains(x) {
                    let j = choose|j: int| 0 <= j < i && #[trigger] keys@.take(i as int)[j] == x;
                    assert(keys@.take(i + 1)[j] == x);
                }
            }
        }
        i = i + 1;
    }
    assert(keys@.take(keys@.len() as int) == keys@);
    out
}

/// The bookkeeping of bitmap requests for the active document: the requests
/// sent and not yet answered, the requests that failed (not asked again), and
/// the render generation that answers must carry to count.
pub struct RenderBook {
    pub in_flight: Vec<(usize, u32)>,
    pub failed: Vec<(usize, u32)>,
    pub generation: u64,
}

impl RenderBook {
    pub fn new(generation: u64) -> (r: Self)
        ensures
            r.in_flight@.len() == 0,
            r.failed@.len() == 0,
            r.generation == generation,
    {
        RenderBook { in_flight: Vec::new(), failed: Vec::new(), generation }
    }

    /// Decides whether to send a request for the bitmap `key`: only when it is not
    /// cached, has not failed and is not already in flight.  A sent request is
    /// recorded as in flight.
    pub fn request(&mut self, key: (usize, u32), cached: bool) -> (send: bool)
        ensures
            send == (!cached && !old(self).failed@.contains(key) && !old(self).in_flight@.contains(key)),
            send ==> final(self).in_flight@ == old(self).in_flight@.push(key),
            send ==> final(self).failed@ == old(self).failed@,
            send ==> final(self).generation == old(self).generation,
            !send ==> *final(self) == *old(self),
    {
        if cached || holds_key(&self.failed, key) || holds_key(&self.in_flight, key) {
            return false;
        }
        self.in_flight.push(key);
        true
    }

    /// Takes in the answer to a request for `key` (`ok` when a bitmap came back):
    /// it counts only for the active document and the current generation.  A
    /// counted answer ends the request; a failed one is remembered as failed.
    pub fn on_result(
        &mut self,
        active_doc: u64,
        event_doc: u64,
        event_generation: u64,
        key: (usize, u32),
        ok: bool,
    ) -> (accept: bool)
        ensures
            accept == (event_doc == active_doc && event_generation == old(self).generation),
            accept ==> forall|x: (usize, u32)| #[trigger] final(self).in_flight@.contains(x)
                <==> old(self).in_flight@.contains(x) && x != key,
            accept && ok ==> final(self).failed@ == old(self).failed@,
            accept && !ok ==> final(self).failed@ == if old(self).failed@.contains(key) {
                old(self).failed@
            } else {
                old(self).failed@.push(key)
            },
            final(self).generation == old(self).generation,
            !accept ==> *final(self) == *old(self),
    {
        if event_doc != active_doc || event_generation != self.generation {
            return false;
        }
        self.in_flight = without_key(&self.in_flight, key);
        if !ok && !holds_key(&self.failed, key) {
            self.failed.push(key);
        }
        true
    }

    /// Forgets every pending and failed request, keeping the generation: what is
    /// still in flight may arrive and is then simply asked for again.
    pub fn forget(&mut self)
        ensures
            final(self).in_flight@.len() == 0,
            final(self).failed@.len() == 0,
            final(self).generation == old(self).generation,
    {
        self.in_flight = Vec::new();
        self.failed = Vec::new();
    }

    /// Starts render generation `generation`: every answer to an earlier request
    /// will be discarded, and nothing is pending or failed any more.
    pub fn invalidate(&mut self, generation: u64)
        ensures
            final(self).in_flight@.len() == 0,
            final(self).failed@.len() == 0,
            final(self).generation == generation,
    {
        self.in_flight = Vec::new();
        self.failed = Vec::new();
        self.generation = generation;
    }
}

/// Whether the renderer should still carry out (or hand back) a render command:
/// only for the document it has open and the current render generation.
pub fn render_is_current(cmd_doc: u64, cmd_generation: u64, open_doc: u64, current: u64) -> (r: bool)
    ensures
        r == (cmd_doc == open_doc && cmd_generation == current),
{
    cmd_doc == open_doc && cmd_generation == current
}

} // verus!

verus! {

/// The render width covers the displayed width: it is never narrower than `raw`
/// (up to the 8192-pixel cap), lies between the minimum (96 pixels, 32 for
/// thumbnails) and 8192, and, away from those two bounds, is the multiple of 64
/// (32 for thumbnails) closest above `raw`.
pub proof fn lemma_render_width_covers(raw: u32, dense: bool)
    ensures
        ({
            let r = spec_render_width(raw, dense);
            let quantum: int = if dense { 32 } else { 64 };
            let minimum: int = if dense { 32 } else { 96 };
            &&& minimum <= r <= 8192
            &&& raw <= 8192 ==> raw <= r
            &&& (r == minimum || r == 8192 || (r % quantum == 0 && r - quantum < raw))
        }),
{
    let q: int = if dense { 32 } else { 64 };
    let n = (raw + q - 1) / q;
    vstd::arithmetic::div_mod::lemma_fundamental_div_mod(raw + q - 1, q);
    vstd::arithmetic::div_mod::lemma_mod_bound(raw + q - 1, q);
    vstd::arithmetic::div_mod::lemma_mod_multiples_basic(n, q);
    let m = (raw + q - 1) % q;
    assert(n * q >= raw && n * q - q < raw) by (nonlinear_arith)
        requires
            raw + q - 1 == q * n + m,
            0 <= m < q,
            q > 0,
    ;
}

} // verus!
