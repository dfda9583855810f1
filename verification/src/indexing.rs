use vstd::prelude::*;
use std::collections::{HashSet, VecDeque};
use crate::model::MIN_NATIVE_TEXT_CHARS;

verus! {

broadcast use vstd::std_specs::hash::group_hash_axioms;

/// Most text-extraction requests the background indexer issues per frame.
pub const TEXT_REQUESTS_PER_PUMP: usize = 6;

/// Whether a page's embedded text, with `useful` useful characters, is too sparse
/// to search without OCR.
pub open spec fn spec_is_sparse(useful: usize) -> bool {
    useful < MIN_NATIVE_TEXT_CHARS
}

pub fn is_sparse(useful: usize) -> (r: bool)
    ensures
        r == spec_is_sparse(useful),
{
    useful < MIN_NATIVE_TEXT_CHARS
}

/// Pages waiting for OCR, in order, and the pages being recognised right now.
pub struct OcrQueue {
    pub queued: VecDeque<usize>,
    pub queued_set: HashSet<usize>,
    pub in_flight: HashSet<usize>,
}

/// The OCR work of one indexing step: text requests to issue and the page to
/// hand to the recogniser, if any.
pub struct IndexingStep {
    pub text_pages: Vec<usize>,
    pub ocr_page: Option<usize>,
}

impl OcrQueue {
    /// The queue's invariant: no page waits twice, the set mirrors the queue, and at
    /// most one page is recognised at a time.
    pub open spec fn wf(&self) -> bool {
        &&& self.queued@.no_duplicates()
        &&& forall|p: usize| self.queued_set@.contains(p) <==> self.queued@.contains(p)
        &&& forall|a: usize, b: usize| self.in_flight@.contains(a) && self.in_flight@.contains(b) ==> a == b
    }

    /// Whether page `p` is waiting or being recognised.
    pub open spec fn pending(&self, p: usize) -> bool {
        self.queued@.contains(p) || self.in_flight@.contains(p)
    }

    pub fn new() -> (r: Self)
        ensures
            r.wf(),
            r.queued@.len() == 0,
            r.in_flight@.is_empty(),
    {
        let r = OcrQueue { queued: VecDeque::new(), queued_set: HashSet::new(), in_flight: HashSet::new() };
        assert(r.queued@.no_duplicates());
        r
    }

    /// Forgets all waiting and running OCR work.
    pub fn clear(&mut self)
        ensures
            final(self).wf(),
            final(self).queued@.len() == 0,
            final(self).in_flight@.is_empty(),
    {
        self.queued.clear();
        self.queued_set.clear();
        self.in_flight.clear();
        assert(self.queued@.no_duplicates());
    }

    /// Queues page `page` for OCR unless OCR is unavailable, the page does not
    /// exist, or it is already waiting, running or done.
    pub fn queue_ocr(&mut self, page: usize, page_count: usize, available: bool, done: &HashSet<usize>)
        requires
            old(self).wf(),
        ensures
            final(self).wf(),
            final(self).in_flight@ == old(self).in_flight@,
            (available && page < page_count && !old(self).pending(page) && !done@.contains(page)) ==> final(self).queued@
                == old(self).queued@.push(page),
            !(available && page < page_count && !old(self).pending(page) && !done@.contains(page))
                ==> final(self).queued@ == old(self).queued@,
    {
        if !available || page >= page_count || self.queued_set.contains(&page) || self.in_flight.contains(&page)
            || done.contains(&page)
        {
            return;
        }
        self.queued.push_back(page);
        self.queued_set.insert(page);
        proof {
            assert forall|p: usize| self.queued_set@.contains(p) <==> self.queued@.contains(p) by {
                if p != page {
                    assert(self.queued@.contains(p) ==> old(self).queued@.contains(p)) by {
                        if self.queued@.contains(p) {
                            let k = choose|k: int| 0 <= k < self.queued@.len() && self.queued@[k] == p;
                            assert(old(self).queued@[k] == p);
                        }
                    }
                    assert(old(self).queued@.contains(p) ==> self.queued@.contains(p)) by {
                        if old(self).queued@.contains(p) {
                            let k = choose|k: int| 0 <= k < old(self).queued@.len() && old(self).queued@[k] == p;
                            assert(self.queued@[k] == p);
                        }
                    }
                } else {
                    assert(self.queued@[self.queued@.len() - 1] == page);
                }
            }
        }
    }

    /// Records that OCR of `page` finished (successfully or not): it is no longer
    /// running and counts as done.
    pub fn ocr_finished(&mut self, page: usize, done: &mut HashSet<usize>)
        requires
            old(self).wf(),
        ensures
            final(self).wf(),
            final(self).queued@ == old(self).queued@,
            final(self).in_flight@ == old(self).in_flight@.remove(page),
            final(done)@ == old(done)@.insert(page),
    {
        self.in_flight.remove(&page);
        done.insert(page);
    }

    /// Hands the first waiting page to the recogniser when nothing is running.
    pub fn dispatch_ocr(&mut self) -> (r: Option<usize>)
        requires
            old(self).wf(),
        ensures
            final(self).wf(),
            old(self).in_flight@.is_empty() && old(self).queued@.len() > 0 ==> {
                &&& r == Some(old(self).queued@[0])
                &&& final(self).queued@ == old(self).queued@.drop_first()
                &&& final(self).in_flight@ == set![old(self).queued@[0]]
            },
            !(old(self).in_flight@.is_empty() && old(self).queued@.len() > 0) ==> {
                &&& r is None
                &&& final(self).queued@ == old(self).queued@
                &&& final(self).in_flight@ == old(self).in_flight@
            },
    {
        if !self.in_flight.is_empty() {
            return None;
        }
        match self.queued.pop_front() {
            Some(page) => {
                self.queued_set.remove(&page);
                self.in_flight.insert(page);
                proof {
                    assert(self.queued@ =~= old(self).queued@.drop_first());
                    assert(self.in_flight@ =~= set![page]);
                    assert forall|p: usize| self.queued_set@.contains(p) <==> self.queued@.contains(p) by {
                        if p == page {
                            if self.queued@.contains(p) {
                                let k = choose|k: int| 0 <= k < self.queued@.len() && self.queued@[k] == p;
                                assert(old(self).queued@[k + 1] == p);
                                assert(old(self).queued@[0] == p);
                            }
                        } else {
                            if old(self).queued@.contains(p) {
                                let k = choose|k: int| 0 <= k < old(self).queued@.len() && old(self).queued@[k] == p;
                                assert(k != 0);
                                assert(self.queued@[k - 1] == p);
                            }
                            if self.queued@.contains(p) {
                                let k = choose|k: int| 0 <= k < self.queued@.len() && self.queued@[k] == p;
                                assert(old(self).queued@[k + 1] == p);
                            }
                        }
                    }
                }
                Some(page)
            },
            None => None,
        }
    }
}

} // verus!

verus! {

/// Whether page `p`'s embedded text is still unknown.
pub open spec fn text_missing(counts: Seq<Option<usize>>, p: int) -> bool {
    !(0 <= p < counts.len() && counts[p] is Some)
}

/// Whether page `p`'s embedded text is known and too sparse to search.
pub open spec fn page_sparse(counts: Seq<Option<usize>>, p: int) -> bool {
    0 <= p < counts.len() && (counts[p] matches Some(c) && spec_is_sparse(c))
}

/// Where an indexing step starting at page `c` stops: after `budget` pages whose
/// text is unknown, or at the last page.
pub open spec fn scan_end(counts: Seq<Option<usize>>, count: int, c: int, budget: int) -> int
    decreases count - c,
{
    if c >= count || budget <= 0 {
        c
    } else if text_missing(counts, c) {
        scan_end(counts, count, c + 1, budget - 1)
    } else {
        scan_end(counts, count, c + 1, budget)
    }
}

/// The pages in `lo .. hi` whose text must be requested: unknown and not yet requested.
pub open spec fn text_requests(counts: Seq<Option<usize>>, requested: Set<usize>, lo: int, hi: int) -> Seq<usize>
    decreases hi - lo,
{
    if hi <= lo {
        Seq::<usize>::empty()
    } else {
        text_requests(counts, requested, lo, hi - 1) + if text_missing(counts, hi - 1) && !requested.contains(
            (hi - 1) as usize,
        ) {
            seq![(hi - 1) as usize]
        } else {
            Seq::<usize>::empty()
        }
    }
}

/// The pages in `lo .. hi` that join the OCR queue: sparse pages that are not
/// already waiting, running or done, while OCR is available.
pub open spec fn ocr_additions(
    counts: Seq<Option<usize>>,
    queued: Seq<usize>,
    in_flight: Set<usize>,
    done: Set<usize>,
    available: bool,
    lo: int,
    hi: int,
) -> Seq<usize>
    decreases hi - lo,
{
    if hi <= lo {
        Seq::<usize>::empty()
    } else {
        let p = hi - 1;
        ocr_additions(counts, queued, in_flight, done, available, lo, hi - 1) + if available && page_sparse(counts, p)
            && !queued.contains(p as usize) && !in_flight.contains(p as usize) && !done.contains(p as usize) {
            seq![p as usize]
        } else {
            Seq::<usize>::empty()
        }
    }
}

proof fn lemma_ocr_additions_range(
    counts: Seq<Option<usize>>,
    queued: Seq<usize>,
    in_flight: Set<usize>,
    done: Set<usize>,
    available: bool,
    lo: int,
    hi: int,
)
    requires
        0 <= lo,
        hi <= usize::MAX,
    ensures
        forall|k: int| 0 <= k < ocr_additions(counts, queued, in_flight, done, available, lo, hi).len() ==> {
            let p = #[trigger] ocr_additions(counts, queued, in_flight, done, available, lo, hi)[k];
            lo <= p < hi
        },
        ocr_additions(counts, queued, in_flight, done, available, lo, hi).no_duplicates(),
    decreases hi - lo,
{
    if hi > lo {
        lemma_ocr_additions_range(counts, queued, in_flight, done, available, lo, hi - 1);
        let prev = ocr_additions(counts, queued, in_flight, done, available, lo, hi - 1);
        let cur = ocr_additions(counts, queued, in_flight, done, available, lo, hi);
        assert forall|k: int| 0 <= k < cur.len() implies lo <= #[trigger] cur[k] < hi by {
            if k < prev.len() {
                assert(cur[k] == prev[k]);
            }
        }
        assert forall|a: int, b: int| 0 <= a < cur.len() && 0 <= b < cur.len() && a != b implies cur[a] != cur[b] by {
            if a < prev.len() && b < prev.len() {
                assert(cur[a] == prev[a] && cur[b] == prev[b]);
            } else if a < prev.len() {
                assert(cur[a] == prev[a]);
                assert(prev[a] < hi - 1);
            } else if b < prev.len() {
                assert(cur[b] == prev[b]);
                assert(prev[b] < hi - 1);
            }
        }
    }
}

proof fn lemma_text_requests_range(counts: Seq<Option<usize>>, requested: Set<usize>, lo: int, hi: int)
    requires
        0 <= lo,
        hi <= usize::MAX,
    ensures
        forall|k: int| 0 <= k < text_requests(counts, requested, lo, hi).len() ==> {
            let p = #[trigger] text_requests(counts, requested, lo, hi)[k];
            lo <= p < hi
        },
    decreases hi - lo,
{
    if hi > lo {
        lemma_text_requests_range(counts, requested, lo, hi - 1);
        let prev = text_requests(counts, requested, lo, hi - 1);
        let cur = text_requests(counts, requested, lo, hi);
        assert forall|k: int| 0 <= k < cur.len() implies lo <= #[trigger] cur[k] < hi by {
            if k < prev.len() {
                assert(cur[k] == prev[k]);
            }
        }
    }
}

/// Decides whether to request the text of `page`: the page exists, its text is
/// unknown, and it was not requested before.  Marks it as requested.
pub fn queue_text(requested: &mut HashSet<usize>, page: usize, page_count: usize, have_text: bool) -> (send: bool)
    ensures
        send == (page < page_count && !have_text && !old(requested)@.contains(page)),
        (page < page_count && !have_text) ==> final(requested)@ == old(requested)@.insert(page),
        !(page < page_count && !have_text) ==> final(requested)@ == old(requested)@,
{
    if page >= page_count || have_text {
        return false;
    }
    requested.insert(page)
}

impl OcrQueue {
    /// One step of background indexing while the search bar is open: walks the
    /// pages from `cursor`, requesting the text of up to `TEXT_REQUESTS_PER_PUMP`
    /// pages whose text is unknown and queueing OCR for pages whose text is
    /// sparse, then hands the next waiting page to the recogniser if it is idle.
    /// `counts[p]` is the number of useful characters of page `p`'s text, where known.
    pub fn pump_indexing(
        &mut self,
        search_open: bool,
        has_document: bool,
        page_count: usize,
        cursor: &mut usize,
        counts: &Vec<Option<usize>>,
        requested: &mut HashSet<usize>,
        available: bool,
        done: &HashSet<usize>,
    ) -> (r: IndexingStep)
        requires
            old(self).wf(),
        ensures
            final(self).wf(),
            !(search_open && has_document) ==> {
                &&& *final(cursor) == *old(cursor)
                &&& final(requested)@ == old(requested)@
                &&& final(self).queued@ == old(self).queued@
                &&& final(self).in_flight@ == old(self).in_flight@
                &&& r.text_pages@.len() == 0
                &&& r.ocr_page is None
            },
            (search_open && has_document) ==> {
                let c0 = *old(cursor) as int;
                let c1 = scan_end(counts@, page_count as int, c0, TEXT_REQUESTS_PER_PUMP as int);
                let scanned = old(self).queued@ + ocr_additions(
                    counts@,
                    old(self).queued@,
                    old(self).in_flight@,
                    done@,
                    available,
                    c0,
                    c1,
                );
                &&& *final(cursor) == c1
                &&& r.text_pages@ == text_requests(counts@, old(requested)@, c0, c1)
                &&& final(requested)@ == old(requested)@.union(r.text_pages@.to_set())
                &&& (old(self).in_flight@.is_empty() && scanned.len() > 0) ==> {
                    &&& r.ocr_page == Some(scanned[0])
                    &&& final(self).queued@ == scanned.drop_first()
                    &&& final(self).in_flight@ == set![scanned[0]]
                }
                &&& !(old(self).in_flight@.is_empty() && scanned.len() > 0) ==> {
                    &&& r.ocr_page is None
                    &&& final(self).queued@ == scanned
                    &&& final(self).in_flight@ == old(self).in_flight@
                }
            },
    {
        let mut text_pages: Vec<usize> = Vec::new();
        if !(search_open && has_document) {
            return IndexingStep { text_pages, ocr_page: None };
        }
        let ghost c0 = *cursor as int;
        let ghost q0 = self.queued@;
        let ghost f0 = self.in_flight@;
        let ghost r0 = requested@;
        let ghost c1 = scan_end(counts@, page_count as int, c0, TEXT_REQUESTS_PER_PUMP as int);
        let mut issued: usize = 0;
        while *cursor < page_count && issued < TEXT_REQUESTS_PER_PUMP
            invariant
                self.wf(),
                0 <= c0 <= *cursor,
                *cursor <= page_count || *cursor == c0,
                issued <= TEXT_REQUESTS_PER_PUMP,
                c1 == scan_end(counts@, page_count as int, *cursor as int, (TEXT_REQUESTS_PER_PUMP - issued) as int),
                self.in_flight@ == f0,
                self.queued@ == q0 + ocr_additions(counts@, q0, f0, done@, available, c0, *cursor as int),
                text_pages@ == text_requests(counts@, r0, c0, *cursor as int),
                requested@ == r0.union(text_pages@.to_set()),
                forall|p: usize| (p as int) < c0 ==> (#[trigger] requested@.contains(p) <==> r0.contains(p)),
                forall|p: usize| (p as int) >= *cursor ==> (#[trigger] requested@.contains(p) <==> r0.contains(p)),
            decreases page_count - *cursor,
        {
            let page = *cursor;
            *cursor = page + 1;
            let missing = !(page < counts.len() && counts[page].is_some());
            let ghost tp_before = text_pages@;
            proof {
                lemma_ocr_additions_range(counts@, q0, f0, done@, available, c0, page as int);
                lemma_text_requests_range(counts@, r0, c0, page as int);
            }
            if missing {
                if queue_text(requested, page, page_count, false) {
                    text_pages.push(page);
                }
                issued = issued + 1;
            } else {
                let useful = match counts[page] {
                    Some(c) => c,
                    None => 0,
                };
                if is_sparse(useful) {
                    proof {
                        let add = ocr_additions(counts@, q0, f0, done@, available, c0, page as int);
                        if (q0 + add).contains(page) {
                            let k = choose|k: int| 0 <= k < (q0 + add).len() && (q0 + add)[k] == page;
                            if k >= q0.len() {
                                assert(add[k - q0.len()] == page);
                                assert(false);
                            }
                            assert(q0[k] == page);
                        }
                        if q0.contains(page) {
                            let k = choose|k: int| 0 <= k < q0.len() && q0[k] == page;
                            assert((q0 + add)[k] == page);
                        }
                        assert((q0 + add).contains(page) == q0.contains(page));
                    }
                    self.queue_ocr(page, page_count, available, done);
                }
            }
            proof {
                let add0 = ocr_additions(counts@, q0, f0, done@, available, c0, page as int);
                let add1 = ocr_additions(counts@, q0, f0, done@, available, c0, page + 1);
                assert(add1 == add0 + if available && page_sparse(counts@, page as int) && !q0.contains(page)
                    && !f0.contains(page) && !done@.contains(page) {
                    seq![page]
                } else {
                    Seq::<usize>::empty()
                });
                assert(text_pages@ =~= text_requests(counts@, r0, c0, *cursor as int));
                assert(self.queued@ =~= q0 + add1);
                assert forall|p: usize| #[trigger] requested@.contains(p) <==> r0.union(text_pages@.to_set()).contains(p) by {
                    if text_pages@.to_set().contains(p) {
                        let k = choose|k: int| 0 <= k < text_pages@.len() && text_pages@[k] == p;
                        if k < tp_before.len() {
                            assert(tp_before[k] == p);
                            assert(tp_before.to_set().contains(p));
                        }
                    }
                    if tp_before.to_set().contains(p) {
                        let k = choose|k: int| 0 <= k < tp_before.len() && tp_before[k] == p;
                        assert(text_pages@[k] == p);
                        assert(text_pages@.to_set().contains(p));
                    }
                    if p == page && text_pages@.len() > tp_before.len() {
                        assert(text_pages@[text_pages@.len() - 1] == p);
                        assert(text_pages@.to_set().contains(p));
                    }
                }
                assert(requested@ =~= r0.union(text_pages@.to_set()));
            }
        }
        let ocr_page = self.dispatch_ocr();
        IndexingStep { text_pages, ocr_page }
    }

    /// Queues OCR for every page whose known text is sparse, as opening the search
    /// bar does.
    pub fn queue_sparse_pages(&mut self, page_count: usize, counts: &Vec<Option<usize>>, available: bool, done: &HashSet<usize>)
        requires
            old(self).wf(),
        ensures
            final(self).wf(),
            final(self).in_flight@ == old(self).in_flight@,
            final(self).queued@ == old(self).queued@ + ocr_additions(
                counts@,
                old(self).queued@,
                old(self).in_flight@,
                done@,
                available,
                0,
                page_count as int,
            ),
    {
        let ghost q0 = self.queued@;
        let ghost f0 = self.in_flight@;
        let mut page: usize = 0;
        while page < page_count
            invariant
                self.wf(),
                page <= page_count,
                self.in_flight@ == f0,
                self.queued@ == q0 + ocr_additions(counts@, q0, f0, done@, available, 0, page as int),
            decreases page_count - page,
        {
            let ghost add = ocr_additions(counts@, q0, f0, done@, available, 0, page as int);
            proof {
                lemma_ocr_additions_range(counts@, q0, f0, done@, available, 0, page as int);
                if (q0 + add).contains(page) {
                    let k = choose|k: int| 0 <= k < (q0 + add).len() && (q0 + add)[k] == page;
                    if k >= q0.len() {
                        assert(add[k - q0.len()] == page);
                        assert(false);
                    }
                    assert(q0[k] == page);
                }
                if q0.contains(page) {
                    let k = choose|k: int| 0 <= k < q0.len() && q0[k] == page;
                    assert((q0 + add)[k] == page);
                }
            }
            let sparse = page < counts.len() && match counts[page] {
                Some(c) => is_sparse(c),
                None => false,
            };
            if sparse {
                self.queue_ocr(page, page_count, available, done);
            }
            proof {
                let add1 = ocr_additions(counts@, q0, f0, done@, available, 0, page + 1);
                assert(add1 == add + if available && page_sparse(counts@, page as int) && !q0.contains(page)
                    && !f0.contains(page) && !done@.contains(page) {
                    seq![page]
                } else {
                    Seq::<usize>::empty()
                });
                assert(self.queued@ =~= q0 + add1);
            }
            page = page + 1;
        }
    }

    /// Records that the text of `page`, with `useful` useful characters, arrived:
    /// the page is no longer requested, and while the search bar is open a sparse
    /// page is queued for OCR.  `known_pages` is the number of pages whose text
    /// the viewer tracks; text for other pages is ignored.
    pub fn text_ready(
        &mut self,
        requested: &mut HashSet<usize>,
        page: usize,
        useful: usize,
        known_pages: usize,
        search_open: bool,
        page_count: usize,
        available: bool,
        done: &HashSet<usize>,
    ) -> (stored: bool)
        requires
            old(self).wf(),
        ensures
            final(self).wf(),
            stored == (page < known_pages),
            final(requested)@ == old(requested)@.remove(page),
            final(self).in_flight@ == old(self).in_flight@,
            (page < known_pages && spec_is_sparse(useful) && search_open && available && page < page_count
                && !old(self).pending(page) && !done@.contains(page)) ==> final(self).queued@ == old(self).queued@.push(page),
            !(page < known_pages && spec_is_sparse(useful) && search_open && available && page < page_count
                && !old(self).pending(page) && !done@.contains(page)) ==> final(self).queued@ == old(self).queued@,
    {
        requested.remove(&page);
        if page < known_pages {
            if is_sparse(useful) && search_open {
                self.queue_ocr(page, page_count, available, done);
            }
            true
        } else {
            false
        }
    }
}

} // verus!

verus! {

/// The text requests of a step over pages `lo .. hi` are exactly the pages there
/// whose text is unknown and that were not requested before, each once, in page
/// order.
pub proof fn lemma_text_requests_exact(counts: Seq<Option<usize>>, requested: Set<usize>, lo: int, hi: int, p: usize)
    requires
        0 <= lo,
        hi <= usize::MAX,
    ensures
        text_requests(counts, requested, lo, hi).contains(p) <==> (lo <= p < hi && !(p < counts.len()
            && counts[p as int] is Some) && !requested.contains(p)),
        forall|a: int, b: int| 0 <= a < b < text_requests(counts, requested, lo, hi).len()
            ==> #[trigger] text_requests(counts, requested, lo, hi)[a] < #[trigger] text_requests(counts, requested, lo, hi)[b],
    decreases hi - lo,
{
    lemma_text_requests_range(counts, requested, lo, hi);
    if hi > lo {
        lemma_text_requests_exact(counts, requested, lo, hi - 1, p);
        lemma_text_requests_range(counts, requested, lo, hi - 1);
        let prev = text_requests(counts, requested, lo, hi - 1);
        let cur = text_requests(counts, requested, lo, hi);
        if cur.len() > prev.len() {
            assert(cur == prev.push((hi - 1) as usize));
            assert(cur[prev.len() as int] == (hi - 1) as usize);
        } else {
            assert(cur == prev);
        }
        assert forall|a: int| 0 <= a < prev.len() implies cur[a] == prev[a] by {}
        if cur.contains(p) {
            let k = choose|k: int| 0 <= k < cur.len() && cur[k] == p;
            if k < prev.len() {
                assert(prev[k] == p);
            }
        }
        if prev.contains(p) {
            let k = choose|k: int| 0 <= k < prev.len() && prev[k] == p;
            assert(cur[k] == p);
        }
    }
}

/// The pages a step over `lo .. hi` adds to the OCR queue are exactly the pages
/// there whose text is known and has fewer than 48 useful characters, and that are
/// not waiting, being recognised or already recognised, while OCR is available.
pub proof fn lemma_ocr_additions_exact(
    counts: Seq<Option<usize>>,
    queued: Seq<usize>,
    in_flight: Set<usize>,
    done: Set<usize>,
    available: bool,
    lo: int,
    hi: int,
    p: usize,
)
    requires
        0 <= lo,
        hi <= usize::MAX,
    ensures
        ocr_additions(counts, queued, in_flight, done, available, lo, hi).contains(p) <==> (available && lo <= p
            < hi && p < counts.len() && (counts[p as int] matches Some(c) && c < 48) && !queued.contains(p)
            && !in_flight.contains(p) && !done.contains(p)),
    decreases hi - lo,
{
    lemma_ocr_additions_range(counts, queued, in_flight, done, available, lo, hi);
    if hi > lo {
        lemma_ocr_additions_exact(counts, queued, in_flight, done, available, lo, hi - 1, p);
        lemma_ocr_additions_range(counts, queued, in_flight, done, available, lo, hi - 1);
        let prev = ocr_additions(counts, queued, in_flight, done, available, lo, hi - 1);
        let cur = ocr_additions(counts, queued, in_flight, done, available, lo, hi);
        if cur.len() > prev.len() {
            assert(cur == prev.push((hi - 1) as usize));
            assert(cur[prev.len() as int] == (hi - 1) as usize);
        } else {
            assert(cur == prev);
        }
        assert forall|a: int| 0 <= a < prev.len() implies cur[a] == prev[a] by {}
        if cur.contains(p) {
            let k = choose|k: int| 0 <= k < cur.len() && cur[k] == p;
            if k < prev.len() {
                assert(prev[k] == p);
            }
        }
        if prev.contains(p) {
            let k = choose|k: int| 0 <= k < prev.len() && prev[k] == p;
            assert(cur[k] == p);
        }
    }
}

} // verus!
