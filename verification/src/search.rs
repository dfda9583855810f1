use vstd::prelude::*;
use crate::model::SearchHit;
use crate::text::{make_snippet, snippet_range, snippet_text, string_from_chars, trim, trim_chars};
use crate::unicode::{chars_of, lowercase_of, to_lowercase};

verus! {

/// Most matches recorded on a single page.
pub const MAX_HITS_PER_PAGE: usize = 500;

/// Most matches recorded over the whole document.
pub const MAX_HITS: usize = 20000;

/// Whether `needle` occurs in `hay` at position `i`.
pub open spec fn occurs_at(hay: Seq<char>, needle: Seq<char>, i: int) -> bool {
    0 <= i && i + needle.len() <= hay.len() && hay.subrange(i, i + needle.len()) == needle
}

/// Start positions of the leftmost non-overlapping occurrences of `needle` in
/// `hay` at or after position `i`, in increasing order.
pub open spec fn matches_from(hay: Seq<char>, needle: Seq<char>, i: int) -> Seq<int>
    recommends
        needle.len() > 0,
    decreases hay.len() - i,
{
    if i < 0 || needle.len() == 0 || i + needle.len() > hay.len() {
        Seq::<int>::empty()
    } else if occurs_at(hay, needle, i) {
        seq![i] + matches_from(hay, needle, i + needle.len())
    } else {
        matches_from(hay, needle, i + 1)
    }
}

/// The first `n` elements of `s`, or all of them when there are fewer.
pub open spec fn first_n<A>(s: Seq<A>, n: int) -> Seq<A> {
    if n < s.len() { s.take(n) } else { s }
}

fn occurs_at_exec(hay: &Vec<char>, needle: &Vec<char>, i: usize) -> (r: bool)
    requires
        i + needle@.len() <= hay@.len(),
    ensures
        r == occurs_at(hay@, needle@, i as int),
{
    let n = needle.len();
    let mut k: usize = 0;
    while k < n
        invariant
            k <= n == needle@.len(),
            i + n <= hay.len(),
            forall|j: int| 0 <= j < k ==> hay@[i + j] == needle@[j],
        decreases n - k,
    {
        if hay[i + k] != needle[k] {
            assert(hay@.subrange(i as int, i + n)[k as int] != needle@[k as int]);
            return false;
        }
        k = k + 1;
    }
    assert(hay@.subrange(i as int, i + n) =~= needle@);
    true
}

/// Positions of the first `limit` leftmost non-overlapping occurrences of a
/// non-empty `needle` in `hay`, as `str::match_indices(..).take(limit)` yields them
/// (counted in characters).
pub fn find_matches(hay: &Vec<char>, needle: &Vec<char>, limit: usize) -> (r: Vec<usize>)
    requires
        needle@.len() > 0,
    ensures
        r@.len() == first_n(matches_from(hay@, needle@, 0), limit as int).len(),
        forall|k: int| 0 <= k < r@.len() ==> r@[k] as int == matches_from(hay@, needle@, 0)[k],
{
    let n = needle.len();
    let ghost all = matches_from(hay@, needle@, 0);
    let mut out: Vec<usize> = Vec::new();
    let mut i: usize = 0;
    while i <= hay.len() && n <= hay.len() - i && out.len() < limit
        invariant
            n == needle@.len() > 0,
            all == matches_from(hay@, needle@, 0),
            out@.len() <= limit,
            all.len() == out@.len() + matches_from(hay@, needle@, i as int).len(),
            forall|k: int| 0 <= k < out@.len() ==> out@[k] as int == all[k],
            forall|k: int| 0 <= k < matches_from(hay@, needle@, i as int).len()
                ==> all[out@.len() + k] == matches_from(hay@, needle@, i as int)[k],
        decreases hay@.len() - i,
    {
        let ghost rest = matches_from(hay@, needle@, i as int);
        if occurs_at_exec(hay, needle, i) {
            assert(rest == seq![i as int] + matches_from(hay@, needle@, i + n));
            assert(all[out@.len() as int] == rest[0]);
            out.push(i);
            proof {
                assert forall|k: int| 0 <= k < matches_from(hay@, needle@, i + n).len()
                    implies all[out@.len() + k] == #[trigger] matches_from(hay@, needle@, i + n)[k] by {
                    assert(rest[k + 1] == matches_from(hay@, needle@, i + n)[k]);
                }
            }
            i = i + n;
        } else {
            i = i + 1;
        }
    }
    proof {
        if !(i <= hay.len() && n <= hay.len() - i) {
            assert(matches_from(hay@, needle@, i as int).len() == 0);
        }
    }
    out
}

} // verus!

verus! {

/// Every recorded match position lies inside the text with room for the whole needle.
pub proof fn lemma_matches_in_bounds(hay: Seq<char>, needle: Seq<char>, i: int)
    ensures
        forall|k: int| 0 <= k < matches_from(hay, needle, i).len() ==> {
            let s = #[trigger] matches_from(hay, needle, i)[k];
            &&& i <= s
            &&& occurs_at(hay, needle, s)
        },
    decreases hay.len() - i,
{
    if i < 0 || needle.len() == 0 || i + needle.len() > hay.len() {
    } else if occurs_at(hay, needle, i) {
        lemma_matches_in_bounds(hay, needle, i + needle.len());
        let m = matches_from(hay, needle, i);
        assert forall|k: int| 0 <= k < m.len() implies {
            let s = #[trigger] m[k];
            &&& i <= s
            &&& occurs_at(hay, needle, s)
        } by {
            let rest = matches_from(hay, needle, i + needle.len());
            assert(m == seq![i] + rest);
            if k > 0 {
                assert(m[k] == rest[k - 1]);
            }
        }
    } else {
        lemma_matches_in_bounds(hay, needle, i + 1);
        let m = matches_from(hay, needle, i);
        assert(m == matches_from(hay, needle, i + 1));
    }
}

/// The text the search looks for: the query trimmed, then lowercased.
pub open spec fn search_needle(query: Seq<char>) -> Seq<char> {
    lowercase_of(trim(query))
}

/// The text of page `p`, when it is known.
pub open spec fn page_text(texts: Seq<Option<String>>, p: int) -> Option<Seq<char>> {
    if 0 <= p < texts.len() {
        match texts[p] {
            Some(t) => Some(t@),
            None => None,
        }
    } else {
        None
    }
}

/// The (page, position) pairs of the matches recorded on page `p`.
pub open spec fn page_hits(texts: Seq<Option<String>>, needle: Seq<char>, p: int) -> Seq<(int, int)> {
    match page_text(texts, p) {
        Some(t) => first_n(matches_from(lowercase_of(t), needle, 0), MAX_HITS_PER_PAGE as int).map_values(
            |s: int| (p, s),
        ),
        None => Seq::<(int, int)>::empty(),
    }
}

/// The matches recorded on pages `0 .. hi`, page by page.
pub open spec fn hits_before(texts: Seq<Option<String>>, needle: Seq<char>, hi: int) -> Seq<(int, int)>
    decreases hi,
{
    if hi <= 0 {
        Seq::<(int, int)>::empty()
    } else {
        hits_before(texts, needle, hi - 1) + page_hits(texts, needle, hi - 1)
    }
}

/// The matches a search for `query` lists, capped at `MAX_HITS`.
pub open spec fn search_hits(texts: Seq<Option<String>>, query: Seq<char>) -> Seq<(int, int)> {
    let needle = search_needle(query);
    if needle.len() == 0 {
        Seq::<(int, int)>::empty()
    } else {
        first_n(hits_before(texts, needle, texts.len() as int), MAX_HITS as int)
    }
}

/// Whether an excerpt can be cut around a match: its range is not reversed and its
/// arithmetic stays within machine integers.
pub open spec fn hit_has_snippet(texts: Seq<Option<String>>, needle: Seq<char>, hit: (int, int)) -> bool {
    match page_text(texts, hit.0) {
        Some(t) => {
            let lower = lowercase_of(t);
            let (from, to) = snippet_range(t.len() as int, lower.len() as int, hit.1, needle.len() as int);
            &&& from <= to
            &&& lower.len() + crate::text::SNIPPET_AFTER <= usize::MAX
        },
        None => false,
    }
}

/// The excerpt listed for a match.
pub open spec fn hit_snippet(texts: Seq<Option<String>>, needle: Seq<char>, hit: (int, int)) -> Seq<char> {
    match page_text(texts, hit.0) {
        Some(t) => snippet_text(t, lowercase_of(t).len() as int, hit.1, needle.len() as int),
        None => Seq::<char>::empty(),
    }
}

proof fn lemma_hits_before_prefix(texts: Seq<Option<String>>, needle: Seq<char>, lo: int, hi: int)
    requires
        0 <= lo <= hi,
    ensures
        hits_before(texts, needle, lo).len() <= hits_before(texts, needle, hi).len(),
        forall|k: int| 0 <= k < hits_before(texts, needle, lo).len()
            ==> #[trigger] hits_before(texts, needle, hi)[k] == hits_before(texts, needle, lo)[k],
    decreases hi - lo,
{
    if lo < hi {
        lemma_hits_before_prefix(texts, needle, lo, hi - 1);
        assert forall|k: int| 0 <= k < hits_before(texts, needle, lo).len()
            implies #[trigger] hits_before(texts, needle, hi)[k] == hits_before(texts, needle, lo)[k] by {
            assert(hits_before(texts, needle, hi)[k] == hits_before(texts, needle, hi - 1)[k]);
        }
    }
}

/// Searches the pages' texts for `query`, case-insensitively, as the search bar does:
/// at most `MAX_HITS_PER_PAGE` matches per page and `MAX_HITS` in all, each with an
/// excerpt.  `None` where an excerpt cannot be cut around some listed match.
pub fn recompute_search(query: &str, texts: &Vec<Option<String>>) -> (r: Option<Vec<SearchHit>>)
    ensures
        ({
            let needle = search_needle(query@);
            let hits = search_hits(texts@, query@);
            &&& (r is Some <==> forall|k: int| 0 <= k < hits.len() ==> hit_has_snippet(texts@, needle, #[trigger] hits[k]))
            &&& (r matches Some(v) ==> {
                &&& v@.len() == hits.len()
                &&& forall|k: int| 0 <= k < hits.len() ==> {
                    &&& v@[k].page == (#[trigger] hits[k]).0
                    &&& v@[k].snippet@ == hit_snippet(texts@, needle, hits[k])
                }
            })
        }),
{
    let query_chars = chars_of(query);
    let trimmed = trim_chars(&query_chars);
    let trimmed_s = string_from_chars(&trimmed);
    let needle_s = to_lowercase(trimmed_s.as_str());
    let needle = chars_of(needle_s.as_str());
    let ghost nd = needle@;
    let ghost total = hits_before(texts@, nd, texts@.len() as int);
    let mut hits: Vec<SearchHit> = Vec::new();
    if needle.len() == 0 {
        return Some(hits);
    }
    let mut page: usize = 0;
    while page < texts.len()
        invariant
            nd == needle@,
            nd == search_needle(query@),
            nd.len() > 0,
            total == hits_before(texts@, nd, texts@.len() as int),
            page <= texts@.len(),
            hits@.len() == hits_before(texts@, nd, page as int).len(),
            hits@.len() < MAX_HITS,
            forall|k: int| 0 <= k < hits@.len() ==> {
                &&& hit_has_snippet(texts@, nd, #[trigger] hits_before(texts@, nd, page as int)[k])
                &&& hits@[k].page == hits_before(texts@, nd, page as int)[k].0
                &&& hits@[k].snippet@ == hit_snippet(texts@, nd, hits_before(texts@, nd, page as int)[k])
            },
        decreases texts@.len() - page,
    {
        let ghost before = hits_before(texts@, nd, page as int);
        let ghost ph = page_hits(texts@, nd, page as int);
        assert(hits_before(texts@, nd, page + 1) == before + ph);
        match &texts[page] {
            Some(text) => {
                let text_chars = chars_of(text.as_str());
                let lower_s = to_lowercase(text.as_str());
                let lower = chars_of(lower_s.as_str());
                let ms = find_matches(&lower, &needle, MAX_HITS_PER_PAGE);
                proof {
                    lemma_matches_in_bounds(lower@, nd, 0);
                }
                let mut j: usize = 0;
                while j < ms.len()
                    invariant
                        nd == needle@,
                        nd == search_needle(query@),
                        nd.len() > 0,
                        total == hits_before(texts@, nd, texts@.len() as int),
                        page < texts@.len(),
                        texts@[page as int] is Some,
                        text_chars@ == texts@[page as int]->0@,
                        lower@ == lowercase_of(text_chars@),
                        before == hits_before(texts@, nd, page as int),
                        ph == page_hits(texts@, nd, page as int),
                        ms@.len() == ph.len(),
                        forall|k: int| 0 <= k < ms@.len() ==> (#[trigger] ms@[k]) as int == matches_from(lower@, nd, 0)[k],
                        forall|k: int| 0 <= k < matches_from(lower@, nd, 0).len() ==> {
                            let s = #[trigger] matches_from(lower@, nd, 0)[k];
                            &&& 0 <= s
                            &&& occurs_at(lower@, nd, s)
                        },
                        j <= ms@.len(),
                        hits@.len() == before.len() + j,
                        hits@.len() < MAX_HITS,
                        forall|k: int| 0 <= k < hits@.len() ==> {
                            &&& hit_has_snippet(texts@, nd, #[trigger] (before + ph)[k])
                            &&& hits@[k].page == (before + ph)[k].0
                            &&& hits@[k].snippet@ == hit_snippet(texts@, nd, (before + ph)[k])
                        },
                    decreases ms@.len() - j,
                {
                    let start = ms[j];
                    let ghost hit = (page as int, start as int);
                    assert(ph[j as int] == hit);
                    assert((before + ph)[before.len() + j] == hit);
                    assert(occurs_at(lower@, nd, start as int));
                    let lower_len = lower.len();
                    if lower_len > usize::MAX - crate::text::SNIPPET_AFTER {
                        proof {
                            lemma_hits_before_prefix(texts@, nd, page + 1, texts@.len() as int);
                            assert(hits_before(texts@, nd, page + 1).len() == before.len() + ph.len());
                            assert(hits_before(texts@, nd, page + 1)[before.len() + j] == hit);
                            assert(total[before.len() + j] == hit);
                            assert(before.len() + j < MAX_HITS);
                            assert(search_hits(texts@, query@)[before.len() + j] == hit);
                        }
                        return None;
                    }
                    let char_start = if start < lower_len { start } else { lower_len };
                    let match_end = if start + needle.len() < lower_len { start + needle.len() } else { lower_len };
                    let wanted = char_start + (match_end - char_start) + crate::text::SNIPPET_AFTER;
                    let to = if wanted < text_chars.len() { wanted } else { text_chars.len() };
                    let from = if char_start > crate::text::SNIPPET_BEFORE { char_start - crate::text::SNIPPET_BEFORE } else { 0 };
                    if from > to {
                        proof {
                            lemma_hits_before_prefix(texts@, nd, page + 1, texts@.len() as int);
                            assert(hits_before(texts@, nd, page + 1).len() == before.len() + ph.len());
                            assert(hits_before(texts@, nd, page + 1)[before.len() + j] == hit);
                            assert(total[before.len() + j] == hit);
                            assert(before.len() + j < MAX_HITS);
                            assert(search_hits(texts@, query@)[before.len() + j] == hit);
                        }
                        return None;
                    }
                    let snippet = make_snippet(&text_chars, &lower, start, needle.len());
                    hits.push(SearchHit { page, snippet });
                    if hits.len() >= MAX_HITS {
                        proof {
                            lemma_hits_before_prefix(texts@, nd, page + 1, texts@.len() as int);
                            let sh = search_hits(texts@, query@);
                            assert forall|k: int| 0 <= k < sh.len() implies hit_has_snippet(texts@, nd, #[trigger] sh[k]) by {
                                assert(sh[k] == total[k]);
                                assert(total[k] == (before + ph)[k]);
                            }
                            assert forall|k: int| 0 <= k < sh.len() implies {
                                &&& hits@[k].page == (#[trigger] sh[k]).0
                                &&& hits@[k].snippet@ == hit_snippet(texts@, nd, sh[k])
                            } by {
                                assert(sh[k] == total[k]);
                                assert(total[k] == (before + ph)[k]);
                            }
                        }
                        return Some(hits);
                    }
                    j = j + 1;
                }
            },
            None => {},
        }
        assert(hits@.len() == (before + ph).len());
        page = page + 1;
    }
    assert(total == hits_before(texts@, nd, page as int));
    Some(hits)
}

} // verus!

verus! {

/// The result index the search moves to from `current` among `len` results.
pub open spec fn next_result_index(len: int, current: Option<usize>, backwards: bool) -> int {
    match current {
        None => if backwards { len - 1 } else { 0 },
        Some(i) => if backwards { (i + len - 1) % len } else { (i + 1) % len },
    }
}

/// Moves the current search result forwards or backwards, wrapping around at
/// either end.  `None` when there are no results (nothing changes then).
pub fn next_search_result(len: usize, current: Option<usize>, backwards: bool) -> (r: Option<usize>)
    ensures
        len == 0 ==> r is None,
        len > 0 ==> r == Some(next_result_index(len as int, current, backwards) as usize),
        r matches Some(i) ==> i < len,
{
    if len == 0 {
        return None;
    }
    let next = match current {
        None => if backwards { len - 1 } else { 0 },
        Some(i) => {
            if backwards {
                if i == 0 {
                    proof {
                        vstd::arithmetic::div_mod::lemma_small_mod((len - 1) as nat, len as nat);
                    }
                    len - 1
                } else {
                    proof {
                        vstd::arithmetic::div_mod::lemma_mod_add_multiples_vanish(i - 1, len as int);
                    }
                    (i - 1) % len
                }
            } else {
                let r = i % len;
                proof {
                    let q = i / len;
                    vstd::arithmetic::div_mod::lemma_fundamental_div_mod(i as int, len as int);
                    vstd::arithmetic::div_mod::lemma_mod_bound(i as int, len as int);
                    vstd::arithmetic::div_mod::lemma_mod_multiples_vanish(q as int, r + 1, len as int);
                    assert(i + 1 == len * q + (r + 1));
                    if r + 1 == len {
                        vstd::arithmetic::div_mod::lemma_mod_self_0(len as int);
                    } else {
                        vstd::arithmetic::div_mod::lemma_small_mod((r + 1) as nat, len as nat);
                    }
                }
                if r + 1 == len { 0 } else { r + 1 }
            }
        },
    };
    Some(next)
}

/// Stepping forwards through the results and then backwards returns to the
/// same result.
pub proof fn lemma_next_then_previous(len: usize, i: usize)
    requires
        i < len,
    ensures
        next_result_index(len as int, Some(next_result_index(len as int, Some(i), false) as usize), true) == i,
{
    let j = (i + 1) % (len as int);
    if i + 1 == len {
        vstd::arithmetic::div_mod::lemma_mod_self_0(len as int);
        assert(j == 0);
        vstd::arithmetic::div_mod::lemma_small_mod((len - 1) as nat, len as nat);
    } else {
        vstd::arithmetic::div_mod::lemma_small_mod((i + 1) as nat, len as nat);
        vstd::arithmetic::div_mod::lemma_mod_add_multiples_vanish(i as int, len as int);
        vstd::arithmetic::div_mod::lemma_small_mod(i as nat, len as nat);
    }
}

} // verus!

verus! {

/// Search ignores letter case and surrounding whitespace in the query: two queries
/// whose trimmed, lowercased forms agree look for the same text and list the same
/// matches.
pub proof fn lemma_search_ignores_case(texts: Seq<Option<String>>, q1: Seq<char>, q2: Seq<char>)
    requires
        lowercase_of(trim(q1)) == lowercase_of(trim(q2)),
    ensures
        search_needle(q1) == search_needle(q2),
        search_hits(texts, q1) == search_hits(texts, q2),
{
}

/// The matches recorded on pages below `hi` are, each, an occurrence of the needle
/// in the lowercased text of their page.
proof fn lemma_hits_before_occur(texts: Seq<Option<String>>, needle: Seq<char>, hi: int)
    ensures
        forall|k: int| 0 <= k < hits_before(texts, needle, hi).len() ==> {
            let h = #[trigger] hits_before(texts, needle, hi)[k];
            &&& page_text(texts, h.0) is Some
            &&& occurs_at(lowercase_of(page_text(texts, h.0)->0), needle, h.1)
        },
    decreases hi,
{
    if hi > 0 {
        lemma_hits_before_occur(texts, needle, hi - 1);
        let prev = hits_before(texts, needle, hi - 1);
        let ph = page_hits(texts, needle, hi - 1);
        assert(hits_before(texts, needle, hi) == prev + ph);
        assert forall|k: int| 0 <= k < hits_before(texts, needle, hi).len() implies {
            let h = #[trigger] hits_before(texts, needle, hi)[k];
            &&& page_text(texts, h.0) is Some
            &&& occurs_at(lowercase_of(page_text(texts, h.0)->0), needle, h.1)
        } by {
            if k >= prev.len() {
                let j = k - prev.len();
                assert(hits_before(texts, needle, hi)[k] == ph[j]);
                let t = page_text(texts, hi - 1)->0;
                let all = matches_from(lowercase_of(t), needle, 0);
                lemma_matches_in_bounds(lowercase_of(t), needle, 0);
                let firsts = first_n(all, MAX_HITS_PER_PAGE as int);
                assert(firsts[j] == all[j]);
                assert(ph[j] == (hi - 1, all[j]));
            } else {
                assert(hits_before(texts, needle, hi)[k] == prev[k]);
            }
        }
    }
}

/// Every match a search lists lies in a page whose text is known, at a position where
/// the lowercased page text holds the trimmed, lowercased query, which is not empty.
pub proof fn lemma_hits_are_case_folded_occurrences(texts: Seq<Option<String>>, q: Seq<char>)
    ensures
        forall|k: int| 0 <= k < search_hits(texts, q).len() ==> {
            let h = #[trigger] search_hits(texts, q)[k];
            &&& lowercase_of(trim(q)).len() > 0
            &&& page_text(texts, h.0) is Some
            &&& occurs_at(lowercase_of(page_text(texts, h.0)->0), lowercase_of(trim(q)), h.1)
        },
{
    let needle = search_needle(q);
    if needle.len() > 0 {
        let all = hits_before(texts, needle, texts.len() as int);
        lemma_hits_before_occur(texts, needle, texts.len() as int);
        assert forall|k: int| 0 <= k < search_hits(texts, q).len() implies {
            let h = #[trigger] search_hits(texts, q)[k];
            &&& lowercase_of(trim(q)).len() > 0
            &&& page_text(texts, h.0) is Some
            &&& occurs_at(lowercase_of(page_text(texts, h.0)->0), lowercase_of(trim(q)), h.1)
        } by {
            assert(search_hits(texts, q)[k] == all[k]);
        }
    }
}

/// Where the needle occurs at `i`, the scan from any earlier position finds a match.
proof fn lemma_occurrence_found(hay: Seq<char>, needle: Seq<char>, i: int, j: int)
    requires
        needle.len() > 0,
        occurs_at(hay, needle, i),
        0 <= j <= i,
    ensures
        matches_from(hay, needle, j).len() > 0,
    decreases i - j,
{
    if !occurs_at(hay, needle, j) {
        assert(j != i);
        lemma_occurrence_found(hay, needle, i, j + 1);
    }
}

/// A page whose lowercased text holds the trimmed, lowercased query gets a listed
/// match, unless the earlier pages already used up the `MAX_HITS` cap.
pub proof fn lemma_occurrence_is_listed(texts: Seq<Option<String>>, q: Seq<char>, p: int, i: int)
    requires
        0 <= p < texts.len(),
        texts[p] is Some,
        lowercase_of(trim(q)).len() > 0,
        occurs_at(lowercase_of(texts[p]->0@), lowercase_of(trim(q)), i),
        hits_before(texts, lowercase_of(trim(q)), p).len() < MAX_HITS,
    ensures
        exists|k: int| 0 <= k < search_hits(texts, q).len() && (#[trigger] search_hits(texts, q)[k]).0 == p,
{
    let needle = lowercase_of(trim(q));
    let t = texts[p]->0@;
    lemma_occurrence_found(lowercase_of(t), needle, i, 0);
    let ph = page_hits(texts, needle, p);
    assert(ph.len() > 0);
    let before = hits_before(texts, needle, p);
    assert(hits_before(texts, needle, p + 1) == before + ph);
    assert(hits_before(texts, needle, p + 1)[before.len() as int] == ph[0]);
    lemma_hits_before_prefix(texts, needle, p + 1, texts.len() as int);
    let all = hits_before(texts, needle, texts.len() as int);
    let k = before.len() as int;
    assert(all[k] == ph[0]);
    assert(search_hits(texts, q)[k] == all[k]);
    assert(search_hits(texts, q)[k].0 == p);
}

} // verus!
