use vstd::prelude::*;
use crate::model::SelectionPoint;
use crate::unicode::{char_is_control, char_is_whitespace, is_control_char, is_white_space, push_char};

verus! {

/// A character that counts towards a page's amount of real text.
pub open spec fn is_useful_char(c: char) -> bool {
    !is_white_space(c) && !is_control_char(c)
}

/// Number of useful characters in `s`.
pub open spec fn useful_count(s: Seq<char>) -> nat
    decreases s.len(),
{
    if s.len() == 0 {
        0
    } else {
        useful_count(s.drop_last()) + if is_useful_char(s.last()) {
            1nat
        } else {
            0nat
        }
    }
}

/// Counts the characters of `text` that are neither whitespace nor control characters.
pub fn useful_char_count(text: &str) -> (r: usize)
    ensures
        r == useful_count(text@),
{
    let chars = crate::unicode::chars_of(text);
    let mut count: usize = 0;
    let mut i: usize = 0;
    while i < chars.len()
        invariant
            i <= chars.len(),
            chars@ == text@,
            count == useful_count(chars@.take(i as int)),
            count <= i,
        decreases chars.len() - i,
    {
        let c = chars[i];
        assert(chars@.take(i as int + 1).drop_last() == chars@.take(i as int));
        if !char_is_whitespace(c) && !char_is_control(c) {
            count = count + 1;
        }
        i = i + 1;
    }
    assert(chars@.take(chars.len() as int) == chars@);
    count
}

/// `s` with its leading whitespace removed.
pub open spec fn trim_start(s: Seq<char>) -> Seq<char>
    decreases s.len(),
{
    if s.len() > 0 && is_white_space(s[0]) {
        trim_start(s.drop_first())
    } else {
        s
    }
}

/// `s` with its trailing whitespace removed.
pub open spec fn trim_end(s: Seq<char>) -> Seq<char>
    decreases s.len(),
{
    if s.len() > 0 && is_white_space(s.last()) {
        trim_end(s.drop_last())
    } else {
        s
    }
}

/// `s` with whitespace removed from both ends, as `str::trim` does.
pub open spec fn trim(s: Seq<char>) -> Seq<char> {
    trim_end(trim_start(s))
}

/// Whether `s` holds nothing but whitespace.
pub open spec fn is_blank(s: Seq<char>) -> bool {
    trim(s).len() == 0
}

/// The characters of `s` with leading and trailing whitespace removed.
pub fn trim_chars(s: &Vec<char>) -> (r: Vec<char>)
    ensures
        r@ == trim(s@),
{
    let n = s.len();
    let mut a: usize = 0;
    assert(s@.subrange(0, n as int) == s@);
    while a < n && char_is_whitespace(s[a])
        invariant
            a <= n == s.len(),
            trim_start(s@) == trim_start(s@.subrange(a as int, n as int)),
        decreases n - a,
    {
        assert(s@.subrange(a as int, n as int).drop_first() == s@.subrange(a + 1, n as int));
        a = a + 1;
    }
    let mut b: usize = n;
    while b > a && char_is_whitespace(s[b - 1])
        invariant
            a <= b <= n == s.len(),
            trim_start(s@) == s@.subrange(a as int, n as int),
            trim(s@) == trim_end(s@.subrange(a as int, b as int)),
        decreases b - a,
    {
        assert(s@.subrange(a as int, b as int).drop_last() == s@.subrange(a as int, b - 1));
        b = b - 1;
    }
    let mut out: Vec<char> = Vec::new();
    let mut i: usize = a;
    while i < b
        invariant
            a <= i <= b <= n == s.len(),
            out@ == s@.subrange(a as int, i as int),
        decreases b - i,
    {
        out.push(s[i]);
        i = i + 1;
    }
    out
}

/// A `String` holding exactly the characters of `chars`.
pub fn string_from_chars(chars: &Vec<char>) -> (r: String)
    ensures
        r@ == chars@,
{
    let mut out = String::new();
    let mut i: usize = 0;
    while i < chars.len()
        invariant
            i <= chars.len(),
            out@ == chars@.take(i as int),
        decreases chars.len() - i,
    {
        push_char(&mut out, chars[i]);
        assert(chars@.take(i as int + 1) == chars@.take(i as int).push(chars@[i as int]));
        i = i + 1;
    }
    assert(chars@.take(chars.len() as int) == chars@);
    out
}

/// Lexicographic order of selection points: by page, then by glyph.
pub open spec fn point_le(a: SelectionPoint, b: SelectionPoint) -> bool {
    a.page < b.page || (a.page == b.page && a.glyph <= b.glyph)
}

/// Orders two selection points so that the first comes no later than the second.
pub fn ordered_selection(a: SelectionPoint, b: SelectionPoint) -> (r: (SelectionPoint, SelectionPoint))
    ensures
        r == (if point_le(a, b) { (a, b) } else { (b, a) }),
        point_le(r.0, r.1),
{
    if a.page < b.page || (a.page == b.page && a.glyph <= b.glyph) {
        (a, b)
    } else {
        (b, a)
    }
}

} // verus!

verus! {

/// The characters a page contributes to a selection running from `start` to `end`:
/// its glyphs between the two points, followed by a line break on every page but the last.
pub open spec fn page_piece(
    pages: Seq<Option<Vec<char>>>,
    p: int,
    start: SelectionPoint,
    end: SelectionPoint,
) -> Seq<char> {
    if 0 <= p < pages.len() && pages[p] is Some {
        let g = pages[p]->0@;
        let last = if g.len() == 0 { 0 } else { g.len() - 1 };
        let from: int = if p == start.page { start.glyph as int } else { 0 };
        let to: int = if p == end.page {
            if (end.glyph as int) < last { end.glyph as int } else { last }
        } else {
            last
        };
        if from <= to && g.len() > 0 {
            g.subrange(from, to + 1) + if p != end.page {
                seq!['\n']
            } else {
                Seq::<char>::empty()
            }
        } else {
            Seq::<char>::empty()
        }
    } else {
        Seq::<char>::empty()
    }
}

/// The text selected between `start` and `end`, collected over the pages
/// `start.page` up to (not including) `hi`.
pub open spec fn selection_text(
    pages: Seq<Option<Vec<char>>>,
    start: SelectionPoint,
    end: SelectionPoint,
    hi: int,
) -> Seq<char>
    decreases hi - start.page,
{
    if hi <= start.page {
        Seq::<char>::empty()
    } else {
        selection_text(pages, start, end, hi - 1) + page_piece(pages, hi - 1, start, end)
    }
}

/// The whole selection between two ordered points.
pub open spec fn selected(
    pages: Seq<Option<Vec<char>>>,
    start: SelectionPoint,
    end: SelectionPoint,
) -> Seq<char> {
    selection_text(pages, start, end, end.page + 1)
}

/// The text between the selection anchor and focus, or `None` when nothing is
/// selected or the selection covers no glyph.  `pages[p]` holds the glyph
/// characters of page `p` where its text layer is known.
pub fn selected_text(
    anchor: Option<SelectionPoint>,
    focus: Option<SelectionPoint>,
    pages: &Vec<Option<Vec<char>>>,
) -> (r: Option<String>)
    ensures
        match (anchor, focus) {
            (Some(a), Some(b)) => {
                let (start, end) = if point_le(a, b) { (a, b) } else { (b, a) };
                let t = selected(pages@, start, end);
                &&& (r is Some <==> t.len() > 0)
                &&& (r matches Some(s) ==> s@ == t)
            },
            _ => r is None,
        },
{
    let (a, b) = match (anchor, focus) {
        (Some(a), Some(b)) => (a, b),
        _ => return None,
    };
    let (start, end) = ordered_selection(a, b);
    let mut out = String::new();
    let mut page = start.page;
    loop
        invariant_except_break
            out@ == selection_text(pages@, start, end, page as int),
        invariant
            start.page <= page <= end.page,
            point_le(start, end),
        ensures
            out@ == selected(pages@, start, end),
        decreases end.page - page,
    {
        let ghost prev = out@;
        if page < pages.len() {
            match &pages[page] {
                Some(g) => {
                    let n = g.len();
                    let last = if n == 0 { 0 } else { n - 1 };
                    let from = if page == start.page { start.glyph } else { 0 };
                    let to = if page == end.page {
                        if end.glyph < last { end.glyph } else { last }
                    } else {
                        last
                    };
                    if from <= to && n > 0 {
                        let ghost before = out@;
                        let mut k = from;
                        while k <= to
                            invariant
                                from <= k <= to + 1,
                                to < n == g.len(),
                                out@ == before + g@.subrange(from as int, k as int),
                            decreases to + 1 - k,
                        {
                            push_char(&mut out, g[k]);
                            assert(g@.subrange(from as int, k + 1) == g@.subrange(from as int, k as int).push(g@[k as int]));
                            k = k + 1;
                        }
                        if page != end.page {
                            push_char(&mut out, '\n');
                        }
                    }
                },
                None => {},
            }
        }
        assert(out@ == prev + page_piece(pages@, page as int, start, end));
        assert(out@ == selection_text(pages@, start, end, page + 1));
        if page == end.page {
            break;
        }
        page = page + 1;
    }
    if out.as_str().is_empty() {
        None
    } else {
        Some(out)
    }
}

} // verus!

verus! {

/// The words of `s` joined by single spaces, as `split_whitespace` followed by
/// `join(" ")` produces them: each whitespace run between two words becomes one
/// space, and whitespace at either end disappears.
pub open spec fn collapse_ws(s: Seq<char>) -> Seq<char>
    decreases s.len(),
{
    if s.len() == 0 {
        Seq::<char>::empty()
    } else {
        let prev = collapse_ws(s.drop_last());
        let c = s.last();
        if is_white_space(c) {
            prev
        } else if s.len() >= 2 && is_white_space(s[s.len() - 2]) && prev.len() > 0 {
            prev.push(' ').push(c)
        } else {
            prev.push(c)
        }
    }
}

/// The ellipsis that marks a cut-off snippet.
pub open spec fn ellipsis() -> char {
    '\u{2026}'
}

/// Number of characters shown before a match in a snippet.
pub const SNIPPET_BEFORE: usize = 34;

/// Number of characters shown after a match in a snippet.
pub const SNIPPET_AFTER: usize = 52;

/// The character range `(from, to)` of `text` that a snippet around a match shows.
/// `start` and `needle_len` locate the match in the lowercased text of length `lower_len`.
pub open spec fn snippet_range(text_len: int, lower_len: int, start: int, needle_len: int) -> (int, int) {
    let char_start = if start < lower_len { start } else { lower_len };
    let match_end = if start + needle_len < lower_len { start + needle_len } else { lower_len };
    let needle_chars = match_end - char_start;
    let from = if char_start > SNIPPET_BEFORE { char_start - SNIPPET_BEFORE } else { 0 };
    let wanted = char_start + needle_chars + SNIPPET_AFTER;
    let to = if wanted < text_len { wanted } else { text_len };
    (from, to)
}

/// The snippet shown for a match: the surrounding text with whitespace collapsed,
/// and an ellipsis on each side where the text continues.
pub open spec fn snippet_text(text: Seq<char>, lower_len: int, start: int, needle_len: int) -> Seq<char> {
    let (from, to) = snippet_range(text.len() as int, lower_len, start, needle_len);
    let head = if from > 0 { seq![ellipsis()] } else { Seq::<char>::empty() };
    let tail = if to < text.len() { seq![ellipsis()] } else { Seq::<char>::empty() };
    head + collapse_ws(text.subrange(from, to)) + tail
}

/// Builds the excerpt around a match at character `start` of `lower` (the
/// lowercased text) whose needle is `needle_len` characters long.  The
/// excerpt itself is taken from `text`, not from its lowercased form.
pub fn make_snippet(text: &Vec<char>, lower: &Vec<char>, start: usize, needle_len: usize) -> (r: String)
    requires
        start + needle_len <= usize::MAX,
        lower@.len() + SNIPPET_AFTER <= usize::MAX,
        ({
            let (from, to) = snippet_range(text@.len() as int, lower@.len() as int, start as int, needle_len as int);
            from <= to
        }),
    ensures
        r@ == snippet_text(text@, lower@.len() as int, start as int, needle_len as int),
{
    let lower_len = lower.len();
    let char_start = if start < lower_len { start } else { lower_len };
    let match_end = if start + needle_len < lower_len { start + needle_len } else { lower_len };
    let needle_chars = match_end - char_start;
    let from = if char_start > SNIPPET_BEFORE { char_start - SNIPPET_BEFORE } else { 0 };
    let wanted = char_start + needle_chars + SNIPPET_AFTER;
    let to = if wanted < text.len() { wanted } else { text.len() };
    let mut out = String::new();
    if from > 0 {
        push_char(&mut out, '\u{2026}');
    }
    let ghost head = out@;
    let ghost sub = text@.subrange(from as int, to as int);
    let mut emitted = false;
    let mut prev_ws = false;
    let mut i = from;
    while i < to
        invariant
            from <= i <= to <= text@.len(),
            sub == text@.subrange(from as int, to as int),
            out@ == head + collapse_ws(sub.take(i - from)),
            emitted == (collapse_ws(sub.take(i - from)).len() > 0),
            prev_ws == (i > from && is_white_space(text@[i - 1])),
        decreases to - i,
    {
        let c = text[i];
        let ws = char_is_whitespace(c);
        proof {
            let k = i - from;
            assert(sub.take(k + 1).drop_last() == sub.take(k));
            assert(sub.take(k + 1).last() == c);
            if k >= 1 {
                assert(sub.take(k + 1)[k - 1] == text@[i - 1]);
            }
        }
        if !ws {
            if prev_ws && emitted {
                push_char(&mut out, ' ');
            }
            push_char(&mut out, c);
            emitted = true;
        }
        prev_ws = ws;
        i = i + 1;
    }
    assert(sub.take(to - from) == sub);
    if to < text.len() {
        push_char(&mut out, '\u{2026}');
    }
    out
}

} // verus!

verus! {

/// Selecting from `a` to `b` covers the same text as selecting from `b` to `a`.
pub proof fn lemma_selection_symmetric(pages: Seq<Option<Vec<char>>>, a: SelectionPoint, b: SelectionPoint)
    ensures
        ({
            let (s1, e1) = if point_le(a, b) { (a, b) } else { (b, a) };
            let (s2, e2) = if point_le(b, a) { (b, a) } else { (a, b) };
            selected(pages, s1, e1) == selected(pages, s2, e2)
        }),
{
    if point_le(a, b) && point_le(b, a) {
        assert(a == b);
    }
}

/// Text without whitespace passes through the snippet cleanup unchanged.
pub proof fn lemma_collapse_keeps_words(s: Seq<char>)
    requires
        forall|i: int| 0 <= i < s.len() ==> !is_white_space(#[trigger] s[i]),
    ensures
        collapse_ws(s) == s,
    decreases s.len(),
{
    if s.len() > 0 {
        lemma_collapse_keeps_words(s.drop_last());
        assert(!is_white_space(s[s.len() - 1]));
        if s.len() >= 2 {
            assert(!is_white_space(s[s.len() - 2]));
        }
        assert(s.drop_last().push(s.last()) == s);
    }
}

/// The snippet cleanup leaves no whitespace but single spaces: every character it
/// keeps is either a space it inserted or a non-whitespace character of the text,
/// and the cleaned text is never longer than its input.
pub proof fn lemma_collapse_only_spaces(s: Seq<char>)
    ensures
        forall|i: int| 0 <= i < collapse_ws(s).len() ==> (#[trigger] collapse_ws(s)[i] == ' ' || !is_white_space(
            collapse_ws(s)[i],
        )),
        collapse_ws(s).len() <= s.len(),
        s.len() > 0 && is_white_space(s.last()) && collapse_ws(s).len() > 0 ==> collapse_ws(s).len() < s.len(),
    decreases s.len(),
{
    if s.len() > 0 {
        lemma_collapse_only_spaces(s.drop_last());
        let prev = collapse_ws(s.drop_last());
        let cur = collapse_ws(s);
        assert forall|i: int| 0 <= i < cur.len() implies (#[trigger] cur[i] == ' ' || !is_white_space(cur[i])) by {
            if i < prev.len() {
                assert(cur[i] == prev[i]);
            }
        }
        if s.len() >= 2 {
            assert(s.drop_last().last() == s[s.len() - 2]);
        }
    }
}

} // verus!

verus! {

/// A page lying wholly between the two ends of a selection contributes all its
/// glyphs, followed by a line break.
pub proof fn lemma_middle_page_copied_whole(
    pages: Seq<Option<Vec<char>>>,
    start: SelectionPoint,
    end: SelectionPoint,
    p: int,
)
    requires
        start.page < p < end.page,
        p < pages.len(),
        pages[p] is Some,
        pages[p]->0@.len() > 0,
    ensures
        page_piece(pages, p, start, end) == pages[p]->0@ + seq!['\n'],
{
    let g = pages[p]->0@;
    assert(g.subrange(0, g.len() as int) == g);
}

/// A selection within one page is the glyphs from the start point to the end point,
/// both included.
pub proof fn lemma_selection_within_page(pages: Seq<Option<Vec<char>>>, start: SelectionPoint, end: SelectionPoint)
    requires
        start.page == end.page,
        start.page < pages.len(),
        pages[start.page as int] is Some,
        start.glyph <= end.glyph < pages[start.page as int]->0@.len(),
    ensures
        selected(pages, start, end) == pages[start.page as int]->0@.subrange(start.glyph as int, end.glyph + 1),
{
    let p = start.page as int;
    assert(selection_text(pages, start, end, p) == Seq::<char>::empty());
    assert(selected(pages, start, end) == selection_text(pages, start, end, p) + page_piece(pages, p, start, end));
}

/// A selection over three consecutive pages is the first page from the start point
/// on, a line break, the whole middle page, a line break, and the last page up to
/// the end point.
pub proof fn lemma_selection_over_three_pages(
    pages: Seq<Option<Vec<char>>>,
    start: SelectionPoint,
    end: SelectionPoint,
)
    requires
        end.page == start.page + 2,
        end.page < pages.len(),
        pages[start.page as int] is Some,
        pages[start.page + 1] is Some,
        pages[end.page as int] is Some,
        start.glyph < pages[start.page as int]->0@.len(),
        pages[start.page + 1]->0@.len() > 0,
        end.glyph < pages[end.page as int]->0@.len(),
    ensures
        ({
            let g0 = pages[start.page as int]->0@;
            let g1 = pages[start.page + 1]->0@;
            let g2 = pages[end.page as int]->0@;
            selected(pages, start, end) == g0.subrange(start.glyph as int, g0.len() as int) + seq!['\n'] + g1
                + seq!['\n'] + g2.subrange(0, end.glyph + 1)
        }),
{
    let p = start.page as int;
    let g0 = pages[p]->0@;
    let g1 = pages[p + 1]->0@;
    let g2 = pages[p + 2]->0@;
    lemma_middle_page_copied_whole(pages, start, end, p + 1);
    assert(selection_text(pages, start, end, p) == Seq::<char>::empty());
    assert(page_piece(pages, p, start, end) == g0.subrange(start.glyph as int, g0.len() as int) + seq!['\n']);
    assert(page_piece(pages, p + 2, start, end) == g2.subrange(0, end.glyph + 1));
    assert(selection_text(pages, start, end, p + 1) == page_piece(pages, p, start, end));
    assert(selection_text(pages, start, end, p + 2) == selection_text(pages, start, end, p + 1) + page_piece(
        pages,
        p + 1,
        start,
        end,
    ));
    assert(selected(pages, start, end) == selection_text(pages, start, end, p + 2) + page_piece(
        pages,
        p + 2,
        start,
        end,
    ));
}

} // verus!

verus! {

/// Counting useful characters skips whitespace and control characters and counts
/// every other character once: appending a character adds one exactly when it is
/// neither, and a text has no more useful characters than characters.
pub proof fn lemma_useful_count_push(s: Seq<char>, c: char)
    ensures
        useful_count(s.push(c)) == useful_count(s) + if !is_white_space(c) && !is_control_char(c) {
            1int
        } else {
            0int
        },
        useful_count(s) <= s.len(),
    decreases s.len(),
{
    assert(s.push(c).drop_last() == s);
    if s.len() > 0 {
        lemma_useful_count_push(s.drop_last(), s.last());
        assert(s.drop_last().push(s.last()) == s);
    }
}

/// The excerpt around a match whose text is not shortened by lowercasing starts at
/// most 34 characters before the match (exactly 34 where the text allows), and
/// ends at most 52 characters after it (exactly 52 where the text allows); it always
/// holds the whole match.
pub proof fn lemma_snippet_range_around_match(text_len: int, start: int, needle_len: int)
    requires
        0 <= start,
        0 <= needle_len,
        start + needle_len <= text_len,
    ensures
        ({
            let (from, to) = snippet_range(text_len, text_len, start, needle_len);
            &&& 0 <= from <= start
            &&& start - from <= 34
            &&& start >= 34 ==> start - from == 34
            &&& start + needle_len <= to <= text_len
            &&& to - (start + needle_len) <= 52
            &&& to < text_len ==> to == start + needle_len + 52
        }),
{
}

} // verus!
