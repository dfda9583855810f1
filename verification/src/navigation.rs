use vstd::prelude::*;
use crate::model::{GridFit, ViewMode};

verus! {

/// A command bound to a typed character.
#[derive(Clone, Copy, Debug, PartialEq, Eq, Structural)]
pub enum KeyCommand {
    StartGoto,
    ToggleMenu,
    ToggleInvert,
    TogglePacerMode,
    TogglePlay,
    Slower,
    Faster,
    ToggleFullscreen,
    OpenPdf,
    ResetZoom,
    SetMode(ViewMode),
    OpenSearch,
    ZoomIn,
    ZoomOut,
    Nothing,
}

/// `c` with ASCII capitals mapped to lowercase, as `char::to_ascii_lowercase` does.
pub open spec fn ascii_lower(c: char) -> char {
    if 'A' <= c && c <= 'Z' {
        ((c as u32) + 32) as char
    } else {
        c
    }
}

pub fn to_ascii_lower(c: char) -> (r: char)
    ensures
        r == ascii_lower(c),
{
    if 'A' <= c && c <= 'Z' {
        let u = (c as u32) as u8;
        ((u + 32) as char)
    } else {
        c
    }
}

/// The command of a typed character (letters in either case).
pub open spec fn spec_command(c: char) -> KeyCommand {
    let l = ascii_lower(c);
    if l == 'g' {
        KeyCommand::StartGoto
    } else if l == 's' {
        KeyCommand::ToggleMenu
    } else if l == 'i' {
        KeyCommand::ToggleInvert
    } else if l == 'p' {
        KeyCommand::TogglePacerMode
    } else if l == 'k' {
        KeyCommand::TogglePlay
    } else if l == 'j' {
        KeyCommand::Slower
    } else if l == 'l' {
        KeyCommand::Faster
    } else if l == 'f' {
        KeyCommand::ToggleFullscreen
    } else if l == 'o' {
        KeyCommand::OpenPdf
    } else if l == '0' {
        KeyCommand::ResetZoom
    } else if l == '1' {
        KeyCommand::SetMode(ViewMode::FitWidth)
    } else if l == '2' {
        KeyCommand::SetMode(ViewMode::FitHeight)
    } else if l == '3' {
        KeyCommand::SetMode(ViewMode::Spread)
    } else if l == '4' {
        KeyCommand::SetMode(ViewMode::Rows2)
    } else if l == '5' {
        KeyCommand::SetMode(ViewMode::Rows3)
    } else if l == '6' {
        KeyCommand::SetMode(ViewMode::Rows4)
    } else if l == '7' {
        KeyCommand::SetMode(ViewMode::Rows5)
    } else if l == '8' {
        KeyCommand::SetMode(ViewMode::Rows7)
    } else if l == '9' {
        KeyCommand::SetMode(ViewMode::Overview)
    } else if l == '/' {
        KeyCommand::OpenSearch
    } else if l == '+' || l == '=' {
        KeyCommand::ZoomIn
    } else if l == '-' || l == '\u{2212}' {
        KeyCommand::ZoomOut
    } else {
        KeyCommand::Nothing
    }
}

pub fn command_for_key(c: char) -> (r: KeyCommand)
    ensures
        r == spec_command(c),
{
    let l = to_ascii_lower(c);
    match l {
        'g' => KeyCommand::StartGoto,
        's' => KeyCommand::ToggleMenu,
        'i' => KeyCommand::ToggleInvert,
        'p' => KeyCommand::TogglePacerMode,
        'k' => KeyCommand::TogglePlay,
        'j' => KeyCommand::Slower,
        'l' => KeyCommand::Faster,
        'f' => KeyCommand::ToggleFullscreen,
        'o' => KeyCommand::OpenPdf,
        '0' => KeyCommand::ResetZoom,
        '1' => KeyCommand::SetMode(ViewMode::FitWidth),
        '2' => KeyCommand::SetMode(ViewMode::FitHeight),
        '3' => KeyCommand::SetMode(ViewMode::Spread),
        '4' => KeyCommand::SetMode(ViewMode::Rows2),
        '5' => KeyCommand::SetMode(ViewMode::Rows3),
        '6' => KeyCommand::SetMode(ViewMode::Rows4),
        '7' => KeyCommand::SetMode(ViewMode::Rows5),
        '8' => KeyCommand::SetMode(ViewMode::Rows7),
        '9' => KeyCommand::SetMode(ViewMode::Overview),
        '/' => KeyCommand::OpenSearch,
        '+' | '=' => KeyCommand::ZoomIn,
        '-' | '\u{2212}' => KeyCommand::ZoomOut,
        _ => KeyCommand::Nothing,
    }
}

} // verus!

verus! {

/// Whether `c` is one of the ASCII digits `0`..`9`.
pub open spec fn is_digit(c: char) -> bool {
    '0' <= c && c <= '9'
}

/// The number written by the decimal digits `s`.
pub open spec fn digits_value(s: Seq<char>) -> int
    decreases s.len(),
{
    if s.len() == 0 {
        0
    } else {
        digits_value(s.drop_last()) * 10 + (s.last() as int - '0' as int)
    }
}

/// What `str::parse::<usize>` gives for `s`: an optional `+` followed by at least
/// one digit, with a value that fits in `usize`.
pub open spec fn spec_parse_usize(s: Seq<char>) -> Option<usize> {
    let body = number_body(s);
    if body.len() > 0 && all_digits(body) && digits_value(body) <= usize::MAX {
        Some(digits_value(body) as usize)
    } else {
        None
    }
}

/// `s` without its leading `+`, if any.
pub open spec fn number_body(s: Seq<char>) -> Seq<char> {
    if s.len() > 0 && s[0] == '+' { s.drop_first() } else { s }
}

/// Whether every character of `s` is a digit.
pub open spec fn all_digits(s: Seq<char>) -> bool {
    forall|i: int| 0 <= i < s.len() ==> is_digit(#[trigger] s[i])
}

proof fn lemma_digits_value_monotone(s: Seq<char>, k: int)
    requires
        0 <= k <= s.len(),
        forall|i: int| 0 <= i < s.len() ==> is_digit(#[trigger] s[i]),
    ensures
        0 <= digits_value(s.take(k)) <= digits_value(s),
    decreases s.len() - k,
{
    if k < s.len() {
        lemma_digits_value_monotone(s, k + 1);
        assert(s.take(k + 1).drop_last() == s.take(k));
        assert(is_digit(s[k]));
    } else {
        assert(s.take(k) == s);
    }
    lemma_digits_nonneg(s.take(k));
}

proof fn lemma_digits_nonneg(s: Seq<char>)
    requires
        forall|i: int| 0 <= i < s.len() ==> is_digit(#[trigger] s[i]),
    ensures
        digits_value(s) >= 0,
    decreases s.len(),
{
    if s.len() > 0 {
        lemma_digits_nonneg(s.drop_last());
        assert(is_digit(s[s.len() - 1]));
    }
}

proof fn lemma_overflow_rejects(body: Seq<char>, k: int)
    requires
        0 <= k <= body.len(),
        forall|i: int| 0 <= i < k ==> is_digit(#[trigger] body[i]),
        digits_value(body.take(k)) > usize::MAX,
    ensures
        !(all_digits(body) && digits_value(body) <= usize::MAX),
{
    if all_digits(body) {
        lemma_digits_value_monotone(body, k);
    }
}

/// Parses a page number the way `str::parse::<usize>` does.
pub fn parse_usize(s: &Vec<char>) -> (r: Option<usize>)
    ensures
        r == spec_parse_usize(s@),
{
    let n = s.len();
    let start: usize = if n > 0 && s[0] == '+' { 1 } else { 0 };
    let ghost body = number_body(s@);
    assert(body == s@.subrange(start as int, n as int));
    if start >= n {
        return None;
    }
    let mut value: usize = 0;
    let mut i: usize = start;
    while i < n
        invariant
            start <= i <= n == s@.len(),
            body == s@.subrange(start as int, n as int),
            body == number_body(s@),
            forall|j: int| start <= j < i ==> is_digit(#[trigger] s@[j]),
            value == digits_value(s@.subrange(start as int, i as int)),
        decreases n - i,
    {
        let c = s[i];
        if !('0' <= c && c <= '9') {
            assert(body[i - start] == c);
            assert(!is_digit(body[i - start]));
            assert(!(forall|j: int| 0 <= j < body.len() ==> is_digit(#[trigger] body[j])));
            assert(!all_digits(body));
            return None;
        }
        let d = (c as u32 - '0' as u32) as usize;
        let ghost pre = s@.subrange(start as int, i + 1);
        assert(body.take(i + 1 - start) == pre);
        assert(pre.drop_last() == s@.subrange(start as int, i as int));
        assert(pre.last() == c);
        assert(digits_value(pre) == value * 10 + d);
        assert forall|j: int| 0 <= j < i + 1 - start implies is_digit(#[trigger] body[j]) by {
            assert(body[j] == s@[start + j]);
        }
        match value.checked_mul(10) {
            Some(v) => match v.checked_add(d) {
                Some(w) => {
                    value = w;
                },
                None => {
                    proof {
                        lemma_overflow_rejects(body, (i + 1 - start) as int);
                        assert(!(all_digits(body) && digits_value(body) <= usize::MAX));
                    }
                    return None;
                },
            },
            None => {
                proof {
                        lemma_overflow_rejects(body, (i + 1 - start) as int);
                        assert(!(all_digits(body) && digits_value(body) <= usize::MAX));
                    }
                return None;
            },
        }
        i = i + 1;
    }
    Some(value)
}

} // verus!

verus! {

/// The `g<number>` go-to-page entry: whether it is active and the digits typed so far.
pub struct GotoBuffer {
    pub active: bool,
    pub digits: Vec<char>,
}

/// What a typed character does.
#[derive(Clone, Copy, Debug, PartialEq, Eq, Structural)]
pub enum KeyOutcome {
    /// `?`: show the command list.
    ShowHelp,
    /// A digit was added to an active go-to entry.
    GotoDigit,
    /// Go to page `goto` first (a go-to entry the character ended), then run `command`.
    Command { goto: Option<usize>, command: KeyCommand },
}

/// The zero-based page a go-to entry of `digits` names: one less than the number
/// typed (page "0" means the first page), or `None` when the entry is not a number.
pub open spec fn spec_goto_target(digits: Seq<char>) -> Option<usize> {
    match spec_parse_usize(digits) {
        Some(n) => Some(if n > 0 { (n - 1) as usize } else { 0 }),
        None => None,
    }
}

impl GotoBuffer {
    pub fn new() -> (r: Self)
        ensures
            !r.active,
            r.digits@.len() == 0,
    {
        GotoBuffer { active: false, digits: Vec::new() }
    }

    /// Starts a new go-to entry.
    pub fn start(&mut self)
        ensures
            final(self).active,
            final(self).digits@.len() == 0,
    {
        self.active = true;
        self.digits.clear();
    }

    /// Ends the go-to entry; returns the page to go to, if a number was typed.
    pub fn commit(&mut self) -> (r: Option<usize>)
        ensures
            !final(self).active,
            final(self).digits@.len() == 0,
            r == (if old(self).active && old(self).digits@.len() > 0 {
                spec_goto_target(old(self).digits@)
            } else {
                None
            }),
    {
        let mut target = None;
        if self.active && self.digits.len() > 0 {
            if let Some(n) = parse_usize(&self.digits) {
                target = Some(if n > 0 { n - 1 } else { 0 });
            }
        }
        self.active = false;
        self.digits.clear();
        target
    }

    /// Handles one typed character: `?` shows the command list; while a go-to
    /// entry is active a digit extends it and any other character ends it (going to
    /// the page typed) before running its own command; `g` starts a new entry.
    pub fn type_char(&mut self, c: char) -> (r: KeyOutcome)
        ensures
            c == '?' ==> r == KeyOutcome::ShowHelp && final(self).active == old(self).active
                && final(self).digits@ == old(self).digits@,
            c != '?' && old(self).active && is_digit(c) ==> {
                &&& r == KeyOutcome::GotoDigit
                &&& final(self).active
                &&& final(self).digits@ == old(self).digits@.push(c)
            },
            c != '?' && !(old(self).active && is_digit(c)) ==> {
                let goto = if old(self).active && old(self).digits@.len() > 0 {
                    spec_goto_target(old(self).digits@)
                } else {
                    None
                };
                &&& r == KeyOutcome::Command { goto, command: spec_command(c) }
                &&& final(self).active == (spec_command(c) == KeyCommand::StartGoto)
                &&& final(self).digits@.len() == 0
            },
    {
        if c == '?' {
            return KeyOutcome::ShowHelp;
        }
        if self.active && '0' <= c && c <= '9' {
            self.digits.push(c);
            return KeyOutcome::GotoDigit;
        }
        let goto = self.commit();
        let command = command_for_key(c);
        if command == KeyCommand::StartGoto {
            self.start();
        }
        KeyOutcome::Command { goto, command }
    }
}

/// The page to show for a go-to request of `page` in a document of `page_count`
/// pages: the request clamped to the last page, or `None` for an empty document.
pub fn clamp_page(page: usize, page_count: usize) -> (r: Option<usize>)
    ensures
        page_count == 0 ==> r is None,
        page_count > 0 ==> r == Some(if page < page_count { page } else { (page_count - 1) as usize }),
{
    if page_count == 0 {
        None
    } else if page < page_count {
        Some(page)
    } else {
        Some(page_count - 1)
    }
}

/// Where Space (or Shift+Space, `backwards`) moves from the page group starting
/// at `current`: the group one group size on, or back, within the document.
/// `None` when there is no such group, and always in the overview, which shows
/// the whole document as one group.
pub open spec fn spec_next_page(mode: ViewMode, fit: GridFit, current: int, page_count: int, backwards: bool) -> Option<int> {
    let step = mode.spec_pages_per_view(fit) as int;
    if mode == ViewMode::Overview {
        None
    } else if backwards {
        let target = if current > step { current - step } else { 0 };
        if target < current { Some(target) } else { None }
    } else {
        let target = if current + step < page_count - 1 { current + step } else { page_count - 1 };
        if mode.spec_canonical_page(fit, target as nat) != current { Some(target) } else { None }
    }
}

pub fn next_page_target(mode: ViewMode, fit: GridFit, current: usize, page_count: usize, backwards: bool) -> (r: Option<usize>)
    requires
        current < page_count,
        mode.fits(fit),
    ensures
        r matches Some(t) ==> t < page_count,
        match spec_next_page(mode, fit, current as int, page_count as int, backwards) {
            Some(t) => r == Some(t as usize),
            None => r is None,
        },
{
    if let ViewMode::Overview = mode {
        return None;
    }
    let step = mode.pages_per_view(fit);
    if backwards {
        let target = if current > step { current - step } else { 0 };
        if target < current { Some(target) } else { None }
    } else {
        let last = page_count - 1;
        let target = if step < last - current { current + step } else { last };
        if mode.canonical_page(target, fit) != current { Some(target) } else { None }
    }
}

/// Moving on from a page group start by one group lands on the start of the next
/// group, unless the document ends first.
pub proof fn lemma_next_page_reaches_next_group(mode: ViewMode, fit: GridFit, current: nat, page_count: nat)
    requires
        mode != ViewMode::Overview,
        mode.spec_canonical_page(fit, current) == current,
        current + mode.spec_pages_per_view(fit) < page_count,
    ensures
        spec_next_page(mode, fit, current as int, page_count as int, false) == Some(
            (current + mode.spec_pages_per_view(fit)) as int,
        ),
        mode.spec_canonical_page(fit, current + mode.spec_pages_per_view(fit)) == current + mode.spec_pages_per_view(fit),
{
    let step = mode.spec_pages_per_view(fit);
    if step > 1 {
        let q = current / step;
        vstd::arithmetic::div_mod::lemma_div_multiples_vanish(q as int, step as int);
        assert(current == q * step);
        assert(current + step == (q + 1) * step) by (nonlinear_arith)
            requires current == q * step;
        vstd::arithmetic::div_mod::lemma_div_multiples_vanish((q + 1) as int, step as int);
    }
}

/// Number of pacer speed levels.
pub const SPEED_LEVEL_COUNT: usize = 37;

/// The level the pacer starts at: 15 px/s.
pub const DEFAULT_SPEED_LEVEL: usize = 13;

/// The pacer speeds, slowest first, in tenths of a pixel per second.
pub open spec fn speed_ladder() -> Seq<u32> {
    seq![
        5u32, 10, 15, 20, 30, 40, 50, 60, 70, 80, 90, 110, 140, 150, 170, 200, 230, 270, 310, 410, 530,
        670, 830, 910, 1200, 1500, 1900, 2300, 2700, 3200, 3800, 4500, 5500, 6500, 8000, 10000, 12500,
    ]
}

/// The speed of pacer level `level`, in tenths of a pixel per second.
pub fn speed_tenths(level: usize) -> (r: u32)
    requires
        level < SPEED_LEVEL_COUNT,
    ensures
        r == speed_ladder()[level as int],
{
    let ladder: Vec<u32> = vec![
        5u32, 10, 15, 20, 30, 40, 50, 60, 70, 80, 90, 110, 140, 150, 170, 200, 230, 270, 310, 410, 530,
        670, 830, 910, 1200, 1500, 1900, 2300, 2700, 3200, 3800, 4500, 5500, 6500, 8000, 10000, 12500,
    ];
    assert(ladder@ == speed_ladder());
    ladder[level]
}

/// The pacer ladder has one speed per level; it starts at 0.5 px/s, its default
/// level is 15 px/s and its fastest is 1250 px/s.
pub proof fn lemma_speed_ladder()
    ensures
        speed_ladder().len() == SPEED_LEVEL_COUNT,
        speed_ladder()[0] == 5,
        speed_ladder()[DEFAULT_SPEED_LEVEL as int] == 150,
        speed_ladder()[SPEED_LEVEL_COUNT - 1] == 12500,
{
}

/// One pacer speed level slower (the slowest stays).
pub fn speed_slower(index: usize) -> (r: usize)
    ensures
        r == (if index > 0 { index - 1 } else { 0 }),
{
    if index > 0 { index - 1 } else { 0 }
}

/// One pacer speed level faster (the fastest stays).
pub fn speed_faster(index: usize) -> (r: usize)
    ensures
        r == (if index + 1 < SPEED_LEVEL_COUNT { index + 1 } else { SPEED_LEVEL_COUNT - 1 }),
{
    if index < SPEED_LEVEL_COUNT - 1 { index + 1 } else { SPEED_LEVEL_COUNT - 1 }
}

} // verus!

verus! {

/// What going to a page requires of the viewer.
#[derive(Clone, Copy, Debug, PartialEq, Eq, Structural)]
pub enum GotoPlan {
    /// The document is empty: nothing happens.
    Nothing,
    /// The layout is being rebuilt: remember `page` and go there once it is laid out.
    Defer(usize),
    /// Scroll to the top of layout row `row`; `page` becomes the current page.
    ScrollToRow { row: usize, page: usize },
    /// The page is not laid out yet: remember `page` and rebuild the layout.
    Relayout(usize),
}

/// Plans a jump to `page` (clamped to the document) in view mode `mode`: the jump
/// lands on the first page of the page's group, in the layout row holding it.
/// `row_pages[k]` lists the pages of layout row `k`.
pub fn goto_page_plan(
    mode: ViewMode,
    fit: GridFit,
    page: usize,
    page_count: usize,
    layout_dirty: bool,
    row_pages: &Vec<Vec<usize>>,
) -> (r: GotoPlan)
    requires
        mode.fits(fit),
    ensures
        page_count == 0 ==> r == GotoPlan::Nothing,
        page_count > 0 ==> {
            let p = if page < page_count { page } else { (page_count - 1) as usize };
            let c = mode.spec_canonical_page(fit, p as nat) as usize;
            &&& layout_dirty ==> r == GotoPlan::Defer(p)
            &&& !layout_dirty && (forall|k: int| 0 <= k < row_pages@.len() ==> !(#[trigger] row_pages@[k])@.contains(c))
                ==> r == GotoPlan::Relayout(p)
            &&& !layout_dirty && (exists|k: int| 0 <= k < row_pages@.len() && (#[trigger] row_pages@[k])@.contains(c))
                ==> (r matches GotoPlan::ScrollToRow { row, page: q } && q == c && row < row_pages@.len()
                    && row_pages@[row as int]@.contains(c) && forall|j: int| 0 <= j < row ==> !(
                #[trigger] row_pages@[j])@.contains(c))
        },
{
    let p = match clamp_page(page, page_count) {
        Some(p) => p,
        None => return GotoPlan::Nothing,
    };
    if layout_dirty {
        return GotoPlan::Defer(p);
    }
    let canonical = mode.canonical_page(p, fit);
    match crate::layout::row_for_page(row_pages, canonical) {
        Some(row) => GotoPlan::ScrollToRow { row, page: canonical },
        None => GotoPlan::Relayout(p),
    }
}

} // verus!

verus! {

/// The keys of a frame that the command-key shortcuts read: whether the command
/// and shift modifiers are held, which of Tab, T, W, K, O and F were pressed, and the
/// lowest digit key 1 to 9 pressed, if any.
#[derive(Clone, Copy, Debug, PartialEq, Eq, Structural)]
pub struct ShortcutKeys {
    pub command: bool,
    pub shift: bool,
    pub tab: bool,
    pub t: bool,
    pub w: bool,
    pub k: bool,
    pub o: bool,
    pub f: bool,
    pub digit: Option<usize>,
}

/// A command-key shortcut.
#[derive(Clone, Copy, Debug, PartialEq, Eq, Structural)]
pub enum Shortcut {
    ReopenClosedTab,
    NewTab,
    CloseTab,
    SwitchTab(usize),
    ToggleCrop,
    OpenPdf,
    OpenSearch,
    Nothing,
}

/// The shortcut a frame's keys trigger, in order of precedence: command+shift with
/// Tab or T reopens the last closed tab, command+T opens a new tab, command+W
/// closes the tab, command with a digit switches tabs, command+K toggles cropping,
/// command+O opens a PDF and command+F opens the search bar.
pub fn shortcut_for(keys: ShortcutKeys) -> (r: Shortcut)
    ensures
        r == (if !keys.command {
            Shortcut::Nothing
        } else if keys.shift && (keys.tab || keys.t) {
            Shortcut::ReopenClosedTab
        } else if !keys.shift && keys.t {
            Shortcut::NewTab
        } else if keys.w {
            Shortcut::CloseTab
        } else if keys.digit is Some {
            Shortcut::SwitchTab(keys.digit->0)
        } else if keys.k {
            Shortcut::ToggleCrop
        } else if keys.o {
            Shortcut::OpenPdf
        } else if keys.f {
            Shortcut::OpenSearch
        } else {
            Shortcut::Nothing
        }),
{
    if !keys.command {
        Shortcut::Nothing
    } else if keys.shift && (keys.tab || keys.t) {
        Shortcut::ReopenClosedTab
    } else if !keys.shift && keys.t {
        Shortcut::NewTab
    } else if keys.w {
        Shortcut::CloseTab
    } else if let Some(d) = keys.digit {
        Shortcut::SwitchTab(d)
    } else if keys.k {
        Shortcut::ToggleCrop
    } else if keys.o {
        Shortcut::OpenPdf
    } else if keys.f {
        Shortcut::OpenSearch
    } else {
        Shortcut::Nothing
    }
}

} // verus!

verus! {

/// Every view mode shows at least one page per group.
proof fn lemma_group_size_positive(mode: ViewMode, fit: GridFit)
    ensures
        mode.spec_pages_per_view(fit) >= 1,
{
    match mode.spec_grid(fit) {
        Some((cols, rows)) => {
            if mode != ViewMode::Overview {
                vstd::arithmetic::mul::lemma_mul_increases(cols as int, rows as int);
            }
        },
        None => {},
    }
}

/// Shift+Space moves back by exactly one page group: from `current` it lands one
/// group size earlier, or on the first page when less than a group lies before it,
/// and from the first page it goes nowhere.  The overview never moves.
pub proof fn lemma_previous_group(mode: ViewMode, fit: GridFit, current: nat, page_count: nat)
    requires
        current < page_count,
    ensures
        mode == ViewMode::Overview ==> spec_next_page(mode, fit, current as int, page_count as int, true) is None,
        mode != ViewMode::Overview && current >= mode.spec_pages_per_view(fit) ==> spec_next_page(
            mode,
            fit,
            current as int,
            page_count as int,
            true,
        ) == Some(current - mode.spec_pages_per_view(fit)),
        mode != ViewMode::Overview && 0 < current < mode.spec_pages_per_view(fit) ==> spec_next_page(
            mode,
            fit,
            current as int,
            page_count as int,
            true,
        ) == Some(0int),
        current == 0 ==> spec_next_page(mode, fit, current as int, page_count as int, true) is None,
{
    lemma_group_size_positive(mode, fit);
}

/// Going back one group from a group start and then forward one group returns to
/// that group start.
pub proof fn lemma_back_then_forward(mode: ViewMode, fit: GridFit, current: nat, page_count: nat)
    requires
        mode != ViewMode::Overview,
        current < page_count,
        mode.spec_canonical_page(fit, current) == current,
        current >= mode.spec_pages_per_view(fit),
    ensures
        spec_next_page(mode, fit, current as int, page_count as int, true) == Some(
            current - mode.spec_pages_per_view(fit),
        ),
        spec_next_page(
            mode,
            fit,
            current - mode.spec_pages_per_view(fit),
            page_count as int,
            false,
        ) == Some(current as int),
{
    lemma_group_size_positive(mode, fit);
}

/// The documented key table: each key gives its command, in either letter case.
pub proof fn lemma_key_table()
    ensures
        spec_command('g') == KeyCommand::StartGoto && spec_command('G') == KeyCommand::StartGoto,
        spec_command('s') == KeyCommand::ToggleMenu && spec_command('S') == KeyCommand::ToggleMenu,
        spec_command('i') == KeyCommand::ToggleInvert && spec_command('I') == KeyCommand::ToggleInvert,
        spec_command('p') == KeyCommand::TogglePacerMode && spec_command('P') == KeyCommand::TogglePacerMode,
        spec_command('k') == KeyCommand::TogglePlay && spec_command('K') == KeyCommand::TogglePlay,
        spec_command('j') == KeyCommand::Slower && spec_command('J') == KeyCommand::Slower,
        spec_command('l') == KeyCommand::Faster && spec_command('L') == KeyCommand::Faster,
        spec_command('f') == KeyCommand::ToggleFullscreen && spec_command('F') == KeyCommand::ToggleFullscreen,
        spec_command('o') == KeyCommand::OpenPdf && spec_command('O') == KeyCommand::OpenPdf,
        spec_command('0') == KeyCommand::ResetZoom,
        spec_command('1') == KeyCommand::SetMode(ViewMode::FitWidth),
        spec_command('2') == KeyCommand::SetMode(ViewMode::FitHeight),
        spec_command('3') == KeyCommand::SetMode(ViewMode::Spread),
        spec_command('4') == KeyCommand::SetMode(ViewMode::Rows2),
        spec_command('5') == KeyCommand::SetMode(ViewMode::Rows3),
        spec_command('6') == KeyCommand::SetMode(ViewMode::Rows4),
        spec_command('7') == KeyCommand::SetMode(ViewMode::Rows5),
        spec_command('8') == KeyCommand::SetMode(ViewMode::Rows7),
        spec_command('9') == KeyCommand::SetMode(ViewMode::Overview),
        spec_command('/') == KeyCommand::OpenSearch,
        spec_command('+') == KeyCommand::ZoomIn && spec_command('=') == KeyCommand::ZoomIn,
        spec_command('-') == KeyCommand::ZoomOut && spec_command('\u{2212}') == KeyCommand::ZoomOut,
        spec_command(' ') == KeyCommand::Nothing && spec_command('z') == KeyCommand::Nothing,
{
}

/// A key and its lowercase form give the same command.
pub proof fn lemma_command_ignores_case(c: char)
    ensures
        spec_command(c) == spec_command(ascii_lower(c)),
{
    assert(ascii_lower(ascii_lower(c)) == ascii_lower(c));
}

} // verus!

verus! {

/// Numbers are read in base ten, most significant digit first: one digit is its
/// own value, two digits `a b` are ten times `a` plus `b`, and leading zeros add
/// nothing.
pub proof fn lemma_digits_decimal(a: char, b: char, s: Seq<char>)
    requires
        is_digit(a),
        is_digit(b),
    ensures
        digits_value(seq![a]) == a as int - '0' as int,
        digits_value(seq![a, b]) == 10 * (a as int - '0' as int) + (b as int - '0' as int),
        digits_value(seq!['0'] + s) == digits_value(s),
    decreases s.len(),
{
    assert(seq![a].drop_last() == Seq::<char>::empty());
    assert(seq![a].last() == a);
    assert(digits_value(Seq::<char>::empty()) == 0);
    assert(digits_value(seq![a]) == a as int - '0' as int);
    assert(seq![a, b].drop_last() == seq![a]);
    assert(seq![a, b].last() == b);
    assert(digits_value(seq![a, b]) == digits_value(seq![a]) * 10 + (b as int - '0' as int));
    if s.len() > 0 {
        lemma_digits_decimal(a, b, s.drop_last());
        assert((seq!['0'] + s).drop_last() == seq!['0'] + s.drop_last());
    } else {
        assert(seq!['0'] + s == seq!['0']);
        assert(seq!['0'].drop_last() == Seq::<char>::empty());
    }
}

} // verus!
