use vstd::prelude::*;
use vstd::view::View as _;
use crate::state::{AppState, View, wf, total_pages_of, lemma_total_pages_bounds};
use crate::text::{decimal, push_decimal, string_from_chars};
use crate::utils::{MAX_DOTS, MAX_LABEL_CHARS};

verus! {

/// The label of page number `n`: its decimal digits, or an ellipsis when it
/// has more than `MAX_LABEL_CHARS` of them.
pub open spec fn page_label(n: nat) -> Seq<char> {
    if decimal(n).len() > MAX_LABEL_CHARS {
        seq!['…']
    } else {
        decimal(n)
    }
}

/// The label of page number `n`.
pub fn format_page_number(n: usize) -> (r: String)
    ensures
        r@ == page_label(n as nat),
{
    let mut digits: Vec<char> = Vec::new();
    push_decimal(n, &mut digits);
    assert(digits@ =~= decimal(n as nat));
    if digits.len() > MAX_LABEL_CHARS {
        let mut e: Vec<char> = Vec::new();
        e.push('…');
        assert(e@ =~= seq!['…']);
        string_from_chars(e.as_slice())
    } else {
        string_from_chars(digits.as_slice())
    }
}

/// The labels of the current page (counted from one) and of the number of pages.
pub fn update_page_labels(state: &AppState) -> (r: (String, String))
    requires
        wf(*state),
    ensures
        r.0@ == page_label(state.page as nat + 1),
        r.1@ == page_label(total_pages_of(*state) as nat),
{
    let total = state.total_pages();
    let current = state.page;
    (format_page_number(current + 1), format_page_number(total))
}

/// The window of page dots to show.
#[derive(Clone, Copy, Debug, PartialEq, Eq, Structural)]
pub struct DotPlan {
    /// An ellipsis goes before the dots.
    pub leading_ellipsis: bool,
    /// The dots stand for pages `first` up to, not including, `end`.
    pub first: usize,
    pub end: usize,
    /// The page whose dot is filled.
    pub current: usize,
    /// An ellipsis goes after the dots.
    pub trailing_ellipsis: bool,
}

/// The first page of the dot window after it follows the current page: it
/// moves just enough to hold the current page, and no further than where the
/// last `MAX_DOTS` pages start.
pub open spec fn dot_start(s: AppState) -> int {
    let total = total_pages_of(s);
    let current = s.page as int;
    let w = if current < s.dot_window_start {
        current
    } else if current >= s.dot_window_start + MAX_DOTS {
        current + 1 - MAX_DOTS
    } else {
        s.dot_window_start as int
    };
    let max_start = if total > MAX_DOTS { total - MAX_DOTS } else { 0 };
    if w < max_start { w } else { max_start }
}

/// The dot window of the current state.
pub open spec fn dot_plan(s: AppState) -> DotPlan {
    let total = total_pages_of(s);
    let start = dot_start(s);
    let end = if start + MAX_DOTS < total { start + MAX_DOTS } else { total };
    DotPlan {
        leading_ellipsis: start > 0,
        first: start as usize,
        end: end as usize,
        current: s.page,
        trailing_ellipsis: end < total,
    }
}

/// Moves the window of page dots to follow the current page and returns what
/// to show.
pub fn rebuild_dot_indicator(state: &mut AppState) -> (r: DotPlan)
    requires
        wf(*old(state)),
    ensures
        wf(*final(state)),
        *final(state) == (AppState { dot_window_start: dot_start(*old(state)) as usize, ..*old(state) }),
        r == dot_plan(*old(state)),
        r.end - r.first == (if total_pages_of(*old(state)) < MAX_DOTS {
            total_pages_of(*old(state))
        } else {
            MAX_DOTS as int
        }),
        r.end <= total_pages_of(*old(state)),
        final(state).dot_window_start == r.first,
{
    proof {
        lemma_dots_fill_window(*old(state));
    }
    proof {
        lemma_total_pages_bounds(*state);
    }
    let total = state.total_pages();
    let current = state.page;
    if current < state.dot_window_start {
        state.dot_window_start = current;
    } else if current >= state.dot_window_start + MAX_DOTS {
        state.dot_window_start = current + 1 - MAX_DOTS;
    }
    let max_start = if total > MAX_DOTS { total - MAX_DOTS } else { 0 };
    if state.dot_window_start > max_start {
        state.dot_window_start = max_start;
    }
    let dot_start = state.dot_window_start;
    let dot_end = if dot_start + MAX_DOTS < total { dot_start + MAX_DOTS } else { total };
    DotPlan {
        leading_ellipsis: dot_start > 0,
        first: dot_start,
        end: dot_end,
        current,
        trailing_ellipsis: dot_end < total,
    }
}

/// The dot window holds the current page when that page exists, shows at most
/// `MAX_DOTS` dots, and stays within the pages.
pub proof fn lemma_dots_follow_page(s: AppState)
    requires
        wf(s),
    ensures
        dot_plan(s).first <= dot_plan(s).end <= total_pages_of(s),
        dot_plan(s).end - dot_plan(s).first <= MAX_DOTS,
        s.page < total_pages_of(s) ==> dot_plan(s).first <= s.page < dot_plan(s).end,
{
    lemma_total_pages_bounds(s);
}

/// The dot window shows as many dots as fit: `MAX_DOTS` of them, or one per
/// page when there are fewer pages. It stays where it is while it holds the
/// current page and fits within the pages, and otherwise moves just enough to
/// hold the current page: to start at it when the page is before the window,
/// to end at it when the page is after the window.
pub proof fn lemma_dots_fill_window(s: AppState)
    requires
        wf(s),
    ensures
        ({
            let total = total_pages_of(s);
            let plan = dot_plan(s);
            let page = s.page as int;
            let w = s.dot_window_start as int;
            &&& plan.end - plan.first == (if total < MAX_DOTS { total } else { MAX_DOTS as int })
            &&& plan.end <= total
            &&& plan.current == s.page
            &&& plan.leading_ellipsis == (plan.first > 0)
            &&& plan.trailing_ellipsis == (plan.end < total)
            &&& page < total ==> plan.first <= page < plan.end
            &&& w <= page < w + MAX_DOTS && w + MAX_DOTS <= total ==> plan.first == w
            &&& page < w && page + MAX_DOTS <= total ==> plan.first == page
            &&& w + MAX_DOTS <= page < total ==> plan.end == page + 1
        }),
{
    lemma_total_pages_bounds(s);
}

/// Which view tab is marked active: (All, Favorites).
pub fn update_view_indicator(state: &AppState) -> (r: (bool, bool))
    ensures
        r == (state.view == View::All, state.view == View::Favorites),
{
    match state.view {
        View::All => (true, false),
        View::Favorites => (false, true),
    }
}

} // verus!
