use vstd::prelude::*;
use vstd::view::View as _;
use crate::path::{WallPath, same_path};
use crate::path_list::{views, contains_path};
use crate::state::{
    AppState, wf, current_list, page_size_of, with_position, lemma_page_size_bounds,
};

verus! {

/// Position in the current list of the page's first thumbnail.
pub open spec fn page_start(s: AppState) -> int {
    s.page * page_size_of(s)
}

/// Number of thumbnails on the current page: a full page, what is left of the
/// list, or none when the page is past the end.
pub open spec fn page_count(s: AppState) -> int {
    let start = page_start(s);
    let len = current_list(s).len() as int;
    if start >= len {
        0
    } else if start + page_size_of(s) < len {
        page_size_of(s)
    } else {
        len - start
    }
}

/// The paths on the current page.
pub open spec fn page_items(s: AppState) -> Seq<Seq<u8>> {
    if page_count(s) == 0 {
        Seq::empty()
    } else {
        views(current_list(s)).subrange(page_start(s), page_start(s) + page_count(s))
    }
}

/// Computing the page's bounds does not overflow.
pub open spec fn render_fits(s: AppState) -> bool {
    s.page * page_size_of(s) + page_size_of(s) <= usize::MAX
}

/// The pending jobs after going through `items`, where `exists` says which
/// already have a thumbnail: each item without one is queued unless the same
/// path is pending already.
pub open spec fn queue_after(pending: Seq<Seq<u8>>, items: Seq<Seq<u8>>, exists: Seq<bool>) -> Seq<
    Seq<u8>,
>
    decreases items.len(),
{
    if items.len() == 0 || exists.len() < items.len() {
        pending
    } else {
        let prev = queue_after(pending, items.drop_last(), exists);
        if !exists[items.len() - 1] && !contains_path(prev, items.last()) {
            prev.push(items.last())
        } else {
            prev
        }
    }
}

/// One thumbnail of the page.
#[derive(Clone, Copy, Debug, PartialEq, Eq, Structural)]
pub struct Tile {
    /// Position of the wallpaper in the current list.
    pub index: usize,
    pub row: usize,
    pub col: usize,
    /// The cached thumbnail exists and can be shown at once.
    pub has_thumbnail: bool,
    /// A thumbnail job is to be sent for this wallpaper.
    pub queue_job: bool,
}

/// The first position of the current page and the number of thumbnails on it.
pub fn page_bounds(state: &AppState) -> (r: (usize, usize))
    requires
        wf(*state),
        render_fits(*state),
    ensures
        r.0 == page_start(*state),
        r.1 == page_count(*state),
{
    let ps = state.page_size();
    proof {
        lemma_page_size_bounds(state.cols as int, state.rows as int);
        assert(state.page * ps >= 0) by (nonlinear_arith)
            requires
                ps >= 1,
        ;
    }
    let start = state.page * ps;
    let len = state.wallpapers().len();
    let end = if start + ps < len { start + ps } else { len };
    let count = if start < end { end - start } else { 0 };
    (start, count)
}

/// Lays out the current page: one tile per wallpaper on it, row by row, and
/// queues a thumbnail job for each wallpaper whose thumbnail is missing and
/// not already pending. `thumb_exists` says, for each wallpaper on the page,
/// whether its cached thumbnail exists.
pub fn rebuild_thumbnail_grid(state: &mut AppState, thumb_exists: &Vec<bool>) -> (tiles: Vec<Tile>)
    requires
        wf(*old(state)),
        render_fits(*old(state)),
        thumb_exists@.len() == page_count(*old(state)),
    ensures
        wf(*final(state)),
        *final(state) == (AppState {
            shown: page_count(*old(state)) as usize,
            pending_jobs: final(state).pending_jobs,
            ..*old(state)
        }),
        views(final(state).pending_jobs@) == queue_after(
            views(old(state).pending_jobs@),
            page_items(*old(state)),
            thumb_exists@,
        ),
        tiles@.len() == page_count(*old(state)),
        forall|i: int|
            0 <= i < tiles@.len() ==> #[trigger] tiles@[i] == (Tile {
                index: (page_start(*old(state)) + i) as usize,
                row: (i / old(state).cols as int) as usize,
                col: (i % old(state).cols as int) as usize,
                has_thumbnail: thumb_exists@[i],
                queue_job: !thumb_exists@[i] && !contains_path(
                    queue_after(
                        views(old(state).pending_jobs@),
                        page_items(*old(state)).take(i),
                        thumb_exists@,
                    ),
                    page_items(*old(state))[i],
                ),
            }),
{
    let ghost s = *state;
    let (start, count) = page_bounds(state);
    let cols = state.cols;
    let ghost items = page_items(s);
    let ghost pend0 = views(s.pending_jobs@);
    proof {
        lemma_page_size_bounds(s.cols as int, s.rows as int);
        assert(page_start(s) >= 0) by (nonlinear_arith)
            requires
                s.cols * s.rows >= 1,
                page_start(s) == s.page * (s.cols * s.rows),
        ;
        assert(count == 0 || start + count <= current_list(s).len());
        assert(items.len() == count);
    }
    let mut tiles: Vec<Tile> = Vec::new();
    let mut k: usize = 0;
    assert(items.take(0) =~= Seq::<Seq<u8>>::empty());
    while k < count
        invariant
            s == (AppState { pending_jobs: s.pending_jobs, ..s }),
            *state == (AppState { pending_jobs: state.pending_jobs, ..s }),
            wf(*state),
            start == page_start(s),
            count == page_count(s),
            cols == s.cols,
            cols >= 1,
            count == 0 || start + count <= current_list(s).len(),
            items == page_items(s),
            items.len() == count,
            pend0 == views(s.pending_jobs@),
            thumb_exists@.len() == count,
            k <= count,
            views(state.pending_jobs@) == queue_after(pend0, items.take(k as int), thumb_exists@),
            tiles@.len() == k,
            forall|i: int|
                0 <= i < k ==> #[trigger] tiles@[i] == (Tile {
                    index: (start + i) as usize,
                    row: (i / cols as int) as usize,
                    col: (i % cols as int) as usize,
                    has_thumbnail: thumb_exists@[i],
                    queue_job: !thumb_exists@[i] && !contains_path(
                        queue_after(pend0, items.take(i), thumb_exists@),
                        items[i],
                    ),
                }),
        decreases count - k,
    {
        let i = start + k;
        let ghost before = views(state.pending_jobs@);
        assert(items.take(k + 1).drop_last() =~= items.take(k as int));
        assert(items.take(k + 1).last() == items[k as int]);
        assert(current_list(s)[i as int]@ == items[k as int]);
        let exists = thumb_exists[k];
        let mut queue = false;
        if !exists {
            let pending = is_pending(&state.pending_jobs, &state.wallpapers()[i]);
            if !pending {
                let p = state.wallpapers()[i].duplicate();
                proof {
                    assert forall|a: int, b: int|
                        0 <= a < b < before.push(p@).len() implies !same_path(
                        #[trigger] before.push(p@)[a],
                        #[trigger] before.push(p@)[b],
                    ) by {
                        if b == before.len() {
                            assert(before.push(p@)[a] == before[a]);
                        } else {
                            assert(before.push(p@)[a] == before[a] && before.push(p@)[b] == before[b]);
                        }
                    }
                }
                state.pending_jobs.push(p);
                assert(views(state.pending_jobs@) =~= before.push(p@));
                queue = true;
            }
        }
        assert(queue == (!thumb_exists@[k as int] && !contains_path(
            queue_after(pend0, items.take(k as int), thumb_exists@),
            items[k as int],
        )));
        tiles.push(Tile { index: i, row: k / cols, col: k % cols, has_thumbnail: exists, queue_job: queue });
        k = k + 1;
    }
    assert(items.take(count as int) =~= items);
    state.shown = count;
    tiles
}

/// Whether `path` is among the pending jobs.
fn is_pending(pending: &Vec<WallPath>, path: &WallPath) -> (r: bool)
    ensures
        r == contains_path(views(pending@), path@),
{
    let mut i: usize = 0;
    while i < pending.len()
        invariant
            i <= pending@.len(),
            forall|j: int| 0 <= j < i ==> !same_path(#[trigger] views(pending@)[j], path@),
        decreases pending@.len() - i,
    {
        if pending[i].same(path) {
            assert(views(pending@)[i as int] == pending@[i as int]@);
            return true;
        }
        i = i + 1;
    }
    false
}

/// The selected cell's position on its page.
pub open spec fn local_index(s: AppState) -> int {
    s.selected_row * s.cols + s.selected_col
}

/// The selection brought onto the page's thumbnails: the first cell when the
/// page is empty, the last thumbnail when the selection is past it.
pub open spec fn clamped(s: AppState) -> AppState {
    if s.shown == 0 {
        with_position(s, s.page as int, 0, 0)
    } else if local_index(s) > s.shown - 1 {
        with_position(s, s.page as int, (s.shown - 1) / s.cols as int, (s.shown - 1) % s.cols as int)
    } else {
        s
    }
}

/// The thumbnail to highlight: the selected one, or the last when the
/// selection is past the end; none when the page is empty.
pub open spec fn highlighted(s: AppState) -> Option<usize> {
    if s.shown == 0 {
        None
    } else if local_index(s) > s.shown - 1 {
        Some((s.shown - 1) as usize)
    } else {
        Some(local_index(s) as usize)
    }
}

/// Brings the selection onto the page's thumbnails and returns the one to
/// highlight.
pub fn clamp_and_highlight(state: &mut AppState) -> (r: Option<usize>)
    requires
        wf(*old(state)),
        old(state).shown > 0 ==> local_index(*old(state)) <= usize::MAX,
    ensures
        wf(*final(state)),
        *final(state) == clamped(*old(state)),
        r == highlighted(*old(state)),
{
    let count = state.shown;
    let cols = state.cols;
    if count == 0 {
        state.selected_row = 0;
        state.selected_col = 0;
        return None;
    }
    let max_idx = count - 1;
    proof {
        assert(state.selected_row * cols >= 0) by (nonlinear_arith)
            requires
                cols >= 1,
        ;
    }
    let mut idx = state.selected_row * cols + state.selected_col;
    if idx > max_idx {
        idx = max_idx;
        state.selected_row = idx / cols;
        state.selected_col = idx % cols;
    }
    Some(idx)
}

/// After highlighting, the selection is on a thumbnail of the page (or on the
/// first cell of an empty page), and it is the highlighted one.
pub proof fn lemma_clamp_on_page(s: AppState)
    requires
        wf(s),
    ensures
        s.shown == 0 ==> clamped(s).selected_row == 0 && clamped(s).selected_col == 0
            && highlighted(s) is None,
        s.shown > 0 ==> local_index(clamped(s)) < s.shown && highlighted(s) == Some(
            local_index(clamped(s)) as usize,
        ),
{
    if s.shown > 0 && local_index(s) > s.shown - 1 {
        let m = s.shown - 1;
        let c = s.cols as int;
        assert((m / c) * c + m % c == m) by (nonlinear_arith)
            requires
                c >= 1,
                m >= 0,
        ;
        assert(m / c <= m && m % c <= m) by (nonlinear_arith)
            requires
                c >= 1,
                m >= 0,
        ;
    }
}

/// Whether the page's bounds can be computed.
pub fn can_render(state: &AppState) -> (r: bool)
    requires
        wf(*state),
    ensures
        r == render_fits(*state),
{
    let ps = state.page_size();
    match state.page.checked_mul(ps) {
        Some(a) => a.checked_add(ps).is_some(),
        None => {
            proof {
                lemma_page_size_bounds(state.cols as int, state.rows as int);
                assert(state.page * ps <= state.page * ps + ps);
            }
            false
        },
    }
}

/// Whether the selection can be brought onto the page: the page is empty, or
/// the selected cell's position on it can be computed.
pub fn can_highlight(state: &AppState) -> (r: bool)
    requires
        wf(*state),
    ensures
        r == (state.shown > 0 ==> local_index(*state) <= usize::MAX),
{
    if state.shown == 0 {
        return true;
    }
    match state.selected_row.checked_mul(state.cols) {
        Some(a) => a.checked_add(state.selected_col).is_some(),
        None => false,
    }
}

} // verus!
