pub mod grid;
pub mod indicators;

use vstd::prelude::*;
use vstd::view::View as _;
use crate::filesystem::{add_favorite, remove_favorite, remove_path, not_path, lemma_added_is_present, lemma_removed_is_absent};
use crate::hooks::{apply_theme, route_spec, extension_text, HookAction};
use crate::path::WallPath;
use crate::path_list::{views, contains_path, stable_sort_of, lemma_filter_distinct};
use crate::text::str_lowercase;
use crate::utils::{compute_grid, grid_cols, grid_rows, MARGIN, INDICATOR_WIDTH};
use crate::ui::grid::{local_index, page_count, page_start, clamped, lemma_clamp_on_page};
use crate::state::{
    AppState, View, ViewPosition, wf, current_list, list_of, page_size_of, total_pages_of,
    pages_fit, pages_for, selected_index_of, with_position, lemma_page_size_bounds, lemma_total_pages_bounds,
};

verus! {

/// The position the selection is at.
pub open spec fn current_position(s: AppState) -> ViewPosition {
    ViewPosition { page: s.page, row: s.selected_row, col: s.selected_col }
}

/// The state after switching to `target`: the position in the view being left
/// is saved, the position saved for `target` is restored, and its page is
/// brought within the target's pages.
pub open spec fn switched(s: AppState, target: View) -> AppState {
    if s.view == target {
        s
    } else {
        let cur = current_position(s);
        let s1 = match s.view {
            View::All => AppState { all_position: cur, ..s },
            View::Favorites => AppState { favorites_position: cur, ..s },
        };
        let saved = match target {
            View::All => s1.all_position,
            View::Favorites => s1.favorites_position,
        };
        let s2 = AppState {
            view: target,
            page: saved.page,
            selected_row: saved.row,
            selected_col: saved.col,
            ..s1
        };
        let total = total_pages_of(s2);
        if s2.page >= total {
            AppState { page: (total - 1) as usize, ..s2 }
        } else {
            s2
        }
    }
}

/// The other view.
pub open spec fn other_view(v: View) -> View {
    match v {
        View::All => View::Favorites,
        View::Favorites => View::All,
    }
}

/// Switches to the `target` view. Returns whether the view changed (then the
/// page is to be rendered again).
pub fn switch_view(state: &mut AppState, target: View) -> (changed: bool)
    requires
        wf(*old(state)),
        pages_fit(list_of(*old(state), target).len() as int, page_size_of(*old(state))),
    ensures
        changed == (old(state).view != target),
        *final(state) == switched(*old(state), target),
        wf(*final(state)),
        // switching back is always possible, and restores the page and cell
        // this view was left at
        pages_fit(list_of(*final(state), old(state).view).len() as int, page_size_of(*final(state))),
        // the saved page and cell of the target view come back, the page
        // brought to that view's last page when it is past it
        changed ==> final(state).selected_row == (match target {
            View::All => old(state).all_position.row,
            View::Favorites => old(state).favorites_position.row,
        }) && final(state).selected_col == (match target {
            View::All => old(state).all_position.col,
            View::Favorites => old(state).favorites_position.col,
        }) && final(state).page == ({
            let saved = match target {
                View::All => old(state).all_position.page,
                View::Favorites => old(state).favorites_position.page,
            };
            let len = list_of(*old(state), target).len() as int;
            let ps = old(state).cols * old(state).rows;
            let total = if len == 0 { 1 } else { (len + ps - 1) / ps };
            if saved < total { saved as int } else { total - 1 }
        }),
        changed && old(state).page < total_pages_of(*old(state)) ==> {
            &&& switched(*final(state), old(state).view).view == old(state).view
            &&& current_position(switched(*final(state), old(state).view)) == current_position(*old(state))
        },
{
    if state.view == target {
        return false;
    }
    proof {
        if state.page < total_pages_of(*state) {
            lemma_switch_round_trip(*state, target);
        }
        lemma_switch_restores_saved_position(*state, target);
    }
    let current_pos = ViewPosition { page: state.page, row: state.selected_row, col: state.selected_col };
    match state.view {
        View::All => state.all_position = current_pos,
        View::Favorites => state.favorites_position = current_pos,
    }
    state.view = target;
    let saved = match target {
        View::All => state.all_position,
        View::Favorites => state.favorites_position,
    };
    state.page = saved.page;
    state.selected_row = saved.row;
    state.selected_col = saved.col;
    let total = state.total_pages();
    if state.page >= total {
        state.page = total - 1;
    }
    true
}

/// A key the picker reacts to.
#[derive(Clone, Copy, Debug, PartialEq, Eq, Structural)]
pub enum Key {
    Escape,
    Enter,
    Tab,
    Favorite,
    Left,
    Right,
    Up,
    Down,
    Other,
}

/// The Left key moves to the previous page: the selection is in the first
/// column of a page that is not the first.
pub open spec fn left_turns_page(s: AppState) -> bool {
    s.selected_col == 0 && s.page > 0
}

/// The selection after the Left key: one column left, or the last column of
/// the same row on the previous page.
pub open spec fn moved_left(s: AppState) -> AppState {
    if s.selected_col > 0 {
        with_position(s, s.page as int, s.selected_row as int, s.selected_col - 1)
    } else if s.page > 0 {
        with_position(s, s.page - 1, s.selected_row as int, s.cols - 1)
    } else {
        s
    }
}

/// The Right key moves to the next page: the selection is in the last column
/// and a next page exists.
pub open spec fn right_turns_page(s: AppState) -> bool {
    !(s.selected_col < s.cols - 1) && s.page + 1 < total_pages_of(s)
}

/// The selection after the Right key: one column right, or the first column
/// of the same row on the next page.
pub open spec fn moved_right(s: AppState) -> AppState {
    if s.selected_col < s.cols - 1 {
        with_position(s, s.page as int, s.selected_row as int, s.selected_col + 1)
    } else if s.page + 1 < total_pages_of(s) {
        with_position(s, s.page + 1, s.selected_row as int, 0)
    } else {
        s
    }
}

/// The Up key moves to the previous page: the selection is on the first row of
/// a page that is not the first.
pub open spec fn up_turns_page(s: AppState) -> bool {
    s.selected_row == 0 && s.page > 0
}

/// The selection after the Up key: one row up, or the last row of the
/// previous page.
pub open spec fn moved_up(s: AppState) -> AppState {
    if s.selected_row > 0 {
        with_position(s, s.page as int, s.selected_row - 1, s.selected_col as int)
    } else if s.page > 0 {
        with_position(s, s.page - 1, s.rows - 1, s.selected_col as int)
    } else {
        s
    }
}

/// The Down key moves to the next page: the selection is on the last row and
/// a next page exists.
pub open spec fn down_turns_page(s: AppState) -> bool {
    !(s.selected_row < s.rows - 1) && s.page + 1 < total_pages_of(s)
}

/// The selection after the Down key: one row down, or the first row of the
/// next page.
pub open spec fn moved_down(s: AppState) -> AppState {
    if s.selected_row < s.rows - 1 {
        with_position(s, s.page as int, s.selected_row + 1, s.selected_col as int)
    } else if s.page + 1 < total_pages_of(s) {
        with_position(s, s.page + 1, 0, s.selected_col as int)
    } else {
        s
    }
}

/// What the picker does after a key.
#[derive(Clone, Copy, Debug, PartialEq, Eq, Structural)]
pub enum KeyOutcome {
    /// Close the window.
    Close,
    /// The key is not the picker's; let it through.
    Ignored,
    /// Done; nothing more to do.
    Handled,
    /// Apply the wallpaper at `index` of the current list as `action` says.
    Apply { index: usize, action: crate::hooks::HookAction },
    /// The selected wallpaper was added to (or removed from) the favorites:
    /// save them, flash the thumbnail at `local_index`, and render the page
    /// again after the flash when `rerender_later`.
    FavoriteChanged { added: bool, local_index: usize, rerender_later: bool },
    /// The page changed: render it again.
    Render,
    /// The selection moved on the page: highlight it.
    Highlight,
    /// The view changed: render the page and the view tabs again.
    ViewSwitched,
}

/// Moves the selection for an arrow key.
pub fn handle_arrow(state: &mut AppState, key: Key) -> (r: KeyOutcome)
    requires
        wf(*old(state)),
        key == Key::Left || key == Key::Right || key == Key::Up || key == Key::Down,
    ensures
        wf(*final(state)),
        key == Key::Left ==> *final(state) == moved_left(*old(state)) && r == (if left_turns_page(
            *old(state),
        ) {
            KeyOutcome::Render
        } else {
            KeyOutcome::Highlight
        }),
        key == Key::Right ==> *final(state) == moved_right(*old(state)) && r == (if right_turns_page(
            *old(state),
        ) {
            KeyOutcome::Render
        } else {
            KeyOutcome::Highlight
        }),
        key == Key::Up ==> *final(state) == moved_up(*old(state)) && r == (if up_turns_page(
            *old(state),
        ) {
            KeyOutcome::Render
        } else {
            KeyOutcome::Highlight
        }),
        key == Key::Down ==> *final(state) == moved_down(*old(state)) && r == (if down_turns_page(
            *old(state),
        ) {
            KeyOutcome::Render
        } else {
            KeyOutcome::Highlight
        }),
{
    match key {
        Key::Left => {
            if state.selected_col > 0 {
                state.selected_col = state.selected_col - 1;
                KeyOutcome::Highlight
            } else if state.page > 0 {
                state.page = state.page - 1;
                state.selected_col = state.cols - 1;
                KeyOutcome::Render
            } else {
                KeyOutcome::Highlight
            }
        },
        Key::Right => {
            if state.selected_col < state.cols - 1 {
                state.selected_col = state.selected_col + 1;
                KeyOutcome::Highlight
            } else if state.page + 1 < state.total_pages() {
                state.page = state.page + 1;
                state.selected_col = 0;
                KeyOutcome::Render
            } else {
                KeyOutcome::Highlight
            }
        },
        Key::Up => {
            if state.selected_row > 0 {
                state.selected_row = state.selected_row - 1;
                KeyOutcome::Highlight
            } else if state.page > 0 {
                state.page = state.page - 1;
                state.selected_row = state.rows - 1;
                KeyOutcome::Render
            } else {
                KeyOutcome::Highlight
            }
        },
        _ => {
            if state.selected_row < state.rows - 1 {
                state.selected_row = state.selected_row + 1;
                KeyOutcome::Highlight
            } else if state.page + 1 < state.total_pages() {
                state.page = state.page + 1;
                state.selected_row = 0;
                KeyOutcome::Render
            } else {
                KeyOutcome::Highlight
            }
        },
    }
}

/// The direction of a scroll.
#[derive(Clone, Copy, Debug, PartialEq, Eq, Structural)]
pub enum Scroll {
    /// Towards later pages.
    Down,
    /// Towards earlier pages.
    Up,
    /// Neither.
    Still,
}

/// The scroll turns the page.
pub open spec fn scroll_turns_page(s: AppState, dir: Scroll) -> bool {
    match dir {
        Scroll::Down => s.page + 1 < total_pages_of(s),
        Scroll::Up => s.page > 0,
        Scroll::Still => false,
    }
}

/// The state after a scroll: the next or previous page, first cell.
pub open spec fn scrolled(s: AppState, dir: Scroll) -> AppState {
    if scroll_turns_page(s, dir) {
        match dir {
            Scroll::Down => with_position(s, s.page + 1, 0, 0),
            _ => with_position(s, s.page - 1, 0, 0),
        }
    } else {
        s
    }
}

/// Turns the page on a scroll. Returns whether it did (then the page is to be
/// rendered again).
pub fn handle_scroll(state: &mut AppState, dir: Scroll) -> (turned: bool)
    requires
        wf(*old(state)),
    ensures
        turned == scroll_turns_page(*old(state), dir),
        *final(state) == scrolled(*old(state), dir),
        wf(*final(state)),
{
    match dir {
        Scroll::Down => {
            if state.page + 1 < state.total_pages() {
                state.page = state.page + 1;
            } else {
                return false;
            }
        },
        Scroll::Up => {
            if state.page > 0 {
                state.page = state.page - 1;
            } else {
                return false;
            }
        },
        Scroll::Still => {
            return false;
        },
    }
    state.selected_row = 0;
    state.selected_col = 0;
    true
}

/// Selects the cell under the pointer. Returns whether the selection moved
/// (then it is to be highlighted).
pub fn hover(state: &mut AppState, row: usize, col: usize) -> (moved: bool)
    requires
        wf(*old(state)),
    ensures
        moved == (old(state).selected_row != row || old(state).selected_col != col),
        *final(state) == (if moved {
            with_position(*old(state), old(state).page as int, row as int, col as int)
        } else {
            *old(state)
        }),
        wf(*final(state)),
{
    if state.selected_row != row || state.selected_col != col {
        state.selected_row = row;
        state.selected_col = col;
        true
    } else {
        false
    }
}

/// What the favorite key does: the selected wallpaper, if there is one, is
/// added to the favorites in the All view and removed from them in the
/// Favorites view; nothing else changes.
pub open spec fn favorite_toggled(s: AppState, t: AppState, r: KeyOutcome) -> bool {
    let idx = selected_index_of(s);
    let list = current_list(s);
    if idx >= list.len() {
        t == s && r == KeyOutcome::Handled
    } else {
        let p = list[idx]@;
        let local = local_index(s) as usize;
        &&& t == AppState { favorite_wallpapers: t.favorite_wallpapers, ..s }
        &&& match s.view {
            View::All => if !contains_path(views(s.favorite_wallpapers@), p) {
                &&& stable_sort_of(views(t.favorite_wallpapers@), views(s.favorite_wallpapers@).push(p))
                &&& r == (KeyOutcome::FavoriteChanged { added: true, local_index: local, rerender_later: false })
            } else {
                t.favorite_wallpapers@ == s.favorite_wallpapers@ && r == KeyOutcome::Handled
            },
            View::Favorites => {
                &&& views(t.favorite_wallpapers@) == views(s.favorite_wallpapers@).filter(not_path(p))
                &&& r == (if contains_path(views(s.favorite_wallpapers@), p) {
                    KeyOutcome::FavoriteChanged { added: false, local_index: local, rerender_later: true }
                } else {
                    KeyOutcome::Handled
                })
            },
        }
    }
}

/// What the Enter key does: apply the selected wallpaper, if there is one.
pub open spec fn enter_outcome(s: AppState) -> KeyOutcome {
    let idx = selected_index_of(s);
    let list = current_list(s);
    if idx < list.len() {
        KeyOutcome::Apply {
            index: idx as usize,
            action: route_spec(
                str_lowercase(extension_text(list[idx]@)),
                s.config.drivers.image,
                s.config.drivers.video,
                s.config.hooks.video is Some,
            ),
        }
    } else {
        KeyOutcome::Handled
    }
}

/// Adds the selected wallpaper to the favorites (All view) or removes it from
/// them (Favorites view).
pub fn toggle_favorite(state: &mut AppState) -> (r: KeyOutcome)
    requires
        wf(*old(state)),
        selected_index_of(*old(state)) <= usize::MAX,
    ensures
        favorite_toggled(*old(state), *final(state), r),
        wf(*final(state)),
        ({
            let s = *old(state);
            let p = s.page * (s.cols * s.rows) + s.selected_row * s.cols + s.selected_col;
            let list = current_list(s);
            let old_favs = views(s.favorite_wallpapers@);
            let new_favs = views(final(state).favorite_wallpapers@);
            &&& p >= list.len() ==> *final(state) == s && r == KeyOutcome::Handled
            &&& p < list.len() && s.view == View::All && !contains_path(old_favs, list[p]@) ==> {
                &&& contains_path(new_favs, list[p]@)
                &&& stable_sort_of(new_favs, old_favs.push(list[p]@))
            }
            &&& p < list.len() && s.view == View::Favorites ==> new_favs == old_favs.filter(
                not_path(list[p]@),
            )
        }),
{
    let ghost s = *state;
    let ps = state.page_size();
    proof {
        lemma_page_size_bounds(state.cols as int, state.rows as int);
        assert(state.page * ps >= 0) by (nonlinear_arith)
            requires
                ps >= 1,
        ;
        assert(state.selected_row * state.cols >= 0) by (nonlinear_arith)
            requires
                state.cols >= 1,
        ;
    }
    let local = state.selected_row * state.cols + state.selected_col;
    let idx = state.page * ps + local;
    if idx >= state.wallpapers().len() {
        proof {
            lemma_favorite_key_toggles_selected_cell(s, *state, KeyOutcome::Handled);
        }
        return KeyOutcome::Handled;
    }
    let path = state.wallpapers()[idx].duplicate();
    assert(path@ == current_list(s)[idx as int]@);
    let r = match state.view {
        View::All => {
            if add_favorite(&path, &mut state.favorite_wallpapers) {
                KeyOutcome::FavoriteChanged { added: true, local_index: local, rerender_later: false }
            } else {
                KeyOutcome::Handled
            }
        },
        View::Favorites => {
            let removed = remove_favorite(&path, &mut state.favorite_wallpapers);
            proof {
                views(s.favorite_wallpapers@).lemma_filter_len(not_path(path@));
            }
            if removed {
                KeyOutcome::FavoriteChanged { added: false, local_index: local, rerender_later: true }
            } else {
                KeyOutcome::Handled
            }
        },
    };
    proof {
        lemma_favorite_key_toggles_selected_cell(s, *state, r);
    }
    r
}

/// Reacts to a key: Escape closes, Enter applies the selected wallpaper, Tab
/// switches the view, the favorite key toggles the selected wallpaper's
/// favorite, the arrows move the selection; other keys are let through.
pub fn handle_key(state: &mut AppState, key: Key) -> (r: KeyOutcome)
    requires
        wf(*old(state)),
        key == Key::Enter || key == Key::Favorite ==> selected_index_of(*old(state)) <= usize::MAX,
        key == Key::Tab ==> pages_fit(
            list_of(*old(state), other_view(old(state).view)).len() as int,
            page_size_of(*old(state)),
        ),
    ensures
        wf(*final(state)),
        key == Key::Escape ==> *final(state) == *old(state) && r == KeyOutcome::Close,
        key == Key::Other ==> *final(state) == *old(state) && r == KeyOutcome::Ignored,
        key == Key::Enter ==> *final(state) == *old(state) && r == enter_outcome(*old(state)),
        key == Key::Enter && old(state).page * (old(state).cols * old(state).rows) + old(state).selected_row
            * old(state).cols + old(state).selected_col < current_list(*old(state)).len() ==> r
            == (KeyOutcome::Apply {
            index: (old(state).page * (old(state).cols * old(state).rows) + old(state).selected_row
                * old(state).cols + old(state).selected_col) as usize,
            action: route_spec(
                str_lowercase(
                    extension_text(
                        current_list(*old(state))[old(state).page * (old(state).cols * old(state).rows)
                            + old(state).selected_row * old(state).cols + old(state).selected_col]@,
                    ),
                ),
                old(state).config.drivers.image,
                old(state).config.drivers.video,
                old(state).config.hooks.video is Some,
            ),
        }),
        key == Key::Tab ==> *final(state) == switched(*old(state), other_view(old(state).view))
            && r == KeyOutcome::ViewSwitched,
        key == Key::Favorite ==> favorite_toggled(*old(state), *final(state), r),
        key == Key::Left ==> *final(state) == moved_left(*old(state)) && r == (if left_turns_page(
            *old(state),
        ) {
            KeyOutcome::Render
        } else {
            KeyOutcome::Highlight
        }),
        key == Key::Right ==> *final(state) == moved_right(*old(state)) && r == (if right_turns_page(
            *old(state),
        ) {
            KeyOutcome::Render
        } else {
            KeyOutcome::Highlight
        }),
        key == Key::Up ==> *final(state) == moved_up(*old(state)) && r == (if up_turns_page(
            *old(state),
        ) {
            KeyOutcome::Render
        } else {
            KeyOutcome::Highlight
        }),
        key == Key::Down ==> *final(state) == moved_down(*old(state)) && r == (if down_turns_page(
            *old(state),
        ) {
            KeyOutcome::Render
        } else {
            KeyOutcome::Highlight
        }),
{
    proof {
        lemma_enter_applies_selected_cell(*state);
    }
    match key {
        Key::Escape => KeyOutcome::Close,
        Key::Other => KeyOutcome::Ignored,
        Key::Enter => {
            let ps = state.page_size();
            proof {
                lemma_page_size_bounds(state.cols as int, state.rows as int);
                assert(state.page * ps >= 0) by (nonlinear_arith)
                    requires
                        ps >= 1,
                ;
                assert(state.selected_row * state.cols >= 0) by (nonlinear_arith)
                    requires
                        state.cols >= 1,
                ;
            }
            let idx = state.page * ps + state.selected_row * state.cols + state.selected_col;
            if idx < state.wallpapers().len() {
                let action = apply_theme(&state.wallpapers()[idx], &state.config);
                KeyOutcome::Apply { index: idx, action }
            } else {
                KeyOutcome::Handled
            }
        },
        Key::Tab => {
            let target = match state.view {
                View::All => View::Favorites,
                View::Favorites => View::All,
            };
            switch_view(state, target);
            KeyOutcome::ViewSwitched
        },
        Key::Favorite => toggle_favorite(state),
        _ => handle_arrow(state, key),
    }
}

/// The state after the grid becomes `cols` by `rows`: the selection moves to
/// the page and cell that show the same wallpaper (the last one, when the
/// selection was past the end of the list).
pub open spec fn resized(s: AppState, cols: int, rows: int) -> AppState {
    if cols == s.cols && rows == s.rows {
        s
    } else {
        let len = current_list(s).len() as int;
        let last = if len > 0 { len - 1 } else { 0 };
        let raw = if page_size_of(s) > 0 { selected_index_of(s) } else { 0 };
        let global = if raw < last { raw } else { last };
        let s2 = AppState { cols: cols as usize, rows: rows as usize, ..s };
        let nps = cols * rows;
        if nps > 0 {
            with_position(s2, global / nps, (global % nps) / cols, (global % nps) % cols)
        } else {
            s2
        }
    }
}

/// Fits the grid to a window of `width` by `height` pixels. Returns whether
/// the grid changed (then the page is to be rendered again).
pub fn handle_resize(state: &mut AppState, width: i32, height: i32) -> (changed: bool)
    requires
        wf(*old(state)),
        width - MARGIN * 2 - INDICATOR_WIDTH >= i32::MIN,
        height - MARGIN * 2 >= i32::MIN,
        grid_cols(width as int) != old(state).cols || grid_rows(height as int) != old(state).rows ==> {
            &&& grid_cols(width as int) * grid_rows(height as int) <= usize::MAX
            &&& selected_index_of(*old(state)) <= usize::MAX
            &&& pages_fit(
                current_list(*old(state)).len() as int,
                grid_cols(width as int) * grid_rows(height as int),
            )
        },
    ensures
        changed == (grid_cols(width as int) != old(state).cols || grid_rows(height as int)
            != old(state).rows),
        *final(state) == resized(*old(state), grid_cols(width as int), grid_rows(height as int)),
        wf(*final(state)),
{
    let (cols, rows) = compute_grid(width, height);
    if cols == state.cols && rows == state.rows {
        return false;
    }
    let ghost s = *state;
    let old_ps = state.page_size();
    proof {
        lemma_page_size_bounds(state.cols as int, state.rows as int);
        assert(state.page * old_ps >= 0) by (nonlinear_arith)
            requires
                old_ps >= 1,
        ;
        assert(state.selected_row * state.cols >= 0) by (nonlinear_arith)
            requires
                state.cols >= 1,
        ;
    }
    let raw = if old_ps > 0 {
        state.page * old_ps + state.selected_row * state.cols + state.selected_col
    } else {
        0
    };
    let len = state.wallpapers().len();
    let last = if len > 0 { len - 1 } else { 0 };
    let global = if raw < last { raw } else { last };
    state.cols = cols;
    state.rows = rows;
    let new_ps = state.page_size();
    if new_ps > 0 {
        state.page = global / new_ps;
        let offset = global % new_ps;
        state.selected_row = offset / cols;
        state.selected_col = offset % cols;
        assert(global / new_ps <= global) by (nonlinear_arith)
            requires
                new_ps >= 1,
        ;
    }
    true
}

/// Resizing keeps the selected wallpaper selected: when the selection is on a
/// wallpaper, it is on the same wallpaper after the grid changes, and on a page
/// that exists.
pub proof fn lemma_resize_keeps_selection(s: AppState, cols: int, rows: int)
    requires
        wf(s),
        cols >= 1,
        rows >= 1,
        cols * rows <= usize::MAX,
        selected_index_of(s) < current_list(s).len(),
    ensures
        selected_index_of(resized(s, cols, rows)) == selected_index_of(s),
        resized(s, cols, rows).page < total_pages_of(resized(s, cols, rows)),
{
    lemma_page_size_bounds(s.cols as int, s.rows as int);
    lemma_page_size_bounds(cols, rows);
    let t = resized(s, cols, rows);
    let idx = selected_index_of(s);
    let len = current_list(s).len() as int;
    assert(len <= usize::MAX) by {
        broadcast use vstd::std_specs::vec::axiom_spec_len;
        assert(s.all_wallpapers@.len() == s.all_wallpapers.len());
        assert(s.favorite_wallpapers@.len() == s.favorite_wallpapers.len());
    }
    if cols != s.cols || rows != s.rows {
        let nps = cols * rows;
        let off = idx % nps;
        assert(idx / nps <= idx && off / cols <= off && off % cols <= off) by (nonlinear_arith)
            requires
                nps >= 1,
                cols >= 1,
                idx >= 0,
                off >= 0,
        ;
        assert(t.cols == cols && t.rows == rows);
        assert(t.page == idx / nps && t.selected_row == off / cols && t.selected_col == off % cols);
        assert(idx == nps * (idx / nps) + off && 0 <= off < nps) by (nonlinear_arith)
            requires
                nps >= 1,
                idx >= 0,
                off == idx % nps,
        ;
        assert(off == cols * (off / cols) + off % cols) by (nonlinear_arith)
            requires
                cols >= 1,
                off >= 0,
        ;
        assert(selected_index_of(t) == (idx / nps) * nps + (off / cols) * cols + off % cols);
        assert((idx / nps) * nps == nps * (idx / nps)) by (nonlinear_arith);
        assert((off / cols) * cols == cols * (off / cols)) by (nonlinear_arith);
        assert(idx / nps < (len + nps - 1) / nps) by (nonlinear_arith)
            requires
                nps >= 1,
                0 <= idx < len,
        ;
    } else {
        let ps = cols * rows;
        assert(s.page * ps <= idx) by (nonlinear_arith)
            requires
                idx == s.page * ps + s.selected_row * s.cols + s.selected_col,
                s.selected_row * s.cols >= 0,
        ;
        assert(s.selected_row * s.cols >= 0) by (nonlinear_arith)
            requires
                s.cols >= 1,
        ;
        assert(s.page < (len + ps - 1) / ps) by (nonlinear_arith)
            requires
                ps >= 1,
                s.page * ps <= idx,
                0 <= idx < len,
        ;
    }
}

/// A thumbnail job for `source` finished: it is no longer pending.
pub fn thumbnail_ready(state: &mut AppState, source: &WallPath)
    requires
        wf(*old(state)),
    ensures
        wf(*final(state)),
        *final(state) == (AppState { pending_jobs: final(state).pending_jobs, ..*old(state) }),
        views(final(state).pending_jobs@) == views(old(state).pending_jobs@).filter(not_path(source@)),
{
    let ghost before = views(state.pending_jobs@);
    remove_path(source, &mut state.pending_jobs);
    proof {
        lemma_filter_distinct(before, not_path(source@));
    }
}

/// Switching to another view and back restores the page and cell the first
/// view was left at, when that page exists.
pub proof fn lemma_switch_round_trip(s: AppState, target: View)
    requires
        wf(s),
        s.view != target,
        s.page < total_pages_of(s),
    ensures
        switched(switched(s, target), s.view).view == s.view,
        current_position(switched(switched(s, target), s.view)) == current_position(s),
        current_list(switched(switched(s, target), s.view)) == current_list(s),
{
    let t = switched(s, target);
    let b = switched(t, s.view);
    assert(t.view == target);
    assert(match s.view {
        View::All => t.all_position == current_position(s),
        View::Favorites => t.favorites_position == current_position(s),
    });
    assert(current_list(b) == current_list(s));
    assert(page_size_of(b) == page_size_of(s));
}

/// Whatever the view switched to, its page exists afterwards.
pub proof fn lemma_switch_page_exists(s: AppState, target: View)
    requires
        wf(s),
        s.page < total_pages_of(s),
        pages_fit(list_of(s, target).len() as int, page_size_of(s)),
    ensures
        switched(s, target).page < total_pages_of(switched(s, target)),
        wf(switched(s, target)),
{
    if s.view != target {
        let cur = current_position(s);
        let s1 = match s.view {
            View::All => AppState { all_position: cur, ..s },
            View::Favorites => AppState { favorites_position: cur, ..s },
        };
        let saved = match target {
            View::All => s1.all_position,
            View::Favorites => s1.favorites_position,
        };
        let s2 = AppState {
            view: target,
            page: saved.page,
            selected_row: saved.row,
            selected_col: saved.col,
            ..s1
        };
        assert(wf(s2));
        lemma_total_pages_bounds(s2);
    }
}

/// Enter applies the wallpaper shown in the selected cell: the one at
/// `page * (cols * rows) + row * cols + col` in the current list, routed by
/// its lowercased extension and the drivers; with no wallpaper in that cell,
/// nothing happens.
pub proof fn lemma_enter_applies_selected_cell(s: AppState)
    requires
        wf(s),
    ensures
        ({
            let p = s.page * (s.cols * s.rows) + s.selected_row * s.cols + s.selected_col;
            let list = current_list(s);
            &&& p < list.len() ==> enter_outcome(s) == KeyOutcome::Apply {
                index: p as usize,
                action: route_spec(
                    str_lowercase(extension_text(list[p]@)),
                    s.config.drivers.image,
                    s.config.drivers.video,
                    s.config.hooks.video is Some,
                ),
            }
            &&& p >= list.len() ==> enter_outcome(s) == KeyOutcome::Handled
        }),
{
}

/// The favorite key adds (All view) or removes (Favorites view) exactly the
/// wallpaper shown in the selected cell, the one at
/// `page * (cols * rows) + row * cols + col` in the current list: after an
/// addition the favorites hold it and are the old ones plus it, sorted; after
/// a removal they are the old ones without it. The thumbnail flashed is the
/// selected cell. With no wallpaper in that cell nothing changes.
pub proof fn lemma_favorite_key_toggles_selected_cell(s: AppState, t: AppState, r: KeyOutcome)
    requires
        wf(s),
        favorite_toggled(s, t, r),
    ensures
        ({
            let p = s.page * (s.cols * s.rows) + s.selected_row * s.cols + s.selected_col;
            let list = current_list(s);
            let cell = (s.selected_row * s.cols + s.selected_col) as usize;
            let old_favs = views(s.favorite_wallpapers@);
            let new_favs = views(t.favorite_wallpapers@);
            &&& p >= list.len() ==> t == s && r == KeyOutcome::Handled
            &&& p < list.len() ==> t == AppState { favorite_wallpapers: t.favorite_wallpapers, ..s }
            &&& p < list.len() && s.view == View::All && !contains_path(old_favs, list[p]@) ==> {
                &&& contains_path(new_favs, list[p]@)
                &&& stable_sort_of(new_favs, old_favs.push(list[p]@))
                &&& r == (KeyOutcome::FavoriteChanged { added: true, local_index: cell, rerender_later: false })
            }
            &&& p < list.len() && s.view == View::All && contains_path(old_favs, list[p]@) ==> {
                &&& new_favs == old_favs
                &&& r == KeyOutcome::Handled
            }
            &&& p < list.len() && s.view == View::Favorites ==> {
                &&& !contains_path(new_favs, list[p]@)
                &&& new_favs == old_favs.filter(not_path(list[p]@))
                &&& r == (if contains_path(old_favs, list[p]@) {
                    KeyOutcome::FavoriteChanged { added: false, local_index: cell, rerender_later: true }
                } else {
                    KeyOutcome::Handled
                })
            }
        }),
{
    let p = s.page * (s.cols * s.rows) + s.selected_row * s.cols + s.selected_col;
    let list = current_list(s);
    assert(p == selected_index_of(s));
    if p < list.len() {
        let q = list[p]@;
        if s.view == View::All && !contains_path(views(s.favorite_wallpapers@), q) {
            lemma_added_is_present(views(s.favorite_wallpapers@), q, views(t.favorite_wallpapers@));
        }
        if s.view == View::All && contains_path(views(s.favorite_wallpapers@), q) {
            assert(views(t.favorite_wallpapers@) =~= views(s.favorite_wallpapers@));
        }
        if s.view == View::Favorites {
            lemma_removed_is_absent(views(s.favorite_wallpapers@), q);
        }
    }
}

/// Switching to the other view restores the page and cell saved for it, with
/// the page brought back to that view's last page when it is past it, and
/// saves the page and cell of the view left.
pub proof fn lemma_switch_restores_saved_position(s: AppState, target: View)
    requires
        wf(s),
        s.view != target,
    ensures
        ({
            let saved = match target {
                View::All => s.all_position,
                View::Favorites => s.favorites_position,
            };
            let len = list_of(s, target).len() as int;
            let ps = s.cols * s.rows;
            let total = if len == 0 { 1 } else { (len + ps - 1) / ps };
            let t = switched(s, target);
            &&& t.view == target
            &&& current_list(t) == list_of(s, target)
            &&& t.page == (if saved.page < total { saved.page as int } else { total - 1 })
            &&& t.selected_row == saved.row
            &&& t.selected_col == saved.col
            &&& (match s.view {
                View::All => t.all_position,
                View::Favorites => t.favorites_position,
            }) == current_position(s)
        }),
{
    let cur = current_position(s);
    let s1 = match s.view {
        View::All => AppState { all_position: cur, ..s },
        View::Favorites => AppState { favorites_position: cur, ..s },
    };
    let saved = match target {
        View::All => s1.all_position,
        View::Favorites => s1.favorites_position,
    };
    let s2 = AppState {
        view: target,
        page: saved.page,
        selected_row: saved.row,
        selected_col: saved.col,
        ..s1
    };
    assert(current_list(s2) == list_of(s, target));
    assert(page_size_of(s2) == s.cols * s.rows);
    let len = list_of(s, target).len() as int;
    let ps = s.cols * s.rows;
    assert(total_pages_of(s2) == pages_for(len, ps));
    lemma_page_size_bounds(s.cols as int, s.rows as int);
    assert(len <= usize::MAX) by {
        broadcast use vstd::std_specs::vec::axiom_spec_len;
        assert(s.all_wallpapers@.len() == s.all_wallpapers.len());
        assert(s.favorite_wallpapers@.len() == s.favorite_wallpapers.len());
    }
    if len > 0 {
        assert(1 <= (len + ps - 1) / ps <= len) by (nonlinear_arith)
            requires
                len >= 1,
                ps >= 1,
        ;
    }
}

/// Down followed by Up returns to the same cell, whenever Down moved the
/// selection from a cell of the grid.
pub proof fn lemma_down_then_up(s: AppState)
    requires
        wf(s),
        s.selected_row < s.rows,
        moved_down(s) != s,
    ensures
        moved_up(moved_down(s)) == s,
{
}

/// Up followed by Down returns to the same cell, whenever Up moved the
/// selection from a cell of the grid on an existing page.
pub proof fn lemma_up_then_down(s: AppState)
    requires
        wf(s),
        s.selected_row < s.rows,
        s.page < total_pages_of(s),
        moved_up(s) != s,
    ensures
        moved_down(moved_up(s)) == s,
{
    if s.selected_row == 0 {
        let u = moved_up(s);
        assert(total_pages_of(u) == total_pages_of(s));
    }
}

/// Left followed by Right, and Right followed by Left, return to the same
/// cell whenever the first key moved the selection from a cell of the grid on
/// an existing page.
pub proof fn lemma_left_right(s: AppState)
    requires
        wf(s),
        s.selected_col < s.cols,
        s.page < total_pages_of(s),
    ensures
        moved_left(s) != s ==> moved_right(moved_left(s)) == s,
        moved_right(s) != s ==> moved_left(moved_right(s)) == s,
{
    assert(total_pages_of(moved_left(s)) == total_pages_of(s));
    assert(total_pages_of(moved_right(s)) == total_pages_of(s));
}

/// Scrolling down and then up returns to the same page (first cell), and so
/// does scrolling up and then down from an existing page.
pub proof fn lemma_scroll_round_trip(s: AppState)
    requires
        wf(s),
    ensures
        scroll_turns_page(s, Scroll::Down) ==> scrolled(scrolled(s, Scroll::Down), Scroll::Up)
            == with_position(s, s.page as int, 0, 0),
        scroll_turns_page(s, Scroll::Up) && s.page < total_pages_of(s) ==> scrolled(
            scrolled(s, Scroll::Up),
            Scroll::Down,
        ) == with_position(s, s.page as int, 0, 0),
{
    let d = scrolled(s, Scroll::Down);
    let u = scrolled(s, Scroll::Up);
    assert(total_pages_of(d) == total_pages_of(s));
    assert(total_pages_of(u) == total_pages_of(s));
}

/// The arrow keys and scrolling keep the selection on an existing page.
pub proof fn lemma_navigation_keeps_page(s: AppState, dir: Scroll)
    requires
        wf(s),
        s.page < total_pages_of(s),
    ensures
        moved_left(s).page < total_pages_of(moved_left(s)),
        moved_right(s).page < total_pages_of(moved_right(s)),
        moved_up(s).page < total_pages_of(moved_up(s)),
        moved_down(s).page < total_pages_of(moved_down(s)),
        scrolled(s, dir).page < total_pages_of(scrolled(s, dir)),
{
    assert(total_pages_of(moved_left(s)) == total_pages_of(s));
    assert(total_pages_of(moved_right(s)) == total_pages_of(s));
    assert(total_pages_of(moved_up(s)) == total_pages_of(s));
    assert(total_pages_of(moved_down(s)) == total_pages_of(s));
    assert(total_pages_of(scrolled(s, dir)) == total_pages_of(s));
}

/// Whether `handle_key` can handle `key` in this state without overflowing.
pub fn can_handle_key(state: &AppState, key: Key) -> (r: bool)
    requires
        wf(*state),
    ensures
        r == ((key == Key::Enter || key == Key::Favorite ==> selected_index_of(*state) <= usize::MAX)
            && (key == Key::Tab ==> pages_fit(
            list_of(*state, other_view(state.view)).len() as int,
            page_size_of(*state),
        ))),
{
    match key {
        Key::Enter | Key::Favorite => state.checked_selected_index().is_some(),
        Key::Tab => {
            let len = match state.view {
                View::All => state.favorite_wallpapers.len(),
                View::Favorites => state.all_wallpapers.len(),
            };
            state.pages_fit_for(len)
        },
        _ => true,
    }
}

/// Whether `switch_view` can switch to `target` without overflowing.
pub fn can_switch_view(state: &AppState, target: View) -> (r: bool)
    requires
        wf(*state),
    ensures
        r == pages_fit(list_of(*state, target).len() as int, page_size_of(*state)),
{
    let len = match target {
        View::All => state.all_wallpapers.len(),
        View::Favorites => state.favorite_wallpapers.len(),
    };
    state.pages_fit_for(len)
}

/// Whether `handle_resize` can fit the grid to this window without overflowing.
pub fn can_resize(state: &AppState, width: i32, height: i32) -> (r: bool)
    requires
        wf(*state),
    ensures
        r == (width - MARGIN * 2 - INDICATOR_WIDTH >= i32::MIN && height - MARGIN * 2 >= i32::MIN && (
        grid_cols(width as int) != state.cols || grid_rows(height as int) != state.rows ==> {
            &&& grid_cols(width as int) * grid_rows(height as int) <= usize::MAX
            &&& selected_index_of(*state) <= usize::MAX
            &&& pages_fit(
                current_list(*state).len() as int,
                grid_cols(width as int) * grid_rows(height as int),
            )
        })),
{
    if width < i32::MIN + 72 || height < i32::MIN + 32 {
        return false;
    }
    let (cols, rows) = compute_grid(width, height);
    if cols == state.cols && rows == state.rows {
        return true;
    }
    let ps = match cols.checked_mul(rows) {
        Some(ps) => ps,
        None => return false,
    };
    if state.checked_selected_index().is_none() {
        return false;
    }
    let len = state.wallpapers().len();
    len == 0 || len.checked_add(ps).is_some()
}

/// The page rendered again: the thumbnails of the current page are shown and
/// the selection is brought onto them.
pub open spec fn refreshed(t: AppState) -> AppState {
    clamped(AppState { shown: page_count(t) as usize, ..t })
}

/// What the picker shows after an event: the page rendered again when the
/// event asked for it, otherwise the selection highlighted on the page shown.
pub open spec fn after_event(t: AppState, render: bool) -> AppState {
    if render {
        refreshed(t)
    } else {
        clamped(t)
    }
}

/// The screen agrees with the state: the page exists, the thumbnails shown are
/// the page's, and the selection is on one of them (on the first cell when
/// there are none).
pub open spec fn settled(s: AppState) -> bool {
    &&& s.page < total_pages_of(s)
    &&& s.shown == page_count(s)
    &&& if s.shown == 0 {
        s.selected_row == 0 && s.selected_col == 0
    } else {
        local_index(s) < s.shown
    }
}

/// Rendering a state whose page exists settles the screen.
pub proof fn lemma_refreshed_settled(t: AppState)
    requires
        wf(t),
        t.page < total_pages_of(t),
    ensures
        settled(refreshed(t)),
{
    lemma_total_pages_bounds(t);
    let ps = page_size_of(t);
    assert(page_start(t) >= 0) by (nonlinear_arith)
        requires
            ps >= 1,
            page_start(t) == t.page * ps,
    ;
    assert(0 <= page_count(t) <= ps);
    let u = AppState { shown: page_count(t) as usize, ..t };
    assert(wf(u));
    lemma_clamp_on_page(u);
    let r = refreshed(t);
    assert(total_pages_of(r) == total_pages_of(t));
    assert(page_count(r) == page_count(t));
}

/// A resize leaves the selection on an existing page.
pub proof fn lemma_resize_page_exists(s: AppState, cols: int, rows: int)
    requires
        wf(s),
        s.page < total_pages_of(s),
        cols >= 1,
        rows >= 1,
        cols * rows <= usize::MAX,
        pages_fit(current_list(s).len() as int, cols * rows),
    ensures
        wf(resized(s, cols, rows)),
        resized(s, cols, rows).page < total_pages_of(resized(s, cols, rows)),
{
    lemma_page_size_bounds(s.cols as int, s.rows as int);
    lemma_page_size_bounds(cols, rows);
    let len = current_list(s).len() as int;
    assert(len <= usize::MAX) by {
        broadcast use vstd::std_specs::vec::axiom_spec_len;
        assert(s.all_wallpapers@.len() == s.all_wallpapers.len());
        assert(s.favorite_wallpapers@.len() == s.favorite_wallpapers.len());
    }
    if cols != s.cols || rows != s.rows {
        let t = resized(s, cols, rows);
        let nps = cols * rows;
        let last = if len > 0 { len - 1 } else { 0 };
        let raw = selected_index_of(s);
        assert(s.page * page_size_of(s) >= 0 && s.selected_row * s.cols >= 0) by (nonlinear_arith)
            requires
                page_size_of(s) >= 1,
                s.cols >= 1,
        ;
        let global = if raw < last { raw } else { last };
        assert(0 <= global <= last);
        let off = global % nps;
        assert(global / nps <= global && 0 <= off < nps && off / cols <= off && off % cols <= off)
            by (nonlinear_arith)
            requires
                nps >= 1,
                cols >= 1,
                global >= 0,
                off == global % nps,
        ;
        assert(t.page == global / nps);
        assert(t.cols == cols && t.rows == rows);
        if len > 0 {
            assert(global / nps < (len + nps - 1) / nps) by (nonlinear_arith)
                requires
                    nps >= 1,
                    0 <= global < len,
            ;
        }
    }
}

/// Highlighting after a move that stays on the page shown is the same as
/// rendering the page again.
proof fn lemma_highlight_is_render(s: AppState, t: AppState)
    requires
        settled(s),
        t == with_position(s, s.page as int, t.selected_row as int, t.selected_col as int),
    ensures
        clamped(t) == refreshed(t),
{
    assert(page_count(t) == page_count(s));
    assert(AppState { shown: page_count(t) as usize, ..t } == t);
}

/// An arrow key, and the rendering or highlighting that follows, keeps the
/// screen settled.
proof fn lemma_arrow_keeps_screen_settled(s: AppState)
    requires
        wf(s),
        settled(s),
    ensures
        settled(after_event(moved_left(s), left_turns_page(s))),
        settled(after_event(moved_right(s), right_turns_page(s))),
        settled(after_event(moved_up(s), up_turns_page(s))),
        settled(after_event(moved_down(s), down_turns_page(s))),
{
    lemma_total_pages_bounds(s);
    lemma_navigation_keeps_page(s, Scroll::Still);
    let l = moved_left(s);
    let r = moved_right(s);
    let u = moved_up(s);
    let d = moved_down(s);
    assert(wf(l) && wf(r) && wf(u) && wf(d));
    lemma_refreshed_settled(l);
    lemma_refreshed_settled(r);
    lemma_refreshed_settled(u);
    lemma_refreshed_settled(d);
    if !left_turns_page(s) {
        lemma_highlight_is_render(s, l);
    }
    if !right_turns_page(s) {
        lemma_highlight_is_render(s, r);
    }
    if !up_turns_page(s) {
        lemma_highlight_is_render(s, u);
    }
    if !down_turns_page(s) {
        lemma_highlight_is_render(s, d);
    }
}

/// After any arrow key, Tab, scroll or resize, and the rendering or
/// highlighting that the picker does next, the page exists, the thumbnails
/// shown are the page's, and the selection is on one of them (on the first
/// cell when the page has none), when that held before. Tab and a resize are
/// covered wherever the page counts they compute do not overflow.
pub proof fn lemma_events_keep_screen_settled(s: AppState, key: Key, dir: Scroll, cols: int, rows: int)
    requires
        wf(s),
        settled(s),
    ensures
        key == Key::Left ==> settled(after_event(moved_left(s), left_turns_page(s))),
        key == Key::Right ==> settled(after_event(moved_right(s), right_turns_page(s))),
        key == Key::Up ==> settled(after_event(moved_up(s), up_turns_page(s))),
        key == Key::Down ==> settled(after_event(moved_down(s), down_turns_page(s))),
        pages_fit(list_of(s, other_view(s.view)).len() as int, page_size_of(s)) ==> settled(
            refreshed(switched(s, other_view(s.view))),
        ),
        settled(if scroll_turns_page(s, dir) { refreshed(scrolled(s, dir)) } else { s }),
        cols >= 1 && rows >= 1 && cols * rows <= usize::MAX && pages_fit(
            current_list(s).len() as int,
            cols * rows,
        ) ==> settled(if cols != s.cols || rows != s.rows { refreshed(resized(s, cols, rows)) } else { s }),
{
    lemma_arrow_keeps_screen_settled(s);
    if pages_fit(list_of(s, other_view(s.view)).len() as int, page_size_of(s)) {
        lemma_switch_page_exists(s, other_view(s.view));
        lemma_refreshed_settled(switched(s, other_view(s.view)));
    }
    if scroll_turns_page(s, dir) {
        lemma_total_pages_bounds(s);
        lemma_navigation_keeps_page(s, dir);
        assert(wf(scrolled(s, dir)));
        lemma_refreshed_settled(scrolled(s, dir));
    }
    if (cols != s.cols || rows != s.rows) && cols >= 1 && rows >= 1 && cols * rows <= usize::MAX
        && pages_fit(current_list(s).len() as int, cols * rows) {
        lemma_resize_page_exists(s, cols, rows);
        lemma_refreshed_settled(resized(s, cols, rows));
    }
}

} // verus!
