use vstd::prelude::*;
use vstd::view::View as _;
use crate::config::Config;
use crate::path::WallPath;
use crate::path_list::{views, distinct_paths};
use crate::utils::MAX_DOTS;

verus! {

/// Which list of wallpapers is shown.
#[derive(Clone, Copy, Debug, PartialEq, Eq, Structural)]
pub enum View {
    All,
    Favorites,
}

/// A page and a selected cell on it.
#[derive(Clone, Copy, Debug, PartialEq, Eq, Structural)]
pub struct ViewPosition {
    pub page: usize,
    pub row: usize,
    pub col: usize,
}

impl Default for ViewPosition {
    fn default() -> (r: ViewPosition)
        ensures
            r == (ViewPosition { page: 0, row: 0, col: 0 }),
    {
        ViewPosition { page: 0, row: 0, col: 0 }
    }
}

/// The picker's state: the wallpaper lists, the view, the selection and the
/// grid's shape.
pub struct AppState {
    pub favorites_path: WallPath,
    pub config: Config,
    pub all_wallpapers: Vec<WallPath>,
    pub favorite_wallpapers: Vec<WallPath>,
    pub view: View,
    /// Where the All view was left.
    pub all_position: ViewPosition,
    /// Where the Favorites view was left.
    pub favorites_position: ViewPosition,
    pub page: usize,
    pub selected_row: usize,
    pub selected_col: usize,
    pub cols: usize,
    pub rows: usize,
    /// Number of thumbnails on the page as last built.
    pub shown: usize,
    /// Wallpapers whose thumbnails are being made.
    pub pending_jobs: Vec<WallPath>,
    /// First page of the window of page dots.
    pub dot_window_start: usize,
}

/// The wallpapers of the current view.
pub open spec fn current_list(s: AppState) -> Seq<WallPath> {
    match s.view {
        View::All => s.all_wallpapers@,
        View::Favorites => s.favorite_wallpapers@,
    }
}

/// The wallpapers of the given view.
pub open spec fn list_of(s: AppState, v: View) -> Seq<WallPath> {
    match v {
        View::All => s.all_wallpapers@,
        View::Favorites => s.favorite_wallpapers@,
    }
}

/// Number of thumbnails on a full page.
pub open spec fn page_size_of(s: AppState) -> int {
    s.cols * s.rows
}

/// Number of pages for `len` wallpapers on pages of `ps`: at least one.
pub open spec fn pages_for(len: int, ps: int) -> int {
    if len == 0 {
        1
    } else {
        (len + ps - 1) / ps
    }
}

/// Number of pages of the current view.
pub open spec fn total_pages_of(s: AppState) -> int {
    pages_for(current_list(s).len() as int, page_size_of(s))
}

/// Counting the pages of `len` wallpapers does not overflow.
pub open spec fn pages_fit(len: int, ps: int) -> bool {
    len == 0 || len + ps <= usize::MAX
}

/// Position of the selected cell in the current list.
pub open spec fn selected_index_of(s: AppState) -> int {
    s.page * page_size_of(s) + s.selected_row * s.cols + s.selected_col
}

/// The state's invariant: a grid of at least one cell whose size fits in a
/// `usize`, page counters below the top of `usize`, the current list's pages
/// countable, and no duplicate pending jobs.
pub open spec fn wf(s: AppState) -> bool {
    &&& s.cols >= 1
    &&& s.rows >= 1
    &&& s.cols * s.rows <= usize::MAX
    &&& s.page < usize::MAX
    &&& s.all_position.page < usize::MAX
    &&& s.favorites_position.page < usize::MAX
    &&& s.dot_window_start + MAX_DOTS <= usize::MAX
    &&& pages_fit(current_list(s).len() as int, page_size_of(s))
    &&& distinct_paths(views(s.pending_jobs@))
}

/// The state with the selection moved to the given page and cell.
pub open spec fn with_position(s: AppState, page: int, row: int, col: int) -> AppState {
    AppState { page: page as usize, selected_row: row as usize, selected_col: col as usize, ..s }
}

/// A grid of at least one row and column has at least one cell per row and column.
pub proof fn lemma_page_size_bounds(cols: int, rows: int)
    requires
        cols >= 1,
        rows >= 1,
    ensures
        cols * rows >= cols,
        cols * rows >= rows,
        cols * rows >= 1,
{
    assert(cols * rows >= cols) by (nonlinear_arith)
        requires
            cols >= 1,
            rows >= 1,
    ;
    assert(cols * rows >= rows) by (nonlinear_arith)
        requires
            cols >= 1,
            rows >= 1,
    ;
}

/// The number of pages is at least one and fits in a `usize`.
pub proof fn lemma_total_pages_bounds(s: AppState)
    requires
        wf(s),
    ensures
        1 <= total_pages_of(s) <= usize::MAX,
        page_size_of(s) >= 1,
{
    lemma_page_size_bounds(s.cols as int, s.rows as int);
    let len = current_list(s).len() as int;
    let ps = page_size_of(s);
    if len > 0 {
        assert(1 <= (len + ps - 1) / ps <= len + ps - 1) by (nonlinear_arith)
            requires
                len >= 1,
                ps >= 1,
        ;
    }
}

/// Whether a state can start with this grid and this many wallpapers: at
/// least one row and column, and the page arithmetic fits in a `usize`.
pub fn can_start(cols: usize, rows: usize, len: usize) -> (r: bool)
    ensures
        r == (cols >= 1 && rows >= 1 && cols * rows <= usize::MAX && pages_fit(len as int, cols * rows)),
{
    if cols == 0 || rows == 0 {
        return false;
    }
    match cols.checked_mul(rows) {
        Some(ps) => len == 0 || len.checked_add(ps).is_some(),
        None => false,
    }
}

impl AppState {
    /// The state the picker starts in: the All view, first page, first cell.
    pub fn new(
        favorites_path: WallPath,
        config: Config,
        all_wallpapers: Vec<WallPath>,
        favorite_wallpapers: Vec<WallPath>,
        cols: usize,
        rows: usize,
    ) -> (r: AppState)
        requires
            cols >= 1,
            rows >= 1,
            cols * rows <= usize::MAX,
            pages_fit(all_wallpapers@.len() as int, cols * rows),
        ensures
            wf(r),
            r.favorites_path == favorites_path,
            r.config == config,
            r.all_wallpapers == all_wallpapers,
            r.favorite_wallpapers == favorite_wallpapers,
            r.view == View::All,
            r.all_position == (ViewPosition { page: 0, row: 0, col: 0 }),
            r.favorites_position == (ViewPosition { page: 0, row: 0, col: 0 }),
            r.page == 0 && r.selected_row == 0 && r.selected_col == 0,
            r.cols == cols && r.rows == rows,
            r.shown == 0,
            r.pending_jobs@.len() == 0,
            r.dot_window_start == 0,
    {
        AppState {
            favorites_path,
            config,
            all_wallpapers,
            favorite_wallpapers,
            view: View::All,
            all_position: ViewPosition::default(),
            favorites_position: ViewPosition::default(),
            page: 0,
            selected_row: 0,
            selected_col: 0,
            cols,
            rows,
            shown: 0,
            pending_jobs: Vec::new(),
            dot_window_start: 0,
        }
    }

    /// The wallpapers of the current view.
    pub fn wallpapers(&self) -> (r: &Vec<WallPath>)
        ensures
            r@ == current_list(*self),
    {
        match self.view {
            View::All => &self.all_wallpapers,
            View::Favorites => &self.favorite_wallpapers,
        }
    }

    /// Number of thumbnails on a full page.
    pub fn page_size(&self) -> (r: usize)
        requires
            self.cols * self.rows <= usize::MAX,
        ensures
            r == page_size_of(*self),
    {
        self.cols * self.rows
    }

    /// Number of pages of the current view (one when it is empty).
    pub fn total_pages(&self) -> (r: usize)
        requires
            wf(*self),
        ensures
            r == total_pages_of(*self),
            r >= 1,
    {
        let len = self.wallpapers().len();
        if len == 0 {
            1
        } else {
            let ps = self.page_size();
            proof {
                lemma_page_size_bounds(self.cols as int, self.rows as int);
            }
            assert(len + ps - 1 >= ps) by (nonlinear_arith)
                requires
                    len >= 1,
                    ps >= 1,
            ;
            assert((len + ps - 1) as int / ps as int >= 1) by (nonlinear_arith)
                requires
                    len + ps - 1 >= ps,
                    ps >= 1,
            ;
            (len + ps - 1) / ps
        }
    }

    /// The position of the selected cell in the current list, or `None` when
    /// computing it overflows a `usize`.
    pub fn checked_selected_index(&self) -> (r: Option<usize>)
        requires
            wf(*self),
        ensures
            r is Some <==> selected_index_of(*self) <= usize::MAX,
            r matches Some(v) ==> v == selected_index_of(*self),
    {
        let ps = self.page_size();
        let a = match self.page.checked_mul(ps) {
            Some(a) => a,
            None => {
                assert(self.page * ps <= selected_index_of(*self)) by (nonlinear_arith)
                    requires
                        self.selected_row * self.cols >= 0,
                        self.selected_col >= 0,
                        selected_index_of(*self) == self.page * ps + self.selected_row * self.cols
                            + self.selected_col,
                ;
                return None;
            },
        };
        let b = match self.selected_row.checked_mul(self.cols) {
            Some(b) => b,
            None => {
                assert(self.selected_row * self.cols <= selected_index_of(*self)) by (nonlinear_arith)
                    requires
                        self.page * ps >= 0,
                        self.selected_col >= 0,
                        selected_index_of(*self) == self.page * ps + self.selected_row * self.cols
                            + self.selected_col,
                ;
                return None;
            },
        };
        match a.checked_add(b) {
            Some(c) => c.checked_add(self.selected_col),
            None => None,
        }
    }

    /// Whether counting the pages of `len` wallpapers on the current grid
    /// stays within a `usize`.
    pub fn pages_fit_for(&self, len: usize) -> (r: bool)
        requires
            self.cols * self.rows <= usize::MAX,
        ensures
            r == pages_fit(len as int, page_size_of(*self)),
    {
        if len == 0 {
            true
        } else {
            let ps = self.page_size();
            match len.checked_add(ps) {
                Some(_) => true,
                None => false,
            }
        }
    }
}

} // verus!
