use theme_picker::config::{Config, Drivers, Hooks};
use theme_picker::hooks::HookAction;
use theme_picker::path::WallPath;
use theme_picker::state::{AppState, View, ViewPosition};
use theme_picker::ui::grid::{clamp_and_highlight, page_bounds, rebuild_thumbnail_grid, Tile};
use theme_picker::ui::indicators::{rebuild_dot_indicator, update_page_labels, update_view_indicator, DotPlan};
use theme_picker::ui::{
    handle_key, handle_resize, handle_scroll, hover, switch_view, thumbnail_ready, Key, KeyOutcome, Scroll,
};
use theme_picker::utils::compute_grid;

fn wp(s: &str) -> WallPath {
    WallPath::new(s.as_bytes().to_vec())
}

fn walls(n: usize) -> Vec<WallPath> {
    (0..n).map(|i| wp(&format!("/w/{:03}.png", i))).collect()
}

fn config() -> Config {
    Config {
        wallpaper_dir: wp("/w"),
        thumb_cache_dir: wp("/c"),
        drivers: Drivers { image: true, video: false },
        hooks: Hooks { image: wp("/h/img.sh"), video: None },
    }
}

fn state(all: usize, favs: usize, cols: usize, rows: usize) -> AppState {
    AppState::new(wp("/c/favorites.txt"), config(), walls(all), walls(favs), cols, rows)
}

fn pos(s: &AppState) -> (usize, usize, usize) {
    (s.page, s.selected_row, s.selected_col)
}

#[test]
fn grid_size_from_window_size() {
    assert_eq!(compute_grid(700, 600), (2, 4));
    assert_eq!(compute_grid(0, 0), (1, 1));
    assert_eq!(compute_grid(72 + 212 * 5 + 211, 32 + 132 * 3), (5, 3));
    assert_eq!(compute_grid(-100, -100), (1, 1));
}

#[test]
fn page_size_and_total_pages() {
    let s = state(10, 0, 2, 2);
    assert_eq!(s.page_size(), 4);
    assert_eq!(s.total_pages(), 3);
    let s = state(0, 0, 2, 2);
    assert_eq!(s.total_pages(), 1);
    let s = state(8, 0, 2, 2);
    assert_eq!(s.total_pages(), 2);
}

#[test]
fn initial_state() {
    let s = state(3, 1, 2, 4);
    assert_eq!(s.view, View::All);
    assert_eq!(pos(&s), (0, 0, 0));
    assert_eq!(s.all_position, ViewPosition::default());
    assert_eq!(s.wallpapers().len(), 3);
}

#[test]
fn arrows_move_within_the_grid() {
    let mut s = state(20, 0, 3, 2);
    assert_eq!(handle_key(&mut s, Key::Right), KeyOutcome::Highlight);
    assert_eq!(handle_key(&mut s, Key::Right), KeyOutcome::Highlight);
    assert_eq!(pos(&s), (0, 0, 2));
    assert_eq!(handle_key(&mut s, Key::Left), KeyOutcome::Highlight);
    assert_eq!(pos(&s), (0, 0, 1));
    assert_eq!(handle_key(&mut s, Key::Down), KeyOutcome::Highlight);
    assert_eq!(pos(&s), (0, 1, 1));
    assert_eq!(handle_key(&mut s, Key::Down), KeyOutcome::Render);
    assert_eq!(pos(&s), (1, 0, 1));
    assert_eq!(handle_key(&mut s, Key::Up), KeyOutcome::Render);
    assert_eq!(pos(&s), (0, 1, 1));
    assert_eq!(handle_key(&mut s, Key::Up), KeyOutcome::Highlight);
    assert_eq!(handle_key(&mut s, Key::Up), KeyOutcome::Highlight);
    assert_eq!(pos(&s), (0, 0, 1));
}

#[test]
fn left_and_right_cross_pages() {
    let mut s = state(20, 0, 3, 2);
    s.page = 1;
    s.selected_row = 1;
    assert_eq!(handle_key(&mut s, Key::Left), KeyOutcome::Render);
    assert_eq!(pos(&s), (0, 1, 2));
    assert_eq!(handle_key(&mut s, Key::Right), KeyOutcome::Render);
    assert_eq!(pos(&s), (1, 1, 0));
    assert_eq!(handle_key(&mut s, Key::Right), KeyOutcome::Highlight);
    assert_eq!(pos(&s), (1, 1, 1));
}

#[test]
fn left_and_right_stop_at_the_first_and_last_pages() {
    let mut s = state(20, 0, 3, 2);
    assert_eq!(handle_key(&mut s, Key::Left), KeyOutcome::Highlight);
    assert_eq!(pos(&s), (0, 0, 0));
    s.page = 3;
    s.selected_col = 2;
    assert_eq!(handle_key(&mut s, Key::Right), KeyOutcome::Highlight);
    assert_eq!(pos(&s), (3, 0, 2));
    assert_eq!(handle_key(&mut s, Key::Left), KeyOutcome::Highlight);
    assert_eq!(pos(&s), (3, 0, 1));
}

#[test]
fn down_stops_at_the_last_page() {
    let mut s = state(5, 0, 2, 2);
    handle_key(&mut s, Key::Down);
    handle_key(&mut s, Key::Down);
    assert_eq!(pos(&s), (1, 0, 0));
    assert_eq!(handle_key(&mut s, Key::Down), KeyOutcome::Highlight);
    assert_eq!(handle_key(&mut s, Key::Down), KeyOutcome::Highlight);
    assert_eq!(pos(&s), (1, 1, 0));
}

#[test]
fn down_then_up_returns() {
    let mut s = state(30, 0, 2, 3);
    s.page = 2;
    s.selected_row = 2;
    s.selected_col = 1;
    handle_key(&mut s, Key::Down);
    assert_eq!(pos(&s), (3, 0, 1));
    handle_key(&mut s, Key::Up);
    assert_eq!(pos(&s), (2, 2, 1));
}

#[test]
fn other_keys_escape_and_enter() {
    let mut s = state(3, 0, 2, 2);
    assert_eq!(handle_key(&mut s, Key::Other), KeyOutcome::Ignored);
    assert_eq!(handle_key(&mut s, Key::Escape), KeyOutcome::Close);
    s.selected_col = 1;
    assert_eq!(
        handle_key(&mut s, Key::Enter),
        KeyOutcome::Apply { index: 1, action: HookAction::SpawnImageHook }
    );
    s.selected_row = 1;
    assert_eq!(handle_key(&mut s, Key::Enter), KeyOutcome::Handled);
    assert_eq!(pos(&s), (0, 1, 1));
}

#[test]
fn scrolling_turns_pages() {
    let mut s = state(10, 0, 2, 2);
    s.selected_row = 1;
    assert!(handle_scroll(&mut s, Scroll::Down));
    assert_eq!(pos(&s), (1, 0, 0));
    assert!(handle_scroll(&mut s, Scroll::Down));
    assert!(!handle_scroll(&mut s, Scroll::Down));
    assert_eq!(pos(&s), (2, 0, 0));
    assert!(!handle_scroll(&mut s, Scroll::Still));
    assert!(handle_scroll(&mut s, Scroll::Up));
    assert!(handle_scroll(&mut s, Scroll::Up));
    assert!(!handle_scroll(&mut s, Scroll::Up));
    assert_eq!(pos(&s), (0, 0, 0));
}

#[test]
fn switching_views_saves_and_restores_positions() {
    let mut s = state(20, 3, 2, 2);
    s.page = 3;
    s.selected_row = 1;
    s.selected_col = 1;
    assert_eq!(handle_key(&mut s, Key::Tab), KeyOutcome::ViewSwitched);
    assert_eq!(s.view, View::Favorites);
    assert_eq!(pos(&s), (0, 0, 0));
    assert_eq!(s.wallpapers().len(), 3);
    assert!(switch_view(&mut s, View::All));
    assert_eq!(pos(&s), (3, 1, 1));
    assert!(!switch_view(&mut s, View::All));
}

#[test]
fn switching_clamps_the_restored_page() {
    let mut s = state(20, 9, 2, 2);
    assert!(switch_view(&mut s, View::Favorites));
    s.page = 2;
    assert!(switch_view(&mut s, View::All));
    // the favorites lose items while the All view is shown
    s.favorite_wallpapers.truncate(2);
    assert!(switch_view(&mut s, View::Favorites));
    assert_eq!(s.page, 0);
}

#[test]
fn favorite_key_adds_in_the_all_view() {
    let mut s = state(4, 0, 2, 2);
    s.selected_col = 1;
    assert_eq!(
        handle_key(&mut s, Key::Favorite),
        KeyOutcome::FavoriteChanged { added: true, local_index: 1, rerender_later: false }
    );
    assert_eq!(s.favorite_wallpapers.len(), 1);
    assert_eq!(s.favorite_wallpapers[0].raw, b"/w/001.png".to_vec());
    assert_eq!(handle_key(&mut s, Key::Favorite), KeyOutcome::Handled);
    assert_eq!(s.favorite_wallpapers.len(), 1);
}

#[test]
fn favorite_key_removes_in_the_favorites_view() {
    let mut s = state(4, 3, 2, 2);
    switch_view(&mut s, View::Favorites);
    s.selected_row = 1;
    assert_eq!(
        handle_key(&mut s, Key::Favorite),
        KeyOutcome::FavoriteChanged { added: false, local_index: 2, rerender_later: true }
    );
    assert_eq!(s.favorite_wallpapers.len(), 2);
    assert_eq!(s.wallpapers().len(), 2);
    assert_eq!(handle_key(&mut s, Key::Favorite), KeyOutcome::Handled);
}

#[test]
fn resize_keeps_the_selected_wallpaper() {
    let mut s = state(50, 0, 2, 4);
    s.page = 2;
    s.selected_row = 3;
    s.selected_col = 1;
    let before = s.checked_selected_index().unwrap();
    assert_eq!(before, 23);
    // a window of 3 columns and 2 rows
    assert!(handle_resize(&mut s, 72 + 212 * 3, 32 + 132 * 2));
    assert_eq!((s.cols, s.rows), (3, 2));
    assert_eq!(pos(&s), (3, 1, 2));
    assert_eq!(s.checked_selected_index().unwrap(), before);
    assert!(!handle_resize(&mut s, 72 + 212 * 3, 32 + 132 * 2));
}

#[test]
fn resize_past_the_end_selects_the_last_wallpaper() {
    let mut s = state(5, 0, 2, 2);
    s.page = 1;
    s.selected_row = 1;
    s.selected_col = 1;
    assert!(handle_resize(&mut s, 72 + 212 * 3, 32 + 132 * 3));
    assert_eq!(pos(&s), (0, 1, 1));
    let mut e = state(0, 0, 2, 2);
    assert!(handle_resize(&mut e, 72 + 212, 32 + 132));
    assert_eq!(pos(&e), (0, 0, 0));
}

#[test]
fn hover_selects_the_cell() {
    let mut s = state(5, 0, 2, 2);
    assert!(hover(&mut s, 1, 0));
    assert!(!hover(&mut s, 1, 0));
    assert_eq!(pos(&s), (0, 1, 0));
}

#[test]
fn grid_lays_out_the_page_and_queues_jobs() {
    let mut s = state(7, 0, 2, 2);
    s.page = 1;
    assert_eq!(page_bounds(&s), (4, 3));
    let tiles = rebuild_thumbnail_grid(&mut s, &vec![true, false, false]);
    assert_eq!(
        tiles,
        vec![
            Tile { index: 4, row: 0, col: 0, has_thumbnail: true, queue_job: false },
            Tile { index: 5, row: 0, col: 1, has_thumbnail: false, queue_job: true },
            Tile { index: 6, row: 1, col: 0, has_thumbnail: false, queue_job: true },
        ]
    );
    assert_eq!(s.shown, 3);
    assert_eq!(s.pending_jobs.len(), 2);
    let again = rebuild_thumbnail_grid(&mut s, &vec![true, false, false]);
    assert!(again.iter().all(|t| !t.queue_job));
    assert_eq!(s.pending_jobs.len(), 2);
    thumbnail_ready(&mut s, &wp("/w/005.png"));
    assert_eq!(s.pending_jobs.len(), 1);
    assert_eq!(s.pending_jobs[0].raw, b"/w/006.png".to_vec());
}

#[test]
fn grid_of_a_page_past_the_end_is_empty() {
    let mut s = state(4, 0, 2, 2);
    s.page = 1;
    assert_eq!(page_bounds(&s), (4, 0));
    assert!(rebuild_thumbnail_grid(&mut s, &vec![]).is_empty());
    assert_eq!(s.shown, 0);
    assert_eq!(clamp_and_highlight(&mut s), None);
}

#[test]
fn highlight_on_an_empty_page_resets_any_selection() {
    let mut s = state(4, 0, 2, 2);
    s.page = 1;
    rebuild_thumbnail_grid(&mut s, &vec![]);
    s.selected_row = usize::MAX;
    s.selected_col = usize::MAX;
    assert_eq!(clamp_and_highlight(&mut s), None);
    assert_eq!(pos(&s), (1, 0, 0));
}

#[test]
fn highlight_clamps_to_the_last_thumbnail() {
    let mut s = state(7, 0, 2, 2);
    s.page = 1;
    rebuild_thumbnail_grid(&mut s, &vec![true, true, true]);
    s.selected_row = 1;
    s.selected_col = 1;
    assert_eq!(clamp_and_highlight(&mut s), Some(2));
    assert_eq!(pos(&s), (1, 1, 0));
    s.selected_row = 0;
    assert_eq!(clamp_and_highlight(&mut s), Some(0));
}

#[test]
fn page_labels() {
    let mut s = state(10, 0, 1, 1);
    s.page = 4;
    assert_eq!(update_page_labels(&s), ("5".to_string(), "10".to_string()));
    let s = state(5000, 0, 1, 1);
    assert_eq!(update_page_labels(&s), ("1".to_string(), "…".to_string()));
}

#[test]
fn dot_window_follows_the_page() {
    let mut s = state(40, 0, 1, 1);
    assert_eq!(
        rebuild_dot_indicator(&mut s),
        DotPlan { leading_ellipsis: false, first: 0, end: 15, current: 0, trailing_ellipsis: true }
    );
    s.page = 20;
    assert_eq!(
        rebuild_dot_indicator(&mut s),
        DotPlan { leading_ellipsis: true, first: 6, end: 21, current: 20, trailing_ellipsis: true }
    );
    s.page = 39;
    assert_eq!(
        rebuild_dot_indicator(&mut s),
        DotPlan { leading_ellipsis: true, first: 25, end: 40, current: 39, trailing_ellipsis: false }
    );
    s.page = 3;
    assert_eq!(
        rebuild_dot_indicator(&mut s),
        DotPlan { leading_ellipsis: true, first: 3, end: 18, current: 3, trailing_ellipsis: true }
    );
    let mut few = state(3, 0, 1, 1);
    assert_eq!(
        rebuild_dot_indicator(&mut few),
        DotPlan { leading_ellipsis: false, first: 0, end: 3, current: 0, trailing_ellipsis: false }
    );
}

#[test]
fn view_tabs() {
    let mut s = state(1, 1, 1, 1);
    assert_eq!(update_view_indicator(&s), (true, false));
    switch_view(&mut s, View::Favorites);
    assert_eq!(update_view_indicator(&s), (false, true));
}
