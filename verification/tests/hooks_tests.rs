use theme_picker::config::{Config, Drivers, Hooks};
use theme_picker::hooks::{apply_theme, is_image_ext, is_video_ext, route_hook, run_theme_hook, HookAction};
use theme_picker::path::WallPath;

fn wp(s: &str) -> WallPath {
    WallPath::new(s.as_bytes().to_vec())
}

fn config(image: bool, video: bool, video_hook: bool) -> Config {
    Config {
        wallpaper_dir: wp("/w"),
        thumb_cache_dir: wp("/c"),
        drivers: Drivers { image, video },
        hooks: Hooks { image: wp("/h/img.sh"), video: if video_hook { Some(wp("/h/vid.sh")) } else { None } },
    }
}

#[test]
fn extensions_are_recognised() {
    for e in ["mp4", "webm", "mkv"] {
        assert!(is_video_ext(e));
        assert!(!is_image_ext(e));
    }
    for e in ["png", "jpg", "jpeg", "webp"] {
        assert!(is_image_ext(e));
        assert!(!is_video_ext(e));
    }
    assert!(!is_video_ext("MP4"));
    assert!(!is_image_ext(""));
    assert!(!is_image_ext("pngx"));
}

#[test]
fn images_go_to_the_image_hook() {
    assert_eq!(run_theme_hook(&wp("/w/a.png"), true, false, &wp("/h"), None), HookAction::SpawnImageHook);
    assert_eq!(run_theme_hook(&wp("/w/a.png"), false, true, &wp("/h"), None), HookAction::ImageDisabled);
}

#[test]
fn files_without_extension_count_as_images() {
    assert_eq!(run_theme_hook(&wp("/w/noext"), true, true, &wp("/h"), Some(&wp("/v"))), HookAction::SpawnImageHook);
}

#[test]
fn videos_go_to_the_video_hook() {
    let v = wp("/h/v.sh");
    assert_eq!(run_theme_hook(&wp("/w/a.mkv"), true, true, &wp("/h"), Some(&v)), HookAction::SpawnVideoHook);
    assert_eq!(run_theme_hook(&wp("/w/a.mkv"), true, false, &wp("/h"), Some(&v)), HookAction::VideoDisabled);
    assert_eq!(run_theme_hook(&wp("/w/a.webm"), true, true, &wp("/h"), None), HookAction::VideoHookMissing);
}

#[test]
fn extension_case_does_not_matter() {
    // the lowercase step must change the text: "MP4" is a video only once lowered
    assert_eq!(run_theme_hook(&wp("/w/A.MP4"), true, true, &wp("/h"), Some(&wp("/v"))), HookAction::SpawnVideoHook);
    assert_eq!(run_theme_hook(&wp("/w/A.WebM"), false, false, &wp("/h"), None), HookAction::VideoDisabled);
}

#[test]
fn non_utf8_extension_counts_as_no_extension() {
    let p = WallPath::new(b"/w/a.\xff\xfe".to_vec());
    assert_eq!(run_theme_hook(&p, true, true, &wp("/h"), Some(&wp("/v"))), HookAction::SpawnImageHook);
}

#[test]
fn route_hook_decides_by_lowered_extension() {
    assert_eq!(route_hook("mp4", true, true, true), HookAction::SpawnVideoHook);
    assert_eq!(route_hook("mp4", true, false, true), HookAction::VideoDisabled);
    assert_eq!(route_hook("mkv", true, true, false), HookAction::VideoHookMissing);
    assert_eq!(route_hook("png", false, true, true), HookAction::ImageDisabled);
    assert_eq!(route_hook("", true, false, false), HookAction::SpawnImageHook);
}

#[test]
fn apply_theme_uses_the_configuration() {
    assert_eq!(apply_theme(&wp("/w/a.jpg"), &config(true, false, false)), HookAction::SpawnImageHook);
    assert_eq!(apply_theme(&wp("/w/a.mp4"), &config(true, true, true)), HookAction::SpawnVideoHook);
    assert_eq!(apply_theme(&wp("/w/a.mp4"), &config(true, true, false)), HookAction::VideoHookMissing);
    assert_eq!(apply_theme(&wp("/w/a.mp4"), &config(true, false, true)), HookAction::VideoDisabled);
    assert_eq!(apply_theme(&wp("/w/a.jpg"), &config(false, true, true)), HookAction::ImageDisabled);
}
