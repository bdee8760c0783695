use vstd::prelude::*;
use vstd::utf8::{valid_utf8, decode_utf8};
use crate::config::Config;
use crate::path::{WallPath, path_extension};
use crate::text::{str_lowercase, to_lowercase, utf8_str};

verus! {

/// What applying a wallpaper comes to.
#[derive(Clone, Copy, Debug, PartialEq, Eq, Structural)]
pub enum HookAction {
    /// Run the image hook with the wallpaper as its argument.
    SpawnImageHook,
    /// Run the video hook with the wallpaper as its argument.
    SpawnVideoHook,
    /// A video was chosen but video wallpapers are switched off.
    VideoDisabled,
    /// Video wallpapers are on but no video hook is configured.
    VideoHookMissing,
    /// An image was chosen but image wallpapers are switched off.
    ImageDisabled,
}

/// The extensions of video wallpapers.
pub open spec fn video_exts() -> Seq<Seq<char>> {
    seq![seq!['m', 'p', '4'], seq!['w', 'e', 'b', 'm'], seq!['m', 'k', 'v']]
}

/// The extensions of image wallpapers.
pub open spec fn image_exts() -> Seq<Seq<char>> {
    seq![seq!['p', 'n', 'g'], seq!['j', 'p', 'g'], seq!['j', 'p', 'e', 'g'], seq!['w', 'e', 'b', 'p']]
}

/// The image extensions are exactly png, jpg, jpeg and webp.
pub proof fn lemma_image_exts_are_the_four(e: Seq<char>)
    ensures
        image_exts().contains(e) <==> (e == seq!['p', 'n', 'g'] || e == seq!['j', 'p', 'g'] || e == seq![
            'j',
            'p',
            'e',
            'g',
        ] || e == seq!['w', 'e', 'b', 'p']),
{
    let v = image_exts();
    assert(v[0] == seq!['p', 'n', 'g']);
    assert(v[1] == seq!['j', 'p', 'g']);
    assert(v[2] == seq!['j', 'p', 'e', 'g']);
    assert(v[3] == seq!['w', 'e', 'b', 'p']);
    if v.contains(e) {
        let i = choose|i: int| 0 <= i < v.len() && v[i] == e;
        assert(i == 0 || i == 1 || i == 2 || i == 3);
    }
}

/// The video extensions are exactly mp4, webm and mkv.
pub proof fn lemma_video_exts_are_the_three(e: Seq<char>)
    ensures
        video_exts().contains(e) <==> (e == seq!['m', 'p', '4'] || e == seq!['w', 'e', 'b', 'm'] || e
            == seq!['m', 'k', 'v']),
{
    let v = video_exts();
    assert(v[0] == seq!['m', 'p', '4']);
    assert(v[1] == seq!['w', 'e', 'b', 'm']);
    assert(v[2] == seq!['m', 'k', 'v']);
    if v.contains(e) {
        let i = choose|i: int| 0 <= i < v.len() && v[i] == e;
        assert(i == 0 || i == 1 || i == 2);
    }
}

/// Whether the text of `s` is exactly `t`.
pub fn str_equals(s: &str, t: &[char]) -> (r: bool)
    ensures
        r == (s@ == t@),
{
    let n = s.unicode_len();
    if n != t.len() {
        return false;
    }
    let mut i: usize = 0;
    while i < n
        invariant
            n == s@.len(),
            n == t@.len(),
            i <= n,
            forall|j: int| 0 <= j < i ==> s@[j] == t@[j],
        decreases n - i,
    {
        if s.get_char(i) != t[i] {
            return false;
        }
        i = i + 1;
    }
    assert(s@ =~= t@);
    true
}

/// Whether `ext` is one of the video extensions.
pub fn is_video_ext(ext: &str) -> (r: bool)
    ensures
        r == video_exts().contains(ext@),
        r == (ext@ == seq!['m', 'p', '4'] || ext@ == seq!['w', 'e', 'b', 'm'] || ext@ == seq!['m', 'k', 'v']),
{
    let r = str_equals(ext, &['m', 'p', '4']) || str_equals(ext, &['w', 'e', 'b', 'm'])
        || str_equals(ext, &['m', 'k', 'v']);
    proof {
        let v = video_exts();
        assert(v[0] == seq!['m', 'p', '4']);
        assert(v[1] == seq!['w', 'e', 'b', 'm']);
        assert(v[2] == seq!['m', 'k', 'v']);
        if v.contains(ext@) {
            let i = choose|i: int| 0 <= i < v.len() && v[i] == ext@;
            assert(i == 0 || i == 1 || i == 2);
        }
    }
    r
}

/// Whether `ext` is one of the image extensions.
pub fn is_image_ext(ext: &str) -> (r: bool)
    ensures
        r == image_exts().contains(ext@),
        r == (ext@ == seq!['p', 'n', 'g'] || ext@ == seq!['j', 'p', 'g'] || ext@ == seq!['j', 'p', 'e', 'g']
            || ext@ == seq!['w', 'e', 'b', 'p']),
{
    let r = str_equals(ext, &['p', 'n', 'g']) || str_equals(ext, &['j', 'p', 'g']) || str_equals(
        ext,
        &['j', 'p', 'e', 'g'],
    ) || str_equals(ext, &['w', 'e', 'b', 'p']);
    proof {
        let v = image_exts();
        assert(v[0] == seq!['p', 'n', 'g']);
        assert(v[1] == seq!['j', 'p', 'g']);
        assert(v[2] == seq!['j', 'p', 'e', 'g']);
        assert(v[3] == seq!['w', 'e', 'b', 'p']);
        if v.contains(ext@) {
            let i = choose|i: int| 0 <= i < v.len() && v[i] == ext@;
            assert(i == 0 || i == 1 || i == 2 || i == 3);
        }
    }
    r
}

/// The text of the wallpaper's extension, or the empty text when it has no
/// extension or the extension is not valid UTF-8.
pub open spec fn extension_text(raw: Seq<u8>) -> Seq<char> {
    match path_extension(raw) {
        Some(e) => if valid_utf8(e) { decode_utf8(e) } else { Seq::empty() },
        None => Seq::empty(),
    }
}

/// The routing decision, given the lowercased extension text.
pub open spec fn route_spec(
    lowered_ext: Seq<char>,
    drivers_image: bool,
    drivers_video: bool,
    has_video_hook: bool,
) -> HookAction {
    if video_exts().contains(lowered_ext) {
        if !drivers_video {
            HookAction::VideoDisabled
        } else if has_video_hook {
            HookAction::SpawnVideoHook
        } else {
            HookAction::VideoHookMissing
        }
    } else if !drivers_image {
        HookAction::ImageDisabled
    } else {
        HookAction::SpawnImageHook
    }
}

/// Decides which hook applies a wallpaper whose lowercased extension is
/// `lowered_ext`: videos go to the video hook, everything else to the image hook,
/// each only when its driver is on.
pub fn route_hook(
    lowered_ext: &str,
    drivers_image: bool,
    drivers_video: bool,
    has_video_hook: bool,
) -> (r: HookAction)
    ensures
        r == route_spec(lowered_ext@, drivers_image, drivers_video, has_video_hook),
{
    if is_video_ext(lowered_ext) {
        if !drivers_video {
            return HookAction::VideoDisabled;
        }
        if has_video_hook {
            HookAction::SpawnVideoHook
        } else {
            HookAction::VideoHookMissing
        }
    } else if !drivers_image {
        HookAction::ImageDisabled
    } else {
        HookAction::SpawnImageHook
    }
}

/// Decides how to apply `wallpaper`: by the lowercase form of its extension
/// (the empty text when there is none or it is not UTF-8).
pub fn run_theme_hook(
    wallpaper: &WallPath,
    drivers_image: bool,
    drivers_video: bool,
    hook_image: &WallPath,
    hook_video: Option<&WallPath>,
) -> (r: HookAction)
    ensures
        r == route_spec(
            str_lowercase(extension_text(wallpaper@)),
            drivers_image,
            drivers_video,
            hook_video is Some,
        ),
{
    let ext = wallpaper.extension();
    let empty = "";
    proof {
        reveal_strlit("");
        assert(empty@ =~= Seq::<char>::empty());
    }
    let lowered = match &ext {
        Some(e) => match utf8_str(e.as_slice()) {
            Some(s) => to_lowercase(s),
            None => to_lowercase(empty),
        },
        None => to_lowercase(empty),
    };
    assert(lowered@ == str_lowercase(extension_text(wallpaper@)));
    route_hook(lowered.as_str(), drivers_image, drivers_video, hook_video.is_some())
}

/// Decides how to apply `wallpaper` with the configured drivers and hooks.
pub fn apply_theme(wallpaper: &WallPath, config: &Config) -> (r: HookAction)
    ensures
        r == route_spec(
            str_lowercase(extension_text(wallpaper@)),
            config.drivers.image,
            config.drivers.video,
            config.hooks.video is Some,
        ),
{
    let hook_video: Option<&WallPath> = match &config.hooks.video {
        Some(h) => Some(h),
        None => None,
    };
    run_theme_hook(wallpaper, config.drivers.image, config.drivers.video, &config.hooks.image, hook_video)
}

} // verus!
