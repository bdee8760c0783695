use sha2::{Digest, Sha256};
use theme_picker::filesystem::{
    add_favorite, favorites_path, favorites_text, finish_favorites, parse_favorites, remove_favorite,
    select_wallpapers, thumbnail_cache_path, thumbnail_path_for_digest, to_hex_lower, has_image_extension,
};
use theme_picker::path::WallPath;

fn wp(s: &str) -> WallPath {
    WallPath::new(s.as_bytes().to_vec())
}

fn raws(list: &[WallPath]) -> Vec<String> {
    list.iter().map(|p| String::from_utf8(p.raw.clone()).unwrap()).collect()
}

#[test]
fn add_favorite_inserts_in_order() {
    let mut list = vec![wp("/w/a.png"), wp("/w/c.png")];
    assert!(add_favorite(&wp("/w/b.png"), &mut list));
    assert_eq!(raws(&list), vec!["/w/a.png", "/w/b.png", "/w/c.png"]);
}

#[test]
fn add_favorite_refuses_a_present_path() {
    let mut list = vec![wp("/w/a.png"), wp("/w/c.png")];
    assert!(!add_favorite(&wp("/w//a.png"), &mut list));
    assert_eq!(raws(&list), vec!["/w/a.png", "/w/c.png"]);
}

#[test]
fn add_favorite_twice_changes_nothing_the_second_time() {
    let mut list = vec![wp("/w/c.png")];
    assert!(add_favorite(&wp("/w/a.png"), &mut list));
    let after_first = raws(&list);
    assert!(!add_favorite(&wp("/w/a.png"), &mut list));
    assert_eq!(raws(&list), after_first);
}

#[test]
fn add_favorite_sorts_an_unsorted_list() {
    let mut list = vec![wp("/w/z.png"), wp("/w/m.png")];
    assert!(add_favorite(&wp("/w/a.png"), &mut list));
    assert_eq!(raws(&list), vec!["/w/a.png", "/w/m.png", "/w/z.png"]);
}

#[test]
fn remove_favorite_removes_every_equal_entry() {
    let mut list = vec![wp("/w/a.png"), wp("/w//a.png"), wp("/w/b.png")];
    assert!(remove_favorite(&wp("/w/a.png"), &mut list));
    assert_eq!(raws(&list), vec!["/w/b.png"]);
    assert!(!remove_favorite(&wp("/w/a.png"), &mut list));
    assert_eq!(raws(&list), vec!["/w/b.png"]);
}

#[test]
fn add_then_remove_gives_back_the_list() {
    let before = vec![wp("/w/a.png"), wp("/w/c.png"), wp("/w/d.png")];
    let mut list = vec![wp("/w/a.png"), wp("/w/c.png"), wp("/w/d.png")];
    assert!(add_favorite(&wp("/w/b.png"), &mut list));
    assert!(remove_favorite(&wp("/w/b.png"), &mut list));
    assert_eq!(raws(&list), raws(&before));
}

#[test]
fn hex_is_lowercase_two_digits_per_byte() {
    assert_eq!(to_hex_lower(&vec![0x0a, 0x14, 0x1e, 0xff, 0x00]), b"0a141eff00".to_vec());
    assert_eq!(to_hex_lower(&vec![]), Vec::<u8>::new());
}

#[test]
fn thumbnail_path_is_the_sha256_of_the_path_text() {
    let p = thumbnail_cache_path(&wp("abc"), &wp("/c"));
    assert_eq!(
        String::from_utf8(p.raw).unwrap(),
        "/c/ba7816bf8f01cfea414140de5dae2223b00361a396177a9cb410ff61f20015ad.jpg"
    );
    let p = thumbnail_cache_path(&wp(""), &wp("/c/"));
    assert_eq!(
        String::from_utf8(p.raw).unwrap(),
        "/c/e3b0c44298fc1c149afbf4c8996fb92427ae41e4649b934ca495991b7852b855.jpg"
    );
}

#[test]
fn thumbnail_path_of_a_non_utf8_path_hashes_its_lossy_text() {
    let source = WallPath::new(b"/w/a\xffb.png".to_vec());
    let text = String::from_utf8_lossy(&source.raw).into_owned();
    let hash = format!("{:x}", Sha256::digest(text.as_bytes()));
    let p = thumbnail_cache_path(&source, &wp("/c"));
    assert_eq!(String::from_utf8(p.raw).unwrap(), format!("/c/{}.jpg", hash));
}

#[test]
fn thumbnail_path_for_a_digest() {
    let p = thumbnail_path_for_digest(&vec![0xab, 0x01], &wp("cache"));
    assert_eq!(String::from_utf8(p.raw).unwrap(), "cache/ab01.jpg");
    let p = thumbnail_path_for_digest(&vec![0xab], &wp(""));
    assert_eq!(String::from_utf8(p.raw).unwrap(), "ab.jpg");
}

#[test]
fn favorites_file_lives_in_the_cache_dir() {
    assert_eq!(String::from_utf8(favorites_path(&wp("/c")).raw).unwrap(), "/c/favorites.txt");
    assert_eq!(String::from_utf8(favorites_path(&wp("/c/")).raw).unwrap(), "/c/favorites.txt");
}

#[test]
fn favorites_text_is_one_path_per_line() {
    let list = vec![wp("/w/a.png"), wp("/w/b c.png")];
    assert_eq!(String::from_utf8(favorites_text(&list)).unwrap(), "/w/a.png\n/w/b c.png");
    assert_eq!(favorites_text(&Vec::new()), Vec::<u8>::new());
}

#[test]
fn favorites_text_writes_invalid_utf8_lossily() {
    let list = vec![WallPath::new(b"/w/\xff.png".to_vec())];
    assert_eq!(String::from_utf8(favorites_text(&list)).unwrap(), "/w/\u{FFFD}.png");
}

#[test]
fn parse_favorites_trims_and_skips_blank_lines() {
    let got = parse_favorites("  /w/a.png \r\n\n\t\n/w/b.png\n   ");
    assert_eq!(raws(&got), vec!["/w/a.png", "/w/b.png"]);
    assert!(parse_favorites("").is_empty());
    assert_eq!(raws(&parse_favorites("/x")), vec!["/x"]);
}

#[test]
fn save_then_load_gives_back_the_favorites() {
    let list = vec![wp("/w/a.png"), wp("/w/b.png"), wp("/w/sub dir/c.jpg")];
    let text = String::from_utf8(favorites_text(&list)).unwrap();
    let parsed = parse_favorites(&text);
    let loaded = finish_favorites(&parsed, &vec![true; parsed.len()]);
    assert_eq!(raws(&loaded), raws(&list));
}

#[test]
fn save_then_load_of_unsorted_favorites_gives_them_sorted() {
    let list = vec![wp("/w/é.png"), wp("/w/b.png"), wp("/w/a.png")];
    let text = String::from_utf8(favorites_text(&list)).unwrap();
    let parsed = parse_favorites(&text);
    let loaded = finish_favorites(&parsed, &vec![true; parsed.len()]);
    assert_eq!(raws(&loaded), vec!["/w/a.png", "/w/b.png", "/w/é.png"]);
}

#[test]
fn finish_favorites_drops_missing_files_and_sorts() {
    let candidates = vec![wp("/w/z.png"), wp("/w/gone.png"), wp("/w/a.png")];
    let got = finish_favorites(&candidates, &vec![true, false, true]);
    assert_eq!(raws(&got), vec!["/w/a.png", "/w/z.png"]);
}

#[test]
fn image_extensions_are_case_insensitive() {
    assert!(has_image_extension(&wp("/w/a.PNG")));
    assert!(has_image_extension(&wp("/w/a.Jpeg")));
    assert!(has_image_extension(&wp("/w/a.webp")));
    assert!(!has_image_extension(&wp("/w/a.mp4")));
    assert!(!has_image_extension(&wp("/w/png")));
    assert!(!has_image_extension(&WallPath::new(b"/w/a.\xff".to_vec())));
}

#[test]
fn select_wallpapers_keeps_image_files_sorted() {
    let entries = vec![wp("/w"), wp("/w/b.JPG"), wp("/w/notes.txt"), wp("/w/a.png"), wp("/w/dir.png"), wp("/w/v.mp4")];
    let is_file = vec![false, true, true, true, false, true];
    let got = select_wallpapers(&entries, &is_file);
    assert_eq!(raws(&got), vec!["/w/a.png", "/w/b.JPG"]);
}
