use vstd::prelude::*;
use vstd::utf8::{valid_utf8, decode_utf8, encode_utf8, encode_utf8_decode_utf8, decode_utf8_encode_utf8};
use sha2::{Digest, Sha256};
use crate::hooks::{image_exts, is_image_ext, lemma_image_exts_are_the_four};
use crate::path::{WallPath, same_path, path_lt, lemma_path_order, join_spec, path_extension};
use crate::text::{
    str_lowercase, utf8_lossy, to_lowercase, utf8_str, lossy_string, str_chars, string_from_chars,
    string_bytes, trim, trim_bounds,
};
use crate::path_list::{
    views, class_of, in_class, is_sorted, stable_sort_of, contains_path, sort_paths,
    lemma_filter_none, lemma_filter_all, lemma_filter_member, lemma_stable_sort_unique,
};

verus! {

/// The predicate "is not the same path as `k`".
pub open spec fn not_path(k: Seq<u8>) -> spec_fn(Seq<u8>) -> bool {
    |p: Seq<u8>| !same_path(p, k)
}

/// Adds `path` to the favorites unless the list already holds that path, and
/// keeps the list sorted. Returns whether it was added.
pub fn add_favorite(path: &WallPath, list: &mut Vec<WallPath>) -> (added: bool)
    ensures
        added == !contains_path(views(old(list)@), path@),
        added ==> stable_sort_of(views(final(list)@), views(old(list)@).push(path@)),
        !added ==> final(list)@ == old(list)@,
{
    let n = list.len();
    let mut i: usize = 0;
    while i < n
        invariant
            n == list@.len(),
            i <= n,
            forall|j: int| 0 <= j < i ==> !same_path(#[trigger] views(list@)[j], path@),
        decreases n - i,
    {
        if list[i].same(path) {
            assert(views(list@)[i as int] == list@[i as int]@);
            return false;
        }
        i = i + 1;
    }
    let ghost before = views(list@);
    list.push(path.duplicate());
    assert(views(list@) =~= before.push(path@));
    sort_paths(list);
    true
}

/// Removes the favorite `path`: every entry that is the same path. Returns
/// whether any entry was removed.
pub fn remove_favorite(path: &WallPath, list: &mut Vec<WallPath>) -> (removed: bool)
    ensures
        views(final(list)@) == views(old(list)@).filter(not_path(path@)),
        removed == (final(list)@.len() != old(list)@.len()),
        removed == contains_path(views(old(list)@), path@),
{
    remove_path(path, list)
}

/// Removes every entry that is the same path as `path`. Returns whether any
/// entry was removed.
pub fn remove_path(path: &WallPath, list: &mut Vec<WallPath>) -> (removed: bool)
    ensures
        views(final(list)@) == views(old(list)@).filter(not_path(path@)),
        removed == (final(list)@.len() != old(list)@.len()),
        removed == contains_path(views(old(list)@), path@),
{
    let ghost input = views(list@);
    let n = list.len();
    let mut kept: Vec<WallPath> = Vec::new();
    let mut i: usize = 0;
    reveal(Seq::filter);
    assert(input.take(0) =~= Seq::<Seq<u8>>::empty());
    while i < n
        invariant
            n == list@.len(),
            input == views(list@),
            i <= n,
            views(kept@) == input.take(i as int).filter(not_path(path@)),
        decreases n - i,
    {
        reveal(Seq::filter);
        assert(input.take(i + 1).drop_last() =~= input.take(i as int));
        assert(input.take(i + 1).last() == list@[i as int]@);
        if !list[i].same(path) {
            let ghost k0 = views(kept@);
            kept.push(list[i].duplicate());
            assert(views(kept@) =~= k0.push(list@[i as int]@));
        }
        i = i + 1;
    }
    assert(input.take(n as int) =~= input);
    let removed = kept.len() != n;
    proof {
        if contains_path(input, path@) {
            let j = choose|j: int| 0 <= j < input.len() && same_path(#[trigger] input[j], path@);
            if !removed {
                // nothing was dropped, so every entry is kept, including entry j
                lemma_filter_keeps_all_when_len_equal(input, not_path(path@));
                assert(input.filter(not_path(path@))[j] == input[j]);
                input.lemma_filter_pred(not_path(path@), j);
            }
        } else {
            assert forall|j: int| 0 <= j < input.len() implies not_path(path@)(#[trigger] input[j]) by {
                assert(!same_path(input[j], path@));
            }
            lemma_filter_all(input, not_path(path@));
        }
    }
    *list = kept;
    removed
}

/// A filter that keeps as many entries as the sequence has keeps the sequence.
proof fn lemma_filter_keeps_all_when_len_equal<A>(s: Seq<A>, pred: spec_fn(A) -> bool)
    requires
        s.filter(pred).len() == s.len(),
    ensures
        s.filter(pred) == s,
    decreases s.len(),
{
    reveal(Seq::filter);
    if s.len() > 0 {
        s.drop_last().lemma_filter_len(pred);
        if !pred(s.last()) {
            assert(false);
        }
        lemma_filter_keeps_all_when_len_equal(s.drop_last(), pred);
        assert(s.drop_last().push(s.last()) =~= s);
    }
}

/// Filtering a sorted sequence leaves it sorted.
pub proof fn lemma_filter_sorted(s: Seq<Seq<u8>>, pred: spec_fn(Seq<u8>) -> bool)
    requires
        is_sorted(s),
    ensures
        is_sorted(s.filter(pred)),
    decreases s.len(),
{
    reveal(Seq::filter);
    if s.len() > 0 {
        let d = s.drop_last();
        assert forall|i: int, j: int| 0 <= i < j < d.len() implies !path_lt(#[trigger] d[j], #[trigger] d[i]) by {
            assert(d[i] == s[i] && d[j] == s[j]);
        }
        lemma_filter_sorted(d, pred);
        if pred(s.last()) {
            let f = d.filter(pred);
            let g = s.filter(pred);
            assert forall|i: int, j: int| 0 <= i < j < g.len() implies !path_lt(#[trigger] g[j], #[trigger] g[i]) by {
                if j == g.len() - 1 {
                    lemma_filter_member(d, pred, i);
                    let m = choose|m: int| 0 <= m < d.len() && d[m] == f[i];
                    assert(g[i] == f[i]);
                    assert(s[m] == d[m]);
                    assert(!path_lt(s[s.len() - 1], s[m]));
                } else {
                    assert(g[i] == f[i] && g[j] == f[j]);
                }
            }
        }
    }
}

/// Filtering by `f` and then by `g`, where `g` implies `f`, is filtering by `g`.
pub proof fn lemma_filter_filter<A>(s: Seq<A>, f: spec_fn(A) -> bool, g: spec_fn(A) -> bool)
    requires
        forall|x: A| #[trigger] g(x) ==> f(x),
    ensures
        s.filter(f).filter(g) == s.filter(g),
    decreases s.len(),
{
    reveal(Seq::filter);
    if s.len() > 0 {
        let d = s.drop_last();
        lemma_filter_filter(d, f, g);
        if f(s.last()) {
            let fs = s.filter(f);
            assert(fs == d.filter(f).push(s.last()));
            assert(fs.drop_last() =~= d.filter(f));
            assert(fs.last() == s.last());
        }
    }
}

/// Adding a path the sorted favorites do not hold, and then removing it,
/// gives back the favorites unchanged.
pub proof fn lemma_add_then_remove(
    list: Seq<Seq<u8>>,
    p: Seq<u8>,
    added: Seq<Seq<u8>>,
    removed: Seq<Seq<u8>>,
)
    requires
        is_sorted(list),
        !contains_path(list, p),
        stable_sort_of(added, list.push(p)),
        removed == added.filter(not_path(p)),
    ensures
        removed == list,
{
    lemma_path_order();
    lemma_filter_sorted(added, not_path(p));
    assert forall|k: Seq<u8>| #[trigger] class_of(removed, k) == class_of(list, k) by {
        reveal(Seq::filter);
        assert(list.push(p).drop_last() =~= list);
        if same_path(p, k) {
            assert forall|j: int| 0 <= j < removed.len() implies !in_class(k)(#[trigger] removed[j]) by {
                added.lemma_filter_pred(not_path(p), j);
            }
            lemma_filter_none(removed, in_class(k));
            assert forall|j: int| 0 <= j < list.len() implies !in_class(k)(#[trigger] list[j]) by {
                if same_path(list[j], k) {
                    assert(same_path(list[j], p));
                }
            }
            lemma_filter_none(list, in_class(k));
        } else {
            assert forall|x: Seq<u8>| #[trigger] in_class(k)(x) implies not_path(p)(x) by {}
            lemma_filter_filter(added, not_path(p), in_class(k));
            assert(class_of(added, k) == class_of(list.push(p), k));
        }
    }
    lemma_stable_sort_unique(removed, list);
}

/// After a path has been added, the favorites hold it, so adding it again
/// returns `false` and changes nothing.
pub proof fn lemma_added_is_present(list: Seq<Seq<u8>>, p: Seq<u8>, added: Seq<Seq<u8>>)
    requires
        stable_sort_of(added, list.push(p)),
    ensures
        contains_path(added, p),
{
    reveal(Seq::filter);
    assert(list.push(p).drop_last() =~= list);
    assert(same_path(p, p));
    let c = class_of(added, p);
    assert(c == class_of(list.push(p), p));
    assert(c.len() > 0);
    lemma_filter_member(added, in_class(p), c.len() - 1);
    let i = choose|i: int| 0 <= i < added.len() && added[i] == c[c.len() - 1];
    added.lemma_filter_pred(in_class(p), c.len() - 1);
    assert(same_path(added[i], p));
}

/// After a path has been removed, the favorites no longer hold it.
pub proof fn lemma_removed_is_absent(list: Seq<Seq<u8>>, p: Seq<u8>)
    ensures
        !contains_path(list.filter(not_path(p)), p),
{
    let r = list.filter(not_path(p));
    assert forall|i: int| 0 <= i < r.len() implies !same_path(#[trigger] r[i], p) by {
        list.lemma_filter_pred(not_path(p), i);
    }
}

/// The SHA-256 digest of `data`, as the `sha2` crate computes it. Not written out here.
pub uninterp spec fn sha256(data: Seq<u8>) -> Seq<u8>;

/// Calls `sha2::Sha256` (new, update, finalize). The digest is named by
/// `sha256`; its length is 32 bytes, the output size of SHA-256.
#[verifier::external_body]
fn sha256_digest(data: &[u8]) -> (r: Vec<u8>)
    ensures
        r@ == sha256(data@),
        r@.len() == 32,
{
    let mut hasher = Sha256::new();
    hasher.update(data);
    hasher.finalize().to_vec()
}

/// The lowercase hexadecimal digit of `v` (0 to 15).
pub open spec fn hex_digit(v: int) -> u8 {
    if v < 10 {
        (48 + v) as u8
    } else {
        (87 + v) as u8
    }
}

/// The lowercase hexadecimal text of `bytes`, two digits per byte.
pub open spec fn hex_lower(bytes: Seq<u8>) -> Seq<u8>
    decreases bytes.len(),
{
    if bytes.len() == 0 {
        Seq::empty()
    } else {
        hex_lower(bytes.drop_last()) + seq![hex_digit(bytes.last() as int / 16), hex_digit(bytes.last() as int % 16)]
    }
}

/// The lowercase hexadecimal text of `bytes`.
pub fn to_hex_lower(bytes: &Vec<u8>) -> (r: Vec<u8>)
    ensures
        r@ == hex_lower(bytes@),
{
    let mut out: Vec<u8> = Vec::new();
    let mut i: usize = 0;
    while i < bytes.len()
        invariant
            i <= bytes@.len(),
            out@ == hex_lower(bytes@.take(i as int)),
        decreases bytes@.len() - i,
    {
        let b = bytes[i];
        let hi: u8 = b / 16;
        let lo: u8 = b % 16;
        let h: u8 = if hi < 10 { 48 + hi } else { 87 + hi };
        let l: u8 = if lo < 10 { 48 + lo } else { 87 + lo };
        out.push(h);
        out.push(l);
        assert(bytes@.take(i + 1).drop_last() =~= bytes@.take(i as int));
        assert(out@ =~= hex_lower(bytes@.take(i + 1)));
        i = i + 1;
    }
    assert(bytes@.take(bytes@.len() as int) =~= bytes@);
    out
}

/// The file name of a thumbnail: the hex digest followed by `.jpg`.
pub open spec fn thumbnail_name(digest: Seq<u8>) -> Seq<u8> {
    hex_lower(digest) + seq![46u8, 106u8, 112u8, 103u8]
}

/// The bytes of a path's text as shown to the user (`to_string_lossy`).
pub open spec fn display_bytes(raw: Seq<u8>) -> Seq<u8> {
    encode_utf8(utf8_lossy(raw))
}

/// The thumbnail path in `cache_dir` for a source whose digest is `digest`.
pub fn thumbnail_path_for_digest(digest: &Vec<u8>, cache_dir: &WallPath) -> (r: WallPath)
    ensures
        r@ == join_spec(cache_dir@, thumbnail_name(digest@)),
{
    let mut name = to_hex_lower(digest);
    let ghost hex = name@;
    name.push(46);
    name.push(106);
    name.push(112);
    name.push(103);
    assert(name@ =~= thumbnail_name(digest@));
    cache_dir.join(&name)
}

/// The cached thumbnail's path for `source`: named by the SHA-256 digest of the
/// source path's text, in `cache_dir`.
pub fn thumbnail_cache_path(source: &WallPath, cache_dir: &WallPath) -> (r: WallPath)
    ensures
        r@ == join_spec(cache_dir@, thumbnail_name(sha256(display_bytes(source@)))),
        valid_utf8(source@) ==> r@ == join_spec(cache_dir@, thumbnail_name(sha256(source@))),
{
    let text = lossy_string(source.raw.as_slice());
    let bytes = string_bytes(&text);
    proof {
        if valid_utf8(source@) {
            decode_utf8_encode_utf8(source@);
        }
    }
    let digest = sha256_digest(bytes.as_slice());
    thumbnail_path_for_digest(&digest, cache_dir)
}

/// The name of the favorites file, `favorites.txt`.
pub open spec fn favorites_file_name() -> Seq<u8> {
    seq![102u8, 97u8, 118u8, 111u8, 114u8, 105u8, 116u8, 101u8, 115u8, 46u8, 116u8, 120u8, 116u8]
}

/// The path of the favorites file in `cache_dir`.
pub fn favorites_path(cache_dir: &WallPath) -> (r: WallPath)
    ensures
        r@ == join_spec(cache_dir@, favorites_file_name()),
{
    let mut name: Vec<u8> = Vec::new();
    name.push(102);
    name.push(97);
    name.push(118);
    name.push(111);
    name.push(114);
    name.push(105);
    name.push(116);
    name.push(101);
    name.push(115);
    name.push(46);
    name.push(116);
    name.push(120);
    name.push(116);
    assert(name@ =~= favorites_file_name());
    cache_dir.join(&name)
}

/// The line feed character.
pub open spec fn newline() -> char {
    '\n'
}

/// The texts joined with a line feed between each two.
pub open spec fn join_lines(items: Seq<Seq<char>>) -> Seq<char>
    decreases items.len(),
{
    if items.len() == 0 {
        Seq::empty()
    } else if items.len() == 1 {
        items[0]
    } else {
        join_lines(items.drop_last()) + seq![newline()] + items.last()
    }
}

/// The text of the favorites file for `list`: each path's text on a line of its own.
pub open spec fn favorites_text_spec(list: Seq<Seq<u8>>) -> Seq<char> {
    join_lines(list.map_values(|p: Seq<u8>| utf8_lossy(p)))
}

/// The bytes written to the favorites file for `list`.
pub fn favorites_text(list: &Vec<WallPath>) -> (r: Vec<u8>)
    ensures
        r@ == encode_utf8(favorites_text_spec(views(list@))),
        all_valid_utf8(views(list@)) ==> r@ == encode_utf8(join_lines(decoded_texts(views(list@)))),
{
    let ghost items = views(list@).map_values(|p: Seq<u8>| utf8_lossy(p));
    let mut chars: Vec<char> = Vec::new();
    let mut i: usize = 0;
    assert(items.take(0) =~= Seq::<Seq<char>>::empty());
    while i < list.len()
        invariant
            i <= list@.len(),
            items == views(list@).map_values(|p: Seq<u8>| utf8_lossy(p)),
            chars@ == join_lines(items.take(i as int)),
            forall|j: int|
                0 <= j < i ==> valid_utf8(#[trigger] list@[j]@) ==> utf8_lossy(list@[j]@) == decode_utf8(
                    list@[j]@,
                ),
        decreases list@.len() - i,
    {
        let s = lossy_string(list[i].raw.as_slice());
        let part = str_chars(s.as_str());
        assert(part@ == items[i as int]);
        let ghost before = chars@;
        if i > 0 {
            chars.push('\n');
        }
        let mut j: usize = 0;
        let ghost mid = chars@;
        while j < part.len()
            invariant
                j <= part@.len(),
                chars@ == mid + part@.take(j as int),
            decreases part@.len() - j,
        {
            chars.push(part[j]);
            assert(part@.take(j + 1) =~= part@.take(j as int).push(part@[j as int]));
            j = j + 1;
        }
        assert(part@.take(part@.len() as int) =~= part@);
        assert(items.take(i + 1).drop_last() =~= items.take(i as int));
        assert(chars@ =~= join_lines(items.take(i + 1)));
        i = i + 1;
    }
    assert(items.take(list@.len() as int) =~= items);
    proof {
        if all_valid_utf8(views(list@)) {
            assert(items =~= decoded_texts(views(list@))) by {
                assert forall|j: int| 0 <= j < items.len() implies items[j] == decoded_texts(
                    views(list@),
                )[j] by {
                    assert(valid_utf8(views(list@)[j]));
                }
            }
        }
    }
    let text = string_from_chars(chars.as_slice());
    string_bytes(&text)
}

/// The path a favorites line stands for: its trimmed text, when that is not empty.
pub open spec fn line_entry(line: Seq<char>) -> Seq<Seq<u8>> {
    if trim(line).len() == 0 {
        Seq::empty()
    } else {
        seq![encode_utf8(trim(line))]
    }
}

/// Reads `text` from left to right: the paths of the lines closed by a line
/// feed so far, and the characters of the line still open.
pub open spec fn scan_lines(text: Seq<char>) -> (Seq<Seq<u8>>, Seq<char>)
    decreases text.len(),
{
    if text.len() == 0 {
        (Seq::empty(), Seq::empty())
    } else {
        let prev = scan_lines(text.drop_last());
        if text.last() == newline() {
            (prev.0 + line_entry(prev.1), Seq::empty())
        } else {
            (prev.0, prev.1.push(text.last()))
        }
    }
}

/// The paths listed in a favorites file: one per line that is not blank,
/// with white space trimmed from both ends.
pub open spec fn favorite_entries(text: Seq<char>) -> Seq<Seq<u8>> {
    scan_lines(text).0 + line_entry(scan_lines(text).1)
}

/// Appends the path of the line `chars[start..end]`, if it has one.
fn push_line_entry(out: &mut Vec<WallPath>, chars: &Vec<char>, start: usize, end: usize)
    requires
        start <= end <= chars@.len(),
    ensures
        views(final(out)@) == views(old(out)@) + line_entry(chars@.subrange(start as int, end as int)),
{
    let (lo, hi) = trim_bounds(chars, start, end);
    let ghost before = views(out@);
    if lo < hi {
        let mut line: Vec<char> = Vec::new();
        let mut j: usize = lo;
        while j < hi
            invariant
                lo <= j <= hi,
                hi <= chars@.len(),
                line@ == chars@.subrange(lo as int, j as int),
            decreases hi - j,
        {
            line.push(chars[j]);
            assert(chars@.subrange(lo as int, j + 1) =~= chars@.subrange(lo as int, j as int).push(chars@[j as int]));
            j = j + 1;
        }
        let s = string_from_chars(line.as_slice());
        let raw = string_bytes(&s);
        out.push(WallPath::new(raw));
        assert(views(out@) =~= before + line_entry(chars@.subrange(start as int, end as int)));
    } else {
        assert(views(out@) =~= before + line_entry(chars@.subrange(start as int, end as int)));
    }
}

/// The paths listed in the favorites file text, in file order.
pub fn parse_favorites(text: &str) -> (r: Vec<WallPath>)
    ensures
        views(r@) == favorite_entries(text@),
{
    let chars = str_chars(text);
    let n = chars.len();
    let mut out: Vec<WallPath> = Vec::new();
    let mut start: usize = 0;
    let mut i: usize = 0;
    assert(chars@.take(0) =~= Seq::<char>::empty());
    assert(views(out@) =~= Seq::<Seq<u8>>::empty());
    while i < n
        invariant
            n == chars@.len(),
            start <= i <= n,
            views(out@) == scan_lines(chars@.take(i as int)).0,
            chars@.subrange(start as int, i as int) == scan_lines(chars@.take(i as int)).1,
        decreases n - i,
    {
        assert(chars@.take(i + 1).drop_last() =~= chars@.take(i as int));
        assert(chars@.take(i + 1).last() == chars@[i as int]);
        if chars[i] == '\n' {
            push_line_entry(&mut out, &chars, start, i);
            start = i + 1;
            assert(chars@.subrange(start as int, i + 1) =~= Seq::<char>::empty());
        } else {
            assert(chars@.subrange(start as int, i + 1) =~= chars@.subrange(start as int, i as int).push(chars@[i as int]));
        }
        i = i + 1;
    }
    assert(chars@.take(n as int) =~= chars@);
    push_line_entry(&mut out, &chars, start, n);
    out
}

/// The entries of `s` whose flag is set, in order.
pub open spec fn flagged(s: Seq<Seq<u8>>, flags: Seq<bool>) -> Seq<Seq<u8>>
    decreases s.len(),
{
    if s.len() == 0 || flags.len() < s.len() {
        Seq::empty()
    } else {
        let prev = flagged(s.drop_last(), flags);
        if flags[s.len() - 1] {
            prev.push(s.last())
        } else {
            prev
        }
    }
}

/// Keeps the entries whose flag is set, then sorts them stably.
fn keep_flagged_sorted(entries: &Vec<WallPath>, flags: &Vec<bool>) -> (r: Vec<WallPath>)
    requires
        flags@.len() == entries@.len(),
    ensures
        stable_sort_of(views(r@), flagged(views(entries@), flags@)),
{
    let mut out: Vec<WallPath> = Vec::new();
    let mut i: usize = 0;
    assert(views(entries@).take(0) =~= Seq::<Seq<u8>>::empty());
    assert(views(out@) =~= Seq::<Seq<u8>>::empty());
    while i < entries.len()
        invariant
            i <= entries@.len(),
            flags@.len() == entries@.len(),
            views(out@) == flagged(views(entries@).take(i as int), flags@),
        decreases entries@.len() - i,
    {
        let ghost before = views(out@);
        assert(views(entries@).take(i + 1).drop_last() =~= views(entries@).take(i as int));
        if flags[i] {
            out.push(entries[i].duplicate());
            assert(views(out@) =~= before.push(entries@[i as int]@));
        }
        i = i + 1;
    }
    assert(views(entries@).take(entries@.len() as int) =~= views(entries@));
    sort_paths(&mut out);
    out
}

/// The favorites, given the paths listed in the file and whether each is an
/// existing file: the existing ones, sorted.
pub fn finish_favorites(candidates: &Vec<WallPath>, is_file: &Vec<bool>) -> (r: Vec<WallPath>)
    requires
        is_file@.len() == candidates@.len(),
    ensures
        stable_sort_of(views(r@), flagged(views(candidates@), is_file@)),
{
    keep_flagged_sorted(candidates, is_file)
}

/// The path names a wallpaper image: its extension is UTF-8 and, lowercased,
/// one of the image extensions.
pub open spec fn is_image_file(raw: Seq<u8>) -> bool {
    match path_extension(raw) {
        Some(e) => valid_utf8(e) && image_exts().contains(str_lowercase(decode_utf8(e))),
        None => false,
    }
}

/// A path is an image file exactly when its extension is valid UTF-8 and,
/// lowercased, is png, jpg, jpeg or webp; so no other file is ever selected
/// as a wallpaper.
pub proof fn lemma_image_file_extensions(raw: Seq<u8>)
    ensures
        is_image_file(raw) <==> (match path_extension(raw) {
            Some(e) => valid_utf8(e) && ({
                let l = str_lowercase(decode_utf8(e));
                l == seq!['p', 'n', 'g'] || l == seq!['j', 'p', 'g'] || l == seq!['j', 'p', 'e', 'g']
                    || l == seq!['w', 'e', 'b', 'p']
            }),
            None => false,
        }),
{
    if let Some(e) = path_extension(raw) {
        lemma_image_exts_are_the_four(str_lowercase(decode_utf8(e)));
    }
}

/// Whether `path`'s extension marks an image.
pub fn has_image_extension(path: &WallPath) -> (r: bool)
    ensures
        r == is_image_file(path@),
{
    match path.extension() {
        Some(e) => match utf8_str(e.as_slice()) {
            Some(s) => {
                let lowered = to_lowercase(s);
                is_image_ext(lowered.as_str())
            },
            None => false,
        },
        None => false,
    }
}

/// The wallpapers among the directory's entries: the files with an image
/// extension, sorted.
pub fn select_wallpapers(entries: &Vec<WallPath>, is_file: &Vec<bool>) -> (r: Vec<WallPath>)
    requires
        is_file@.len() == entries@.len(),
    ensures
        stable_sort_of(
            views(r@),
            flagged(
                views(entries@),
                Seq::new(entries@.len(), |i: int| is_file@[i] && is_image_file(entries@[i]@)),
            ),
        ),
{
    let mut flags: Vec<bool> = Vec::new();
    let mut i: usize = 0;
    while i < entries.len()
        invariant
            i <= entries@.len(),
            is_file@.len() == entries@.len(),
            flags@.len() == i,
            forall|j: int| 0 <= j < i ==> flags@[j] == (is_file@[j] && is_image_file(entries@[j]@)),
        decreases entries@.len() - i,
    {
        let keep = is_file[i] && has_image_extension(&entries[i]);
        flags.push(keep);
        i = i + 1;
    }
    assert(flags@ =~= Seq::new(entries@.len(), |i: int| is_file@[i] && is_image_file(entries@[i]@)));
    keep_flagged_sorted(entries, &flags)
}

/// Appending text without line feeds only extends the open line.
proof fn lemma_scan_lines_append(x: Seq<char>, t: Seq<char>)
    requires
        !t.contains(newline()),
    ensures
        scan_lines(x + t) == (scan_lines(x).0, scan_lines(x).1 + t),
    decreases t.len(),
{
    if t.len() == 0 {
        assert(x + t =~= x);
        assert(scan_lines(x).1 + t =~= scan_lines(x).1);
    } else {
        let t2 = t.drop_last();
        assert(!t2.contains(newline())) by {
            if t2.contains(newline()) {
                let k = choose|k: int| 0 <= k < t2.len() && t2[k] == newline();
                assert(t[k] == newline());
            }
        }
        lemma_scan_lines_append(x, t2);
        assert((x + t).drop_last() =~= x + t2);
        assert((x + t).last() == t.last());
        assert(t.last() != newline()) by {
            if t.last() == newline() {
                assert(t[t.len() - 1] == newline());
            }
        }
        assert((scan_lines(x).1 + t2).push(t.last()) =~= scan_lines(x).1 + t);
    }
}

/// Every path is valid UTF-8.
pub open spec fn all_valid_utf8(list: Seq<Seq<u8>>) -> bool {
    forall|i: int| 0 <= i < list.len() ==> valid_utf8(#[trigger] list[i])
}

/// The texts that the paths encode.
pub open spec fn decoded_texts(list: Seq<Seq<u8>>) -> Seq<Seq<char>> {
    list.map_values(|p: Seq<u8>| decode_utf8(p))
}

/// Each path is valid UTF-8 whose text is not blank, has no white space at
/// its ends and no line feed.
pub open spec fn writable_favorites(list: Seq<Seq<u8>>) -> bool {
    &&& all_valid_utf8(list)
    &&& forall|i: int| 0 <= i < list.len() ==> trim(#[trigger] decode_utf8(list[i])) == decode_utf8(list[i])
    &&& forall|i: int| 0 <= i < list.len() ==> (#[trigger] decode_utf8(list[i])).len() > 0
    &&& forall|i: int| 0 <= i < list.len() ==> !(#[trigger] decode_utf8(list[i])).contains(newline())
}

/// After the first `k` lines of the favorites text, the closed lines hold the
/// first `k - 1` paths and the open line is the text of path `k - 1`.
proof fn lemma_scan_joined(list: Seq<Seq<u8>>, k: int)
    requires
        writable_favorites(list),
        1 <= k <= list.len(),
    ensures
        scan_lines(join_lines(decoded_texts(list).take(k))) == (list.take(k - 1), decoded_texts(list)[k - 1]),
    decreases k,
{
    let items = decoded_texts(list);
    assert(items[k - 1] == decode_utf8(list[k - 1]));
    if k == 1 {
        assert(items.take(1).len() == 1);
        assert(join_lines(items.take(1)) == items[0]);
        lemma_scan_lines_append(Seq::<char>::empty(), items[0]);
        assert(Seq::<char>::empty() + items[0] =~= items[0]);
        assert(Seq::<char>::empty() + items[0] =~= scan_lines(Seq::<char>::empty()).1 + items[0]);
        assert(list.take(0) =~= Seq::<Seq<u8>>::empty());
    } else {
        lemma_scan_joined(list, k - 1);
        let x = join_lines(items.take(k - 1));
        assert(items.take(k).drop_last() =~= items.take(k - 1));
        assert(items.take(k).last() == items[k - 1]);
        assert(join_lines(items.take(k)) == x + seq![newline()] + items[k - 1]);
        assert(x + seq![newline()] =~= x.push(newline()));
        assert(x.push(newline()).drop_last() =~= x);
        assert(items[k - 2] == decode_utf8(list[k - 2]));
        assert(valid_utf8(list[k - 2]));
        decode_utf8_encode_utf8(list[k - 2]);
        assert(line_entry(items[k - 2]) == seq![list[k - 2]]);
        assert(list.take(k - 2) + seq![list[k - 2]] =~= list.take(k - 1));
        lemma_scan_lines_append(x.push(newline()), items[k - 1]);
        assert(Seq::<char>::empty() + items[k - 1] =~= items[k - 1]);
    }
}

/// Reading back the text written for favorites gives the same paths, in the
/// same order, when each path is valid UTF-8 whose text is not blank, has no
/// white space at its ends and no line feed.
pub proof fn lemma_favorites_round_trip(list: Seq<Seq<u8>>)
    requires
        writable_favorites(list),
    ensures
        favorite_entries(decode_utf8(encode_utf8(join_lines(decoded_texts(list))))) == list,
{
    let items = decoded_texts(list);
    encode_utf8_decode_utf8(join_lines(items));
    let n = list.len() as int;
    if n == 0 {
        assert(items =~= Seq::<Seq<char>>::empty());
        assert(favorite_entries(Seq::<char>::empty()) =~= Seq::<Seq<u8>>::empty());
    } else {
        lemma_scan_joined(list, n);
        assert(items.take(n) =~= items);
        assert(items[n - 1] == decode_utf8(list[n - 1]));
        assert(valid_utf8(list[n - 1]));
        decode_utf8_encode_utf8(list[n - 1]);
        assert(line_entry(items[n - 1]) == seq![list[n - 1]]);
        assert(list.take(n - 1) + seq![list[n - 1]] =~= list);
    }
}

/// With every flag set, nothing is dropped.
proof fn lemma_flagged_all(s: Seq<Seq<u8>>, flags: Seq<bool>)
    requires
        flags.len() >= s.len(),
        forall|i: int| 0 <= i < flags.len() ==> #[trigger] flags[i],
    ensures
        flagged(s, flags) == s,
    decreases s.len(),
{
    if s.len() > 0 {
        lemma_flagged_all(s.drop_last(), flags);
        assert(s.drop_last().push(s.last()) =~= s);
    }
}

/// Saving favorites and loading them again, with every listed file still
/// present, gives back the favorites sorted; sorted favorites come back as
/// they were. `written` is what `favorites_text` produced for `list` and
/// `text` what reading the file gives.
pub proof fn lemma_reload_favorites(
    list: Seq<Seq<u8>>,
    written: Seq<u8>,
    text: Seq<char>,
    is_file: Seq<bool>,
    loaded: Seq<Seq<u8>>,
)
    requires
        writable_favorites(list),
        written == encode_utf8(join_lines(decoded_texts(list))),
        text == decode_utf8(written),
        is_file.len() == list.len(),
        forall|i: int| 0 <= i < is_file.len() ==> #[trigger] is_file[i],
        stable_sort_of(loaded, flagged(favorite_entries(text), is_file)),
    ensures
        stable_sort_of(loaded, list),
        is_sorted(list) ==> loaded == list,
{
    lemma_favorites_round_trip(list);
    lemma_flagged_all(list, is_file);
    if is_sorted(list) {
        lemma_stable_sort_unique(loaded, list);
    }
}

} // verus!
