use vstd::prelude::*;
use crate::lex::{Order, keys_lt, keys_view, compare_keys, lemma_keys_order_strict_total};

verus! {

/// The separator byte `/`.
pub const SLASH: u8 = 47;
/// The byte `.`.
pub const DOT: u8 = 46;

/// Tag of the root-directory component in a component key.
pub const ROOT_TAG: u8 = 0;
/// Tag of the current-directory component (a leading `.`).
pub const CUR_TAG: u8 = 1;
/// Tag of the parent-directory component (`..`).
pub const PARENT_TAG: u8 = 2;
/// Tag of an ordinary named component; the name's bytes follow the tag.
pub const NORMAL_TAG: u8 = 3;

/// A file-system path, held as the raw bytes of its text.
///
/// Two paths are the same path when their components are the same, and paths
/// are ordered by their components. A component is represented by a key: a tag
/// byte (root, current directory, parent directory, name) followed, for a name,
/// by its bytes. The tags are ordered as the kinds of components are.
#[derive(Clone, Debug)]
pub struct WallPath {
    pub raw: Vec<u8>,
}

impl View for WallPath {
    type V = Seq<u8>;

    open spec fn view(&self) -> Seq<u8> {
        self.raw@
    }
}

/// The component keys that one separator-free segment contributes:
/// nothing for an empty segment or `.`, a parent key for `..`,
/// a name key otherwise.
pub open spec fn segment_parts(seg: Seq<u8>) -> Seq<Seq<u8>> {
    if seg.len() == 0 || seg == seq![DOT] {
        Seq::empty()
    } else if seg == seq![DOT, DOT] {
        seq![seq![PARENT_TAG]]
    } else {
        seq![seq![NORMAL_TAG] + seg]
    }
}

/// Reads `raw` from left to right: the keys of the segments closed by a
/// separator so far, and the bytes of the segment still open.
pub open spec fn scan_segments(raw: Seq<u8>) -> (Seq<Seq<u8>>, Seq<u8>)
    decreases raw.len(),
{
    if raw.len() == 0 {
        (Seq::empty(), Seq::empty())
    } else {
        let prev = scan_segments(raw.drop_last());
        if raw.last() == SLASH {
            (prev.0 + segment_parts(prev.1), Seq::empty())
        } else {
            (prev.0, prev.1.push(raw.last()))
        }
    }
}

/// The keys of all separator-delimited segments of `raw`.
pub open spec fn body_parts(raw: Seq<u8>) -> Seq<Seq<u8>> {
    scan_segments(raw).0 + segment_parts(scan_segments(raw).1)
}

/// The path starts at the root.
pub open spec fn has_root(raw: Seq<u8>) -> bool {
    raw.len() > 0 && raw[0] == SLASH
}

/// The path is relative and starts with the segment `.`.
pub open spec fn has_cur_dir(raw: Seq<u8>) -> bool {
    !has_root(raw) && raw.len() > 0 && raw[0] == DOT && (raw.len() == 1 || raw[1] == SLASH)
}

/// The keys that come before the segments: the root, or a leading `.`.
pub open spec fn lead_parts(raw: Seq<u8>) -> Seq<Seq<u8>> {
    if has_root(raw) {
        seq![seq![ROOT_TAG]]
    } else if has_cur_dir(raw) {
        seq![seq![CUR_TAG]]
    } else {
        Seq::empty()
    }
}

/// The component keys of the path `raw`.
pub open spec fn path_components(raw: Seq<u8>) -> Seq<Seq<u8>> {
    lead_parts(raw) + body_parts(raw)
}

/// `a` and `b` name the same path: their components are equal.
pub open spec fn same_path(a: Seq<u8>, b: Seq<u8>) -> bool {
    path_components(a) == path_components(b)
}

/// `a` comes before `b`: its components are lexicographically smaller.
pub open spec fn path_lt(a: Seq<u8>, b: Seq<u8>) -> bool {
    keys_lt(path_components(a), path_components(b))
}

/// The last component's name, when the last component is a name.
pub open spec fn file_name(raw: Seq<u8>) -> Option<Seq<u8>> {
    let c = path_components(raw);
    if c.len() > 0 && c.last().len() > 0 && c.last()[0] == NORMAL_TAG {
        Some(c.last().drop_first())
    } else {
        None
    }
}

/// Index of the last `.` in `name`, or -1 when it has none.
pub open spec fn last_dot(name: Seq<u8>) -> int
    decreases name.len(),
{
    if name.len() == 0 {
        -1
    } else if name.last() == DOT {
        name.len() - 1
    } else {
        last_dot(name.drop_last())
    }
}

/// The extension of a file name: the bytes after its last `.`, when that
/// `.` is not the first byte.
pub open spec fn name_extension(name: Seq<u8>) -> Option<Seq<u8>> {
    let d = last_dot(name);
    if d > 0 {
        Some(name.skip(d + 1))
    } else {
        None
    }
}

/// The extension of the path's file name.
pub open spec fn path_extension(raw: Seq<u8>) -> Option<Seq<u8>> {
    match file_name(raw) {
        Some(n) => name_extension(n),
        None => None,
    }
}

/// `base` joined with `name`: an absolute `name` replaces `base`; otherwise a
/// separator is put between them when `base` is not empty and does not end in one.
pub open spec fn join_spec(base: Seq<u8>, name: Seq<u8>) -> Seq<u8> {
    if has_root(name) {
        name
    } else if base.len() > 0 && base.last() != SLASH {
        base + seq![SLASH] + name
    } else {
        base + name
    }
}

proof fn lemma_last_dot_range(name: Seq<u8>)
    ensures
        -1 <= last_dot(name) < name.len(),
        last_dot(name) >= 0 ==> name[last_dot(name)] == DOT,
        forall|j: int| last_dot(name) < j < name.len() ==> name[j] != DOT,
    decreases name.len(),
{
    if name.len() > 0 && name.last() != DOT {
        lemma_last_dot_range(name.drop_last());
        assert forall|j: int| last_dot(name) < j < name.len() implies name[j] != DOT by {
            if j < name.len() - 1 {
                assert(name[j] == name.drop_last()[j]);
            }
        }
    }
}

/// Appends the keys of one segment.
fn push_segment(res: &mut Vec<Vec<u8>>, seg: &Vec<u8>)
    ensures
        keys_view(final(res)@) == keys_view(old(res)@) + segment_parts(seg@),
{
    let ghost old_keys = keys_view(res@);
    if seg.len() == 0 || (seg.len() == 1 && seg[0] == DOT) {
        assert(seg@.len() == 1 ==> seg@ =~= seq![DOT]);
        assert(keys_view(res@) =~= old_keys + segment_parts(seg@));
    } else if seg.len() == 2 && seg[0] == DOT && seg[1] == DOT {
        assert(seg@ =~= seq![DOT, DOT]);
        let mut k: Vec<u8> = Vec::new();
        k.push(PARENT_TAG);
        res.push(k);
        assert(keys_view(res@) =~= old_keys + segment_parts(seg@));
    } else {
        assert(seg@ != seq![DOT]);
        assert(seg@ != seq![DOT, DOT]);
        let mut k: Vec<u8> = Vec::new();
        k.push(NORMAL_TAG);
        let mut j: usize = 0;
        while j < seg.len()
            invariant
                j <= seg@.len(),
                k@ == seq![NORMAL_TAG] + seg@.take(j as int),
            decreases seg@.len() - j,
        {
            k.push(seg[j]);
            assert(seg@.take(j + 1) =~= seg@.take(j as int).push(seg@[j as int]));
            j = j + 1;
        }
        assert(seg@.take(seg@.len() as int) =~= seg@);
        res.push(k);
        assert(keys_view(res@) =~= old_keys + segment_parts(seg@));
    }
}

impl WallPath {
    /// A path with the given raw bytes.
    pub fn new(raw: Vec<u8>) -> (r: WallPath)
        ensures
            r@ == raw@,
    {
        WallPath { raw }
    }

    /// A copy of this path.
    pub fn duplicate(&self) -> (r: WallPath)
        ensures
            r@ == self@,
    {
        WallPath { raw: self.raw.clone() }
    }

    /// The component keys of this path.
    pub fn components(&self) -> (r: Vec<Vec<u8>>)
        ensures
            keys_view(r@) == path_components(self@),
    {
        let raw = &self.raw;
        let n = raw.len();
        let mut res: Vec<Vec<u8>> = Vec::new();
        if n > 0 && raw[0] == SLASH {
            let mut k: Vec<u8> = Vec::new();
            k.push(ROOT_TAG);
            res.push(k);
        } else if n > 0 && raw[0] == DOT && (n == 1 || raw[1] == SLASH) {
            let mut k: Vec<u8> = Vec::new();
            k.push(CUR_TAG);
            res.push(k);
        }
        let ghost lead = keys_view(res@);
        assert(lead =~= lead_parts(raw@));
        let mut cur: Vec<u8> = Vec::new();
        let mut i: usize = 0;
        assert(raw@.take(0) =~= Seq::<u8>::empty());
        while i < n
            invariant
                n == raw@.len(),
                i <= n,
                lead == lead_parts(raw@),
                keys_view(res@) == lead + scan_segments(raw@.take(i as int)).0,
                cur@ == scan_segments(raw@.take(i as int)).1,
            decreases n - i,
        {
            let b = raw[i];
            assert(raw@.take(i + 1).drop_last() =~= raw@.take(i as int));
            assert(raw@.take(i + 1).last() == b);
            if b == SLASH {
                push_segment(&mut res, &cur);
                cur = Vec::new();
                assert(keys_view(res@) =~= lead + scan_segments(raw@.take(i + 1)).0);
                assert(cur@ =~= scan_segments(raw@.take(i + 1)).1);
            } else {
                cur.push(b);
            }
            i = i + 1;
        }
        assert(raw@.take(n as int) =~= raw@);
        push_segment(&mut res, &cur);
        assert(keys_view(res@) =~= path_components(raw@));
        res
    }

    /// Compares two paths by their components.
    pub fn compare(&self, other: &WallPath) -> (r: Order)
        ensures
            (r == Order::Less) == path_lt(self@, other@),
            (r == Order::Equal) == same_path(self@, other@),
            (r == Order::Greater) == path_lt(other@, self@),
    {
        let a = self.components();
        let b = other.components();
        compare_keys(&a, &b)
    }

    /// Whether this path comes before `other`.
    pub fn precedes(&self, other: &WallPath) -> (r: bool)
        ensures
            r == path_lt(self@, other@),
    {
        match self.compare(other) {
            Order::Less => true,
            _ => false,
        }
    }

    /// Whether the two paths are the same path.
    pub fn same(&self, other: &WallPath) -> (r: bool)
        ensures
            r == same_path(self@, other@),
    {
        match self.compare(other) {
            Order::Equal => true,
            _ => false,
        }
    }

    /// The extension of this path's file name.
    pub fn extension(&self) -> (r: Option<Vec<u8>>)
        ensures
            match r {
                Some(e) => path_extension(self@) == Some(e@),
                None => path_extension(self@) is None,
            },
    {
        let comps = self.components();
        let n = comps.len();
        if n == 0 {
            return None;
        }
        let last = &comps[n - 1];
        assert(keys_view(comps@).last() == last@);
        if last.len() == 0 || last[0] != NORMAL_TAG {
            return None;
        }
        let ghost name = last@.drop_first();
        // find the last dot of the name (name byte j is last[j + 1])
        let m = last.len();
        let mut k: usize = m;
        while k > 1 && last[k - 1] != DOT
            invariant
                1 <= k <= m,
                m == last@.len(),
                name == last@.drop_first(),
                forall|j: int| k <= j < m ==> last@[j] != DOT,
            decreases k,
        {
            k = k - 1;
        }
        proof {
            lemma_last_dot_range(name);
            let d = last_dot(name);
            if k > 1 {
                assert(name[k - 2] == DOT);
                if d != k - 2 {
                    assert(d > k - 2);
                    assert(name[d] == last@[d + 1]);
                }
            } else {
                if d >= 0 {
                    assert(name[d] == last@[d + 1]);
                }
            }
        }
        if k > 2 {
            // the dot is at name index k - 2 > 0
            let mut e: Vec<u8> = Vec::new();
            let mut j: usize = k;
            while j < m
                invariant
                    k <= j <= m,
                    m == last@.len(),
                    e@ == last@.subrange(k as int, j as int),
                decreases m - j,
            {
                e.push(last[j]);
                assert(last@.subrange(k as int, j + 1) =~= last@.subrange(k as int, j as int).push(last@[j as int]));
                j = j + 1;
            }
            assert(e@ =~= name.skip(k - 1));
            Some(e)
        } else {
            None
        }
    }

    /// This path joined with `name`.
    pub fn join(&self, name: &Vec<u8>) -> (r: WallPath)
        ensures
            r@ == join_spec(self@, name@),
    {
        if name.len() > 0 && name[0] == SLASH {
            return WallPath { raw: name.clone() };
        }
        let mut raw = self.raw.clone();
        if raw.len() > 0 && raw[raw.len() - 1] != SLASH {
            raw.push(SLASH);
        }
        let ghost start = raw@;
        let mut j: usize = 0;
        while j < name.len()
            invariant
                j <= name@.len(),
                raw@ == start + name@.take(j as int),
            decreases name@.len() - j,
        {
            raw.push(name[j]);
            assert(name@.take(j + 1) =~= name@.take(j as int).push(name@[j as int]));
            j = j + 1;
        }
        assert(name@.take(name@.len() as int) =~= name@);
        WallPath { raw }
    }
}

/// The strict order on paths is a strict total order on their components.
pub proof fn lemma_path_order()
    ensures
        forall|a: Seq<u8>| !(#[trigger] path_lt(a, a)),
        forall|a: Seq<u8>, b: Seq<u8>, c: Seq<u8>|
            #[trigger] path_lt(a, b) && #[trigger] path_lt(b, c) ==> path_lt(a, c),
        forall|a: Seq<u8>, b: Seq<u8>|
            !same_path(a, b) ==> #[trigger] path_lt(a, b) || #[trigger] path_lt(b, a),
        forall|a: Seq<u8>, b: Seq<u8>| same_path(a, b) ==> !(#[trigger] path_lt(a, b)),
{
    lemma_keys_order_strict_total();
}

} // verus!
