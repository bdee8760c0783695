use vstd::prelude::*;

verus! {

/// Three-way result of a comparison.
#[derive(Clone, Copy, Debug, PartialEq, Eq, Structural)]
pub enum Order {
    Less,
    Equal,
    Greater,
}

/// `lt` is a strict total order: irreflexive, transitive, and any two
/// distinct values are related one way or the other.
pub open spec fn is_strict_total<T>(lt: spec_fn(T, T) -> bool) -> bool {
    &&& forall|x: T| !(#[trigger] lt(x, x))
    &&& forall|x: T, y: T, z: T| #[trigger] lt(x, y) && #[trigger] lt(y, z) ==> lt(x, z)
    &&& forall|x: T, y: T| x != y ==> #[trigger] lt(x, y) || #[trigger] lt(y, x)
}

/// Lexicographic order on sequences built from the element order `lt`:
/// a proper prefix comes first; otherwise the first differing element decides.
pub open spec fn lex_lt<T>(a: Seq<T>, b: Seq<T>, lt: spec_fn(T, T) -> bool) -> bool
    decreases a.len(),
{
    if a.len() == 0 {
        b.len() > 0
    } else if b.len() == 0 {
        false
    } else if a[0] == b[0] {
        lex_lt(a.drop_first(), b.drop_first(), lt)
    } else {
        lt(a[0], b[0])
    }
}

pub proof fn lemma_lex_irreflexive<T>(a: Seq<T>, lt: spec_fn(T, T) -> bool)
    ensures
        !lex_lt(a, a, lt),
    decreases a.len(),
{
    if a.len() > 0 {
        lemma_lex_irreflexive(a.drop_first(), lt);
    }
}

pub proof fn lemma_lex_transitive<T>(a: Seq<T>, b: Seq<T>, c: Seq<T>, lt: spec_fn(T, T) -> bool)
    requires
        is_strict_total(lt),
        lex_lt(a, b, lt),
        lex_lt(b, c, lt),
    ensures
        lex_lt(a, c, lt),
    decreases a.len(),
{
    if a.len() > 0 {
        if a[0] == b[0] && b[0] == c[0] {
            lemma_lex_transitive(a.drop_first(), b.drop_first(), c.drop_first(), lt);
        } else if a[0] != b[0] && b[0] != c[0] {
            assert(lt(a[0], b[0]) && lt(b[0], c[0]));
            if a[0] == c[0] {
                assert(lt(a[0], a[0]));
            }
        }
    }
}

pub proof fn lemma_lex_total<T>(a: Seq<T>, b: Seq<T>, lt: spec_fn(T, T) -> bool)
    requires
        is_strict_total(lt),
        a != b,
    ensures
        lex_lt(a, b, lt) || lex_lt(b, a, lt),
    decreases a.len(),
{
    if a.len() > 0 && b.len() > 0 {
        if a[0] == b[0] {
            if a.drop_first() == b.drop_first() {
                assert(a =~= seq![a[0]] + a.drop_first());
                assert(b =~= seq![b[0]] + b.drop_first());
            }
            lemma_lex_total(a.drop_first(), b.drop_first(), lt);
        } else {
            assert(lt(a[0], b[0]) || lt(b[0], a[0]));
        }
    } else if a.len() == 0 && b.len() == 0 {
        assert(a =~= b);
    }
}

/// Lexicographic order over a strict total order is again a strict total order.
pub proof fn lemma_lex_strict_total<T>(lt: spec_fn(T, T) -> bool)
    requires
        is_strict_total(lt),
    ensures
        is_strict_total(|a: Seq<T>, b: Seq<T>| lex_lt(a, b, lt)),
{
    let l = |a: Seq<T>, b: Seq<T>| lex_lt(a, b, lt);
    assert forall|x: Seq<T>| !(#[trigger] l(x, x)) by {
        lemma_lex_irreflexive(x, lt);
    }
    assert forall|x: Seq<T>, y: Seq<T>, z: Seq<T>| #[trigger] l(x, y) && #[trigger] l(y, z) implies l(x, z) by {
        lemma_lex_transitive(x, y, z, lt);
    }
    assert forall|x: Seq<T>, y: Seq<T>| x != y implies #[trigger] l(x, y) || #[trigger] l(y, x) by {
        lemma_lex_total(x, y, lt);
    }
}

/// The usual order on bytes.
pub open spec fn byte_lt() -> spec_fn(u8, u8) -> bool {
    |x: u8, y: u8| x < y
}

/// Lexicographic order on byte strings.
pub open spec fn bytes_lt(a: Seq<u8>, b: Seq<u8>) -> bool {
    lex_lt(a, b, byte_lt())
}

/// The order on byte strings, as a function value.
pub open spec fn bytes_order() -> spec_fn(Seq<u8>, Seq<u8>) -> bool {
    |a: Seq<u8>, b: Seq<u8>| bytes_lt(a, b)
}

/// Lexicographic order on sequences of byte strings.
pub open spec fn keys_lt(a: Seq<Seq<u8>>, b: Seq<Seq<u8>>) -> bool {
    lex_lt(a, b, bytes_order())
}

pub proof fn lemma_byte_order_strict_total()
    ensures
        is_strict_total(byte_lt()),
{
}

pub proof fn lemma_bytes_order_strict_total()
    ensures
        is_strict_total(bytes_order()),
{
    lemma_byte_order_strict_total();
    lemma_lex_strict_total(byte_lt());
    let l = |a: Seq<u8>, b: Seq<u8>| lex_lt(a, b, byte_lt());
    assert(bytes_order() =~= l);
}

/// `keys_lt` is a strict total order.
pub proof fn lemma_keys_order_strict_total()
    ensures
        forall|a: Seq<Seq<u8>>| !(#[trigger] keys_lt(a, a)),
        forall|a: Seq<Seq<u8>>, b: Seq<Seq<u8>>, c: Seq<Seq<u8>>|
            #[trigger] keys_lt(a, b) && #[trigger] keys_lt(b, c) ==> keys_lt(a, c),
        forall|a: Seq<Seq<u8>>, b: Seq<Seq<u8>>|
            a != b ==> #[trigger] keys_lt(a, b) || #[trigger] keys_lt(b, a),
{
    lemma_bytes_order_strict_total();
    lemma_lex_strict_total(bytes_order());
    assert forall|a: Seq<Seq<u8>>| !(#[trigger] keys_lt(a, a)) by {
        lemma_lex_irreflexive(a, bytes_order());
    }
    assert forall|a: Seq<Seq<u8>>, b: Seq<Seq<u8>>, c: Seq<Seq<u8>>|
        #[trigger] keys_lt(a, b) && #[trigger] keys_lt(b, c) implies keys_lt(a, c) by {
        lemma_lex_transitive(a, b, c, bytes_order());
    }
    assert forall|a: Seq<Seq<u8>>, b: Seq<Seq<u8>>| a != b implies #[trigger] keys_lt(a, b)
        || #[trigger] keys_lt(b, a) by {
        lemma_lex_total(a, b, bytes_order());
    }
}

/// Compares two byte strings lexicographically.
pub fn compare_bytes(a: &Vec<u8>, b: &Vec<u8>) -> (r: Order)
    ensures
        (r == Order::Less) == bytes_lt(a@, b@),
        (r == Order::Equal) == (a@ == b@),
        (r == Order::Greater) == bytes_lt(b@, a@),
{
    proof {
        lemma_byte_order_strict_total();
        lemma_lex_irreflexive(a@, byte_lt());
    }
    let n: usize = if a.len() < b.len() { a.len() } else { b.len() };
    let mut i: usize = 0;
    assert(a@.skip(0) =~= a@);
    assert(b@.skip(0) =~= b@);
    while i < n
        invariant
            n <= a@.len(),
            n <= b@.len(),
            n == a@.len() || n == b@.len(),
            0 <= i <= n,
            forall|j: int| 0 <= j < i ==> a@[j] == b@[j],
            bytes_lt(a@, b@) == lex_lt(a@.skip(i as int), b@.skip(i as int), byte_lt()),
            bytes_lt(b@, a@) == lex_lt(b@.skip(i as int), a@.skip(i as int), byte_lt()),
        decreases n - i,
    {
        if a[i] < b[i] {
            assert(a@.skip(i as int)[0] == a@[i as int]);
            assert(b@.skip(i as int)[0] == b@[i as int]);
            return Order::Less;
        }
        if a[i] > b[i] {
            assert(a@.skip(i as int)[0] == a@[i as int]);
            assert(b@.skip(i as int)[0] == b@[i as int]);
            return Order::Greater;
        }
        assert(a@.skip(i as int).drop_first() =~= a@.skip(i + 1));
        assert(b@.skip(i as int).drop_first() =~= b@.skip(i + 1));
        i = i + 1;
    }
    if a.len() < b.len() {
        Order::Less
    } else if a.len() > b.len() {
        Order::Greater
    } else {
        assert(a@ =~= b@);
        Order::Equal
    }
}

/// The views of a sequence of byte vectors.
pub open spec fn keys_view(v: Seq<Vec<u8>>) -> Seq<Seq<u8>> {
    v.map_values(|k: Vec<u8>| k@)
}

/// Compares two sequences of byte strings lexicographically.
pub fn compare_keys(a: &Vec<Vec<u8>>, b: &Vec<Vec<u8>>) -> (r: Order)
    ensures
        (r == Order::Less) == keys_lt(keys_view(a@), keys_view(b@)),
        (r == Order::Equal) == (keys_view(a@) == keys_view(b@)),
        (r == Order::Greater) == keys_lt(keys_view(b@), keys_view(a@)),
{
    let ghost ka = keys_view(a@);
    let ghost kb = keys_view(b@);
    proof {
        lemma_keys_order_strict_total();
        lemma_bytes_order_strict_total();
    }
    let n: usize = if a.len() < b.len() { a.len() } else { b.len() };
    let mut i: usize = 0;
    assert(ka.skip(0) =~= ka);
    assert(kb.skip(0) =~= kb);
    while i < n
        invariant
            ka == keys_view(a@),
            kb == keys_view(b@),
            is_strict_total(bytes_order()),
            forall|x: Seq<Seq<u8>>| !(#[trigger] keys_lt(x, x)),
            n <= a@.len(),
            n <= b@.len(),
            n == a@.len() || n == b@.len(),
            0 <= i <= n,
            forall|j: int| 0 <= j < i ==> ka[j] == kb[j],
            keys_lt(ka, kb) == lex_lt(ka.skip(i as int), kb.skip(i as int), bytes_order()),
            keys_lt(kb, ka) == lex_lt(kb.skip(i as int), ka.skip(i as int), bytes_order()),
        decreases n - i,
    {
        let c = compare_bytes(&a[i], &b[i]);
        assert(ka.skip(i as int)[0] == a@[i as int]@);
        assert(kb.skip(i as int)[0] == b@[i as int]@);
        match c {
            Order::Less => {
                assert(bytes_order()(ka[i as int], kb[i as int]));
                proof {
                    if ka == kb {
                        assert(ka[i as int] == kb[i as int]);
                    }
                }
                return Order::Less;
            },
            Order::Greater => {
                assert(bytes_order()(kb[i as int], ka[i as int]));
                proof {
                    if ka == kb {
                        assert(ka[i as int] == kb[i as int]);
                    }
                }
                return Order::Greater;
            },
            Order::Equal => {},
        }
        assert(ka.skip(i as int).drop_first() =~= ka.skip(i + 1));
        assert(kb.skip(i as int).drop_first() =~= kb.skip(i + 1));
        i = i + 1;
    }
    if a.len() < b.len() {
        Order::Less
    } else if a.len() > b.len() {
        Order::Greater
    } else {
        assert(ka =~= kb);
        Order::Equal
    }
}

} // verus!
