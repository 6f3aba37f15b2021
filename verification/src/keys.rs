//! Storage keys as byte strings: their order and the key ranges of prefixes.
use vstd::prelude::*;

verus! {

/// `a` comes before `b`, decided at position `i`: the two agree up to `i`, and
/// there either `a` ends or its byte is the smaller one.
pub open spec fn key_lt_at(a: Seq<u8>, b: Seq<u8>, i: int) -> bool {
    &&& 0 <= i <= a.len()
    &&& i < b.len()
    &&& forall|j: int| 0 <= j < i ==> a[j] == b[j]
    &&& i == a.len() || a[i] < b[i]
}

/// Lexicographic order of byte strings, the order of `[u8]`.
pub open spec fn key_lt(a: Seq<u8>, b: Seq<u8>) -> bool {
    exists|i: int| key_lt_at(a, b, i)
}

pub open spec fn key_le(a: Seq<u8>, b: Seq<u8>) -> bool {
    a == b || key_lt(a, b)
}

/// `key` begins with `prefix`.
pub open spec fn has_prefix(key: Seq<u8>, prefix: Seq<u8>) -> bool {
    prefix.len() <= key.len() && key.take(prefix.len() as int) == prefix
}

/// `key` lies in the half-open range that begins at `lower`; without `upper`
/// the range has no end.
pub open spec fn in_range(key: Seq<u8>, lower: Seq<u8>, upper: Option<Seq<u8>>) -> bool {
    key_le(lower, key) && match upper {
        Some(end) => key_lt(key, end),
        None => true,
    }
}

pub proof fn lemma_key_lt_irreflexive(a: Seq<u8>)
    ensures
        !key_lt(a, a),
{
}

pub proof fn lemma_key_lt_transitive(a: Seq<u8>, b: Seq<u8>, c: Seq<u8>)
    requires
        key_lt(a, b),
        key_lt(b, c),
    ensures
        key_lt(a, c),
{
    let i = choose|i: int| key_lt_at(a, b, i);
    let j = choose|j: int| key_lt_at(b, c, j);
    if i <= j {
        assert(key_lt_at(a, c, i));
    } else {
        assert(key_lt_at(a, c, j));
    }
}

pub proof fn lemma_key_lt_asymmetric(a: Seq<u8>, b: Seq<u8>)
    requires
        key_lt(a, b),
    ensures
        !key_lt(b, a),
        a != b,
{
    if key_lt(b, a) {
        lemma_key_lt_transitive(a, b, a);
    }
}

/// Keys are ordered byte by byte: behind a common beginning the lower byte comes
/// first, and a key comes before every longer one that begins with it.
pub proof fn law_keys_are_ordered_byte_by_byte(common: Seq<u8>, a: u8, b: u8, s: Seq<u8>, t: Seq<u8>)
    ensures
        a < b ==> key_lt(common + seq![a] + s, common + seq![b] + t),
        key_lt(common, common + seq![a] + s),
{
    let x = common + seq![a] + s;
    let y = common + seq![b] + t;
    let n = common.len() as int;
    if a < b {
        assert(key_lt_at(x, y, n));
    }
    assert(key_lt_at(common, x, n));
}

/// How one key stands to another.
#[derive(Clone, Copy, Debug, PartialEq, Eq)]
pub enum KeyOrder {
    Before,
    Same,
    After,
}

/// Compares two keys byte by byte.
pub fn order_keys(a: &[u8], b: &[u8]) -> (r: KeyOrder)
    ensures
        r is Before <==> key_lt(a@, b@),
        r is Same <==> a@ == b@,
        r is After <==> key_lt(b@, a@),
{
    let mut i: usize = 0;
    while i < a.len() && i < b.len() && a[i] == b[i]
        invariant
            i <= a@.len(),
            i <= b@.len(),
            forall|j: int| 0 <= j < i ==> a@[j] == b@[j],
        decreases a@.len() - i,
    {
        i = i + 1;
    }
    if i == a.len() {
        if i == b.len() {
            assert(a@ =~= b@);
            KeyOrder::Same
        } else {
            assert(key_lt_at(a@, b@, i as int));
            proof { lemma_key_lt_asymmetric(a@, b@); }
            KeyOrder::Before
        }
    } else if i == b.len() {
        assert(key_lt_at(b@, a@, i as int));
        proof { lemma_key_lt_asymmetric(b@, a@); }
        KeyOrder::After
    } else if a[i] < b[i] {
        assert(key_lt_at(a@, b@, i as int));
        proof { lemma_key_lt_asymmetric(a@, b@); }
        KeyOrder::Before
    } else {
        assert(key_lt_at(b@, a@, i as int));
        proof { lemma_key_lt_asymmetric(b@, a@); }
        KeyOrder::After
    }
}

/// Whether `key` lies in the range from `lower` (included) to `upper` (excluded).
pub fn key_in_range(key: &[u8], lower: &[u8], upper: Option<&Vec<u8>>) -> (r: bool)
    ensures
        r == in_range(key@, lower@, match upper { Some(u) => Some(u@), None => None }),
{
    let above = match order_keys(lower, key) {
        KeyOrder::After => {
            proof { lemma_key_lt_asymmetric(key@, lower@); }
            false
        },
        _ => true,
    };
    let below = match upper {
        Some(u) => match order_keys(key, u.as_slice()) {
            KeyOrder::Before => true,
            _ => false,
        },
        None => true,
    };
    above && below
}

/// Whether `key` begins with `prefix`.
pub fn starts_with(key: &[u8], prefix: &[u8]) -> (r: bool)
    ensures
        r == has_prefix(key@, prefix@),
{
    if prefix.len() > key.len() {
        return false;
    }
    let mut i: usize = 0;
    while i < prefix.len()
        invariant
            i <= prefix@.len() <= key@.len(),
            forall|j: int| 0 <= j < i ==> key@[j] == prefix@[j],
        decreases prefix@.len() - i,
    {
        if key[i] != prefix[i] {
            assert(key@.take(prefix@.len() as int)[i as int] != prefix@[i as int]);
            return false;
        }
        i = i + 1;
    }
    assert(key@.take(prefix@.len() as int) =~= prefix@);
    true
}

/// Of two different keys one is the smaller one.
pub proof fn law_keys_are_comparable(a: Seq<u8>, b: Seq<u8>)
    ensures
        a == b || key_lt(a, b) || key_lt(b, a),
        !(key_lt(a, b) && key_lt(b, a)),
        !key_lt(a, a),
    decreases a.len(),
{
    lemma_key_lt_irreflexive(a);
    if key_lt(a, b) {
        lemma_key_lt_asymmetric(a, b);
    }
    if a.len() == 0 {
        if b.len() == 0 {
            assert(a =~= b);
        } else {
            assert(key_lt_at(a, b, 0));
        }
    } else if b.len() == 0 {
        assert(key_lt_at(b, a, 0));
    } else if a[0] < b[0] {
        assert(key_lt_at(a, b, 0));
    } else if b[0] < a[0] {
        assert(key_lt_at(b, a, 0));
    } else {
        let s = a.drop_first();
        let t = b.drop_first();
        law_keys_are_comparable(s, t);
        if s == t {
            assert(a =~= seq![a[0]] + s);
            assert(b =~= seq![b[0]] + t);
        } else if key_lt(s, t) {
            let i = choose|i: int| key_lt_at(s, t, i);
            lemma_key_lt_behind(a, b, i);
        } else {
            let i = choose|i: int| key_lt_at(t, s, i);
            lemma_key_lt_behind(b, a, i);
        }
    }
}

proof fn lemma_key_lt_behind(a: Seq<u8>, b: Seq<u8>, i: int)
    requires
        a.len() > 0,
        b.len() > 0,
        a[0] == b[0],
        key_lt_at(a.drop_first(), b.drop_first(), i),
    ensures
        key_lt(a, b),
{
    assert forall|j: int| 0 <= j < i + 1 implies a[j] == b[j] by {
        if j > 0 {
            assert(a.drop_first()[j - 1] == b.drop_first()[j - 1]);
        }
    }
    assert(key_lt_at(a, b, i + 1));
}

/// `p` ends in exactly `n` bytes 255: the byte before them, if there is one, is
/// another.
pub open spec fn trailing_max(p: Seq<u8>, n: int) -> bool {
    &&& 0 <= n <= p.len()
    &&& forall|j: int| p.len() - n <= j < p.len() ==> p[j] == 255u8
    &&& n < p.len() ==> p[p.len() - n - 1] != 255u8
}

/// `p` read as a number in base 256, most significant byte first.
pub open spec fn number(p: Seq<u8>) -> nat
    decreases p.len(),
{
    if p.len() == 0 {
        0
    } else {
        number(p.drop_last()) * 256 + p.last() as nat
    }
}

/// Two byte strings of one length that are the same number are the same bytes: a byte
/// counts 256 times as much as the one behind it.
pub proof fn law_number_tells_bytes_apart(p: Seq<u8>, q: Seq<u8>)
    requires
        p.len() == q.len(),
        number(p) == number(q),
    ensures
        p == q,
    decreases p.len(),
{
    if p.len() > 0 {
        law_number_tells_bytes_apart(p.drop_last(), q.drop_last());
        assert(p =~= p.drop_last().push(p.last()));
        assert(q =~= q.drop_last().push(q.last()));
    } else {
        assert(p =~= q);
    }
}

/// Appending bytes raises the number by a factor for each of them: the first byte is
/// the most significant one.
pub proof fn law_number_begins_with_the_greatest_byte(p: Seq<u8>, byte: u8, behind: u8)
    ensures
        number(seq![byte]) == byte,
        number(p.push(byte)) == number(p) * 256 + byte,
        number(p.push(byte).push(behind)) == number(p) * 65536 + byte * 256 + behind,
{
    reveal_with_fuel(number, 2);
    assert(seq![byte].drop_last() =~= Seq::<u8>::empty());
    assert(p.push(byte).drop_last() =~= p);
    assert(p.push(byte).push(behind).drop_last() =~= p.push(byte));
}

/// `p` with its last `n` bytes turned to zero and the byte before them raised
/// by one.
pub open spec fn carried(p: Seq<u8>, n: int) -> Seq<u8> {
    Seq::new(p.len(), |j: int| if j < p.len() - n - 1 {
        p[j]
    } else if j == p.len() - n - 1 {
        (p[j] + 1) as u8
    } else {
        0u8
    })
}

/// The end of the key range of a prefix: the prefix plus one, as a number of as
/// many bytes; none where that number does not fit.
pub open spec fn prefix_upper_bound(p: Seq<u8>) -> Option<Seq<u8>> {
    if exists|n: int| trailing_max(p, n) && n < p.len() {
        Some(carried(p, choose|n: int| trailing_max(p, n) && n < p.len()))
    } else {
        None
    }
}

/// There is one number of trailing bytes 255.
pub proof fn lemma_trailing_max_unique(p: Seq<u8>, n: int, m: int)
    requires
        trailing_max(p, n),
        trailing_max(p, m),
    ensures
        n == m,
{
    if n < m {
        assert(p[p.len() - n - 1] == 255u8);
    } else if m < n {
        assert(p[p.len() - m - 1] == 255u8);
    }
}

/// The exclusive upper bound to iterate the keys with the given prefix: the
/// prefix plus one with carry, or `None` where no such bound exists (an empty
/// prefix, or one made of bytes 255 alone).
pub fn to_key_prefix_iter_upper_bound(key_prefix: &[u8]) -> (r: Option<Vec<u8>>)
    ensures
        r is None <==> (forall|j: int| 0 <= j < key_prefix@.len() ==> key_prefix@[j] == 255u8),
        match r {
            Some(u) => prefix_upper_bound(key_prefix@) == Some(u@),
            None => prefix_upper_bound(key_prefix@) is None,
        },
{
    let len: usize = key_prefix.len();
    let mut bound: Vec<u8> = vstd::slice::slice_to_vec(key_prefix);
    let mut i: usize = 0;
    while i < len
        invariant
            0 <= i <= len,
            len == key_prefix@.len(),
            bound@.len() == len,
            forall|j: int| 0 <= j < len - i ==> bound@[j] == key_prefix@[j],
            forall|j: int| len - i <= j < len ==> bound@[j] == 0u8,
            forall|j: int| len - i <= j < len ==> key_prefix@[j] == 255u8,
        decreases len - i,
    {
        let at: usize = len - 1 - i;
        if bound[at] == 255 {
            bound.set(at, 0);
            i = i + 1;
        } else {
            let byte: u8 = bound[at];
            bound.set(at, byte + 1);
            proof {
                let n = i as int;
                assert(trailing_max(key_prefix@, n) && n < key_prefix@.len());
                let m = choose|m: int| trailing_max(key_prefix@, m) && m < key_prefix@.len();
                lemma_trailing_max_unique(key_prefix@, n, m);
                assert(bound@ =~= carried(key_prefix@, n));
                assert(key_prefix@[at as int] != 255u8);
            }
            return Some(bound);
        }
    }
    proof {
        let p = key_prefix@;
        if exists|n: int| trailing_max(p, n) && n < p.len() {
            let n = choose|n: int| trailing_max(p, n) && n < p.len();
            assert(p[p.len() - n - 1] == 255u8);
        }
    }
    None
}

/// The upper bound is the prefix with the carry over its trailing bytes 255.
pub proof fn lemma_prefix_upper_bound(p: Seq<u8>, n: int)
    requires
        trailing_max(p, n),
        n < p.len(),
    ensures
        prefix_upper_bound(p) == Some(carried(p, n)),
{
    let m = choose|m: int| trailing_max(p, m) && m < p.len();
    lemma_trailing_max_unique(p, n, m);
}

proof fn lemma_number_carried(p: Seq<u8>, n: int)
    requires
        trailing_max(p, n),
        n < p.len(),
    ensures
        number(carried(p, n)) == number(p) + 1,
    decreases n,
{
    let u = carried(p, n);
    let head = p.drop_last();
    if n == 0 {
        assert(u.drop_last() =~= head);
    } else {
        assert(trailing_max(head, n - 1)) by {
            assert(forall|j: int| 0 <= j < head.len() ==> head[j] == p[j]);
        }
        lemma_number_carried(head, n - 1);
        assert(u.drop_last() =~= carried(head, n - 1));
        assert(p.last() == 255u8);
        assert(u.last() == 0u8);
    }
}

/// A key has a prefix exactly where it is the prefix and something behind it.
pub proof fn law_prefix_is_the_beginning(key: Seq<u8>, prefix: Seq<u8>, rest: Seq<u8>)
    ensures
        has_prefix(prefix + rest, prefix),
        has_prefix(key, prefix) ==> key == prefix + key.skip(prefix.len() as int),
{
    assert((prefix + rest).take(prefix.len() as int) =~= prefix);
    if has_prefix(key, prefix) {
        assert(key =~= key.take(prefix.len() as int) + key.skip(prefix.len() as int));
    }
}

/// The upper bound of a prefix is as long as the prefix and, read as a number,
/// greater by exactly one.
pub proof fn law_upper_bound_is_successor(p: Seq<u8>)
    requires
        prefix_upper_bound(p) is Some,
    ensures
        prefix_upper_bound(p)->0.len() == p.len(),
        number(prefix_upper_bound(p)->0) == number(p) + 1,
{
    let n = choose|n: int| trailing_max(p, n) && n < p.len();
    lemma_number_carried(p, n);
}

/// Every key with the prefix lies in the range from the prefix to its upper
/// bound.
pub proof fn law_prefixed_keys_in_range(key: Seq<u8>, p: Seq<u8>)
    requires
        has_prefix(key, p),
    ensures
        in_range(key, p, prefix_upper_bound(p)),
{
    assert forall|j: int| 0 <= j < p.len() implies key[j] == p[j] by {
        assert(key.take(p.len() as int)[j] == p[j]);
    }
    if key.len() == p.len() {
        assert(key =~= p);
    } else {
        assert(key_lt_at(p, key, p.len() as int));
    }
    if prefix_upper_bound(p) is Some {
        let n = choose|n: int| trailing_max(p, n) && n < p.len();
        assert(key_lt_at(key, carried(p, n), p.len() - n - 1));
    }
}

/// The range from a prefix to its upper bound holds the keys with that prefix
/// and, beside them, only those proper prefixes of the upper bound itself that
/// do not come before the prefix.
pub proof fn law_range_of_prefix(key: Seq<u8>, p: Seq<u8>)
    ensures
        in_range(key, p, prefix_upper_bound(p)) <==> {
            ||| has_prefix(key, p)
            ||| {
                &&& prefix_upper_bound(p) matches Some(u)
                &&& key.len() < u.len()
                &&& key == u.take(key.len() as int)
                &&& key_le(p, key)
            }
        },
{
    if has_prefix(key, p) {
        law_prefixed_keys_in_range(key, p);
    } else if in_range(key, p, prefix_upper_bound(p)) {
        assert(key != p) by {
            assert(p.take(p.len() as int) =~= p);
        }
        let i = choose|i: int| key_lt_at(p, key, i);
        if i == p.len() {
            assert(key.take(p.len() as int) =~= p);
        }
        if prefix_upper_bound(p) is None {
            lemma_all_max(p);
            assert(false);
        } else {
            let n = choose|n: int| trailing_max(p, n) && n < p.len();
            let u = carried(p, n);
            let q = p.len() - n - 1;
            let j = choose|j: int| key_lt_at(key, u, j);
            assert(i == q);
            assert(j > q);
            assert(j == key.len());
            assert(key =~= u.take(key.len() as int));
        }
    } else if prefix_upper_bound(p) is Some {
        let u = prefix_upper_bound(p)->0;
        if key.len() < u.len() && key == u.take(key.len() as int) && key_le(p, key) {
            assert forall|j: int| 0 <= j < key.len() implies key[j] == u[j] by {
                assert(u.take(key.len() as int)[j] == u[j]);
            }
            assert(key_lt_at(key, u, key.len() as int));
        }
    }
}

proof fn lemma_all_max_from(p: Seq<u8>, n: int)
    requires
        prefix_upper_bound(p) is None,
        0 <= n <= p.len(),
        forall|j: int| p.len() - n <= j < p.len() ==> p[j] == 255u8,
    ensures
        forall|j: int| 0 <= j < p.len() ==> p[j] == 255u8,
    decreases p.len() - n,
{
    if n < p.len() {
        if p[p.len() - n - 1] != 255u8 {
            assert(trailing_max(p, n) && n < p.len());
        }
        lemma_all_max_from(p, n + 1);
    }
}

/// Only a prefix of bytes 255 alone has no upper bound.
pub proof fn lemma_all_max(p: Seq<u8>)
    requires
        prefix_upper_bound(p) is None,
    ensures
        forall|j: int| 0 <= j < p.len() ==> p[j] == 255u8,
{
    lemma_all_max_from(p, 0);
}

/// Where the last byte of the prefix is not 255, and where there is no upper
/// bound, the range holds the keys with the prefix and nothing else.
pub proof fn law_range_is_exact(key: Seq<u8>, p: Seq<u8>)
    requires
        p.len() == 0 || p.last() != 255u8 || prefix_upper_bound(p) is None,
    ensures
        in_range(key, p, prefix_upper_bound(p)) <==> has_prefix(key, p),
{
    law_range_of_prefix(key, p);
    if p.len() > 0 && p.last() != 255u8 {
        assert(trailing_max(p, 0));
        lemma_prefix_upper_bound(p, 0);
        let u = carried(p, 0);
        if key.len() < u.len() && key == u.take(key.len() as int) {
            assert forall|j: int| 0 <= j < key.len() implies key[j] == p[j] by {
                assert(u.take(key.len() as int)[j] == u[j]);
            }
            assert(key_lt_at(key, p, key.len() as int));
            lemma_key_lt_asymmetric(key, p);
        }
    }
}

} // verus!
