//! Keys of the table: how a node's key is derived from its address, the
//! byte-wise difference of two keys, and the order of keys.
use vstd::prelude::*;
use vstd::utf8::encode_utf8;

verus! {

/// The 20-byte digest that the `sha1` crate's `Sha1` computes of a sequence of
/// bytes: the SHA-1 digest, except for inputs whose length is 55 modulo 64, for
/// which that crate pads one block more than SHA-1 does.
pub uninterp spec fn sha1_digest(data: Seq<u8>) -> Seq<u8>;

/// The `sha1` crate's digest: a fresh `Sha1`, one `update` with `data`, then
/// `output` into a 20-byte buffer. Trusted: the 20 bytes returned are
/// `sha1_digest(data@)`; nothing more is claimed of the digest.
#[verifier::external_body]
fn sha1_of(data: &[u8]) -> (digest: [u8; 20])
    ensures
        digest@ == sha1_digest(data@),
{
    let mut m = sha1::Sha1::new();
    let mut buf = [0u8; 20];
    m.update(data);
    m.output(&mut buf);
    buf
}

/// The key of a node: the `sha1` crate's digest of the UTF-8 bytes of its
/// address (see `sha1_digest`).
pub fn gen_key(ip: &String) -> (key: [u8; 20])
    ensures
        key@ == sha1_digest(encode_utf8(ip@)),
{
    sha1_of(ip.as_str().as_bytes())
}

/// Byte-wise difference of two keys: each byte of `first` minus the byte of
/// `second` at the same place, modulo 256, with no borrow between bytes.
pub open spec fn key_difference(first: Seq<u8>, second: Seq<u8>) -> Seq<u8> {
    Seq::new(first.len(), |i: int| ((first[i] - second[i]) % 256) as u8)
}

/// Subtracts `second` from `first` byte by byte (see `key_difference`).
pub fn sha_subtract(first: &[u8; 20], second: &[u8; 20]) -> (result: [u8; 20])
    ensures
        result@ == key_difference(first@, second@),
        result@.len() == 20,
        forall|i: int| 0 <= i < 20 ==> #[trigger] result@[i] == (first@[i] - second@[i]) % 256,
{
    let mut result = [0u8; 20];
    for i in 0..20
        invariant
            forall|j: int| 0 <= j < i ==> result@[j] == ((first@[j] - second@[j]) % 256) as u8,
    {
        result[i] = first[i].wrapping_sub(second[i]);
    }
    assert(result@ =~= key_difference(first@, second@));
    result
}

/// `i` is the first place where `left` and `right` hold different bytes.
pub open spec fn first_difference_at(left: Seq<u8>, right: Seq<u8>, i: int) -> bool {
    &&& 0 <= i < left.len()
    &&& i < right.len()
    &&& left[i] != right[i]
    &&& forall|j: int| 0 <= j < i ==> left[j] == right[j]
}

/// `left` comes before `right` in lexicographic order: at the first place where
/// they differ, `left` holds the smaller byte.
pub open spec fn key_less(left: Seq<u8>, right: Seq<u8>) -> bool {
    exists|i: int| #[trigger] first_difference_at(left, right, i) && left[i] < right[i]
}

/// The three-way comparison of two keys: -1 when `left` comes first, 1 when
/// `right` comes first, 0 otherwise.
pub open spec fn key_order(left: Seq<u8>, right: Seq<u8>) -> int {
    if key_less(left, right) {
        -1
    } else if key_less(right, left) {
        1
    } else {
        0
    }
}

/// Where two sequences agree below `i`, differ somewhere, and have the same
/// length, there is a first place where they differ.
proof fn lemma_first_difference_exists(left: Seq<u8>, right: Seq<u8>, i: int)
    requires
        left.len() == right.len(),
        left != right,
        0 <= i <= left.len(),
        forall|j: int| 0 <= j < i ==> left[j] == right[j],
    ensures
        exists|k: int| #[trigger] first_difference_at(left, right, k),
    decreases left.len() - i,
{
    if i == left.len() {
        assert(left =~= right);
    } else if left[i] != right[i] {
        assert(first_difference_at(left, right, i));
    } else {
        lemma_first_difference_exists(left, right, i + 1);
    }
}

/// The first place where two sequences differ is unique.
proof fn lemma_first_difference_unique(left: Seq<u8>, right: Seq<u8>, i: int, k: int)
    requires
        first_difference_at(left, right, i),
        first_difference_at(left, right, k),
    ensures
        i == k,
{
    if i < k {
        assert(left[i] == right[i]);
    } else if k < i {
        assert(left[k] == right[k]);
    }
}

/// Equal keys come before neither each other; different keys of one length
/// are ordered one way and not the other.
pub proof fn lemma_key_order_trichotomy(left: Seq<u8>, right: Seq<u8>)
    requires
        left.len() == right.len(),
    ensures
        left == right ==> !key_less(left, right) && !key_less(right, left),
        left != right ==> (key_less(left, right) <==> !key_less(right, left)),
{
    if left != right {
        lemma_first_difference_exists(left, right, 0);
        let i = choose|i: int| #[trigger] first_difference_at(left, right, i);
        assert(first_difference_at(right, left, i));
        if key_less(left, right) && key_less(right, left) {
            let a = choose|a: int| #[trigger] first_difference_at(left, right, a) && left[a] < right[a];
            let b = choose|b: int| #[trigger] first_difference_at(right, left, b) && right[b] < left[b];
            assert(first_difference_at(left, right, b));
            lemma_first_difference_unique(left, right, a, b);
        }
        if !key_less(left, right) {
            assert(right[i] < left[i]);
            assert(key_less(right, left));
        }
    } else {
        if key_less(left, right) {
            let a = choose|a: int| #[trigger] first_difference_at(left, right, a) && left[a] < right[a];
        }
        if key_less(right, left) {
            let a = choose|a: int| #[trigger] first_difference_at(right, left, a) && right[a] < left[a];
        }
    }
}

/// Compares two keys: -1 if `left` is smaller, 0 if they are the same, 1 if
/// `right` is smaller, in lexicographic order of their bytes.
pub fn compare_keys(left: [u8; 20], right: [u8; 20]) -> (order: i8)
    ensures
        order == key_order(left@, right@),
        order == 0 <==> left@ == right@,
        order == -1 || order == 0 || order == 1,
        order == -1 <==> exists|k: int|
            #![trigger left@[k], right@[k]]
            0 <= k < 20 && left@[k] < right@[k] && forall|j: int|
                0 <= j < k ==> left@[j] == right@[j],
        order == 1 <==> exists|k: int|
            #![trigger left@[k], right@[k]]
            0 <= k < 20 && right@[k] < left@[k] && forall|j: int|
                0 <= j < k ==> left@[j] == right@[j],
{
    proof {
        lemma_key_order_trichotomy(left@, right@);
        lemma_key_order_is_lexicographic(left@, right@);
    }
    for i in 0..20
        invariant
            forall|j: int| 0 <= j < i ==> left@[j] == right@[j],
            left@.len() == 20,
            right@.len() == 20,
            left@ == right@ ==> !key_less(left@, right@) && !key_less(right@, left@),
            left@ != right@ ==> (key_less(left@, right@) <==> !key_less(right@, left@)),
    {
        if left[i] < right[i] {
            assert(first_difference_at(left@, right@, i as int));
            assert(key_less(left@, right@));
            return -1;
        } else if left[i] > right[i] {
            assert(first_difference_at(right@, left@, i as int));
            assert(key_less(right@, left@));
            return 1;
        }
    }
    assert(left@ =~= right@);
    0
}

/// The order of keys is lexicographic over unsigned bytes: for keys of one
/// length, -1 exactly when at the first place where they differ the left byte is
/// the smaller, 1 exactly when the right byte is, and 0 exactly when they are equal.
pub proof fn lemma_key_order_is_lexicographic(left: Seq<u8>, right: Seq<u8>)
    requires
        left.len() == right.len(),
    ensures
        key_order(left, right) == -1 <==> exists|k: int|
            #![trigger left[k], right[k]]
            0 <= k < left.len() && left[k] < right[k] && forall|j: int|
                0 <= j < k ==> left[j] == right[j],
        key_order(left, right) == 1 <==> exists|k: int|
            #![trigger left[k], right[k]]
            0 <= k < left.len() && right[k] < left[k] && forall|j: int|
                0 <= j < k ==> left[j] == right[j],
        key_order(left, right) == 0 <==> left == right,
{
    lemma_key_order_trichotomy(left, right);
    if key_less(left, right) {
        let k = choose|k: int| #[trigger] first_difference_at(left, right, k) && left[k] < right[k];
        assert(left[k] < right[k]);
    }
    if key_less(right, left) {
        let k = choose|k: int| #[trigger] first_difference_at(right, left, k) && right[k] < left[k];
        assert(right[k] < left[k]);
    }
    if exists|k: int|
        #![trigger left[k], right[k]]
        0 <= k < left.len() && left[k] < right[k] && forall|j: int| 0 <= j < k ==> left[j] == right[j]
    {
        let k = choose|k: int|
            #![trigger left[k], right[k]]
            0 <= k < left.len() && left[k] < right[k] && forall|j: int|
                0 <= j < k ==> left[j] == right[j];
        assert(first_difference_at(left, right, k));
    }
    if exists|k: int|
        #![trigger left[k], right[k]]
        0 <= k < left.len() && right[k] < left[k] && forall|j: int| 0 <= j < k ==> left[j] == right[j]
    {
        let k = choose|k: int|
            #![trigger left[k], right[k]]
            0 <= k < left.len() && right[k] < left[k] && forall|j: int|
                0 <= j < k ==> left[j] == right[j];
        assert(first_difference_at(right, left, k));
    }
}

/// The comparison is antisymmetric: swapping the keys negates the result.
pub proof fn lemma_compare_antisymmetric(left: Seq<u8>, right: Seq<u8>)
    requires
        left.len() == right.len(),
    ensures
        key_order(left, right) == -key_order(right, left),
{
    lemma_key_order_trichotomy(left, right);
}

/// The order of keys is transitive.
pub proof fn lemma_key_less_transitive(a: Seq<u8>, b: Seq<u8>, c: Seq<u8>)
    requires
        key_less(a, b),
        key_less(b, c),
    ensures
        key_less(a, c),
{
    let i = choose|i: int| #[trigger] first_difference_at(a, b, i) && a[i] < b[i];
    let j = choose|j: int| #[trigger] first_difference_at(b, c, j) && b[j] < c[j];
    let k = if i < j { i } else { j };
    assert forall|m: int| 0 <= m < k implies a[m] == c[m] by {
        assert(a[m] == b[m]);
        assert(b[m] == c[m]);
    }
    if i < j {
        assert(b[i] == c[i]);
    } else if j < i {
        assert(a[j] == b[j]);
    }
    assert(first_difference_at(a, c, k));
}

/// The difference of two keys of one length is all zero exactly when the keys
/// are equal, that is, when `compare_keys` finds them the same.
pub proof fn lemma_difference_zero_iff_equal(first: Seq<u8>, second: Seq<u8>)
    requires
        first.len() == second.len(),
    ensures
        key_difference(first, second) == Seq::new(first.len(), |i: int| 0u8) <==> first == second,
{
    let d = key_difference(first, second);
    let z = Seq::new(first.len(), |i: int| 0u8);
    if first == second {
        assert(d =~= z);
    }
    if d == z {
        assert forall|i: int| 0 <= i < first.len() implies first[i] == second[i] by {
            assert(d[i] == 0u8);
        }
        assert(first =~= second);
    }
}

} // verus!
