//! The order of names.
//!
//! Names are ordered as Rust orders strings: lexicographically by the bytes
//! of their UTF-8 encoding.

use vstd::prelude::*;
use vstd::utf8::{encode_utf8, encode_utf8_decode_utf8};
use vstd::string::StringSliceAdditionalSpecFns;

verus! {

/// `a` and `b` agree on their first `k` bytes, and at place `k` either `a`
/// ends while `b` goes on, or `a` holds the smaller byte.
pub open spec fn bytes_precede_at(a: Seq<u8>, b: Seq<u8>, k: int) -> bool {
    &&& 0 <= k <= a.len()
    &&& k < b.len()
    &&& forall|i: int| 0 <= i < k ==> a[i] == b[i]
    &&& k < a.len() ==> a[k] < b[k]
}

/// `a` comes strictly before `b` in lexicographic order.
pub open spec fn bytes_precede(a: Seq<u8>, b: Seq<u8>) -> bool {
    exists|k: int| bytes_precede_at(a, b, k)
}

/// The name `a` comes strictly before the name `b`.
pub open spec fn name_precedes(a: Seq<char>, b: Seq<char>) -> bool {
    bytes_precede(encode_utf8(a), encode_utf8(b))
}

/// How one name stands to another.
#[derive(Clone, Copy, Debug, PartialEq, Eq, Structural)]
pub enum NameOrder {
    Before,
    Same,
    After,
}

/// No sequence of bytes comes before itself, and of two sequences at most
/// one comes before the other.
pub proof fn bytes_precede_asymmetric(a: Seq<u8>, b: Seq<u8>)
    requires
        bytes_precede(a, b),
    ensures
        !bytes_precede(b, a),
        a != b,
{
    let k = choose|k: int| bytes_precede_at(a, b, k);
    if bytes_precede(b, a) {
        let j = choose|j: int| bytes_precede_at(b, a, j);
        if j < k {
            assert(a[j] == b[j]);
        } else if k < j {
            assert(b[k] == a[k]);
        }
    }
}

/// What comes before something that comes before `c` comes before `c`.
pub proof fn bytes_precede_transitive(a: Seq<u8>, b: Seq<u8>, c: Seq<u8>)
    requires
        bytes_precede(a, b),
        bytes_precede(b, c),
    ensures
        bytes_precede(a, c),
{
    let j = choose|j: int| bytes_precede_at(a, b, j);
    let k = choose|k: int| bytes_precede_at(b, c, k);
    let m = if j < k {
        j
    } else {
        k
    };
    assert forall|i: int| 0 <= i < m implies a[i] == c[i] by {
        assert(a[i] == b[i]);
        assert(b[i] == c[i]);
    }
    if k < j {
        assert(a[k] == b[k]);
    } else if j < k {
        assert(b[j] == c[j]);
    }
    assert(bytes_precede_at(a, c, m));
}

proof fn bytes_precede_total_from(a: Seq<u8>, b: Seq<u8>, k: int)
    requires
        a != b,
        0 <= k <= a.len(),
        k <= b.len(),
        forall|i: int| 0 <= i < k ==> a[i] == b[i],
    ensures
        bytes_precede(a, b) || bytes_precede(b, a),
    decreases a.len() - k,
{
    if k == a.len() {
        if k == b.len() {
            assert(a =~= b);
        } else {
            assert(bytes_precede_at(a, b, k));
        }
    } else if k == b.len() {
        assert(bytes_precede_at(b, a, k));
    } else if a[k] < b[k] {
        assert(bytes_precede_at(a, b, k));
    } else if b[k] < a[k] {
        assert(bytes_precede_at(b, a, k));
    } else {
        bytes_precede_total_from(a, b, k + 1);
    }
}

/// Of two different sequences of bytes one comes before the other.
pub proof fn bytes_precede_total(a: Seq<u8>, b: Seq<u8>)
    requires
        a != b,
    ensures
        bytes_precede(a, b) || bytes_precede(b, a),
{
    bytes_precede_total_from(a, b, 0);
}

/// Names with the same encoding are the same name.
pub proof fn encoding_injective(a: Seq<char>, b: Seq<char>)
    requires
        encode_utf8(a) == encode_utf8(b),
    ensures
        a == b,
{
    encode_utf8_decode_utf8(a);
    encode_utf8_decode_utf8(b);
}

/// No name comes before itself, and of two names at most one comes before
/// the other.
pub proof fn name_precedes_asymmetric(a: Seq<char>, b: Seq<char>)
    requires
        name_precedes(a, b),
    ensures
        !name_precedes(b, a),
        a != b,
{
    bytes_precede_asymmetric(encode_utf8(a), encode_utf8(b));
}

/// The order of names is transitive.
pub proof fn name_precedes_transitive(a: Seq<char>, b: Seq<char>, c: Seq<char>)
    requires
        name_precedes(a, b),
        name_precedes(b, c),
    ensures
        name_precedes(a, c),
{
    bytes_precede_transitive(encode_utf8(a), encode_utf8(b), encode_utf8(c));
}

/// Of two different names one comes before the other.
pub proof fn name_precedes_total(a: Seq<char>, b: Seq<char>)
    requires
        a != b,
    ensures
        name_precedes(a, b) || name_precedes(b, a),
{
    if encode_utf8(a) == encode_utf8(b) {
        encoding_injective(a, b);
    } else {
        bytes_precede_total(encode_utf8(a), encode_utf8(b));
    }
}

/// If `a` does not come after `b`, nor `b` after `c`, then `a` does not come
/// after `c`.
pub proof fn name_follows_transitive(a: Seq<char>, b: Seq<char>, c: Seq<char>)
    requires
        !name_precedes(b, a),
        !name_precedes(c, b),
    ensures
        !name_precedes(c, a),
{
    if name_precedes(c, a) {
        if a == b {
        } else {
            name_precedes_total(a, b);
            name_precedes_transitive(c, a, b);
        }
    }
}

/// If `a` comes before `b`, and `c` does not come before `b`, then `a`
/// comes before `c`.
pub proof fn name_precedes_extends(a: Seq<char>, b: Seq<char>, c: Seq<char>)
    requires
        name_precedes(a, b),
        !name_precedes(c, b),
    ensures
        name_precedes(a, c),
{
    if b != c {
        name_precedes_total(b, c);
        name_precedes_transitive(a, b, c);
    }
}

/// Compares two names: exactly one of the three answers holds of any pair.
pub fn name_order(a: &str, b: &str) -> (order: NameOrder)
    ensures
        (order == NameOrder::Before) == name_precedes(a@, b@),
        (order == NameOrder::Same) == (a@ == b@),
        (order == NameOrder::After) == name_precedes(b@, a@),
{
    let x = a.as_bytes();
    let y = b.as_bytes();
    let n = x.len();
    let m = y.len();
    let mut i: usize = 0;
    while i < n && i < m
        invariant
            x@ == encode_utf8(a@),
            y@ == encode_utf8(b@),
            n == x@.len(),
            m == y@.len(),
            i <= n,
            i <= m,
            forall|j: int| 0 <= j < i ==> x@[j] == y@[j],
        decreases n - i,
    {
        if x[i] < y[i] {
            proof {
                assert(bytes_precede_at(x@, y@, i as int));
                name_precedes_asymmetric(a@, b@);
            }
            return NameOrder::Before;
        }
        if x[i] > y[i] {
            proof {
                assert(bytes_precede_at(y@, x@, i as int));
                name_precedes_asymmetric(b@, a@);
            }
            return NameOrder::After;
        }
        i += 1;
    }
    if n < m {
        proof {
            assert(bytes_precede_at(x@, y@, i as int));
            name_precedes_asymmetric(a@, b@);
        }
        NameOrder::Before
    } else if m < n {
        proof {
            assert(bytes_precede_at(y@, x@, i as int));
            name_precedes_asymmetric(b@, a@);
        }
        NameOrder::After
    } else {
        proof {
            assert(x@ =~= y@);
            encoding_injective(a@, b@);
            if name_precedes(a@, a@) {
                name_precedes_asymmetric(a@, a@);
            }
        }
        NameOrder::Same
    }
}

} // verus!
