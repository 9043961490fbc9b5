//! Text equality and the byte order of text.

use vstd::prelude::*;
use vstd::utf8::{encode_utf8, encode_utf8_decode_utf8};

verus! {

/// `a` comes strictly before `b` in the dictionary order of their bytes: after
/// a common prefix, `a` ends or has the smaller byte.
pub open spec fn bytes_before(a: Seq<u8>, b: Seq<u8>) -> bool {
    exists|k: int| #[trigger] splits_before(a, b, k)
}

/// `a` and `b` agree on their first `k` bytes, and there `a` ends or has the
/// smaller byte.
pub open spec fn splits_before(a: Seq<u8>, b: Seq<u8>, k: int) -> bool {
    &&& 0 <= k <= a.len()
    &&& k < b.len()
    &&& forall|i: int| 0 <= i < k ==> a[i] == b[i]
    &&& k == a.len() || a[k] < b[k]
}

/// The order of text: the dictionary order of its UTF-8 bytes.
pub open spec fn text_precedes(a: Seq<char>, b: Seq<char>) -> bool {
    bytes_before(encode_utf8(a), encode_utf8(b))
}

pub proof fn lemma_bytes_before_irreflexive(a: Seq<u8>)
    ensures
        !bytes_before(a, a),
{
}

pub proof fn lemma_bytes_before_transitive(a: Seq<u8>, b: Seq<u8>, c: Seq<u8>)
    requires
        bytes_before(a, b),
        bytes_before(b, c),
    ensures
        bytes_before(a, c),
{
    let i = choose|k: int| splits_before(a, b, k);
    let j = choose|k: int| splits_before(b, c, k);
    if i <= j {
        assert(splits_before(a, c, i));
    } else {
        assert(splits_before(a, c, j));
    }
}

/// Of two different byte strings one comes before the other.
pub proof fn lemma_bytes_before_total(a: Seq<u8>, b: Seq<u8>)
    ensures
        a == b || bytes_before(a, b) || bytes_before(b, a),
    decreases a.len(),
{
    if a.len() == 0 {
        if b.len() > 0 {
            assert(splits_before(a, b, 0));
        } else {
            assert(a =~= b);
        }
    } else if b.len() == 0 {
        assert(splits_before(b, a, 0));
    } else if a[0] < b[0] {
        assert(splits_before(a, b, 0));
    } else if b[0] < a[0] {
        assert(splits_before(b, a, 0));
    } else {
        let (ta, tb) = (a.drop_first(), b.drop_first());
        lemma_bytes_before_total(ta, tb);
        if ta == tb {
            assert(a =~= seq![a[0]] + ta);
            assert(b =~= seq![b[0]] + tb);
        } else if bytes_before(ta, tb) {
            let k = choose|k: int| splits_before(ta, tb, k);
            assert forall|i: int| 0 <= i < k + 1 implies a[i] == b[i] by {
                if i > 0 {
                    assert(ta[i - 1] == tb[i - 1]);
                }
            }
            assert(splits_before(a, b, k + 1));
        } else {
            let k = choose|k: int| splits_before(tb, ta, k);
            assert forall|i: int| 0 <= i < k + 1 implies a[i] == b[i] by {
                if i > 0 {
                    assert(ta[i - 1] == tb[i - 1]);
                }
            }
            assert(splits_before(b, a, k + 1));
        }
    }
}

/// Text is determined by its bytes.
pub proof fn lemma_same_bytes_same_text(a: Seq<char>, b: Seq<char>)
    requires
        encode_utf8(a) == encode_utf8(b),
    ensures
        a == b,
{
    encode_utf8_decode_utf8(a);
    encode_utf8_decode_utf8(b);
}

/// Whether two texts hold the same characters.
pub fn text_eq(a: &str, b: &str) -> (r: bool)
    ensures
        r == (a@ == b@),
{
    let x = a.as_bytes();
    let y = b.as_bytes();
    if x.len() != y.len() {
        return false;
    }
    let mut i: usize = 0;
    while i < x.len()
        invariant
            x@ == encode_utf8(a@),
            y@ == encode_utf8(b@),
            x@.len() == y@.len(),
            i <= x@.len(),
            forall|j: int| 0 <= j < i ==> x@[j] == y@[j],
        decreases x@.len() - i,
    {
        if x[i] != y[i] {
            return false;
        }
        i += 1;
    }
    proof {
        assert(x@ =~= y@);
        lemma_same_bytes_same_text(a@, b@);
    }
    true
}

/// Whether `a` comes strictly before `b` in the byte order of text.
pub fn text_before(a: &str, b: &str) -> (r: bool)
    ensures
        r == text_precedes(a@, b@),
{
    let x = a.as_bytes();
    let y = b.as_bytes();
    let mut i: usize = 0;
    while i < x.len() && i < y.len()
        invariant
            x@ == encode_utf8(a@),
            y@ == encode_utf8(b@),
            i <= x@.len(),
            i <= y@.len(),
            forall|j: int| 0 <= j < i ==> x@[j] == y@[j],
        decreases x@.len() - i,
    {
        if x[i] < y[i] {
            assert(splits_before(x@, y@, i as int));
            return true;
        }
        if y[i] < x[i] {
            proof {
                assert forall|k: int| !splits_before(x@, y@, k) by {
                    if splits_before(x@, y@, k) {
                        if k < i {
                            assert(x@[k] == y@[k]);
                        } else if k > i {
                            assert(x@[i as int] == y@[i as int]);
                        }
                    }
                }
            }
            return false;
        }
        i += 1;
    }
    let r = i < y.len();
    proof {
        if r {
            assert(splits_before(x@, y@, i as int));
        } else {
            assert forall|k: int| !splits_before(x@, y@, k) by {
                if splits_before(x@, y@, k) {
                    assert(x@[k] == y@[k]);
                }
            }
        }
    }
    r
}

/// Text precedes another one if at the first place where their bytes differ it
/// has the smaller one, or ends there; and in no other case.
pub proof fn law_text_is_ordered_by_its_bytes(a: Seq<char>, b: Seq<char>, k: int)
    requires
        0 <= k <= encode_utf8(a).len(),
        k < encode_utf8(b).len(),
        forall|i: int| 0 <= i < k ==> encode_utf8(a)[i] == encode_utf8(b)[i],
        k == encode_utf8(a).len() || encode_utf8(a)[k] != encode_utf8(b)[k],
    ensures
        text_precedes(a, b) <==> k == encode_utf8(a).len() || encode_utf8(a)[k] < encode_utf8(b)[k],
        text_precedes(b, a) <==> k < encode_utf8(a).len() && encode_utf8(b)[k] < encode_utf8(a)[k],
        !text_precedes(a, a),
{
    let (x, y) = (encode_utf8(a), encode_utf8(b));
    if k == x.len() || x[k] < y[k] {
        assert(splits_before(x, y, k));
    } else {
        assert(splits_before(y, x, k));
    }
    if text_precedes(a, b) {
        let j = choose|j: int| splits_before(x, y, j);
        assert(j == k);
    }
    if text_precedes(b, a) {
        let j = choose|j: int| splits_before(y, x, j);
        assert(j == k);
    }
}

} // verus!
