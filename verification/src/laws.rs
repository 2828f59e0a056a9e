//! Order-insensitivity of per-line decoding: a batch decoded in any
//! order yields the same multiset of frames. The sequential runner and a
//! data-parallel runner over the same per-line function therefore agree
//! up to output order.
use vstd::prelude::*;

verus! {

use vstd::seq_lib::lemma_multiset_commutative;
use vstd::seq_lib::group_to_multiset_ensures;

/// The frames decoded from a batch: each line is decoded independently
/// by `f`, and lines that decode to nothing are dropped.
pub open spec fn decoded_frames<L, F>(lines: Seq<L>, f: spec_fn(L) -> Option<F>) -> Seq<F>
    decreases lines.len(),
{
    if lines.len() == 0 {
        Seq::empty()
    } else {
        (match f(lines.first()) {
            Some(v) => seq![v],
            None => Seq::empty(),
        }) + decoded_frames(lines.drop_first(), f)
    }
}

/// Decoding distributes over concatenation of batches.
proof fn lemma_decoded_concat<L, F>(a: Seq<L>, b: Seq<L>, f: spec_fn(L) -> Option<F>)
    ensures
        decoded_frames(a + b, f) == decoded_frames(a, f) + decoded_frames(b, f),
    decreases a.len(),
{
    if a.len() == 0 {
        assert(a + b =~= b);
        assert(decoded_frames(a, f) + decoded_frames(b, f) =~= decoded_frames(b, f));
    } else {
        assert((a + b).first() == a.first());
        assert((a + b).drop_first() =~= a.drop_first() + b);
        lemma_decoded_concat(a.drop_first(), b, f);
        assert(decoded_frames(a + b, f) =~= decoded_frames(a, f) + decoded_frames(b, f));
    }
}

/// Decoding the lines in another order permutes the decoded frames: two
/// batches with the same multiset of lines decode to the same multiset
/// of frames. The sequential mode and any work-stealing parallel mode
/// that decodes each line with the same function thus return the same
/// frames up to order.
pub proof fn lemma_decode_order_insensitive<L, F>(
    l1: Seq<L>,
    l2: Seq<L>,
    f: spec_fn(L) -> Option<F>,
)
    requires
        l1.to_multiset() == l2.to_multiset(),
    ensures
        decoded_frames(l1, f).to_multiset() == decoded_frames(l2, f).to_multiset(),
    decreases l1.len(),
{
    broadcast use group_to_multiset_ensures;

    if l1.len() == 0 {
        assert(l2.to_multiset().len() == 0);
        assert(l2.len() == 0);
        assert(l2 =~= Seq::<L>::empty());
    } else {
        let x = l1.first();
        assert(l1.contains(x));
        assert(l1.to_multiset().count(x) > 0);
        assert(l2.to_multiset().count(x) > 0);
        assert(l2.contains(x));
        let j = choose|j: int| 0 <= j < l2.len() && l2[j] == x;
        let l1r = l1.drop_first();
        let l2r = l2.remove(j);
        assert(l1.remove(0) =~= l1r);
        assert(l1r.to_multiset() =~= l1.to_multiset().remove(x)) by {
            assert(l1.remove(0).to_multiset() =~= l1.to_multiset().remove(l1[0]));
        }
        assert(l2r.to_multiset() =~= l2.to_multiset().remove(x));
        assert(l1r.to_multiset() =~= l2r.to_multiset());
        lemma_decode_order_insensitive(l1r, l2r, f);
        let head = (match f(x) {
            Some(v) => seq![v],
            None => Seq::<F>::empty(),
        });
        assert(decoded_frames(l1, f) == head + decoded_frames(l1r, f));
        let front = l2.take(j);
        let back = l2.skip(j + 1);
        assert(l2 =~= front + (seq![x] + back));
        assert(l2r =~= front + back);
        lemma_decoded_concat(front, seq![x] + back, f);
        lemma_decoded_concat(front, back, f);
        assert((seq![x] + back).first() == x);
        assert((seq![x] + back).drop_first() =~= back);
        assert(decoded_frames(seq![x] + back, f) == head + decoded_frames(back, f));
        let df = decoded_frames(front, f);
        let db = decoded_frames(back, f);
        assert(decoded_frames(l2, f) == df + (head + db));
        lemma_multiset_commutative(df, head + db);
        lemma_multiset_commutative(head, db);
        lemma_multiset_commutative(df, db);
        lemma_multiset_commutative(head, decoded_frames(l1r, f));
        assert(decoded_frames(l2r, f).to_multiset() =~= df.to_multiset().add(db.to_multiset()));
        assert(decoded_frames(l1, f).to_multiset() =~= head.to_multiset().add(
            decoded_frames(l1r, f).to_multiset(),
        ));
        assert(decoded_frames(l2, f).to_multiset() =~= df.to_multiset().add(
            head.to_multiset().add(db.to_multiset()),
        ));
        assert(decoded_frames(l1, f).to_multiset() =~= decoded_frames(l2, f).to_multiset());
    }
}

} // verus!
