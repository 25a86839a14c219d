use vstd::prelude::*;

use crate::text::{decimal, push_decimal, push_shape, shape_text};

verus! {

/// The `k`-th dimension of `s` counted from the innermost one (`k == 0` is the last).
pub open spec fn dim_from_end(s: Seq<u64>, k: int) -> u64 {
    s[s.len() - 1 - k]
}

/// Two aligned dimensions can be combined when they agree or one of them is 1.
pub open spec fn dims_compatible(a: u64, b: u64) -> bool {
    a == b || a == 1 || b == 1
}

/// The dimension that two compatible aligned dimensions combine into.
pub open spec fn combined_dim(a: u64, b: u64) -> u64 {
    if a == 1 { b } else { a }
}

/// The `k`-th aligned pair, counted from the innermost end, exists and cannot be combined.
pub open spec fn mismatch_at(l: Seq<u64>, r: Seq<u64>, k: int) -> bool {
    &&& 0 <= k < l.len()
    &&& k < r.len()
    &&& !dims_compatible(dim_from_end(l, k), dim_from_end(r, k))
}

/// Every aligned pair of dimensions can be combined.
pub open spec fn broadcastable(l: Seq<u64>, r: Seq<u64>) -> bool {
    forall|k: int| !mismatch_at(l, r, k)
}

/// `k` is the innermost position at which the two shapes cannot be combined.
pub open spec fn first_mismatch(l: Seq<u64>, r: Seq<u64>, k: int) -> bool {
    &&& mismatch_at(l, r, k)
    &&& forall|j: int| 0 <= j < k ==> !mismatch_at(l, r, j)
}

pub open spec fn max_len(l: Seq<u64>, r: Seq<u64>) -> int {
    if l.len() >= r.len() { l.len() as int } else { r.len() as int }
}

/// The dimension at position `k` from the end of the broadcast shape.
pub open spec fn broadcast_dim_from_end(l: Seq<u64>, r: Seq<u64>, k: int) -> u64 {
    if k < l.len() && k < r.len() {
        combined_dim(dim_from_end(l, k), dim_from_end(r, k))
    } else if k < l.len() {
        dim_from_end(l, k)
    } else {
        dim_from_end(r, k)
    }
}

/// The shape obtained by aligning `l` and `r` at their innermost dimension,
/// combining the aligned pairs and keeping the leading dimensions of the longer one.
pub open spec fn broadcast_shape(l: Seq<u64>, r: Seq<u64>) -> Seq<u64> {
    Seq::new(
        max_len(l, r) as nat,
        |i: int| broadcast_dim_from_end(l, r, max_len(l, r) - 1 - i),
    )
}

/// Two shapes that cannot be broadcast together, and the innermost pair of
/// aligned dimensions that disagree.
#[derive(Debug)]
pub struct ShapeBroadcastError {
    pub left: Vec<u64>,
    pub right: Vec<u64>,
    pub left_dim: u64,
    pub right_dim: u64,
}

/// The message of a broadcast failure.
pub open spec fn broadcast_error_text(e: ShapeBroadcastError) -> Seq<char> {
    "Failed to broadcast Tensors of shapes "@ + shape_text(e.left@) + " and "@ + shape_text(e.right@)
        + " since "@ + decimal(e.left_dim as nat) + " != "@ + decimal(e.right_dim as nat) + "."@
}

impl ShapeBroadcastError {
    /// The error as a sentence naming both shapes and the disagreeing pair.
    pub fn message(&self) -> (r: String)
        ensures
            r@ == broadcast_error_text(*self),
    {
        let mut out = String::new();
        out.append("Failed to broadcast Tensors of shapes ");
        push_shape(&mut out, &self.left);
        out.append(" and ");
        push_shape(&mut out, &self.right);
        out.append(" since ");
        push_decimal(&mut out, self.left_dim);
        out.append(" != ");
        push_decimal(&mut out, self.right_dim);
        out.append(".");
        out
    }
}

/// What broadcasting `l` with `r` gives: the combined shape, or the error that
/// names both shapes and the innermost incompatible pair.
pub open spec fn broadcast_result(
    l: Seq<u64>,
    r: Seq<u64>,
    res: Result<Vec<u64>, ShapeBroadcastError>,
) -> bool {
    match res {
        Ok(s) => broadcastable(l, r) && s@ == broadcast_shape(l, r),
        Err(e) => {
            &&& !broadcastable(l, r)
            &&& e.left@ == l
            &&& e.right@ == r
            &&& exists|k: int|
                #![trigger dim_from_end(l, k)]
                first_mismatch(l, r, k) && e.left_dim == dim_from_end(l, k) && e.right_dim
                    == dim_from_end(r, k)
        },
    }
}

/// Broadcasts two shapes: aligned from the innermost dimension, each pair must
/// agree or contain a 1; the leading dimensions of the longer shape are kept.
pub fn broadcast_shapes(l: &Vec<u64>, r: &Vec<u64>) -> (res: Result<Vec<u64>, ShapeBroadcastError>)
    ensures
        broadcast_result(l@, r@, res),
        res is Err <==> exists|k: int| mismatch_at(l@, r@, k),
{
    let n_common: usize = if l.len() < r.len() { l.len() } else { r.len() };
    let mut k: usize = 0;
    while k < n_common
        invariant
            n_common <= l.len(),
            n_common <= r.len(),
            n_common == l.len() || n_common == r.len(),
            k <= n_common,
            forall|j: int| 0 <= j < k ==> !mismatch_at(l@, r@, j),
        decreases n_common - k,
    {
        let a = l[l.len() - 1 - k];
        let b = r[r.len() - 1 - k];
        if a != b && a != 1 && b != 1 {
            let err = ShapeBroadcastError {
                left: l.clone(),
                right: r.clone(),
                left_dim: a,
                right_dim: b,
            };
            assert(first_mismatch(l@, r@, k as int));
            assert(dim_from_end(l@, k as int) == a);
            return Err(err);
        }
        k = k + 1;
    }
    assert forall|j: int| !mismatch_at(l@, r@, j) by {
        if 0 <= j < n_common {
        }
    }
    let n: usize = if l.len() < r.len() { r.len() } else { l.len() };
    let mut out: Vec<u64> = Vec::new();
    let mut i: usize = 0;
    while i < n
        invariant
            n as int == max_len(l@, r@),
            i <= n,
            out@ == broadcast_shape(l@, r@).subrange(0, i as int),
        decreases n - i,
    {
        let k: usize = n - 1 - i;
        let d: u64 = if k < l.len() && k < r.len() {
            let a = l[l.len() - 1 - k];
            if a == 1 {
                r[r.len() - 1 - k]
            } else {
                a
            }
        } else if k < l.len() {
            l[l.len() - 1 - k]
        } else {
            r[r.len() - 1 - k]
        };
        out.push(d);
        i = i + 1;
        assert(out@ =~= broadcast_shape(l@, r@).subrange(0, i as int));
    }
    assert(out@ =~= broadcast_shape(l@, r@));
    Ok(out)
}

/// Broadcasting does not depend on the order of the two shapes.
pub proof fn lemma_broadcast_symmetric(a: Seq<u64>, b: Seq<u64>)
    ensures
        broadcastable(a, b) == broadcastable(b, a),
        broadcastable(a, b) ==> broadcast_shape(a, b) == broadcast_shape(b, a),
{
    assert forall|k: int| mismatch_at(a, b, k) == mismatch_at(b, a, k) by {}
    if broadcastable(a, b) {
        assert forall|k: int| !mismatch_at(b, a, k) by {
            assert(!mismatch_at(a, b, k));
        }
        assert(broadcast_shape(a, b) =~= broadcast_shape(b, a)) by {
            assert forall|i: int| 0 <= i < max_len(a, b) implies #[trigger] broadcast_shape(a, b)[i]
                == broadcast_shape(b, a)[i] by {
                assert(!mismatch_at(a, b, max_len(a, b) - 1 - i));
            }
        }
    }
}

/// Broadcasting a non-empty shape with the one-dimensional shape `[1]` gives
/// back that shape.
pub proof fn lemma_broadcast_identity(a: Seq<u64>)
    requires
        a.len() >= 1,
    ensures
        broadcastable(a, seq![1u64]),
        broadcast_shape(a, seq![1u64]) == a,
{
    let one = seq![1u64];
    assert forall|k: int| !mismatch_at(a, one, k) by {
        if 0 <= k < 1 {
            assert(dim_from_end(one, k) == 1);
        }
    }
    assert(broadcast_shape(a, one) =~= a) by {
        assert forall|i: int| 0 <= i < a.len() implies #[trigger] broadcast_shape(a, one)[i]
            == a[i] by {
            let k = a.len() - 1 - i;
            if k == 0 {
                assert(dim_from_end(one, k) == 1);
            }
        }
    }
}

} // verus!
