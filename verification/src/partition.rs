//! Splitting a sequence into consecutive batches of bounded size.

use itertools::Itertools;
use vstd::prelude::*;

verus! {

/// How many batches of at most `size` items `total` items fill: `total`
/// divided by `size`, rounded up.
pub open spec fn batch_count(total: nat, size: nat) -> nat
    recommends
        size > 0,
{
    ((total + size - 1) / (size as int)) as nat
}

/// The batch with index `i`: the items from position `i * size` up to, not
/// including, position `(i + 1) * size`, or up to the end if that comes first.
pub open spec fn batch_at<T>(items: Seq<T>, size: nat, i: int) -> Seq<T>
    recommends
        size > 0,
        0 <= i < batch_count(items.len(), size),
{
    items.subrange(
        i * size,
        if (i + 1) * size <= items.len() {
            (i + 1) * size
        } else {
            items.len() as int
        },
    )
}

/// The batches of `items`, in order.
pub open spec fn batches<T>(items: Seq<T>, size: nat) -> Seq<Seq<T>>
    recommends
        size > 0,
{
    Seq::new(batch_count(items.len(), size), |i: int| batch_at(items, size, i))
}

/// Calls `Itertools::chunks` on the items and collects each chunk it yields.
/// The contract restates that function's documentation: the chunks are
/// consecutive runs of `size` items in the order given, each item in
/// exactly one chunk, the last chunk shorter where the items run out, and no
/// chunk at all for no items. `chunks` panics on a size of zero, which the
/// precondition excludes.
#[verifier::external_body]
pub(crate) fn chunked<T>(items: Vec<T>, size: usize) -> (chunks: Vec<Vec<T>>)
    requires
        size > 0,
    ensures
        chunks@.len() == batch_count(items@.len(), size as nat),
        forall|i: int|
            0 <= i < chunks@.len() ==> (#[trigger] chunks@[i])@ == batch_at(
                items@,
                size as nat,
                i,
            ),
{
    let groups = items.into_iter().chunks(size);
    let chunks = (&groups).into_iter().map(|group| group.collect()).collect();
    chunks
}

/// The number of batches brackets the number of items: all batches together
/// have room for every item, and all but the last do not.
pub proof fn lemma_batch_count(total: nat, size: nat)
    requires
        size > 0,
    ensures
        total == 0 <==> batch_count(total, size) == 0,
        batch_count(total, size) * size >= total,
        total > 0 ==> (batch_count(total, size) - 1) * size < total,
{
    let x = total + size - 1;
    let d = size as int;
    let c = x / d;
    vstd::arithmetic::div_mod::lemma_fundamental_div_mod(x, d);
    vstd::arithmetic::div_mod::lemma_mod_pos_bound(x, d);
    assert(c >= 0 && c * d >= total && (c - 1) * d < total && (total == 0 <==> c == 0)) by (nonlinear_arith)
        requires
            x == d * c + x % d,
            0 <= x % d < d,
            x == total + d - 1,
            d > 0,
            total >= 0,
    ;
}

/// Where batch `i` begins and ends: it begins inside the items, every batch
/// but the last ends `size` items later, and the last ends with the items.
pub proof fn lemma_batch_bounds(total: nat, size: nat, i: int)
    requires
        size > 0,
        0 <= i < batch_count(total, size),
    ensures
        0 <= i * size < total,
        (i + 1) * size == i * size + size,
        i + 1 < batch_count(total, size) ==> (i + 1) * size < total,
        i + 1 == batch_count(total, size) ==> (i + 1) * size >= total,
{
    lemma_batch_count(total, size);
    let c = batch_count(total, size) as int;
    let d = size as int;
    assert(0 <= i * d && (i + 1) * d == i * d + d && (i + 1) * d <= (c - 1) * d + d && (i + 1 < c
        ==> (i + 1) * d <= (c - 1) * d)) by (nonlinear_arith)
        requires
            0 <= i < c,
            d > 0,
    ;
    assert((c - 1) * d + d == c * d) by (nonlinear_arith);
}

/// Every batch holds at least one item and at most `size`; every batch but
/// the last holds exactly `size`; the last holds what is left over when the
/// number of items is divided by `size`, or `size` items where nothing is.
pub proof fn lemma_batch_sizes<T>(items: Seq<T>, size: nat)
    requires
        size > 0,
    ensures
        batches(items, size).len() == batch_count(items.len(), size),
        forall|i: int|
            0 <= i < batches(items, size).len() ==> 0 < (#[trigger] batches(items, size)[i]).len()
                <= size,
        forall|i: int|
            0 <= i < batches(items, size).len() - 1 ==> (#[trigger] batches(items, size)[i]).len()
                == size,
        batches(items, size).len() > 0 ==> batches(items, size).last().len() == (if items.len()
            % size == 0 {
            size
        } else {
            items.len() % size
        }),
{
    let plan = batches(items, size);
    let total = items.len();
    let d = size as int;
    assert forall|i: int| 0 <= i < plan.len() implies 0 < (#[trigger] plan[i]).len() <= size && (i
        < plan.len() - 1 ==> plan[i].len() == size) by {
        lemma_batch_bounds(total, size, i);
    }
    if plan.len() > 0 {
        let c = plan.len() as int;
        lemma_batch_bounds(total, size, c - 1);
        let left = total - (c - 1) * d;
        assert(plan.last().len() == left);
        vstd::arithmetic::div_mod::lemma_fundamental_div_mod(total as int, d);
        vstd::arithmetic::div_mod::lemma_mod_pos_bound(total as int, d);
        let q = total as int / d;
        let r = total as int % d;
        assert(left == (if r == 0 {
            d
        } else {
            r
        })) by (nonlinear_arith)
            requires
                total == d * q + r,
                0 <= r < d,
                left == total - (c - 1) * d,
                0 < left <= d,
        ;
    }
}

/// The first `k` batches, laid end to end, are the items before batch `k`.
proof fn lemma_batches_prefix<T>(items: Seq<T>, size: nat, k: int)
    requires
        size > 0,
        0 <= k <= batch_count(items.len(), size),
    ensures
        k < batch_count(items.len(), size) ==> batches(items, size).take(k).flatten()
            == items.take(k * size),
        k == batch_count(items.len(), size) ==> batches(items, size).take(k).flatten() == items,
    decreases k,
{
    let plan = batches(items, size);
    if k == 0 {
        lemma_batch_count(items.len(), size);
        assert(plan.take(0) =~= Seq::<Seq<T>>::empty());
        assert(0 * size == 0) by (nonlinear_arith);
        assert(items.take(0) =~= Seq::<T>::empty());
        if batch_count(items.len(), size) == 0 {
            assert(items =~= Seq::<T>::empty());
        }
    } else {
        lemma_batches_prefix(items, size, k - 1);
        lemma_batch_bounds(items.len(), size, k - 1);
        assert(plan.take(k) =~= plan.take(k - 1).push(plan[k - 1]));
        plan.take(k - 1).lemma_flatten_push(plan[k - 1]);
        assert(plan.take(k).flatten() == items.take((k - 1) * size) + plan[k - 1]);
        if k < batch_count(items.len(), size) {
            lemma_batch_bounds(items.len(), size, k);
            assert(items.take((k - 1) * size) + plan[k - 1] =~= items.take(k * size));
        } else {
            assert(items.take((k - 1) * size) + plan[k - 1] =~= items);
        }
    }
}

/// Batching loses, repeats and reorders nothing: the batches laid end to end
/// are the items.
pub proof fn lemma_batches_flatten<T>(items: Seq<T>, size: nat)
    requires
        size > 0,
    ensures
        batches(items, size).flatten() == items,
{
    let plan = batches(items, size);
    lemma_batches_prefix(items, size, plan.len() as int);
    assert(plan.take(plan.len() as int) =~= plan);
}

} // verus!
