use vstd::prelude::*;
use crate::list::{
    insert_after_error, insert_after_succeeds, inserted_after, replaced, split_first,
    split_second,
};
use crate::message::no_item_message;

verus! {

/// The values of a list that starts empty and takes each of `vs`, in order,
/// through `push_back` (each call turns `s` into `s.push(v)`).
pub open spec fn pushed_back(vs: Seq<i32>) -> Seq<i32>
    decreases vs.len(),
{
    if vs.len() == 0 {
        Seq::empty()
    } else {
        pushed_back(vs.drop_last()).push(vs.last())
    }
}

/// The values of a list that starts empty and takes each of `vs`, in order,
/// through `push_front` (each call turns `s` into `seq![v] + s`).
pub open spec fn pushed_front(vs: Seq<i32>) -> Seq<i32>
    decreases vs.len(),
{
    if vs.len() == 0 {
        Seq::empty()
    } else {
        seq![vs.last()] + pushed_front(vs.drop_last())
    }
}

/// Appending `v1..vn` to an empty list gives a list of size `n` that
/// yields `v1..vn` in order, starting with `v1` and ending with `vn`.
pub proof fn push_back_keeps_call_order(vs: Seq<i32>)
    ensures
        pushed_back(vs) == vs,
        pushed_back(vs).len() == vs.len(),
        vs.len() > 0 ==> pushed_back(vs)[0] == vs[0] && pushed_back(vs).last() == vs.last(),
    decreases vs.len(),
{
    if vs.len() > 0 {
        push_back_keeps_call_order(vs.drop_last());
        assert(vs.drop_last().push(vs.last()) =~= vs);
    }
}

/// Prepending `v1..vn` to an empty list gives a list that yields `vn..v1`.
pub proof fn push_front_reverses_call_order(vs: Seq<i32>)
    ensures
        pushed_front(vs) == vs.reverse(),
    decreases vs.len(),
{
    if vs.len() > 0 {
        push_front_reverses_call_order(vs.drop_last());
        assert(seq![vs.last()] + vs.drop_last().reverse() =~= vs.reverse());
    }
}

/// Inserting after position `size()` succeeds and appends, as `push_back` does.
pub proof fn insert_after_size_is_push_back(s: Seq<i32>, x: i32)
    ensures
        insert_after_succeeds(s, s.len() as int),
        inserted_after(s, x, s.len() as int) == s.push(x),
{
}

/// Inserting after a position past `size()` fails with the message naming
/// that position, and leaves the values as they were.
pub proof fn insert_after_past_size_fails(s: Seq<i32>, x: i32, i: int)
    requires
        i > s.len(),
    ensures
        !insert_after_succeeds(s, i),
        inserted_after(s, x, i) == s,
        insert_after_error(s, i) == no_item_message(i),
{
}

/// Splitting `[a0..a(m-1)]` at `k` gives `[a0..a(k-1)]` (empty for `k <= 0`)
/// and `[ak..a(m-1)]` (empty for `k >= m`), which together hold `m` values
/// and, joined, give back the list.
pub proof fn split_partitions(s: Seq<i32>, k: int)
    ensures
        k <= 0 ==> split_first(s, k) == Seq::<i32>::empty() && split_second(s, k) == s,
        k >= s.len() ==> split_first(s, k) == s && split_second(s, k) == Seq::<i32>::empty(),
        0 < k < s.len() ==> split_first(s, k) == s.take(k) && split_second(s, k) == s.skip(k),
        split_first(s, k).len() + split_second(s, k).len() == s.len(),
        split_first(s, k) + split_second(s, k) == s,
{
    assert(s.take(0) =~= Seq::<i32>::empty());
    assert(s.skip(0) =~= s);
    assert(s.take(s.len() as int) =~= s);
    assert(s.skip(s.len() as int) =~= Seq::<i32>::empty());
    assert(split_first(s, k) + split_second(s, k) =~= s);
}

/// Replacing at a position inside the list changes that value alone and
/// keeps the size; at a position past the end it changes nothing.
pub proof fn replace_changes_one_value(s: Seq<i32>, i: int, v: i32)
    ensures
        0 <= i < s.len() ==> replaced(s, i, v).len() == s.len() && replaced(s, i, v)[i] == v
            && forall|j: int| 0 <= j < s.len() && j != i ==> #[trigger] replaced(s, i, v)[j] == s[j],
        i >= s.len() ==> replaced(s, i, v) == s,
{
}

} // verus!
