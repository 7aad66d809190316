//! Moving data between the kernel and the scattered buffers of a process.

use vstd::prelude::*;

use crate::bytes;
use crate::parse;

verus! {

/// The bytes of the first `k` buffers, one after the other.
pub open spec fn flat_prefix(bufs: Seq<Vec<u8>>, k: int) -> Seq<u8>
    decreases k,
{
    if k <= 0 {
        Seq::empty()
    } else {
        flat_prefix(bufs, k - 1) + bufs[k - 1]@
    }
}

/// The bytes of all buffers, one after the other.
pub open spec fn flat(bufs: Seq<Vec<u8>>) -> Seq<u8> {
    flat_prefix(bufs, bufs.len() as int)
}

/// Collects the bytes that a process wants to write.
pub fn gather(buffers: &Vec<Vec<u8>>) -> (data: Vec<u8>)
    ensures
        data@ == flat(buffers@),
{
    let mut data: Vec<u8> = Vec::new();
    let mut i: usize = 0;
    while i < buffers.len()
        invariant
            i <= buffers.len(),
            data@ == flat_prefix(buffers@, i as int),
        decreases buffers.len() - i,
    {
        bytes::push_all(&mut data, &buffers[i]);
        i = i + 1;
    }
    data
}

/// Buffers that agree from position `i` on have the same bytes behind it.
proof fn lemma_same_rest(a: Seq<Vec<u8>>, b: Seq<Vec<u8>>, i: int, k: int)
    requires
        0 <= i <= k <= a.len(),
        a.len() == b.len(),
        forall|j: int| i <= j < a.len() ==> a[j] == b[j],
        flat_prefix(a, i).len() == flat_prefix(b, i).len(),
    ensures
        flat_prefix(b, k).len() >= flat_prefix(b, i).len(),
        flat_prefix(a, k) == flat_prefix(a, i) + flat_prefix(b, k).skip(
            flat_prefix(b, i).len() as int,
        ),
    decreases k - i,
{
    let n = flat_prefix(b, i).len() as int;
    if i < k {
        lemma_same_rest(a, b, i, k - 1);
        assert(flat_prefix(b, k).skip(n) =~= flat_prefix(b, k - 1).skip(n) + b[k - 1]@);
        assert(flat_prefix(a, k) =~= flat_prefix(a, i) + flat_prefix(b, k).skip(n));
    } else {
        assert(flat_prefix(b, i).skip(n) =~= Seq::<u8>::empty());
        assert(flat_prefix(a, k) =~= flat_prefix(a, i) + flat_prefix(b, k).skip(n));
    }
}

/// Buffers that agree before position `i` have the same bytes there.
proof fn lemma_same_prefix(a: Seq<Vec<u8>>, b: Seq<Vec<u8>>, i: int)
    requires
        i <= a.len(),
        i <= b.len(),
        forall|j: int| 0 <= j < i ==> a[j] == b[j],
    ensures
        flat_prefix(a, i) == flat_prefix(b, i),
    decreases i,
{
    if i > 0 {
        lemma_same_prefix(a, b, i - 1);
    }
}

/// The `n` bytes of `data` from `start` on, then what follows position `n` of
/// `tail`.
fn overlay(data: &[u8], start: usize, n: usize, tail: &Vec<u8>) -> (out: Vec<u8>)
    requires
        start + n <= data.len(),
        n <= tail.len(),
    ensures
        out@ == data@.subrange(start as int, start + n) + tail@.skip(n as int),
{
    let mut out = bytes::slice_to_vec(data, start, start + n);
    let rest = bytes::slice_to_vec(tail, n, tail.len());
    assert(rest@ =~= tail@.skip(n as int));
    bytes::push_all(&mut out, &rest);
    out
}

/// Copies `data` into the buffers of a process, filling them in order, and
/// returns how many bytes were copied.
pub fn copy_to_user(buf: &mut Vec<Vec<u8>>, data: &[u8]) -> (left: usize)
    ensures
        left == parse::min(flat(old(buf)@).len() as int, data@.len() as int),
        final(buf)@.len() == old(buf)@.len(),
        forall|i: int|
            0 <= i < final(buf)@.len() ==> (#[trigger] final(buf)@[i])@.len() == old(
                buf,
            )@[i]@.len(),
        flat(final(buf)@) == data@.take(left as int) + flat(old(buf)@).skip(left as int),
{
    let data_len = data.len();
    let mut left: usize = 0;
    let mut i: usize = 0;
    let ghost before = buf@;
    assert(flat_prefix(buf@, 0) =~= data@.take(0) + flat_prefix(before, 0).skip(0));
    while i < buf.len() && left < data_len
        invariant
            data_len == data@.len(),
            i <= buf@.len(),
            buf@.len() == before.len(),
            left == parse::min(flat_prefix(before, i as int).len() as int, data_len as int),
            left < data_len ==> left == flat_prefix(before, i as int).len(),
            forall|j: int| 0 <= j < i ==> (#[trigger] buf@[j])@.len() == before[j]@.len(),
            forall|j: int| i <= j < buf@.len() ==> buf@[j] == before[j],
            flat_prefix(buf@, i as int) == data@.take(left as int) + flat_prefix(
                before,
                i as int,
            ).skip(left as int),
        decreases buf.len() - i,
    {
        let rest = data_len - left;
        let n: usize = if buf[i].len() <= rest {
            buf[i].len()
        } else {
            rest
        };
        let filled = overlay(data, left, n, &buf[i]);
        let ghost prev = buf@;
        buf.set(i, filled);
        proof {
            lemma_same_prefix(buf@, prev, i as int);
            let done = flat_prefix(before, i as int);
            let next = flat_prefix(before, i + 1);
            assert(done.skip(left as int) =~= Seq::<u8>::empty());
            assert(data@.take(left + n) =~= data@.take(left as int) + data@.subrange(
                left as int,
                left + n,
            ));
            assert(next.skip(left + n) =~= before[i as int]@.skip(n as int));
            assert(flat_prefix(buf@, i + 1) =~= data@.take(left + n) + next.skip(left + n));
        }
        left = left + n;
        i = i + 1;
    }
    proof {
        lemma_same_lengths(buf@, before, i as int);
        lemma_same_rest(buf@, before, i as int, before.len() as int);
        let k = flat_prefix(before, i as int).len() as int;
        lemma_prefix_of_flat(before, i as int, before.len() as int);
        assert(flat(before).skip(left as int) =~= flat_prefix(before, i as int).skip(left as int)
            + flat(before).skip(k));
        assert(flat(buf@) =~= data@.take(left as int) + flat(before).skip(left as int));
    }
    left
}

/// Buffers of the same lengths have as many bytes.
proof fn lemma_same_lengths(a: Seq<Vec<u8>>, b: Seq<Vec<u8>>, i: int)
    requires
        0 <= i <= a.len(),
        i <= b.len(),
        forall|j: int| 0 <= j < i ==> (#[trigger] a[j])@.len() == b[j]@.len(),
    ensures
        flat_prefix(a, i).len() == flat_prefix(b, i).len(),
    decreases i,
{
    if i > 0 {
        lemma_same_lengths(a, b, i - 1);
        assert(a[i - 1]@.len() == b[i - 1]@.len());
    }
}

/// The bytes of the first buffers start the bytes of more buffers.
proof fn lemma_prefix_of_flat(b: Seq<Vec<u8>>, i: int, k: int)
    requires
        0 <= i <= k <= b.len(),
    ensures
        flat_prefix(b, i).len() <= flat_prefix(b, k).len(),
        flat_prefix(b, k).take(flat_prefix(b, i).len() as int) == flat_prefix(b, i),
    decreases k - i,
{
    let n = flat_prefix(b, i).len() as int;
    if i < k {
        lemma_prefix_of_flat(b, i, k - 1);
        assert(flat_prefix(b, k).take(n) =~= flat_prefix(b, k - 1).take(n));
    } else {
        assert(flat_prefix(b, k).take(n) =~= flat_prefix(b, i));
    }
}

/// Data that fits the buffers can be gathered again from their start.
pub proof fn law_copied_data_can_be_gathered(
    before: Seq<Vec<u8>>,
    after: Seq<Vec<u8>>,
    data: Seq<u8>,
)
    requires
        data.len() <= flat(before).len(),
        flat(after) == data.take(data.len() as int) + flat(before).skip(data.len() as int),
    ensures
        flat(after).take(data.len() as int) == data,
        flat(after).skip(data.len() as int) == flat(before).skip(data.len() as int),
{
    assert(flat(after).take(data.len() as int) =~= data);
    assert(flat(after).skip(data.len() as int) =~= flat(before).skip(data.len() as int));
}

/// A scattered buffer reads as its parts one after another.
pub proof fn law_parts_are_joined_in_order(bufs: Seq<Vec<u8>>, next: Vec<u8>)
    ensures
        flat(Seq::empty()) == Seq::<u8>::empty(),
        flat(bufs.push(next)) == flat(bufs) + next@,
{
    lemma_prefix_of_push(bufs, next, bufs.len() as int);
}

/// A part at the end does not change what stands in front of it.
proof fn lemma_prefix_of_push(bufs: Seq<Vec<u8>>, next: Vec<u8>, k: int)
    requires
        0 <= k <= bufs.len(),
    ensures
        flat_prefix(bufs.push(next), k) == flat_prefix(bufs, k),
    decreases k,
{
    if k > 0 {
        lemma_prefix_of_push(bufs, next, k - 1);
    }
}

} // verus!
