//! Buffer utilities: grow-or-reuse owned byte buffers. Buffers only ever
//! grow, and bytes exposed by growth are zero-initialized.

use vstd::prelude::*;

verus! {

/// Ensure `raw_buf` is at least `needed` bytes long. Existing contents are
/// kept; newly exposed bytes are zero. The buffer never shrinks.
pub fn get_sized_buf(raw_buf: &mut Vec<u8>, needed: usize)
    ensures
        final(raw_buf)@.len() >= needed,
        final(raw_buf)@.len() >= old(raw_buf)@.len(),
        final(raw_buf)@.len() == if old(raw_buf)@.len() >= needed {
            old(raw_buf)@.len()
        } else {
            needed as nat
        },
        final(raw_buf)@.take(old(raw_buf)@.len() as int) == old(raw_buf)@,
        forall|j: int|
            old(raw_buf)@.len() <= j < final(raw_buf)@.len() ==> final(raw_buf)@[j] == 0,
{
    let ghost orig = raw_buf@;
    proof {
        assert(raw_buf@.take(orig.len() as int) =~= orig);
    }
    while raw_buf.len() < needed
        invariant
            raw_buf@.len() >= orig.len(),
            raw_buf@.take(orig.len() as int) == orig,
            forall|j: int| orig.len() <= j < raw_buf@.len() ==> raw_buf@[j] == 0,
            raw_buf@.len() <= needed || raw_buf@.len() == orig.len(),
        decreases needed - raw_buf@.len(),
    {
        raw_buf.push(0);
        proof {
            assert(raw_buf@.take(orig.len() as int) =~= orig);
        }
    }
}

/// Lazily allocate a buffer cell: a `None` cell receives a fresh empty
/// buffer with the given capacity; an existing buffer is never replaced.
pub fn init_buf(buf: &mut Option<Vec<u8>>, default_cap: usize)
    ensures
        (*final(buf)) is Some,
        (*old(buf)) is Some ==> *final(buf) == *old(buf),
        (*old(buf)) is None ==> (*final(buf)).unwrap()@ == Seq::<u8>::empty(),
{
    if buf.is_none() {
        *buf = Some(Vec::with_capacity(default_cap));
    }
}

/// Copy `src[src_start..src_end]` into `dst` starting at `dst_start`,
/// leaving every other byte of `dst` unchanged.
pub fn copy_into(dst: &mut Vec<u8>, dst_start: usize, src: &Vec<u8>, src_start: usize, src_end: usize)
    requires
        src_start <= src_end <= src@.len(),
        dst_start + (src_end - src_start) <= old(dst)@.len(),
    ensures
        final(dst)@.len() == old(dst)@.len(),
        final(dst)@ == old(dst)@.take(dst_start as int) + src@.subrange(
            src_start as int,
            src_end as int,
        ) + old(dst)@.skip(dst_start + (src_end - src_start)),
{
    let ghost orig = dst@;
    let dst_len: usize = dst.len();
    let src_len: usize = src.len();
    let n: usize = src_end - src_start;
    let mut j: usize = 0;
    while j < n
        invariant
            n == src_end - src_start,
            src_start <= src_end <= src@.len(),
            src@.len() == src_len,
            dst_start + n <= orig.len(),
            orig.len() == dst_len,
            j <= n,
            dst@.len() == orig.len(),
            dst@.take(dst_start as int) == orig.take(dst_start as int),
            dst@.subrange(dst_start as int, dst_start + j) == src@.subrange(
                src_start as int,
                src_start + j,
            ),
            dst@.skip(dst_start + n) == orig.skip(dst_start + n),
        decreases n - j,
    {
        let b: u8 = src[src_start + j];
        dst.set(dst_start + j, b);
        proof {
            assert(dst@.take(dst_start as int) =~= orig.take(dst_start as int));
            assert(dst@.subrange(dst_start as int, dst_start + j + 1) =~= src@.subrange(
                src_start as int,
                src_start + j + 1,
            ));
            assert(dst@.skip(dst_start + n) =~= orig.skip(dst_start + n));
        }
        j = j + 1;
    }
    proof {
        assert(dst@ =~= orig.take(dst_start as int) + src@.subrange(
            src_start as int,
            src_end as int,
        ) + orig.skip(dst_start + n));
    }
}

/// A fresh vector holding `src[start..end]`.
pub fn vec_subrange(src: &Vec<u8>, start: usize, end: usize) -> (r: Vec<u8>)
    requires
        start <= end <= src@.len(),
    ensures
        r@ == src@.subrange(start as int, end as int),
{
    let mut out: Vec<u8> = Vec::new();
    let mut j: usize = start;
    while j < end
        invariant
            start <= j <= end <= src@.len(),
            out@ == src@.subrange(start as int, j as int),
        decreases end - j,
    {
        out.push(src[j]);
        proof {
            assert(out@ =~= src@.subrange(start as int, j + 1));
        }
        j = j + 1;
    }
    out
}

} // verus!
