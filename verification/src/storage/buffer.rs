//! Positional reads and writes on a byte buffer: the semantics of an
//! in-memory file.

use vstd::prelude::*;

verus! {

/// The buffer that results from writing `buf` into `v` at offset `pos`:
/// the bytes in `[pos, pos + buf.len())` are replaced, the buffer grows to
/// `pos + buf.len()` when that is past its end, every other byte stays.
pub open spec fn written(v: Seq<u8>, pos: int, buf: Seq<u8>) -> Seq<u8> {
    let end = pos + buf.len();
    let new_len = if end > v.len() { end } else { v.len() as int };
    Seq::new(new_len as nat, |i: int| if pos <= i < end { buf[i - pos] } else { v[i] })
}

/// How many bytes a read at offset `pos` with room for `cap` bytes takes
/// from a buffer of length `len`: none at or past the end, otherwise as
/// many as fit.
pub open spec fn read_count(len: int, pos: int, cap: int) -> int {
    if pos >= len {
        0
    } else if len - pos >= cap {
        cap
    } else {
        len - pos
    }
}

/// The bytes a read at offset `pos` with room for `cap` bytes returns.
pub open spec fn read_bytes(v: Seq<u8>, pos: int, cap: int) -> Seq<u8> {
    if pos >= v.len() {
        Seq::empty()
    } else {
        v.subrange(pos, pos + read_count(v.len() as int, pos, cap))
    }
}

/// The bytes from offset `pos` to the end of `v` (none when `pos` is past
/// the end).
pub open spec fn tail_from(v: Seq<u8>, pos: int) -> Seq<u8> {
    if pos >= v.len() {
        Seq::empty()
    } else {
        v.subrange(pos, v.len() as int)
    }
}

/// Writes `buf` into `v` at offset `pos`, growing `v` when the write
/// reaches past its end. Returns the number of bytes written, which is
/// always all of them.
pub fn write_at(v: &mut Vec<u8>, pos: usize, buf: &[u8]) -> (n: usize)
    requires
        pos <= old(v)@.len(),
        pos + buf@.len() <= usize::MAX,
    ensures
        n == buf@.len(),
        final(v)@ == written(old(v)@, pos as int, buf@),
{
    let end = pos + buf.len();
    if v.len() - pos < buf.len() {
        v.resize(end, 0u8);
    }
    assert(v@.len() >= end);
    let ghost mid = v@;
    let mut i: usize = 0;
    while i < buf.len()
        invariant
            i <= buf@.len(),
            end == pos + buf@.len(),
            pos <= old(v)@.len(),
            v@.len() == mid.len(),
            mid.len() == written(old(v)@, pos as int, buf@).len(),
            mid.len() >= end,
            forall|k: int| 0 <= k < old(v)@.len() && !(pos <= k < end) ==> mid[k] == old(v)@[k],
            forall|k: int| 0 <= k < v@.len() && !(pos <= k < pos + i) ==> v@[k] == mid[k],
            forall|k: int| pos <= k < pos + i ==> v@[k] == buf@[k - pos],
        decreases buf@.len() - i,
    {
        v.set(pos + i, buf[i]);
        i = i + 1;
    }
    assert(v@ =~= written(old(v)@, pos as int, buf@));
    buf.len()
}

/// Reads from `v` at offset `pos` into `buf`: copies as many bytes as fit,
/// none when `pos` is at or past the end, and leaves the rest of `buf`
/// unchanged. Returns the number of bytes copied.
pub fn read_at(v: &[u8], pos: usize, buf: &mut [u8]) -> (n: usize)
    ensures
        n == read_count(v@.len() as int, pos as int, old(buf)@.len() as int),
        final(buf)@.len() == old(buf)@.len(),
        final(buf)@.subrange(0, n as int) == read_bytes(v@, pos as int, old(buf)@.len() as int),
        final(buf)@.subrange(n as int, final(buf)@.len() as int)
            == old(buf)@.subrange(n as int, old(buf)@.len() as int),
{
    if pos >= v.len() {
        assert(final(buf)@.subrange(0, 0) =~= Seq::<u8>::empty());
        return 0;
    }
    let len = v.len();
    let avail = len - pos;
    let n = if avail >= buf.len() { buf.len() } else { avail };
    let mut i: usize = 0;
    while i < n
        invariant
            i <= n,
            n <= buf@.len(),
            pos + n <= len,
            len == v@.len(),
            buf@.len() == old(buf)@.len(),
            forall|k: int| 0 <= k < i ==> buf@[k] == v@[pos + k],
            forall|k: int| i <= k < buf@.len() ==> buf@[k] == old(buf)@[k],
        decreases n - i,
    {
        buf[i] = v[pos + i];
        i = i + 1;
    }
    assert(buf@.subrange(0, n as int) =~= read_bytes(v@, pos as int, old(buf)@.len() as int));
    assert(buf@.subrange(n as int, buf@.len() as int)
        =~= old(buf)@.subrange(n as int, old(buf)@.len() as int));
    n
}

/// Appends to `out` every byte of `v` from offset `pos` on. Returns how many
/// bytes were appended.
pub fn read_rest(v: &[u8], pos: usize, out: &mut Vec<u8>) -> (n: usize)
    ensures
        n == tail_from(v@, pos as int).len(),
        final(out)@ == old(out)@ + tail_from(v@, pos as int),
{
    if pos >= v.len() {
        assert(final(out)@ =~= old(out)@ + tail_from(v@, pos as int));
        return 0;
    }
    let mut i: usize = pos;
    while i < v.len()
        invariant
            pos <= i <= v@.len(),
            out@ == old(out)@ + v@.subrange(pos as int, i as int),
        decreases v@.len() - i,
    {
        out.push(v[i]);
        proof {
            assert(v@.subrange(pos as int, i + 1) =~= v@.subrange(pos as int, i as int).push(v@[i as int]));
        }
        i = i + 1;
    }
    v.len() - pos
}

/// What a write leaves, over every buffer: it is as long as the longer of
/// the old buffer and the end of the write; the bytes from `pos` on are
/// `buf` in order; every other byte is the old one.
pub proof fn lemma_write_effect(v: Seq<u8>, pos: int, buf: Seq<u8>)
    requires
        0 <= pos <= v.len(),
    ensures
        written(v, pos, buf).len() == if pos + buf.len() > v.len() { pos + buf.len() } else { v.len() as int },
        forall|k: int| 0 <= k < buf.len() ==> written(v, pos, buf)[pos + k] == #[trigger] buf[k],
        forall|i: int| 0 <= i < v.len() && !(pos <= i < pos + buf.len()) ==> #[trigger] written(v, pos, buf)[i] == v[i],
{
}

/// What a read takes, over every buffer: nothing exactly when the offset
/// is at or past the end; otherwise as many bytes as fit, at least one,
/// copied in order from the offset.
pub proof fn lemma_read_effect(v: Seq<u8>, pos: int, cap: int)
    requires
        0 <= pos,
        0 <= cap,
    ensures
        pos >= v.len() ==> read_count(v.len() as int, pos, cap) == 0 && read_bytes(v, pos, cap).len() == 0,
        pos < v.len() ==> {
            let n = read_count(v.len() as int, pos, cap);
            &&& n == if v.len() - pos < cap { v.len() - pos } else { cap }
            &&& cap > 0 ==> n > 0
            &&& read_bytes(v, pos, cap).len() == n
            &&& forall|k: int| 0 <= k < n ==> #[trigger] read_bytes(v, pos, cap)[k] == v[pos + k]
        },
{
}

/// What reading the rest takes, over every buffer: every byte from the
/// offset to the end, in order, and none when the offset is past the end.
pub proof fn lemma_rest_effect(v: Seq<u8>, pos: int)
    requires
        0 <= pos,
    ensures
        tail_from(v, pos).len() == if pos >= v.len() { 0 } else { v.len() - pos },
        forall|k: int| 0 <= k < tail_from(v, pos).len() ==> #[trigger] tail_from(v, pos)[k] == v[pos + k],
{
}

/// Reading at the offset of a write, with room for exactly the bytes that
/// were written, gives those bytes back.
pub proof fn lemma_read_back_write(v: Seq<u8>, pos: int, buf: Seq<u8>)
    requires
        0 <= pos <= v.len(),
    ensures
        read_count(written(v, pos, buf).len() as int, pos, buf.len() as int) == buf.len(),
        read_bytes(written(v, pos, buf), pos, buf.len() as int) == buf,
{
    assert(read_bytes(written(v, pos, buf), pos, buf.len() as int) =~= buf);
}

/// Two writes, the second starting where the first ended, leave the buffer
/// as one write of both pieces in order.
pub proof fn lemma_consecutive_writes(v: Seq<u8>, pos: int, a: Seq<u8>, b: Seq<u8>)
    requires
        0 <= pos <= v.len(),
    ensures
        written(written(v, pos, a), pos + a.len(), b) == written(v, pos, a + b),
{
    assert(written(written(v, pos, a), pos + a.len(), b) =~= written(v, pos, a + b));
}

/// Reading the rest of a buffer from the offset of a write that reached
/// its end gives exactly the bytes written.
pub proof fn lemma_rest_after_write_to_end(v: Seq<u8>, pos: int, buf: Seq<u8>)
    requires
        0 <= pos <= v.len(),
        pos + buf.len() >= v.len(),
    ensures
        tail_from(written(v, pos, buf), pos) == buf,
{
    assert(tail_from(written(v, pos, buf), pos) =~= buf);
}

} // verus!
