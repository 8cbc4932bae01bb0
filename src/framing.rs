//! Newline framing of one relay direction. Bytes are appended as they are
//! read; complete lines leave from the front, and a trailing partial line
//! waits for the bytes that complete it.

use vstd::prelude::*;

verus! {

/// The byte that ends a line of the line-delimited protocol.
pub const NEWLINE: u8 = 10;

/// The length of the longest prefix of `s` that ends with a newline
/// (zero when `s` holds no newline).
pub open spec fn complete_len(s: Seq<u8>) -> nat
    decreases s.len(),
{
    if s.len() == 0 {
        0
    } else if s.last() == NEWLINE {
        s.len()
    } else {
        complete_len(s.drop_last())
    }
}

pub open spec fn has_no_newline(s: Seq<u8>) -> bool {
    forall|i: int| 0 <= i < s.len() ==> s[i] != NEWLINE
}

/// One framed unit: bytes that end with the only newline they hold.
pub open spec fn is_line(l: Seq<u8>) -> bool {
    &&& l.len() > 0
    &&& l.last() == NEWLINE
    &&& has_no_newline(l.drop_last())
}

/// The bytes that a direction has forwarded after reading `chunks`, one
/// chunk per read call, starting from an empty buffer.
pub open spec fn relay_written(chunks: Seq<Seq<u8>>) -> Seq<u8>
    decreases chunks.len(),
{
    if chunks.len() == 0 {
        Seq::empty()
    } else {
        let all = relay_pending(chunks.drop_last()) + chunks.last();
        relay_written(chunks.drop_last()) + all.take(complete_len(all) as int)
    }
}

/// The bytes that a direction still holds after reading `chunks`.
pub open spec fn relay_pending(chunks: Seq<Seq<u8>>) -> Seq<u8>
    decreases chunks.len(),
{
    if chunks.len() == 0 {
        Seq::empty()
    } else {
        let all = relay_pending(chunks.drop_last()) + chunks.last();
        all.skip(complete_len(all) as int)
    }
}

pub proof fn lemma_complete_len_bounds(s: Seq<u8>)
    ensures
        complete_len(s) <= s.len(),
        complete_len(s) > 0 ==> s[complete_len(s) - 1] == NEWLINE,
        has_no_newline(s.skip(complete_len(s) as int)),
    decreases s.len(),
{
    if s.len() > 0 && s.last() != NEWLINE {
        lemma_complete_len_bounds(s.drop_last());
        assert forall|i: int| 0 <= i < s.skip(complete_len(s) as int).len() implies
            s.skip(complete_len(s) as int)[i] != NEWLINE by {
            if complete_len(s) + i < s.len() - 1 {
                assert(s.skip(complete_len(s) as int)[i] == s.drop_last().skip(
                    complete_len(s) as int,
                )[i]);
            }
        }
    }
}

pub proof fn lemma_complete_len_no_newline(s: Seq<u8>)
    requires
        has_no_newline(s),
    ensures
        complete_len(s) == 0,
    decreases s.len(),
{
    if s.len() > 0 {
        assert(s.last() == s[s.len() - 1]);
        lemma_complete_len_no_newline(s.drop_last());
    }
}

/// A newline in the appended part decides where the complete prefix ends.
pub proof fn lemma_complete_len_append(x: Seq<u8>, y: Seq<u8>)
    ensures
        complete_len(x + y) == if complete_len(y) > 0 {
            x.len() + complete_len(y)
        } else {
            complete_len(x)
        },
    decreases y.len(),
{
    if y.len() == 0 {
        assert(x + y =~= x);
    } else {
        assert((x + y).drop_last() =~= x + y.drop_last());
        assert((x + y).last() == y.last());
        lemma_complete_len_append(x, y.drop_last());
    }
}

/// Everything a direction forwards for a stream read as `chunks`: the lines
/// forwarded read by read, then what it still held when the stream ended.
pub open spec fn relay_output(chunks: Seq<Seq<u8>>) -> Seq<u8> {
    relay_written(chunks) + relay_pending(chunks)
}

/// Relay fidelity: however the incoming bytes are split across read calls,
/// what a direction forwards is exactly the incoming bytes: line by line up
/// to the last newline, and the rest when the stream ends.
pub proof fn lemma_relay_fidelity(chunks: Seq<Seq<u8>>)
    ensures
        relay_written(chunks) == chunks.flatten().take(complete_len(chunks.flatten()) as int),
        relay_written(chunks) + relay_pending(chunks) == chunks.flatten(),
        relay_output(chunks) == chunks.flatten(),
        has_no_newline(relay_pending(chunks)),
        chunks.flatten().len() == 0 || chunks.flatten().last() == NEWLINE ==> relay_written(
            chunks,
        ) == chunks.flatten(),
    decreases chunks.len(),
{
    let c = chunks.flatten();
    if chunks.len() == 0 {
        assert(c.take(0) =~= c);
    } else {
        let prev = chunks.drop_last();
        let last = chunks.last();
        lemma_relay_fidelity(prev);
        assert(prev.push(last) =~= chunks);
        prev.lemma_flatten_push(last);
        let pc = prev.flatten();
        let p = relay_pending(prev);
        let all = p + last;
        lemma_complete_len_no_newline(p);
        lemma_complete_len_append(p, last);
        lemma_complete_len_append(pc, last);
        lemma_complete_len_bounds(pc);
        lemma_complete_len_bounds(last);
        lemma_complete_len_bounds(all);
        lemma_complete_len_bounds(c);
        let k = complete_len(pc);
        assert(pc.take(k as int) + p =~= pc);
        if complete_len(last) > 0 {
            assert(all.take(complete_len(all) as int) =~= p + last.take(complete_len(last) as int));
            assert(c.take(complete_len(c) as int) =~= pc + last.take(complete_len(last) as int));
            assert(all.skip(complete_len(all) as int) =~= last.skip(complete_len(last) as int));
            assert(c =~= pc + last);
        } else {
            assert(all.take(0) =~= Seq::<u8>::empty());
            assert(relay_written(prev) + all.take(complete_len(all) as int) =~= relay_written(prev));
            assert(c.take(complete_len(c) as int) =~= pc.take(k as int));
            assert(all.skip(0) =~= all);
            assert(c =~= pc + last);
        }
        if c.len() == 0 || c.last() == NEWLINE {
            if c.len() > 0 {
                assert(complete_len(c) == c.len());
            }
            assert(c.take(c.len() as int) =~= c);
        }
    }
}

/// The contents of each buffer, in order.
pub open spec fn views(v: Seq<Vec<u8>>) -> Seq<Seq<u8>> {
    v.map_values(|l: Vec<u8>| l@)
}

/// The pending bytes of one relay direction.
pub struct LineBuffer {
    pending: Vec<u8>,
}

impl View for LineBuffer {
    type V = Seq<u8>;

    closed spec fn view(&self) -> Seq<u8> {
        self.pending@
    }
}

pub(crate) fn copy_range(v: &[u8], lo: usize, hi: usize) -> (r: Vec<u8>)
    requires
        lo <= hi <= v@.len(),
    ensures
        r@ == v@.subrange(lo as int, hi as int),
{
    let mut out: Vec<u8> = Vec::new();
    let mut i: usize = lo;
    while i < hi
        invariant
            lo <= i <= hi <= v@.len(),
            out@ == v@.subrange(lo as int, i as int),
        decreases hi - i,
    {
        out.push(v[i]);
        assert(v@.subrange(lo as int, i + 1) =~= v@.subrange(lo as int, i as int).push(v@[i as int]));
        i += 1;
    }
    out
}

impl LineBuffer {
    /// Holds no complete line between reads.
    pub open spec fn wf(&self) -> bool {
        has_no_newline(self@)
    }

    pub fn new() -> (r: LineBuffer)
        ensures
            r.wf(),
            r@ == Seq::<u8>::empty(),
    {
        LineBuffer { pending: Vec::new() }
    }

    /// The number of bytes waiting for a newline.
    pub fn pending_len(&self) -> (r: usize)
        ensures
            r == self@.len(),
    {
        self.pending.len()
    }

    /// Hands on what is still held when the stream ends, and empties the
    /// buffer.
    pub fn finish(&mut self) -> (rest: Vec<u8>)
        requires
            old(self).wf(),
        ensures
            final(self).wf(),
            rest@ == old(self)@,
            final(self)@ == Seq::<u8>::empty(),
    {
        let mut rest: Vec<u8> = Vec::new();
        std::mem::swap(&mut rest, &mut self.pending);
        rest
    }

    /// Appends the bytes of one read and takes every complete line off the
    /// front, in order; the bytes after the last newline stay.
    pub fn push_chunk(&mut self, chunk: &[u8]) -> (lines: Vec<Vec<u8>>)
        requires
            old(self).wf(),
            old(self)@.len() + chunk@.len() <= usize::MAX,
        ensures
            final(self).wf(),
            ({
                let all = old(self)@ + chunk@;
                &&& views(lines@).flatten() == all.take(complete_len(all) as int)
                &&& final(self)@ == all.skip(complete_len(all) as int)
            }),
            forall|i: int| 0 <= i < lines@.len() ==> is_line(#[trigger] lines@[i]@),
    {
        let ghost old_pending = self@;
        let mut all: Vec<u8> = Vec::new();
        std::mem::swap(&mut all, &mut self.pending);
        all.extend_from_slice(chunk);
        assert(all@ =~= old_pending + chunk@);
        let mut lines: Vec<Vec<u8>> = Vec::new();
        let mut start: usize = 0;
        let mut j: usize = 0;
        while j < all.len()
            invariant
                start <= j <= all@.len(),
                all@ == old_pending + chunk@,
                views(lines@).flatten() == all@.take(start as int),
                has_no_newline(all@.subrange(start as int, j as int)),
                start == complete_len(all@.take(j as int)),
                forall|i: int| 0 <= i < lines@.len() ==> is_line(#[trigger] lines@[i]@),
            decreases all@.len() - j,
        {
            assert(all@.take(j + 1).drop_last() =~= all@.take(j as int));
            if all[j] == NEWLINE {
                let line = copy_range(all.as_slice(), start, j + 1);
                let ghost before = views(lines@);
                let ghost old_lines = lines@;
                lines.push(line);
                assert(lines@ =~= old_lines.push(line));
                assert(views(lines@) =~= before.push(line@));
                proof {
                    before.lemma_flatten_push(line@);
                }
                assert(all@.take(j + 1) =~= all@.take(start as int) + all@.subrange(
                    start as int,
                    j + 1,
                ));
                assert(line@.drop_last() =~= all@.subrange(start as int, j as int));
                start = j + 1;
                assert(all@.subrange(start as int, j + 1) =~= Seq::<u8>::empty());
            } else {
                assert(all@.subrange(start as int, j + 1) =~= all@.subrange(
                    start as int,
                    j as int,
                ).push(all@[j as int]));
            }
            j += 1;
        }
        assert(all@.take(j as int) =~= all@);
        self.pending = copy_range(all.as_slice(), start, all.len());
        assert(all@.skip(start as int) =~= all@.subrange(start as int, all@.len() as int));
        lines
    }
}

} // verus!
