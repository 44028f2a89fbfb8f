//! The output of a remote command, cut into lines as it arrives.

use crate::text::{decode, decoded};
use vstd::prelude::*;

verus! {

/// The offset of the first newline of `bytes` at or after `from`, or the
/// length of `bytes` where there is none.
pub open spec fn newline_from(bytes: Seq<u8>, from: int) -> int
    decreases bytes.len() - from,
{
    if from < 0 || from >= bytes.len() {
        bytes.len() as int
    } else if bytes[from] == '\n' as u8 {
        from
    } else {
        newline_from(bytes, from + 1)
    }
}

/// The complete lines of `bytes` from `from` on, each without its newline,
/// and the offset at which the text after the last newline begins.
pub open spec fn cut(bytes: Seq<u8>, from: int) -> (Seq<Seq<u8>>, int)
    decreases bytes.len() - from,
{
    let end = newline_from(bytes, from);
    if 0 <= from <= end < bytes.len() {
        let (more, rest) = cut(bytes, end + 1);
        (seq![bytes.subrange(from, end)] + more, rest)
    } else {
        (Seq::empty(), from)
    }
}

/// The lines put together again, each with a newline after it.
pub open spec fn rejoined(lines: Seq<Seq<u8>>) -> Seq<u8>
    decreases lines.len(),
{
    if lines.len() == 0 {
        Seq::empty()
    } else {
        lines[0] + seq!['\n' as u8] + rejoined(lines.drop_first())
    }
}

proof fn lemma_newline_from(bytes: Seq<u8>, from: int)
    requires
        0 <= from <= bytes.len(),
    ensures
        from <= newline_from(bytes, from) <= bytes.len(),
        newline_from(bytes, from) < bytes.len() ==> bytes[newline_from(bytes, from)] == '\n' as u8,
        forall|k: int| from <= k < newline_from(bytes, from) ==> bytes[k] != '\n' as u8,
    decreases bytes.len() - from,
{
    if from < bytes.len() && bytes[from] != '\n' as u8 {
        lemma_newline_from(bytes, from + 1);
    }
}

/// Cutting loses nothing and keeps the order: the lines with their
/// newlines, followed by what is left, are the bytes that were cut. No line
/// holds a newline, and what is left holds none either.
pub proof fn lemma_cut_keeps_all(bytes: Seq<u8>, from: int)
    requires
        0 <= from <= bytes.len(),
    ensures
        from <= cut(bytes, from).1 <= bytes.len(),
        rejoined(cut(bytes, from).0) + bytes.subrange(cut(bytes, from).1, bytes.len() as int)
            == bytes.subrange(from, bytes.len() as int),
        forall|i: int, k: int|
            0 <= i < cut(bytes, from).0.len() && 0 <= k < cut(bytes, from).0[i].len() ==> (
            #[trigger] cut(bytes, from).0[i][k]) != '\n' as u8,
        forall|k: int| cut(bytes, from).1 <= k < bytes.len() ==> bytes[k] != '\n' as u8,
    decreases bytes.len() - from,
{
    lemma_newline_from(bytes, from);
    let end = newline_from(bytes, from);
    if end < bytes.len() {
        lemma_cut_keeps_all(bytes, end + 1);
        let (more, rest) = cut(bytes, end + 1);
        let lines = seq![bytes.subrange(from, end)] + more;
        assert(lines.drop_first() =~= more);
        assert(rejoined(lines) + bytes.subrange(rest, bytes.len() as int) =~= bytes.subrange(
            from,
            bytes.len() as int,
        )) by {
            assert(bytes.subrange(from, bytes.len() as int) =~= bytes.subrange(from, end) + seq![
                '\n' as u8,
            ] + bytes.subrange(end + 1, bytes.len() as int));
        }
        assert forall|i: int, k: int| 0 <= i < lines.len() && 0 <= k < lines[i].len() implies (
        #[trigger] lines[i][k]) != '\n' as u8 by {
            if i > 0 {
                assert(lines[i] == more[i - 1]);
            }
        }
    } else {
        assert(rejoined(Seq::<Seq<u8>>::empty()) + bytes.subrange(from, bytes.len() as int)
            =~= bytes.subrange(from, bytes.len() as int));
    }
}

proof fn lemma_newline_shift(bytes: Seq<u8>, from: int, k: int)
    requires
        0 <= from <= k <= bytes.len(),
    ensures
        newline_from(bytes, k) == from + newline_from(bytes.skip(from), k - from),
    decreases bytes.len() - k,
{
    if k < bytes.len() {
        assert(bytes.skip(from)[k - from] == bytes[k]);
        if bytes[k] != '\n' as u8 {
            lemma_newline_shift(bytes, from, k + 1);
        }
    }
}

proof fn lemma_cut_shift(bytes: Seq<u8>, from: int, k: int)
    requires
        0 <= from <= k <= bytes.len(),
    ensures
        cut(bytes, k).0 == cut(bytes.skip(from), k - from).0,
        cut(bytes, k).1 == from + cut(bytes.skip(from), k - from).1,
    decreases bytes.len() - k,
{
    lemma_newline_shift(bytes, from, k);
    lemma_newline_from(bytes, k);
    let end = newline_from(bytes, k);
    if end < bytes.len() {
        lemma_cut_shift(bytes, from, end + 1);
        assert(bytes.subrange(k, end) =~= bytes.skip(from).subrange(k - from, end - from));
    }
}

proof fn lemma_newline_extend(first: Seq<u8>, second: Seq<u8>, from: int)
    requires
        0 <= from <= first.len(),
        newline_from(first, from) < first.len(),
    ensures
        newline_from(first + second, from) == newline_from(first, from),
    decreases first.len() - from,
{
    if from < first.len() {
        assert((first + second)[from] == first[from]);
        if first[from] != '\n' as u8 {
            lemma_newline_extend(first, second, from + 1);
        }
    }
}

proof fn lemma_cut_extend(first: Seq<u8>, second: Seq<u8>, from: int)
    requires
        0 <= from <= first.len(),
    ensures
        cut(first + second, from).0 == cut(first, from).0 + cut(
            first.skip(cut(first, from).1) + second,
            0,
        ).0,
        cut(first + second, from).1 == cut(first, from).1 + cut(
            first.skip(cut(first, from).1) + second,
            0,
        ).1,
    decreases first.len() - from,
{
    lemma_newline_from(first, from);
    let end = newline_from(first, from);
    let all = first + second;
    if end < first.len() {
        lemma_newline_extend(first, second, from);
        lemma_cut_extend(first, second, end + 1);
        assert(all.subrange(from, end) =~= first.subrange(from, end));
        let (more, rest) = cut(first, end + 1);
        let tail = cut(first.skip(rest) + second, 0).0;
        assert(seq![first.subrange(from, end)] + (more + tail) =~= (seq![
            first.subrange(from, end),
        ] + more) + tail);
    } else {
        lemma_cut_shift(all, from, from);
        assert(all.skip(from) =~= first.skip(from) + second);
        assert(Seq::<Seq<u8>>::empty() + cut(first.skip(from) + second, 0).0 =~= cut(
            first.skip(from) + second,
            0,
        ).0);
    }
}

/// How the bytes arrive makes no difference: the lines that come out when
/// bytes arrive in two pieces are those that come out when they arrive at
/// once, and what is kept for later is the same.
pub proof fn lemma_pieces_make_no_difference(first: Seq<u8>, second: Seq<u8>)
    ensures
        cut(first + second, 0).0 == cut(first, 0).0 + cut(
            first.skip(cut(first, 0).1) + second,
            0,
        ).0,
        (first + second).skip(cut(first + second, 0).1) == (first.skip(cut(first, 0).1)
            + second).skip(cut(first.skip(cut(first, 0).1) + second, 0).1),
{
    lemma_cut_extend(first, second, 0);
    lemma_cut_keeps_all(first, 0);
    let kept = first.skip(cut(first, 0).1);
    lemma_cut_keeps_all(kept + second, 0);
    assert((first + second).skip(cut(first + second, 0).1) =~= (kept + second).skip(
        cut(kept + second, 0).1,
    ));
}

/// The texts of lines of bytes.
pub open spec fn line_texts(lines: Seq<Seq<u8>>) -> Seq<Seq<char>> {
    Seq::new(lines.len(), |i: int| decoded(lines[i]))
}

/// One stream of output. Bytes go in as they arrive; complete lines come
/// out as soon as their newline has arrived.
#[derive(Debug)]
pub struct LineBuffer {
    pending: Vec<u8>,
}

impl View for LineBuffer {
    type V = Seq<u8>;

    /// The bytes that have arrived after the last newline.
    closed spec fn view(&self) -> Seq<u8> {
        self.pending@
    }
}

impl LineBuffer {
    /// A buffer that holds nothing.
    pub fn new() -> (r: LineBuffer)
        ensures
            r@ == Seq::<u8>::empty(),
    {
        LineBuffer { pending: Vec::new() }
    }

    /// Takes the bytes that have arrived and yields the lines that they
    /// complete, in order and without their newlines. What follows the last
    /// newline is kept for later.
    pub fn feed(&mut self, chunk: &[u8]) -> (r: Vec<String>)
        ensures
            crate::text::strings_view(r@) == line_texts(cut(old(self)@ + chunk@, 0).0),
            final(self)@ == (old(self)@ + chunk@).skip(cut(old(self)@ + chunk@, 0).1),
    {
        let ghost all = self.pending@ + chunk@;
        let mut k: usize = 0;
        while k < chunk.len()
            invariant
                k <= chunk@.len(),
                self.pending@ == old(self).pending@ + chunk@.take(k as int),
            decreases chunk@.len() - k,
        {
            self.pending.push(chunk[k]);
            k = k + 1;
            assert(self.pending@ =~= old(self).pending@ + chunk@.take(k as int));
        }
        assert(chunk@.take(chunk@.len() as int) =~= chunk@);
        let mut lines: Vec<String> = Vec::new();
        let mut from: usize = 0;
        let mut scan: usize = 0;
        let total: usize = self.pending.len();
        assert(line_texts(cut(all, 0).0) =~= crate::text::strings_view(lines@) + line_texts(
            cut(all, 0).0,
        ));
        while scan < total
            invariant
                from <= scan <= total,
                total == all.len(),
                self.pending@ == all,
                newline_from(all, from as int) == newline_from(all, scan as int),
                line_texts(cut(all, 0).0) == crate::text::strings_view(lines@) + line_texts(
                    cut(all, from as int).0,
                ),
                cut(all, 0).1 == cut(all, from as int).1,
            decreases total - scan,
        {
            if self.pending[scan] == '\n' as u8 {
                let line = decode(
                    vstd::slice::slice_subrange(self.pending.as_slice(), from, scan),
                );
                proof {
                    let (more, rest) = cut(all, scan + 1);
                    assert(cut(all, from as int).0 == seq![all.subrange(from as int, scan as int)]
                        + more);
                    assert(line_texts(seq![all.subrange(from as int, scan as int)] + more)
                        =~= seq![line@] + line_texts(more));
                    assert(crate::text::strings_view(lines@.push(line))
                        =~= crate::text::strings_view(lines@) + seq![line@]);
                    assert(crate::text::strings_view(lines@) + (seq![line@] + line_texts(more))
                        =~= (crate::text::strings_view(lines@) + seq![line@]) + line_texts(
                        more,
                    ));
                }
                lines.push(line);
                from = scan + 1;
            }
            scan = scan + 1;
        }
        proof {
            assert(cut(all, from as int).0 =~= Seq::<Seq<u8>>::empty());
            assert(line_texts(Seq::<Seq<u8>>::empty()) =~= Seq::<Seq<char>>::empty());
            assert(crate::text::strings_view(lines@) + Seq::<Seq<char>>::empty()
                =~= crate::text::strings_view(lines@));
        }
        let mut rest: Vec<u8> = Vec::new();
        let mut m: usize = from;
        while m < total
            invariant
                from <= m <= total,
                total == self.pending@.len(),
                rest@ == self.pending@.subrange(from as int, m as int),
            decreases total - m,
        {
            rest.push(self.pending[m]);
            m = m + 1;
            assert(rest@ =~= self.pending@.subrange(from as int, m as int));
        }
        assert(rest@ =~= all.skip(from as int));
        self.pending = rest;
        lines
    }

    /// Ends the stream: what is left without a newline is the last line.
    pub fn finish(&mut self) -> (r: Option<String>)
        ensures
            final(self)@ == Seq::<u8>::empty(),
            match r {
                Some(line) => old(self)@.len() > 0 && line@ == decoded(old(self)@),
                None => old(self)@.len() == 0,
            },
    {
        if self.pending.len() == 0 {
            return None;
        }
        let line = decode(self.pending.as_slice());
        self.pending = Vec::new();
        Some(line)
    }
}

/// What to do after one round of reading the streams of a command.
#[derive(Clone, Copy, Debug, PartialEq, Eq, Structural)]
pub enum Poll {
    /// Something arrived: read again at once.
    Again,
    /// Nothing arrived and the command goes on: wait a little, then read.
    Wait,
    /// Nothing arrived and the command is over: end the streams.
    Done,
}

/// Decides what follows a round of reading in which `arrived` bytes came
/// in over both streams, `ended` telling whether the command is over.
pub fn after_round(arrived: usize, ended: bool) -> (r: Poll)
    ensures
        r == (if arrived > 0 {
            Poll::Again
        } else if ended {
            Poll::Done
        } else {
            Poll::Wait
        }),
{
    if arrived > 0 {
        Poll::Again
    } else if ended {
        Poll::Done
    } else {
        Poll::Wait
    }
}

} // verus!
