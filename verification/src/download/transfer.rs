use vstd::prelude::*;

verus! {

/// The concatenation of a sequence of byte chunks, in order.
pub open spec fn concat_of(chunks: Seq<Seq<u8>>) -> Seq<u8>
    decreases chunks.len(),
{
    if chunks.len() == 0 {
        Seq::empty()
    } else {
        concat_of(chunks.drop_last()) + chunks.last()
    }
}

/// The total number of bytes over a sequence of chunks.
pub open spec fn total_len(chunks: Seq<Seq<u8>>) -> nat
    decreases chunks.len(),
{
    if chunks.len() == 0 {
        0
    } else {
        total_len(chunks.drop_last()) + chunks.last().len()
    }
}

/// Writing one more chunk appends exactly that chunk to the concatenation:
/// chunks are laid down in arrival order, byte for byte.
pub proof fn lemma_concat_of_push(chunks: Seq<Seq<u8>>, c: Seq<u8>)
    ensures
        concat_of(chunks.push(c)) == concat_of(chunks) + c,
{
    assert(chunks.push(c).drop_last() =~= chunks);
    assert(chunks.push(c).last() == c);
}

/// The concatenation of a sequence of chunks is as long as the chunks
/// together: no byte is dropped, added or rewritten on the way to the file.
pub proof fn lemma_concat_of_len(chunks: Seq<Seq<u8>>)
    ensures
        concat_of(chunks).len() == total_len(chunks),
    decreases chunks.len(),
{
    if chunks.len() > 0 {
        lemma_concat_of_len(chunks.drop_last());
    }
}

/// The write side of one download: the bytes that have been handed to the
/// destination file, in arrival order.
///
/// The actual file I/O stays with the caller, which drives this model in
/// lock step with it: `begin` when the file is created (truncating whatever
/// was there), `write_chunk` for each chunk of the response body as it is
/// appended, and `finish` when buffered writes are flushed. The transcript
/// says exactly which bytes the file holds after each step.
pub struct Transfer {
    written: u64,
    finished: bool,
    transcript: Ghost<Seq<u8>>,
}

impl Transfer {
    /// The bytes handed over so far, in order.
    pub closed spec fn content(self) -> Seq<u8> {
        self.transcript@
    }

    /// How many bytes have been handed over.
    pub closed spec fn written_len(self) -> u64 {
        self.written
    }

    /// Whether the transfer has been flushed and closed to further writes.
    pub closed spec fn is_finished(self) -> bool {
        self.finished
    }

    /// The byte count tracks the transcript.
    pub open spec fn wf(self) -> bool {
        self.written_len() == self.content().len()
    }

    /// Starts a transfer for a freshly created destination file. Creation
    /// truncates: the transcript starts empty whatever stood at the path
    /// before, so the finished file holds this download's bytes alone.
    pub fn begin() -> (t: Transfer)
        ensures
            t.wf(),
            !t.is_finished(),
            t.content() == Seq::<u8>::empty(),
            t.written_len() == 0,
    {
        Transfer { written: 0, finished: false, transcript: Ghost(Seq::empty()) }
    }

    /// Records one chunk of the response body, appended to the file in
    /// arrival order with byte-for-byte fidelity.
    pub fn write_chunk(&mut self, chunk: &[u8])
        requires
            old(self).wf(),
            !old(self).is_finished(),
            old(self).written_len() + chunk@.len() <= u64::MAX,
        ensures
            final(self).wf(),
            !final(self).is_finished(),
            final(self).content() == old(self).content() + chunk@,
            final(self).written_len() == old(self).written_len() + chunk@.len(),
    {
        self.written = self.written + chunk.len() as u64;
        proof {
            self.transcript@ = self.transcript@ + chunk@;
        }
    }

    /// Ends the transfer once the stream is exhausted and buffered writes
    /// are forced out: the content is complete and no write follows.
    pub fn finish(&mut self)
        requires
            old(self).wf(),
            !old(self).is_finished(),
        ensures
            final(self).wf(),
            final(self).is_finished(),
            final(self).content() == old(self).content(),
            final(self).written_len() == old(self).written_len(),
    {
        self.finished = true;
    }

    /// How many bytes this transfer has handed to the file.
    pub fn written(&self) -> (n: u64)
        ensures
            n == self.written_len(),
    {
        self.written
    }

    /// Records a whole body given as chunks, in order: afterwards the
    /// transcript has grown by exactly their concatenation.
    pub fn write_chunks(&mut self, chunks: &Vec<Vec<u8>>)
        requires
            old(self).wf(),
            !old(self).is_finished(),
            old(self).written_len() + total_len(chunks@.map_values(|c: Vec<u8>| c@))
                <= u64::MAX,
        ensures
            final(self).wf(),
            !final(self).is_finished(),
            final(self).content() == old(self).content() + concat_of(
                chunks@.map_values(|c: Vec<u8>| c@),
            ),
            final(self).written_len() == old(self).written_len() + total_len(
                chunks@.map_values(|c: Vec<u8>| c@),
            ),
    {
        let ghost all = chunks@.map_values(|c: Vec<u8>| c@);
        let mut i: usize = 0;
        proof {
            assert(all.subrange(0, 0) =~= Seq::<Seq<u8>>::empty());
        }
        while i < chunks.len()
            invariant
                0 <= i <= chunks.len(),
                all == chunks@.map_values(|c: Vec<u8>| c@),
                self.wf(),
                !self.is_finished(),
                self.content() == old(self).content() + concat_of(all.subrange(0, i as int)),
                self.written_len() == old(self).written_len() + total_len(
                    all.subrange(0, i as int),
                ),
                old(self).written_len() + total_len(all) <= u64::MAX,
            decreases chunks.len() - i,
        {
            proof {
                assert(all.subrange(0, i + 1).drop_last() =~= all.subrange(0, i as int));
                assert(all.subrange(0, i + 1).last() == all[i as int]);
                lemma_total_len_prefix_le(all, i + 1);
                lemma_concat_of_len(all.subrange(0, i as int));
            }
            self.write_chunk(chunks[i].as_slice());
            i = i + 1;
        }
        proof {
            assert(all.subrange(0, chunks@.len() as int) =~= all);
        }
    }
}

/// The bytes of a prefix of the chunks are no more than the bytes of all of
/// them.
proof fn lemma_total_len_prefix_le(chunks: Seq<Seq<u8>>, j: int)
    requires
        0 <= j <= chunks.len(),
    ensures
        total_len(chunks.subrange(0, j)) <= total_len(chunks),
    decreases chunks.len() - j,
{
    if j == chunks.len() {
        assert(chunks.subrange(0, j) =~= chunks);
    } else {
        assert(chunks.subrange(0, j + 1).drop_last() =~= chunks.subrange(0, j));
        lemma_total_len_prefix_le(chunks, j + 1);
    }
}

} // verus!
