use vstd::prelude::*;

verus! {

/// The newline byte that ends each line of a streamed reply.
pub const NEWLINE: u8 = 10;

/// Lines laid end to end, each followed by a newline.
pub open spec fn framed(lines: Seq<Seq<u8>>) -> Seq<u8>
    decreases lines.len(),
{
    if lines.len() == 0 {
        Seq::empty()
    } else {
        framed(lines.drop_last()) + lines.last() + seq![NEWLINE]
    }
}

/// The bytes of each line.
pub open spec fn line_views(lines: Seq<Vec<u8>>) -> Seq<Seq<u8>> {
    lines.map_values(|l: Vec<u8>| l@)
}

/// A byte sequence that holds no newline.
pub open spec fn no_newline(s: Seq<u8>) -> bool {
    forall|k: int| 0 <= k < s.len() ==> s[k] != NEWLINE
}

/// Cuts a byte stream that arrives in chunks of any size into lines. Bytes
/// after the last newline wait for the next chunk.
pub struct LineBuffer {
    pending: Vec<u8>,
}

impl View for LineBuffer {
    type V = Seq<u8>;

    /// The bytes received after the last newline.
    closed spec fn view(&self) -> Seq<u8> {
        self.pending@
    }
}

impl LineBuffer {
    /// Whether no complete line waits in the buffer.
    pub closed spec fn wf(&self) -> bool {
        no_newline(self.pending@)
    }

    /// An empty buffer.
    pub fn new() -> (r: LineBuffer)
        ensures
            r.wf(),
            r@.len() == 0,
    {
        LineBuffer { pending: Vec::new() }
    }

    /// Takes the next chunk and hands out the lines it completes, in order and
    /// without their newlines; what follows the last newline is kept.
    pub fn feed(&mut self, chunk: &[u8]) -> (lines: Vec<Vec<u8>>)
        requires
            old(self).wf(),
        ensures
            final(self).wf(),
            old(self)@ + chunk@ == framed(line_views(lines@)) + final(self)@,
            forall|i: int| 0 <= i < lines.len() ==> no_newline(#[trigger] line_views(lines@)[i]),
    {
        let mut cur: Vec<u8> = Vec::new();
        std::mem::swap(&mut cur, &mut self.pending);
        let ghost start = cur@;
        let mut lines: Vec<Vec<u8>> = Vec::new();
        let mut i: usize = 0;
        proof {
            assert(chunk@.take(0) =~= Seq::<u8>::empty());
            assert(line_views(lines@) =~= Seq::<Seq<u8>>::empty());
            assert(start + chunk@.take(0) =~= framed(line_views(lines@)) + cur@);
        }
        while i < chunk.len()
            invariant
                i <= chunk.len(),
                no_newline(cur@),
                start + chunk@.take(i as int) == framed(line_views(lines@)) + cur@,
                forall|j: int| 0 <= j < lines.len() ==> no_newline(#[trigger] line_views(lines@)[j]),
            decreases chunk.len() - i,
        {
            let b = chunk[i];
            let ghost prev_lines = line_views(lines@);
            let ghost prev_cur = cur@;
            if b == NEWLINE {
                let mut done: Vec<u8> = Vec::new();
                std::mem::swap(&mut done, &mut cur);
                lines.push(done);
                proof {
                    assert(line_views(lines@) =~= prev_lines.push(prev_cur));
                    assert(line_views(lines@).drop_last() =~= prev_lines);
                    assert(start + chunk@.take(i + 1) =~= start + chunk@.take(i as int) + seq![b]);
                    assert(start + chunk@.take(i + 1) =~= framed(line_views(lines@)) + cur@);
                }
            } else {
                cur.push(b);
                proof {
                    assert(start + chunk@.take(i + 1) =~= start + chunk@.take(i as int) + seq![b]);
                    assert(start + chunk@.take(i + 1) =~= framed(line_views(lines@)) + cur@);
                }
            }
            i = i + 1;
        }
        proof {
            assert(chunk@.take(chunk.len() as int) =~= chunk@);
        }
        self.pending = cur;
        lines
    }

    /// At the end of the stream: the last line, when bytes follow the last
    /// newline; the buffer is then empty.
    pub fn finish(&mut self) -> (r: Option<Vec<u8>>)
        requires
            old(self).wf(),
        ensures
            final(self).wf(),
            final(self)@.len() == 0,
            old(self)@.len() == 0 ==> r is None,
            old(self)@.len() > 0 ==> r is Some && r->0@ == old(self)@,
    {
        if self.pending.len() == 0 {
            None
        } else {
            let mut rest: Vec<u8> = Vec::new();
            std::mem::swap(&mut rest, &mut self.pending);
            Some(rest)
        }
    }
}

} // verus!
