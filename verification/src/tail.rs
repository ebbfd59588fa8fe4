//! The decision core of the log tailer. The file itself is read outside this
//! crate; `LogTail` owns the read cursor and the buffer of bytes read but not
//! yet consumed, detects truncation (the cursor standing past the end of the
//! file means the file was replaced), and hands out one complete line at a
//! time.

use vstd::prelude::*;

verus! {

/// Index of the first line feed in `b`, or `b.len()` if there is none.
pub open spec fn first_newline(b: Seq<u8>) -> int
    decreases b.len(),
{
    if b.len() == 0 {
        0
    } else if b[0] == 10u8 {
        0
    } else {
        1 + first_newline(b.drop_first())
    }
}

proof fn lemma_first_newline_at(b: Seq<u8>, k: int)
    requires
        0 <= k <= b.len(),
        forall|j: int| 0 <= j < k ==> b[j] != 10u8,
        k < b.len() ==> b[k] == 10u8,
    ensures
        first_newline(b) == k,
    decreases k,
{
    if k > 0 {
        lemma_first_newline_at(b.drop_first(), k - 1);
    }
}

/// The tailer's state: the byte offset up to which the file has been read,
/// and the bytes read past the last complete line handed out.
pub struct LogTail {
    pub pos: u64,
    pub buf: Vec<u8>,
}

impl LogTail {
    /// Start tailing at the beginning of the file with nothing buffered.
    pub fn new() -> (t: LogTail)
        ensures
            t.pos == 0,
            t.buf@ == Seq::<u8>::empty(),
    {
        let t = LogTail { pos: 0, buf: Vec::new() };
        proof {
            assert(t.buf@ =~= Seq::<u8>::empty());
        }
        t
    }

    /// Confront the cursor with the file's current length. A cursor past the
    /// end means the file was truncated or replaced: reading restarts at the
    /// start of the new content and buffered bytes of the old file are
    /// dropped. Otherwise nothing changes.
    pub fn observe_len(&mut self, file_len: u64) -> (truncated: bool)
        ensures
            truncated == (old(self).pos > file_len),
            truncated ==> final(self).pos == 0 && final(self).buf@ == Seq::<u8>::empty(),
            !truncated ==> *final(self) == *old(self),
    {
        if self.pos > file_len {
            self.pos = 0;
            self.buf = Vec::new();
            proof {
                assert(self.buf@ =~= Seq::<u8>::empty());
            }
            true
        } else {
            false
        }
    }

    /// How many bytes the file now holds beyond the cursor: what a reader
    /// should fetch next, zero when there is nothing new.
    pub fn bytes_wanted(&self, file_len: u64) -> (n: u64)
        ensures
            n == if file_len >= self.pos {
                file_len - self.pos
            } else {
                0
            },
    {
        if file_len >= self.pos {
            file_len - self.pos
        } else {
            0
        }
    }

    /// Take in bytes read from the file at the cursor: they join the buffer
    /// and advance the cursor.
    pub fn push_chunk(&mut self, chunk: &[u8])
        requires
            old(self).pos + chunk@.len() <= u64::MAX,
        ensures
            final(self).pos == old(self).pos + chunk@.len(),
            final(self).buf@ == old(self).buf@ + chunk@,
    {
        let n = chunk.len();
        let mut i: usize = 0;
        while i < n
            invariant
                n == chunk@.len(),
                i <= n,
                self.pos == old(self).pos,
                self.buf@ == old(self).buf@ + chunk@.subrange(0, i as int),
            decreases n - i,
        {
            let b = chunk[i];
            self.buf.push(b);
            proof {
                assert(self.buf@ =~= old(self).buf@ + chunk@.subrange(0, i + 1));
            }
            i = i + 1;
        }
        proof {
            assert(chunk@.subrange(0, n as int) =~= chunk@);
        }
        self.pos = self.pos + n as u64;
    }

    /// Hand out the first complete buffered line, without its line feed, or
    /// nothing if no line feed is buffered yet (the bytes of an incomplete
    /// line stay put).
    pub fn pop_line(&mut self) -> (r: Option<Vec<u8>>)
        ensures
            final(self).pos == old(self).pos,
            ({
                let b = old(self).buf@;
                let k = first_newline(b);
                if k < b.len() {
                    r matches Some(line) && line@ == b.take(k) && final(self).buf@ == b.skip(k + 1)
                } else {
                    r.is_none() && *final(self) == *old(self)
                }
            }),
    {
        let n = self.buf.len();
        let mut k: usize = 0;
        let mut found = false;
        while !found && k < n
            invariant
                n == self.buf@.len(),
                k <= n,
                forall|j: int| 0 <= j < k ==> self.buf@[j] != 10u8,
                found ==> k < n && self.buf@[k as int] == 10u8,
            decreases n - k + (if found { 0int } else { 1int }),
        {
            if self.buf[k] == 10u8 {
                found = true;
            } else {
                k = k + 1;
            }
        }
        if !found {
            proof {
                lemma_first_newline_at(self.buf@, n as int);
            }
            return None;
        }
        proof {
            lemma_first_newline_at(self.buf@, k as int);
        }
        let mut line: Vec<u8> = Vec::new();
        let mut i: usize = 0;
        while i < k
            invariant
                k < n == self.buf@.len(),
                i <= k,
                self.buf@ == old(self).buf@,
                self.pos == old(self).pos,
                line@ == self.buf@.subrange(0, i as int),
            decreases k - i,
        {
            let b = self.buf[i];
            line.push(b);
            proof {
                assert(line@ =~= self.buf@.subrange(0, i + 1));
            }
            i = i + 1;
        }
        let mut rest: Vec<u8> = Vec::new();
        let mut j: usize = k + 1;
        while j < n
            invariant
                k < n == self.buf@.len(),
                k + 1 <= j <= n,
                self.buf@ == old(self).buf@,
                self.pos == old(self).pos,
                line@ == self.buf@.subrange(0, k as int),
                rest@ == self.buf@.subrange(k + 1, j as int),
            decreases n - j,
        {
            let b = self.buf[j];
            rest.push(b);
            proof {
                assert(rest@ =~= self.buf@.subrange(k + 1, j + 1));
            }
            j = j + 1;
        }
        proof {
            assert(rest@ =~= Seq::<u8>::empty() + self.buf@.subrange(k + 1, n as int));
            assert(line@ =~= old(self).buf@.take(k as int));
            assert(rest@ =~= old(self).buf@.skip(k + 1));
        }
        self.buf = rest;
        Some(line)
    }
}

} // verus!
