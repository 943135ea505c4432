//! The console: the bytes that were put out and the bytes that wait to be
//! read.

use std::collections::VecDeque;
use vstd::prelude::*;

verus! {

/// The console of the platform.
pub struct Console {
    pub output: Vec<u8>,
    pub input: VecDeque<u8>,
}

impl Console {
    /// A console on which nothing was put out and nothing waits.
    pub fn new() -> (c: Self)
        ensures
            c.output@.len() == 0,
            c.input@.len() == 0,
    {
        Console { output: Vec::new(), input: VecDeque::new() }
    }

    /// Puts out one byte.
    pub fn putchar(&mut self, c: u8)
        ensures
            final(self).output@ == old(self).output@.push(c),
            final(self).input@ == old(self).input@,
    {
        self.output.push(c);
    }

    /// Takes the next byte that waits to be read, if there is one.
    pub fn getchar(&mut self) -> (r: Option<u8>)
        ensures
            final(self).output@ == old(self).output@,
            r == (if old(self).input@.len() > 0 {
                Some(old(self).input@[0])
            } else {
                None
            }),
            final(self).input@ == (if old(self).input@.len() > 0 {
                old(self).input@.drop_first()
            } else {
                old(self).input@
            }),
    {
        self.input.pop_front()
    }

    /// Puts out the bytes of `buf`, in order.
    pub fn write_bytes(&mut self, buf: &[u8])
        ensures
            final(self).output@ == old(self).output@ + buf@,
            final(self).input@ == old(self).input@,
    {
        let mut i: usize = 0;
        while i < buf.len()
            invariant
                i <= buf@.len(),
                self.input@ == old(self).input@,
                self.output@ == old(self).output@ + buf@.subrange(0, i as int),
            decreases buf@.len() - i,
        {
            self.putchar(buf[i]);
            i += 1;
            assert(self.output@ =~= old(self).output@ + buf@.subrange(0, i as int));
        }
        assert(buf@.subrange(0, buf@.len() as int) =~= buf@);
    }

    /// Takes up to `count` of the bytes that wait to be read, in order.
    pub fn read_bytes(&mut self, count: usize) -> (out: Vec<u8>)
        ensures
            final(self).output@ == old(self).output@,
            out@ == old(self).input@.subrange(
                0,
                if count <= old(self).input@.len() {
                    count as int
                } else {
                    old(self).input@.len() as int
                },
            ),
            final(self).input@ == old(self).input@.subrange(
                out@.len() as int,
                old(self).input@.len() as int,
            ),
    {
        let mut out: Vec<u8> = Vec::new();
        while out.len() < count && self.input.len() > 0
            invariant
                out@.len() <= count,
                out@.len() <= old(self).input@.len(),
                self.output@ == old(self).output@,
                out@ == old(self).input@.subrange(0, out@.len() as int),
                self.input@ == old(self).input@.subrange(
                    out@.len() as int,
                    old(self).input@.len() as int,
                ),
            decreases self.input@.len(),
        {
            let c = self.input.pop_front().unwrap();
            out.push(c);
            assert(out@ =~= old(self).input@.subrange(0, out@.len() as int));
            assert(self.input@ =~= old(self).input@.subrange(
                out@.len() as int,
                old(self).input@.len() as int,
            ));
        }
        out
    }
}

} // verus!
