//! A line-by-line reader over a buffered byte stream of diff text,
//! tracking how much of the current line is valid UTF-8.
//!
//! This is the reading end of the text diff backend: the stream is the
//! output of an external unified-diff process, read one line at a time and
//! handed to the diff-text parser.

use vstd::prelude::*;

use crate::errors::BlameError;
use crate::line_read_buffer::{
    line_len, read_until_newline, utf8_lossy, utf8_lossy_string, utf8_prefix_len,
    utf8_valid_prefix,
};

verus! {

/// The current line of a buffered byte stream.
#[derive(Debug)]
pub struct GitDiffLine<R> {
    pub buffer: Vec<u8>,
    pub valid_len: usize,
    pub invalid_len: usize,
    pub inner: R,
}

impl<R: std::io::BufRead> GitDiffLine<R> {
    /// Wrap a buffered stream; no line has been read yet.
    pub fn new(inner: R) -> (r: GitDiffLine<R>)
        ensures
            r.buffer@ =~= (Seq::<u8>::empty()),
            r.valid_len == 0,
            r.invalid_len == 0,
    {
        GitDiffLine { buffer: Vec::new(), valid_len: 0, invalid_len: 0, inner }
    }

    /// How many bytes of the current line, after its valid UTF-8 prefix,
    /// are not valid UTF-8.
    pub fn invalid_len(&self) -> (r: usize)
        ensures
            r == self.invalid_len,
    {
        self.invalid_len
    }

    /// The current line's bytes decoded leniently, for reporting.
    pub fn to_lossy_string(&self) -> (r: String)
        requires
            self.valid_len + self.invalid_len <= self.buffer@.len(),
        ensures
            r@ == utf8_lossy(self.buffer@.subrange(0, self.valid_len + self.invalid_len)),
    {
        let buffer_len = self.buffer.len();
        proof {
            assert(self.valid_len + self.invalid_len <= buffer_len);
        }
        let upto = self.valid_len + self.invalid_len;
        let mut prefix: Vec<u8> = Vec::new();
        let mut i: usize = 0;
        while i < upto
            invariant
                upto <= self.buffer@.len(),
                i <= upto,
                prefix@ =~= self.buffer@.subrange(0, i as int),
            decreases upto - i,
        {
            prefix.push(self.buffer[i]);
            i = i + 1;
            proof {
                assert(prefix@ =~= self.buffer@.subrange(0, i as int));
            }
        }
        utf8_lossy_string(prefix.as_slice())
    }

    /// The current line's valid UTF-8 prefix, as text.
    pub fn to_valid_string(&self) -> (r: String)
        requires
            self.valid_len <= self.buffer@.len(),
        ensures
            r@ == utf8_lossy(self.buffer@.subrange(0, self.valid_len as int)),
    {
        let upto = self.valid_len;
        let mut prefix: Vec<u8> = Vec::new();
        let mut i: usize = 0;
        while i < upto
            invariant
                upto <= self.buffer@.len(),
                i <= upto,
                prefix@ =~= self.buffer@.subrange(0, i as int),
            decreases upto - i,
        {
            prefix.push(self.buffer[i]);
            i = i + 1;
            proof {
                assert(prefix@ =~= self.buffer@.subrange(0, i as int));
            }
        }
        utf8_lossy_string(prefix.as_slice())
    }

    /// Advance to the next line of the stream.  Returns `Ok(false)` at the
    /// end of the stream, leaving the buffer empty; otherwise the buffer
    /// holds the line as read, and the valid and invalid lengths split the
    /// line (without its terminator) at the end of its valid UTF-8 prefix.
    pub fn next_line(&mut self) -> (r: Result<bool, BlameError>)
        ensures
            r == Ok::<bool, BlameError>(false) ==> {
                &&& final(self).buffer@.len() == 0
                &&& final(self).valid_len == old(self).valid_len
                &&& final(self).invalid_len == old(self).invalid_len
            },
            r == Ok::<bool, BlameError>(true) ==> ({
                let data = final(self).buffer@;
                let len = line_len(data);
                &&& data.len() > 0
                &&& forall|i: int| 0 <= i < data.len() - 1 ==> data[i] != 10u8
                &&& final(self).valid_len == utf8_valid_prefix(data.subrange(0, len))
                &&& final(self).invalid_len == len - final(self).valid_len
            }),
            r is Err ==> r == Err::<bool, BlameError>(BlameError::ReadFailed),
    {
        self.buffer.clear();
        let n = match read_until_newline(&mut self.inner, &mut self.buffer) {
            Ok(n) => n,
            Err(e) => {
                return Err(e);
            },
        };
        if n == 0 {
            return Ok(false);
        }
        let data_len = self.buffer.len();
        let len = if self.buffer[data_len - 1] == 10u8 {
            data_len - 1
        } else {
            data_len
        };
        let mut prefix: Vec<u8> = Vec::new();
        let mut i: usize = 0;
        while i < len
            invariant
                len <= self.buffer@.len(),
                i <= len,
                prefix@ =~= self.buffer@.subrange(0, i as int),
            decreases len - i,
        {
            prefix.push(self.buffer[i]);
            i = i + 1;
            proof {
                assert(prefix@ =~= self.buffer@.subrange(0, i as int));
            }
        }
        let valid = utf8_prefix_len(prefix.as_slice());
        self.valid_len = valid;
        self.invalid_len = len - valid;
        proof {
            assert(line_len(self.buffer@) == len);
        }
        Ok(true)
    }
}

} // verus!
