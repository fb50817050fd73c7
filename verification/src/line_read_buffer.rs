//! Reading one line of bytes at a time from a buffered stream, keeping
//! track of how much of the line is valid UTF-8.
//!
//! A line is read up to and including the next line feed; the terminator
//! is not counted.  The valid UTF-8 prefix of the line is measured, so a
//! malformed line can be reported with the exact offending position while
//! the raw bytes stay available for lossy display.

use vstd::prelude::*;

use crate::errors::BlameError;

verus! {

/// What `str::from_utf8` reports through `Utf8Error::valid_up_to`: the
/// length of the longest valid UTF-8 prefix, a function of the bytes
/// alone.
pub uninterp spec fn utf8_valid_prefix(bytes: Seq<u8>) -> int;

/// What `String::from_utf8_lossy` decodes a byte sequence to: a function
/// of the bytes alone.
pub uninterp spec fn utf8_lossy(bytes: Seq<u8>) -> Seq<char>;

/// Relies on str::from_utf8 and Utf8Error::valid_up_to: the length of the
/// longest valid UTF-8 prefix, never more than the slice itself.
#[verifier::external_body]
pub(crate) fn utf8_prefix_len(bytes: &[u8]) -> (r: usize)
    ensures
        r == utf8_valid_prefix(bytes@),
        r <= bytes@.len(),
{
    match core::str::from_utf8(bytes) {
        Ok(s) => s.len(),
        Err(e) => e.valid_up_to(),
    }
}

/// Relies on String::from_utf8_lossy: the decoding depends on the bytes
/// alone, and an empty input decodes to an empty string.
#[verifier::external_body]
pub(crate) fn utf8_lossy_string(bytes: &[u8]) -> (r: String)
    ensures
        r@ == utf8_lossy(bytes@),
        bytes@.len() == 0 ==> r@.len() == 0,
{
    String::from_utf8_lossy(bytes).into_owned()
}

/// Relies on io::BufRead::read_until: appends bytes to `buf` up to and
/// including the next line feed or the end of the stream, returning how
/// many were appended; no appended byte before the last is a line feed.
#[verifier::external_body]
pub(crate) fn read_until_newline<R: std::io::BufRead>(reader: &mut R, buf: &mut Vec<u8>) -> (r:
    Result<usize, BlameError>)
    ensures
        r is Ok ==> final(buf)@.len() == old(buf)@.len() + r.unwrap(),
        r is Ok ==> final(buf)@.subrange(0, old(buf)@.len() as int) == old(buf)@,
        r is Ok ==> (forall|i: int|
            old(buf)@.len() <= i < final(buf)@.len() - 1 ==> final(buf)@[i] != 10u8),
        (r matches Err(e) ==> e == BlameError::ReadFailed),
{
    match reader.read_until(b'\n', buf) {
        Ok(n) => Ok(n),
        Err(_) => Err(BlameError::ReadFailed),
    }
}

/// The bytes of one line as read, without its terminator.
pub open spec fn line_len(data: Seq<u8>) -> int {
    if data.len() > 0 && data.last() == 10u8 {
        data.len() - 1
    } else {
        data.len() as int
    }
}

/// A reusable buffer holding the bytes of the last line read.
#[derive(Debug)]
pub struct LineReadBuffer {
    pub buffer: Vec<u8>,
    pub valid_len: usize,
    pub invalid_len: usize,
}

impl LineReadBuffer {
    /// An empty buffer.
    pub fn new() -> (r: LineReadBuffer)
        ensures
            r.buffer@ =~= (Seq::<u8>::empty()),
            r.valid_len == 0,
            r.invalid_len == 0,
    {
        LineReadBuffer { buffer: Vec::new(), valid_len: 0, invalid_len: 0 }
    }

    /// How many bytes of the line, after its valid UTF-8 prefix, are not
    /// valid UTF-8.
    pub fn invalid_len(&self) -> (r: usize)
        ensures
            r == self.invalid_len,
    {
        self.invalid_len
    }

    /// Length of the line without its terminator.
    fn total_len(&self) -> (r: usize)
        requires
            self.valid_len + self.invalid_len <= usize::MAX,
        ensures
            r == self.valid_len + self.invalid_len,
    {
        self.valid_len + self.invalid_len
    }

    /// The line's bytes decoded leniently, for reporting.
    pub fn to_string_lossy(&self) -> (r: String)
        requires
            self.valid_len + self.invalid_len <= self.buffer@.len(),
        ensures
            r@ == utf8_lossy(
                self.buffer@.subrange(0, self.valid_len + self.invalid_len),
            ),
    {
        let buffer_len = self.buffer.len();
        proof {
            assert(self.valid_len + self.invalid_len <= buffer_len);
        }
        let upto = self.total_len();
        let mut prefix: Vec<u8> = Vec::new();
        let mut i: usize = 0;
        while i < upto
            invariant
                upto <= self.buffer@.len(),
                i <= upto,
                prefix@ =~= self.buffer@.subrange(0, i as int),
            decreases upto - i,
        {
            prefix.push(self.buffer[i]);
            i = i + 1;
            proof {
                assert(prefix@ =~= self.buffer@.subrange(0, i as int));
            }
        }
        utf8_lossy_string(prefix.as_slice())
    }

    /// The line's valid UTF-8 prefix, as text.
    pub fn to_valid_string(&self) -> (r: String)
        requires
            self.valid_len <= self.buffer@.len(),
        ensures
            r@ == utf8_lossy(self.buffer@.subrange(0, self.valid_len as int)),
    {
        let upto = self.valid_len;
        let mut prefix: Vec<u8> = Vec::new();
        let mut i: usize = 0;
        while i < upto
            invariant
                upto <= self.buffer@.len(),
                i <= upto,
                prefix@ =~= self.buffer@.subrange(0, i as int),
            decreases upto - i,
        {
            prefix.push(self.buffer[i]);
            i = i + 1;
            proof {
                assert(prefix@ =~= self.buffer@.subrange(0, i as int));
            }
        }
        utf8_lossy_string(prefix.as_slice())
    }

    /// The error reporting a line that was not fully valid UTF-8: it
    /// carries the length of the valid prefix, the offending position.
    pub fn error(&self) -> (r: BlameError)
        requires
            self.invalid_len > 0,
        ensures
            r == (BlameError::InvalidUtf8 { valid_len: self.valid_len }),
    {
        BlameError::InvalidUtf8 { valid_len: self.valid_len }
    }

    /// Read the next line from a buffered stream.  Returns `Ok(false)` at
    /// the end of the stream, leaving the buffer empty; otherwise the
    /// buffer holds the line as read, and the valid and invalid lengths
    /// split the line (without its terminator) at the end of its valid
    /// UTF-8 prefix.
    pub fn read_line_from<R: std::io::BufRead>(&mut self, reader: &mut R) -> (r: Result<
        bool,
        BlameError,
    >)
        ensures
            r == Ok::<bool, BlameError>(false) ==> {
                &&& final(self).buffer@.len() == 0
                &&& final(self).valid_len == old(self).valid_len
                &&& final(self).invalid_len == old(self).invalid_len
            },
            r == Ok::<bool, BlameError>(true) ==> ({
                let data = final(self).buffer@;
                let len = line_len(data);
                &&& data.len() > 0
                &&& forall|i: int| 0 <= i < data.len() - 1 ==> data[i] != 10u8
                &&& final(self).valid_len == utf8_valid_prefix(data.subrange(0, len))
                &&& final(self).invalid_len == len - final(self).valid_len
            }),
            r is Err ==> r == Err::<bool, BlameError>(BlameError::ReadFailed),
    {
        self.buffer.clear();
        let n = match read_until_newline(reader, &mut self.buffer) {
            Ok(n) => n,
            Err(e) => {
                return Err(e);
            },
        };
        if n == 0 {
            return Ok(false);
        }
        let data_len = self.buffer.len();
        let len = if self.buffer[data_len - 1] == 10u8 {
            data_len - 1
        } else {
            data_len
        };
        let mut prefix: Vec<u8> = Vec::new();
        let mut i: usize = 0;
        while i < len
            invariant
                len <= self.buffer@.len(),
                i <= len,
                prefix@ =~= self.buffer@.subrange(0, i as int),
            decreases len - i,
        {
            prefix.push(self.buffer[i]);
            i = i + 1;
            proof {
                assert(prefix@ =~= self.buffer@.subrange(0, i as int));
            }
        }
        let valid = utf8_prefix_len(prefix.as_slice());
        self.valid_len = valid;
        self.invalid_len = len - valid;
        proof {
            assert(line_len(self.buffer@) == len);
        }
        Ok(true)
    }
}

} // verus!
