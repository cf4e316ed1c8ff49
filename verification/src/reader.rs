use vstd::prelude::*;
use vstd::utf8::{decode_utf8, valid_utf8};
use crate::text::{utf8_error_text, utf8_string};

verus! {

/// Why a line of a request could not be read.
#[derive(Debug, PartialEq, Eq)]
pub enum LineError {
    /// No newline is left: the line runs to the end of the bytes.
    Unterminated,
    /// The line ends in a newline that does not follow `\r`.
    BadEnding,
    /// The line is not valid UTF-8; it holds the text of the decoding error.
    BadUtf8(String),
}

/// A `LineError` with its text taken as characters.
pub enum LineErrorView {
    Unterminated,
    BadEnding,
    BadUtf8(Seq<char>),
}

impl View for LineError {
    type V = LineErrorView;

    open spec fn view(&self) -> LineErrorView {
        match self {
            LineError::Unterminated => LineErrorView::Unterminated,
            LineError::BadEnding => LineErrorView::BadEnding,
            LineError::BadUtf8(t) => LineErrorView::BadUtf8(t@),
        }
    }
}

/// Bytes that a request is read from, front to back.
pub struct ByteReader {
    data: Vec<u8>,
    pos: usize,
}

impl ByteReader {
    #[verifier::type_invariant]
    spec fn inv(self) -> bool {
        self.pos <= self.data.len()
    }

    /// A reader over a copy of `bytes`.
    pub fn new(bytes: &[u8]) -> (r: ByteReader)
        ensures
            r@ == bytes@,
    {
        let mut data: Vec<u8> = Vec::new();
        let mut i: usize = 0;
        while i < bytes.len()
            invariant
                i <= bytes.len(),
                data@ == bytes@.take(i as int),
            decreases bytes.len() - i,
        {
            data.push(bytes[i]);
            i += 1;
        }
        assert(bytes@.take(i as int) == bytes@);
        ByteReader { data, pos: 0 }
    }
}

impl ByteReader {
    /// The number of bytes not read yet.
    pub fn remaining(&self) -> (n: usize)
        ensures
            n == self@.len(),
    {
        proof {
            use_type_invariant(self);
        }
        self.data.len() - self.pos
    }

    /// Reads exactly `n` bytes, or nothing when fewer are left.
    pub fn read_exact(&mut self, n: usize) -> (r: Option<Vec<u8>>)
        ensures
            old(self)@.len() < n ==> r is None && final(self)@ == old(self)@,
            old(self)@.len() >= n ==> (r matches Some(v) && v@ == old(self)@.take(n as int)
                && final(self)@ == old(self)@.skip(n as int)),
    {
        proof {
            use_type_invariant(&*self);
        }
        if self.data.len() - self.pos < n {
            return None;
        }
        let start = self.pos;
        let mut v: Vec<u8> = Vec::new();
        let mut j: usize = 0;
        while j < n
            invariant
                j <= n,
                start + n <= self.data.len(),
                v@ == self.data@.subrange(start as int, start + j),
            decreases n - j,
        {
            v.push(self.data[start + j]);
            j += 1;
        }
        self.pos = start + n;
        assert(v@ == old(self)@.take(n as int));
        assert(self@ == old(self)@.skip(n as int));
        Some(v)
    }
}

impl View for ByteReader {
    type V = Seq<u8>;

    /// The bytes not read yet.
    closed spec fn view(&self) -> Seq<u8> {
        self.data@.skip(self.pos as int)
    }
}

/// The end of what `read_until(b'\n')` takes from `s` when it starts at `i`: just past
/// the first newline at or after `i`, or the end of `s` when there is none.
pub open spec fn line_end(s: Seq<u8>, i: int) -> int
    decreases s.len() - i,
{
    if i >= s.len() {
        s.len() as int
    } else if s[i] == 10u8 {
        i + 1
    } else {
        line_end(s, i + 1)
    }
}

/// The number of bytes that reading one line takes from `s`.
pub open spec fn line_len(s: Seq<u8>) -> int {
    line_end(s, 0)
}

/// The line that `s` begins with: its text without the final `\r\n`, or why it is not one.
pub open spec fn spec_line(s: Seq<u8>) -> Result<Seq<char>, LineErrorView> {
    let n = line_len(s);
    if n == 0 || s[n - 1] != 10u8 {
        Err(LineErrorView::Unterminated)
    } else if n < 2 || s[n - 2] != 13u8 {
        Err(LineErrorView::BadEnding)
    } else if !valid_utf8(s.take(n - 2)) {
        Err(LineErrorView::BadUtf8(utf8_error_text(s.take(n - 2))))
    } else {
        Ok(decode_utf8(s.take(n - 2)))
    }
}

pub proof fn lemma_line_end_bounds(s: Seq<u8>, i: int)
    requires
        0 <= i <= s.len(),
    ensures
        i <= line_end(s, i) <= s.len(),
        line_end(s, i) < s.len() ==> s[line_end(s, i) - 1] == 10u8,
        line_end(s, i) > i && s[line_end(s, i) - 1] != 10u8 ==> line_end(s, i) == s.len(),
    decreases s.len() - i,
{
    if i < s.len() && s[i] != 10u8 {
        lemma_line_end_bounds(s, i + 1);
    }
}

/// The number of bytes that reading one line takes lies between 0 and the length of the input.
pub proof fn lemma_line_len_bounds(s: Seq<u8>)
    ensures
        0 <= line_len(s) <= s.len(),
        line_len(s) == 0 ==> s.len() == 0,
{
    lemma_line_end_bounds(s, 0);
    if s.len() > 0 && s[0] != 10u8 {
        lemma_line_end_bounds(s, 1);
    }
}

/// Reads one line: takes the bytes up to and with the first `\n` (or to the end), and returns
/// them without the final `\r\n` as text.
pub fn read_resp_line(reader: &mut ByteReader) -> (r: Result<String, LineError>)
    ensures
        final(reader)@ == old(reader)@.skip(line_len(old(reader)@)),
        match spec_line(old(reader)@) {
            Ok(line) => r matches Ok(l) && l@ == line,
            Err(e) => r matches Err(x) && x@ == e,
        },
{
    proof {
        use_type_invariant(&*reader);
        lemma_line_len_bounds(reader@);
    }
    let ghost s = reader@;
    let start = reader.pos;
    let len = reader.data.len();
    let mut i = start;
    while i < len && reader.data[i] != 10u8
        invariant
            start <= i <= len,
            len == reader.data.len(),
            start == reader.pos,
            s == reader.data@.skip(start as int),
            line_end(s, (i - start) as int) == line_len(s),
        decreases len - i,
    {
        i += 1;
    }
    let end = if i < len { i + 1 } else { i };
    assert(end - start == line_len(s));
    reader.pos = end;
    if end == start || reader.data[end - 1] != 10u8 {
        return Err(LineError::Unterminated);
    }
    if end - start < 2 || reader.data[end - 2] != 13u8 {
        return Err(LineError::BadEnding);
    }
    let mut buf: Vec<u8> = Vec::new();
    let mut j = start;
    while j < end - 2
        invariant
            start <= j <= end - 2,
            end <= reader.data.len(),
            buf@ == reader.data@.subrange(start as int, j as int),
        decreases end - 2 - j,
    {
        buf.push(reader.data[j]);
        j += 1;
    }
    assert(buf@ == s.take(line_len(s) - 2));
    match utf8_string(buf) {
        Ok(line) => Ok(line),
        Err(t) => Err(LineError::BadUtf8(t)),
    }
}

} // verus!
