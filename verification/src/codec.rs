//! The wire codec: streaming decode of chunked-transfer-encoded bodies,
//! fixed-length body framing, and chunked encode of outgoing bodies.

use vstd::prelude::*;
use vstd::slice::slice_subrange;
use vstd::slice::slice_to_vec;
use crate::ascii::hex_digit_byte;
use crate::ascii::hex_digit_byte_of;
use crate::ascii::hex_digit_of;
use crate::ascii::hex_digit_val;
use crate::ascii::hex_val_byte;
use crate::ascii::is_hex_digit;
use crate::ascii::is_ws;
use crate::ascii::lemma_find_byte;
use crate::ascii::lemma_find_byte_first;
use crate::ascii::lemma_hex_value_grows;
use crate::ascii::push_all;
use crate::ascii::spec_find_byte;
use crate::ascii::spec_hex_bytes;
use crate::ascii::spec_hex_prefix;
use crate::ascii::spec_hex_value;
use crate::ascii::spec_trim;
use crate::ascii::spec_trim_end;
use crate::ascii::spec_trim_start;
use crate::ascii::trim;
use crate::ascii::find_byte;
use crate::HttpError;

verus! {

broadcast use vstd::slice::group_slice_axioms;

/// The size announced by one chunk-size line, the line taken as read
/// off the wire up to and including its LF. The line is trimmed of
/// surrounding ASCII whitespace (which tolerates the trailing CR), its
/// maximal leading run of hexadecimal digits is the size, and any
/// trailing chunk-extension text is ignored. No leading digit, or a
/// value beyond the machine, is a framing error.
pub open spec fn spec_chunk_size(line: Seq<u8>) -> Option<nat> {
    let t = spec_trim(line);
    let p = spec_hex_prefix(t);
    if p.len() == 0 {
        None
    } else if spec_hex_value(p) > usize::MAX {
        None
    } else {
        Some(spec_hex_value(p))
    }
}

/// Parses one chunk-size line.
pub fn parse_chunk_size(line: &[u8]) -> (r: Option<usize>)
    ensures
        match spec_chunk_size(line@) {
            None => r is None,
            Some(n) => r matches Some(v) && v == n,
        },
{
    let t = trim(line);
    let ghost p = spec_hex_prefix(t@);
    let mut acc: usize = 0;
    let mut i: usize = 0;
    proof {
        assert(t@.take(0) =~= Seq::<u8>::empty());
        assert(t@.skip(0) =~= t@);
    }
    while i < t.len() && hex_digit_byte(t[i])
        invariant
            i <= t@.len(),
            t@ == spec_trim(line@),
            p == spec_hex_prefix(t@),
            p == t@.take(i as int).add(spec_hex_prefix(t@.skip(i as int))),
            acc == spec_hex_value(t@.take(i as int)),
        decreases t@.len() - i,
    {
        let b = t[i];
        let d: usize = hex_val_byte(b) as usize;
        proof {
            assert(t@.skip(i as int)[0] == t@[i as int]);
            assert(t@.skip(i as int).skip(1) =~= t@.skip(i + 1));
            assert(t@.take(i as int).add(seq![t@[i as int]]) =~= t@.take(i + 1));
            assert(t@.take(i + 1).drop_last() =~= t@.take(i as int));
            assert(t@.take(i + 1).last() == t@[i as int]);
            assert(p.take(i + 1) =~= t@.take(i + 1));
        }
        let next = match acc.checked_mul(16) {
            Some(m) => m.checked_add(d),
            None => None,
        };
        match next {
            Some(m) => {
                acc = m;
            },
            None => {
                proof {
                    lemma_hex_value_grows(p, i + 1);
                }
                return None;
            },
        }
        i = i + 1;
    }
    proof {
        if i < t@.len() {
            assert(!is_hex_digit(t@[i as int]));
            assert(spec_hex_prefix(t@.skip(i as int)) =~= Seq::<u8>::empty());
        } else {
            assert(t@.skip(i as int) =~= Seq::<u8>::empty());
        }
        assert(p =~= t@.take(i as int));
    }
    if i == 0 {
        None
    } else {
        Some(acc)
    }
}

/// The decode of a whole chunked body: repeated size lines each
/// followed by that many payload bytes and a two-byte terminator that
/// is discarded unchecked, ended by a zero-size line; the result is the
/// concatenated payload. Absent when a size line is missing or
/// malformed, or the input ends before a chunk does.
pub open spec fn spec_decode_chunked(input: Seq<u8>) -> Option<Seq<u8>>
    decreases input.len(),
{
    match spec_find_byte(input, 10) {
        None => None,
        Some(lf) => if !(0 <= lf < input.len()) {
            None
        } else {
            let rest = input.skip(lf + 1);
            match spec_chunk_size(input.take(lf + 1)) {
                None => None,
                Some(n) => if n == 0 {
                    Some(Seq::empty())
                } else if rest.len() < n + 2 {
                    None
                } else {
                    match spec_decode_chunked(rest.skip(n as int + 2)) {
                        None => None,
                        Some(t) => Some(rest.take(n as int).add(t)),
                    }
                },
            }
        },
    }
}

/// The error a failed decode reports: a missing line or a body cut
/// short is a truncation, a size line without a leading hexadecimal
/// digit (or one naming a size beyond the machine) is an invalid chunk
/// length; the first fault along the stream wins.
pub open spec fn spec_decode_err(input: Seq<u8>) -> HttpError
    decreases input.len(),
{
    match spec_find_byte(input, 10) {
        None => HttpError::Truncated,
        Some(lf) => if !(0 <= lf < input.len()) {
            HttpError::Truncated
        } else {
            let rest = input.skip(lf + 1);
            match spec_chunk_size(input.take(lf + 1)) {
                None => HttpError::InvalidChunkLength,
                Some(n) => if n == 0 {
                    HttpError::Truncated
                } else if rest.len() < n + 2 {
                    HttpError::Truncated
                } else {
                    spec_decode_err(rest.skip(n as int + 2))
                },
            }
        },
    }
}

/// Decodes a whole chunked body held in `input`; bytes after the
/// terminal zero-size line are ignored, as a streaming reader never
/// reads past it.
pub fn decode_chunked(input: &[u8]) -> (r: Result<Vec<u8>, HttpError>)
    ensures
        match spec_decode_chunked(input@) {
            Some(b) => r matches Ok(v) && v@ == b,
            None => r == Err::<Vec<u8>, HttpError>(spec_decode_err(input@)),
        },
    decreases input@.len(),
{
    proof {
        lemma_find_byte(input@, 10);
    }
    match find_byte(input, 10) {
        None => Err(HttpError::Truncated),
        Some(lf) => {
            let n_in = input.len();
            proof {
                assert(spec_find_byte(input@, 10) == Some(lf as int));
                assert(lf < n_in);
            }
            let line = slice_subrange(input, 0, lf + 1);
            let rest = slice_subrange(input, lf + 1, input.len());
            proof {
                assert(line@ =~= input@.take(lf + 1));
                assert(rest@ =~= input@.skip(lf + 1));
            }
            match parse_chunk_size(line) {
                None => Err(HttpError::InvalidChunkLength),
                Some(n) => {
                    if n == 0 {
                        Ok(Vec::new())
                    } else if rest.len() < n || rest.len() - n < 2 {
                        Err(HttpError::Truncated)
                    } else {
                        let mut head = slice_to_vec(slice_subrange(rest, 0, n));
                        proof {
                            assert(rest@.subrange(0, n as int) =~= rest@.take(n as int));
                            assert(rest@.subrange(n + 2, rest@.len() as int) =~= rest@.skip(
                                n + 2,
                            ));
                        }
                        match decode_chunked(slice_subrange(rest, n + 2, rest.len())) {
                            Ok(mut t) => {
                                head.append(&mut t);
                                Ok(head)
                            },
                            Err(e) => Err(e),
                        }
                    }
                },
            }
        },
    }
}

/// Reads a fixed-length body of `len` bytes from the front of `input`.
pub fn read_fixed(input: &[u8], len: usize) -> (r: Result<Vec<u8>, HttpError>)
    ensures
        input@.len() >= len ==> (r matches Ok(v) && v@ == input@.take(len as int)),
        input@.len() < len ==> r == Err::<Vec<u8>, HttpError>(HttpError::Truncated),
{
    if input.len() < len {
        Err(HttpError::Truncated)
    } else {
        let v = slice_to_vec(slice_subrange(input, 0, len));
        proof {
            assert(input@.subrange(0, len as int) =~= input@.take(len as int));
        }
        Ok(v)
    }
}

/// CRLF.
pub open spec fn spec_crlf() -> Seq<u8> {
    seq![13u8, 10u8]
}

/// One chunk frame: the lower-case hexadecimal size, CRLF, the payload,
/// CRLF.
pub open spec fn spec_chunk_frame(data: Seq<u8>) -> Seq<u8> {
    spec_hex_bytes(data.len()).add(spec_crlf()).add(data).add(spec_crlf())
}

/// The terminal sequence of a chunked body: a zero-size line and the
/// final empty line (`0`, CRLF, CRLF).
pub open spec fn spec_terminal_chunk() -> Seq<u8> {
    seq![48u8, 13u8, 10u8, 13u8, 10u8]
}

/// What one logical write of `data` puts on the wire. A zero-byte write
/// emits nothing: the terminal frame is reserved for finishing the
/// stream, so an empty write must not produce it.
pub open spec fn spec_write_chunk(data: Seq<u8>) -> Seq<u8> {
    if data.len() == 0 {
        Seq::empty()
    } else {
        spec_chunk_frame(data)
    }
}

/// The lower-case hexadecimal representation of `n`.
pub fn hex_bytes(n: usize) -> (r: Vec<u8>)
    ensures
        r@ == spec_hex_bytes(n as nat),
    decreases n,
{
    if n < 16 {
        let mut v: Vec<u8> = Vec::new();
        v.push(hex_digit_byte_of(n as u8));
        proof {
            assert(v@ =~= seq![hex_digit_of(n as nat)]);
        }
        v
    } else {
        let mut v = hex_bytes(n / 16);
        v.push(hex_digit_byte_of((n % 16) as u8));
        v
    }
}

/// Frames one logical write as a chunk. An empty write emits nothing
/// (see [`spec_write_chunk`]).
pub fn write_chunk(data: &[u8]) -> (r: Vec<u8>)
    ensures
        r@ == spec_write_chunk(data@),
{
    let mut out: Vec<u8> = Vec::new();
    if data.len() == 0 {
        return out;
    }
    let mut size = hex_bytes(data.len());
    out.append(&mut size);
    out.push(13);
    out.push(10);
    push_all(&mut out, data);
    out.push(13);
    out.push(10);
    proof {
        assert(out@ =~= spec_chunk_frame(data@));
    }
    out
}

/// The terminal sequence that finishes a chunked stream; it must be
/// sent exactly once, after the last payload chunk.
pub fn finish_chunks() -> (r: Vec<u8>)
    ensures
        r@ == spec_terminal_chunk(),
{
    let mut out: Vec<u8> = Vec::new();
    out.push(48);
    out.push(13);
    out.push(10);
    out.push(13);
    out.push(10);
    proof {
        assert(out@ =~= spec_terminal_chunk());
    }
    out
}

/// A whole body encoded as chunks of at most `k` bytes, finished with
/// the terminal sequence.
pub open spec fn spec_encode_chunked(body: Seq<u8>, k: nat) -> Seq<u8>
    decreases body.len(),
    when k > 0
{
    if body.len() == 0 {
        spec_terminal_chunk()
    } else if body.len() <= k {
        spec_chunk_frame(body).add(spec_terminal_chunk())
    } else {
        spec_chunk_frame(body.take(k as int)).add(spec_encode_chunked(body.skip(k as int), k))
    }
}

/// Encodes a whole body through the chunked writer, one chunk per
/// buffer of `chunk_size` bytes, and finishes the stream.
pub fn encode_chunked(body: &[u8], chunk_size: usize) -> (r: Vec<u8>)
    requires
        chunk_size > 0,
    ensures
        r@ == spec_encode_chunked(body@, chunk_size as nat),
{
    let mut out: Vec<u8> = Vec::new();
    let mut off: usize = 0;
    proof {
        assert(body@.skip(0) =~= body@);
    }
    while body.len() - off > chunk_size
        invariant
            off <= body@.len(),
            chunk_size > 0,
            spec_encode_chunked(body@, chunk_size as nat) == out@.add(
                spec_encode_chunked(body@.skip(off as int), chunk_size as nat),
            ),
        decreases body@.len() - off,
    {
        let piece = slice_subrange(body, off, off + chunk_size);
        let mut frame = write_chunk(piece);
        proof {
            let s = body@.skip(off as int);
            assert(s.take(chunk_size as int) =~= body@.subrange(
                off as int,
                off + chunk_size,
            ));
            assert(s.skip(chunk_size as int) =~= body@.skip(off + chunk_size));
        }
        out.append(&mut frame);
        off = off + chunk_size;
    }
    let tail = slice_subrange(body, off, body.len());
    proof {
        assert(tail@ =~= body@.skip(off as int));
    }
    let mut frame = write_chunk(tail);
    out.append(&mut frame);
    let mut term = finish_chunks();
    out.append(&mut term);
    proof {
        let s = body@.skip(off as int);
        if s.len() == 0 {
            assert(spec_encode_chunked(s, chunk_size as nat) == spec_terminal_chunk());
            assert(spec_write_chunk(s) =~= Seq::<u8>::empty());
        }
        assert(out@ =~= spec_encode_chunked(body@, chunk_size as nat));
    }
    out
}

/// The streaming state of one response body: either chunked framing,
/// with the bytes left in the current chunk and whether the terminal
/// chunk was seen, or fixed-length framing with the byte budget left.
#[derive(Debug, Clone, Copy, PartialEq, Eq, Structural)]
pub struct Body {
    /// Chunked framing, as opposed to fixed-length.
    pub chunked: bool,
    /// Bytes left in the current chunk, or of the fixed budget.
    pub remaining: usize,
    /// Whether a chunked body has seen its terminal zero-size chunk.
    pub done: bool,
}

/// What the body reader asks of the connection next.
#[derive(Debug, Clone, Copy, PartialEq, Eq, Structural)]
pub enum ReadStep {
    /// Read one line, up to and including LF: the next chunk-size line.
    Line,
    /// Read up to this many bytes of payload.
    Data(usize),
    /// The body is exhausted.
    Eof,
}

impl Body {
    /// A fresh chunked body: no chunk entered yet.
    pub open spec fn new_chunked_spec() -> Body {
        Body { chunked: true, remaining: 0, done: false }
    }

    /// A fresh fixed-length body with budget `n`.
    pub open spec fn new_fixed_spec(n: nat) -> Body {
        Body { chunked: false, remaining: n as usize, done: false }
    }

    pub fn new_chunked() -> (r: Body)
        ensures
            r == Body::new_chunked_spec(),
    {
        Body { chunked: true, remaining: 0, done: false }
    }

    pub fn new_fixed(n: usize) -> (r: Body)
        ensures
            r == Body::new_fixed_spec(n as nat),
    {
        Body { chunked: false, remaining: n, done: false }
    }

    /// What the reader must do next: read a size line when a chunked
    /// body stands between chunks, report end-of-stream when the body
    /// is exhausted, and read payload otherwise.
    pub fn next_step(&self) -> (r: ReadStep)
        ensures
            r == if self.chunked {
                if self.done {
                    ReadStep::Eof
                } else if self.remaining == 0 {
                    ReadStep::Line
                } else {
                    ReadStep::Data(self.remaining)
                }
            } else {
                if self.remaining == 0 {
                    ReadStep::Eof
                } else {
                    ReadStep::Data(self.remaining)
                }
            },
    {
        if self.chunked {
            if self.done {
                ReadStep::Eof
            } else if self.remaining == 0 {
                ReadStep::Line
            } else {
                ReadStep::Data(self.remaining)
            }
        } else {
            if self.remaining == 0 {
                ReadStep::Eof
            } else {
                ReadStep::Data(self.remaining)
            }
        }
    }

    /// Feeds the chunk-size line that [`Body::next_step`] asked for. A
    /// zero size marks the body done; a malformed line is a fatal
    /// framing error and leaves the state unchanged.
    pub fn take_line(&mut self, line: &[u8]) -> (r: Result<(), HttpError>)
        requires
            old(self).chunked,
            !old(self).done,
            old(self).remaining == 0,
        ensures
            match spec_chunk_size(line@) {
                None => r == Err::<(), HttpError>(HttpError::InvalidChunkLength) && *final(self)
                    == *old(self),
                Some(n) => r == Ok::<(), HttpError>(()) && *final(self) == (Body {
                    chunked: true,
                    remaining: n as usize,
                    done: n == 0,
                }),
            },
    {
        match parse_chunk_size(line) {
            None => Err(HttpError::InvalidChunkLength),
            Some(n) => {
                if n == 0 {
                    self.done = true;
                } else {
                    self.remaining = n;
                }
                Ok(())
            },
        }
    }

    /// Accounts for `count` payload bytes the connection yielded. The
    /// result says whether the reader must now consume and discard the
    /// two-byte CRLF chunk terminator before its next step.
    pub fn take_data(&mut self, count: usize) -> (r: bool)
        requires
            count <= old(self).remaining,
        ensures
            *final(self) == (Body {
                remaining: (old(self).remaining - count) as usize,
                ..*old(self)
            }),
            r == (old(self).chunked && old(self).remaining == count),
    {
        self.remaining = self.remaining - count;
        self.chunked && self.remaining == 0
    }
}

proof fn lemma_hex_bytes_digits(n: nat)
    ensures
        spec_hex_bytes(n).len() >= 1,
        forall|i: int|
            0 <= i < spec_hex_bytes(n).len() ==> is_hex_digit(#[trigger] spec_hex_bytes(n)[i]),
    decreases n,
{
    if n >= 16 {
        lemma_hex_bytes_digits(n / 16);
    }
}

proof fn lemma_hex_value_roundtrip(n: nat)
    ensures
        spec_hex_value(spec_hex_bytes(n)) == n,
    decreases n,
{
    if n < 16 {
        let s = spec_hex_bytes(n);
        assert(s == seq![hex_digit_of(n)]);
        assert(s.drop_last() =~= Seq::<u8>::empty());
        assert(s.last() == hex_digit_of(n));
        assert(hex_digit_val(hex_digit_of(n)) == n);
        assert(spec_hex_value(s) == spec_hex_value(s.drop_last()) * 16 + hex_digit_val(s.last()));
        assert(spec_hex_value(Seq::<u8>::empty()) == 0);
    } else {
        lemma_hex_value_roundtrip(n / 16);
        let s = spec_hex_bytes(n);
        assert(s == spec_hex_bytes(n / 16).push(hex_digit_of(n % 16)));
        assert(s.len() > 0);
        assert(s.drop_last() =~= spec_hex_bytes(n / 16));
        assert(s.last() == hex_digit_of(n % 16));
        assert(hex_digit_val(hex_digit_of(n % 16)) == n % 16);
        assert(spec_hex_value(s) == spec_hex_value(s.drop_last()) * 16 + hex_digit_val(s.last()));
        assert(n / 16 * 16 + n % 16 == n) by (nonlinear_arith);
    }
}

proof fn lemma_hex_prefix_all(s: Seq<u8>)
    requires
        forall|i: int| 0 <= i < s.len() ==> is_hex_digit(#[trigger] s[i]),
    ensures
        spec_hex_prefix(s) == s,
    decreases s.len(),
{
    if s.len() > 0 {
        assert forall|i: int| 0 <= i < s.skip(1).len() implies is_hex_digit(
            #[trigger] s.skip(1)[i],
        ) by {
            assert(s.skip(1)[i] == s[i + 1]);
        }
        lemma_hex_prefix_all(s.skip(1));
        assert(seq![s[0]].add(s.skip(1)) =~= s);
    }
}

/// The size line the writer emits parses back to the size it encodes.
proof fn lemma_chunk_size_of_size_line(n: nat)
    requires
        n <= usize::MAX,
    ensures
        spec_chunk_size(spec_hex_bytes(n).add(spec_crlf())) == Some(n),
{
    let h = spec_hex_bytes(n);
    let line = h.add(spec_crlf());
    lemma_hex_bytes_digits(n);
    lemma_hex_value_roundtrip(n);
    assert(line.last() == 10);
    assert(line.drop_last() =~= h.push(13u8));
    assert(spec_trim_end(line) == spec_trim_end(h.push(13u8)));
    assert(h.push(13u8).last() == 13);
    assert(h.push(13u8).drop_last() =~= h);
    assert(spec_trim_end(h.push(13u8)) == spec_trim_end(h));
    assert(is_hex_digit(h.last()));
    assert(!is_ws(h.last()));
    assert(spec_trim_end(h) == h);
    assert(is_hex_digit(h[0]));
    assert(!is_ws(h[0]));
    assert(spec_trim_start(h) == h);
    lemma_hex_prefix_all(h);
}

/// One chunk at the front of a stream, with any size-line text at all
/// — upper- or lower-case hexadecimal, padded, or carrying a chunk
/// extension — that announces exactly the payload's length: the decode
/// is the decode of what follows with the payload in front, absent
/// exactly when the latter is absent.
pub proof fn lemma_decode_one_chunk(line: Seq<u8>, data: Seq<u8>, rest: Seq<u8>)
    requires
        line.len() > 0,
        line.last() == 10,
        forall|j: int| 0 <= j < line.len() - 1 ==> line[j] != 10,
        spec_chunk_size(line) == Some(data.len() as nat),
        0 < data.len() <= usize::MAX,
    ensures
        spec_decode_chunked(line.add(data).add(spec_crlf()).add(rest)) == match spec_decode_chunked(
            rest,
        ) {
            None => None::<Seq<u8>>,
            Some(t) => Some(data.add(t)),
        },
{
    let s = line.add(data).add(spec_crlf()).add(rest);
    let lf = line.len() as int - 1;
    assert(s.len() == line.len() + data.len() + 2 + rest.len());
    assert forall|j: int| 0 <= j < lf implies s[j] != 10 by {
        assert(s[j] == line[j]);
    }
    assert(s[lf] == line[lf]);
    lemma_find_byte_first(s, 10, lf);
    assert(s.take(lf + 1) =~= line);
    let rest2 = s.skip(lf + 1);
    let n = data.len() as int;
    assert(rest2 =~= data.add(spec_crlf()).add(rest));
    assert(rest2.len() >= n + 2);
    assert(rest2.take(n) =~= data);
    assert(rest2.skip(n + 2) =~= rest);
}

/// Prepending one chunk frame as the writer emits it to a stream
/// prepends its payload to the decode.
pub proof fn lemma_decode_frame(data: Seq<u8>, rest: Seq<u8>)
    requires
        0 < data.len() <= usize::MAX,
    ensures
        spec_decode_chunked(spec_chunk_frame(data).add(rest)) == match spec_decode_chunked(rest) {
            None => None::<Seq<u8>>,
            Some(t) => Some(data.add(t)),
        },
{
    let h = spec_hex_bytes(data.len());
    let line = h.add(spec_crlf());
    lemma_hex_bytes_digits(data.len());
    lemma_chunk_size_of_size_line(data.len());
    assert(line.last() == 10);
    assert forall|j: int| 0 <= j < line.len() - 1 implies line[j] != 10 by {
        if j < h.len() {
            assert(line[j] == h[j]);
            assert(is_hex_digit(h[j]));
        } else {
            assert(line[j] == 13);
        }
    }
    lemma_decode_one_chunk(line, data, rest);
    assert(line.add(data).add(spec_crlf()).add(rest) =~= spec_chunk_frame(data).add(rest));
}

/// The terminal sequence alone decodes to the empty body.
pub proof fn lemma_decode_terminal()
    ensures
        spec_decode_chunked(spec_terminal_chunk()) == Some(Seq::<u8>::empty()),
{
    let s = spec_terminal_chunk();
    assert(s[0] != 10 && s[1] != 10 && s[2] == 10);
    lemma_find_byte_first(s, 10, 2);
    let line = s.take(3);
    assert(line =~= seq![48u8, 13u8, 10u8]);
    assert(line.last() == 10);
    assert(line.drop_last() =~= seq![48u8, 13u8]);
    assert(spec_trim_end(line) == spec_trim_end(seq![48u8, 13u8]));
    assert(seq![48u8, 13u8].last() == 13);
    assert(seq![48u8, 13u8].drop_last() =~= seq![48u8]);
    assert(spec_trim_end(seq![48u8, 13u8]) == spec_trim_end(seq![48u8]));
    assert(seq![48u8].last() == 48);
    assert(spec_trim_end(seq![48u8]) == seq![48u8]);
    assert(spec_trim_start(seq![48u8]) == seq![48u8]);
    assert(spec_trim(line) == seq![48u8]);
    assert(seq![48u8].skip(1) =~= Seq::<u8>::empty());
    assert(spec_hex_prefix(Seq::<u8>::empty()) =~= Seq::<u8>::empty());
    assert(spec_hex_prefix(seq![48u8]) =~= seq![48u8]);
    assert(seq![48u8].drop_last() =~= Seq::<u8>::empty());
    assert(seq![48u8].last() == 48u8);
    assert(hex_digit_val(48u8) == 0);
    assert(spec_hex_value(Seq::<u8>::empty()) == 0);
    assert(spec_hex_value(seq![48u8]) == spec_hex_value(seq![48u8].drop_last()) * 16
        + hex_digit_val(seq![48u8].last()));
    assert(spec_hex_value(seq![48u8]) == 0);
    assert(spec_chunk_size(line) == Some(0nat));
}

/// A chunked stream as the writer puts it on the wire: one frame per
/// logical write, then the terminal sequence.
pub open spec fn spec_frames(chunks: Seq<Seq<u8>>) -> Seq<u8>
    decreases chunks.len(),
{
    if chunks.len() == 0 {
        spec_terminal_chunk()
    } else {
        spec_chunk_frame(chunks[0]).add(spec_frames(chunks.skip(1)))
    }
}

/// For any sequence of chunk frames — each a hexadecimal size line
/// followed by that many payload bytes and a CRLF — ended by the
/// terminal sequence, the reader reproduces exactly the concatenated
/// payload bytes and then reports end of stream.
pub proof fn lemma_decode_frames(chunks: Seq<Seq<u8>>)
    requires
        forall|i: int| 0 <= i < chunks.len() ==> 0 < (#[trigger] chunks[i]).len() <= usize::MAX,
    ensures
        spec_decode_chunked(spec_frames(chunks)) == Some(chunks.flatten()),
    decreases chunks.len(),
{
    if chunks.len() == 0 {
        lemma_decode_terminal();
        assert(chunks.flatten() =~= Seq::<u8>::empty());
    } else {
        assert forall|i: int| 0 <= i < chunks.skip(1).len() implies 0 < (
        #[trigger] chunks.skip(1)[i]).len() <= usize::MAX by {
            assert(chunks.skip(1)[i] == chunks[i + 1]);
        }
        lemma_decode_frames(chunks.skip(1));
        lemma_decode_frame(chunks[0], spec_frames(chunks.skip(1)));
        assert(chunks.drop_first() =~= chunks.skip(1));
        assert(chunks.flatten() == chunks[0].add(chunks.skip(1).flatten()));
    }
}

/// The meaning of a reader state: what the rest of the body yields
/// when the connection still holds `input`. A fresh chunked reader
/// means the chunked decode itself; a chunked reader standing
/// `remaining` bytes inside a chunk means those bytes, then — past the
/// discarded CRLF — the decode of the chunks after them; a reader past
/// the terminal chunk means nothing more; a fixed-length reader means
/// its remaining budget.
pub open spec fn spec_body_decode(b: Body, input: Seq<u8>) -> Option<Seq<u8>> {
    if !b.chunked {
        if input.len() >= b.remaining {
            Some(input.take(b.remaining as int))
        } else {
            None
        }
    } else if b.done {
        Some(Seq::empty())
    } else if b.remaining == 0 {
        spec_decode_chunked(input)
    } else {
        if input.len() >= b.remaining + 2 {
            match spec_decode_chunked(input.skip(b.remaining as int + 2)) {
                None => None,
                Some(t) => Some(input.take(b.remaining as int).add(t)),
            }
        } else {
            None
        }
    }
}

/// Feeding the wire's first line to a chunked reader standing between
/// chunks preserves meaning: a malformed size line means the stream
/// had no decode at all, and otherwise the reader
/// [`Body::take_line`] leaves means on the remaining wire exactly what
/// the fresh reader meant on the whole of it.
pub proof fn lemma_body_line_step(line: Seq<u8>, rest: Seq<u8>)
    requires
        line.len() > 0,
        line.last() == 10,
        forall|j: int| 0 <= j < line.len() - 1 ==> line[j] != 10,
    ensures
        match spec_chunk_size(line) {
            None => spec_body_decode(Body::new_chunked_spec(), line.add(rest)) is None,
            Some(n) => spec_body_decode(Body::new_chunked_spec(), line.add(rest))
                == spec_body_decode(
                (Body { chunked: true, remaining: n as usize, done: n == 0 }),
                rest,
            ),
        },
{
    let s = line.add(rest);
    let lf = line.len() as int - 1;
    assert forall|j: int| 0 <= j < lf implies s[j] != 10 by {
        assert(s[j] == line[j]);
    }
    assert(s[lf] == line[lf]);
    lemma_find_byte_first(s, 10, lf);
    assert(s.take(lf + 1) =~= line);
    assert(s.skip(lf + 1) =~= rest);
}

/// Taking `c` payload bytes off the wire preserves meaning: the reader
/// after [`Body::take_data`] means, on the remaining wire, the rest of
/// what the reader before it meant — with the two-byte chunk
/// terminator also consumed when the chunk was finished, and a wire
/// too short for that terminator meaning no decode.
pub proof fn lemma_body_data_step(b: Body, input: Seq<u8>, c: int)
    requires
        0 < c <= b.remaining,
        c <= input.len(),
        b.chunked ==> !b.done,
    ensures
        b.chunked && c < b.remaining ==> spec_body_decode(b, input) == (match spec_body_decode(
            (Body { remaining: (b.remaining - c) as usize, ..b }),
            input.skip(c),
        ) {
            None => None::<Seq<u8>>,
            Some(t) => Some(input.take(c).add(t)),
        }),
        b.chunked && c == b.remaining && input.len() >= b.remaining + 2 ==> spec_body_decode(
            b,
            input,
        ) == (match spec_body_decode((Body { remaining: 0, ..b }), input.skip(c + 2)) {
            None => None::<Seq<u8>>,
            Some(t) => Some(input.take(c).add(t)),
        }),
        b.chunked && c == b.remaining && input.len() < b.remaining + 2 ==> spec_body_decode(
            b,
            input,
        ) is None,
        !b.chunked ==> spec_body_decode(b, input) == (match spec_body_decode(
            (Body { remaining: (b.remaining - c) as usize, ..b }),
            input.skip(c),
        ) {
            None => None::<Seq<u8>>,
            Some(t) => Some(input.take(c).add(t)),
        }),
{
    let r = b.remaining as int;
    if !b.chunked {
        if input.len() >= r {
            assert(input.take(c).add(input.skip(c).take(r - c)) =~= input.take(r));
        }
    } else if c < r {
        if input.len() >= r + 2 {
            assert(input.skip(c).skip(r - c + 2) =~= input.skip(r + 2));
            match spec_decode_chunked(input.skip(r + 2)) {
                Some(t) => {
                    assert(input.take(c).add(input.skip(c).take(r - c).add(t)) =~= input.take(
                        r,
                    ).add(t));
                },
                None => {},
            }
        }
    } else {
        if input.len() >= r + 2 {
            match spec_decode_chunked(input.skip(r + 2)) {
                Some(t) => {
                    assert(input.take(c).add(t) == input.take(r).add(t));
                },
                None => {},
            }
        }
    }
}

/// Round trip: a body encoded through the chunked writer decodes
/// through the chunked reader to the original byte sequence, for every
/// body and every buffer size.
pub proof fn lemma_chunked_round_trip(body: Seq<u8>, k: nat)
    requires
        0 < k <= usize::MAX,
    ensures
        spec_decode_chunked(spec_encode_chunked(body, k)) == Some(body),
    decreases body.len(),
{
    if body.len() == 0 {
        lemma_decode_terminal();
    } else if body.len() <= k {
        lemma_decode_terminal();
        lemma_decode_frame(body, spec_terminal_chunk());
        assert(body.add(Seq::<u8>::empty()) =~= body);
    } else {
        lemma_chunked_round_trip(body.skip(k as int), k);
        lemma_decode_frame(body.take(k as int), spec_encode_chunked(body.skip(k as int), k));
        assert(body.take(k as int).add(body.skip(k as int)) =~= body);
    }
}

} // verus!
