//! HTTP exchange primitives: status-line validation, header splitting
//! and scanning, and emission of request heads and target paths.

use vstd::prelude::*;
use vstd::slice::slice_subrange;
use vstd::slice::slice_to_vec;
use crate::ascii::all_digits;
use crate::ascii::bytes_eq;
use crate::ascii::digit_byte;
use crate::ascii::find_byte;
use crate::ascii::is_digit;
use crate::ascii::lower_matches;
use crate::ascii::push_all;
use crate::ascii::spec_dec_value;
use crate::ascii::spec_find_byte;
use crate::ascii::spec_lower_seq;
use crate::ascii::spec_trim;
use crate::ascii::trim;
use crate::codec::Body;
use crate::HttpError;

verus! {

broadcast use vstd::slice::group_slice_axioms;

/// Builds the catch-all invalid-data error carrying `message`.
pub fn error(message: &str) -> (r: HttpError)
    ensures
        r matches HttpError::Invalid(m) && m@ == message@,
{
    HttpError::Invalid(message.to_owned())
}

/// `HTTP/1.1 ` as bytes: the nine bytes every well-formed status line starts with.
pub open spec fn spec_status_prefix() -> Seq<u8> {
    seq![72u8, 84u8, 84u8, 80u8, 47u8, 49u8, 46u8, 49u8, 32u8]
}

/// The status code carried by the first 12 bytes of a response, if they
/// are well formed: `HTTP/1.1 ` followed by exactly three ASCII digits.
pub open spec fn spec_status_code(buf: Seq<u8>) -> Option<u16> {
    if buf.len() == 12 && buf.subrange(0, 9) == spec_status_prefix() && is_digit(buf[9])
        && is_digit(buf[10]) && is_digit(buf[11]) {
        Some((100 * (buf[9] - 48) + 10 * (buf[10] - 48) + (buf[11] - 48)) as u16)
    } else {
        None
    }
}

/// Validates the first 12 bytes of a response. They must read
/// `HTTP/1.1 ` followed by three ASCII digits; a code of 400 or above
/// is reported as an error carrying that code.
pub fn check_response_code(buf: &[u8]) -> (r: Result<(), HttpError>)
    requires
        buf@.len() == 12,
    ensures
        match spec_status_code(buf@) {
            Some(code) => r == if code >= 400 {
                Err::<(), HttpError>(HttpError::ErrorCode(code))
            } else {
                Ok::<(), HttpError>(())
            },
            None => r == Err::<(), HttpError>(HttpError::MalformedResponse),
        },
{
    if buf[0] == 72 && buf[1] == 84 && buf[2] == 84 && buf[3] == 80 && buf[4] == 47
        && buf[5] == 49 && buf[6] == 46 && buf[7] == 49 && buf[8] == 32 {
        proof {
            assert(buf@.subrange(0, 9) =~= spec_status_prefix());
        }
        let d0 = buf[9];
        let d1 = buf[10];
        let d2 = buf[11];
        if 48 <= d0 && d0 <= 57 && 48 <= d1 && d1 <= 57 && 48 <= d2 && d2 <= 57 {
            let code: u16 = 100 * ((d0 - 48) as u16) + 10 * ((d1 - 48) as u16) + ((d2
                - 48) as u16);
            if code >= 400 {
                return Err(HttpError::ErrorCode(code));
            } else {
                return Ok(());
            }
        }
    }
    proof {
        if buf@.subrange(0, 9) == spec_status_prefix() {
            assert(buf@[0] == spec_status_prefix()[0]);
            assert(buf@[1] == spec_status_prefix()[1]);
            assert(buf@[2] == spec_status_prefix()[2]);
            assert(buf@[3] == spec_status_prefix()[3]);
            assert(buf@[4] == spec_status_prefix()[4]);
            assert(buf@[5] == spec_status_prefix()[5]);
            assert(buf@[6] == spec_status_prefix()[6]);
            assert(buf@[7] == spec_status_prefix()[7]);
            assert(buf@[8] == spec_status_prefix()[8]);
        }
    }
    Err(HttpError::MalformedResponse)
}

/// A header line split at its first colon: the name, and the value
/// with surrounding ASCII whitespace trimmed. A line without a colon
/// yields nothing.
pub open spec fn spec_split_header(line: Seq<u8>) -> Option<(Seq<u8>, Seq<u8>)> {
    match spec_find_byte(line, 58) {
        None => None,
        Some(i) => Some((line.take(i), spec_trim(line.skip(i + 1)))),
    }
}

/// Splits a header line at its first colon into a name and a trimmed
/// value; a line without a colon yields `None` and is skipped by the
/// scanner.
pub fn split_header(line: &[u8]) -> (r: Option<(Vec<u8>, Vec<u8>)>)
    ensures
        match spec_split_header(line@) {
            None => r is None,
            Some(nv) => r matches Some(p) && p.0@ == nv.0 && p.1@ == nv.1,
        },
{
    proof {
        crate::ascii::lemma_find_byte(line@, 58);
    }
    match find_byte(line, 58) {
        None => None,
        Some(i) => {
            let n_line = line.len();
            proof {
                assert(spec_find_byte(line@, 58) == Some(i as int));
                assert(i < n_line);
            }
            let name = slice_to_vec(slice_subrange(line, 0, i));
            let value = slice_to_vec(trim(slice_subrange(line, i + 1, line.len())));
            proof {
                assert(line@.subrange(0, i as int) =~= line@.take(i as int));
                assert(line@.subrange(i + 1, line@.len() as int) =~= line@.skip(i + 1));
            }
            Some((name, value))
        },
    }
}

/// How the body of a response is framed: chunked transfer encoding, or
/// a fixed byte count from `content-length`.
#[derive(Debug, Clone, Copy, PartialEq, Eq)]
pub enum BodyFraming {
    Chunked,
    Fixed(usize),
}

/// The two signals scanned out of a fetch response's header block.
#[derive(Debug, Clone, PartialEq, Eq)]
pub struct HeaderScan {
    /// The correlation identifier, once seen.
    pub request_id: Option<Vec<u8>>,
    /// The body framing, once determined.
    pub framing: Option<BodyFraming>,
}

/// Mathematical image of a [`HeaderScan`].
pub ghost struct ScanState {
    pub request_id: Option<Seq<u8>>,
    pub framing: Option<SpecFraming>,
}

/// Mathematical image of a [`BodyFraming`].
pub ghost enum SpecFraming {
    Chunked,
    Fixed(nat),
}

impl View for HeaderScan {
    type V = ScanState;

    open spec fn view(&self) -> ScanState {
        ScanState {
            request_id: match self.request_id {
                Some(v) => Some(v@),
                None => None,
            },
            framing: match self.framing {
                Some(BodyFraming::Chunked) => Some(SpecFraming::Chunked),
                Some(BodyFraming::Fixed(n)) => Some(SpecFraming::Fixed(n as nat)),
                None => None,
            },
        }
    }
}

/// `lambda-runtime-aws-request-id`, the header carrying the correlation identifier.
pub open spec fn spec_rid_name() -> Seq<u8> {
    seq![
        108u8, 97u8, 109u8, 98u8, 100u8, 97u8, 45u8, 114u8, 117u8, 110u8, 116u8, 105u8, 109u8,
        101u8, 45u8, 97u8, 119u8, 115u8, 45u8, 114u8, 101u8, 113u8, 117u8, 101u8, 115u8, 116u8,
        45u8, 105u8, 100u8,
    ]
}

/// `transfer-encoding`.
pub open spec fn spec_te_name() -> Seq<u8> {
    seq![
        116u8, 114u8, 97u8, 110u8, 115u8, 102u8, 101u8, 114u8, 45u8, 101u8, 110u8, 99u8, 111u8,
        100u8, 105u8, 110u8, 103u8,
    ]
}

/// `content-length`.
pub open spec fn spec_cl_name() -> Seq<u8> {
    seq![99u8, 111u8, 110u8, 116u8, 101u8, 110u8, 116u8, 45u8, 108u8, 101u8, 110u8, 103u8, 116u8, 104u8]
}

/// `chunked`.
pub open spec fn spec_chunked_value() -> Seq<u8> {
    seq![99u8, 104u8, 117u8, 110u8, 107u8, 101u8, 100u8]
}

/// A `content-length` value: non-empty, all decimal digits, and small
/// enough for the machine.
pub open spec fn spec_content_length(value: Seq<u8>) -> Option<nat> {
    if value.len() > 0 && all_digits(value) && spec_dec_value(value) <= usize::MAX {
        Some(spec_dec_value(value))
    } else {
        None
    }
}

/// One step of the header scan: how one header line updates the state.
/// Names compare up to ASCII case; the first occurrence of each signal
/// wins; a line without a colon changes nothing.
pub open spec fn spec_scan_line(st: ScanState, line: Seq<u8>) -> ScanState {
    match spec_split_header(line) {
        None => st,
        Some(nv) => {
            let lname = spec_lower_seq(nv.0);
            ScanState {
                request_id: if st.request_id is None && lname == spec_rid_name() {
                    Some(nv.1)
                } else {
                    st.request_id
                },
                framing: if st.framing is None {
                    if lname == spec_te_name() && nv.1 == spec_chunked_value() {
                        Some(SpecFraming::Chunked)
                    } else if lname == spec_cl_name() && spec_content_length(nv.1) is Some {
                        Some(SpecFraming::Fixed(spec_content_length(nv.1)->Some_0))
                    } else {
                        None
                    }
                } else {
                    st.framing
                },
            }
        },
    }
}

/// The scan state after a whole list of header lines.
pub open spec fn spec_scan(lines: Seq<Seq<u8>>, st: ScanState) -> ScanState
    decreases lines.len(),
{
    if lines.len() == 0 {
        st
    } else {
        spec_scan(lines.skip(1), spec_scan_line(st, lines[0]))
    }
}

/// The empty scan state: nothing seen yet.
pub open spec fn spec_scan_init() -> ScanState {
    ScanState { request_id: None, framing: None }
}

/// Parses a header value as a decimal byte count.
fn parse_content_length(value: &[u8]) -> (r: Option<usize>)
    ensures
        match spec_content_length(value@) {
            None => r is None,
            Some(n) => r matches Some(v) && v == n,
        },
{
    if value.len() == 0 {
        return None;
    }
    let mut acc: usize = 0;
    let mut i: usize = 0;
    while i < value.len()
        invariant
            i <= value@.len(),
            forall|j: int| 0 <= j < i ==> is_digit(#[trigger] value@[j]),
            acc == spec_dec_value(value@.take(i as int)),
        decreases value@.len() - i,
    {
        let b = value[i];
        if !digit_byte(b) {
            return None;
        }
        let d: usize = (b - 48) as usize;
        let next = match acc.checked_mul(10) {
            Some(m) => m.checked_add(d),
            None => None,
        };
        proof {
            assert(value@.take(i + 1).drop_last() =~= value@.take(i as int));
            assert(value@.take(i + 1).last() == value@[i as int]);
        }
        match next {
            Some(m) => {
                acc = m;
            },
            None => {
                proof {
                    crate::ascii::lemma_dec_value_grows(value@, i + 1);
                }
                return None;
            },
        }
        i = i + 1;
    }
    proof {
        assert(value@.take(value@.len() as int) =~= value@);
    }
    Some(acc)
}

/// Feeds one header line to the scan, case-insensitively matching the
/// correlation-identifier, `transfer-encoding: chunked` and
/// `content-length` signals, first valid occurrence winning.
pub fn scan_header_line(st: &mut HeaderScan, line: &[u8])
    ensures
        final(st)@ == spec_scan_line(old(st)@, line@),
{
    let split = split_header(line);
    match split {
        None => {},
        Some(nv) => {
            let (name, value) = nv;
            if st.framing.is_none() {
                let te_name: Vec<u8> = te_name_bytes();
                let cl_name: Vec<u8> = cl_name_bytes();
                let chunked_value: Vec<u8> = chunked_value_bytes();
                if lower_matches(name.as_slice(), te_name.as_slice()) && bytes_eq(
                    value.as_slice(),
                    chunked_value.as_slice(),
                ) {
                    st.framing = Some(BodyFraming::Chunked);
                } else if lower_matches(name.as_slice(), cl_name.as_slice()) {
                    match parse_content_length(value.as_slice()) {
                        Some(n) => {
                            st.framing = Some(BodyFraming::Fixed(n));
                        },
                        None => {},
                    }
                }
            }
            let rid_name: Vec<u8> = rid_name_bytes();
            if st.request_id.is_none() && lower_matches(name.as_slice(), rid_name.as_slice()) {
                st.request_id = Some(value);
            }
        },
    }
}

/// Scans a whole header block, line by line, as read off the wire.
pub fn scan_headers(lines: &Vec<Vec<u8>>) -> (r: HeaderScan)
    ensures
        r@ == spec_scan(lines.deep_view(), spec_scan_init()),
{
    let mut st = HeaderScan { request_id: None, framing: None };
    let ghost dv = lines.deep_view();
    let mut i: usize = 0;
    proof {
        assert(st@ == spec_scan_init());
        assert(dv.skip(0) =~= dv);
    }
    while i < lines.len()
        invariant
            i <= dv.len(),
            dv.len() == lines@.len(),
            dv == lines.deep_view(),
            forall|j: int| 0 <= j < dv.len() ==> dv[j] == #[trigger] lines@[j]@,
            spec_scan(dv, spec_scan_init()) == spec_scan(dv.skip(i as int), st@),
        decreases dv.len() - i,
    {
        scan_header_line(&mut st, lines[i].as_slice());
        proof {
            assert(dv.skip(i as int)[0] == dv[i as int]);
            assert(dv.skip(i as int).skip(1) =~= dv.skip(i + 1));
        }
        i = i + 1;
    }
    proof {
        assert(dv.skip(dv.len() as int) =~= Seq::<Seq<u8>>::empty());
    }
    st
}

fn rid_name_bytes() -> (r: Vec<u8>)
    ensures
        r@ == spec_rid_name(),
{
    let v: Vec<u8> = vec![
        108u8, 97, 109, 98, 100, 97, 45, 114, 117, 110, 116, 105, 109, 101, 45, 97, 119, 115, 45,
        114, 101, 113, 117, 101, 115, 116, 45, 105, 100,
    ];
    proof {
        assert(v@ =~= spec_rid_name());
    }
    v
}

fn te_name_bytes() -> (r: Vec<u8>)
    ensures
        r@ == spec_te_name(),
{
    let v: Vec<u8> = vec![
        116u8, 114, 97, 110, 115, 102, 101, 114, 45, 101, 110, 99, 111, 100, 105, 110, 103,
    ];
    proof {
        assert(v@ =~= spec_te_name());
    }
    v
}

fn cl_name_bytes() -> (r: Vec<u8>)
    ensures
        r@ == spec_cl_name(),
{
    let v: Vec<u8> = vec![99u8, 111, 110, 116, 101, 110, 116, 45, 108, 101, 110, 103, 116, 104];
    proof {
        assert(v@ =~= spec_cl_name());
    }
    v
}

fn chunked_value_bytes() -> (r: Vec<u8>)
    ensures
        r@ == spec_chunked_value(),
{
    let v: Vec<u8> = vec![99u8, 104, 117, 110, 107, 101, 100];
    proof {
        assert(v@ =~= spec_chunked_value());
    }
    v
}

/// The header scan reads a name only through its ASCII lower-casing:
/// two header lines whose names differ only in letter case, with the
/// same value, step the scan the same way.
pub proof fn lemma_scan_case_insensitive(st: ScanState, l1: Seq<u8>, l2: Seq<u8>)
    requires
        spec_split_header(l1) is Some,
        spec_split_header(l2) is Some,
        spec_lower_seq(spec_split_header(l1)->Some_0.0) == spec_lower_seq(
            spec_split_header(l2)->Some_0.0,
        ),
        spec_split_header(l1)->Some_0.1 == spec_split_header(l2)->Some_0.1,
    ensures
        spec_scan_line(st, l1) == spec_scan_line(st, l2),
{
}

/// The first valid occurrence of each signal wins: once the scan holds
/// a correlation identifier or a framing, no later header line changes
/// it.
pub proof fn lemma_scan_first_wins(lines: Seq<Seq<u8>>, st: ScanState)
    ensures
        st.request_id is Some ==> spec_scan(lines, st).request_id == st.request_id,
        st.framing is Some ==> spec_scan(lines, st).framing == st.framing,
    decreases lines.len(),
{
    if lines.len() > 0 {
        lemma_scan_first_wins(lines.skip(1), spec_scan_line(st, lines[0]));
    }
}

/// ` /2018-06-01/runtime/`: the fixed prefix every request path stands
/// under.
pub open spec fn spec_path_prefix() -> Seq<u8> {
    seq![
        32u8, 47u8, 50u8, 48u8, 49u8, 56u8, 45u8, 48u8, 54u8, 45u8, 48u8, 49u8, 47u8, 114u8,
        117u8, 110u8, 116u8, 105u8, 109u8, 101u8, 47u8,
    ]
}

/// ` HTTP/1.1` CRLF `host: `.
pub open spec fn spec_version_host() -> Seq<u8> {
    seq![
        32u8, 72u8, 84u8, 84u8, 80u8, 47u8, 49u8, 46u8, 49u8, 13u8, 10u8, 104u8, 111u8, 115u8,
        116u8, 58u8, 32u8,
    ]
}

/// `transfer-encoding: chunked` CRLF.
pub open spec fn spec_te_header_line() -> Seq<u8> {
    seq![
        116u8, 114u8, 97u8, 110u8, 115u8, 102u8, 101u8, 114u8, 45u8, 101u8, 110u8, 99u8, 111u8,
        100u8, 105u8, 110u8, 103u8, 58u8, 32u8, 99u8, 104u8, 117u8, 110u8, 107u8, 101u8, 100u8,
        13u8, 10u8,
    ]
}

/// The whole head of one request: the request line with the method and
/// the path under the fixed prefix, the mandatory `host` header, for
/// POST the `transfer-encoding: chunked` header, and the blank line
/// ending the head. No other header is ever sent.
pub open spec fn spec_request_head(method: Seq<u8>, path: Seq<u8>, host: Seq<u8>, chunked: bool) -> Seq<u8> {
    method.add(spec_path_prefix()).add(path).add(spec_version_host()).add(host).add(
        crate::codec::spec_crlf(),
    ).add(
        if chunked {
            spec_te_header_line()
        } else {
            Seq::empty()
        },
    ).add(crate::codec::spec_crlf())
}

/// Emits the head of one request, byte for byte.
pub fn build_request_head(method: &[u8], path: &[u8], host: &[u8], chunked: bool) -> (r: Vec<u8>)
    ensures
        r@ == spec_request_head(method@, path@, host@, chunked),
{
    let mut out: Vec<u8> = Vec::new();
    push_all(&mut out, method);
    let prefix: Vec<u8> = vec![
        32u8, 47, 50, 48, 49, 56, 45, 48, 54, 45, 48, 49, 47, 114, 117, 110, 116, 105, 109, 101,
        47,
    ];
    proof {
        assert(prefix@ =~= spec_path_prefix());
    }
    push_all(&mut out, prefix.as_slice());
    push_all(&mut out, path);
    let version_host: Vec<u8> = vec![
        32u8, 72, 84, 84, 80, 47, 49, 46, 49, 13, 10, 104, 111, 115, 116, 58, 32,
    ];
    proof {
        assert(version_host@ =~= spec_version_host());
    }
    push_all(&mut out, version_host.as_slice());
    push_all(&mut out, host);
    out.push(13);
    out.push(10);
    if chunked {
        let te_line: Vec<u8> = vec![
            116u8, 114, 97, 110, 115, 102, 101, 114, 45, 101, 110, 99, 111, 100, 105, 110, 103,
            58, 32, 99, 104, 117, 110, 107, 101, 100, 13, 10,
        ];
        proof {
            assert(te_line@ =~= spec_te_header_line());
        }
        push_all(&mut out, te_line.as_slice());
    }
    out.push(13);
    out.push(10);
    proof {
        assert(out@ =~= spec_request_head(method@, path@, host@, chunked));
    }
    out
}

/// What a completed scan owes the caller: the correlation identifier
/// first (its absence is the error reported even when framing is also
/// missing, as the exchange checks it first), then a determined
/// framing; both present yield the identifier and a body reader in the
/// scanned mode.
pub fn finish_scan(st: HeaderScan) -> (r: Result<(Vec<u8>, Body), HttpError>)
    ensures
        match st@.request_id {
            None => r == Err::<(Vec<u8>, Body), HttpError>(HttpError::MissingRequestId),
            Some(id) => match st@.framing {
                None => r == Err::<(Vec<u8>, Body), HttpError>(HttpError::UnknownBodyLength),
                Some(SpecFraming::Chunked) => r matches Ok(p) && p.0@ == id && p.1
                    == Body::new_chunked_spec(),
                Some(SpecFraming::Fixed(n)) => r matches Ok(p) && p.0@ == id && p.1
                    == Body::new_fixed_spec(n),
            },
        },
{
    match st.request_id {
        None => Err(HttpError::MissingRequestId),
        Some(id) => match st.framing {
            None => Err(HttpError::UnknownBodyLength),
            Some(BodyFraming::Chunked) => Ok((id, Body::new_chunked())),
            Some(BodyFraming::Fixed(n)) => Ok((id, Body::new_fixed(n))),
        },
    }
}

} // verus!

