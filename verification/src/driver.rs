//! The poll loop's decisions: which path the next POST addresses, what
//! body it carries, and whether a failed recovery report is fatal. The
//! host performs the I/O these decisions call for and feeds the
//! outcomes back.

use vstd::prelude::*;
use crate::ascii::hex_digit_of;
use crate::ascii::hex_digit_byte_of;
use crate::ascii::push_all;

verus! {

/// JSON string escaping of one byte: quote, backslash and control
/// bytes are escaped, everything else passes through.
pub open spec fn spec_json_escape_byte(b: u8) -> Seq<u8> {
    if b == 34 {
        seq![92u8, 34u8]
    } else if b == 92 {
        seq![92u8, 92u8]
    } else if b == 8 {
        seq![92u8, 98u8]
    } else if b == 9 {
        seq![92u8, 116u8]
    } else if b == 10 {
        seq![92u8, 110u8]
    } else if b == 12 {
        seq![92u8, 102u8]
    } else if b == 13 {
        seq![92u8, 114u8]
    } else if b < 32 {
        seq![92u8, 117u8, 48u8, 48u8, hex_digit_of((b / 16) as nat), hex_digit_of((b % 16) as nat)]
    } else {
        seq![b]
    }
}

/// JSON string escaping of a byte string.
pub open spec fn spec_json_escape(s: Seq<u8>) -> Seq<u8>
    decreases s.len(),
{
    if s.len() == 0 {
        Seq::empty()
    } else {
        spec_json_escape(s.drop_last()).add(spec_json_escape_byte(s.last()))
    }
}

fn json_escape_into(out: &mut Vec<u8>, b: u8)
    ensures
        final(out)@ == old(out)@.add(spec_json_escape_byte(b)),
{
    if b == 34 {
        out.push(92);
        out.push(34);
    } else if b == 92 {
        out.push(92);
        out.push(92);
    } else if b == 8 {
        out.push(92);
        out.push(98);
    } else if b == 9 {
        out.push(92);
        out.push(116);
    } else if b == 10 {
        out.push(92);
        out.push(110);
    } else if b == 12 {
        out.push(92);
        out.push(102);
    } else if b == 13 {
        out.push(92);
        out.push(114);
    } else if b < 32 {
        out.push(92);
        out.push(117);
        out.push(48);
        out.push(48);
        out.push(hex_digit_byte_of(b / 16));
        out.push(hex_digit_byte_of(b % 16));
    } else {
        out.push(b);
    }
    proof {
        assert(out@ =~= old(out)@.add(spec_json_escape_byte(b)));
    }
}

/// Appends the JSON escaping of `s` to `out`.
fn json_escape_all(out: &mut Vec<u8>, s: &[u8])
    ensures
        final(out)@ == old(out)@.add(spec_json_escape(s@)),
{
    let mut i: usize = 0;
    proof {
        assert(s@.take(0) =~= Seq::<u8>::empty());
        assert(old(out)@.add(Seq::empty()) =~= old(out)@);
    }
    while i < s.len()
        invariant
            i <= s@.len(),
            out@ == old(out)@.add(spec_json_escape(s@.take(i as int))),
        decreases s@.len() - i,
    {
        json_escape_into(out, s[i]);
        proof {
            assert(s@.take(i + 1).drop_last() =~= s@.take(i as int));
            assert(s@.take(i + 1).last() == s@[i as int]);
        }
        i = i + 1;
    }
    proof {
        assert(s@.take(s@.len() as int) =~= s@);
    }
}

/// `{"errorType":"`.
pub open spec fn spec_json_open() -> Seq<u8> {
    seq![123u8, 34u8, 101u8, 114u8, 114u8, 111u8, 114u8, 84u8, 121u8, 112u8, 101u8, 34u8, 58u8, 34u8]
}

/// `","errorMessage":"`.
pub open spec fn spec_json_mid() -> Seq<u8> {
    seq![
        34u8, 44u8, 34u8, 101u8, 114u8, 114u8, 111u8, 114u8, 77u8, 101u8, 115u8, 115u8, 97u8,
        103u8, 101u8, 34u8, 58u8, 34u8,
    ]
}

/// `"}`.
pub open spec fn spec_json_close() -> Seq<u8> {
    seq![34u8, 125u8]
}

/// The two-field error report `{"errorType":"…","errorMessage":"…"}`
/// with both fields JSON-escaped.
pub open spec fn spec_error_body(ty: Seq<u8>, msg: Seq<u8>) -> Seq<u8> {
    spec_json_open().add(spec_json_escape(ty)).add(spec_json_mid()).add(spec_json_escape(msg)).add(
        spec_json_close(),
    )
}

/// Serializes the structured error report the control endpoint expects.
pub fn encode_error_body(error_type: &[u8], error_message: &[u8]) -> (r: Vec<u8>)
    ensures
        r@ == spec_error_body(error_type@, error_message@),
{
    let mut out: Vec<u8> = vec![
        123u8, 34, 101, 114, 114, 111, 114, 84, 121, 112, 101, 34, 58, 34,
    ];
    proof {
        assert(out@ =~= spec_json_open());
    }
    json_escape_all(&mut out, error_type);
    let mid: Vec<u8> = vec![
        34u8, 44, 34, 101, 114, 114, 111, 114, 77, 101, 115, 115, 97, 103, 101, 34, 58, 34,
    ];
    proof {
        assert(mid@ =~= spec_json_mid());
    }
    push_all(&mut out, mid.as_slice());
    json_escape_all(&mut out, error_message);
    out.push(34);
    out.push(125);
    proof {
        assert(out@ =~= spec_error_body(error_type@, error_message@));
    }
    out
}

/// `invocation/next`: the path fetched for the next unit of work.
pub open spec fn spec_next_path() -> Seq<u8> {
    seq![105u8, 110u8, 118u8, 111u8, 99u8, 97u8, 116u8, 105u8, 111u8, 110u8, 47u8, 110u8, 101u8, 120u8, 116u8]
}

/// `invocation/`.
pub open spec fn spec_invocation_prefix() -> Seq<u8> {
    seq![105u8, 110u8, 118u8, 111u8, 99u8, 97u8, 116u8, 105u8, 111u8, 110u8, 47u8]
}

/// `/response`.
pub open spec fn spec_response_suffix() -> Seq<u8> {
    seq![47u8, 114u8, 101u8, 115u8, 112u8, 111u8, 110u8, 115u8, 101u8]
}

/// `/error`.
pub open spec fn spec_error_suffix() -> Seq<u8> {
    seq![47u8, 101u8, 114u8, 114u8, 111u8, 114u8]
}

/// `init/error`: where setup-class failures are reported.
pub open spec fn spec_init_error_path() -> Seq<u8> {
    seq![105u8, 110u8, 105u8, 116u8, 47u8, 101u8, 114u8, 114u8, 111u8, 114u8]
}

/// `invocation/{id}/response`.
pub open spec fn spec_response_path(id: Seq<u8>) -> Seq<u8> {
    spec_invocation_prefix().add(id).add(spec_response_suffix())
}

/// `invocation/{id}/error`.
pub open spec fn spec_error_path(id: Seq<u8>) -> Seq<u8> {
    spec_invocation_prefix().add(id).add(spec_error_suffix())
}

/// The path of the next-invocation fetch.
pub fn next_path() -> (r: Vec<u8>)
    ensures
        r@ == spec_next_path(),
{
    let v: Vec<u8> = vec![
        105u8, 110, 118, 111, 99, 97, 116, 105, 111, 110, 47, 110, 101, 120, 116,
    ];
    proof {
        assert(v@ =~= spec_next_path());
    }
    v
}

/// What the handler's run of one invocation came to: a success payload
/// to post back, or a typed failure with its label and message.
#[derive(Debug, Clone, PartialEq, Eq)]
pub enum HandlerOutcome {
    /// The encoded success payload.
    Success(Vec<u8>),
    /// A typed failure: a stable type label and a human-readable message.
    Failure { error_type: Vec<u8>, error_message: Vec<u8> },
}

/// One POST the loop decided on: its target path and its body.
#[derive(Debug, Clone, PartialEq, Eq)]
pub struct PostPlan {
    /// The path under the control endpoint's fixed prefix.
    pub path: Vec<u8>,
    /// The body to stream through the chunked writer.
    pub body: Vec<u8>,
}

/// Decides the POST answering one invocation: a success posts its
/// payload to the invocation's response path; a failure posts the
/// structured error report to the invocation's error path — never the
/// success path.
pub fn plan_response(request_id: &[u8], outcome: &HandlerOutcome) -> (r: PostPlan)
    ensures
        match outcome {
            HandlerOutcome::Success(body) => r.path@ == spec_response_path(request_id@)
                && r.body@ == body@,
            HandlerOutcome::Failure { error_type, error_message } => r.path@ == spec_error_path(
                request_id@,
            ) && r.body@ == spec_error_body(error_type@, error_message@),
        },
{
    let prefix: Vec<u8> = vec![105u8, 110, 118, 111, 99, 97, 116, 105, 111, 110, 47];
    proof {
        assert(prefix@ =~= spec_invocation_prefix());
    }
    let mut path = prefix;
    push_all(&mut path, request_id);
    match outcome {
        HandlerOutcome::Success(body) => {
            let suffix: Vec<u8> = vec![47u8, 114, 101, 115, 112, 111, 110, 115, 101];
            proof {
                assert(suffix@ =~= spec_response_suffix());
            }
            push_all(&mut path, suffix.as_slice());
            PostPlan { path, body: slice_to_vec_bytes(body.as_slice()) }
        },
        HandlerOutcome::Failure { error_type, error_message } => {
            let suffix: Vec<u8> = vec![47u8, 101, 114, 114, 111, 114];
            proof {
                assert(suffix@ =~= spec_error_suffix());
            }
            push_all(&mut path, suffix.as_slice());
            PostPlan {
                path,
                body: encode_error_body(error_type.as_slice(), error_message.as_slice()),
            }
        },
    }
}

fn slice_to_vec_bytes(s: &[u8]) -> (r: Vec<u8>)
    ensures
        r@ == s@,
{
    vstd::slice::slice_to_vec(s)
}

/// `minlambda::Error`: the type label of loop-level failure reports.
pub open spec fn spec_runtime_error_type() -> Seq<u8> {
    seq![
        109u8, 105u8, 110u8, 108u8, 97u8, 109u8, 98u8, 100u8, 97u8, 58u8, 58u8, 69u8, 114u8,
        114u8, 111u8, 114u8,
    ]
}

/// Decides the best-effort report of a failed cycle: an error report
/// labelled with the runtime's own type, addressed to the
/// initialization-error path.
pub fn plan_recovery(error_message: &[u8]) -> (r: PostPlan)
    ensures
        r.path@ == spec_init_error_path(),
        r.body@ == spec_error_body(spec_runtime_error_type(), error_message@),
{
    let path: Vec<u8> = vec![105u8, 110, 105, 116, 47, 101, 114, 114, 111, 114];
    proof {
        assert(path@ =~= spec_init_error_path());
    }
    let ty: Vec<u8> = vec![
        109u8, 105, 110, 108, 97, 109, 98, 100, 97, 58, 58, 69, 114, 114, 111, 114,
    ];
    proof {
        assert(ty@ =~= spec_runtime_error_type());
    }
    PostPlan { path, body: encode_error_body(ty.as_slice(), error_message) }
}

/// Whether the loop goes on after a cycle.
#[derive(Debug, Clone, Copy, PartialEq, Eq, Structural)]
pub enum CycleOutcome {
    /// Restart the cycle at the next fetch.
    Continue,
    /// Abort: the best-effort failure report itself could not be
    /// delivered, the one condition with no further recovery path.
    Fatal,
}

/// Decides the cycle's end: a failed cycle is survived as long as its
/// recovery report went through; only a failed report is fatal.
pub fn recovery_outcome(report_ok: bool) -> (r: CycleOutcome)
    ensures
        r == if report_ok {
            CycleOutcome::Continue
        } else {
            CycleOutcome::Fatal
        },
{
    if report_ok {
        CycleOutcome::Continue
    } else {
        CycleOutcome::Fatal
    }
}

/// An invocation's failure report goes to the error path, never the
/// response path: the two differ for every correlation identifier.
pub proof fn lemma_error_path_differs(id: Seq<u8>)
    ensures
        spec_error_path(id) != spec_response_path(id),
{
    assert(spec_error_path(id).len() != spec_response_path(id).len());
}

/// What just finished in the cycle, as the host reports it back.
#[derive(Debug, Clone, PartialEq, Eq)]
pub enum CycleEvent {
    /// The fetch of the next invocation failed, with its diagnostic
    /// message.
    FetchFailed { message: Vec<u8> },
    /// The handler ran on a fetched invocation.
    HandlerDone { request_id: Vec<u8>, outcome: HandlerOutcome },
    /// The POST answering an invocation finished; a failure carries
    /// its diagnostic message.
    RespondDone { failure: Option<Vec<u8>> },
    /// The best-effort recovery report finished.
    RecoveryDone { ok: bool },
}

/// What the host must do next.
#[derive(Debug, Clone, PartialEq, Eq)]
pub enum CycleAction {
    /// Restart the cycle: fetch the next invocation.
    Fetch,
    /// Perform this POST; `recovery` marks the best-effort report
    /// whose own failure would be fatal.
    Post { plan: PostPlan, recovery: bool },
    /// Abort the loop: the recovery report itself failed.
    Abort,
}

/// One decision of the poll loop. A failed fetch, like any failed
/// response POST, is answered with a best-effort recovery report and
/// the cycle restarts; a finished handler is answered with the POST of
/// [`plan_response`]; only a failed recovery report aborts the loop.
pub fn cycle_step(event: CycleEvent) -> (r: CycleAction)
    ensures
        match event {
            CycleEvent::FetchFailed { message } => (r matches CycleAction::Post { plan, recovery }
                && recovery && plan.path@ == spec_init_error_path() && plan.body@
                == spec_error_body(spec_runtime_error_type(), message@)),
            CycleEvent::HandlerDone { request_id, outcome } => (r matches CycleAction::Post {
                plan,
                recovery,
            } && !recovery && (match outcome {
                HandlerOutcome::Success(body) => plan.path@ == spec_response_path(request_id@)
                    && plan.body@ == body@,
                HandlerOutcome::Failure { error_type, error_message } => plan.path@
                    == spec_error_path(request_id@) && plan.body@ == spec_error_body(
                    error_type@,
                    error_message@,
                ),
            })),
            CycleEvent::RespondDone { failure } => match failure {
                None => r == CycleAction::Fetch,
                Some(message) => (r matches CycleAction::Post { plan, recovery } && recovery
                    && plan.path@ == spec_init_error_path() && plan.body@ == spec_error_body(
                    spec_runtime_error_type(),
                    message@,
                )),
            },
            CycleEvent::RecoveryDone { ok } => r == if ok {
                CycleAction::Fetch
            } else {
                CycleAction::Abort
            },
        },
{
    match event {
        CycleEvent::FetchFailed { message } => CycleAction::Post {
            plan: plan_recovery(message.as_slice()),
            recovery: true,
        },
        CycleEvent::HandlerDone { request_id, outcome } => CycleAction::Post {
            plan: plan_response(request_id.as_slice(), &outcome),
            recovery: false,
        },
        CycleEvent::RespondDone { failure } => match failure {
            None => CycleAction::Fetch,
            Some(message) => CycleAction::Post {
                plan: plan_recovery(message.as_slice()),
                recovery: true,
            },
        },
        CycleEvent::RecoveryDone { ok } => match recovery_outcome(ok) {
            CycleOutcome::Continue => CycleAction::Fetch,
            CycleOutcome::Fatal => CycleAction::Abort,
        },
    }
}

} // verus!
