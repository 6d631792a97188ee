//! Execution outcomes and their flattening.
//!
//! The engine reports a tagged outcome with three shapes: success, revert and
//! halt.  The bridge keeps that rich form internally and flattens it at the
//! last moment into a fixed-layout record with a numeric discriminant, where
//! every variable-length field is an optional buffer whose presence always
//! agrees with its count: an absent buffer means a zero count, never an
//! allocated empty one.

use vstd::prelude::*;
use crate::codec::hex_text_of;
use crate::codec::format_hex;
use crate::codec::is_addr_text;
use crate::codec::lemma_hex_text_is_addr_text;

verus! {

/// One emitted log record: emitting address, ordered topic words, payload.
pub struct LogRecord {
    /// The 20 bytes of the emitting address.
    pub address: Vec<u8>,
    /// The 32-byte topic words, in order.
    pub topics: Vec<Vec<u8>>,
    /// The opaque data payload.
    pub data: Vec<u8>,
}

pub open spec fn log_record_wf(l: LogRecord) -> bool {
    &&& l.address@.len() == 20
    &&& forall|i: int| 0 <= i < l.topics@.len() ==> #[trigger] l.topics@[i]@.len() == 32
}

/// The output payload of a successful execution.
pub enum OutcomeOutput {
    /// Returned call data.
    Call { data: Vec<u8> },
    /// Deployed code, and the created address when one was assigned.
    Create { code: Vec<u8>, address: Option<Vec<u8>> },
}

/// The engine's tagged execution outcome.
pub enum EngineOutcome {
    Success { gas_used: u64, gas_refunded: u64, logs: Vec<LogRecord>, output: OutcomeOutput },
    Revert { gas_used: u64, logs: Vec<LogRecord>, output: Vec<u8> },
    Halt { reason: Vec<u8>, gas_used: u64, logs: Vec<LogRecord> },
}

pub open spec fn outcome_wf(o: EngineOutcome) -> bool {
    match o {
        EngineOutcome::Success { logs, output, .. } => {
            &&& forall|i: int| 0 <= i < logs@.len() ==> log_record_wf(#[trigger] logs@[i])
            &&& match output {
                OutcomeOutput::Create { address: Some(a), .. } => a@.len() == 20,
                _ => true,
            }
        },
        _ => true,
    }
}

// ---------------------------------------------------------------------------
// Flattened, boundary-safe records
// ---------------------------------------------------------------------------

/// A flattened log record: texts and buffers the caller owns outright.
pub struct FlatLog {
    /// The emitting address as canonical `0x` text.
    pub address_text: Vec<u8>,
    pub topics_count: usize,
    /// One canonical `0x` text per topic; absent when the count is zero.
    pub topics: Option<Vec<Vec<u8>>>,
    /// The raw payload; absent when its length is zero.
    pub data: Option<Vec<u8>>,
    pub data_len: usize,
}

/// Counts agree with buffer presence: a zero count has no allocation behind it.
pub open spec fn flat_log_wf(f: FlatLog) -> bool {
    &&& (f.topics.is_none() <==> f.topics_count == 0)
    &&& (f.topics matches Some(ts) ==> ts@.len() == f.topics_count)
    &&& (f.data.is_none() <==> f.data_len == 0)
    &&& (f.data matches Some(d) ==> d@.len() == f.data_len)
}

/// The flattened execution outcome handed across the boundary.
///
/// `success` is the outcome discriminant: positive for success, zero for
/// revert, negative for halt.  Gas refund, logs and created address are
/// meaningful only for success; for the other shapes they hold the empty
/// sentinels, so that reading them is always safe.
pub struct FlatOutcome {
    pub success: i32,
    pub gas_used: u64,
    pub gas_refunded: u64,
    pub output: Option<Vec<u8>>,
    pub output_len: usize,
    pub logs: Option<Vec<FlatLog>>,
    pub logs_count: usize,
    /// Canonical `0x` text of the created address, or the absent sentinel.
    pub created_address: Option<Vec<u8>>,
}

pub open spec fn flat_wf(f: FlatOutcome) -> bool {
    &&& (f.output.is_none() <==> f.output_len == 0)
    &&& (f.output matches Some(d) ==> d@.len() == f.output_len)
    &&& (f.logs.is_none() <==> f.logs_count == 0)
    &&& (f.logs matches Some(ls) ==> ls@.len() == f.logs_count && forall|i: int|
        0 <= i < ls@.len() ==> flat_log_wf(#[trigger] ls@[i]))
}

/// The discriminant contract: the marker decides which fields carry payload.
pub open spec fn flat_discriminant_ok(f: FlatOutcome) -> bool {
    &&& (f.success == 1 || f.success == 0 || f.success == -1)
    &&& (f.success != 1 ==> f.gas_refunded == 0 && f.logs.is_none() && f.logs_count == 0
        && f.created_address.is_none())
    &&& (f.success == -1 ==> f.output.is_none() && f.output_len == 0)
}

// ---------------------------------------------------------------------------
// Marshalling relations
// ---------------------------------------------------------------------------

/// An optional buffer `o` with count `len` carries exactly the bytes `b`.
pub open spec fn buf_matches(b: Seq<u8>, o: Option<Vec<u8>>, len: usize) -> bool {
    &&& len == b.len()
    &&& (o.is_some() <==> b.len() > 0)
    &&& (o matches Some(d) ==> d@ == b)
}

pub open spec fn log_marshals_to(l: LogRecord, f: FlatLog) -> bool {
    &&& f.address_text@ == hex_text_of(l.address@)
    &&& f.topics_count == l.topics@.len()
    &&& (f.topics.is_some() <==> l.topics@.len() > 0)
    &&& (f.topics matches Some(ts) ==> ts@.len() == l.topics@.len() && forall|i: int|
        0 <= i < ts@.len() ==> #[trigger] ts@[i]@ == hex_text_of(l.topics@[i]@))
    &&& buf_matches(l.data@, f.data, f.data_len)
}

pub open spec fn outcome_marshals_to(o: EngineOutcome, f: FlatOutcome) -> bool {
    match o {
        EngineOutcome::Success { gas_used, gas_refunded, logs, output } => {
            &&& f.success == 1
            &&& f.gas_used == gas_used
            &&& f.gas_refunded == gas_refunded
            &&& f.logs_count == logs@.len()
            &&& (f.logs.is_some() <==> logs@.len() > 0)
            &&& (f.logs matches Some(fl) ==> fl@.len() == logs@.len() && forall|i: int|
                0 <= i < fl@.len() ==> log_marshals_to(logs@[i], #[trigger] fl@[i]))
            &&& match output {
                OutcomeOutput::Call { data } => {
                    &&& buf_matches(data@, f.output, f.output_len)
                    &&& f.created_address.is_none()
                },
                OutcomeOutput::Create { code, address } => {
                    &&& buf_matches(code@, f.output, f.output_len)
                    &&& match address {
                        Some(a) => f.created_address matches Some(t) && t@ == hex_text_of(a@),
                        None => f.created_address.is_none(),
                    }
                },
            }
        },
        EngineOutcome::Revert { gas_used, logs, output } => {
            &&& f.success == 0
            &&& f.gas_used == gas_used
            &&& f.gas_refunded == 0
            &&& buf_matches(output@, f.output, f.output_len)
            &&& f.logs.is_none()
            &&& f.logs_count == 0
            &&& f.created_address.is_none()
        },
        EngineOutcome::Halt { gas_used, .. } => {
            &&& f.success == -1
            &&& f.gas_used == gas_used
            &&& f.gas_refunded == 0
            &&& f.output.is_none()
            &&& f.output_len == 0
            &&& f.logs.is_none()
            &&& f.logs_count == 0
            &&& f.created_address.is_none()
        },
    }
}

/// The discriminant invariant: whatever the outcome, its flattened form
/// carries the success marker exactly for success, the zero marker exactly
/// for revert, the negative marker exactly for halt, and payload fields
/// only where the marker allows them.
pub proof fn lemma_discriminant_invariant(o: EngineOutcome, f: FlatOutcome)
    requires
        outcome_marshals_to(o, f),
    ensures
        flat_discriminant_ok(f),
        f.success == 1 <==> o is Success,
        f.success == 0 <==> o is Revert,
        f.success == -1 <==> o is Halt,
{
}

// ---------------------------------------------------------------------------
// Executable marshalling
// ---------------------------------------------------------------------------

/// Wrap a byte buffer for the boundary: absent when empty.
fn opt_buf(data: Vec<u8>) -> (r: (Option<Vec<u8>>, usize))
    ensures
        buf_matches(data@, r.0, r.1),
{
    let n = data.len();
    if n == 0 {
        (None, 0)
    } else {
        (Some(data), n)
    }
}

/// Flatten one log record.
pub fn marshal_log(l: LogRecord) -> (f: FlatLog)
    requires
        log_record_wf(l),
    ensures
        log_marshals_to(l, f),
        flat_log_wf(f),
        is_addr_text(f.address_text@),
{
    proof {
        lemma_hex_text_is_addr_text(l.address@);
    }
    let LogRecord { address, topics, data } = l;
    let address_text = format_hex(address.as_slice());
    let topics_count = topics.len();
    let topics_opt: Option<Vec<Vec<u8>>> = if topics.len() == 0 {
        None
    } else {
        let mut ts: Vec<Vec<u8>> = Vec::new();
        let mut i: usize = 0;
        while i < topics.len()
            invariant
                0 <= i <= topics@.len(),
                ts@.len() == i,
                forall|k: int| 0 <= k < topics@.len() ==> #[trigger] topics@[k]@.len() == 32,
                forall|k: int| 0 <= k < i ==> #[trigger] ts@[k]@ == hex_text_of(topics@[k]@),
            decreases topics@.len() - i,
        {
            ts.push(format_hex(topics[i].as_slice()));
            i += 1;
        }
        Some(ts)
    };
    let data_len = data.len();
    let data_opt: Option<Vec<u8>> = if data.len() == 0 {
        None
    } else {
        Some(data)
    };
    FlatLog { address_text, topics_count, topics: topics_opt, data: data_opt, data_len }
}

/// Flatten a sequence of log records; absent when there are none.
fn marshal_logs(logs: Vec<LogRecord>) -> (r: (Option<Vec<FlatLog>>, usize))
    requires
        forall|i: int| 0 <= i < logs@.len() ==> log_record_wf(#[trigger] logs@[i]),
    ensures
        r.1 == logs@.len(),
        r.0.is_some() <==> logs@.len() > 0,
        r.0 matches Some(fl) ==> fl@.len() == logs@.len() && forall|i: int|
            0 <= i < fl@.len() ==> log_marshals_to(logs@[i], #[trigger] fl@[i]) && flat_log_wf(
                fl@[i],
            ),
{
    let n = logs.len();
    if n == 0 {
        return (None, 0);
    }
    let ghost orig = logs@;
    let mut rest = logs;
    let mut fl: Vec<FlatLog> = Vec::new();
    let mut i: usize = 0;
    while i < n
        invariant
            orig.len() == n,
            0 <= i <= n,
            rest@ =~= orig.skip(i as int),
            fl@.len() == i,
            forall|k: int| 0 <= k < orig.len() ==> log_record_wf(#[trigger] orig[k]),
            forall|k: int| 0 <= k < i ==> log_marshals_to(orig[k], #[trigger] fl@[k])
                && flat_log_wf(fl@[k]),
        decreases n - i,
    {
        let l = rest.remove(0);
        assert(l == orig[i as int]);
        fl.push(marshal_log(l));
        proof {
            assert(rest@ =~= orig.skip(i as int + 1));
        }
        i += 1;
    }
    (Some(fl), n)
}

/// Flatten the engine's tagged outcome into the boundary record.
///
/// Success takes the positive marker and keeps gas refund, logs and, for a
/// creation, the created address as canonical text.  Revert takes the zero
/// marker with the revert payload alone.  Halt takes the negative marker
/// with every payload field at its empty sentinel.
pub fn marshal_outcome(o: EngineOutcome) -> (f: FlatOutcome)
    requires
        outcome_wf(o),
    ensures
        outcome_marshals_to(o, f),
        flat_wf(f),
        flat_discriminant_ok(f),
        f.created_address matches Some(t) ==> is_addr_text(t@),
{
    match o {
        EngineOutcome::Success { gas_used, gas_refunded, logs, output } => {
            let (logs_opt, logs_count) = marshal_logs(logs);
            let (output_opt, output_len, created): (Option<Vec<u8>>, usize, Option<Vec<u8>>) =
                match output {
                OutcomeOutput::Call { data } => {
                    let (b, l) = opt_buf(data);
                    (b, l, None)
                },
                OutcomeOutput::Create { code, address } => {
                    let (b, l) = opt_buf(code);
                    let created = match address {
                        Some(a) => {
                            proof {
                                lemma_hex_text_is_addr_text(a@);
                            }
                            Some(format_hex(a.as_slice()))
                        },
                        None => None,
                    };
                    (b, l, created)
                },
            };
            FlatOutcome {
                success: 1,
                gas_used,
                gas_refunded,
                output: output_opt,
                output_len,
                logs: logs_opt,
                logs_count,
                created_address: created,
            }
        },
        EngineOutcome::Revert { gas_used, logs: _, output } => {
            let (output_opt, output_len) = opt_buf(output);
            FlatOutcome {
                success: 0,
                gas_used,
                gas_refunded: 0,
                output: output_opt,
                output_len,
                logs: None,
                logs_count: 0,
                created_address: None,
            }
        },
        EngineOutcome::Halt { reason: _, gas_used, logs: _ } => {
            FlatOutcome {
                success: -1,
                gas_used,
                gas_refunded: 0,
                output: None,
                output_len: 0,
                logs: None,
                logs_count: 0,
                created_address: None,
            }
        },
    }
}

/// The result of the contract-deployment convenience path.
pub struct DeploymentResult {
    pub success: bool,
    /// Canonical `0x` text of the deployed contract's address, when assigned.
    pub contract_address: Option<Vec<u8>>,
    pub gas_used: u64,
    pub gas_refunded: u64,
}

pub open spec fn deployment_marshals_to(o: EngineOutcome, d: DeploymentResult) -> bool {
    match o {
        EngineOutcome::Success { gas_used, gas_refunded, output, .. } => {
            &&& d.success
            &&& d.gas_used == gas_used
            &&& d.gas_refunded == gas_refunded
            &&& match output {
                OutcomeOutput::Create { address: Some(a), .. } => d.contract_address matches Some(
                    t,
                ) && t@ == hex_text_of(a@),
                _ => d.contract_address.is_none(),
            }
        },
        EngineOutcome::Revert { gas_used, .. } => {
            &&& !d.success
            &&& d.gas_used == gas_used
            &&& d.gas_refunded == 0
            &&& d.contract_address.is_none()
        },
        EngineOutcome::Halt { gas_used, .. } => {
            &&& !d.success
            &&& d.gas_used == gas_used
            &&& d.gas_refunded == 0
            &&& d.contract_address.is_none()
        },
    }
}

/// Condense an outcome into the deployment result record.
///
/// Besides the per-variant relation, the record's own shape holds whatever
/// the outcome was: a failed deployment carries no address and no refund,
/// and any returned address text is accepted by the address codec.
pub fn marshal_deployment(o: &EngineOutcome) -> (d: DeploymentResult)
    requires
        outcome_wf(*o),
    ensures
        deployment_marshals_to(*o, d),
        !d.success ==> d.contract_address.is_none() && d.gas_refunded == 0,
        d.contract_address matches Some(t) ==> is_addr_text(t@),
{
    match o {
        EngineOutcome::Success { gas_used, gas_refunded, output, .. } => {
            let addr_text: Option<Vec<u8>> = match output {
                OutcomeOutput::Create { address: Some(a), .. } => {
                    proof {
                        lemma_hex_text_is_addr_text(a@);
                    }
                    Some(format_hex(a.as_slice()))
                },
                _ => None,
            };
            DeploymentResult {
                success: true,
                contract_address: addr_text,
                gas_used: *gas_used,
                gas_refunded: *gas_refunded,
            }
        },
        EngineOutcome::Revert { gas_used, .. } => DeploymentResult {
            success: false,
            contract_address: None,
            gas_used: *gas_used,
            gas_refunded: 0,
        },
        EngineOutcome::Halt { gas_used, .. } => DeploymentResult {
            success: false,
            contract_address: None,
            gas_used: *gas_used,
            gas_refunded: 0,
        },
    }
}

} // verus!
