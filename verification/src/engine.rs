//! The execution engine, held behind a small trusted surface.
//!
//! The engine itself — instruction interpretation, gas accounting, state
//! journaling — is an external collaborator and is consumed as a black box
//! with three operations: speculative execution, committing execution, and
//! direct state access.  This module holds the engine value opaquely and
//! gives the rest of the crate contracts over three named views of its
//! in-memory database: account balances, account nonces, and storage slots.

use vstd::prelude::*;
use crate::codec::be_val;
use crate::codec::pow;
use crate::outcome::EngineOutcome;
use crate::outcome::LogRecord;
use crate::outcome::OutcomeOutput;
use crate::outcome::outcome_wf;
use crate::outcome::log_record_wf;
use revm::context::result::ExecutionResult;
use revm::context::result::HaltReason;
use revm::context::result::Output;
use revm::context::BlockEnv;
use revm::context::CfgEnv;
use revm::context::TxEnv;
use revm::database::CacheDB;
use revm::database_interface::EmptyDB;
use revm::primitives::Address;
use revm::primitives::Bytes;
use revm::primitives::Log;
use revm::primitives::LogData;
use revm::primitives::TxKind;
use revm::primitives::U256;
use revm::Context;
use revm::context_interface::ContextTr;
use revm::Database;
use revm::ExecuteCommitEvm;
use revm::ExecuteEvm;
use revm::Journal;
use revm::MainBuilder;
use revm::MainContext;
use revm::MainnetEvm;

verus! {

/// The engine's tagged result type.
#[verifier::external_type_specification]
#[verifier::external_body]
#[verifier::reject_recursive_types(HaltReasonTy)]
pub struct ExExecutionResult<HaltReasonTy>(ExecutionResult<HaltReasonTy>);

/// The engine's halt reason code.
#[verifier::external_type_specification]
#[verifier::external_body]
pub struct ExHaltReason(HaltReason);

/// The engine's success output payload.
#[verifier::external_type_specification]
#[verifier::external_body]
pub struct ExOutput(Output);

/// The engine's log record type.
#[verifier::external_type_specification]
#[verifier::external_body]
#[verifier::reject_recursive_types(T)]
pub struct ExLog<T>(Log<T>);

/// The body of an engine log record: topic words and data payload.
#[verifier::external_type_specification]
#[verifier::external_body]
pub struct ExLogData(LogData);

/// The engine's transaction environment.
#[verifier::external_type_specification]
#[verifier::external_body]
pub struct ExTxEnv(TxEnv);

/// A transaction as staged on an instance, ready for dispatch.
///
/// Addresses are raw 20-byte values; the transaction value and the gas price
/// are 32-byte big-endian words.  A `None` target stages a contract
/// creation.
pub struct StagedTx {
    pub caller: Vec<u8>,
    pub target: Option<Vec<u8>>,
    pub value: Vec<u8>,
    pub data: Vec<u8>,
    pub gas_limit: u64,
    pub gas_price: Vec<u8>,
    pub nonce: u64,
    pub chain_id: Option<u64>,
}

pub open spec fn staged_tx_wf(t: StagedTx) -> bool {
    &&& t.caller@.len() == 20
    &&& (t.target matches Some(a) ==> a@.len() == 20)
    &&& t.value@.len() == 32
    &&& t.gas_price@.len() == 32
    &&& be_val(t.gas_price@) < pow(256, 16)
}

/// An execution engine bound to its own in-memory account database.
///
/// The value is opaque to verification; the named views below are the only
/// handles the contracts have on its state.
#[verifier::external_body]
pub struct Engine {
    inner: MainnetEvm<Context<BlockEnv, TxEnv, CfgEnv, CacheDB<EmptyDB>, Journal<CacheDB<EmptyDB>>, ()>>,
}

/// The balance, as a number, of every 20-byte address in the engine's database.
pub uninterp spec fn engine_balances(e: Engine) -> Map<Seq<u8>, nat>;

/// The nonce of every 20-byte address in the engine's database.
pub uninterp spec fn engine_nonces(e: Engine) -> Map<Seq<u8>, nat>;

/// The value of every (address, slot) storage cell in the engine's database.
pub uninterp spec fn engine_storage(e: Engine) -> Map<(Seq<u8>, nat), nat>;

impl Engine {
    /// Relies on the engine's constructor chain over an empty in-memory
    /// database: a fresh engine reads every account as absent, so every
    /// balance, nonce and storage slot reads as zero.
    #[verifier::external_body]
    pub fn new() -> (e: Engine)
        ensures
            engine_balances(e) == Map::total(|a: Seq<u8>| 0nat),
            engine_nonces(e) == Map::total(|a: Seq<u8>| 0nat),
            engine_storage(e) == Map::total(|k: (Seq<u8>, nat)| 0nat),
    {
        let cache_db = CacheDB::<EmptyDB>::default();
        let ctx = Context::mainnet().with_db(cache_db);
        Engine { inner: ctx.build_mainnet() }
    }

    /// Relies on the database's account read: a missing account reads as
    /// the default account, whose balance is zero.
    #[verifier::external_body]
    pub fn balance_of(&mut self, addr: &Vec<u8>) -> (r: Vec<u8>)
        requires
            addr@.len() == 20,
        ensures
            r@.len() == 32,
            be_val(r@) == engine_balances(*old(self))[addr@],
            engine_balances(*final(self)) == engine_balances(*old(self)),
            engine_nonces(*final(self)) == engine_nonces(*old(self)),
            engine_storage(*final(self)) == engine_storage(*old(self)),
    {
        let a = Address::from_slice(addr.as_slice());
        let info = self.inner.ctx.db_mut().basic(a).unwrap().unwrap_or_default();
        info.balance.to_be_bytes::<32>().to_vec()
    }

    /// Relies on the database's account read and insert: only the named
    /// account's balance changes; its nonce and code are kept.
    #[verifier::external_body]
    pub fn set_balance_raw(&mut self, addr: &Vec<u8>, value: &Vec<u8>)
        requires
            addr@.len() == 20,
            value@.len() == 32,
        ensures
            engine_balances(*final(self)) == engine_balances(*old(self)).insert(
                addr@,
                be_val(value@),
            ),
            engine_nonces(*final(self)) == engine_nonces(*old(self)),
            engine_storage(*final(self)) == engine_storage(*old(self)),
    {
        let a = Address::from_slice(addr.as_slice());
        let mut info = self.inner.ctx.db_mut().basic(a).unwrap().unwrap_or_default();
        info.balance = U256::from_be_slice(value.as_slice());
        self.inner.ctx.db_mut().insert_account_info(a, info);
    }

    /// Relies on the database's account read: a missing account reads as
    /// the default account, whose nonce is zero.
    #[verifier::external_body]
    pub fn nonce_of(&mut self, addr: &Vec<u8>) -> (r: u64)
        requires
            addr@.len() == 20,
        ensures
            r as nat == engine_nonces(*old(self))[addr@],
            engine_balances(*final(self)) == engine_balances(*old(self)),
            engine_nonces(*final(self)) == engine_nonces(*old(self)),
            engine_storage(*final(self)) == engine_storage(*old(self)),
    {
        let a = Address::from_slice(addr.as_slice());
        let info = self.inner.ctx.db_mut().basic(a).unwrap().unwrap_or_default();
        info.nonce
    }

    /// Relies on the database's storage read: a missing cell reads as zero.
    #[verifier::external_body]
    pub fn storage_at(&mut self, addr: &Vec<u8>, slot: &Vec<u8>) -> (r: Vec<u8>)
        requires
            addr@.len() == 20,
            slot@.len() == 32,
        ensures
            r@.len() == 32,
            be_val(r@) == engine_storage(*old(self))[(addr@, be_val(slot@))],
            engine_balances(*final(self)) == engine_balances(*old(self)),
            engine_nonces(*final(self)) == engine_nonces(*old(self)),
            engine_storage(*final(self)) == engine_storage(*old(self)),
    {
        let a = Address::from_slice(addr.as_slice());
        let k = U256::from_be_slice(slot.as_slice());
        let v = self.inner.ctx.db_mut().storage(a, k).unwrap();
        v.to_be_bytes::<32>().to_vec()
    }

    /// Relies on the database's storage insert: only the named cell changes.
    #[verifier::external_body]
    pub fn set_storage_raw(&mut self, addr: &Vec<u8>, slot: &Vec<u8>, value: &Vec<u8>)
        requires
            addr@.len() == 20,
            slot@.len() == 32,
            value@.len() == 32,
        ensures
            engine_storage(*final(self)) == engine_storage(*old(self)).insert(
                (addr@, be_val(slot@)),
                be_val(value@),
            ),
            engine_balances(*final(self)) == engine_balances(*old(self)),
            engine_nonces(*final(self)) == engine_nonces(*old(self)),
    {
        let a = Address::from_slice(addr.as_slice());
        let k = U256::from_be_slice(slot.as_slice());
        let v = U256::from_be_slice(value.as_slice());
        self.inner.ctx.db_mut().insert_account_storage(a, k, v).unwrap();
    }

    /// Relies on the engine's transaction-environment type; pure conversion
    /// of staged fields into the engine's expected form.
    #[verifier::external_body]
    pub(crate) fn tx_env_of(tx: &StagedTx) -> TxEnv
        requires
            staged_tx_wf(*tx),
    {
        let mut low = [0u8; 16];
        low.copy_from_slice(&tx.gas_price.as_slice()[16..32]);
        let kind = match &tx.target {
            Some(t) => TxKind::Call(Address::from_slice(t.as_slice())),
            None => TxKind::Create,
        };
        TxEnv {
            caller: Address::from_slice(tx.caller.as_slice()), kind,
            value: U256::from_be_slice(tx.value.as_slice()),
            data: Bytes::copy_from_slice(tx.data.as_slice()),
            gas_limit: tx.gas_limit, gas_price: u128::from_be_bytes(low),
            nonce: tx.nonce, chain_id: tx.chain_id, ..TxEnv::default()
        }
    }

    /// Relies on the engine's speculative execution: the journaled state is
    /// discarded, never committed, so the database reads unchanged; a
    /// rejection carries the engine's diagnostic text.
    #[verifier::external_body]
    pub fn transact_dry(&mut self, env: TxEnv) -> (r: Result<
        ExecutionResult<HaltReason>,
        Vec<u8>,
    >)
        ensures
            engine_balances(*final(self)) == engine_balances(*old(self)),
            engine_nonces(*final(self)) == engine_nonces(*old(self)),
            engine_storage(*final(self)) == engine_storage(*old(self)),
            r matches Err(e) ==> e@.len() > 0,
    {
        match self.inner.transact(env) {
            Ok(rs) => Ok(rs.result),
            Err(e) => Err(format!("execution error: {:?}", e).into_bytes()),
        }
    }

    /// Relies on the engine's committing execution: on a rejection nothing
    /// is committed, so the database reads unchanged; on an outcome the
    /// resulting state changes are applied, and nothing more is promised of
    /// the database.
    #[verifier::external_body]
    pub fn transact_commit(&mut self, env: TxEnv) -> (r: Result<
        ExecutionResult<HaltReason>,
        Vec<u8>,
    >)
        ensures
            r matches Err(e) ==> e@.len() > 0 && engine_balances(*final(self)) == engine_balances(
                *old(self),
            ) && engine_nonces(*final(self)) == engine_nonces(*old(self)) && engine_storage(
                *final(self),
            ) == engine_storage(*old(self)),
    {
        match self.inner.transact_commit(env) {
            Ok(res) => Ok(res),
            Err(e) => Err(format!("execution error: {:?}", e).into_bytes()),
        }
    }
}

/// Relies on the engine's log type: its address is 20 bytes and each of its
/// topic words is 32 bytes; pure conversion into plain byte vectors.
#[verifier::external_body]
fn log_record_of(l: Log<LogData>) -> (r: LogRecord)
    ensures
        log_record_wf(r),
{
    LogRecord {
        address: l.address.as_slice().to_vec(),
        topics: l.data.topics().iter().map(|t| t.as_slice().to_vec()).collect(),
        data: l.data.data.to_vec(),
    }
}

/// Relies on the engine's log list; converts each record in order.
#[verifier::external_body]
fn log_records_of(logs: Vec<Log<LogData>>) -> (r: Vec<LogRecord>)
    ensures
        forall|i: int| 0 <= i < r@.len() ==> log_record_wf(#[trigger] r@[i]),
{
    logs.into_iter().map(log_record_of).collect()
}

/// Relies on the engine's output payload shape: either returned call data,
/// or deployed code with an optional 20-byte created address.
#[verifier::external_body]
fn output_of(out: Output) -> (r: OutcomeOutput)
    ensures
        r matches OutcomeOutput::Create { address: Some(a), .. } ==> a@.len() == 20,
{
    match out {
        Output::Call(data) => OutcomeOutput::Call { data: data.to_vec() },
        Output::Create(code, address) => OutcomeOutput::Create {
            code: code.to_vec(),
            address: address.map(|a| a.as_slice().to_vec()),
        },
    }
}

/// Relies on the engine's tagged result: one arm per shape, fields moved
/// over; gas is read through the result's own accessors.
#[verifier::external_body]
pub fn outcome_of(res: ExecutionResult<HaltReason>) -> (o: EngineOutcome)
    ensures
        outcome_wf(o),
{
    match res {
        ExecutionResult::Success { gas, logs, output, .. } => EngineOutcome::Success {
            gas_used: gas.used(), gas_refunded: gas.final_refunded(),
            logs: log_records_of(logs), output: output_of(output),
        },
        ExecutionResult::Revert { gas, logs, output } => EngineOutcome::Revert {
            gas_used: gas.used(), logs: log_records_of(logs), output: output.to_vec(),
        },
        ExecutionResult::Halt { reason, gas, logs } => EngineOutcome::Halt {
            reason: format!("{:?}", reason).into_bytes(), gas_used: gas.used(),
            logs: log_records_of(logs),
        },
    }
}

} // verus!
