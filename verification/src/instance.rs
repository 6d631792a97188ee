//! The instance handle: staging, dispatch, and direct state access.
//!
//! An instance exclusively owns one engine bound to an in-memory database,
//! at most one pending transaction, and a sticky last-error slot.  Staging
//! validates every text parameter through the codec before it touches the
//! pending slot; dispatch runs the pending transaction speculatively or with
//! commitment and flattens the outcome; the state accessors read and write
//! the database directly, bypassing execution.

use vstd::prelude::*;
use vstd::slice::slice_to_vec;
use crate::codec::BridgeError;
use crate::codec::addr_of_text;
use crate::codec::be_val;
use crate::codec::dec_text;
use crate::codec::format_u256;
use crate::codec::is_addr_text;
use crate::codec::is_value_text;
use crate::codec::parse_address;
use crate::codec::parse_value;
use crate::codec::pow;
use crate::codec::value_of_text;
use crate::codec::word_fits_u128;
use crate::codec::zero_word;
use crate::codec::lemma_pow_pos;
use crate::engine::Engine;
use crate::engine::StagedTx;
use crate::engine::engine_balances;
use crate::engine::engine_nonces;
use crate::engine::engine_storage;
use crate::engine::outcome_of;
use crate::engine::staged_tx_wf;
use crate::outcome::DeploymentResult;
use crate::outcome::FlatOutcome;
use crate::outcome::flat_discriminant_ok;
use crate::outcome::flat_wf;
use crate::outcome::marshal_deployment;
use crate::outcome::marshal_outcome;

verus! {

/// The three database views agree between two engine values.
pub open spec fn engine_state_eq(a: Engine, b: Engine) -> bool {
    &&& engine_balances(a) == engine_balances(b)
    &&& engine_nonces(a) == engine_nonces(b)
    &&& engine_storage(a) == engine_storage(b)
}

/// An opaque instance: one engine, one pending transaction, one error slot.
pub struct RevmInstance {
    pub engine: Engine,
    pub pending: Option<StagedTx>,
    pub last_error: Option<BridgeError>,
}

impl RevmInstance {
    /// A staged transaction is well formed, and an engine failure always
    /// carries a nonempty diagnostic.
    pub open spec fn wf(self) -> bool {
        &&& (self.pending matches Some(t) ==> staged_tx_wf(t))
        &&& (self.last_error matches Some(BridgeError::EngineFailure(d)) ==> d@.len() > 0)
    }

    /// Create a fresh instance: an engine over an empty database, nothing
    /// staged, no error recorded.
    pub fn create() -> (r: RevmInstance)
        ensures
            r.wf(),
            r.pending.is_none(),
            r.last_error.is_none(),
            engine_balances(r.engine) == Map::total(|a: Seq<u8>| 0nat),
            engine_nonces(r.engine) == Map::total(|a: Seq<u8>| 0nat),
            engine_storage(r.engine) == Map::total(|k: (Seq<u8>, nat)| 0nat),
    {
        RevmInstance { engine: Engine::new(), pending: None, last_error: None }
    }

    /// All staging texts parse, and the gas price fits the engine's
    /// 128-bit gas price field.
    pub open spec fn stage_inputs_ok(
        caller: Seq<u8>,
        target: Option<Seq<u8>>,
        value: Seq<u8>,
        gas_price: Seq<u8>,
    ) -> bool {
        &&& is_addr_text(caller)
        &&& (target matches Some(t) ==> is_addr_text(t))
        &&& is_value_text(value)
        &&& is_value_text(gas_price)
        &&& value_of_text(gas_price) < pow(256, 16)
    }

    /// Stage a transaction, replacing any previously staged one.
    ///
    /// Every text parameter is validated through the codec first; if any is
    /// malformed the call fails, records the malformed-input error, and
    /// leaves the previously staged transaction intact.  On success the
    /// pending transaction holds exactly the parsed parameters and the
    /// error slot is cleared.  The engine's database is never touched.
    pub fn stage(
        &mut self,
        caller: &[u8],
        target: Option<&[u8]>,
        value: &[u8],
        data: &[u8],
        gas_limit: u64,
        gas_price: &[u8],
        nonce: u64,
        chain_id: Option<u64>,
    ) -> (r: i32)
        requires
            old(self).wf(),
        ensures
            final(self).wf(),
            r == 0 || r == -1,
            r == 0 <==> Self::stage_inputs_ok(
                caller@,
                match target {
                    Some(t) => Some(t@),
                    None => None,
                },
                value@,
                gas_price@,
            ),
            r == 0 ==> final(self).last_error.is_none() && (final(self).pending matches Some(t)
                && t.caller@ == addr_of_text(caller@) && (match target {
                Some(tt) => t.target matches Some(x) && x@ == addr_of_text(tt@),
                None => t.target.is_none(),
            }) && be_val(t.value@) == value_of_text(value@) && t.data@ == data@ && t.gas_limit
                == gas_limit && be_val(t.gas_price@) == value_of_text(gas_price@) && t.nonce
                == nonce && t.chain_id == chain_id),
            r != 0 ==> final(self).pending == old(self).pending && (final(self).last_error
                matches Some(BridgeError::MalformedInput)),
            final(self).engine == old(self).engine,
    {
        let caller_bytes = match parse_address(caller) {
            Ok(b) => b,
            Err(_) => {
                self.last_error = Some(BridgeError::MalformedInput);
                return -1;
            },
        };
        let target_bytes: Option<Vec<u8>> = match target {
            Some(t) => match parse_address(t) {
                Ok(b) => Some(b),
                Err(_) => {
                    self.last_error = Some(BridgeError::MalformedInput);
                    return -1;
                },
            },
            None => None,
        };
        let value_word = match parse_value(value) {
            Ok(w) => w,
            Err(_) => {
                self.last_error = Some(BridgeError::MalformedInput);
                return -1;
            },
        };
        let gas_price_word = match parse_value(gas_price) {
            Ok(w) => w,
            Err(_) => {
                self.last_error = Some(BridgeError::MalformedInput);
                return -1;
            },
        };
        if !word_fits_u128(&gas_price_word) {
            self.last_error = Some(BridgeError::MalformedInput);
            return -1;
        }
        self.pending = Some(
            StagedTx {
                caller: caller_bytes,
                target: target_bytes,
                value: value_word,
                data: slice_to_vec(data),
                gas_limit,
                gas_price: gas_price_word,
                nonce,
                chain_id,
            },
        );
        self.last_error = None;
        0
    }

    /// Dispatch the pending transaction speculatively: the outcome is
    /// flattened and returned, and every database view is left exactly as
    /// it was.  With nothing staged, or when the engine rejects the
    /// transaction before running it, no outcome is produced and the error
    /// slot holds an engine-failure diagnostic; otherwise the error slot is
    /// cleared.
    pub fn execute_dry(&mut self) -> (r: Option<FlatOutcome>)
        requires
            old(self).wf(),
        ensures
            final(self).wf(),
            final(self).pending == old(self).pending,
            engine_state_eq(final(self).engine, old(self).engine),
            old(self).pending.is_none() ==> r.is_none(),
            r matches Some(f) ==> flat_wf(f) && flat_discriminant_ok(f) && (f.created_address
                matches Some(ct) ==> is_addr_text(ct@)) && final(self).last_error.is_none(),
            r.is_none() ==> (final(self).last_error matches Some(BridgeError::EngineFailure(d))
                && d@.len() > 0),
    {
        self.last_error = None;
        match &self.pending {
            None => {
                self.last_error = Some(BridgeError::EngineFailure(no_transaction_message()));
                None
            },
            Some(tx) => {
                match self.engine.transact_dry(Engine::tx_env_of(tx)) {
                    Ok(res) => {
                        let o = outcome_of(res);
                        Some(marshal_outcome(o))
                    },
                    Err(e) => {
                        self.last_error = Some(BridgeError::EngineFailure(e));
                        None
                    },
                }
            },
        }
    }

    /// Dispatch the pending transaction and commit its state changes.
    ///
    /// Any of the three outcome shapes commits whatever state changes the
    /// engine produced for it.  When no outcome is produced — nothing
    /// staged, or the engine rejected the transaction before running it —
    /// every database view is left exactly as it was and the error slot
    /// holds an engine-failure diagnostic; otherwise the error slot is
    /// cleared.
    pub fn execute_commit(&mut self) -> (r: Option<FlatOutcome>)
        requires
            old(self).wf(),
        ensures
            final(self).wf(),
            final(self).pending == old(self).pending,
            old(self).pending.is_none() ==> r.is_none(),
            r matches Some(f) ==> flat_wf(f) && flat_discriminant_ok(f) && (f.created_address
                matches Some(ct) ==> is_addr_text(ct@)) && final(self).last_error.is_none(),
            r.is_none() ==> (final(self).last_error matches Some(BridgeError::EngineFailure(d))
                && d@.len() > 0) && engine_state_eq(final(self).engine, old(self).engine),
    {
        self.last_error = None;
        match &self.pending {
            None => {
                self.last_error = Some(BridgeError::EngineFailure(no_transaction_message()));
                None
            },
            Some(tx) => {
                match self.engine.transact_commit(Engine::tx_env_of(tx)) {
                    Ok(res) => {
                        let o = outcome_of(res);
                        Some(marshal_outcome(o))
                    },
                    Err(e) => {
                        self.last_error = Some(BridgeError::EngineFailure(e));
                        None
                    },
                }
            },
        }
    }

    /// Stage and commit a contract creation in one call.
    ///
    /// The creation carries zero value, a zero gas price, and the
    /// deployer's current nonce read from the database.  A malformed
    /// deployer text fails before any engine interaction.
    pub fn deploy(&mut self, deployer: &[u8], bytecode: &[u8], gas_limit: u64) -> (r: Option<
        DeploymentResult,
    >)
        requires
            old(self).wf(),
        ensures
            final(self).wf(),
            !is_addr_text(deployer@) ==> r.is_none() && (final(self).last_error matches Some(
                BridgeError::MalformedInput,
            )) && final(self).engine == old(self).engine && final(self).pending == old(self).pending,
            is_addr_text(deployer@) ==> (final(self).pending matches Some(t)
                && t.target.is_none() && t.caller@ == addr_of_text(deployer@) && t.data@
                == bytecode@ && t.gas_limit == gas_limit && be_val(t.value@) == 0 && be_val(
                t.gas_price@,
            ) == 0 && t.nonce as nat == engine_nonces(old(self).engine)[addr_of_text(deployer@)]
                && t.chain_id.is_none()),
            r matches Some(d) ==> (!d.success ==> d.contract_address.is_none() && d.gas_refunded
                == 0) && (d.contract_address matches Some(ct) ==> is_addr_text(ct@)),
            r.is_some() ==> final(self).last_error.is_none(),
            r.is_none() && is_addr_text(deployer@) ==> (final(self).last_error matches Some(
                BridgeError::EngineFailure(d),
            ) && d@.len() > 0) && engine_state_eq(final(self).engine, old(self).engine),
    {
        self.last_error = None;
        let deployer_bytes = match parse_address(deployer) {
            Ok(b) => b,
            Err(_) => {
                self.last_error = Some(BridgeError::MalformedInput);
                return None;
            },
        };
        let nonce = self.engine.nonce_of(&deployer_bytes);
        proof {
            lemma_pow_pos(256, 16);
        }
        let tx = StagedTx {
            caller: deployer_bytes,
            target: None,
            value: zero_word(),
            data: slice_to_vec(bytecode),
            gas_limit,
            gas_price: zero_word(),
            nonce,
            chain_id: None,
        };
        self.pending = Some(tx);
        match &self.pending {
            None => {
                self.last_error = Some(BridgeError::EngineFailure(no_transaction_message()));
                None
            },
            Some(tx) => {
                match self.engine.transact_commit(Engine::tx_env_of(tx)) {
                    Ok(res) => {
                        let o = outcome_of(res);
                        Some(marshal_deployment(&o))
                    },
                    Err(e) => {
                        self.last_error = Some(BridgeError::EngineFailure(e));
                        None
                    },
                }
            },
        }
    }

    /// Read an account balance as canonical decimal text.
    ///
    /// Bypasses execution entirely; the database is read directly and no
    /// view of it changes.
    pub fn get_balance(&mut self, address: &[u8]) -> (r: Option<Vec<u8>>)
        requires
            old(self).wf(),
        ensures
            final(self).wf(),
            final(self).pending == old(self).pending,
            engine_state_eq(final(self).engine, old(self).engine),
            r.is_some() <==> is_addr_text(address@),
            r matches Some(t) ==> t@ == dec_text(
                engine_balances(old(self).engine)[addr_of_text(address@)],
            ) && final(self).last_error.is_none(),
            r.is_none() ==> final(self).last_error matches Some(BridgeError::MalformedInput),
    {
        self.last_error = None;
        let addr = match parse_address(address) {
            Ok(b) => b,
            Err(_) => {
                self.last_error = Some(BridgeError::MalformedInput);
                return None;
            },
        };
        let word = self.engine.balance_of(&addr);
        Some(format_u256(&word))
    }

    /// Set an account balance directly, from a value text.
    ///
    /// Takes effect immediately, without any notion of gas or transaction
    /// semantics; nonces and storage are untouched.
    pub fn set_balance(&mut self, address: &[u8], value: &[u8]) -> (r: i32)
        requires
            old(self).wf(),
        ensures
            final(self).wf(),
            final(self).pending == old(self).pending,
            r == 0 || r == -1,
            r == 0 <==> is_addr_text(address@) && is_value_text(value@),
            r == 0 ==> engine_balances(final(self).engine) == engine_balances(
                old(self).engine,
            ).insert(addr_of_text(address@), value_of_text(value@)) && engine_nonces(
                final(self).engine,
            ) == engine_nonces(old(self).engine) && engine_storage(final(self).engine)
                == engine_storage(old(self).engine) && final(self).last_error.is_none(),
            r != 0 ==> final(self).engine == old(self).engine && (final(self).last_error matches
                Some(BridgeError::MalformedInput)),
    {
        self.last_error = None;
        let addr = match parse_address(address) {
            Ok(b) => b,
            Err(_) => {
                self.last_error = Some(BridgeError::MalformedInput);
                return -1;
            },
        };
        let word = match parse_value(value) {
            Ok(w) => w,
            Err(_) => {
                self.last_error = Some(BridgeError::MalformedInput);
                return -1;
            },
        };
        self.engine.set_balance_raw(&addr, &word);
        0
    }

    /// Read a storage slot as canonical decimal text.
    pub fn get_storage(&mut self, address: &[u8], slot: &[u8]) -> (r: Option<Vec<u8>>)
        requires
            old(self).wf(),
        ensures
            final(self).wf(),
            final(self).pending == old(self).pending,
            engine_state_eq(final(self).engine, old(self).engine),
            r.is_some() <==> is_addr_text(address@) && is_value_text(slot@),
            r matches Some(t) ==> t@ == dec_text(
                engine_storage(old(self).engine)[(addr_of_text(address@), value_of_text(slot@))],
            ) && final(self).last_error.is_none(),
            r.is_none() ==> final(self).last_error matches Some(BridgeError::MalformedInput),
    {
        self.last_error = None;
        let addr = match parse_address(address) {
            Ok(b) => b,
            Err(_) => {
                self.last_error = Some(BridgeError::MalformedInput);
                return None;
            },
        };
        let slot_word = match parse_value(slot) {
            Ok(w) => w,
            Err(_) => {
                self.last_error = Some(BridgeError::MalformedInput);
                return None;
            },
        };
        let word = self.engine.storage_at(&addr, &slot_word);
        Some(format_u256(&word))
    }

    /// Write a storage slot directly, from value texts.
    pub fn set_storage(&mut self, address: &[u8], slot: &[u8], value: &[u8]) -> (r: i32)
        requires
            old(self).wf(),
        ensures
            final(self).wf(),
            final(self).pending == old(self).pending,
            r == 0 || r == -1,
            r == 0 <==> is_addr_text(address@) && is_value_text(slot@) && is_value_text(value@),
            r == 0 ==> engine_storage(final(self).engine) == engine_storage(
                old(self).engine,
            ).insert(
                (addr_of_text(address@), value_of_text(slot@)),
                value_of_text(value@),
            ) && engine_balances(final(self).engine) == engine_balances(old(self).engine)
                && engine_nonces(final(self).engine) == engine_nonces(old(self).engine) && final(self).last_error.is_none(),
            r != 0 ==> final(self).engine == old(self).engine && (final(self).last_error matches
                Some(BridgeError::MalformedInput)),
    {
        self.last_error = None;
        let addr = match parse_address(address) {
            Ok(b) => b,
            Err(_) => {
                self.last_error = Some(BridgeError::MalformedInput);
                return -1;
            },
        };
        let slot_word = match parse_value(slot) {
            Ok(w) => w,
            Err(_) => {
                self.last_error = Some(BridgeError::MalformedInput);
                return -1;
            },
        };
        let value_word = match parse_value(value) {
            Ok(w) => w,
            Err(_) => {
                self.last_error = Some(BridgeError::MalformedInput);
                return -1;
            },
        };
        self.engine.set_storage_raw(&addr, &slot_word, &value_word);
        0
    }

    /// The most recent error recorded on this instance, as text, or `None`
    /// when the last operation succeeded.  Reading it changes nothing.
    pub fn get_last_error(&self) -> (r: Option<Vec<u8>>)
        requires
            self.wf(),
        ensures
            r.is_some() <==> self.last_error.is_some(),
            r matches Some(t) ==> t@.len() > 0,
            self.last_error matches Some(BridgeError::EngineFailure(d)) ==> (r matches Some(t)
                && t@ == d@),
    {
        match &self.last_error {
            None => None,
            Some(BridgeError::MalformedInput) => Some(malformed_message()),
            Some(BridgeError::EngineFailure(d)) => {
                let t = d.clone();
                assert(t@ =~= d@);
                Some(t)
            },
        }
    }
}

/// The diagnostic recorded for malformed text parameters.
fn malformed_message() -> (r: Vec<u8>)
    ensures
        r@.len() > 0,
{
    // "malformed input"
    let r: Vec<u8> = vec![109, 97, 108, 102, 111, 114, 109, 101, 100, 32, 105, 110, 112, 117, 116];
    r
}

/// The diagnostic recorded when dispatch finds nothing staged.
fn no_transaction_message() -> (r: Vec<u8>)
    ensures
        r@.len() > 0,
{
    // "no transaction staged"
    let r: Vec<u8> = vec![
        110,
        111,
        32,
        116,
        114,
        97,
        110,
        115,
        97,
        99,
        116,
        105,
        111,
        110,
        32,
        115,
        116,
        97,
        103,
        101,
        100,
    ];
    r
}

} // verus!
