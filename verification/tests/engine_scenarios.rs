use revm_bridge::instance::RevmInstance;

const DEPLOYER: &[u8] = b"0x742d35cc6634c0532925a3b8d4c9db96c4b4d8b6";
const ALICE: &[u8] = b"0x8ba1f109551bD432803012645aac136c12345678";
const BOB: &[u8] = b"0x1234567890123456789012345678901234567890";

/// Creation code whose deployed runtime is a single STOP instruction.
fn stop_initcode() -> Vec<u8> {
    vec![0x60, 0x01, 0x60, 0x0c, 0x60, 0x00, 0x39, 0x60, 0x01, 0x60, 0x00, 0xf3, 0x00]
}

/// Creation code whose deployed runtime loops forever (JUMPDEST; PUSH1 0; JUMP).
fn spin_initcode() -> Vec<u8> {
    vec![
        0x60, 0x04, 0x60, 0x0c, 0x60, 0x00, 0x39, 0x60, 0x04, 0x60, 0x00, 0xf3, 0x5b, 0x60, 0x00,
        0x56,
    ]
}

/// Creation code whose deployed runtime emits one empty LOG0 and stops.
fn log0_initcode() -> Vec<u8> {
    vec![
        0x60, 0x06, 0x60, 0x0c, 0x60, 0x00, 0x39, 0x60, 0x06, 0x60, 0x00, 0xf3, 0x60, 0x00, 0x60,
        0x00, 0xa0, 0x00,
    ]
}

fn dec(text: &[u8]) -> u128 {
    std::str::from_utf8(text).unwrap().parse().unwrap()
}

#[test]
fn scenario_commit_deployment_returns_runtime_and_address() {
    let mut inst = RevmInstance::create();
    assert_eq!(inst.set_balance(DEPLOYER, b"100"), 0);
    assert_eq!(
        inst.stage(DEPLOYER, None, b"0", &stop_initcode(), 1_000_000, b"0", 0, None),
        0
    );
    let f = inst.execute_commit().expect("deployment outcome");
    assert_eq!(f.success, 1);
    let addr = f.created_address.expect("created address");
    assert_eq!(addr.len(), 42);
    assert!(addr.starts_with(b"0x"));
    // the output buffer holds the runtime portion of the creation code
    assert_eq!(f.output, Some(vec![0x00]));
    assert_eq!(f.output_len, 1);
    assert!(inst.get_last_error().is_none());
}

#[test]
fn scenario_out_of_gas_halts_without_boundary_error() {
    let mut inst = RevmInstance::create();
    let d = inst.deploy(DEPLOYER, &spin_initcode(), 1_000_000).expect("deployment");
    assert!(d.success);
    let target = d.contract_address.expect("address");
    assert_eq!(
        inst.stage(ALICE, Some(&target), b"0", &[], 50_000, b"0", 0, None),
        0
    );
    let f = inst.execute_commit().expect("halt is still an outcome");
    assert_eq!(f.success, -1);
    assert!(f.output.is_none());
    assert_eq!(f.output_len, 0);
    assert!(f.logs.is_none());
    assert!(f.created_address.is_none());
    // a halt is not a boundary error
    assert!(inst.get_last_error().is_none());
}

#[test]
fn scenario_insufficient_balance_is_engine_failure_without_mutation() {
    let mut inst = RevmInstance::create();
    assert_eq!(inst.set_balance(ALICE, b"0"), 0);
    assert_eq!(inst.stage(ALICE, Some(BOB), b"5", &[], 21_000, b"0", 0, None), 0);
    let r = inst.execute_commit();
    assert!(r.is_none());
    let err = inst.get_last_error().expect("engine failure recorded");
    assert!(!err.is_empty());
    // no state mutation occurred
    assert_eq!(inst.get_balance(ALICE).unwrap(), b"0".to_vec());
    assert_eq!(inst.get_balance(BOB).unwrap(), b"0".to_vec());
}

#[test]
fn scenario_dry_run_matches_commit_payload() {
    let mut inst = RevmInstance::create();
    assert_eq!(inst.set_balance(ALICE, b"1000000"), 0);
    assert_eq!(inst.stage(ALICE, Some(BOB), b"7", &[], 21_000, b"0", 0, None), 0);
    let dry = inst.execute_dry().expect("dry outcome");
    // the dry run persisted nothing
    assert_eq!(inst.get_balance(BOB).unwrap(), b"0".to_vec());
    assert_eq!(inst.get_balance(ALICE).unwrap(), b"1000000".to_vec());
    assert_eq!(inst.stage(ALICE, Some(BOB), b"7", &[], 21_000, b"0", 0, None), 0);
    let com = inst.execute_commit().expect("committed outcome");
    // structurally identical payloads
    assert_eq!(dry.success, com.success);
    assert_eq!(dry.gas_used, com.gas_used);
    assert_eq!(dry.gas_refunded, com.gas_refunded);
    assert_eq!(dry.output, com.output);
    assert_eq!(dry.output_len, com.output_len);
    assert_eq!(dry.logs_count, com.logs_count);
    assert_eq!(dry.created_address, com.created_address);
    // only persisted state differs
    assert_eq!(inst.get_balance(BOB).unwrap(), b"7".to_vec());
    assert_eq!(inst.get_balance(ALICE).unwrap(), b"999993".to_vec());
}

#[test]
fn scenario_thousand_alternating_transfers_conserve_value() {
    let mut inst = RevmInstance::create();
    assert_eq!(inst.set_balance(ALICE, b"1000000000"), 0);
    let d1 = inst.deploy(DEPLOYER, &stop_initcode(), 1_000_000).expect("first deployment");
    let d2 = inst.deploy(DEPLOYER, &stop_initcode(), 1_000_000).expect("second deployment");
    assert!(d1.success && d2.success);
    let t1 = d1.contract_address.expect("first address");
    let t2 = d2.contract_address.expect("second address");
    assert_ne!(t1, t2);
    for i in 0..1000u64 {
        let target = if i % 2 == 0 { &t1 } else { &t2 };
        assert_eq!(
            inst.stage(ALICE, Some(target), b"1", &[], 100_000, b"0", i, None),
            0
        );
        let f = inst.execute_commit().expect("transfer outcome");
        assert_eq!(f.success, 1);
    }
    let b1 = dec(&inst.get_balance(&t1).unwrap());
    let b2 = dec(&inst.get_balance(&t2).unwrap());
    assert_eq!(b1 + b2, 1000);
    assert_eq!(b1, 500);
    assert_eq!(b2, 500);
}

#[test]
fn scenario_emitted_log_is_marshalled_with_agreeing_counts() {
    let mut inst = RevmInstance::create();
    let d = inst.deploy(DEPLOYER, &log0_initcode(), 1_000_000).expect("deployment");
    assert!(d.success);
    let target = d.contract_address.expect("address");
    assert_eq!(
        inst.stage(ALICE, Some(&target), b"0", &[], 100_000, b"0", 0, None),
        0
    );
    let f = inst.execute_commit().expect("call outcome");
    assert_eq!(f.success, 1);
    assert_eq!(f.logs_count, 1);
    let logs = f.logs.expect("log array present");
    assert_eq!(logs.len(), 1);
    assert_eq!(logs[0].address_text, target);
    // zero topics and empty data mean absent buffers, not empty allocations
    assert_eq!(logs[0].topics_count, 0);
    assert!(logs[0].topics.is_none());
    assert!(logs[0].data.is_none());
    assert_eq!(logs[0].data_len, 0);
}

#[test]
fn balance_accessor_round_trips_through_the_database() {
    let mut inst = RevmInstance::create();
    let big = b"123456789012345678901234567890";
    assert_eq!(inst.set_balance(ALICE, big), 0);
    assert_eq!(inst.get_balance(ALICE).unwrap(), big.to_vec());
    // an address never touched reads as zero
    assert_eq!(inst.get_balance(BOB).unwrap(), b"0".to_vec());
}

#[test]
fn storage_accessor_round_trips_and_hex_slots_alias_decimal() {
    let mut inst = RevmInstance::create();
    assert_eq!(inst.set_storage(ALICE, b"1", b"42"), 0);
    assert_eq!(inst.get_storage(ALICE, b"1").unwrap(), b"42".to_vec());
    // the same slot named in hexadecimal
    assert_eq!(inst.get_storage(ALICE, b"0x1").unwrap(), b"42".to_vec());
    // untouched slot and untouched account read as zero
    assert_eq!(inst.get_storage(ALICE, b"2").unwrap(), b"0".to_vec());
    assert_eq!(inst.get_storage(BOB, b"1").unwrap(), b"0".to_vec());
    // overwrite
    assert_eq!(inst.set_storage(ALICE, b"1", b"7"), 0);
    assert_eq!(inst.get_storage(ALICE, b"1").unwrap(), b"7".to_vec());
}

#[test]
fn staging_errors_leave_pending_intact_and_set_last_error() {
    let mut inst = RevmInstance::create();
    assert_eq!(inst.set_balance(ALICE, b"1000000"), 0);
    assert_eq!(inst.stage(ALICE, Some(BOB), b"1", &[], 21_000, b"0", 0, None), 0);
    // malformed caller
    assert_eq!(inst.stage(b"0x12", Some(BOB), b"1", &[], 21_000, b"0", 0, None), -1);
    assert!(!inst.get_last_error().unwrap().is_empty());
    // malformed value
    assert_eq!(inst.stage(ALICE, Some(BOB), b"12x", &[], 21_000, b"0", 0, None), -1);
    // gas price beyond 128 bits
    let huge = b"115792089237316195423570985008687907853269984665640564039457584007913129639935";
    assert_eq!(inst.stage(ALICE, Some(BOB), b"1", &[], 21_000, huge, 0, None), -1);
    // the previously staged transaction is still the pending one: it commits
    let f = inst.execute_commit().expect("earlier staged transfer still runs");
    assert_eq!(f.success, 1);
    assert_eq!(inst.get_balance(BOB).unwrap(), b"1".to_vec());
}

#[test]
fn dispatch_without_staging_reports_engine_failure() {
    let mut inst = RevmInstance::create();
    assert!(inst.execute_commit().is_none());
    assert!(!inst.get_last_error().unwrap().is_empty());
    assert!(inst.execute_dry().is_none());
    assert!(!inst.get_last_error().unwrap().is_empty());
}

#[test]
fn accessor_errors_record_malformed_input() {
    let mut inst = RevmInstance::create();
    assert!(inst.get_balance(b"nonsense").is_none());
    assert!(!inst.get_last_error().unwrap().is_empty());
    assert!(inst.get_storage(ALICE, b"five").is_none());
    assert_eq!(inst.set_balance(b"0x00", b"1"), -1);
    assert_eq!(inst.set_storage(ALICE, b"1", b"ten"), -1);
    // a successful operation clears the sticky error
    assert_eq!(inst.set_balance(ALICE, b"1"), 0);
    assert!(inst.get_last_error().is_none());
}

#[test]
fn hex_and_decimal_value_texts_agree_in_state_accessors() {
    let mut inst = RevmInstance::create();
    assert_eq!(inst.set_balance(ALICE, b"0xff"), 0);
    assert_eq!(inst.get_balance(ALICE).unwrap(), b"255".to_vec());
}

#[test]
fn deploy_rejects_malformed_deployer_before_any_engine_work() {
    let mut inst = RevmInstance::create();
    assert!(inst.deploy(b"0xnot-an-address", &stop_initcode(), 1_000_000).is_none());
    assert!(!inst.get_last_error().unwrap().is_empty());
    assert_eq!(inst.get_balance(DEPLOYER).unwrap(), b"0".to_vec());
}

#[test]
fn deployment_address_text_is_accepted_by_the_codec() {
    let mut inst = RevmInstance::create();
    let d = inst.deploy(DEPLOYER, &stop_initcode(), 1_000_000).expect("deployment");
    assert!(d.success);
    let addr_text = d.contract_address.expect("address");
    let bytes = revm_bridge::codec::parse_address(&addr_text).expect("codec-valid text");
    assert_eq!(revm_bridge::codec::format_address(&bytes), addr_text);
}
