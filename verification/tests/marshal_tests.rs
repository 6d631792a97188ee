use revm_bridge::outcome::{
    marshal_deployment, marshal_log, marshal_outcome, EngineOutcome, LogRecord, OutcomeOutput,
};

fn sample_log(topics: usize, data: Vec<u8>) -> LogRecord {
    LogRecord {
        address: vec![0xabu8; 20],
        topics: (0..topics).map(|i| vec![i as u8; 32]).collect(),
        data,
    }
}

#[test]
fn success_call_outcome_takes_positive_marker() {
    let o = EngineOutcome::Success {
        gas_used: 21000,
        gas_refunded: 7,
        logs: vec![],
        output: OutcomeOutput::Call { data: vec![1, 2, 3] },
    };
    let f = marshal_outcome(o);
    assert_eq!(f.success, 1);
    assert_eq!(f.gas_used, 21000);
    assert_eq!(f.gas_refunded, 7);
    assert_eq!(f.output, Some(vec![1, 2, 3]));
    assert_eq!(f.output_len, 3);
    assert!(f.logs.is_none());
    assert_eq!(f.logs_count, 0);
    assert!(f.created_address.is_none());
}

#[test]
fn success_create_outcome_formats_created_address() {
    let o = EngineOutcome::Success {
        gas_used: 53000,
        gas_refunded: 0,
        logs: vec![],
        output: OutcomeOutput::Create { code: vec![0u8], address: Some(vec![0x11u8; 20]) },
    };
    let f = marshal_outcome(o);
    assert_eq!(f.success, 1);
    assert_eq!(f.output, Some(vec![0u8]));
    assert_eq!(
        f.created_address,
        Some(b"0x1111111111111111111111111111111111111111".to_vec())
    );
}

#[test]
fn success_create_without_address_keeps_empty_sentinel() {
    let o = EngineOutcome::Success {
        gas_used: 1,
        gas_refunded: 0,
        logs: vec![],
        output: OutcomeOutput::Create { code: vec![], address: None },
    };
    let f = marshal_outcome(o);
    assert_eq!(f.success, 1);
    assert!(f.output.is_none());
    assert_eq!(f.output_len, 0);
    assert!(f.created_address.is_none());
}

#[test]
fn revert_outcome_takes_zero_marker_and_drops_success_fields() {
    let o = EngineOutcome::Revert {
        gas_used: 900,
        logs: vec![sample_log(1, vec![5])],
        output: vec![0xde, 0xad],
    };
    let f = marshal_outcome(o);
    assert_eq!(f.success, 0);
    assert_eq!(f.gas_used, 900);
    assert_eq!(f.gas_refunded, 0);
    assert_eq!(f.output, Some(vec![0xde, 0xad]));
    assert_eq!(f.output_len, 2);
    assert!(f.logs.is_none());
    assert_eq!(f.logs_count, 0);
    assert!(f.created_address.is_none());
}

#[test]
fn halt_outcome_takes_negative_marker_and_empty_payloads() {
    let o = EngineOutcome::Halt {
        reason: b"OutOfGas".to_vec(),
        gas_used: 30000,
        logs: vec![],
    };
    let f = marshal_outcome(o);
    assert_eq!(f.success, -1);
    assert_eq!(f.gas_used, 30000);
    assert_eq!(f.gas_refunded, 0);
    assert!(f.output.is_none());
    assert_eq!(f.output_len, 0);
    assert!(f.logs.is_none());
    assert!(f.created_address.is_none());
}

#[test]
fn marshalled_logs_keep_order_and_counts() {
    let o = EngineOutcome::Success {
        gas_used: 1,
        gas_refunded: 0,
        logs: vec![sample_log(2, vec![9, 9]), sample_log(0, vec![])],
        output: OutcomeOutput::Call { data: vec![] },
    };
    let f = marshal_outcome(o);
    assert_eq!(f.logs_count, 2);
    let logs = f.logs.unwrap();
    assert_eq!(logs.len(), 2);
    assert_eq!(logs[0].topics_count, 2);
    let topics = logs[0].topics.as_ref().unwrap();
    assert_eq!(topics.len(), 2);
    assert_eq!(topics[0], format!("0x{}", "00".repeat(32)).into_bytes());
    assert_eq!(logs[0].data, Some(vec![9, 9]));
    assert_eq!(logs[0].data_len, 2);
    // zero counts mean absent buffers, never empty allocations
    assert_eq!(logs[1].topics_count, 0);
    assert!(logs[1].topics.is_none());
    assert!(logs[1].data.is_none());
    assert_eq!(logs[1].data_len, 0);
}

#[test]
fn marshal_log_formats_address_text() {
    let f = marshal_log(sample_log(0, vec![]));
    assert_eq!(f.address_text, format!("0x{}", "ab".repeat(20)).into_bytes());
}

#[test]
fn deployment_marshalling_per_variant() {
    let ok = EngineOutcome::Success {
        gas_used: 5,
        gas_refunded: 2,
        logs: vec![],
        output: OutcomeOutput::Create { code: vec![1], address: Some(vec![0x22u8; 20]) },
    };
    let d = marshal_deployment(&ok);
    assert!(d.success);
    assert_eq!(d.gas_used, 5);
    assert_eq!(d.gas_refunded, 2);
    assert_eq!(
        d.contract_address,
        Some(b"0x2222222222222222222222222222222222222222".to_vec())
    );

    let halted = EngineOutcome::Halt { reason: vec![], gas_used: 3, logs: vec![] };
    let d2 = marshal_deployment(&halted);
    assert!(!d2.success);
    assert_eq!(d2.gas_used, 3);
    assert_eq!(d2.gas_refunded, 0);
    assert!(d2.contract_address.is_none());

    let reverted = EngineOutcome::Revert { gas_used: 4, logs: vec![], output: vec![7] };
    let d3 = marshal_deployment(&reverted);
    assert!(!d3.success);
    assert!(d3.contract_address.is_none());
}
