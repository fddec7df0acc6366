use compute_market::attestation::PhalaJobProcessor;
use compute_market::principal::Principal;

fn alice() -> Principal {
    Principal::from_bytes([0x1; 20])
}

#[test]
fn processor_test_new() {
    let contract = PhalaJobProcessor::new(alice());
    assert_eq!(contract.get_job_counter(), 0);
}

#[test]
fn test_submit_confidential_job() {
    let mut contract = PhalaJobProcessor::new(alice());

    let job_id = contract.submit_confidential_job(
        alice(),
        0,
        "encrypted_data_123".to_string(),
        "public_key_abc".to_string(),
    );

    assert_eq!(job_id, 1);
    assert_eq!(contract.get_job_counter(), 1);

    let job = contract.get_job(job_id).unwrap();
    assert_eq!(job.job_id, 1);
    assert_eq!(job.processed, false);
    assert_eq!(job.encrypted_payload, "encrypted_data_123");
    assert_eq!(job.public_key, "public_key_abc");
}

#[test]
fn test_submit_job_with_empty_payload() {
    let mut contract = PhalaJobProcessor::new(alice());

    // an empty payload is accepted (the caller encrypts)
    let job_id = contract.submit_confidential_job(alice(), 0, "".to_string(), "public_key".to_string());

    assert_eq!(job_id, 1);
    let job = contract.get_job(job_id).unwrap();
    assert_eq!(job.encrypted_payload, "");
}

#[test]
fn test_submit_job_with_large_payload() {
    let mut contract = PhalaJobProcessor::new(alice());

    let large_payload = "x".repeat(10000);
    let job_id = contract.submit_confidential_job(
        alice(),
        0,
        large_payload.clone(),
        "public_key".to_string(),
    );

    assert_eq!(job_id, 1);
    let job = contract.get_job(job_id).unwrap();
    assert_eq!(job.encrypted_payload, large_payload);
}

#[test]
fn test_submit_multiple_jobs_sequential() {
    let mut contract = PhalaJobProcessor::new(alice());

    for i in 1..=100 {
        let job_id = contract.submit_confidential_job(
            alice(),
            0,
            format!("encrypted_data_{}", i),
            format!("public_key_{}", i),
        );

        assert_eq!(job_id, i);
        assert_eq!(contract.get_job_counter(), i);
    }
}

#[test]
fn test_job_id_increment() {
    let mut contract = PhalaJobProcessor::new(alice());

    let id1 = contract.submit_confidential_job(alice(), 0, "data1".to_string(), "key1".to_string());
    let id2 = contract.submit_confidential_job(alice(), 0, "data2".to_string(), "key2".to_string());
    let id3 = contract.submit_confidential_job(alice(), 0, "data3".to_string(), "key3".to_string());

    assert_eq!(id1, 1);
    assert_eq!(id2, 2);
    assert_eq!(id3, 3);
}

#[test]
fn test_record_attestation() {
    let mut contract = PhalaJobProcessor::new(alice());

    let job_id = contract.submit_confidential_job(alice(), 0, "encrypted_data".to_string(), "public_key".to_string());

    let result = contract.record_attestation(
        job_id,
        0,
        "result_hash_123".to_string(),
        "attestation_proof_456".to_string(),
        "worker_pubkey_789".to_string(),
    );

    assert!(result);

    let attestation = contract.get_attestation(job_id).unwrap();
    assert_eq!(attestation.job_id, job_id);
    assert_eq!(attestation.result_hash, "result_hash_123");
    assert_eq!(attestation.attestation_proof, "attestation_proof_456");
    assert_eq!(attestation.tee_worker_pubkey, "worker_pubkey_789");
}

#[test]
fn test_record_attestation_nonexistent_job() {
    let mut contract = PhalaJobProcessor::new(alice());

    let result = contract.record_attestation(
        999,
        0,
        "result".to_string(),
        "proof".to_string(),
        "worker".to_string(),
    );

    assert!(!result);
}

#[test]
fn test_record_attestation_with_different_workers() {
    let mut contract = PhalaJobProcessor::new(alice());

    let job_id = contract.submit_confidential_job(alice(), 0, "data".to_string(), "key".to_string());

    let result1 = contract.record_attestation(
        job_id,
        0,
        "hash1".to_string(),
        "proof1".to_string(),
        "worker_pubkey_1".to_string(),
    );
    assert!(result1);

    // a second recording overwrites the first
    let result2 = contract.record_attestation(
        job_id,
        0,
        "hash2".to_string(),
        "proof2".to_string(),
        "worker_pubkey_2".to_string(),
    );
    assert!(result2);

    let attestation = contract.get_attestation(job_id).unwrap();
    assert_eq!(attestation.result_hash, "hash2");
    assert_eq!(attestation.tee_worker_pubkey, "worker_pubkey_2");
}

#[test]
fn test_attestation_has_timestamp() {
    let mut contract = PhalaJobProcessor::new(alice());

    let job_id = contract.submit_confidential_job(alice(), 0, "data".to_string(), "key".to_string());
    contract.record_attestation(job_id, 0, "hash".to_string(), "proof".to_string(), "worker".to_string());

    let attestation = contract.get_attestation(job_id).unwrap();
    // the timestamp is supplied by the runtime (may be 0 here)
    assert!(attestation.timestamp == 0);
    assert_eq!(attestation.job_id, job_id);
}

#[test]
fn test_record_multiple_attestations() {
    let mut contract = PhalaJobProcessor::new(alice());

    let job_ids: Vec<u128> = (0..10)
        .map(|i| {
            contract.submit_confidential_job(alice(), 0, format!("data_{}", i), format!("key_{}", i))
        })
        .collect();

    for (idx, job_id) in job_ids.iter().enumerate() {
        let result = contract.record_attestation(
            *job_id,
            0,
            format!("hash_{}", idx),
            format!("proof_{}", idx),
            format!("worker_{}", idx),
        );
        assert!(result);
    }

    for (idx, job_id) in job_ids.iter().enumerate() {
        let att = contract.get_attestation(*job_id).unwrap();
        assert_eq!(att.result_hash, format!("hash_{}", idx));
        assert_eq!(att.attestation_proof, format!("proof_{}", idx));
    }
}

#[test]
fn test_verify_attestation() {
    let mut contract = PhalaJobProcessor::new(alice());

    let job_id = contract.submit_confidential_job(alice(), 0, "data".to_string(), "key".to_string());

    assert!(!contract.verify_attestation(job_id));

    contract.record_attestation(job_id, 0, "hash".to_string(), "proof".to_string(), "worker".to_string());

    assert!(contract.verify_attestation(job_id));
}

#[test]
fn test_verify_attestation_nonexistent() {
    let contract = PhalaJobProcessor::new(alice());
    assert!(!contract.verify_attestation(999));
}

#[test]
fn test_mark_job_processed() {
    let mut contract = PhalaJobProcessor::new(alice());

    let job_id = contract.submit_confidential_job(alice(), 0, "data".to_string(), "key".to_string());

    // cannot process without an attestation
    assert!(!contract.mark_job_processed(job_id));

    contract.record_attestation(job_id, 0, "hash".to_string(), "proof".to_string(), "worker".to_string());

    assert!(contract.mark_job_processed(job_id));

    let job = contract.get_job(job_id).unwrap();
    assert!(job.processed);
}

#[test]
fn test_mark_nonexistent_job_processed() {
    let mut contract = PhalaJobProcessor::new(alice());

    let result = contract.mark_job_processed(999);
    assert!(!result);
}

#[test]
fn test_mark_job_processed_without_attestation() {
    let mut contract = PhalaJobProcessor::new(alice());

    let job_id = contract.submit_confidential_job(alice(), 0, "data".to_string(), "key".to_string());

    assert!(!contract.mark_job_processed(job_id));

    let job = contract.get_job(job_id).unwrap();
    assert!(!job.processed);
}

#[test]
fn test_mark_already_processed_job() {
    let mut contract = PhalaJobProcessor::new(alice());

    let job_id = contract.submit_confidential_job(alice(), 0, "data".to_string(), "key".to_string());

    contract.record_attestation(job_id, 0, "hash".to_string(), "proof".to_string(), "worker".to_string());

    assert!(contract.mark_job_processed(job_id));

    // marking again succeeds
    assert!(contract.mark_job_processed(job_id));

    let job = contract.get_job(job_id).unwrap();
    assert!(job.processed);
}

#[test]
fn test_complete_job_lifecycle() {
    let mut contract = PhalaJobProcessor::new(alice());

    let job_id = contract.submit_confidential_job(alice(), 0, "data".to_string(), "key".to_string());
    let job = contract.get_job(job_id).unwrap();
    assert_eq!(job.processed, false);

    let att_result = contract.record_attestation(
        job_id,
        0,
        "hash".to_string(),
        "proof".to_string(),
        "worker".to_string(),
    );
    assert!(att_result);
    assert!(contract.verify_attestation(job_id));

    let process_result = contract.mark_job_processed(job_id);
    assert!(process_result);
    let job = contract.get_job(job_id).unwrap();
    assert!(job.processed);
}

#[test]
fn test_concurrent_job_lifecycles() {
    let mut contract = PhalaJobProcessor::new(alice());

    let job_ids: Vec<u128> = (0..5)
        .map(|i| {
            contract.submit_confidential_job(alice(), 0, format!("data_{}", i), format!("key_{}", i))
        })
        .collect();

    for (idx, job_id) in job_ids.iter().enumerate() {
        contract.record_attestation(
            *job_id,
            0,
            format!("hash_{}", idx),
            format!("proof_{}", idx),
            format!("worker_{}", idx),
        );

        // only every second job is processed
        if idx % 2 == 0 {
            assert!(contract.mark_job_processed(*job_id));
        }
    }

    for (idx, job_id) in job_ids.iter().enumerate() {
        let job = contract.get_job(*job_id).unwrap();
        if idx % 2 == 0 {
            assert!(job.processed);
        } else {
            assert!(!job.processed);
        }
    }
}

#[test]
fn test_get_nonexistent_job() {
    let contract = PhalaJobProcessor::new(alice());
    let result = contract.get_job(999);
    assert!(result.is_none());
}

#[test]
fn test_get_nonexistent_attestation() {
    let contract = PhalaJobProcessor::new(alice());
    let result = contract.get_attestation(999);
    assert!(result.is_none());
}

#[test]
fn test_multiple_jobs() {
    let mut contract = PhalaJobProcessor::new(alice());

    let job_id_1 = contract.submit_confidential_job(alice(), 0, "data1".to_string(), "key1".to_string());
    let job_id_2 = contract.submit_confidential_job(alice(), 0, "data2".to_string(), "key2".to_string());

    assert_eq!(job_id_1, 1);
    assert_eq!(job_id_2, 2);
    assert_eq!(contract.get_job_counter(), 2);

    let job_1 = contract.get_job(job_id_1).unwrap();
    let job_2 = contract.get_job(job_id_2).unwrap();

    assert_eq!(job_1.job_id, 1);
    assert_eq!(job_2.job_id, 2);
    assert_eq!(job_1.owner, job_2.owner);
}

#[test]
fn test_job_counter_consistency() {
    let mut contract = PhalaJobProcessor::new(alice());

    for i in 1..=50 {
        contract.submit_confidential_job(alice(), 0, format!("data_{}", i), format!("key_{}", i));
        assert_eq!(contract.get_job_counter(), i);
    }
}

#[test]
fn test_job_ownership_tracking() {
    let mut contract = PhalaJobProcessor::new(alice());

    let job_id_1 = contract.submit_confidential_job(alice(), 0, "data1".to_string(), "key1".to_string());
    let job_1 = contract.get_job(job_id_1).unwrap();

    assert_ne!(job_1.owner, Principal::from_bytes([0u8; 20]));
}

#[test]
fn test_job_timestamps() {
    let mut contract = PhalaJobProcessor::new(alice());

    let job_id = contract.submit_confidential_job(alice(), 0, "data".to_string(), "key".to_string());
    let job = contract.get_job(job_id).unwrap();

    // the timestamp is supplied by the runtime (0 here)
    assert!(job.created_at == 0);
    assert_eq!(job.job_id, job_id);
}

#[test]
fn test_stress_many_jobs() {
    let mut contract = PhalaJobProcessor::new(alice());

    for i in 1..=1000 {
        let job_id = contract.submit_confidential_job(
            alice(),
            0,
            format!("encrypted_data_{}", i),
            format!("public_key_{}", i),
        );

        assert_eq!(job_id, i);

        // every tenth job is attested and processed
        if i % 10 == 0 {
            contract.record_attestation(
                job_id,
                0,
                format!("hash_{}", i),
                format!("proof_{}", i),
                format!("worker_{}", i),
            );

            contract.mark_job_processed(job_id);

            let job = contract.get_job(job_id).unwrap();
            assert!(job.processed);
        }
    }

    assert_eq!(contract.get_job_counter(), 1000);
}

#[test]
fn test_security_no_data_leakage() {
    let mut contract = PhalaJobProcessor::new(alice());

    let job_id_1 = contract.submit_confidential_job(alice(), 0, "secret_data_1".to_string(), "public_key_1".to_string());
    let job_id_2 = contract.submit_confidential_job(alice(), 0, "secret_data_2".to_string(), "public_key_2".to_string());

    let job_1 = contract.get_job(job_id_1).unwrap();
    let job_2 = contract.get_job(job_id_2).unwrap();

    assert_eq!(job_1.encrypted_payload, "secret_data_1");
    assert_eq!(job_2.encrypted_payload, "secret_data_2");
    assert_ne!(job_1.encrypted_payload, job_2.encrypted_payload);
}
