use vm_device_manager::error::DeviceError;
use vm_device_manager::vsock::{cid_decision, CidSearch, SetCidOutcome, MAX_CID_ATTEMPTS, MIN_GUEST_CID};

#[test]
fn cid_search_gives_up_after_its_attempts() {
    let mut search = CidSearch::new();
    for _ in 0..MAX_CID_ATTEMPTS {
        let cid = search.next_candidate().unwrap();
        assert!(cid >= MIN_GUEST_CID);
        assert_eq!(cid_decision(cid, SetCidOutcome::InUse), Ok(None));
    }
    assert_eq!(search.next_candidate(), Err(DeviceError::NoFreeCid));
}

#[test]
fn cid_search_outcomes() {
    assert_eq!(cid_decision(42, SetCidOutcome::Accepted), Ok(Some(42)));
    assert_eq!(
        cid_decision(42, SetCidOutcome::Failed("EPERM".to_string())),
        Err(DeviceError::CidRejected("EPERM".to_string()))
    );
}
