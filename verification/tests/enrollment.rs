use oma_id::agent::DeviceIdentity;
use oma_id::enrollment::{
    enrollment_record, enrollment_requests_url, enrollment_step, hardware_identity_from, read_trimmed,
    status_poll_message_bytes, status_poll_url, EnrollError, EnrollStep,
};

#[test]
fn hardware_identity_falls_back_cleanly_without_dmi() {
    // No DMI files (a container or VM): only the machine id is there.
    let hardware = hardware_identity_from(None, None, None, read_trimmed("0f1e2d3c4b5a69788796a5b4c3d2e1f0\n"));
    assert!(hardware.device_name.is_some(), "device_name always present");
    if hardware.manufacturer.is_none() && hardware.model.is_none() {
        assert!(hardware.device_name.as_deref().expect("name").starts_with("Device (machine-id"));
    }
}

#[test]
fn hardware_identity_names_vendor_and_model() {
    let hardware = hardware_identity_from(
        read_trimmed("LENOVO\n"),
        read_trimmed(" 21CB \n"),
        read_trimmed("PF3ABCDE"),
        read_trimmed("abc"),
    );
    assert_eq!(hardware.device_name.as_deref(), Some("LENOVO 21CB"));
    assert_eq!(hardware.serial_number.as_deref(), Some("PF3ABCDE"));
    let only_model = hardware_identity_from(None, Some("21CB".into()), None, None);
    assert_eq!(only_model.device_name.as_deref(), Some("21CB"));
    let nothing = hardware_identity_from(None, None, None, None);
    assert_eq!(nothing.device_name.as_deref(), Some("Device (machine-id unknown)"));
    let long_serial = hardware_identity_from(None, None, Some("x".repeat(201)), None);
    assert!(long_serial.serial_number.is_none());
    assert_eq!(read_trimmed("  \n"), None);
}

#[test]
fn status_polls_are_signed_with_the_device_key() {
    let identity = DeviceIdentity::from_key_file(&[9u8; 32]).expect("identity");
    let message = status_poll_message_bytes(7, 1_700_000_000);
    assert_eq!(message, b"enrollment-status|7|1700000000".to_vec());
    let url = status_poll_url("http://127.0.0.1:8080/", 7, 1_700_000_000, &identity);
    let signature = hex::encode(identity.signing_key.sign(&message));
    assert_eq!(
        url,
        format!("http://127.0.0.1:8080/api/v1/enrollment-requests/7?timestamp=1700000000&signature_hex={signature}")
    );
    assert_eq!(enrollment_requests_url("https://id/"), "https://id/api/v1/enrollment-requests");
}

#[test]
fn enrollment_states_decide_the_next_step() {
    assert!(matches!(enrollment_step("accepted", Some("workstation-7"), 7), EnrollStep::Accepted(id) if id == "workstation-7"));
    assert!(matches!(enrollment_step("accepted", None, 7), EnrollStep::Failed(EnrollError::Message(m))
        if m == "server accepted the enrollment but sent no device id"));
    assert!(matches!(enrollment_step("rejected", None, 3), EnrollStep::Failed(EnrollError::RejectedByAdmin(3))));
    assert!(matches!(enrollment_step("pending", None, 3), EnrollStep::Pending));
    assert!(matches!(enrollment_step("weird", None, 3), EnrollStep::Failed(EnrollError::Message(m))
        if m == "server reported unknown enrollment state 'weird'"));
    let record = enrollment_record(7, "workstation-7", 1_700_000_100);
    assert_eq!(record.device_id, "workstation-7");
    assert_eq!(record.request_id, 7);
}
