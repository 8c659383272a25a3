use cubesat_protocols::novatel::{LogCmd, LogTrigger, LOG_BODY_LEN};

#[test]
fn trigger_codes() {
    assert_eq!(LogTrigger::OnChanged.code(), 1);
    assert_eq!(LogTrigger::OnTime.code(), 2);
    assert_eq!(LogTrigger::Once.code(), 4);
}

#[test]
fn log_command_layout() {
    let hdr = vec![0xAA, 0x44, 0x12];
    let cmd = LogCmd::new(
        hdr,
        0x0102_0304,
        0x0a0b,
        LogTrigger::OnTime,
        1.5f64.to_bits(),
        0.25f64.to_bits(),
        true,
    );
    let mut want = vec![0xAA, 0x44, 0x12];
    want.extend_from_slice(&[0x04, 0x03, 0x02, 0x01]);
    want.extend_from_slice(&[0x0b, 0x0a]);
    want.extend_from_slice(&[0x00, 0x00]);
    want.extend_from_slice(&[0x02, 0x00, 0x00, 0x00]);
    want.extend_from_slice(&1.5f64.to_le_bytes());
    want.extend_from_slice(&0.25f64.to_le_bytes());
    want.extend_from_slice(&[0x01, 0x00, 0x00, 0x00]);
    assert_eq!(cmd.serialize(), want);
}

#[test]
fn log_command_body_length() {
    let cmd = LogCmd::new(vec![], 0, 0, LogTrigger::Once, 0, 0, false);
    let bytes = cmd.serialize();
    assert_eq!(bytes.len(), LOG_BODY_LEN);
    assert_eq!(bytes[8], 4);
    assert_eq!(&bytes[28..], &[0, 0, 0, 0]);
}
