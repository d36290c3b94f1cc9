use tee_server::storage::{
    create_file, create_raw_object, delete_file, delete_object, read_file, read_raw_object,
    AccessFlags, Step, StorageCall, StorageError,
};

fn create_flags() -> AccessFlags {
    AccessFlags { access_read: true, access_write: true, access_write_meta: true, share_read: false, overwrite: true }
}

#[test]
fn create_file_writes_zeros_to_config() {
    let (mut m, call) = create_file(3);
    match call {
        StorageCall::Create { object_id, flags } => {
            assert_eq!(object_id, b"config".to_vec());
            assert_eq!(flags, create_flags());
        }
        other => panic!("unexpected {:?}", other),
    }
    match m.on_created(Ok(())) {
        Step::Call(StorageCall::Write { data }) => assert_eq!(data, vec![0u8; 3]),
        other => panic!("unexpected {:?}", other),
    }
    assert!(matches!(m.on_written(Ok(())), Step::Finished(Ok(()))));
}

#[test]
fn create_fails_when_create_fails() {
    let (mut m, _) = create_raw_object(b"x", vec![1, 2]);
    assert!(matches!(m.on_created(Err(7)), Step::Finished(Err(StorageError::Tee(7)))));
}

#[test]
fn failed_write_deletes_object() {
    let (mut m, _) = create_raw_object(b"x", vec![1, 2]);
    assert!(matches!(m.on_created(Ok(())), Step::Call(StorageCall::Write { .. })));
    assert!(matches!(m.on_written(Err(9)), Step::Call(StorageCall::CloseAndDelete)));
    assert!(matches!(m.on_deleted(Ok(())), Step::Finished(Err(StorageError::Tee(9)))));
}

#[test]
fn failed_delete_after_failed_write_reports_delete_error() {
    let (mut m, _) = create_raw_object(b"x", vec![]);
    let _ = m.on_created(Ok(()));
    let _ = m.on_written(Err(9));
    assert!(matches!(m.on_deleted(Err(11)), Step::Finished(Err(StorageError::Tee(11)))));
}

#[test]
fn read_file_flow() {
    let (mut m, call) = read_file();
    match call {
        StorageCall::Open { object_id, flags } => {
            assert_eq!(object_id, b"config".to_vec());
            assert_eq!(flags, AccessFlags { access_read: true, access_write: false, access_write_meta: false, share_read: true, overwrite: false });
        }
        other => panic!("unexpected {:?}", other),
    }
    assert!(matches!(m.on_opened(Ok(())), Step::Call(StorageCall::Info)));
    assert!(matches!(m.on_info(Ok(512)), Step::Call(StorageCall::Read { len: 512 })));
    assert!(matches!(m.on_read(Ok(512)), Step::Finished(Ok(512))));
}

#[test]
fn short_read_is_excess_data() {
    let (mut m, _) = read_raw_object(b"y");
    let _ = m.on_opened(Ok(()));
    let _ = m.on_info(Ok(10));
    assert!(matches!(m.on_read(Ok(4)), Step::Finished(Err(StorageError::ExcessData))));
}

#[test]
fn read_size_compared_as_u32() {
    let (mut m, _) = read_raw_object(b"y");
    let _ = m.on_opened(Ok(()));
    let _ = m.on_info(Ok(usize::MAX));
    assert!(matches!(m.on_read(Ok(u32::MAX)), Step::Finished(Ok(u32::MAX))));
}

#[test]
fn failed_read_aborts() {
    let (mut m, _) = read_raw_object(b"y");
    let _ = m.on_opened(Ok(()));
    let _ = m.on_info(Ok(1));
    assert!(matches!(m.on_read(Err(3)), Step::Aborted));
}

#[test]
fn read_open_and_info_errors() {
    let (mut m, _) = read_raw_object(b"y");
    assert!(matches!(m.on_opened(Err(5)), Step::Finished(Err(StorageError::Tee(5)))));
    let (mut m, _) = read_raw_object(b"y");
    let _ = m.on_opened(Ok(()));
    assert!(matches!(m.on_info(Err(6)), Step::Finished(Err(StorageError::Tee(6)))));
}

#[test]
fn delete_file_flow() {
    let (mut m, call) = delete_file();
    match call {
        StorageCall::Open { object_id, flags } => {
            assert_eq!(object_id, b"config".to_vec());
            assert_eq!(flags, AccessFlags { access_read: true, access_write: false, access_write_meta: true, share_read: false, overwrite: false });
        }
        other => panic!("unexpected {:?}", other),
    }
    assert!(matches!(m.on_opened(Ok(())), Step::Call(StorageCall::CloseAndDelete)));
    assert!(matches!(m.on_deleted(Ok(())), Step::Finished(Ok(()))));
}

#[test]
fn delete_errors() {
    let (mut m, _) = delete_object(b"z");
    assert!(matches!(m.on_opened(Err(2)), Step::Finished(Err(StorageError::Tee(2)))));
    let (mut m, _) = delete_object(b"z");
    let _ = m.on_opened(Ok(()));
    assert!(matches!(m.on_deleted(Err(4)), Step::Finished(Err(StorageError::Tee(4)))));
}
