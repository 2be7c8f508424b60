use bedrock_vm::error::ErrorKind;
use bedrock_vm::feedback::{Channel, Failure, SlotCache, VmReply, VmRequest};
use bedrock_vm::file_store::{FileStoreError, FileWriter};
use bedrock_vm::fuzz_input::{FuzzInputError, InputServer};

type Reply = VmReply<&'static str>;

#[test]
fn first_operation_looks_up_maps_and_fetches() {
    let mut server = InputServer::new();
    assert_eq!(server.begin(), VmRequest::FindSlots { channel: Channel::FuzzInput });
    let next = server.advance(Reply::Slots(Ok(vec![4, 2]))).unwrap();
    assert_eq!(next, VmRequest::CheckMapped { slot: 4 });
    let next = server.advance(Reply::Mapping { slot: 4, mapped: false }).unwrap();
    assert_eq!(next, VmRequest::MapSlot { slot: 4 });
    let next = server.advance(Reply::Mapped { slot: 4, result: Ok(()) }).unwrap();
    assert_eq!(next, VmRequest::Fetch { slot: 4 });
}

#[test]
fn mapped_slot_is_fetched_at_once() {
    let mut server = InputServer::new();
    let next = server.advance(Reply::Slots(Ok(vec![9]))).unwrap();
    assert_eq!(next, VmRequest::CheckMapped { slot: 9 });
    let next = server.advance(Reply::Mapping { slot: 9, mapped: true }).unwrap();
    assert_eq!(next, VmRequest::Fetch { slot: 9 });
}

#[test]
fn later_operations_use_the_cached_slot_but_check_its_mapping() {
    let mut server = InputServer::new();
    assert!(matches!(server.resolve_slot::<()>(Ok(vec![6])), Ok(6)));
    assert_eq!(server.begin(), VmRequest::CheckMapped { slot: 6 });
    assert!(matches!(server.resolve_slot(Err("no")), Ok(6)));
    assert!(matches!(server.resolve_slot::<()>(Ok(vec![7])), Ok(6)));
    assert_eq!(server.begin(), VmRequest::CheckMapped { slot: 6 });
}

#[test]
fn slot_stays_cached_when_mapping_fails() {
    let mut server = InputServer::new();
    assert!(server.advance(Reply::Slots(Ok(vec![3]))).is_ok());
    let failed = server.advance(Reply::Mapped { slot: 3, result: Err("map") });
    assert!(matches!(failed, Err(Failure::Vm("map"))));
    assert_eq!(server.begin(), VmRequest::CheckMapped { slot: 3 });
}

#[test]
fn lookup_failure_is_passed_on_and_nothing_is_cached() {
    let mut server = InputServer::new();
    let failed = server.advance(Reply::Slots(Err("lookup")));
    assert!(matches!(failed, Err(Failure::Vm("lookup"))));
    assert_eq!(server.begin(), VmRequest::FindSlots { channel: Channel::FuzzInput });
}

#[test]
fn missing_input_buffer_is_not_found() {
    let mut server = InputServer::new();
    let failed = server.advance(Reply::Slots(Ok(vec![])));
    assert!(matches!(failed, Err(Failure::Channel(FuzzInputError::NotRegistered))));
    assert_eq!(server.begin(), VmRequest::FindSlots { channel: Channel::FuzzInput });
    assert_eq!(FuzzInputError::NotRegistered.kind(), ErrorKind::NotFound);
    assert_eq!(
        FuzzInputError::NotRegistered.message(),
        "guest issued HYPERCALL_FUZZ_NEXT_INPUT but registered no fuzzamoto-input buffer"
    );
}

#[test]
fn missing_file_store_buffer_is_not_found() {
    let mut writer = FileWriter::new();
    assert_eq!(writer.begin(), VmRequest::FindSlots { channel: Channel::FileStore });
    let failed = writer.advance(Reply::Slots(Ok(vec![])));
    assert!(matches!(failed, Err(Failure::Channel(FileStoreError::NotRegistered))));
    assert_eq!(FileStoreError::NotRegistered.kind(), ErrorKind::NotFound);
    assert_eq!(
        FileStoreError::NotRegistered.message(),
        "guest issued HYPERCALL_FILE_STORE but registered no bedrock-file-store buffer"
    );
}

#[test]
fn file_writer_walks_to_its_buffer() {
    let mut writer = FileWriter::new();
    let next = writer.advance(Reply::Slots(Ok(vec![1, 8]))).unwrap();
    assert_eq!(next, VmRequest::CheckMapped { slot: 1 });
    let next = writer.advance(Reply::Mapping { slot: 1, mapped: false }).unwrap();
    assert_eq!(next, VmRequest::MapSlot { slot: 1 });
    let failed = writer.advance(Reply::Mapped { slot: 1, result: Err("map") });
    assert!(matches!(failed, Err(Failure::Vm("map"))));
    let next = writer.advance(Reply::Mapped { slot: 1, result: Ok(()) }).unwrap();
    assert_eq!(next, VmRequest::Fetch { slot: 1 });
    assert!(matches!(writer.resolve_slot::<()>(Ok(vec![5])), Ok(1)));
    assert_eq!(writer.begin(), VmRequest::CheckMapped { slot: 1 });
}

#[test]
fn cache_gives_the_channel_error_it_was_handed() {
    let mut cache = SlotCache::new();
    let failed = cache.resolve::<(), _>(Ok(vec![]), "missing");
    assert!(matches!(failed, Err(Failure::Channel("missing"))));
    assert!(matches!(cache.resolve::<(), _>(Ok(vec![2]), "missing"), Ok(2)));
    let next = cache.advance(Reply::Slots(Ok(vec![])), "missing").unwrap();
    assert_eq!(next, VmRequest::CheckMapped { slot: 2 });
}

#[test]
fn channels_have_their_ids() {
    assert_eq!(Channel::FuzzInput.id(), b"fuzzamoto-input");
    assert_eq!(Channel::FileStore.id(), b"bedrock-file-store");
    assert_ne!(Channel::FuzzInput.id(), Channel::FileStore.id());
    let cache = SlotCache::new();
    let request = cache.begin(Channel::FileStore);
    assert_eq!(request, VmRequest::FindSlots { channel: Channel::FileStore });
}

#[test]
fn fork_is_mapped_under_the_cached_slot() {
    let mut server = InputServer::new();
    assert!(server.advance(Reply::Slots(Ok(vec![5, 6]))).is_ok());
    let next = server.advance(Reply::Mapping { slot: 5, mapped: true }).unwrap();
    assert_eq!(next, VmRequest::Fetch { slot: 5 });
    let parent = [1u8; 40];
    assert_eq!(InputServer::buffer_ref(Some(&parent)), Ok(&parent[..]));

    assert_eq!(server.begin(), VmRequest::CheckMapped { slot: 5 });
    let next = server.advance(Reply::Mapping { slot: 5, mapped: false }).unwrap();
    assert_eq!(next, VmRequest::MapSlot { slot: 5 });
    let next = server.advance(Reply::Mapped { slot: 5, result: Ok(()) }).unwrap();
    assert_eq!(next, VmRequest::Fetch { slot: 5 });
    let mut fork = [2u8; 36];
    assert_eq!(InputServer::buffer(Some(&mut fork)).unwrap(), &[2u8; 36]);
    assert_eq!(server.begin(), VmRequest::CheckMapped { slot: 5 });
}
