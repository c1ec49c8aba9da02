use bresize2fs::cli::{BasicOperation, SectorCount};
use bresize2fs::device::{MiscError, SearchError, VerifyError};
use bresize2fs::fs::superblock::Superblock;
use bresize2fs::report::{
    found_message, found_message_of, idle_message, search_error_message, verify_error_message,
};

fn superblock(block_size: u32, block_count: u64) -> Superblock {
    Superblock { block_size, block_count, uuid: "u-u-i-d".to_string() }
}

#[test]
fn found_message_shows_binary_units() {
    assert_eq!(
        found_message(512, &superblock(4, 1 << 20)),
        "Found filesystem on offset 512 with UUID=u-u-i-d of size 4 MiB (4 B blocks)"
    );
    assert_eq!(
        found_message(0, &superblock(8, 192)),
        "Found filesystem on offset 0 with UUID=u-u-i-d of size 1.5 KiB (8 B blocks)"
    );
}

#[test]
fn found_message_puts_its_parts_together() {
    assert_eq!(
        found_message_of(1048576, "abc", "1 GiB", "4 KiB"),
        "Found filesystem on offset 1048576 with UUID=abc of size 1 GiB (4 KiB blocks)"
    );
}

#[test]
fn verify_error_messages() {
    assert_eq!(
        verify_error_message(&VerifyError::NotValidFS, 512),
        "there is no valid e2fs on offset 512"
    );
    assert_eq!(
        verify_error_message(&VerifyError::ValidFSErrors, 512),
        "valid filesystem found but it is not clean. use e2fsck"
    );
    assert_eq!(
        verify_error_message(&VerifyError::MiscError(MiscError::Seek), 512),
        "failed to run verification"
    );
}

#[test]
fn search_error_messages() {
    assert_eq!(search_error_message(&SearchError::NotFound), "valid e2fs was not found");
    assert_eq!(
        search_error_message(&SearchError::FoundErrors(1024)),
        "valid filesystem found on offset 1024 but it is not clean. use e2fsck"
    );
    assert_eq!(
        search_error_message(&SearchError::MiscError(MiscError::Read)),
        "fail occured during the search"
    );
}

#[test]
fn idle_messages() {
    assert_eq!(
        idle_message(&BasicOperation::Nothing),
        Some("There is nothing to be done. Exiting..")
    );
    assert_eq!(idle_message(&BasicOperation::InvalidOp), Some("Invalid operation. Exiting.."));
    let n = SectorCount::new(1).unwrap();
    assert_eq!(idle_message(&BasicOperation::ExtendSecs(n)), None);
    assert_eq!(idle_message(&BasicOperation::ShrinkSecs(n)), None);
}
