//! What the user is told.

use crate::cli::{fs_bytes, BasicOperation};
use crate::device::{SearchError, VerifyError};
use crate::fs::superblock::Superblock;
use crate::text::{decimal, decimal_string};
use vstd::prelude::*;
use vstd::string::StringExecFns;

verus! {

/// A number of bytes in the largest binary unit that it reaches, as text.
pub uninterp spec fn binary_size_text(bytes: u64) -> Seq<char>;

/// `byte_unit::Byte::get_appropriate_unit` with binary units, shown as text: the
/// text depends on the number of bytes alone.
#[verifier::external_body]
fn binary_size(bytes: u64) -> (r: String)
    ensures
        r@ == binary_size_text(bytes),
{
    byte_unit::Byte::from_u64(bytes).get_appropriate_unit(byte_unit::UnitType::Binary).to_string()
}

/// What is said of a filesystem that was found.
pub open spec fn found_text(
    offset: nat,
    uuid: Seq<char>,
    size: Seq<char>,
    block_size: Seq<char>,
) -> Seq<char> {
    "Found filesystem on offset "@ + decimal(offset) + " with UUID="@ + uuid + " of size "@ + size
        + " ("@ + block_size + " blocks)"@
}

/// What is said of a filesystem that was found, given its sizes as text.
pub fn found_message_of(offset: u64, uuid: &str, size: &str, block_size: &str) -> (r: String)
    ensures
        r@ == found_text(offset as nat, uuid@, size@, block_size@),
{
    let mut r: String = "Found filesystem on offset ".to_owned();
    r.append(decimal_string(offset).as_str());
    r.append(" with UUID=");
    r.append(uuid);
    r.append(" of size ");
    r.append(size);
    r.append(" (");
    r.append(block_size);
    r.append(" blocks)");
    r
}

/// What is said of a filesystem that was found at byte `offset`.
pub fn found_message(offset: u64, sb: &Superblock) -> (r: String)
    requires
        fs_bytes(sb.block_size, sb.block_count) <= u64::MAX,
    ensures
        r@ == found_text(
            offset as nat,
            sb.uuid@,
            binary_size_text(fs_bytes(sb.block_size, sb.block_count) as u64),
            binary_size_text(sb.block_size as u64),
        ),
{
    proof {
        assert(sb.block_size * sb.block_count == sb.block_count * (sb.block_size as u64))
            by (nonlinear_arith);
    }
    let size = binary_size(sb.block_count * (sb.block_size as u64));
    let block_size = binary_size(sb.block_size as u64);
    found_message_of(offset, sb.uuid.as_str(), size.as_str(), block_size.as_str())
}

/// What is said where the filesystem at byte `offset` is not usable.
pub open spec fn verify_error_text(e: VerifyError, offset: nat) -> Seq<char> {
    match e {
        VerifyError::NotValidFS => "there is no valid e2fs on offset "@ + decimal(offset),
        VerifyError::ValidFSErrors =>
            "valid filesystem found but it is not clean. use e2fsck"@,
        VerifyError::MiscError(_) => "failed to run verification"@,
    }
}

pub fn verify_error_message(e: &VerifyError, offset: u64) -> (r: String)
    ensures
        r@ == verify_error_text(*e, offset as nat),
{
    match e {
        VerifyError::NotValidFS => {
            let mut r: String = "there is no valid e2fs on offset ".to_owned();
            r.append(decimal_string(offset).as_str());
            r
        },
        VerifyError::ValidFSErrors =>
            "valid filesystem found but it is not clean. use e2fsck".to_owned(),
        VerifyError::MiscError(_) => "failed to run verification".to_owned(),
    }
}

/// What is said where a search ends without a usable filesystem.
pub open spec fn search_error_text(e: SearchError) -> Seq<char> {
    match e {
        SearchError::NotFound => "valid e2fs was not found"@,
        SearchError::FoundErrors(offset) => "valid filesystem found on offset "@ + decimal(
            offset as nat,
        ) + " but it is not clean. use e2fsck"@,
        SearchError::MiscError(_) => "fail occured during the search"@,
    }
}

pub fn search_error_message(e: &SearchError) -> (r: String)
    ensures
        r@ == search_error_text(*e),
{
    match e {
        SearchError::NotFound => "valid e2fs was not found".to_owned(),
        SearchError::FoundErrors(offset) => {
            let mut r: String = "valid filesystem found on offset ".to_owned();
            r.append(decimal_string(*offset).as_str());
            r.append(" but it is not clean. use e2fsck");
            r
        },
        SearchError::MiscError(_) => "fail occured during the search".to_owned(),
    }
}

/// What is said where an operation comes to no change.
pub open spec fn idle_text(op: BasicOperation) -> Option<Seq<char>> {
    match op {
        BasicOperation::Nothing => Some("There is nothing to be done. Exiting.."@),
        BasicOperation::InvalidOp => Some("Invalid operation. Exiting.."@),
        _ => None,
    }
}

pub fn idle_message(op: &BasicOperation) -> (r: Option<&'static str>)
    ensures
        match r {
            Some(s) => idle_text(*op) == Some(s@),
            None => idle_text(*op) is None,
        },
{
    match op {
        BasicOperation::Nothing => Some("There is nothing to be done. Exiting.."),
        BasicOperation::InvalidOp => Some("Invalid operation. Exiting.."),
        _ => None,
    }
}

/// What is said of a filesystem that was found names its offset in decimal, its
/// UUID, its whole size and its block size, in that order.
pub proof fn lemma_found_words(offset: u64, sb: Superblock, r: String)
    requires
        sb.block_size * sb.block_count <= u64::MAX,
    ensures
        call_requires(found_message, (offset, &sb)),
        call_ensures(found_message, (offset, &sb), r) ==> {
            let size = (sb.block_size * sb.block_count) as u64;
            r@ == "Found filesystem on offset "@ + decimal(offset as nat) + " with UUID="@
                + sb.uuid@ + " of size "@ + binary_size_text(size) + " ("@ + binary_size_text(
                sb.block_size as u64,
            ) + " blocks)"@
        },
{
}

/// A place without a filesystem, and one with a filesystem that is not clean,
/// are named by their offset in decimal.
pub proof fn lemma_offset_words(offset: u64)
    ensures
        verify_error_text(VerifyError::NotValidFS, offset as nat)
            == "there is no valid e2fs on offset "@ + decimal(offset as nat),
        verify_error_text(VerifyError::ValidFSErrors, offset as nat)
            == "valid filesystem found but it is not clean. use e2fsck"@,
        search_error_text(SearchError::FoundErrors(offset)) == "valid filesystem found on offset "@
            + decimal(offset as nat) + " but it is not clean. use e2fsck"@,
        search_error_text(SearchError::NotFound) == "valid e2fs was not found"@,
{
}

/// Whatever else went wrong, and wherever, the message is the same.
pub proof fn lemma_other_words(e: crate::device::MiscError, offset: nat)
    ensures
        verify_error_text(VerifyError::MiscError(e), offset) == "failed to run verification"@,
        search_error_text(SearchError::MiscError(e)) == "fail occured during the search"@,
{
}

/// Calls tell what is stated.
pub proof fn lemma_message_calls(
    e: VerifyError,
    offset: u64,
    f: SearchError,
    op: BasicOperation,
    r: String,
    idle: Option<&'static str>,
)
    ensures
        call_ensures(verify_error_message, (&e, offset), r) ==> r@ == verify_error_text(
            e,
            offset as nat,
        ),
        call_ensures(search_error_message, (&f,), r) ==> r@ == search_error_text(f),
        call_ensures(idle_message, (&op,), idle) ==> {
            &&& idle is None <==> idle_text(op) is None
            &&& idle is Some ==> idle_text(op) == Some(idle->0@)
        },
{
}

/// A message stands in for the work exactly where there is none to do.
pub proof fn lemma_idle_words(op: BasicOperation)
    ensures
        idle_text(op) is None <==> op is ShrinkSecs || op is ExtendSecs,
        op is Nothing ==> idle_text(op) == Some("There is nothing to be done. Exiting.."@),
        op is InvalidOp ==> idle_text(op) == Some("Invalid operation. Exiting.."@),
{
}

} // verus!
