//! Finding and verifying a filesystem in a file or device.

use crate::cli::MIN_FS_SIZE;
use crate::command::{
    attach_command, attach_command_line, check_command, check_command_line, detach_command,
    detach_command_line, CommandLine, CommandLineView, CommandOutput, CommandOutputView,
};
use crate::fs::superblock::{
    inodes_count, is_parsable, log_block_size, read_le32, superblock_of, Superblock, SuperblockView,
    MAX_LOG_BLOCK_SIZE, SUPERBLOCK_SIZE,
};
use bstr::ByteSlice;
use vstd::prelude::*;
use vstd::slice::{slice_subrange, slice_to_vec};
use vstd::utf8::encode_utf8;

verus! {

/// Space, tab, line feed, form feed and carriage return.
pub open spec fn is_whitespace(b: u8) -> bool {
    b == 0x20 || b == 0x09 || b == 0x0a || b == 0x0c || b == 0x0d
}

/// `s` without the whitespace in front.
pub open spec fn trim_front(s: Seq<u8>) -> Seq<u8>
    decreases s.len(),
{
    if s.len() > 0 && is_whitespace(s[0]) {
        trim_front(s.drop_first())
    } else {
        s
    }
}

/// `s` without the whitespace at the end.
pub open spec fn trim_back(s: Seq<u8>) -> Seq<u8>
    decreases s.len(),
{
    if s.len() > 0 && is_whitespace(s.last()) {
        trim_back(s.drop_last())
    } else {
        s
    }
}

/// `s` without the whitespace on both sides.
pub open spec fn trimmed(s: Seq<u8>) -> Seq<u8> {
    trim_back(trim_front(s))
}

fn is_ascii_whitespace(b: u8) -> (r: bool)
    ensures
        r == is_whitespace(b),
{
    b == 0x20 || b == 0x09 || b == 0x0a || b == 0x0c || b == 0x0d
}

/// Cuts off whitespace on both sides.
pub fn trim_bytes(bytes: &[u8]) -> (r: &[u8])
    ensures
        r@ == trimmed(bytes@),
{
    let n: usize = bytes.len();
    let mut lo: usize = 0;
    proof {
        assert(bytes@.subrange(0, n as int) =~= bytes@);
    }
    while lo < n && is_ascii_whitespace(bytes[lo])
        invariant
            lo <= n == bytes.len(),
            trim_front(bytes@.subrange(lo as int, n as int)) == trim_front(bytes@),
        decreases n - lo,
    {
        proof {
            assert(bytes@.subrange(lo as int, n as int).drop_first() =~= bytes@.subrange(
                lo + 1,
                n as int,
            ));
        }
        lo = lo + 1;
    }
    let mut hi: usize = n;
    while hi > lo && is_ascii_whitespace(bytes[hi - 1])
        invariant
            lo <= hi <= n == bytes.len(),
            trim_back(bytes@.subrange(lo as int, hi as int)) == trimmed(bytes@),
        decreases hi,
    {
        proof {
            assert(bytes@.subrange(lo as int, hi as int).drop_last() =~= bytes@.subrange(
                lo as int,
                hi - 1,
            ));
        }
        hi = hi - 1;
    }
    slice_subrange(bytes, lo, hi)
}

proof fn lemma_trim_front(s: Seq<u8>) -> (lo: int)
    ensures
        0 <= lo <= s.len(),
        trim_front(s) == s.subrange(lo, s.len() as int),
        forall|i: int| 0 <= i < lo ==> is_whitespace(#[trigger] s[i]),
        lo < s.len() ==> !is_whitespace(s[lo]),
    decreases s.len(),
{
    if s.len() > 0 && is_whitespace(s[0]) {
        let t = s.drop_first();
        let k = lemma_trim_front(t);
        assert(t.subrange(k, t.len() as int) =~= s.subrange(k + 1, s.len() as int));
        assert forall|i: int| 0 <= i < k + 1 implies is_whitespace(#[trigger] s[i]) by {
            if i > 0 {
                assert(is_whitespace(t[i - 1]));
            }
        }
        k + 1
    } else {
        assert(s.subrange(0, s.len() as int) =~= s);
        0
    }
}

proof fn lemma_trim_back(s: Seq<u8>) -> (hi: int)
    ensures
        0 <= hi <= s.len(),
        trim_back(s) == s.subrange(0, hi),
        forall|i: int| hi <= i < s.len() ==> is_whitespace(#[trigger] s[i]),
        hi > 0 ==> !is_whitespace(s[hi - 1]),
    decreases s.len(),
{
    if s.len() > 0 && is_whitespace(s.last()) {
        let t = s.drop_last();
        let k = lemma_trim_back(t);
        assert(t.subrange(0, k) =~= s.subrange(0, k));
        assert forall|i: int| k <= i < s.len() implies is_whitespace(#[trigger] s[i]) by {
            if i < t.len() {
                assert(is_whitespace(t[i]));
            }
        }
        k
    } else {
        assert(s.subrange(0, s.len() as int) =~= s);
        s.len() as int
    }
}

/// Five bytes are whitespace: tab, line feed, form feed, carriage return and
/// space.
pub proof fn lemma_whitespace(b: u8)
    ensures
        is_whitespace(b) <==> seq![9u8, 10, 12, 13, 32].contains(b),
{
    let five = seq![9u8, 10, 12, 13, 32];
    assert(five[0] == 9 && five[1] == 10 && five[2] == 12 && five[3] == 13 && five[4] == 32);
}

/// Trimming cuts off whitespace only, on the two sides, and leaves none there.
pub proof fn lemma_trimmed(s: Seq<u8>)
    ensures
        exists|lo: int, hi: int|
            #![trigger s.subrange(lo, hi)]
            {
                &&& 0 <= lo <= hi <= s.len()
                &&& trimmed(s) == s.subrange(lo, hi)
                &&& forall|i: int|
                    0 <= i < lo || hi <= i < s.len() ==> is_whitespace(#[trigger] s[i])
            },
        trimmed(s).len() > 0 ==> !is_whitespace(trimmed(s)[0]) && !is_whitespace(
            trimmed(s).last(),
        ),
{
    let lo = lemma_trim_front(s);
    let t = trim_front(s);
    let k = lemma_trim_back(t);
    assert(t.subrange(0, k) =~= s.subrange(lo, lo + k));
    assert forall|i: int| 0 <= i < lo || lo + k <= i < s.len() implies is_whitespace(
        #[trigger] s[i],
    ) by {
        if i >= lo {
            assert(is_whitespace(t[i - lo]));
        }
    }
}

/// Trimming twice is trimming once.
pub proof fn lemma_trim_idempotent(s: Seq<u8>)
    ensures
        trimmed(trimmed(s)) == trimmed(s),
{
    lemma_trimmed(s);
}

/// Why no loop device was attached: `losetup` could not be run, or it failed
/// with a message.
#[derive(Debug)]
pub enum AttachError {
    NotRun,
    Refused { stderr: Vec<u8> },
}

/// An [`AttachError`] as sequences.
pub enum AttachErrorView {
    NotRun,
    Refused { stderr: Seq<u8> },
}

impl View for AttachError {
    type V = AttachErrorView;

    open spec fn view(&self) -> AttachErrorView {
        match *self {
            AttachError::NotRun => AttachErrorView::NotRun,
            AttachError::Refused { stderr } => AttachErrorView::Refused { stderr: stderr@ },
        }
    }
}

/// An attached loop device.
#[derive(Debug)]
pub struct LoopDevice {
    device: Vec<u8>,
}

impl View for LoopDevice {
    type V = Seq<u8>;

    /// The path of the device.
    closed spec fn view(&self) -> Seq<u8> {
        self.device@
    }
}

/// The loop device that `losetup` reports: the path that it prints.
pub open spec fn attached_device(output: CommandOutputView) -> Result<Seq<u8>, AttachErrorView> {
    if output.success {
        Ok(trimmed(output.stdout))
    } else {
        Err(AttachErrorView::Refused { stderr: output.stderr })
    }
}

/// A device is attached exactly where `losetup` succeeds, and its path is what
/// remains of the output without whitespace around it; a failure keeps what
/// `losetup` complained of.
pub proof fn lemma_attached(path: Seq<u8>, front: Seq<u8>, back: Seq<u8>, output: CommandOutputView)
    requires
        forall|i: int| 0 <= i < front.len() ==> is_whitespace(#[trigger] front[i]),
        forall|i: int| 0 <= i < back.len() ==> is_whitespace(#[trigger] back[i]),
        path.len() > 0 ==> !is_whitespace(path[0]) && !is_whitespace(path.last()),
        output.stdout == front + path + back,
    ensures
        output.success ==> attached_device(output) == Ok::<Seq<u8>, AttachErrorView>(path),
        !output.success ==> attached_device(output) == Err::<Seq<u8>, AttachErrorView>(
            AttachErrorView::Refused { stderr: output.stderr },
        ),
{
    let s = output.stdout;
    let lo = lemma_trim_front(s);
    let t = trim_front(s);
    let k = lemma_trim_back(t);
    let hi = lo + k;
    let a = front.len() as int;
    let b = a + path.len();
    assert forall|i: int| 0 <= i < a || b <= i < s.len() implies is_whitespace(#[trigger] s[i]) by {
        if i < a {
            assert(s[i] == front[i]);
        } else {
            assert(s[i] == back[i - b]);
        }
    }
    assert(s.subrange(a, b) =~= path);
    if path.len() > 0 {
        assert(s[a] == path[0] && s[b - 1] == path.last());
        assert(lo == a);
        assert(t[b - a - 1] == s[b - 1]);
        assert(k == b - a) by {
            if k > b - a {
                assert(t[k - 1] == s[hi - 1]);
            }
            if k < b - a {
                assert(is_whitespace(t[b - a - 1]));
            }
        }
        assert(t.subrange(0, k) =~= path);
    } else {
        if lo < s.len() {
            assert(is_whitespace(s[lo]));
        }
        assert(t.len() == 0);
        assert(trimmed(s) =~= path);
    }
}

impl LoopDevice {
    /// The loop device that the finished attach command reports.
    pub fn new(output: CommandOutput) -> (r: Result<Self, AttachError>)
        ensures
            match r {
                Ok(d) => attached_device(output@) == Ok::<Seq<u8>, AttachErrorView>(d@),
                Err(e) => attached_device(output@) == Err::<Seq<u8>, AttachErrorView>(e@),
            },
    {
        if output.success {
            Ok(LoopDevice { device: slice_to_vec(trim_bytes(output.stdout.as_slice())) })
        } else {
            Err(AttachError::Refused { stderr: output.stderr })
        }
    }

    /// The path of the device.
    pub fn path(&self) -> (r: &[u8])
        ensures
            r@ == self@,
    {
        self.device.as_slice()
    }

    /// The command that detaches the device.
    pub fn detach(&self) -> (r: CommandLine)
        ensures
            r@ == detach_command_line(self@),
    {
        detach_command(self.device.as_slice())
    }
}

/// What else can go wrong while a filesystem is verified.
#[derive(Debug)]
pub enum MiscError {
    Seek,
    Read,
    Attach(AttachError),
    RunFsck,
}

/// A [`MiscError`] as sequences.
pub enum MiscErrorView {
    Seek,
    Read,
    Attach(AttachErrorView),
    RunFsck,
}

impl View for MiscError {
    type V = MiscErrorView;

    open spec fn view(&self) -> MiscErrorView {
        match *self {
            MiscError::Seek => MiscErrorView::Seek,
            MiscError::Read => MiscErrorView::Read,
            MiscError::Attach(e) => MiscErrorView::Attach(e@),
            MiscError::RunFsck => MiscErrorView::RunFsck,
        }
    }
}

impl MiscError {
    pub open spec fn spec_message(self) -> Seq<char> {
        match self {
            MiscError::Seek => "could not seek fs file"@,
            MiscError::Read => "could not read fs file"@,
            MiscError::Attach(_) => "could not create loop device"@,
            MiscError::RunFsck => "failed to run e2fsck"@,
        }
    }

    /// What went wrong, in words.
    pub fn message(&self) -> (r: &'static str)
        ensures
            r@ == self.spec_message(),
    {
        match self {
            MiscError::Seek => "could not seek fs file",
            MiscError::Read => "could not read fs file",
            MiscError::Attach(_) => "could not create loop device",
            MiscError::RunFsck => "failed to run e2fsck",
        }
    }
}

/// Why a place does not hold a usable filesystem: there is none, there is one
/// with errors, or it could not be told.
#[derive(Debug)]
pub enum VerifyError {
    NotValidFS,
    ValidFSErrors,
    MiscError(MiscError),
}

/// A [`VerifyError`] as sequences.
pub enum VerifyErrorView {
    NotValidFS,
    ValidFSErrors,
    MiscError(MiscErrorView),
}

impl View for VerifyError {
    type V = VerifyErrorView;

    open spec fn view(&self) -> VerifyErrorView {
        match *self {
            VerifyError::NotValidFS => VerifyErrorView::NotValidFS,
            VerifyError::ValidFSErrors => VerifyErrorView::ValidFSErrors,
            VerifyError::MiscError(e) => VerifyErrorView::MiscError(e@),
        }
    }
}

/// The outcome of a verification as mathematical values.
pub type VerdictView = Result<SuperblockView, VerifyErrorView>;

pub open spec fn verdict_view(r: Result<Superblock, VerifyError>) -> VerdictView {
    match r {
        Ok(sb) => Ok(sb@),
        Err(e) => Err(e@),
    }
}

/// Where a verification stands: what is to be done next, or its outcome.
#[derive(Debug)]
pub enum Verification {
    /// Read the superblock of the filesystem at byte `offset`.
    ReadHeader { offset: u64 },
    /// Attach a loop device to the file from byte `offset` on.
    Attach { offset: u64, header: Vec<u8> },
    /// Run `e2fsck` on the loop device, or on the file if there is none.
    Check { device: Option<LoopDevice>, header: Vec<u8> },
    /// Detach the loop device; the outcome is certain.
    Detach { device: LoopDevice, verdict: Result<Superblock, VerifyError> },
    Done(Result<Superblock, VerifyError>),
}

/// A [`Verification`] as mathematical values.
pub enum VerificationView {
    ReadHeader { offset: nat },
    Attach { offset: nat, header: Seq<u8> },
    Check { device: Option<Seq<u8>>, header: Seq<u8> },
    Detach { device: Seq<u8>, verdict: VerdictView },
    Done(VerdictView),
}

impl View for Verification {
    type V = VerificationView;

    open spec fn view(&self) -> VerificationView {
        match *self {
            Verification::ReadHeader { offset } => VerificationView::ReadHeader {
                offset: offset as nat,
            },
            Verification::Attach { offset, header } => VerificationView::Attach {
                offset: offset as nat,
                header: header@,
            },
            Verification::Check { device, header } => VerificationView::Check {
                device: match device {
                    Some(d) => Some(d@),
                    None => None,
                },
                header: header@,
            },
            Verification::Detach { device, verdict } => VerificationView::Detach {
                device: device@,
                verdict: verdict_view(verdict),
            },
            Verification::Done(r) => VerificationView::Done(verdict_view(r)),
        }
    }
}

/// What came of the step that a verification asked for.
#[derive(Debug)]
pub enum VerifyEvent {
    SeekFailed,
    ReadFailed,
    HeaderRead(Vec<u8>),
    AttachNotRun,
    AttachRan(CommandOutput),
    CheckNotRun,
    CheckRan(CommandOutput),
    DetachNotRun,
    DetachRan(CommandOutput),
}

/// A [`VerifyEvent`] as mathematical values.
pub enum VerifyEventView {
    SeekFailed,
    ReadFailed,
    HeaderRead(Seq<u8>),
    AttachNotRun,
    AttachRan(CommandOutputView),
    CheckNotRun,
    CheckRan(CommandOutputView),
    DetachNotRun,
    DetachRan(CommandOutputView),
}

impl View for VerifyEvent {
    type V = VerifyEventView;

    open spec fn view(&self) -> VerifyEventView {
        match *self {
            VerifyEvent::SeekFailed => VerifyEventView::SeekFailed,
            VerifyEvent::ReadFailed => VerifyEventView::ReadFailed,
            VerifyEvent::HeaderRead(h) => VerifyEventView::HeaderRead(h@),
            VerifyEvent::AttachNotRun => VerifyEventView::AttachNotRun,
            VerifyEvent::AttachRan(o) => VerifyEventView::AttachRan(o@),
            VerifyEvent::CheckNotRun => VerifyEventView::CheckNotRun,
            VerifyEvent::CheckRan(o) => VerifyEventView::CheckRan(o@),
            VerifyEvent::DetachNotRun => VerifyEventView::DetachNotRun,
            VerifyEvent::DetachRan(o) => VerifyEventView::DetachRan(o@),
        }
    }
}

/// Whether the bytes of a superblock look like those of an ext filesystem: the
/// magic number is there, the block size is in range, and there are inodes.
pub open spec fn is_plausible(header: Seq<u8>) -> bool {
    &&& header[56] == 0x53
    &&& header[57] == 0xef
    &&& log_block_size(header) <= MAX_LOG_BLOCK_SIZE
    &&& inodes_count(header) != 0
}

/// Whether `needle` occurs in `haystack`.
pub open spec fn contains(haystack: Seq<u8>, needle: Seq<u8>) -> bool {
    exists|i: int|
        0 <= i && i + needle.len() <= haystack.len() && #[trigger] haystack.subrange(
            i,
            i + needle.len(),
        ) == needle
}

/// What `e2fsck` prints where there is no filesystem.
pub open spec fn no_superblock_text() -> Seq<u8> {
    encode_utf8("The superblock could not be read or does not"@)
}

/// What the outcome of `e2fsck` says of a filesystem with a plausible
/// superblock.
pub open spec fn check_verdict(header: Seq<u8>, output: CommandOutputView) -> VerdictView {
    if output.success {
        Ok(superblock_of(header))
    } else if contains(output.stdout, no_superblock_text()) {
        Err(VerifyErrorView::NotValidFS)
    } else {
        Err(VerifyErrorView::ValidFSErrors)
    }
}

impl VerificationView {
    /// Whether `event` can come of the step that is asked for.
    pub open spec fn expects(self, event: VerifyEventView) -> bool {
        match self {
            VerificationView::ReadHeader { .. } => match event {
                VerifyEventView::SeekFailed | VerifyEventView::ReadFailed => true,
                VerifyEventView::HeaderRead(h) => h.len() == SUPERBLOCK_SIZE,
                _ => false,
            },
            VerificationView::Attach { .. } => event is AttachNotRun || event is AttachRan,
            VerificationView::Check { .. } => event is CheckNotRun || event is CheckRan,
            VerificationView::Detach { .. } => event is DetachNotRun || event is DetachRan,
            VerificationView::Done(_) => false,
        }
    }

    /// Whether a superblock that has been read is whole and plausible.
    pub open spec fn is_consistent(self) -> bool {
        match self {
            VerificationView::Attach { header, .. } => is_parsable(header) && is_plausible(header),
            VerificationView::Check { header, .. } => is_parsable(header) && is_plausible(header),
            _ => true,
        }
    }

    /// Where the verification stands after `event`.
    pub open spec fn after(self, event: VerifyEventView) -> VerificationView {
        match (self, event) {
            (
                VerificationView::ReadHeader { offset },
                VerifyEventView::HeaderRead(header),
            ) => if !is_plausible(header) {
                VerificationView::Done(Err(VerifyErrorView::NotValidFS))
            } else if offset == 0 {
                VerificationView::Check { device: None, header }
            } else {
                VerificationView::Attach { offset, header }
            },
            (VerificationView::ReadHeader { .. }, VerifyEventView::SeekFailed) => misc_failure(
                MiscErrorView::Seek,
            ),
            (VerificationView::ReadHeader { .. }, _) => misc_failure(MiscErrorView::Read),
            (
                VerificationView::Attach { header, .. },
                VerifyEventView::AttachRan(output),
            ) => match attached_device(output) {
                Ok(device) => VerificationView::Check { device: Some(device), header },
                Err(e) => misc_failure(MiscErrorView::Attach(e)),
            },
            (VerificationView::Attach { .. }, _) => misc_failure(
                MiscErrorView::Attach(AttachErrorView::NotRun),
            ),
            (
                VerificationView::Check { device, header },
                VerifyEventView::CheckRan(output),
            ) => concluded(device, check_verdict(header, output)),
            (VerificationView::Check { device, .. }, _) => concluded(
                device,
                Err(VerifyErrorView::MiscError(MiscErrorView::RunFsck)),
            ),
            (VerificationView::Detach { verdict, .. }, _) => VerificationView::Done(verdict),
            (VerificationView::Done(r), _) => VerificationView::Done(r),
        }
    }

    /// The command that is asked for, for a filesystem in `file`.
    pub open spec fn command_line(self, file: Seq<u8>) -> Option<CommandLineView> {
        match self {
            VerificationView::Attach { offset, .. } => Some(attach_command_line(file, offset)),
            VerificationView::Check { device: Some(d), .. } => Some(check_command_line(d)),
            VerificationView::Check { device: None, .. } => Some(check_command_line(file)),
            VerificationView::Detach { device, .. } => Some(detach_command_line(device)),
            _ => None,
        }
    }

    /// The loop device that is attached.
    pub open spec fn device(self) -> Option<Seq<u8>> {
        match self {
            VerificationView::Check { device, .. } => device,
            VerificationView::Detach { device, .. } => Some(device),
            _ => None,
        }
    }
}

/// Where a verification stands once its outcome is certain: a loop device is
/// still to be detached.
pub open spec fn concluded(device: Option<Seq<u8>>, verdict: VerdictView) -> VerificationView {
    match device {
        Some(d) => VerificationView::Detach { device: d, verdict },
        None => VerificationView::Done(verdict),
    }
}

pub open spec fn misc_failure(e: MiscErrorView) -> VerificationView {
    VerificationView::Done(Err(VerifyErrorView::MiscError(e)))
}

/// `bstr::ByteSlice::contains_str`: whether the bytes of `needle` occur, one
/// after the other, in those of `haystack`.
#[verifier::external_body]
fn contains_str(haystack: &[u8], needle: &[u8]) -> (r: bool)
    ensures
        r == contains(haystack@, needle@),
{
    haystack.contains_str(needle)
}

/// What the finished `e2fsck` says of a filesystem with the superblock `header`.
pub fn judge_check(header: &[u8], output: &CommandOutput) -> (r: Result<Superblock, VerifyError>)
    requires
        is_parsable(header@),
    ensures
        verdict_view(r) == check_verdict(header@, output@),
{
    if output.success {
        Ok(Superblock::parse(header))
    } else {
        let needle = "The superblock could not be read or does not".as_bytes();
        if contains_str(output.stdout.as_slice(), needle) {
            Err(VerifyError::NotValidFS)
        } else {
            Err(VerifyError::ValidFSErrors)
        }
    }
}

fn looks_like_superblock(header: &[u8]) -> (r: bool)
    requires
        header.len() == SUPERBLOCK_SIZE,
    ensures
        r == is_plausible(header@),
{
    header[56] == 0x53 && header[57] == 0xef && read_le32(header, 24) <= MAX_LOG_BLOCK_SIZE
        && read_le32(header, 0) != 0
}

/// Where the superblock of the filesystem at byte `offset` lies.
pub fn header_position(offset: u64) -> (r: u64)
    requires
        offset + 1024 <= u64::MAX,
    ensures
        r == offset + 1024,
{
    offset + 1024
}

impl Verification {
    /// The verification of the filesystem at byte `offset`.
    pub fn start(offset: u64) -> (r: Self)
        ensures
            r@ == (VerificationView::ReadHeader { offset: offset as nat }),
            r@.is_consistent(),
    {
        Verification::ReadHeader { offset }
    }

    /// Where the verification stands after `event`.
    pub fn step(self, event: VerifyEvent) -> (r: Self)
        requires
            self@.is_consistent(),
            self@.expects(event@),
        ensures
            r@ == self@.after(event@),
            r@.is_consistent(),
    {
        match self {
            Verification::ReadHeader { offset } => match event {
                VerifyEvent::HeaderRead(header) => {
                    if !looks_like_superblock(header.as_slice()) {
                        Verification::Done(Err(VerifyError::NotValidFS))
                    } else if offset == 0 {
                        Verification::Check { device: None, header }
                    } else {
                        Verification::Attach { offset, header }
                    }
                },
                VerifyEvent::SeekFailed => Verification::Done(
                    Err(VerifyError::MiscError(MiscError::Seek)),
                ),
                _ => Verification::Done(Err(VerifyError::MiscError(MiscError::Read))),
            },
            Verification::Attach { offset: _, header } => match event {
                VerifyEvent::AttachRan(output) => match LoopDevice::new(output) {
                    Ok(device) => Verification::Check { device: Some(device), header },
                    Err(e) => Verification::Done(
                        Err(VerifyError::MiscError(MiscError::Attach(e))),
                    ),
                },
                _ => Verification::Done(
                    Err(VerifyError::MiscError(MiscError::Attach(AttachError::NotRun))),
                ),
            },
            Verification::Check { device, header } => {
                let verdict = match event {
                    VerifyEvent::CheckRan(output) => judge_check(header.as_slice(), &output),
                    _ => Err(VerifyError::MiscError(MiscError::RunFsck)),
                };
                match device {
                    Some(device) => Verification::Detach { device, verdict },
                    None => Verification::Done(verdict),
                }
            },
            Verification::Detach { device: _, verdict } => Verification::Done(verdict),
            Verification::Done(r) => Verification::Done(r),
        }
    }

    /// The command that is asked for, for a filesystem in `file`; `None` where
    /// it is the file that is to be read, or nothing.
    pub fn command(&self, file: &[u8]) -> (r: Option<CommandLine>)
        ensures
            match r {
                Some(c) => self@.command_line(file@) == Some(c@),
                None => self@.command_line(file@) is None,
            },
    {
        match self {
            Verification::Attach { offset, header: _ } => Some(attach_command(file, *offset)),
            Verification::Check { device, header: _ } => match device {
                Some(d) => Some(check_command(d.path())),
                None => Some(check_command(file)),
            },
            Verification::Detach { device, verdict: _ } => Some(device.detach()),
            _ => None,
        }
    }
}

/// A superblock is found worth a check by `e2fsck` exactly if it has the magic
/// number at byte 56, a number of at most six at byte 24, lowest byte first, and
/// bytes other than zero among the first four. The check then follows, on a
/// loop device unless the filesystem begins with its file; else there is no
/// filesystem.
pub proof fn lemma_header_decides(offset: nat, header: Seq<u8>)
    requires
        header.len() == 1024,
    ensures
        ({
            let start = VerificationView::ReadHeader { offset };
            let next = start.after(VerifyEventView::HeaderRead(header));
            let magic = header[56] == 0x53 && header[57] == 0xef;
            let small = header[24] <= 6 && header[25] == 0 && header[26] == 0 && header[27] == 0;
            let inodes = header[0] != 0 || header[1] != 0 || header[2] != 0 || header[3] != 0;
            &&& start.expects(VerifyEventView::HeaderRead(header))
            &&& magic && small && inodes && offset == 0 ==> next == (VerificationView::Check {
                device: None,
                header,
            })
            &&& magic && small && inodes && offset != 0 ==> next == (VerificationView::Attach {
                offset,
                header,
            })
            &&& !(magic && small && inodes) ==> next == VerificationView::Done(
                Err(VerifyErrorView::NotValidFS),
            )
        }),
{
}

/// The kind of a failure is that of the step that failed.
pub proof fn lemma_failures(
    offset: nat,
    header: Seq<u8>,
    device: Seq<u8>,
    output: CommandOutputView,
)
    ensures
        ({
            let start = VerificationView::ReadHeader { offset };
            let attach = VerificationView::Attach { offset, header };
            let here = VerificationView::Check { device: None, header };
            let there = VerificationView::Check { device: Some(device), header };
            let not_run = Err::<SuperblockView, VerifyErrorView>(
                VerifyErrorView::MiscError(MiscErrorView::RunFsck),
            );
            &&& start.expects(VerifyEventView::SeekFailed)
            &&& start.expects(VerifyEventView::ReadFailed)
            &&& attach.expects(VerifyEventView::AttachNotRun)
            &&& attach.expects(VerifyEventView::AttachRan(output))
            &&& here.expects(VerifyEventView::CheckNotRun)
            &&& there.expects(VerifyEventView::CheckNotRun)
            &&& start.after(VerifyEventView::SeekFailed) == VerificationView::Done(
                Err(VerifyErrorView::MiscError(MiscErrorView::Seek)),
            )
            &&& start.after(VerifyEventView::ReadFailed) == VerificationView::Done(
                Err(VerifyErrorView::MiscError(MiscErrorView::Read)),
            )
            &&& attach.after(VerifyEventView::AttachNotRun) == VerificationView::Done(
                Err(VerifyErrorView::MiscError(MiscErrorView::Attach(AttachErrorView::NotRun))),
            )
            &&& !output.success ==> attach.after(VerifyEventView::AttachRan(output))
                == VerificationView::Done(
                Err(
                    VerifyErrorView::MiscError(
                        MiscErrorView::Attach(AttachErrorView::Refused { stderr: output.stderr }),
                    ),
                ),
            )
            &&& output.success ==> attach.after(VerifyEventView::AttachRan(output)) == (
            VerificationView::Check { device: Some(trimmed(output.stdout)), header })
            &&& here.after(VerifyEventView::CheckNotRun) == VerificationView::Done(not_run)
            &&& there.after(VerifyEventView::CheckNotRun) == (VerificationView::Detach {
                device,
                verdict: not_run,
            })
        }),
{
}

/// Where `e2fsck` succeeds, the filesystem is what its superblock says; where it
/// fails, there is none if it says so anywhere in what it prints, and else one
/// with errors. A loop device is then still to be detached, and the outcome
/// stays.
pub proof fn lemma_check_decides(device: Option<Seq<u8>>, header: Seq<u8>, output: CommandOutputView)
    ensures
        ({
            let check = VerificationView::Check { device, header };
            let next = check.after(VerifyEventView::CheckRan(output));
            let words = encode_utf8("The superblock could not be read or does not"@);
            let says_none = exists|at: int|
                0 <= at && at + words.len() <= output.stdout.len()
                    && #[trigger] output.stdout.subrange(at, at + words.len()) == words;
            let verdict: VerdictView = if output.success {
                Ok(superblock_of(header))
            } else if says_none {
                Err(VerifyErrorView::NotValidFS)
            } else {
                Err(VerifyErrorView::ValidFSErrors)
            };
            &&& check.expects(VerifyEventView::CheckRan(output))
            &&& device is None ==> next == VerificationView::Done(verdict)
            &&& device is Some ==> {
                &&& next == (VerificationView::Detach { device: device->0, verdict })
                &&& next.expects(VerifyEventView::DetachNotRun)
                &&& next.expects(VerifyEventView::DetachRan(output))
                &&& next.after(VerifyEventView::DetachNotRun) == VerificationView::Done(verdict)
                &&& next.after(VerifyEventView::DetachRan(output)) == VerificationView::Done(
                    verdict,
                )
            }
        }),
{
}

/// The commands of a verification: attaching at the byte where the filesystem
/// begins, checking the device or else the file, detaching the device; none
/// while the superblock is to be read, and none once all is done.
pub proof fn lemma_verification_commands(
    file: Seq<u8>,
    offset: nat,
    header: Seq<u8>,
    device: Seq<u8>,
    verdict: VerdictView,
)
    ensures
        (VerificationView::ReadHeader { offset }).command_line(file) is None,
        (VerificationView::Attach { offset, header }).command_line(file) == Some(
            attach_command_line(file, offset),
        ),
        (VerificationView::Check { device: None, header }).command_line(file) == Some(
            check_command_line(file),
        ),
        (VerificationView::Check { device: Some(device), header }).command_line(file) == Some(
            check_command_line(device),
        ),
        (VerificationView::Detach { device, verdict }).command_line(file) == Some(
            detach_command_line(device),
        ),
        VerificationView::Done(verdict).command_line(file) is None,
{
}

/// A verification starts with the superblock, which is read 1024 bytes behind
/// the filesystem's first byte; its calls do what is stated of it.
pub proof fn lemma_verification_calls(
    offset: u64,
    position: u64,
    started: Verification,
    v: Verification,
    event: VerifyEvent,
    next: Verification,
)
    ensures
        offset + 1024 <= u64::MAX ==> call_requires(header_position, (offset,)),
        call_ensures(header_position, (offset,), position) ==> position == offset + 1024,
        call_ensures(Verification::start, (offset,), started) ==> started@ == (
        VerificationView::ReadHeader { offset: offset as nat }) && started@.is_consistent(),
        v@.is_consistent() && v@.expects(event@) ==> call_requires(Verification::step, (v, event)),
        call_ensures(Verification::step, (v, event), next) ==> next@ == v@.after(event@)
            && next@.is_consistent(),
{
}

/// A verification and what comes of its steps are as sequences what they are as
/// values.
pub proof fn lemma_verification_views(
    offset: u64,
    header: Vec<u8>,
    device: LoopDevice,
    output: CommandOutput,
    sb: Superblock,
    e: VerifyError,
)
    ensures
        (Verification::ReadHeader { offset })@ == (VerificationView::ReadHeader {
            offset: offset as nat,
        }),
        (Verification::Attach { offset, header })@ == (VerificationView::Attach {
            offset: offset as nat,
            header: header@,
        }),
        (Verification::Check { device: None, header })@ == (VerificationView::Check {
            device: None,
            header: header@,
        }),
        (Verification::Check { device: Some(device), header })@ == (VerificationView::Check {
            device: Some(device@),
            header: header@,
        }),
        (Verification::Detach { device, verdict: Ok(sb) })@ == (VerificationView::Detach {
            device: device@,
            verdict: Ok(sb@),
        }),
        (Verification::Detach { device, verdict: Err(e) })@ == (VerificationView::Detach {
            device: device@,
            verdict: Err(e@),
        }),
        Verification::Done(Ok(sb))@ == VerificationView::Done(Ok(sb@)),
        Verification::Done(Err(e))@ == VerificationView::Done(Err(e@)),
        e is NotValidFS <==> e@ is NotValidFS,
        e is ValidFSErrors <==> e@ is ValidFSErrors,
        VerifyEvent::SeekFailed@ is SeekFailed,
        VerifyEvent::ReadFailed@ is ReadFailed,
        VerifyEvent::HeaderRead(header)@ == VerifyEventView::HeaderRead(header@),
        VerifyEvent::AttachNotRun@ is AttachNotRun,
        VerifyEvent::AttachRan(output)@ == VerifyEventView::AttachRan(output@),
        VerifyEvent::CheckNotRun@ is CheckNotRun,
        VerifyEvent::CheckRan(output)@ == VerifyEventView::CheckRan(output@),
        VerifyEvent::DetachNotRun@ is DetachNotRun,
        VerifyEvent::DetachRan(output)@ == VerifyEventView::DetachRan(output@),
{
}

/// Other calls of a verification: the command asked for, the device that
/// `losetup` reported, its path and its detaching, whitespace cut off, and the
/// verdict on a finished `e2fsck`.
pub proof fn lemma_device_calls(
    v: Verification,
    path: &[u8],
    line: Option<CommandLine>,
    output: CommandOutput,
    made: Result<LoopDevice, AttachError>,
    device: LoopDevice,
    cut: &[u8],
    detach: CommandLine,
    verdict: Result<Superblock, VerifyError>,
)
    ensures
        call_ensures(Verification::command, (&v, path), line) ==> match v@.command_line(path@) {
            Some(c) => line matches Some(l) && l@ == c,
            None => line is None,
        },
        call_ensures(LoopDevice::new, (output,), made) ==> {
            &&& made is Ok <==> output.success
            &&& made matches Ok(d) ==> d@ == trimmed(output.stdout@)
            &&& made matches Err(e) ==> (e matches AttachError::Refused { stderr } && stderr@
                == output.stderr@)
        },
        call_ensures(LoopDevice::path, (&device,), cut) ==> cut@ == device@,
        call_ensures(LoopDevice::detach, (&device,), detach) ==> detach@ == detach_command_line(
            device@,
        ),
        call_ensures(trim_bytes, (path,), cut) ==> cut@ == trimmed(path@),
        call_ensures(judge_check, (path, &output), verdict) ==> verdict_view(verdict)
            == check_verdict(path@, output@),
{
}

/// What is said of any other failure depends on its kind alone.
pub proof fn lemma_failure_words(e: AttachError)
    ensures
        MiscError::Seek.spec_message() == "could not seek fs file"@,
        MiscError::Read.spec_message() == "could not read fs file"@,
        MiscError::Attach(e).spec_message() == "could not create loop device"@,
        MiscError::RunFsck.spec_message() == "failed to run e2fsck"@,
{
}

/// Where a verification stands after `events`.
pub open spec fn after_events(v: VerificationView, events: Seq<VerifyEventView>) -> VerificationView
    decreases events.len(),
{
    if events.len() == 0 {
        v
    } else {
        after_events(v.after(events[0]), events.drop_first())
    }
}

/// Whether each of `events` can come of the step that is asked for when it
/// comes.
pub open spec fn can_happen(v: VerificationView, events: Seq<VerifyEventView>) -> bool
    decreases events.len(),
{
    events.len() == 0 || (v.expects(events[0]) && can_happen(
        v.after(events[0]),
        events.drop_first(),
    ))
}

/// Whether `events` are those of a verification that finds `sb` at byte
/// `offset`: a plausible superblock is read, a loop device is attached unless
/// the filesystem begins with its file, `e2fsck` succeeds, and the loop device
/// is detached again, or cannot be.
pub open spec fn confirms(
    offset: nat,
    events: Seq<VerifyEventView>,
    sb: SuperblockView,
) -> bool {
    &&& events.len() == if offset == 0 {
        2nat
    } else {
        4nat
    }
    &&& events[0] matches VerifyEventView::HeaderRead(h) && is_plausible(h) && sb == superblock_of(h)
    &&& if offset == 0 {
        events[1] matches VerifyEventView::CheckRan(o) && o.success
    } else {
        &&& events[1] matches VerifyEventView::AttachRan(o) && o.success
        &&& events[2] matches VerifyEventView::CheckRan(o) && o.success
        &&& events[3] is DetachRan || events[3] is DetachNotRun
    }
}

/// A filesystem is accepted exactly after both stages have passed: the look at
/// its superblock, and `e2fsck`.
pub proof fn lemma_accepted_iff_confirmed(
    offset: nat,
    events: Seq<VerifyEventView>,
    sb: SuperblockView,
)
    requires
        can_happen(VerificationView::ReadHeader { offset }, events),
    ensures
        after_events(VerificationView::ReadHeader { offset }, events) == VerificationView::Done(
            Ok::<SuperblockView, VerifyErrorView>(sb),
        ) <==> confirms(offset, events, sb),
{
    lemma_four_events(offset, events);
    reveal_with_fuel(after_events, 5);
    reveal_with_fuel(can_happen, 5);
    if events.len() > 1 {
        let e1 = events.drop_first();
        assert(e1[0] == events[1]);
        if events.len() > 2 {
            let e2 = e1.drop_first();
            assert(e2[0] == events[2]);
            if events.len() > 3 {
                let e3 = e2.drop_first();
                assert(e3[0] == events[3]);
                assert(e3.drop_first().len() == 0);
            } else {
                assert(e2.drop_first().len() == 0);
            }
        } else {
            assert(e1.drop_first().len() == 0);
        }
    }
}

/// A verification takes at most four steps.
pub proof fn lemma_four_events(offset: nat, events: Seq<VerifyEventView>)
    requires
        can_happen(VerificationView::ReadHeader { offset }, events),
    ensures
        events.len() <= 4,
{
    reveal_with_fuel(can_happen, 6);
    if events.len() > 4 {
        let e1 = events.drop_first();
        let e2 = e1.drop_first();
        let e3 = e2.drop_first();
        let e4 = e3.drop_first();
        assert(e4.len() > 0);
    }
}

/// A loop device is detached before the verification ends, whatever its
/// outcome: a verification with one attached asks for `e2fsck` on it and then
/// for its detaching, and only then is done; whether the detaching succeeds
/// does not change the outcome.
pub proof fn lemma_device_is_detached(
    v: VerificationView,
    event: VerifyEventView,
    file: Seq<u8>,
)
    requires
        v.expects(event),
    ensures
        v.device() is Some ==> v is Check || v is Detach,
        v is Check && v.device() is Some ==> {
            &&& v.command_line(file) == Some(check_command_line(v.device()->0))
            &&& v.after(event) is Detach
            &&& v.after(event).device() == v.device()
        },
        v matches VerificationView::Detach { device, verdict } ==> {
            &&& v.command_line(file) == Some(detach_command_line(device))
            &&& v.after(event) == VerificationView::Done(verdict)
        },
        v.after(event) is Done ==> v is Detach || (v.device() is None && !(event matches
            VerifyEventView::AttachRan(o) && o.success)),
{
}

/// A verification that attached a loop device and is done has taken all four
/// steps, the last of them the detaching of that device.
pub proof fn lemma_done_after_detaching(
    offset: nat,
    events: Seq<VerifyEventView>,
    file: Seq<u8>,
)
    requires
        can_happen(VerificationView::ReadHeader { offset }, events),
        after_events(VerificationView::ReadHeader { offset }, events) is Done,
        events.len() > 1,
        events[1] matches VerifyEventView::AttachRan(o) && o.success,
    ensures
        events.len() == 4,
        after_events(VerificationView::ReadHeader { offset }, events.take(3)).command_line(file)
            == Some(detach_command_line(trimmed(events[1]->AttachRan_0.stdout))),
{
    lemma_four_events(offset, events);
    reveal_with_fuel(after_events, 5);
    reveal_with_fuel(can_happen, 5);
    let e1 = events.drop_first();
    assert(e1[0] == events[1]);
    if events.len() > 2 {
        let e2 = e1.drop_first();
        assert(e2[0] == events[2]);
        if events.len() > 3 {
            let t = events.take(3);
            assert(t.drop_first()[0] == events[1]);
            assert(t.drop_first().drop_first()[0] == events[2]);
            assert(t.drop_first().drop_first().drop_first().len() == 0);
        } else {
            assert(e2.drop_first().len() == 0);
        }
    } else {
        assert(e1.drop_first().len() == 0);
    }
}

/// Where a loop device is attached, it is attached at the filesystem's first
/// byte, and `e2fsck` runs on the device that `losetup` names.
pub proof fn lemma_check_runs_on_attached_device(
    offset: nat,
    header: Seq<u8>,
    output: CommandOutputView,
    file: Seq<u8>,
)
    requires
        offset != 0,
        is_plausible(header),
        output.success,
    ensures
        ({
            let read = VerificationView::ReadHeader { offset }.after(
                VerifyEventView::HeaderRead(header),
            );
            let attached = read.after(VerifyEventView::AttachRan(output));
            &&& read.command_line(file) == Some(attach_command_line(file, offset))
            &&& attached.command_line(file) == Some(check_command_line(trimmed(output.stdout)))
        }),
{
}

/// Why a search found no usable filesystem: there is none, the first one has
/// errors, or something else went wrong.
#[derive(Debug)]
pub enum SearchError {
    NotFound,
    FoundErrors(u64),
    MiscError(MiscError),
}

/// A [`SearchError`] as mathematical values.
pub enum SearchErrorView {
    NotFound,
    FoundErrors(nat),
    MiscError(MiscErrorView),
}

impl View for SearchError {
    type V = SearchErrorView;

    open spec fn view(&self) -> SearchErrorView {
        match *self {
            SearchError::NotFound => SearchErrorView::NotFound,
            SearchError::FoundErrors(offset) => SearchErrorView::FoundErrors(offset as nat),
            SearchError::MiscError(e) => SearchErrorView::MiscError(e@),
        }
    }
}

/// The outcome of a search as mathematical values.
pub type FindingView = Result<(nat, SuperblockView), SearchErrorView>;

pub open spec fn finding_view(r: Result<(u64, Superblock), SearchError>) -> FindingView {
    match r {
        Ok((offset, sb)) => Ok((offset as nat, sb@)),
        Err(e) => Err(e@),
    }
}

/// Where a search stands.
#[derive(Debug)]
pub enum Search {
    /// Verify the next place; `index` places have been verified, of `loops`.
    Probe { loops: u64, index: u64 },
    Done(Result<(u64, Superblock), SearchError>),
}

/// A [`Search`] as mathematical values.
pub enum SearchView {
    Probe { loops: nat, index: nat },
    Done(FindingView),
}

impl View for Search {
    type V = SearchView;

    open spec fn view(&self) -> SearchView {
        match *self {
            Search::Probe { loops, index } => SearchView::Probe {
                loops: loops as nat,
                index: index as nat,
            },
            Search::Done(r) => SearchView::Done(finding_view(r)),
        }
    }
}

/// The number of sectors at which the smallest filesystem fits into a file of
/// `f_size` bytes.
pub open spec fn places(f_size: nat) -> nat {
    if f_size < MIN_FS_SIZE {
        0
    } else {
        ((f_size - MIN_FS_SIZE) / 512 + 1) as nat
    }
}

/// The byte that is verified after `index` others: one sector after the other,
/// from the first of the file on.
pub open spec fn probe_offset(index: nat) -> nat {
    index * 512
}

/// What a search ends with if it ends at byte `offset` with `verdict`.
pub open spec fn finding(offset: nat, verdict: VerdictView) -> FindingView {
    match verdict {
        Ok(sb) => Ok((offset, sb)),
        Err(VerifyErrorView::NotValidFS) => Err(SearchErrorView::NotFound),
        Err(VerifyErrorView::ValidFSErrors) => Err(SearchErrorView::FoundErrors(offset)),
        Err(VerifyErrorView::MiscError(e)) => Err(SearchErrorView::MiscError(e)),
    }
}

pub open spec fn is_not_valid(verdict: VerdictView) -> bool {
    verdict matches Err(e) && e is NotValidFS
}

impl SearchView {
    /// Where the search stands after the place that it asked for got `verdict`:
    /// it goes on only where there is no filesystem, and while there are places
    /// left.
    pub open spec fn after(self, verdict: VerdictView) -> SearchView {
        match self {
            SearchView::Probe { loops, index } => if is_not_valid(verdict) && index + 1 < loops {
                SearchView::Probe { loops, index: index + 1 }
            } else {
                SearchView::Done(finding(probe_offset(index), verdict))
            },
            SearchView::Done(r) => SearchView::Done(r),
        }
    }

    /// Whether a search can come to stand here.
    pub open spec fn is_consistent(self) -> bool {
        match self {
            SearchView::Probe { loops, index } => {
                &&& loops <= places(u64::MAX as nat)
                &&& index == 0 || index < loops
            },
            SearchView::Done(_) => true,
        }
    }
}

impl Search {
    /// The search through a file of `f_size` bytes.
    pub fn start(f_size: u64) -> (r: Self)
        ensures
            r@ == (SearchView::Probe { loops: places(f_size as nat), index: 0 }),
            r@.is_consistent(),
    {
        let loops: u64 = if f_size < MIN_FS_SIZE {
            0
        } else {
            (f_size - MIN_FS_SIZE) / 512 + 1
        };
        Search::Probe { loops, index: 0 }
    }

    /// The byte to verify next; `None` where the search is over.
    pub fn offset(&self) -> (r: Option<u64>)
        requires
            self@.is_consistent(),
        ensures
            match r {
                Some(o) => self@ matches SearchView::Probe { index, .. } && o == probe_offset(index)
                    && o + 1024 <= u64::MAX,
                None => self@ is Done,
            },
    {
        match self {
            Search::Probe { loops: _, index } => Some(*index * 512),
            Search::Done(_) => None,
        }
    }

    /// Where the search stands after the place that it asked for got `verdict`.
    pub fn step(self, verdict: Result<Superblock, VerifyError>) -> (r: Self)
        requires
            self@.is_consistent(),
        ensures
            r@ == self@.after(verdict_view(verdict)),
            r@.is_consistent(),
    {
        match self {
            Search::Probe { loops, index } => {
                let offset: u64 = index * 512;
                match verdict {
                    Ok(sb) => Search::Done(Ok((offset, sb))),
                    Err(VerifyError::NotValidFS) => if index < loops && index + 1 < loops {
                        Search::Probe { loops, index: index + 1 }
                    } else {
                        Search::Done(Err(SearchError::NotFound))
                    },
                    Err(VerifyError::ValidFSErrors) => Search::Done(
                        Err(SearchError::FoundErrors(offset)),
                    ),
                    Err(VerifyError::MiscError(e)) => Search::Done(Err(SearchError::MiscError(e))),
                }
            },
            Search::Done(r) => Search::Done(r),
        }
    }
}

/// What a search ends with if the place verified after `i` others gets the
/// verdict `verdicts(i)`.
pub open spec fn search_result(
    loops: nat,
    index: nat,
    verdicts: spec_fn(nat) -> VerdictView,
) -> FindingView
    decreases loops - index,
{
    match (SearchView::Probe { loops, index }).after(verdicts(index)) {
        SearchView::Done(r) => r,
        SearchView::Probe { loops: all, index: next } => if all == loops && index < next
            <= loops {
            search_result(loops, next, verdicts)
        } else {
            Err(SearchErrorView::NotFound)
        },
    }
}

proof fn lemma_search_from(
    loops: nat,
    index: nat,
    hit: nat,
    verdicts: spec_fn(nat) -> VerdictView,
)
    requires
        index <= hit,
        hit == 0 || hit < loops,
        forall|i: nat| index <= i < hit ==> is_not_valid(#[trigger] verdicts(i)),
        !is_not_valid(verdicts(hit)),
    ensures
        search_result(loops, index, verdicts) == finding(probe_offset(hit), verdicts(hit)),
    decreases hit - index,
{
    if index < hit {
        assert(is_not_valid(verdicts(index)));
        lemma_search_from(loops, index + 1, hit, verdicts);
    }
}

/// A search ends at the first place whose verdict is anything but that there
/// is no filesystem, and reports that verdict.
pub proof fn lemma_search_finds_first(
    f_size: nat,
    hit: nat,
    verdicts: spec_fn(nat) -> VerdictView,
)
    requires
        hit == 0 || hit < places(f_size),
        forall|i: nat| i < hit ==> is_not_valid(#[trigger] verdicts(i)),
        !is_not_valid(verdicts(hit)),
    ensures
        search_result(places(f_size), 0, verdicts) == finding(probe_offset(hit), verdicts(hit)),
{
    lemma_search_from(places(f_size), 0, hit, verdicts);
}

proof fn lemma_search_nothing_from(
    loops: nat,
    index: nat,
    verdicts: spec_fn(nat) -> VerdictView,
)
    requires
        forall|i: nat| i == index || index < i < loops ==> is_not_valid(#[trigger] verdicts(i)),
    ensures
        search_result(loops, index, verdicts) == Err::<(nat, SuperblockView), SearchErrorView>(
            SearchErrorView::NotFound,
        ),
    decreases loops - index,
{
    assert(is_not_valid(verdicts(index)));
    if index + 1 < loops {
        lemma_search_nothing_from(loops, index + 1, verdicts);
    }
}

/// A search finds nothing where no place holds a filesystem.
pub proof fn lemma_search_finds_nothing(f_size: nat, verdicts: spec_fn(nat) -> VerdictView)
    requires
        forall|i: nat| i == 0 || i < places(f_size) ==> is_not_valid(#[trigger] verdicts(i)),
    ensures
        search_result(places(f_size), 0, verdicts) == Err::<(nat, SuperblockView), SearchErrorView>(
            SearchErrorView::NotFound,
        ),
{
    lemma_search_nothing_from(places(f_size), 0, verdicts);
}

/// The places of a search are sectors, and behind each, except perhaps the
/// first of the file, the smallest filesystem fits.
pub proof fn lemma_probes_are_sectors(f_size: nat, index: nat)
    requires
        index == 0 || index < places(f_size),
    ensures
        probe_offset(index) % 512 == 0,
        index > 0 ==> probe_offset(index) + MIN_FS_SIZE <= f_size,
{
}

/// The whole file is searched: every sector behind whose beginning the smallest
/// filesystem fits is a place of the search, the last one included.
pub proof fn lemma_search_covers(f_size: nat, sector: nat)
    requires
        sector * 512 + MIN_FS_SIZE <= f_size,
    ensures
        sector < places(f_size),
        probe_offset(sector) == sector * 512,
{
}

/// A filesystem is found wherever the smallest one fits, if no sector in front
/// of it holds one.
pub proof fn lemma_search_finds_anywhere(
    f_size: nat,
    sector: nat,
    sb: SuperblockView,
    verdicts: spec_fn(nat) -> VerdictView,
)
    requires
        sector * 512 + MIN_FS_SIZE <= f_size,
        forall|i: nat| i < sector ==> is_not_valid(#[trigger] verdicts(i)),
        verdicts(sector) == Ok::<SuperblockView, VerifyErrorView>(sb),
    ensures
        search_result(places(f_size), 0, verdicts) == Ok::<
            (nat, SuperblockView),
            SearchErrorView,
        >((sector * 512, sb)),
{
    lemma_search_covers(f_size, sector);
    lemma_search_finds_first(f_size, sector, verdicts);
}

/// The smallest filesystem takes 128 KiB. A file is searched sector by sector,
/// as long as it could still hold one, and its beginning in any case; the first
/// sector where there is a filesystem, or where that cannot be told, ends the
/// search, and its first byte is reported.
pub proof fn lemma_search_reports(
    f_size: nat,
    sector: nat,
    verdicts: spec_fn(nat) -> VerdictView,
    sb: SuperblockView,
    e: MiscErrorView,
)
    requires
        sector == 0 || sector * 512 + 131072 <= f_size,
        forall|i: nat|
            i < sector ==> #[trigger] verdicts(i) == Err::<SuperblockView, VerifyErrorView>(
                VerifyErrorView::NotValidFS,
            ),
    ensures
        ({
            let r = search_result(places(f_size), 0, verdicts);
            let verdict = verdicts(sector);
            &&& verdict == Ok::<SuperblockView, VerifyErrorView>(sb) ==> r == Ok::<
                (nat, SuperblockView),
                SearchErrorView,
            >((sector * 512, sb))
            &&& verdict == Err::<SuperblockView, VerifyErrorView>(VerifyErrorView::ValidFSErrors)
                ==> r == Err::<(nat, SuperblockView), SearchErrorView>(
                SearchErrorView::FoundErrors(sector * 512),
            )
            &&& verdict == Err::<SuperblockView, VerifyErrorView>(VerifyErrorView::MiscError(e))
                ==> r == Err::<(nat, SuperblockView), SearchErrorView>(
                SearchErrorView::MiscError(e),
            )
        }),
{
    if !is_not_valid(verdicts(sector)) {
        lemma_search_finds_first(f_size, sector, verdicts);
    }
}

/// Nothing is found where there is no filesystem at the beginning and none
/// at any other sector behind which the file has 128 KiB.
pub proof fn lemma_search_ends(f_size: nat, verdicts: spec_fn(nat) -> VerdictView)
    requires
        forall|i: nat|
            i == 0 || i * 512 + 131072 <= f_size ==> #[trigger] verdicts(i) == Err::<
                SuperblockView,
                VerifyErrorView,
            >(VerifyErrorView::NotValidFS),
    ensures
        search_result(places(f_size), 0, verdicts) == Err::<(nat, SuperblockView), SearchErrorView>(
            SearchErrorView::NotFound,
        ),
{
    assert forall|i: nat| i == 0 || i < places(f_size) implies is_not_valid(
        #[trigger] verdicts(i),
    ) by {
        assert(i == 0 || i * 512 + 131072 <= f_size);
    }
    lemma_search_finds_nothing(f_size, verdicts);
}

/// A search that goes on does so at the next sector; the byte that it asks for
/// is that sector's first, and its calls do what is stated of it.
pub proof fn lemma_search_calls(
    f_size: u64,
    started: Search,
    search: Search,
    verdict: Result<Superblock, VerifyError>,
    next: Search,
    byte: Option<u64>,
)
    ensures
        call_ensures(Search::start, (f_size,), started) ==> started@ == (SearchView::Probe {
            loops: places(f_size as nat),
            index: 0,
        }) && started@.is_consistent(),
        search@.is_consistent() ==> call_requires(Search::step, (search, verdict))
            && call_requires(Search::offset, (&search,)),
        call_ensures(Search::step, (search, verdict), next) ==> {
            &&& next@ == search@.after(verdict_view(verdict))
            &&& next@.is_consistent()
            &&& next@ matches SearchView::Probe { loops: l, index: i } ==> {
                &&& search@ matches SearchView::Probe { loops, index }
                &&& l == loops
                &&& i == index + 1
            }
        },
        call_ensures(Search::offset, (&search,), byte) ==> {
            &&& search@ is Done <==> byte is None
            &&& search@ matches SearchView::Probe { index, .. } ==> byte == Some(
                (index * 512) as u64,
            ) && index * 512 <= u64::MAX
        },
{
}

/// A search is as sequences what it is as a value.
pub proof fn lemma_search_views(
    loops: u64,
    index: u64,
    offset: u64,
    sb: Superblock,
    e: MiscError,
)
    ensures
        (Search::Probe { loops, index })@ == (SearchView::Probe {
            loops: loops as nat,
            index: index as nat,
        }),
        Search::Done(Ok((offset, sb)))@ == SearchView::Done(Ok((offset as nat, sb@))),
        Search::Done(Err(SearchError::NotFound))@ == SearchView::Done(
            Err(SearchErrorView::NotFound),
        ),
        Search::Done(Err(SearchError::FoundErrors(offset)))@ == SearchView::Done(
            Err(SearchErrorView::FoundErrors(offset as nat)),
        ),
        Search::Done(Err(SearchError::MiscError(e)))@ == SearchView::Done(
            Err(SearchErrorView::MiscError(e@)),
        ),
{
}

} // verus!
