use bresize2fs::command::{attach_command, detach_command, Arg, CommandLine, CommandOutput};
use bresize2fs::device::{
    header_position, judge_check, trim_bytes, AttachError, LoopDevice, MiscError, Search,
    SearchError, Verification, VerifyError, VerifyEvent,
};
use bresize2fs::fs::superblock::Superblock;

fn header() -> Vec<u8> {
    let mut h = vec![0u8; 1024];
    h[0] = 1;
    h[4] = 200;
    h[24] = 3;
    h[56] = 0x53;
    h[57] = 0xef;
    h
}

fn output(success: bool, stdout: &[u8], stderr: &[u8]) -> CommandOutput {
    CommandOutput { success, stdout: stdout.to_vec(), stderr: stderr.to_vec() }
}

fn words(line: &CommandLine) -> Vec<String> {
    let mut r = vec![line.program.clone()];
    for arg in &line.args {
        r.push(match arg {
            Arg::Text(s) => format!("t:{}", s),
            Arg::Path(p) => format!("p:{}", String::from_utf8(p.clone()).unwrap()),
        });
    }
    r
}

#[test]
fn trims_whitespace_on_both_sides() {
    assert_eq!(trim_bytes(b" \t/dev/loop0\r\n\x0c"), b"/dev/loop0");
    assert_eq!(trim_bytes(b"a b"), b"a b");
    assert_eq!(trim_bytes(b" \n "), b"");
    assert_eq!(trim_bytes(b""), b"");
    // a vertical tab is not ASCII whitespace
    assert_eq!(trim_bytes(b"\x0ba\x0b"), b"\x0ba\x0b");
    assert_eq!(trim_bytes(trim_bytes(b"  x ")), b"x");
}

#[test]
fn whitespace_agrees_with_std() {
    for b in 0..=255u8 {
        assert_eq!(trim_bytes(&[b]).is_empty(), b.is_ascii_whitespace());
    }
}

#[test]
fn loop_device_comes_from_losetup() {
    let d = LoopDevice::new(output(true, b"/dev/loop7\n", b"")).unwrap();
    assert_eq!(d.path(), b"/dev/loop7");
    assert_eq!(words(&d.detach()), ["losetup", "t:-d", "p:/dev/loop7"]);
    match LoopDevice::new(output(false, b"/dev/loop7\n", b"no free device")) {
        Err(AttachError::Refused { stderr }) => assert_eq!(stderr, b"no free device"),
        _ => panic!("a failed losetup attaches nothing"),
    }
}

#[test]
fn losetup_command_lines() {
    assert_eq!(
        words(&attach_command(b"/tmp/disk", 1048576)),
        ["losetup", "t:--find", "t:--show", "t:--offset", "t:1048576", "p:/tmp/disk"]
    );
    assert_eq!(words(&detach_command(b"/dev/loop1")), ["losetup", "t:-d", "p:/dev/loop1"]);
}

#[test]
fn superblock_lies_1024_bytes_in() {
    assert_eq!(header_position(0), 1024);
    assert_eq!(header_position(512), 1536);
}

#[test]
fn filesystem_at_the_beginning_is_checked_in_place() {
    let v = Verification::start(0);
    assert!(v.command(b"/tmp/disk").is_none());
    let v = v.step(VerifyEvent::HeaderRead(header()));
    assert!(matches!(v, Verification::Check { device: None, .. }));
    assert_eq!(words(&v.command(b"/tmp/disk").unwrap()), ["e2fsck", "t:-nf", "p:/tmp/disk"]);
    match v.step(VerifyEvent::CheckRan(output(true, b"", b""))) {
        Verification::Done(Ok(sb)) => {
            assert_eq!(sb.block_size, 8);
            assert_eq!(sb.block_count, 200);
        }
        _ => panic!("a clean filesystem is accepted"),
    }
}

#[test]
fn filesystem_further_in_is_checked_on_a_loop_device() {
    let v = Verification::start(4096).step(VerifyEvent::HeaderRead(header()));
    assert!(matches!(v, Verification::Attach { offset: 4096, .. }));
    assert_eq!(
        words(&v.command(b"/tmp/disk").unwrap()),
        ["losetup", "t:--find", "t:--show", "t:--offset", "t:4096", "p:/tmp/disk"]
    );
    let v = v.step(VerifyEvent::AttachRan(output(true, b"/dev/loop3\n", b"")));
    assert_eq!(words(&v.command(b"/tmp/disk").unwrap()), ["e2fsck", "t:-nf", "p:/dev/loop3"]);
    let v = v.step(VerifyEvent::CheckRan(output(true, b"", b"")));
    assert!(matches!(v, Verification::Detach { verdict: Ok(_), .. }));
    assert_eq!(words(&v.command(b"/tmp/disk").unwrap()), ["losetup", "t:-d", "p:/dev/loop3"]);
    let v = v.step(VerifyEvent::DetachRan(output(true, b"", b"")));
    assert!(matches!(v, Verification::Done(Ok(_))));
    assert!(v.command(b"/tmp/disk").is_none());
}

#[test]
fn loop_device_is_detached_whatever_the_outcome() {
    let attached = || {
        Verification::start(4096)
            .step(VerifyEvent::HeaderRead(header()))
            .step(VerifyEvent::AttachRan(output(true, b"/dev/loop3\n", b"")))
    };
    let no_superblock = b"The superblock could not be read or does not";
    for event in [
        VerifyEvent::CheckRan(output(true, b"", b"")),
        VerifyEvent::CheckRan(output(false, b"", b"")),
        VerifyEvent::CheckRan(output(false, no_superblock, b"")),
        VerifyEvent::CheckNotRun,
    ] {
        let v = attached().step(event);
        assert_eq!(words(&v.command(b"/tmp/disk").unwrap()), ["losetup", "t:-d", "p:/dev/loop3"]);
        assert!(matches!(v.step(VerifyEvent::DetachNotRun), Verification::Done(_)));
    }
    let v = attached().step(VerifyEvent::CheckRan(output(false, b"", b"")));
    assert!(matches!(
        v.step(VerifyEvent::DetachRan(output(false, b"", b""))),
        Verification::Done(Err(VerifyError::ValidFSErrors))
    ));
}

#[test]
fn implausible_superblocks_are_not_valid() {
    for (at, value) in [(56, 0x52), (57, 0xee), (24, 7), (25, 1), (0, 0)] {
        let mut h = header();
        h[at] = value;
        assert!(matches!(
            Verification::start(0).step(VerifyEvent::HeaderRead(h)),
            Verification::Done(Err(VerifyError::NotValidFS))
        ));
    }
    let mut h = header();
    h[24] = 6;
    h[0] = 0;
    h[3] = 1;
    assert!(matches!(
        Verification::start(0).step(VerifyEvent::HeaderRead(h)),
        Verification::Check { .. }
    ));
}

#[test]
fn failures_on_the_way() {
    let done = |v: Verification| match v {
        Verification::Done(Err(VerifyError::MiscError(e))) => e,
        _ => panic!("the verification has failed"),
    };
    let read = || Verification::start(512).step(VerifyEvent::HeaderRead(header()));
    let attached = || read().step(VerifyEvent::AttachRan(output(true, b"/dev/loop0", b"")));
    let e = done(Verification::start(512).step(VerifyEvent::SeekFailed));
    assert!(matches!(e, MiscError::Seek));
    assert_eq!(e.message(), "could not seek fs file");
    let e = done(Verification::start(512).step(VerifyEvent::ReadFailed));
    assert!(matches!(e, MiscError::Read));
    assert_eq!(e.message(), "could not read fs file");
    let e = done(read().step(VerifyEvent::AttachNotRun));
    assert!(matches!(e, MiscError::Attach(AttachError::NotRun)));
    assert_eq!(e.message(), "could not create loop device");
    match done(read().step(VerifyEvent::AttachRan(output(false, b"", b"busy")))) {
        MiscError::Attach(AttachError::Refused { stderr }) => assert_eq!(stderr, b"busy"),
        _ => panic!("losetup has failed"),
    }
    let e = done(
        attached()
            .step(VerifyEvent::CheckNotRun)
            .step(VerifyEvent::DetachRan(output(true, b"", b""))),
    );
    assert!(matches!(e, MiscError::RunFsck));
    assert_eq!(e.message(), "failed to run e2fsck");
}

#[test]
fn fsck_output_tells_errors_from_no_filesystem() {
    let text = b"e2fsck 1.47\nThe superblock could not be read or does not describe a valid ext2";
    assert!(matches!(
        judge_check(&header(), &output(false, text, b"")),
        Err(VerifyError::NotValidFS)
    ));
    assert!(matches!(
        judge_check(&header(), &output(false, b"The superblock could not be read or does no", b"")),
        Err(VerifyError::ValidFSErrors)
    ));
    assert!(matches!(
        judge_check(&header(), &output(false, b"", text)),
        Err(VerifyError::ValidFSErrors)
    ));
    assert!(judge_check(&header(), &output(true, text, b"")).is_ok());
}

fn superblock() -> Superblock {
    Superblock::parse(&header())
}

fn not_valid() -> Result<Superblock, VerifyError> {
    Err(VerifyError::NotValidFS)
}

fn search(f_size: u64, mut verdict: impl FnMut(usize, u64) -> Result<Superblock, VerifyError>) -> (Vec<u64>, Result<(u64, Superblock), SearchError>) {
    let mut state = Search::start(f_size);
    let mut offsets = Vec::new();
    while let Some(offset) = state.offset() {
        offsets.push(offset);
        state = state.step(verdict(offsets.len() - 1, offset));
    }
    match state {
        Search::Done(r) => (offsets, r),
        _ => panic!("the search is over"),
    }
}

#[test]
fn search_goes_sector_by_sector() {
    let (offsets, r) = search(131072 + 512 * 4 + 100, |_, _| not_valid());
    assert_eq!(offsets, [0, 512, 1024, 1536, 2048]);
    assert!(matches!(r, Err(SearchError::NotFound)));
}

#[test]
fn search_in_small_files_looks_at_the_beginning_only() {
    for f_size in [0u64, 1, 131071, 131072, 131583] {
        let (offsets, r) = search(f_size, |_, _| not_valid());
        assert_eq!(offsets, [0], "{}", f_size);
        assert!(matches!(r, Err(SearchError::NotFound)));
    }
}

#[test]
fn search_ends_at_the_first_filesystem() {
    let (offsets, r) = search(1 << 20, |_, offset| {
        if offset >= 1024 { Ok(superblock()) } else { not_valid() }
    });
    assert_eq!(offsets, [0, 512, 1024]);
    assert_eq!(r.unwrap().0, 1024);
    let (offsets, r) = search(0, |_, _| Ok(superblock()));
    assert_eq!(offsets, [0]);
    assert_eq!(r.unwrap().0, 0);
}

#[test]
fn search_ends_at_a_filesystem_with_errors() {
    let (offsets, r) = search(1 << 20, |_, offset| {
        if offset == 512 { Err(VerifyError::ValidFSErrors) } else { not_valid() }
    });
    assert_eq!(offsets, [0, 512]);
    assert!(matches!(r, Err(SearchError::FoundErrors(512))));
}

#[test]
fn search_ends_at_other_errors() {
    let (offsets, r) = search(1 << 20, |i, _| {
        if i == 1 { Err(VerifyError::MiscError(MiscError::Read)) } else { not_valid() }
    });
    assert_eq!(offsets, [0, 512]);
    assert!(matches!(r, Err(SearchError::MiscError(MiscError::Read))));
}

#[test]
fn search_finds_a_filesystem_at_the_last_place() {
    for (f_size, last) in [(131584u64, 512u64), (131072 + 5120 + 511, 5120)] {
        let (offsets, r) = search(f_size, |_, offset| {
            if offset == last { Ok(superblock()) } else { not_valid() }
        });
        assert_eq!(offsets.len() as u64, last / 512 + 1);
        assert_eq!(r.unwrap().0, last);
    }
}
