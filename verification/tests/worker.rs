use bresize2fs::command::{Arg, CommandLine, CommandOutput};
use bresize2fs::device::AttachError;
use bresize2fs::fs::superblock::Superblock;
use bresize2fs::worker::job::{Action, Job, WorkError, WorkEvent};
use bresize2fs::worker::non_optimized::{
    can_extend, can_shrink, do_extend, do_shrink, Chunk, DataMove, MoveError, ResizeTarget, Step,
    CHUNK_SIZE,
};

fn superblock(block_size: u32, block_count: u64) -> Superblock {
    Superblock { block_size, block_count, uuid: String::new() }
}

fn copy_chunk(file: &mut Vec<u8>, c: &Chunk) {
    let (from, to, len) = (c.from as usize, c.to as usize, c.len as usize);
    let data = file[from..from + len].to_vec();
    if file.len() < to + len {
        file.resize(to + len, 0);
    }
    file[to..to + len].copy_from_slice(&data);
}

fn run_move(file: &mut Vec<u8>, from_sec: u64, to_sec: u64, count: u64) -> usize {
    let mut chunks = 0;
    if let Some(mut m) = DataMove::new(from_sec, to_sec, count) {
        assert_eq!(m.total_bytes(), count * 512);
        assert_eq!(m.position(), 0);
        while let Some(c) = m.next_chunk() {
            copy_chunk(file, &c);
            let before = m.position();
            m.advance();
            assert_eq!(m.position(), before + c.len);
            chunks += 1;
        }
        assert_eq!(m.position(), m.total_bytes());
    }
    chunks
}

fn pattern(len: usize) -> Vec<u8> {
    (0..len).map(|i| (i % 251) as u8 ^ (i / 65536) as u8).collect()
}

#[test]
fn idle_moves() {
    assert!(DataMove::new(5, 5, 10).is_none());
    assert!(DataMove::new(5, 6, 0).is_none());
    assert!(DataMove::new(u64::MAX, u64::MAX, u64::MAX).is_none());
}

#[test]
fn chunks_of_a_move_towards_the_end() {
    let mut m = DataMove::new(10, 12, 20000).unwrap();
    let total = 20000 * 512;
    assert_eq!(CHUNK_SIZE, 4 * 1024 * 1024);
    let mut chunks = Vec::new();
    while let Some(c) = m.next_chunk() {
        chunks.push(c);
        m.advance();
    }
    let at = |offset: u64, len: u64| Chunk { from: 5120 + offset, to: 6144 + offset, len };
    assert_eq!(
        chunks,
        [
            at(total - CHUNK_SIZE, CHUNK_SIZE),
            at(total - 2 * CHUNK_SIZE, CHUNK_SIZE),
            at(0, total - 2 * CHUNK_SIZE),
        ]
    );
}

#[test]
fn chunks_of_a_move_towards_the_beginning() {
    let mut m = DataMove::new(12, 10, 20000).unwrap();
    let total = 20000 * 512;
    let mut chunks = Vec::new();
    while let Some(c) = m.next_chunk() {
        chunks.push(c);
        m.advance();
    }
    let at = |offset: u64, len: u64| Chunk { from: 6144 + offset, to: 5120 + offset, len };
    assert_eq!(
        chunks,
        [
            at(0, CHUNK_SIZE),
            at(CHUNK_SIZE, CHUNK_SIZE),
            at(2 * CHUNK_SIZE, total - 2 * CHUNK_SIZE),
        ]
    );
}

#[test]
fn advancing_a_finished_move_changes_nothing() {
    let mut m = DataMove::new(0, 1, 1).unwrap();
    m.advance();
    assert_eq!(m.next_chunk(), None);
    m.advance();
    assert_eq!(m.position(), 512);
    assert_eq!(m.next_chunk(), None);
}

#[test]
fn overlapping_moves_relocate() {
    let original = pattern(20100 * 512);
    for (from, to, count) in [(10u64, 13u64, 20000u64), (13, 10, 20000), (0, 20050, 50), (9000, 0, 9000)] {
        let mut file = original.clone();
        run_move(&mut file, from, to, count);
        let bytes = |sec: u64| (sec * 512) as usize;
        let mut expected = original.clone();
        expected.copy_within(bytes(from)..bytes(from + count), bytes(to));
        assert!(file == expected, "{} {} {}", from, to, count);
    }
}

#[test]
fn moves_beyond_the_end_make_the_file_longer() {
    let original = pattern(20 * 512);
    let mut file = original.clone();
    run_move(&mut file, 4, 30, 16);
    assert_eq!(file.len(), 46 * 512);
    assert_eq!(file[..20 * 512], original[..]);
    assert!(file[20 * 512..30 * 512].iter().all(|b| *b == 0));
    assert_eq!(file[30 * 512..], original[4 * 512..]);
}

#[test]
fn moving_back_restores() {
    let original = pattern(40 * 512);
    let mut file = original.clone();
    run_move(&mut file, 4, 9, 30);
    assert_ne!(file[4 * 512..34 * 512], original[4 * 512..34 * 512]);
    run_move(&mut file, 9, 4, 30);
    assert_eq!(file[4 * 512..34 * 512], original[4 * 512..34 * 512]);
}

#[test]
fn moving_the_beginning_back_restores_it() {
    let original = pattern(40 * 512);
    let mut file = original.clone();
    run_move(&mut file, 4, 9, 30);
    run_move(&mut file, 9, 4, 20);
    assert_eq!(file[4 * 512..24 * 512], original[4 * 512..24 * 512]);
}

#[test]
fn a_stopped_move_changes_its_destination_only() {
    let original = pattern(20100 * 512);
    for (from, to) in [(10usize, 50usize), (50, 10)] {
        for stop in 0..4usize {
            let mut file = original.clone();
            let mut m = DataMove::new(from as u64, to as u64, 20000).unwrap();
            for _ in 0..stop {
                if let Some(c) = m.next_chunk() {
                    copy_chunk(&mut file, &c);
                }
                m.advance();
            }
            assert_eq!(file.len(), original.len());
            assert!(file[..to * 512] == original[..to * 512]);
            assert!(file[(to + 20000) * 512..] == original[(to + 20000) * 512..]);
            let done = m.position() as usize;
            assert_eq!(done, [0, 4194304, 8388608, 10240000][stop]);
            let skipped = if from < to { 20000 * 512 - done } else { 0 };
            let (new, old) = (to * 512 + skipped, from * 512 + skipped);
            assert!(file[new..new + done] == original[old..old + done]);
            while let Some(c) = m.next_chunk() {
                copy_chunk(&mut file, &c);
                m.advance();
            }
            let mut whole = original.clone();
            run_move(&mut whole, from as u64, to as u64, 20000);
            assert!(file == whole);
        }
    }
}

#[test]
fn which_moves_fit() {
    let last = u64::MAX / 512;
    assert!(DataMove::can_move(1, 2, 3));
    assert!(DataMove::can_move(last, last - 1, 1));
    assert!(!DataMove::can_move(last + 1, 1, 1));
    assert!(!DataMove::can_move(1, last + 1, 1));
    assert!(!DataMove::can_move(1, 2, last + 1));
    assert!(DataMove::can_move(last + 1, last + 1, 1));
    assert!(DataMove::can_move(last + 1, 1, 0));
    // chunks of 8192 sectors
    assert!(DataMove::can_move(last - 8192, last - 8191, 16383));
    assert!(!DataMove::can_move(last - 8192, last - 8191, 16384));
    assert!(DataMove::can_move(last - 8191, last - 8192, 8192));
    assert!(DataMove::can_move(last - 8192, last - 8193, 8193));
    assert!(!DataMove::can_move(last - 8191, last - 8192, 8193));
}

#[test]
fn extend_steps() {
    // 1024 blocks of 4 bytes are 8 sectors; 10 / 4 is 2, rounded down
    assert_eq!(
        do_extend(512 * 100, superblock(4, 1024), 10),
        [
            Step::MoveData { from_sec: 100, to_sec: 90, count: 8 },
            Step::AttachLoop { offset: 90 * 512 },
            Step::Resize { target: ResizeTarget::LoopDevice, blocks: 1026 },
        ]
    );
    assert_eq!(
        do_extend(512 * 100, superblock(4, 1024), 100),
        [
            Step::MoveData { from_sec: 100, to_sec: 0, count: 8 },
            Step::Resize { target: ResizeTarget::File, blocks: 1049 },
        ]
    );
    assert_eq!(
        do_extend(512 * 100, superblock(4, 1024), 3),
        [
            Step::MoveData { from_sec: 100, to_sec: 97, count: 8 },
            Step::AttachLoop { offset: 97 * 512 },
        ]
    );
}

#[test]
fn shrink_steps() {
    assert_eq!(
        do_shrink(512 * 100, superblock(4, 1024), 10),
        [
            Step::AttachLoop { offset: 51200 },
            Step::Resize { target: ResizeTarget::LoopDevice, blocks: 1021 },
            Step::MoveData { from_sec: 100, to_sec: 110, count: 8 },
        ]
    );
    assert_eq!(
        do_shrink(0, superblock(4, 1024), 8),
        [
            Step::Resize { target: ResizeTarget::File, blocks: 1022 },
            Step::MoveData { from_sec: 0, to_sec: 8, count: 8 },
        ]
    );
}

#[test]
fn shrink_and_extend_bring_the_data_back() {
    let original = pattern(200 * 512);
    let mut file = original.clone();
    // 16384 blocks of 4 bytes are 128 sectors
    let mut blocks_left = 16384;
    for step in do_shrink(512 * 10, superblock(4, 16384), 7) {
        match step {
            Step::MoveData { from_sec, to_sec, count } => {
                run_move(&mut file, from_sec, to_sec, count);
            }
            Step::Resize { blocks, .. } => blocks_left = blocks,
            Step::AttachLoop { .. } => {}
        }
    }
    // 7 / 4 is 2, rounded up
    assert_eq!(blocks_left, 16382);
    assert_eq!(file.len(), original.len());
    assert_eq!(file[..17 * 512], original[..17 * 512]);
    assert_eq!(file[17 * 512..145 * 512], original[10 * 512..138 * 512]);
    assert_eq!(file[145 * 512..], original[145 * 512..]);

    let shrunk = file.clone();
    let steps = do_extend(512 * 17, superblock(4, blocks_left), 7);
    // 16382 blocks of 4 bytes are 127 whole sectors
    assert_eq!(steps[0], Step::MoveData { from_sec: 17, to_sec: 10, count: 127 });
    run_move(&mut file, 17, 10, 127);
    assert_eq!(file[10 * 512..137 * 512], original[10 * 512..137 * 512]);
    assert_eq!(file.len(), shrunk.len());
    assert_eq!(file[..10 * 512], shrunk[..10 * 512]);
    assert_eq!(file[137 * 512..], shrunk[137 * 512..]);
    assert_eq!(steps[2], Step::Resize { target: ResizeTarget::LoopDevice, blocks: 16383 });
}

#[test]
fn what_can_be_planned() {
    let sb = superblock(4, 1024);
    assert!(can_extend(512 * 10, &sb, 10));
    assert!(!can_extend(512 * 10, &sb, 11));
    assert!(!can_extend(513, &sb, 0));
    assert!(!can_extend(512, &superblock(0, 1), 1));
    assert!(!can_extend(512, &superblock(2, u64::MAX), 1));
    assert!(can_shrink(512, &sb, 4096));
    assert!(!can_shrink(512, &sb, 4097));
    assert!(!can_shrink(100, &sb, 1));
    assert!(!can_shrink(512, &superblock(0, 1), 1));
    assert!(!can_shrink(512, &superblock(2, u64::MAX), 1));
}

fn words(line: &CommandLine) -> Vec<String> {
    let mut r = vec![line.program.clone()];
    for arg in &line.args {
        r.push(match arg {
            Arg::Text(s) => format!("t:{}", s),
            Arg::Path(p) => format!("p:{}", String::from_utf8(p.clone()).unwrap()),
        });
    }
    r
}

fn ran(success: bool, stdout: &[u8]) -> WorkEvent {
    WorkEvent::CommandRan(CommandOutput {
        success,
        stdout: stdout.to_vec(),
        stderr: b"trouble".to_vec(),
    })
}

#[test]
fn extend_job_runs_to_its_end() {
    let job = Job::extend(512 * 100, superblock(4, 1024), 10);
    assert!(matches!(
        job.action(b"/tmp/disk"),
        Action::Move { from_sec: 100, to_sec: 90, count: 8 }
    ));
    let job = job.step(WorkEvent::Moved);
    match job.action(b"/tmp/disk") {
        Action::Attach(line) => assert_eq!(
            words(&line),
            ["losetup", "t:--find", "t:--show", "t:--offset", "t:46080", "p:/tmp/disk"]
        ),
        _ => panic!("a loop device is needed"),
    }
    let job = job.step(ran(true, b"/dev/loop5\n"));
    match job.action(b"/tmp/disk") {
        Action::Resize(line) => {
            assert_eq!(words(&line), ["resize2fs", "p:/dev/loop5", "t:1026"])
        }
        _ => panic!("the filesystem is to be resized"),
    }
    let job = job.step(ran(true, b""));
    assert_detaches(&job);
    let job = job.step(ran(true, b""));
    assert!(matches!(job.action(b"/tmp/disk"), Action::Finish));
    assert!(matches!(job, Job::Done(Ok(()))));
}

fn assert_detaches(job: &Job) {
    match job.action(b"/tmp/disk") {
        Action::Detach(line) => assert_eq!(words(&line), ["losetup", "t:-d", "p:/dev/loop5"]),
        _ => panic!("the loop device is to be detached"),
    }
}

#[test]
fn extend_job_detaches_a_device_that_it_does_not_resize() {
    let job = Job::extend(512 * 100, superblock(4, 1024), 3)
        .step(WorkEvent::Moved)
        .step(ran(true, b"/dev/loop5\n"));
    assert_detaches(&job);
    assert!(matches!(job.step(WorkEvent::CommandNotRun), Job::Done(Ok(()))));
}

#[test]
fn shrink_job_resizes_first() {
    let job = Job::shrink(0, superblock(4, 1024), 8);
    match job.action(b"/tmp/disk") {
        Action::Resize(line) => assert_eq!(words(&line), ["resize2fs", "p:/tmp/disk", "t:1022"]),
        _ => panic!("the filesystem is to be resized"),
    }
    let job = job.step(ran(true, b""));
    assert!(matches!(
        job.action(b"/tmp/disk"),
        Action::Move { from_sec: 0, to_sec: 8, count: 8 }
    ));
    assert!(matches!(job.step(WorkEvent::Moved), Job::Done(Ok(()))));
}

#[test]
fn failures_end_a_job() {
    let error = |job: Job| match job {
        Job::Done(Err(e)) => e,
        _ => panic!("the job has failed"),
    };
    let extend = || Job::extend(512 * 100, superblock(4, 1024), 10);
    for (kind, message) in [
        (MoveError::Open, "failed to open the file for writing"),
        (MoveError::Seek, "failed to seek the file"),
        (MoveError::Read, "failed to read the file"),
        (MoveError::Write, "failed to write to the file"),
    ] {
        let e = error(extend().step(WorkEvent::MoveFailed(kind)));
        assert!(matches!(e, WorkError::Move(k) if k == kind));
        assert_eq!(e.message(), message);
    }
    let moved = || extend().step(WorkEvent::Moved);
    let e = error(moved().step(WorkEvent::CommandNotRun));
    assert!(matches!(e, WorkError::Attach(AttachError::NotRun)));
    assert_eq!(e.message(), "failed to create loop device");
    match error(moved().step(ran(false, b""))) {
        WorkError::Attach(AttachError::Refused { stderr }) => assert_eq!(stderr, b"trouble"),
        _ => panic!("losetup has failed"),
    }
    let attached = || moved().step(ran(true, b"/dev/loop5"));
    let job = attached().step(WorkEvent::CommandNotRun);
    assert_detaches(&job);
    let e = error(job.step(ran(false, b"")));
    assert!(matches!(e, WorkError::ResizeNotRun));
    assert_eq!(e.message(), "failed to run resize2fs");
    let job = attached().step(ran(false, b""));
    assert_detaches(&job);
    let e = error(job.step(ran(true, b"")));
    assert!(matches!(e, WorkError::ResizeRefused));
    assert_eq!(e.message(), "resize2fs returned non-successful status");
}
