//! Resizing by moving the whole filesystem.

use crate::cli::{basic_operation, fs_bytes, is_computable, whole_sectors, BasicOperationView, Operation};
use crate::fs::superblock::Superblock;
use vstd::prelude::*;

verus! {

/// The number of bytes that are copied at a time.
pub const CHUNK_SIZE: u64 = 0x40_0000;

/// One copy: `len` bytes are read at `from` and then written at `to`.
#[derive(Debug, Clone, Copy, PartialEq, Eq, Structural)]
pub struct Chunk {
    pub from: u64,
    pub to: u64,
    pub len: u64,
}

/// A [`Chunk`] as mathematical numbers.
pub struct ChunkView {
    pub from: nat,
    pub to: nat,
    pub len: nat,
}

impl View for Chunk {
    type V = ChunkView;

    open spec fn view(&self) -> ChunkView {
        ChunkView { from: self.from as nat, to: self.to as nat, len: self.len as nat }
    }
}

/// A move of `total` bytes from `start` to `dest`, of which `done` have been
/// copied.
pub struct DataMove {
    start: u64,
    dest: u64,
    total: u64,
    done: u64,
}

/// A [`DataMove`] as mathematical numbers.
pub struct DataMoveView {
    pub start: nat,
    pub dest: nat,
    pub total: nat,
    pub done: nat,
}

impl View for DataMove {
    type V = DataMoveView;

    closed spec fn view(&self) -> DataMoveView {
        DataMoveView {
            start: self.start as nat,
            dest: self.dest as nat,
            total: self.total as nat,
            done: self.done as nat,
        }
    }
}

impl DataMoveView {
    /// A move of `count` sectors that has not begun.
    pub open spec fn fresh(from_sec: nat, to_sec: nat, count: nat) -> DataMoveView {
        DataMoveView { start: from_sec * 512, dest: to_sec * 512, total: count * 512, done: 0 }
    }

    /// The length of the next chunk.
    pub open spec fn next_len(self) -> nat {
        if self.total - self.done <= CHUNK_SIZE {
            (self.total - self.done) as nat
        } else {
            CHUNK_SIZE as nat
        }
    }

    /// Where the next chunk lies in the data: a move towards the end copies the
    /// end of the data first, a move towards the beginning its beginning, so
    /// that no chunk overwrites data yet to be copied.
    pub open spec fn next_offset(self) -> nat {
        if self.start < self.dest {
            (self.total - self.done - self.next_len()) as nat
        } else {
            self.done
        }
    }

    /// The chunk to copy next, while there is one.
    pub open spec fn next_chunk(self) -> Option<ChunkView> {
        if self.done < self.total {
            Some(
                ChunkView {
                    from: self.start + self.next_offset(),
                    to: self.dest + self.next_offset(),
                    len: self.next_len(),
                },
            )
        } else {
            None
        }
    }

    /// The move with its next chunk copied.
    pub open spec fn advanced(self) -> DataMoveView {
        DataMoveView { done: self.done + self.next_len(), ..self }
    }
}

/// Whether a move has nothing to do.
pub open spec fn is_idle_move(from_sec: u64, to_sec: u64, count: u64) -> bool {
    from_sec == to_sec || count == 0
}

/// The greatest offset in `total` bytes at which a chunk begins.
pub open spec fn top_offset(rightward: bool, total: nat) -> nat {
    if rightward {
        if total <= CHUNK_SIZE {
            0
        } else {
            (total - CHUNK_SIZE) as nat
        }
    } else {
        ((total - 1) / 0x40_0000 * 0x40_0000) as nat
    }
}

/// Whether every position that a move comes by fits in 64 bits.
pub open spec fn move_fits(from_sec: u64, to_sec: u64, count: u64) -> bool {
    is_idle_move(from_sec, to_sec, count) || {
        let top = top_offset(from_sec < to_sec, (count * 512) as nat);
        &&& count * 512 <= u64::MAX
        &&& from_sec * 512 + top <= u64::MAX
        &&& to_sec * 512 + top <= u64::MAX
    }
}

impl DataMove {
    #[verifier::type_invariant]
    spec fn is_valid(self) -> bool {
        let top = top_offset(self.start < self.dest, self.total as nat);
        &&& self.start != self.dest
        &&& self.done <= self.total
        &&& 0 < self.total
        &&& self.start + top <= u64::MAX
        &&& self.dest + top <= u64::MAX
        &&& self.done == self.total || self.done % 0x40_0000 == 0
    }

    /// Whether [`DataMove::new`] may be called with these arguments.
    pub fn can_move(from_sec: u64, to_sec: u64, count: u64) -> (r: bool)
        ensures
            r == move_fits(from_sec, to_sec, count),
    {
        if from_sec == to_sec || count == 0 {
            return true;
        }
        let total: u64 = match count.checked_mul(512) {
            Some(x) => x,
            None => {
                return false;
            },
        };
        let top: u64 = if from_sec < to_sec {
            if total <= CHUNK_SIZE {
                0
            } else {
                total - CHUNK_SIZE
            }
        } else {
            (total - 1) / 0x40_0000 * 0x40_0000
        };
        from_sec <= (u64::MAX - top) / 512 && to_sec <= (u64::MAX - top) / 512
    }

    /// A move of `count` sectors from sector `from_sec` to sector `to_sec`;
    /// `None` where there is nothing to do.
    pub fn new(from_sec: u64, to_sec: u64, count: u64) -> (r: Option<Self>)
        requires
            move_fits(from_sec, to_sec, count),
        ensures
            match r {
                Some(m) => !is_idle_move(from_sec, to_sec, count) && m@ == DataMoveView::fresh(
                    from_sec as nat,
                    to_sec as nat,
                    count as nat,
                ),
                None => is_idle_move(from_sec, to_sec, count),
            },
    {
        if from_sec == to_sec || count == 0 {
            None
        } else {
            Some(DataMove { start: from_sec * 512, dest: to_sec * 512, total: count * 512, done: 0 })
        }
    }

    /// The chunk to copy next; `None` once all is copied.
    pub fn next_chunk(&self) -> (r: Option<Chunk>)
        ensures
            match r {
                Some(c) => self@.next_chunk() == Some(c@) && 0 < c.len <= CHUNK_SIZE,
                None => self@.next_chunk() is None,
            },
    {
        proof {
            use_type_invariant(self);
        }
        if self.done == self.total {
            return None;
        }
        let remaining: u64 = self.total - self.done;
        let len: u64 = if remaining <= CHUNK_SIZE {
            remaining
        } else {
            CHUNK_SIZE
        };
        let offset: u64 = if self.start < self.dest {
            remaining - len
        } else {
            self.done
        };
        Some(Chunk { from: self.start + offset, to: self.dest + offset, len })
    }

    /// Records that the next chunk has been copied.
    pub fn advance(&mut self)
        ensures
            final(self)@ == old(self)@.advanced(),
    {
        proof {
            use_type_invariant(&*self);
        }
        let remaining: u64 = self.total - self.done;
        let len: u64 = if remaining <= CHUNK_SIZE {
            remaining
        } else {
            CHUNK_SIZE
        };
        self.done = self.done + len;
    }

    /// The number of bytes copied so far.
    pub fn position(&self) -> (r: u64)
        ensures
            r == self@.done,
    {
        self.done
    }

    /// The number of bytes to copy in all.
    pub fn total_bytes(&self) -> (r: u64)
        ensures
            r == self@.total,
    {
        self.total
    }
}

/// Why a move stopped.
#[derive(Debug, Clone, Copy, PartialEq, Eq, Structural)]
pub enum MoveError {
    Open,
    Seek,
    Read,
    Write,
}

impl MoveError {
    pub open spec fn spec_message(self) -> Seq<char> {
        match self {
            MoveError::Open => "failed to open the file for writing"@,
            MoveError::Seek => "failed to seek the file"@,
            MoveError::Read => "failed to read the file"@,
            MoveError::Write => "failed to write to the file"@,
        }
    }

    /// What went wrong, in words.
    pub fn message(&self) -> (r: &'static str)
        ensures
            r@ == self.spec_message(),
    {
        match self {
            MoveError::Open => "failed to open the file for writing",
            MoveError::Seek => "failed to seek the file",
            MoveError::Read => "failed to read the file",
            MoveError::Write => "failed to write to the file",
        }
    }
}

/// The contents of a file after `bytes` are written at `at`: a write beyond the
/// end makes the file longer, with zeros in a gap.
pub open spec fn write_at(file: Seq<u8>, at: nat, bytes: Seq<u8>) -> Seq<u8> {
    if bytes.len() == 0 {
        file
    } else {
        Seq::new(
            if file.len() <= at + bytes.len() {
                at + bytes.len()
            } else {
                file.len()
            },
            |i: int|
                if at <= i < at + bytes.len() {
                    bytes[i - at]
                } else if i < file.len() {
                    file[i]
                } else {
                    0
                },
        )
    }
}

/// The contents of a file after a chunk is copied.
pub open spec fn copy_chunk(file: Seq<u8>, c: ChunkView) -> Seq<u8> {
    write_at(file, c.to, file.subrange(c.from as int, (c.from + c.len) as int))
}

/// The contents of a file after the remaining chunks of a move are copied.
pub open spec fn copy_remaining(m: DataMoveView, file: Seq<u8>) -> Seq<u8>
    decreases m.total - m.done,
{
    if m.done < m.total {
        copy_remaining(m.advanced(), copy_chunk(file, m.next_chunk()->0))
    } else {
        file
    }
}

/// The contents of a file after the whole of a move, as if all its data were
/// read first and then written.
pub open spec fn moved(file: Seq<u8>, start: nat, dest: nat, total: nat) -> Seq<u8> {
    write_at(file, dest, file.subrange(start as int, (start + total) as int))
}

/// The part of a move that has been made: the end of the data for a move
/// towards the end, else its beginning.
pub open spec fn moved_part(file: Seq<u8>, m: DataMoveView) -> Seq<u8> {
    if m.start < m.dest {
        let rest = (m.total - m.done) as nat;
        moved(file, m.start + rest, m.dest + rest, m.done)
    } else {
        moved(file, m.start, m.dest, m.done)
    }
}

proof fn lemma_copy_remaining(file: Seq<u8>, m: DataMoveView)
    requires
        m.start != m.dest,
        m.done <= m.total,
        m.start + m.total <= file.len(),
    ensures
        copy_remaining(m, moved_part(file, m)) == moved(file, m.start, m.dest, m.total),
    decreases m.total - m.done,
{
    let now = moved_part(file, m);
    if m.done < m.total {
        let c = m.next_chunk()->0;
        let source = file.subrange(c.from as int, (c.from + c.len) as int);
        assert(now.subrange(c.from as int, (c.from + c.len) as int) =~= source);
        assert(copy_chunk(now, c) =~= moved_part(file, m.advanced()));
        lemma_copy_remaining(file, m.advanced());
    } else {
        assert(now =~= moved(file, m.start, m.dest, m.total));
    }
}

/// Copying the chunks of a move one after the other leaves the file as if all
/// the data had been read before any of it was written: what was at `from_sec`
/// is at `to_sec`, however the two places overlap, and nothing else changes.
pub proof fn lemma_move_relocates(from_sec: nat, to_sec: nat, count: nat, file: Seq<u8>)
    requires
        from_sec != to_sec,
        (from_sec + count) * 512 <= file.len(),
    ensures
        copy_remaining(DataMoveView::fresh(from_sec, to_sec, count), file) == moved(
            file,
            from_sec * 512,
            to_sec * 512,
            count * 512,
        ),
{
    let m = DataMoveView::fresh(from_sec, to_sec, count);
    assert(moved_part(file, m) =~= file);
    lemma_copy_remaining(file, m);
}

impl DataMoveView {
    /// The move with `chunks` more chunks copied, or all that there are.
    pub open spec fn advanced_by(self, chunks: nat) -> DataMoveView
        decreases chunks,
    {
        if chunks == 0 {
            self
        } else {
            self.advanced_by((chunks - 1) as nat).advanced()
        }
    }
}

/// The contents of a file after `chunks` chunks of a move are copied, or all
/// that there are.
pub open spec fn copy_chunks(m: DataMoveView, file: Seq<u8>, chunks: nat) -> Seq<u8>
    decreases chunks,
{
    if chunks == 0 {
        file
    } else {
        let before = copy_chunks(m, file, (chunks - 1) as nat);
        match m.advanced_by((chunks - 1) as nat).next_chunk() {
            Some(c) => copy_chunk(before, c),
            None => before,
        }
    }
}

proof fn lemma_copy_chunks(file: Seq<u8>, m: DataMoveView, chunks: nat)
    requires
        m.start != m.dest,
        m.done == 0,
        m.start + m.total <= file.len(),
    ensures
        ({
            let now = m.advanced_by(chunks);
            &&& now.start == m.start
            &&& now.dest == m.dest
            &&& now.total == m.total
            &&& now.done <= m.total
            &&& copy_chunks(m, file, chunks) == moved_part(file, now)
        }),
    decreases chunks,
{
    if chunks == 0 {
        assert(moved_part(file, m) =~= file);
    } else {
        lemma_copy_chunks(file, m, (chunks - 1) as nat);
        let last = m.advanced_by((chunks - 1) as nat);
        let before = moved_part(file, last);
        if last.done < last.total {
            let c = last.next_chunk()->0;
            let source = file.subrange(c.from as int, (c.from + c.len) as int);
            assert(before.subrange(c.from as int, (c.from + c.len) as int) =~= source);
            assert(copy_chunk(before, c) =~= moved_part(file, last.advanced()));
        } else {
            assert(last.advanced() == last);
        }
    }
}

/// A move that stops after any number of chunks has put exactly what it copied
/// in place: the end of the data for a move towards the end, else its
/// beginning. Of the file as it was, it has changed bytes of the destination
/// only, and going on from there completes the move.
pub proof fn lemma_stopped_move(
    from_sec: nat,
    to_sec: nat,
    count: nat,
    file: Seq<u8>,
    chunks: nat,
)
    requires
        from_sec != to_sec,
        (from_sec + count) * 512 <= file.len(),
    ensures
        ({
            let m = DataMoveView::fresh(from_sec, to_sec, count);
            let stopped = copy_chunks(m, file, chunks);
            &&& stopped == moved_part(file, m.advanced_by(chunks))
            &&& stopped.len() >= file.len()
            &&& forall|i: int|
                0 <= i < file.len() && !(to_sec * 512 <= i < (to_sec + count) * 512)
                    ==> #[trigger] stopped[i] == file[i]
            &&& copy_remaining(m.advanced_by(chunks), stopped) == copy_remaining(m, file)
        }),
{
    let m = DataMoveView::fresh(from_sec, to_sec, count);
    lemma_copy_chunks(file, m, chunks);
    lemma_copy_remaining(file, m.advanced_by(chunks));
    lemma_move_relocates(from_sec, to_sec, count, file);
}

/// A move is cut into chunks of 4 MiB, the last of which may be shorter. Towards
/// the end they are taken from the end of the data backwards, towards the
/// beginning from its beginning forwards, and each is copied as far as the whole
/// is moved.
pub proof fn lemma_chunks(from_sec: nat, to_sec: nat, count: nat, chunks: nat)
    ensures
        ({
            let m = DataMoveView::fresh(from_sec, to_sec, count).advanced_by(chunks);
            let total = count * 512;
            let behind = chunks * 4194304;
            &&& m.start == from_sec * 512
            &&& m.dest == to_sec * 512
            &&& m.total == total
            &&& behind >= total ==> m.done == total && m.next_chunk() is None
            &&& behind < total ==> {
                let len = if total - behind < 4194304 {
                    total - behind
                } else {
                    4194304
                };
                let at = if from_sec < to_sec {
                    total - behind - len
                } else {
                    behind as int
                };
                &&& m.done == behind
                &&& m.next_chunk() matches Some(c)
                &&& c.len == len
                &&& c.from == from_sec * 512 + at
                &&& c.to == to_sec * 512 + at
            }
        }),
    decreases chunks,
{
    if chunks > 0 {
        lemma_chunks(from_sec, to_sec, count, (chunks - 1) as nat);
    }
}

/// A move fits exactly if it has nothing to do, or if its length and the places
/// of all its chunks are within 64 bits.
pub proof fn lemma_move_fits(from_sec: u64, to_sec: u64, count: u64)
    ensures
        from_sec == to_sec || count == 0 ==> move_fits(from_sec, to_sec, count),
        from_sec != to_sec && count != 0 ==> (move_fits(from_sec, to_sec, count) <==> {
            let m = DataMoveView::fresh(from_sec as nat, to_sec as nat, count as nat);
            &&& count * 512 <= u64::MAX
            &&& forall|chunks: nat|
                (#[trigger] m.advanced_by(chunks)).next_chunk() matches Some(c) ==> c.from
                    <= u64::MAX && c.to <= u64::MAX
        }),
{
    if from_sec != to_sec && count != 0 {
        let m = DataMoveView::fresh(from_sec as nat, to_sec as nat, count as nat);
        let total = count * 512;
        let top = top_offset(from_sec < to_sec, total as nat);
        let last = ((total - 1) / 0x40_0000) as nat;
        let far = if from_sec < to_sec {
            0nat
        } else {
            last
        };
        lemma_chunks(from_sec as nat, to_sec as nat, count as nat, far);
        assert(m.advanced_by(far).next_chunk() matches Some(c) && c.from == from_sec * 512 + top
            && c.to == to_sec * 512 + top);
        assert forall|chunks: nat| move_fits(from_sec, to_sec, count) implies ((
        #[trigger] m.advanced_by(chunks)).next_chunk() matches Some(c) ==> c.from <= u64::MAX
            && c.to <= u64::MAX) by {
            lemma_chunks(from_sec as nat, to_sec as nat, count as nat, chunks);
        }
    }
}

/// A call of [`DataMove::new`] begins the move that was asked for, or gives
/// nothing where there is none; progress is told in the bytes that are copied,
/// out of all.
pub proof fn lemma_move_calls(
    from_sec: u64,
    to_sec: u64,
    count: u64,
    made: Option<DataMove>,
    m: DataMove,
    n: u64,
    chunk: Option<Chunk>,
    can: bool,
)
    ensures
        call_ensures(DataMove::can_move, (from_sec, to_sec, count), can) ==> can == move_fits(
            from_sec,
            to_sec,
            count,
        ),
        call_ensures(DataMove::next_chunk, (&m,), chunk) ==> match m@.next_chunk() {
            None => chunk is None,
            Some(c) => chunk matches Some(d) && d.from == c.from && d.to == c.to && d.len == c.len,
        },
        call_ensures(DataMove::new, (from_sec, to_sec, count), made) ==> {
            &&& made is None <==> from_sec == to_sec || count == 0
            &&& made matches Some(m) ==> m@ == DataMoveView::fresh(
                from_sec as nat,
                to_sec as nat,
                count as nat,
            )
        },
        move_fits(from_sec, to_sec, count) ==> call_requires(
            DataMove::new,
            (from_sec, to_sec, count),
        ),
        call_ensures(DataMove::position, (&m,), n) ==> n == m@.done,
        call_ensures(DataMove::total_bytes, (&m,), n) ==> n == m@.total,
{
}

/// `count` sectors of a file from sector `sec` on.
pub open spec fn sectors(file: Seq<u8>, sec: nat, count: nat) -> Seq<u8> {
    file.subrange((sec * 512) as int, ((sec + count) * 512) as int)
}

/// Moving data to another place, and the whole of it or its beginning back,
/// restores what is moved back.
pub proof fn lemma_move_back_restores(
    from_sec: nat,
    to_sec: nat,
    count: nat,
    kept: nat,
    file: Seq<u8>,
)
    requires
        from_sec != to_sec,
        kept <= count,
        (from_sec + count) * 512 <= file.len(),
    ensures
        ({
            let there = copy_remaining(DataMoveView::fresh(from_sec, to_sec, count), file);
            let back = copy_remaining(DataMoveView::fresh(to_sec, from_sec, kept), there);
            sectors(back, from_sec, kept) == sectors(file, from_sec, kept)
        }),
{
    let there = copy_remaining(DataMoveView::fresh(from_sec, to_sec, count), file);
    let back = copy_remaining(DataMoveView::fresh(to_sec, from_sec, kept), there);
    lemma_move_relocates(from_sec, to_sec, count, file);
    if kept > 0 {
        lemma_move_relocates(to_sec, from_sec, kept, there);
    }
    assert(sectors(back, from_sec, kept) =~= sectors(file, from_sec, kept));
}

/// What `resize2fs` is run on.
#[derive(Debug, Clone, Copy, PartialEq, Eq, Structural)]
pub enum ResizeTarget {
    /// The file that holds the filesystem.
    File,
    /// The loop device that was attached before.
    LoopDevice,
}

/// One step of a resize. The steps are taken in order, up to the first that
/// fails.
#[derive(Debug, Clone, Copy, PartialEq, Eq, Structural)]
pub enum Step {
    /// Move `count` sectors from sector `from_sec` to sector `to_sec`.
    MoveData { from_sec: u64, to_sec: u64, count: u64 },
    /// Attach a loop device to the file from byte `offset` on.
    AttachLoop { offset: u64 },
    /// Give the filesystem on `target` a size of `blocks` blocks.
    Resize { target: ResizeTarget, blocks: u64 },
}

/// The target for a filesystem that begins at byte `offset` of its file.
pub open spec fn target_at(offset: u64) -> ResizeTarget {
    if offset == 0 {
        ResizeTarget::File
    } else {
        ResizeTarget::LoopDevice
    }
}

/// The step that makes the filesystem at byte `offset` accessible: none where
/// it begins with its file.
pub open spec fn attach_steps(offset: u64) -> Seq<Step> {
    if offset == 0 {
        Seq::empty()
    } else {
        seq![Step::AttachLoop { offset }]
    }
}

/// The quotient, rounded up.
pub open spec fn ceil_div(a: nat, b: nat) -> nat {
    if a % b == 0 {
        a / b
    } else {
        a / b + 1
    }
}

/// Whether an extension by `c_value` sectors can be planned: the filesystem
/// begins at a sector, that many sectors lie in front of it, and every size
/// and position fits in 64 bits.
pub open spec fn is_extendable(
    f_offset: u64,
    block_size: u32,
    block_count: u64,
    c_value: u64,
) -> bool {
    &&& f_offset % 512 == 0
    &&& block_size > 0
    &&& fs_bytes(block_size, block_count) <= u64::MAX
    &&& c_value <= f_offset / 512
    &&& block_count + c_value / (block_size as u64) <= u64::MAX
    &&& move_fits(
        f_offset / 512,
        (f_offset / 512 - c_value) as u64,
        whole_sectors(fs_bytes(block_size, block_count)) as u64,
    )
}

/// Whether a shrink by `c_value` sectors can be planned: the filesystem begins
/// at a sector, has the blocks to give, and every size and position fits in 64
/// bits.
pub open spec fn is_shrinkable(
    f_offset: u64,
    block_size: u32,
    block_count: u64,
    c_value: u64,
) -> bool {
    &&& f_offset % 512 == 0
    &&& block_size > 0
    &&& fs_bytes(block_size, block_count) <= u64::MAX
    &&& ceil_div(c_value as nat, block_size as nat) <= block_count
    &&& f_offset / 512 + c_value <= u64::MAX
    &&& move_fits(
        f_offset / 512,
        (f_offset / 512 + c_value) as u64,
        whole_sectors(fs_bytes(block_size, block_count)) as u64,
    )
}

/// The steps of an extension by `c_value` sectors: the data moves `c_value`
/// sectors towards the beginning, and the filesystem then grows by a number of
/// blocks: `c_value`, which counts sectors, divided by `block_size`, which counts
/// bytes, rounded down. It is not resized where that is zero.
pub open spec fn extend_steps(
    f_offset: u64,
    block_size: u32,
    block_count: u64,
    c_value: u64,
) -> Seq<Step> {
    let to_sec = (f_offset / 512 - c_value) as u64;
    let new_offset = (to_sec * 512) as u64;
    let gained = c_value / (block_size as u64);
    seq![
        Step::MoveData {
            from_sec: f_offset / 512,
            to_sec,
            count: whole_sectors(fs_bytes(block_size, block_count)) as u64,
        },
    ] + attach_steps(new_offset) + if gained == 0 {
        Seq::empty()
    } else {
        seq![
            Step::Resize {
                target: target_at(new_offset),
                blocks: (block_count + gained) as u64,
            },
        ]
    }
}

/// The steps of a shrink by `c_value` sectors: the filesystem gives up a number
/// of blocks, which is `c_value`, which counts sectors, divided by `block_size`,
/// which counts bytes, rounded up; its data then moves `c_value` sectors towards
/// the end.
pub open spec fn shrink_steps(
    f_offset: u64,
    block_size: u32,
    block_count: u64,
    c_value: u64,
) -> Seq<Step> {
    attach_steps(f_offset) + seq![
        Step::Resize {
            target: target_at(f_offset),
            blocks: (block_count - ceil_div(c_value as nat, block_size as nat)) as u64,
        },
        Step::MoveData {
            from_sec: f_offset / 512,
            to_sec: (f_offset / 512 + c_value) as u64,
            count: whole_sectors(fs_bytes(block_size, block_count)) as u64,
        },
    ]
}

fn size_in_sectors(block_size: u32, block_count: u64) -> (r: u64)
    requires
        fs_bytes(block_size, block_count) <= u64::MAX,
    ensures
        r == whole_sectors(fs_bytes(block_size, block_count)),
{
    proof {
        assert(block_size * block_count == block_count * (block_size as u64)) by (nonlinear_arith);
    }
    block_count * (block_size as u64) / 512
}

fn quotient_rounded_up(a: u64, b: u32) -> (r: u64)
    requires
        b > 0,
    ensures
        r == ceil_div(a as nat, b as nat),
{
    let q: u64 = a / (b as u64);
    if a % (b as u64) == 0 {
        q
    } else {
        proof {
            assert(q < u64::MAX) by (nonlinear_arith)
                requires
                    q == a / (b as u64),
                    b > 0,
                    a % (b as u64) != 0,
            ;
        }
        q + 1
    }
}

/// Whether [`do_extend`] may be called with these arguments.
pub fn can_extend(f_offset: u64, f_sb: &Superblock, c_value: u64) -> (r: bool)
    ensures
        r == is_extendable(f_offset, f_sb.block_size, f_sb.block_count, c_value),
{
    proof {
        assert(f_sb.block_size * f_sb.block_count == f_sb.block_count * (f_sb.block_size as u64))
            by (nonlinear_arith);
    }
    let from_sec: u64 = f_offset / 512;
    if f_offset % 512 != 0 || f_sb.block_size == 0 || c_value > from_sec {
        return false;
    }
    if f_sb.block_count.checked_mul(f_sb.block_size as u64).is_none() {
        return false;
    }
    if f_sb.block_count.checked_add(c_value / (f_sb.block_size as u64)).is_none() {
        return false;
    }
    DataMove::can_move(
        from_sec,
        from_sec - c_value,
        size_in_sectors(f_sb.block_size, f_sb.block_count),
    )
}

/// Whether [`do_shrink`] may be called with these arguments.
pub fn can_shrink(f_offset: u64, f_sb: &Superblock, c_value: u64) -> (r: bool)
    ensures
        r == is_shrinkable(f_offset, f_sb.block_size, f_sb.block_count, c_value),
{
    proof {
        assert(f_sb.block_size * f_sb.block_count == f_sb.block_count * (f_sb.block_size as u64))
            by (nonlinear_arith);
    }
    let from_sec: u64 = f_offset / 512;
    if f_offset % 512 != 0 || f_sb.block_size == 0 {
        return false;
    }
    if f_sb.block_count.checked_mul(f_sb.block_size as u64).is_none() {
        return false;
    }
    if quotient_rounded_up(c_value, f_sb.block_size) > f_sb.block_count {
        return false;
    }
    match from_sec.checked_add(c_value) {
        Some(to_sec) => DataMove::can_move(
            from_sec,
            to_sec,
            size_in_sectors(f_sb.block_size, f_sb.block_count),
        ),
        None => false,
    }
}

/// The steps that extend a filesystem at byte `f_offset` of its file by
/// `c_value` sectors.
pub fn do_extend(f_offset: u64, f_sb: Superblock, c_value: u64) -> (r: Vec<Step>)
    requires
        is_extendable(f_offset, f_sb.block_size, f_sb.block_count, c_value),
    ensures
        r@ == extend_steps(f_offset, f_sb.block_size, f_sb.block_count, c_value),
{
    let total_size_secs: u64 = size_in_sectors(f_sb.block_size, f_sb.block_count);
    let from_sec: u64 = f_offset / 512;
    let to_sec: u64 = from_sec - c_value;
    let new_offset: u64 = to_sec * 512;
    let mut steps: Vec<Step> = Vec::new();
    steps.push(Step::MoveData { from_sec, to_sec, count: total_size_secs });
    let target = if new_offset == 0 {
        ResizeTarget::File
    } else {
        steps.push(Step::AttachLoop { offset: new_offset });
        ResizeTarget::LoopDevice
    };
    let blks_to_extend: u64 = c_value / (f_sb.block_size as u64);
    if blks_to_extend != 0 {
        steps.push(Step::Resize { target, blocks: f_sb.block_count + blks_to_extend });
    }
    steps
}

/// The steps that shrink a filesystem at byte `f_offset` of its file by
/// `c_value` sectors.
pub fn do_shrink(f_offset: u64, f_sb: Superblock, c_value: u64) -> (r: Vec<Step>)
    requires
        is_shrinkable(f_offset, f_sb.block_size, f_sb.block_count, c_value),
    ensures
        r@ == shrink_steps(f_offset, f_sb.block_size, f_sb.block_count, c_value),
{
    let total_size_secs: u64 = size_in_sectors(f_sb.block_size, f_sb.block_count);
    let blks_to_shrink: u64 = quotient_rounded_up(c_value, f_sb.block_size);
    let from_sec: u64 = f_offset / 512;
    let mut steps: Vec<Step> = Vec::new();
    let target = if f_offset == 0 {
        ResizeTarget::File
    } else {
        steps.push(Step::AttachLoop { offset: f_offset });
        ResizeTarget::LoopDevice
    };
    steps.push(Step::Resize { target, blocks: f_sb.block_count - blks_to_shrink });
    steps.push(Step::MoveData { from_sec, to_sec: from_sec + c_value, count: total_size_secs });
    steps
}

/// The contents of a file after a step that moves data.
pub open spec fn after_step(step: Step, file: Seq<u8>) -> Seq<u8> {
    match step {
        Step::MoveData { from_sec, to_sec, count } => if is_idle_move(from_sec, to_sec, count) {
            file
        } else {
            copy_remaining(
                DataMoveView::fresh(from_sec as nat, to_sec as nat, count as nat),
                file,
            )
        },
        _ => file,
    }
}

/// An extension begins with a move after which the filesystem's sectors lie
/// `c_value` sectors closer to the beginning; the file is as long as it was, and
/// every byte outside their new place is as it was.
pub proof fn lemma_extend_moves_filesystem(
    f_offset: u64,
    block_size: u32,
    block_count: u64,
    c_value: u64,
    file: Seq<u8>,
)
    requires
        is_extendable(f_offset, block_size, block_count, c_value),
        f_offset + fs_bytes(block_size, block_count) <= file.len(),
    ensures
        ({
            let from_sec = (f_offset / 512) as nat;
            let to_sec = (from_sec - c_value) as nat;
            let count = whole_sectors(fs_bytes(block_size, block_count));
            let after = after_step(extend_steps(f_offset, block_size, block_count, c_value)[0], file);
            &&& after.len() == file.len()
            &&& sectors(after, to_sec, count) == sectors(file, from_sec, count)
            &&& forall|i: int|
                0 <= i < file.len() && !(to_sec * 512 <= i < (to_sec + count) * 512)
                    ==> #[trigger] after[i] == file[i]
        }),
{
    let from_sec = (f_offset / 512) as nat;
    let to_sec = (from_sec - c_value) as nat;
    let count = whole_sectors(fs_bytes(block_size, block_count));
    let step = extend_steps(f_offset, block_size, block_count, c_value)[0];
    assert(step == Step::MoveData {
        from_sec: from_sec as u64,
        to_sec: to_sec as u64,
        count: count as u64,
    });
    let after = after_step(step, file);
    if c_value > 0 && count > 0 {
        lemma_move_relocates(from_sec, to_sec, count, file);
    }
    assert(sectors(after, to_sec, count) =~= sectors(file, from_sec, count));
}

/// A shrink ends with a move after which the filesystem's sectors lie
/// `c_value` sectors closer to the end; every byte outside their new place is as
/// it was. The file becomes longer only where their new place reaches beyond
/// its end, with zeros in a gap before it.
pub proof fn lemma_shrink_moves_filesystem(
    f_offset: u64,
    block_size: u32,
    block_count: u64,
    c_value: u64,
    file: Seq<u8>,
)
    requires
        is_shrinkable(f_offset, block_size, block_count, c_value),
        f_offset + fs_bytes(block_size, block_count) <= file.len(),
    ensures
        ({
            let from_sec = (f_offset / 512) as nat;
            let to_sec = from_sec + c_value as nat;
            let count = whole_sectors(fs_bytes(block_size, block_count));
            let after = after_step(
                shrink_steps(f_offset, block_size, block_count, c_value).last(),
                file,
            );
            &&& count > 0 ==> sectors(after, to_sec, count) == sectors(file, from_sec, count)
            &&& after.len() == if count > 0 && (to_sec + count) * 512 > file.len() {
                (to_sec + count) * 512
            } else {
                file.len()
            }
            &&& forall|i: int|
                0 <= i < after.len() && !(to_sec * 512 <= i < (to_sec + count) * 512)
                    ==> #[trigger] after[i] == if i < file.len() {
                    file[i]
                } else {
                    0
                }
        }),
{
    let from_sec = (f_offset / 512) as nat;
    let to_sec = from_sec + c_value as nat;
    let count = whole_sectors(fs_bytes(block_size, block_count));
    let step = shrink_steps(f_offset, block_size, block_count, c_value).last();
    assert(step == Step::MoveData {
        from_sec: from_sec as u64,
        to_sec: to_sec as u64,
        count: count as u64,
    });
    let after = after_step(step, file);
    if c_value > 0 && count > 0 {
        lemma_move_relocates(from_sec, to_sec, count, file);
    }
    if count > 0 {
        assert(sectors(after, to_sec, count) =~= sectors(file, from_sec, count));
    }
}

/// The extension that follows a shrink by as much finds the filesystem with
/// the blocks that the shrink left, brings its sectors back to where they were,
/// unchanged, and asks for no more blocks than there were before the shrink.
pub proof fn lemma_extend_undoes_shrink_move(
    f_offset: u64,
    block_size: u32,
    block_count: u64,
    c_value: u64,
    file: Seq<u8>,
)
    requires
        is_shrinkable(f_offset, block_size, block_count, c_value),
        f_offset + c_value * 512 <= u64::MAX,
        is_extendable(
            (f_offset + c_value * 512) as u64,
            block_size,
            (block_count - ceil_div(c_value as nat, block_size as nat)) as u64,
            c_value,
        ),
        f_offset + fs_bytes(block_size, block_count) <= file.len(),
    ensures
        ({
            let from_sec = (f_offset / 512) as nat;
            let left = (block_count - ceil_div(c_value as nat, block_size as nat)) as u64;
            let kept = whole_sectors(fs_bytes(block_size, left));
            let shrink = shrink_steps(f_offset, block_size, block_count, c_value);
            let extend = extend_steps(
                (f_offset + c_value * 512) as u64,
                block_size,
                left,
                c_value,
            );
            let shrunk = after_step(shrink.last(), file);
            let back = after_step(extend[0], shrunk);
            &&& sectors(back, from_sec, kept) == sectors(file, from_sec, kept)
            &&& forall|i: int|
                0 <= i < extend.len() ==> (#[trigger] extend[i] matches Step::Resize { blocks, .. }
                    ==> left < blocks <= block_count)
        }),
{
    let from_sec = (f_offset / 512) as nat;
    let to_sec = from_sec + c_value as nat;
    let count = whole_sectors(fs_bytes(block_size, block_count));
    let left = (block_count - ceil_div(c_value as nat, block_size as nat)) as u64;
    let kept = whole_sectors(fs_bytes(block_size, left));
    let shrink = shrink_steps(f_offset, block_size, block_count, c_value);
    let extend = extend_steps((f_offset + c_value * 512) as u64, block_size, left, c_value);
    assert(shrink.last() == Step::MoveData {
        from_sec: from_sec as u64,
        to_sec: to_sec as u64,
        count: count as u64,
    });
    assert(extend[0] == Step::MoveData {
        from_sec: to_sec as u64,
        to_sec: from_sec as u64,
        count: kept as u64,
    });
    assert(block_size * left <= block_size * block_count) by (nonlinear_arith)
        requires
            left <= block_count,
    ;
    if c_value > 0 {
        lemma_move_back_restores(from_sec, to_sec, count, kept, file);
        if count == 0 {
            assert(kept == 0);
        } else if kept == 0 {
            lemma_move_relocates(from_sec, to_sec, count, file);
            let shrunk = after_step(shrink.last(), file);
            assert(sectors(shrunk, from_sec, 0) =~= sectors(file, from_sec, 0));
        }
    }
}

/// The extension that a request comes to can be planned, as long as the end of
/// the filesystem fits in 64 bits.
pub proof fn lemma_extension_is_plannable(
    op: Operation,
    block_size: u32,
    block_count: u64,
    offset: u64,
    n: u64,
)
    requires
        is_computable(op, block_size, block_count, offset),
        basic_operation(op, block_size, block_count, offset) == BasicOperationView::ExtendSecs(
            n as nat,
        ),
        block_size > 0,
        offset + fs_bytes(block_size, block_count) <= u64::MAX,
    ensures
        is_extendable(offset, block_size, block_count, n),
{
    let size = fs_bytes(block_size, block_count);
    let q = n / (block_size as u64);
    assert(q <= n) by (nonlinear_arith)
        requires
            q == n / (block_size as u64),
            block_size > 0,
    ;
    assert(block_count <= size) by (nonlinear_arith)
        requires
            size == block_size * block_count,
            block_size > 0,
    ;
}

/// The shrink that a request comes to can be planned, as long as the end of
/// the moved filesystem fits in 64 bits.
pub proof fn lemma_shrink_is_plannable(
    op: Operation,
    block_size: u32,
    block_count: u64,
    offset: u64,
    n: u64,
)
    requires
        is_computable(op, block_size, block_count, offset),
        basic_operation(op, block_size, block_count, offset) == BasicOperationView::ShrinkSecs(
            n as nat,
        ),
        block_size > 0,
        offset + n * 512 + fs_bytes(block_size, block_count) <= u64::MAX,
    ensures
        is_shrinkable(offset, block_size, block_count, n),
{
    crate::cli::lemma_shrink_keeps_minimum(op, block_size, block_count, offset);
    let size = fs_bytes(block_size, block_count);
    let q = ceil_div(n as nat, block_size as nat);
    lemma_fewest_blocks(n as nat, block_size as nat);
    assert(q <= block_count) by (nonlinear_arith)
        requires
            (q - 1) * block_size < n || q == 0,
            n * 512 <= block_size * block_count,
            n <= block_size * block_count,
            block_size > 0,
    ;
}

/// A rounded-up quotient is the least number whose product with the divisor
/// reaches the dividend.
pub proof fn lemma_fewest_blocks(amount: nat, block: nat)
    requires
        block > 0,
    ensures
        ceil_div(amount, block) * block >= amount,
        ceil_div(amount, block) == 0 || (ceil_div(amount, block) - 1) * block < amount,
{
    vstd::arithmetic::div_mod::lemma_fundamental_div_mod(amount as int, block as int);
    let q = amount / block;
    let r = amount % block;
    assert((q + 1) * block == q * block + block) by (nonlinear_arith);
    assert(block * q == q * block) by (nonlinear_arith);
    assert((q - 1) * block == q * block - block) by (nonlinear_arith);
}

/// Where the filesystem begins with its file, `resize2fs` runs on the file;
/// elsewhere it runs on a loop device that the step before attached, at the
/// byte where the filesystem then begins.
pub proof fn lemma_resize_target_is_attached(
    f_offset: u64,
    block_size: u32,
    block_count: u64,
    c_value: u64,
    i: int,
)
    requires
        f_offset % 512 == 0,
        c_value <= f_offset / 512,
    ensures
        ({
            let steps = extend_steps(f_offset, block_size, block_count, c_value);
            let begins = (f_offset - c_value * 512) as u64;
            0 <= i < steps.len() ==> (steps[i] matches Step::Resize { target, .. } ==> if begins
                == 0 {
                target == ResizeTarget::File
            } else {
                target == ResizeTarget::LoopDevice && steps[i - 1] == Step::AttachLoop {
                    offset: begins,
                }
            })
        }),
        ({
            let steps = shrink_steps(f_offset, block_size, block_count, c_value);
            0 <= i < steps.len() ==> (steps[i] matches Step::Resize { target, .. } ==> if f_offset
                == 0 {
                target == ResizeTarget::File
            } else {
                target == ResizeTarget::LoopDevice && steps[i - 1] == Step::AttachLoop {
                    offset: f_offset,
                }
            })
        }),
{
}

/// Which extensions can be planned: those of a filesystem that begins at a
/// sector and has that many sectors in front of it, where its size, its block
/// count and the move are within 64 bits.
pub proof fn lemma_extendable(f_offset: u64, block_size: u32, block_count: u64, c_value: u64)
    ensures
        is_extendable(f_offset, block_size, block_count, c_value) <==> {
            let size = block_size * block_count;
            &&& f_offset % 512 == 0
            &&& block_size > 0
            &&& size <= u64::MAX
            &&& c_value * 512 <= f_offset
            &&& c_value < (u64::MAX - block_count + 1) * block_size
            &&& move_fits(
                (f_offset / 512) as u64,
                (f_offset / 512 - c_value) as u64,
                (size / 512) as u64,
            )
        },
{
    if block_size > 0 {
        let room = u64::MAX - block_count;
        let q = c_value as int / block_size as int;
        assert(q <= room <==> c_value < (room + 1) * block_size) by (nonlinear_arith)
            requires
                q == c_value as int / block_size as int,
                block_size > 0,
                room >= 0,
        ;
    }
    assert(block_size * block_count >= 0) by (nonlinear_arith);
}

/// Which shrinks can be planned: those of a filesystem that begins at a sector,
/// by a number no greater than its size in bytes, where that size and the move
/// are within 64 bits.
pub proof fn lemma_shrinkable(f_offset: u64, block_size: u32, block_count: u64, c_value: u64)
    ensures
        is_shrinkable(f_offset, block_size, block_count, c_value) <==> {
            let size = block_size * block_count;
            &&& f_offset % 512 == 0
            &&& block_size > 0
            &&& c_value <= size <= u64::MAX
            &&& f_offset / 512 + c_value <= u64::MAX
            &&& move_fits(
                (f_offset / 512) as u64,
                (f_offset / 512 + c_value) as u64,
                (size / 512) as u64,
            )
        },
{
    if block_size > 0 {
        lemma_fewest_blocks(c_value as nat, block_size as nat);
        let q = ceil_div(c_value as nat, block_size as nat);
        assert(q <= block_count <==> c_value <= block_size * block_count) by (nonlinear_arith)
            requires
                block_size > 0,
                q * block_size >= c_value,
                q == 0 || (q - 1) * block_size < c_value,
        ;
    }
    assert(block_size * block_count >= 0) by (nonlinear_arith);
}

/// The plan of an extension: the whole sectors of the filesystem move to
/// `c_value` sectors in front of where they are; a loop device is attached at
/// the byte where they then begin, unless it is the first of the file; and the
/// filesystem is resized, on that device or else in the file, to the most
/// blocks such that `c_value` reaches the block size times the blocks gained,
/// unless none is gained.
pub proof fn lemma_extend_plan(f_offset: u64, block_size: u32, block_count: u64, c_value: u64)
    requires
        is_extendable(f_offset, block_size, block_count, c_value),
    ensures
        ({
            let steps = extend_steps(f_offset, block_size, block_count, c_value);
            let begins = f_offset - c_value * 512;
            let attached = if begins == 0 {
                0int
            } else {
                1
            };
            let resized = if c_value < block_size {
                0int
            } else {
                1
            };
            &&& steps.len() == 1 + attached + resized
            &&& steps[0] matches Step::MoveData { from_sec, to_sec, count } && {
                &&& from_sec * 512 == f_offset
                &&& to_sec * 512 == begins
                &&& count * 512 <= block_size * block_count < (count + 1) * 512
            }
            &&& attached == 1 ==> (steps[1] matches Step::AttachLoop { offset } && offset == begins)
            &&& resized == 1 ==> (steps.last() matches Step::Resize { target, blocks } && {
                &&& target is File <==> begins == 0
                &&& blocks > block_count
                &&& (blocks - block_count) * block_size <= c_value
                &&& (blocks - block_count + 1) * block_size > c_value
            })
        }),
{
    let q = c_value / (block_size as u64);
    vstd::arithmetic::div_mod::lemma_fundamental_div_mod(c_value as int, block_size as int);
    assert(q * block_size <= c_value < (q + 1) * block_size) by (nonlinear_arith)
        requires
            c_value == block_size * q + c_value % (block_size as u64),
            c_value % (block_size as u64) < block_size,
    ;
    assert(q == 0 <==> c_value < block_size) by (nonlinear_arith)
        requires
            q * block_size <= c_value < (q + 1) * block_size,
    ;
}

/// The plan of a shrink: a loop device is attached at the byte where the
/// filesystem begins, unless that is the first of the file; the filesystem is
/// resized, on that device or else in the file, so that the block size times the
/// blocks given up reaches `c_value` and one block fewer would not; and the
/// whole sectors that it had move to `c_value` sectors behind where they are.
pub proof fn lemma_shrink_plan(f_offset: u64, block_size: u32, block_count: u64, c_value: u64)
    requires
        is_shrinkable(f_offset, block_size, block_count, c_value),
    ensures
        ({
            let steps = shrink_steps(f_offset, block_size, block_count, c_value);
            let attached = if f_offset == 0 {
                0int
            } else {
                1
            };
            &&& steps.len() == attached + 2
            &&& attached == 1 ==> (steps[0] matches Step::AttachLoop { offset } && offset
                == f_offset)
            &&& steps[attached] matches Step::Resize { target, blocks } && {
                &&& target is File <==> f_offset == 0
                &&& blocks <= block_count
                &&& (block_count - blocks) * block_size >= c_value
                &&& blocks == block_count || (block_count - blocks - 1) * block_size < c_value
            }
            &&& steps[attached + 1] matches Step::MoveData { from_sec, to_sec, count } && {
                &&& from_sec * 512 == f_offset
                &&& to_sec == from_sec + c_value
                &&& count * 512 <= block_size * block_count < (count + 1) * 512
            }
        }),
{
    lemma_fewest_blocks(c_value as nat, block_size as nat);
}

/// Calls give the plans, and may be made wherever there is one, as
/// [`can_extend`] and [`can_shrink`] tell.
pub proof fn lemma_plan_calls(
    f_offset: u64,
    f_sb: Superblock,
    c_value: u64,
    r: Vec<Step>,
    can: bool,
)
    ensures
        ({
            let extendable = is_extendable(f_offset, f_sb.block_size, f_sb.block_count, c_value);
            let shrinkable = is_shrinkable(f_offset, f_sb.block_size, f_sb.block_count, c_value);
            &&& extendable ==> call_requires(do_extend, (f_offset, f_sb, c_value))
            &&& shrinkable ==> call_requires(do_shrink, (f_offset, f_sb, c_value))
            &&& call_ensures(do_extend, (f_offset, f_sb, c_value), r) ==> r@ == extend_steps(
                f_offset,
                f_sb.block_size,
                f_sb.block_count,
                c_value,
            )
            &&& call_ensures(do_shrink, (f_offset, f_sb, c_value), r) ==> r@ == shrink_steps(
                f_offset,
                f_sb.block_size,
                f_sb.block_count,
                c_value,
            )
            &&& call_ensures(can_extend, (f_offset, &f_sb, c_value), can) ==> can == extendable
            &&& call_ensures(can_shrink, (f_offset, &f_sb, c_value), can) ==> can == shrinkable
        }),
{
}

} // verus!
