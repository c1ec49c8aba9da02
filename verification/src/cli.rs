//! What the command line asks for: a resize operation as text, and what it comes
//! to for a given filesystem.

use crate::text::{
    all_digits, chars_of, decimal, digits_value, is_ascii_digit, is_digit,
    lemma_decimal_reads_back, lemma_decimal_value, lemma_u64_texts, parse_u64, u64_of_text,
    unsigned_part,
};
use vstd::prelude::*;

verus! {

/// The smallest filesystem, in bytes, that a shrink leaves behind.
pub const MIN_FS_SIZE: u64 = 4096 * 32;

/// A requested change of size, in sectors or in filesystem blocks.
#[derive(Debug, Clone, Copy, PartialEq, Eq, Structural)]
pub enum Operation {
    ExtendToPartition,
    ExtendBySecs(u64),
    ShrinkBySecs(u64),
    SetSizeSecs(u64),
    ExtendByBlks(u64),
    ShrinkByBlks(u64),
    SetSizeBlks(u64),
}

/// Why a text is not an [`Operation`].
#[derive(Debug, Clone, Copy, PartialEq, Eq, Structural)]
pub enum ParseOperationError {
    InvalidString,
    NotAnInteger,
    TooBigSize,
    BadStart,
    BadEnd,
}

/// The number of sectors that a size suffix stands for; a text without one of
/// these suffixes counts its own unit.
pub open spec fn suffix_factor(last: char) -> nat {
    if last == 'K' || last == 'k' {
        2
    } else if last == 'M' || last == 'm' {
        2048
    } else if last == 'G' || last == 'g' {
        2097152
    } else if last == 'T' || last == 't' {
        2147483648
    } else {
        1
    }
}

/// Whether a text that ends in `last` counts sectors.
pub open spec fn is_sector_suffix(last: char) -> bool {
    suffix_factor(last) != 1 || last == 's'
}

pub open spec fn is_ascii_char(c: char) -> bool {
    (c as u32) < 128
}

/// Where the number in a nonempty text begins: after the first character,
/// unless that is a digit.
pub open spec fn number_start(s: Seq<char>) -> int {
    if is_digit(s[0]) {
        0
    } else {
        1
    }
}

/// Where the number in a nonempty text ends: before the last character, unless
/// that is a digit.
pub open spec fn number_end(s: Seq<char>) -> int {
    if is_digit(s.last()) {
        s.len() as int
    } else {
        s.len() - 1
    }
}

/// The operation on `n` units, in sectors or in blocks, that a text beginning
/// with `first` asks for.
pub open spec fn signed_operation(first: char, in_sectors: bool, n: u64) -> Result<
    Operation,
    ParseOperationError,
> {
    if first == '+' {
        Ok(if in_sectors { Operation::ExtendBySecs(n) } else { Operation::ExtendByBlks(n) })
    } else if first == '-' {
        Ok(if in_sectors { Operation::ShrinkBySecs(n) } else { Operation::ShrinkByBlks(n) })
    } else if is_digit(first) {
        Ok(if in_sectors { Operation::SetSizeSecs(n) } else { Operation::SetSizeBlks(n) })
    } else {
        Err(ParseOperationError::BadStart)
    }
}

/// The operation that a text asks for: nothing at all for all the room there
/// is, else an optional sign, a number and an optional size suffix.
pub open spec fn operation_of_text(s: Seq<char>) -> Result<Operation, ParseOperationError> {
    if s.len() == 0 {
        Ok(Operation::ExtendToPartition)
    } else if !is_ascii_char(s[0]) || !is_ascii_char(s.last()) || number_start(s) > number_end(s) {
        Err(ParseOperationError::InvalidString)
    } else {
        match u64_of_text(s.subrange(number_start(s), number_end(s))) {
            None => Err(ParseOperationError::NotAnInteger),
            Some(n) => {
                let total = n * suffix_factor(s.last());
                if total > u64::MAX {
                    Err(ParseOperationError::TooBigSize)
                } else if is_sector_suffix(s.last()) {
                    signed_operation(s[0], true, total as u64)
                } else if is_digit(s.last()) {
                    signed_operation(s[0], false, total as u64)
                } else {
                    Err(ParseOperationError::BadEnd)
                }
            },
        }
    }
}

impl ParseOperationError {
    /// What is wrong with the text, in words.
    pub open spec fn spec_message(self) -> Seq<char> {
        match self {
            ParseOperationError::InvalidString => "invalid string"@,
            ParseOperationError::NotAnInteger => "arg must be an integer"@,
            ParseOperationError::TooBigSize => "too big size"@,
            ParseOperationError::BadStart => "arg must start with +, - or a number"@,
            ParseOperationError::BadEnd => "arg must end with K, M, G, T, s or a number"@,
        }
    }

    pub fn message(&self) -> (r: &'static str)
        ensures
            r@ == self.spec_message(),
    {
        match self {
            ParseOperationError::InvalidString => "invalid string",
            ParseOperationError::NotAnInteger => "arg must be an integer",
            ParseOperationError::TooBigSize => "too big size",
            ParseOperationError::BadStart => "arg must start with +, - or a number",
            ParseOperationError::BadEnd => "arg must end with K, M, G, T, s or a number",
        }
    }
}

fn factor_of_suffix(last: char) -> (r: u64)
    ensures
        r == suffix_factor(last),
{
    match last {
        'K' | 'k' => 2,
        'M' | 'm' => 2048,
        'G' | 'g' => 2097152,
        'T' | 't' => 2147483648,
        _ => 1,
    }
}

impl core::str::FromStr for Operation {
    type Err = ParseOperationError;

    fn from_str(s: &str) -> (r: Result<Self, ParseOperationError>)
        ensures
            r == operation_of_text(s@),
    {
        let chars = chars_of(s);
        let n: usize = chars.len();
        if n == 0 {
            return Ok(Operation::ExtendToPartition);
        }
        let first: char = chars[0];
        let last: char = chars[n - 1];
        let starts_with_digit = is_ascii_digit(first);
        let ends_with_digit = is_ascii_digit(last);
        let lo: usize = if starts_with_digit {
            0
        } else {
            1
        };
        let hi: usize = if ends_with_digit {
            n
        } else {
            n - 1
        };
        if (first as u32) >= 128 || (last as u32) >= 128 || lo > hi {
            return Err(ParseOperationError::InvalidString);
        }
        let count: u64 = match parse_u64(&chars, lo, hi) {
            Some(x) => x,
            None => {
                return Err(ParseOperationError::NotAnInteger);
            },
        };
        let num: u64 = match count.checked_mul(factor_of_suffix(last)) {
            Some(x) => x,
            None => {
                return Err(ParseOperationError::TooBigSize);
            },
        };
        match last {
            'K' | 'k' | 'M' | 'm' | 'G' | 'g' | 'T' | 't' | 's' => {
                match first {
                    '+' => Ok(Operation::ExtendBySecs(num)),
                    '-' => Ok(Operation::ShrinkBySecs(num)),
                    _ => if starts_with_digit {
                        Ok(Operation::SetSizeSecs(num))
                    } else {
                        Err(ParseOperationError::BadStart)
                    },
                }
            },
            _ => if ends_with_digit {
                match first {
                    '+' => Ok(Operation::ExtendByBlks(num)),
                    '-' => Ok(Operation::ShrinkByBlks(num)),
                    _ => if starts_with_digit {
                        Ok(Operation::SetSizeBlks(num))
                    } else {
                        Err(ParseOperationError::BadStart)
                    },
                }
            } else {
                Err(ParseOperationError::BadEnd)
            },
        }
    }
}

/// What the command line says.
#[derive(Debug)]
pub struct Args {
    /// The file or device that holds the filesystem, as raw bytes.
    pub path: Vec<u8>,
    pub op: Operation,
    /// The byte at which the filesystem begins, where it is known.
    pub offset: Option<u64>,
    /// Whether to go on without asking.
    pub yes: bool,
}

/// How the filesystem is to be found.
#[derive(Debug, Clone, Copy, PartialEq, Eq, Structural)]
pub enum Locate {
    Verify(u64),
    Search,
}

impl Args {
    /// A filesystem is searched for only where its place is not given.
    pub fn locate(&self) -> (r: Locate)
        ensures
            r == match self.offset {
                Some(offset) => Locate::Verify(offset),
                None => Locate::Search,
            },
    {
        match self.offset {
            Some(offset) => Locate::Verify(offset),
            None => Locate::Search,
        }
    }

    /// Whether the user is to be asked before anything is changed.
    pub fn asks_first(&self) -> (r: bool)
        ensures
            r == !self.yes,
    {
        !self.yes
    }
}

/// A number of sectors that is not zero.
#[derive(Debug, Clone, Copy, PartialEq, Eq)]
pub struct SectorCount {
    count: u64,
}

impl View for SectorCount {
    type V = nat;

    closed spec fn view(&self) -> nat {
        self.count as nat
    }
}

impl SectorCount {
    #[verifier::type_invariant]
    spec fn is_positive(self) -> bool {
        self.count > 0
    }

    /// `None` for zero.
    pub fn new(count: u64) -> (r: Option<Self>)
        ensures
            match r {
                Some(n) => count > 0 && n@ == count,
                None => count == 0,
            },
    {
        if count == 0 {
            None
        } else {
            Some(SectorCount { count })
        }
    }

    pub fn get(&self) -> (r: u64)
        ensures
            r == self@,
            r > 0,
    {
        proof {
            use_type_invariant(self);
        }
        self.count
    }
}

/// What an operation comes to for a given filesystem.
#[derive(Debug, Clone, Copy, PartialEq, Eq)]
pub enum BasicOperation {
    Nothing,
    InvalidOp,
    ShrinkSecs(SectorCount),
    ExtendSecs(SectorCount),
}

/// A [`BasicOperation`] with its number of sectors as a mathematical number.
pub enum BasicOperationView {
    Nothing,
    InvalidOp,
    ShrinkSecs(nat),
    ExtendSecs(nat),
}

impl View for BasicOperation {
    type V = BasicOperationView;

    open spec fn view(&self) -> BasicOperationView {
        match *self {
            BasicOperation::Nothing => BasicOperationView::Nothing,
            BasicOperation::InvalidOp => BasicOperationView::InvalidOp,
            BasicOperation::ShrinkSecs(n) => BasicOperationView::ShrinkSecs(n@),
            BasicOperation::ExtendSecs(n) => BasicOperationView::ExtendSecs(n@),
        }
    }
}

pub open spec fn extension(n: nat) -> BasicOperationView {
    if n == 0 {
        BasicOperationView::Nothing
    } else {
        BasicOperationView::ExtendSecs(n)
    }
}

pub open spec fn shrinkage(n: nat) -> BasicOperationView {
    if n == 0 {
        BasicOperationView::Nothing
    } else {
        BasicOperationView::ShrinkSecs(n)
    }
}

pub open spec fn min(a: nat, b: nat) -> nat {
    if a <= b {
        a
    } else {
        b
    }
}

/// The whole sectors in `size` bytes.
pub open spec fn whole_sectors(size: nat) -> nat {
    size / 512
}

/// The size of a filesystem in bytes.
pub open spec fn fs_bytes(blk_size: u32, blk_count: u64) -> nat {
    (blk_size * blk_count) as nat
}

/// What setting the size to `v` sectors comes to, where the filesystem has
/// `current` sectors and `room` sectors lie in front of it.
pub open spec fn size_change(v: nat, current: nat, room: nat) -> BasicOperationView {
    if v < current {
        if v < whole_sectors(MIN_FS_SIZE as nat) {
            BasicOperationView::InvalidOp
        } else {
            BasicOperationView::ShrinkSecs((current - v) as nat)
        }
    } else if v - current > room {
        BasicOperationView::InvalidOp
    } else {
        extension((v - current) as nat)
    }
}

/// The number of sectors or blocks that an operation names.
pub open spec fn amount(op: Operation) -> nat {
    match op {
        Operation::ExtendToPartition => 0,
        Operation::ExtendBySecs(v) => v as nat,
        Operation::ShrinkBySecs(v) => v as nat,
        Operation::SetSizeSecs(v) => v as nat,
        Operation::ExtendByBlks(v) => v as nat,
        Operation::ShrinkByBlks(v) => v as nat,
        Operation::SetSizeBlks(v) => v as nat,
    }
}

pub open spec fn counts_blocks(op: Operation) -> bool {
    op is ExtendByBlks || op is ShrinkByBlks || op is SetSizeBlks
}

/// The whole sectors that an operation names.
pub open spec fn amount_in_sectors(op: Operation, blk_size: u32) -> nat {
    if counts_blocks(op) {
        whole_sectors(amount(op) * blk_size as nat)
    } else {
        amount(op)
    }
}

/// What `op` comes to for a filesystem of `blk_count` blocks that begins
/// `offset` bytes into its file: it grows into the sectors in front of it, and
/// shrinks to no less than the smallest size.
pub open spec fn basic_operation(
    op: Operation,
    blk_size: u32,
    blk_count: u64,
    offset: u64,
) -> BasicOperationView {
    let v = amount_in_sectors(op, blk_size);
    let room = whole_sectors(offset as nat);
    let size = fs_bytes(blk_size, blk_count);
    match op {
        Operation::ExtendToPartition => extension(room),
        Operation::ExtendBySecs(_) | Operation::ExtendByBlks(_) => extension(min(room, v)),
        Operation::ShrinkBySecs(_) | Operation::ShrinkByBlks(_) => shrinkage(
            min(whole_sectors((size - MIN_FS_SIZE) as nat), v),
        ),
        Operation::SetSizeSecs(_) | Operation::SetSizeBlks(_) => size_change(
            v,
            whole_sectors(size),
            room,
        ),
    }
}

/// Whether what `op` comes to can be computed: the filesystem begins at a
/// sector, every size involved fits in 64 bits, and a filesystem to shrink by
/// some amount has at least the smallest size.
pub open spec fn is_computable(op: Operation, blk_size: u32, blk_count: u64, offset: u64) -> bool {
    &&& offset % 512 == 0
    &&& counts_blocks(op) ==> amount(op) * blk_size as nat <= u64::MAX
    &&& match op {
        Operation::ExtendToPartition => true,
        Operation::ExtendBySecs(_) | Operation::ExtendByBlks(_) => true,
        Operation::ShrinkBySecs(_) | Operation::ShrinkByBlks(_) => MIN_FS_SIZE <= fs_bytes(
            blk_size,
            blk_count,
        ) <= u64::MAX,
        Operation::SetSizeSecs(_) | Operation::SetSizeBlks(_) => fs_bytes(blk_size, blk_count)
            <= u64::MAX,
    }
}

fn product(a: u64, b: u32) -> (r: u64)
    requires
        a * b <= u64::MAX,
    ensures
        r == a * b,
{
    proof {
        assert(a * b == a * (b as u64));
    }
    a * (b as u64)
}

impl BasicOperation {
    fn extend(n: u64) -> (r: Self)
        ensures
            r@ == extension(n as nat),
    {
        match SectorCount::new(n) {
            Some(x) => BasicOperation::ExtendSecs(x),
            None => BasicOperation::Nothing,
        }
    }

    fn shrink(n: u64) -> (r: Self)
        ensures
            r@ == shrinkage(n as nat),
    {
        match SectorCount::new(n) {
            Some(x) => BasicOperation::ShrinkSecs(x),
            None => BasicOperation::Nothing,
        }
    }

    /// Whether [`BasicOperation::new`] may be called with these arguments.
    pub fn can_compute(op: Operation, blk_size: u32, blk_count: u64, offset: u64) -> (r: bool)
        ensures
            r == is_computable(op, blk_size, blk_count, offset),
    {
        proof {
            assert(blk_size * blk_count == blk_count * (blk_size as u64)) by (nonlinear_arith);
        }
        let size: Option<u64> = blk_count.checked_mul(blk_size as u64);
        let amount_fits = match op {
            Operation::ExtendByBlks(v) | Operation::ShrinkByBlks(v) | Operation::SetSizeBlks(v) =>
                v.checked_mul(blk_size as u64).is_some(),
            _ => true,
        };
        let size_fits = match op {
            Operation::ShrinkBySecs(_) | Operation::ShrinkByBlks(_) => match size {
                Some(x) => x >= MIN_FS_SIZE,
                None => false,
            },
            Operation::SetSizeSecs(_) | Operation::SetSizeBlks(_) => size.is_some(),
            _ => true,
        };
        offset % 512 == 0 && amount_fits && size_fits
    }

    /// What `op` comes to for a filesystem of `blk_count` blocks of `blk_size`
    /// bytes that begins `offset` bytes into its file.
    pub fn new(op: Operation, blk_size: u32, blk_count: u64, offset: u64) -> (r: Self)
        requires
            is_computable(op, blk_size, blk_count, offset),
        ensures
            r@ == basic_operation(op, blk_size, blk_count, offset),
        decreases counts_blocks(op) as nat,
    {
        proof {
            assert(blk_size * blk_count == blk_count * blk_size) by (nonlinear_arith);
        }
        match op {
            Operation::ExtendToPartition => Self::extend(offset / 512),
            Operation::ExtendBySecs(v) => {
                let room: u64 = offset / 512;
                Self::extend(if room <= v { room } else { v })
            },
            Operation::ShrinkBySecs(v) => {
                let spare: u64 = (product(blk_count, blk_size) - MIN_FS_SIZE) / 512;
                Self::shrink(if spare <= v { spare } else { v })
            },
            Operation::SetSizeSecs(v) => {
                let fs_size_sec: u64 = product(blk_count, blk_size) / 512;
                if v < fs_size_sec {
                    if v < MIN_FS_SIZE / 512 {
                        BasicOperation::InvalidOp
                    } else {
                        Self::shrink(fs_size_sec - v)
                    }
                } else if v == fs_size_sec {
                    BasicOperation::Nothing
                } else {
                    let gr_by: u64 = v - fs_size_sec;
                    if gr_by > offset / 512 {
                        BasicOperation::InvalidOp
                    } else {
                        Self::extend(gr_by)
                    }
                }
            },
            Operation::ExtendByBlks(v) => {
                Self::new(Operation::ExtendBySecs(product(v, blk_size) / 512), blk_size, blk_count, offset)
            },
            Operation::ShrinkByBlks(v) => {
                Self::new(Operation::ShrinkBySecs(product(v, blk_size) / 512), blk_size, blk_count, offset)
            },
            Operation::SetSizeBlks(v) => {
                Self::new(Operation::SetSizeSecs(product(v, blk_size) / 512), blk_size, blk_count, offset)
            },
        }
    }
}

/// The text that writes an operation: a sign, a number in decimal, a suffix.
pub open spec fn operation_text(sign: Option<char>, n: u64, suffix: Option<char>) -> Seq<char> {
    let number = decimal(n as nat);
    let signed = match sign {
        Some(c) => seq![c] + number,
        None => number,
    };
    match suffix {
        Some(c) => signed.push(c),
        None => signed,
    }
}

/// A text made of a plus, a minus or no sign, a number, and a sector suffix or
/// none is read as the operation that it writes, unless its number of sectors
/// exceeds 64 bits.
pub proof fn lemma_operation_text_reads_back(sign: Option<char>, n: u64, suffix: Option<char>)
    requires
        sign matches Some(c) ==> c == '+' || c == '-',
        suffix matches Some(c) ==> is_sector_suffix(c),
    ensures
        ({
            let total = n * (if suffix is Some { suffix_factor(suffix->0) } else { 1 });
            let first = if sign is Some { sign->0 } else { '0' };
            operation_of_text(operation_text(sign, n, suffix)) == if total > u64::MAX {
                Err(ParseOperationError::TooBigSize)
            } else {
                signed_operation(first, suffix is Some, total as u64)
            }
        }),
{
    let number = decimal(n as nat);
    lemma_decimal_value(n as nat);
    lemma_decimal_reads_back(n);
    let s = operation_text(sign, n, suffix);
    assert(is_digit(number[0]));
    assert(is_digit(number.last()));
    assert(s.subrange(number_start(s), number_end(s)) =~= number);
    if suffix is Some {
        assert(s.last() == suffix->0);
        assert(!is_digit(s.last()));
    } else {
        assert(s.last() == number.last());
    }
    if sign is None {
        assert(s[0] == number[0]);
    }
}

/// The text made of a sign, a further plus, digits and a suffix.
pub open spec fn joined(
    sign: Option<char>,
    plus: bool,
    digits: Seq<char>,
    suffix: Option<char>,
) -> Seq<char> {
    let sign_text = if sign is Some {
        seq![sign->0]
    } else {
        Seq::empty()
    };
    let plus_text = if plus {
        seq!['+']
    } else {
        Seq::empty()
    };
    let suffix_text = if suffix is Some {
        seq![suffix->0]
    } else {
        Seq::empty()
    };
    sign_text + plus_text + digits + suffix_text
}

/// The number of sectors or blocks that digits with a suffix write.
pub open spec fn written_amount(digits: Seq<char>, suffix: Option<char>) -> nat {
    digits_value(digits) * (if suffix is Some {
        suffix_factor(suffix->0)
    } else {
        1
    })
}

/// Whether these parts make an operation: a plus or a minus or no sign, after a
/// sign perhaps one further plus, at least one digit, and one of the suffixes
/// or none, with an amount within 64 bits.
pub open spec fn is_well_formed(
    sign: Option<char>,
    plus: bool,
    digits: Seq<char>,
    suffix: Option<char>,
) -> bool {
    &&& sign matches Some(c) ==> c == '+' || c == '-'
    &&& plus ==> sign is Some
    &&& digits.len() > 0
    &&& all_digits(digits)
    &&& suffix matches Some(c) ==> is_sector_suffix(c)
    &&& written_amount(digits, suffix) <= u64::MAX
}

/// The operation that well-formed parts make.
pub open spec fn formed_operation(
    sign: Option<char>,
    digits: Seq<char>,
    suffix: Option<char>,
) -> Operation {
    let n = written_amount(digits, suffix) as u64;
    match (sign, suffix is Some) {
        (None, true) => Operation::SetSizeSecs(n),
        (None, false) => Operation::SetSizeBlks(n),
        (Some(c), true) => if c == '+' {
            Operation::ExtendBySecs(n)
        } else {
            Operation::ShrinkBySecs(n)
        },
        (Some(c), false) => if c == '+' {
            Operation::ExtendByBlks(n)
        } else {
            Operation::ShrinkByBlks(n)
        },
    }
}

/// A text of well-formed parts is read as the operation that they make.
pub proof fn lemma_well_formed_is_read(
    sign: Option<char>,
    plus: bool,
    digits: Seq<char>,
    suffix: Option<char>,
)
    requires
        is_well_formed(sign, plus, digits, suffix),
    ensures
        operation_of_text(joined(sign, plus, digits, suffix)) == Ok::<
            Operation,
            ParseOperationError,
        >(formed_operation(sign, digits, suffix)),
{
    let s = joined(sign, plus, digits, suffix);
    assert(is_digit(digits[0]));
    assert(is_digit(digits.last()));
    let number = s.subrange(number_start(s), number_end(s));
    if suffix is Some {
        assert(s.last() == suffix->0);
        assert(!is_digit(s.last()));
    } else {
        assert(s.last() == digits.last());
    }
    if sign is None {
        assert(s[0] == digits[0]);
    } else {
        assert(s[0] == sign->0);
    }
    assert(unsigned_part(number) =~= digits);
    assert(digits_value(digits) <= u64::MAX) by (nonlinear_arith)
        requires
            written_amount(digits, suffix) <= u64::MAX,
            written_amount(digits, suffix) == digits_value(digits) * (if suffix is Some {
                suffix_factor(suffix->0)
            } else {
                1
            }),
            suffix is Some ==> suffix_factor(suffix->0) >= 1,
    ;
}

/// Exactly these texts are accepted: the empty one, and those of well-formed
/// parts.
pub proof fn lemma_accepted_texts(s: Seq<char>)
    ensures
        operation_of_text(s) is Ok <==> s.len() == 0 || exists|
            sign: Option<char>,
            plus: bool,
            digits: Seq<char>,
            suffix: Option<char>,
        |
            is_well_formed(sign, plus, digits, suffix) && s == #[trigger] joined(
                sign,
                plus,
                digits,
                suffix,
            ),
{
    if s.len() > 0 {
        if operation_of_text(s) is Ok {
            let number = s.subrange(number_start(s), number_end(s));
            let sign = if is_digit(s[0]) {
                None
            } else {
                Some(s[0])
            };
            let suffix = if is_digit(s.last()) {
                None
            } else {
                Some(s.last())
            };
            let plus = number.len() > 0 && number[0] == '+';
            let digits = unsigned_part(number);
            assert(s =~= joined(sign, plus, digits, suffix));
            assert(is_well_formed(sign, plus, digits, suffix));
        }
        if exists|sign: Option<char>, plus: bool, digits: Seq<char>, suffix: Option<char>|
            is_well_formed(sign, plus, digits, suffix) && s == #[trigger] joined(
                sign,
                plus,
                digits,
                suffix,
            ) {
            let (sign, plus, digits, suffix) = choose|
                sign: Option<char>,
                plus: bool,
                digits: Seq<char>,
                suffix: Option<char>,
            |
                is_well_formed(sign, plus, digits, suffix) && s == #[trigger] joined(
                    sign,
                    plus,
                    digits,
                    suffix,
                );
            lemma_well_formed_is_read(sign, plus, digits, suffix);
        }
    }
}

/// A suffix stands for so many sectors of 512 bytes as make a binary unit, and
/// `s` for one sector; no other character is a suffix.
pub proof fn lemma_suffixes(c: char)
    ensures
        is_sector_suffix(c) <==> c == 'K' || c == 'k' || c == 'M' || c == 'm' || c == 'G' || c
            == 'g' || c == 'T' || c == 't' || c == 's',
        c == 'K' || c == 'k' ==> suffix_factor(c) * 512 == 1024,
        c == 'M' || c == 'm' ==> suffix_factor(c) * 512 == 1024 * 1024,
        c == 'G' || c == 'g' ==> suffix_factor(c) * 512 == 1024 * 1024 * 1024,
        c == 'T' || c == 't' ==> suffix_factor(c) * 512 == 1024int * 1024 * 1024 * 1024,
        c == 's' ==> suffix_factor(c) == 1,
{
}

/// Digits ask for a size, digits behind a plus for growth and behind a minus
/// for shrinking; without a suffix they count blocks, with one of them the
/// sectors that it stands for, as long as those are within 64 bits.
pub proof fn lemma_reading(digits: Seq<char>, n: u64, suffix: char, sectors: nat)
    requires
        digits.len() > 0,
        forall|i: int| 0 <= i < digits.len() ==> '0' <= #[trigger] digits[i] <= '9',
        digits_value(digits) == n,
        (suffix == 's' && sectors == 1) || ((suffix == 'K' || suffix == 'k') && sectors == 2) || ((
        suffix == 'M' || suffix == 'm') && sectors == 2048) || ((suffix == 'G' || suffix == 'g')
            && sectors == 2097152) || ((suffix == 'T' || suffix == 't') && sectors == 2147483648),
    ensures
        operation_of_text(Seq::empty()) == Ok::<Operation, ParseOperationError>(
            Operation::ExtendToPartition,
        ),
        operation_of_text(digits) == Ok::<Operation, ParseOperationError>(
            Operation::SetSizeBlks(n),
        ),
        operation_of_text(seq!['+'] + digits) == Ok::<Operation, ParseOperationError>(
            Operation::ExtendByBlks(n),
        ),
        operation_of_text(seq!['-'] + digits) == Ok::<Operation, ParseOperationError>(
            Operation::ShrinkByBlks(n),
        ),
        n * sectors <= u64::MAX ==> {
            let m = (n * sectors) as u64;
            &&& operation_of_text(digits.push(suffix)) == Ok::<Operation, ParseOperationError>(
                Operation::SetSizeSecs(m),
            )
            &&& operation_of_text((seq!['+'] + digits).push(suffix)) == Ok::<
                Operation,
                ParseOperationError,
            >(Operation::ExtendBySecs(m))
            &&& operation_of_text((seq!['-'] + digits).push(suffix)) == Ok::<
                Operation,
                ParseOperationError,
            >(Operation::ShrinkBySecs(m))
        },
        n * sectors > u64::MAX ==> {
            let refused = Err::<Operation, ParseOperationError>(ParseOperationError::TooBigSize);
            &&& operation_of_text(digits.push(suffix)) == refused
            &&& operation_of_text((seq!['+'] + digits).push(suffix)) == refused
            &&& operation_of_text((seq!['-'] + digits).push(suffix)) == refused
        },
{
    lemma_u64_texts(digits, digits);
    lemma_digit_edges(digits);
    assert('0' <= digits[0] <= '9');
    assert('0' <= digits.last() <= '9');
    let plus = seq!['+'] + digits;
    let minus = seq!['-'] + digits;
    assert(plus.last() == digits.last());
    assert(minus.last() == digits.last());
    assert(digits.subrange(0, digits.len() as int) =~= digits);
    assert(plus.subrange(1, plus.len() as int) =~= digits);
    assert(minus.subrange(1, minus.len() as int) =~= digits);
    assert(digits.push(suffix).subrange(0, digits.len() as int) =~= digits);
    assert(plus.push(suffix).subrange(1, plus.len() as int) =~= digits);
    assert(minus.push(suffix).subrange(1, minus.len() as int) =~= digits);
    assert(n * 1 == n);
}

proof fn lemma_digit_edges(digits: Seq<char>)
    requires
        digits.len() > 0,
        forall|i: int| 0 <= i < digits.len() ==> '0' <= #[trigger] digits[i] <= '9',
    ensures
        is_digit(digits[0]),
        is_digit(digits.last()),
{
    assert('0' <= digits[0] <= '9');
    assert('0' <= digits.last() <= '9');
}

/// One further plus between the sign and the number changes nothing.
pub proof fn lemma_further_plus(sign: char, digits: Seq<char>, suffix: Seq<char>)
    requires
        sign == '+' || sign == '-',
        digits.len() > 0,
        forall|i: int| 0 <= i < digits.len() ==> '0' <= #[trigger] digits[i] <= '9',
        suffix.len() <= 1,
        suffix.len() == 1 ==> !('0' <= suffix[0] <= '9'),
    ensures
        operation_of_text(seq![sign, '+'] + digits + suffix) == operation_of_text(
            seq![sign] + digits + suffix,
        ),
{
    lemma_u64_texts(digits, digits);
    lemma_digit_edges(digits);
    let long = seq![sign, '+'] + digits + suffix;
    let short = seq![sign] + digits + suffix;
    if suffix.len() == 1 {
        assert(long.last() == suffix[0] && short.last() == suffix[0]);
    } else {
        assert(long.last() == digits.last() && short.last() == digits.last());
    }
    assert(long.subrange(number_start(long), number_end(long)) =~= seq!['+'] + digits);
    assert(short.subrange(number_start(short), number_end(short)) =~= digits);
}

/// Which error a text gets: it is no string to cut where an end of it is not
/// ASCII or nothing but one character that is no digit is there; else what lies
/// between a first and a last character that are no digits must be a number;
/// else the size must be within 64 bits; else the text must end right, and else
/// begin right.
pub proof fn lemma_errors(s: Seq<char>)
    requires
        s.len() > 0,
    ensures
        ({
            let digit_first = '0' <= s[0] <= '9';
            let digit_last = '0' <= s.last() <= '9';
            let lo = if digit_first {
                0int
            } else {
                1
            };
            let hi = if digit_last {
                s.len() as int
            } else {
                s.len() - 1
            };
            let uncut = s[0] as u32 >= 128 || s.last() as u32 >= 128 || (s.len() == 1
                && !digit_first);
            let number = u64_of_text(s.subrange(lo, hi));
            let good_start = digit_first || s[0] == '+' || s[0] == '-';
            let good_end = digit_last || seq!['K', 'k', 'M', 'm', 'G', 'g', 'T', 't', 's'].contains(
                s.last(),
            );
            let too_big = number is Some && number->0 * suffix_factor(s.last()) > u64::MAX;
            let r = operation_of_text(s);
            &&& (r matches Err(e) && e is InvalidString) <==> uncut
            &&& (r matches Err(e) && e is NotAnInteger) <==> !uncut && number is None
            &&& (r matches Err(e) && e is TooBigSize) <==> !uncut && too_big
            &&& (r matches Err(e) && e is BadEnd) <==> !uncut && number is Some && !too_big
                && !good_end
            &&& (r matches Err(e) && e is BadStart) <==> !uncut && number is Some && !too_big
                && good_end && !good_start
        }),
{
    let ends = seq!['K', 'k', 'M', 'm', 'G', 'g', 'T', 't', 's'];
    let c = s.last();
    assert(ends[0] == 'K' && ends[1] == 'k' && ends[2] == 'M' && ends[3] == 'm' && ends[4] == 'G'
        && ends[5] == 'g' && ends[6] == 'T' && ends[7] == 't' && ends[8] == 's');
    assert(is_sector_suffix(c) <==> ends.contains(c)) by {
        if is_sector_suffix(c) {
            assert(ends.contains(c));
        }
    }
}

/// A size suffix means the same in either letter case.
pub proof fn lemma_suffix_case(s: Seq<char>, upper: char, lower: char)
    requires
        (upper == 'K' && lower == 'k') || (upper == 'M' && lower == 'm') || (upper == 'G' && lower
            == 'g') || (upper == 'T' && lower == 't'),
    ensures
        operation_of_text(s.push(upper)) == operation_of_text(s.push(lower)),
{
    let a = s.push(upper);
    let b = s.push(lower);
    if s.len() > 0 {
        assert(a[0] == s[0] && b[0] == s[0]);
        assert(a.subrange(number_start(a), number_end(a)) =~= b.subrange(
            number_start(b),
            number_end(b),
        ));
    }
}

/// Growth by `v` sectors is of exactly `v` sectors where there is room for them
/// in front of the filesystem, and else of all the sectors that there are;
/// growth to the partition is of all of them too.
pub proof fn lemma_growth_is_exact(v: u64, blk_size: u32, blk_count: u64, offset: u64)
    ensures
        ({
            let by = basic_operation(Operation::ExtendBySecs(v), blk_size, blk_count, offset);
            let all = basic_operation(Operation::ExtendToPartition, blk_size, blk_count, offset);
            &&& 0 < v && v * 512 <= offset ==> by == BasicOperationView::ExtendSecs(v as nat)
            &&& v == 0 || offset < 512 ==> by is Nothing
            &&& v * 512 > offset ==> by == all
            &&& offset < 512 ==> all is Nothing
            &&& 512 <= offset ==> (all matches BasicOperationView::ExtendSecs(n) && n * 512
                <= offset < (n + 1) * 512)
        }),
{
}

/// Shrinking by `v` sectors is of exactly `v` sectors where the filesystem is
/// then no smaller than 128 KiB, and else of the most sectors that leave it so.
pub proof fn lemma_shrinking_is_exact(v: u64, blk_size: u32, blk_count: u64, offset: u64)
    requires
        blk_size * blk_count >= 131072,
    ensures
        ({
            let size = blk_size * blk_count;
            let by = basic_operation(Operation::ShrinkBySecs(v), blk_size, blk_count, offset);
            &&& 0 < v && v * 512 + 131072 <= size ==> by == BasicOperationView::ShrinkSecs(v as nat)
            &&& v == 0 || size < 131072 + 512 ==> by is Nothing
            &&& v * 512 + 131072 > size >= 131072 + 512 ==> (
            by matches BasicOperationView::ShrinkSecs(n) && n * 512 + 131072 <= size < (n + 1) * 512
                + 131072)
        }),
{
}

/// Setting the size to `v` sectors changes the whole sectors that the
/// filesystem has by exactly the difference. It is refused where the result
/// would be smaller than before and than 128 KiB, or where there is no room in
/// front for the growth.
pub proof fn lemma_setting_is_exact(v: u64, blk_size: u32, blk_count: u64, offset: u64)
    ensures
        ({
            let size = blk_size * blk_count;
            let set = basic_operation(Operation::SetSizeSecs(v), blk_size, blk_count, offset);
            let smaller = (v + 1) * 512 <= size;
            let larger = v * 512 > size;
            &&& !smaller && !larger ==> set is Nothing
            &&& smaller && v * 512 < 131072 ==> set is InvalidOp
            &&& smaller && v * 512 >= 131072 ==> (set matches BasicOperationView::ShrinkSecs(n)
                && (v + n) * 512 <= size < (v + n + 1) * 512)
            &&& larger ==> {
                let n = v - size / 512;
                if n * 512 <= offset {
                    set == BasicOperationView::ExtendSecs(n as nat)
                } else {
                    set is InvalidOp
                }
            }
        }),
{
    assert(blk_size * blk_count >= 0) by (nonlinear_arith);
}

/// What is asked for can be worked out where the filesystem begins at a sector
/// and the sizes in bytes that count are within 64 bits: that of an amount of
/// blocks, and, but for growth, that of the filesystem. To shrink by an amount,
/// it must have 128 KiB.
pub proof fn lemma_computable(v: u64, blk_size: u32, blk_count: u64, offset: u64)
    ensures
        ({
            let starts = offset % 512 == 0;
            let amount_fits = v * blk_size <= u64::MAX;
            let size = blk_size * blk_count;
            let size_fits = size <= u64::MAX;
            let can = |op: Operation| is_computable(op, blk_size, blk_count, offset);
            &&& can(Operation::ExtendToPartition) <==> starts
            &&& can(Operation::ExtendBySecs(v)) <==> starts
            &&& can(Operation::ShrinkBySecs(v)) <==> starts && size_fits && size >= 131072
            &&& can(Operation::SetSizeSecs(v)) <==> starts && size_fits
            &&& can(Operation::ExtendByBlks(v)) <==> starts && amount_fits
            &&& can(Operation::ShrinkByBlks(v)) <==> starts && amount_fits && size_fits && size
                >= 131072
            &&& can(Operation::SetSizeBlks(v)) <==> starts && amount_fits && size_fits
        }),
{
    assert(blk_size * blk_count >= 0) by (nonlinear_arith);
    assert(v * blk_size >= 0) by (nonlinear_arith);
}

/// A call of [`BasicOperation::new`] gives what the operation comes to, and may
/// be made wherever that can be computed, as [`BasicOperation::can_compute`]
/// tells.
pub proof fn lemma_new_call(
    op: Operation,
    blk_size: u32,
    blk_count: u64,
    offset: u64,
    r: BasicOperation,
    can: bool,
)
    ensures
        call_ensures(BasicOperation::new, (op, blk_size, blk_count, offset), r) ==> match basic_operation(
            op,
            blk_size,
            blk_count,
            offset,
        ) {
            BasicOperationView::Nothing => r is Nothing,
            BasicOperationView::InvalidOp => r is InvalidOp,
            BasicOperationView::ShrinkSecs(n) => r matches BasicOperation::ShrinkSecs(m) && m@ == n,
            BasicOperationView::ExtendSecs(n) => r matches BasicOperation::ExtendSecs(m) && m@ == n,
        },
        call_ensures(BasicOperation::can_compute, (op, blk_size, blk_count, offset), can) ==> (can
            <==> is_computable(op, blk_size, blk_count, offset)),
        is_computable(op, blk_size, blk_count, offset) ==> call_requires(
            BasicOperation::new,
            (op, blk_size, blk_count, offset),
        ),
{
}

/// A number of sectors is made of any number but zero, and is that number.
pub proof fn lemma_sector_counts(count: u64, made: Option<SectorCount>, got: u64)
    ensures
        call_ensures(SectorCount::new, (count,), made) ==> {
            &&& made is None <==> count == 0
            &&& made matches Some(n) ==> (call_ensures(SectorCount::get, (&n,), got) ==> got
                == count)
        },
{
}

/// The place of the filesystem is searched for exactly where none is given, and
/// a given one is taken as it is; the user is asked exactly where they did not
/// agree beforehand.
pub proof fn lemma_args(args: Args, place: Locate, asks: bool)
    ensures
        call_ensures(Args::locate, (&args,), place) ==> {
            &&& place is Search <==> args.offset is None
            &&& place matches Locate::Verify(offset) ==> args.offset == Some(offset)
        },
        call_ensures(Args::asks_first, (&args,), asks) ==> asks != args.yes,
{
}

/// An extension is of at least one sector and of no more than lie in front of
/// the filesystem.
pub proof fn lemma_extension_has_room(op: Operation, blk_size: u32, blk_count: u64, offset: u64)
    requires
        is_computable(op, blk_size, blk_count, offset),
    ensures
        basic_operation(op, blk_size, blk_count, offset) matches BasicOperationView::ExtendSecs(n)
            ==> 0 < n && n * 512 <= offset,
{
}

/// A shrink is of at least one sector and leaves at least the smallest size.
pub proof fn lemma_shrink_keeps_minimum(op: Operation, blk_size: u32, blk_count: u64, offset: u64)
    requires
        is_computable(op, blk_size, blk_count, offset),
    ensures
        basic_operation(op, blk_size, blk_count, offset) matches BasicOperationView::ShrinkSecs(n)
            ==> 0 < n && n * 512 + MIN_FS_SIZE <= fs_bytes(blk_size, blk_count),
{
}

/// An operation that extends never shrinks, and one that shrinks never extends;
/// neither is ever invalid.
pub proof fn lemma_direction(op: Operation, blk_size: u32, blk_count: u64, offset: u64)
    requires
        is_computable(op, blk_size, blk_count, offset),
    ensures
        op is ExtendToPartition || op is ExtendBySecs || op is ExtendByBlks ==> {
            let r = basic_operation(op, blk_size, blk_count, offset);
            r is Nothing || r is ExtendSecs
        },
        op is ShrinkBySecs || op is ShrinkByBlks ==> {
            let r = basic_operation(op, blk_size, blk_count, offset);
            r is Nothing || r is ShrinkSecs
        },
{
}

/// Setting the size either ends at exactly the requested number of sectors or
/// is refused, and it is refused exactly where it would shrink below the
/// smallest size or grow beyond the room there is.
pub proof fn lemma_set_size_is_exact(op: Operation, blk_size: u32, blk_count: u64, offset: u64)
    requires
        op is SetSizeSecs || op is SetSizeBlks,
        is_computable(op, blk_size, blk_count, offset),
    ensures
        ({
            let v = amount_in_sectors(op, blk_size) as int;
            let current = whole_sectors(fs_bytes(blk_size, blk_count)) as int;
            match basic_operation(op, blk_size, blk_count, offset) {
                BasicOperationView::Nothing => v == current,
                BasicOperationView::ShrinkSecs(n) => current - n == v,
                BasicOperationView::ExtendSecs(n) => current + n == v,
                BasicOperationView::InvalidOp => v != current,
            }
        }),
        ({
            let v = amount_in_sectors(op, blk_size) as int;
            let current = whole_sectors(fs_bytes(blk_size, blk_count)) as int;
            basic_operation(op, blk_size, blk_count, offset) is InvalidOp <==> (v < current && v
                * 512 < MIN_FS_SIZE) || (v - current) * 512 > offset
        }),
{
}

/// Extending to the partition is extending by any number of sectors that is
/// not below the room there is.
pub proof fn lemma_extend_to_partition(v: u64, blk_size: u32, blk_count: u64, offset: u64)
    requires
        v * 512 >= offset,
    ensures
        basic_operation(Operation::ExtendToPartition, blk_size, blk_count, offset)
            == basic_operation(Operation::ExtendBySecs(v), blk_size, blk_count, offset),
{
}

/// An operation in blocks comes to what the same operation comes to in the
/// whole sectors that those blocks fill.
pub proof fn lemma_blocks_are_sectors(v: u64, blk_size: u32, blk_count: u64, offset: u64)
    requires
        v * blk_size <= u64::MAX,
    ensures
        ({
            let secs = (v * blk_size / 512) as u64;
            &&& basic_operation(Operation::ExtendByBlks(v), blk_size, blk_count, offset)
                == basic_operation(Operation::ExtendBySecs(secs), blk_size, blk_count, offset)
            &&& basic_operation(Operation::ShrinkByBlks(v), blk_size, blk_count, offset)
                == basic_operation(Operation::ShrinkBySecs(secs), blk_size, blk_count, offset)
            &&& basic_operation(Operation::SetSizeBlks(v), blk_size, blk_count, offset)
                == basic_operation(Operation::SetSizeSecs(secs), blk_size, blk_count, offset)
        }),
{
    assert(v * blk_size >= 0) by (nonlinear_arith);
}

} // verus!
