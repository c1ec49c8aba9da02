use bresize2fs::cli::{
    Args, BasicOperation, Locate, Operation, ParseOperationError, SectorCount, MIN_FS_SIZE,
};

fn parse(s: &str) -> Result<Operation, ParseOperationError> {
    s.parse::<Operation>()
}

fn extend(n: u64) -> BasicOperation {
    BasicOperation::ExtendSecs(SectorCount::new(n).unwrap())
}

fn shrink(n: u64) -> BasicOperation {
    BasicOperation::ShrinkSecs(SectorCount::new(n).unwrap())
}

#[test]
fn empty_text_extends_to_partition() {
    assert_eq!(parse(""), Ok(Operation::ExtendToPartition));
}

#[test]
fn plain_numbers_count_blocks() {
    assert_eq!(parse("5"), Ok(Operation::SetSizeBlks(5)));
    assert_eq!(parse("+70"), Ok(Operation::ExtendByBlks(70)));
    assert_eq!(parse("-007"), Ok(Operation::ShrinkByBlks(7)));
    assert_eq!(parse("18446744073709551615"), Ok(Operation::SetSizeBlks(u64::MAX)));
}

#[test]
fn suffixes_count_sectors() {
    assert_eq!(parse("12s"), Ok(Operation::SetSizeSecs(12)));
    assert_eq!(parse("+1K"), Ok(Operation::ExtendBySecs(2)));
    assert_eq!(parse("-3M"), Ok(Operation::ShrinkBySecs(6144)));
    assert_eq!(parse("1G"), Ok(Operation::SetSizeSecs(2097152)));
    assert_eq!(parse("+2T"), Ok(Operation::ExtendBySecs(4294967296)));
}

#[test]
fn suffix_case_does_not_matter() {
    for (upper, lower) in [("K", "k"), ("M", "m"), ("G", "g"), ("T", "t")] {
        for start in ["", "+", "9", "-4", "+18446744073709551615", "x"] {
            assert_eq!(
                parse(&format!("{}{}", start, upper)),
                parse(&format!("{}{}", start, lower))
            );
        }
    }
    assert_eq!(parse("12S"), Err(ParseOperationError::BadEnd));
}

#[test]
fn a_second_plus_belongs_to_the_number() {
    assert_eq!(parse("++5"), Ok(Operation::ExtendByBlks(5)));
    assert_eq!(parse("-+5s"), Ok(Operation::ShrinkBySecs(5)));
    assert_eq!(parse("--5"), Err(ParseOperationError::NotAnInteger));
}

#[test]
fn invalid_strings() {
    for s in ["+", "-", "s", "K", "x", "é", "é5", "5é", "+5€", "€"] {
        assert_eq!(parse(s), Err(ParseOperationError::InvalidString), "{}", s);
    }
}

#[test]
fn texts_without_an_integer() {
    for s in ["+s", "+-5", "5 5", "+ 5", "1_000", "0x10", "5é5", "18446744073709551616", "++"] {
        assert_eq!(parse(s), Err(ParseOperationError::NotAnInteger), "{}", s);
    }
}

#[test]
fn sizes_beyond_64_bits() {
    assert_eq!(parse("18446744073709551615K"), Err(ParseOperationError::TooBigSize));
    assert_eq!(parse("9223372036854775808k"), Err(ParseOperationError::TooBigSize));
    assert_eq!(parse("9223372036854775807k"), Ok(Operation::SetSizeSecs(u64::MAX - 1)));
    assert_eq!(parse("8589934592T"), Err(ParseOperationError::TooBigSize));
}

#[test]
fn bad_start_and_bad_end() {
    assert_eq!(parse("x5"), Err(ParseOperationError::BadStart));
    assert_eq!(parse("x5K"), Err(ParseOperationError::BadStart));
    assert_eq!(parse("5x"), Err(ParseOperationError::BadEnd));
    assert_eq!(parse("x5x"), Err(ParseOperationError::BadEnd));
}

#[test]
fn decimal_text_reads_back() {
    for n in [0u64, 1, 9, 10, 99, 100, 4096, 1234567890, u64::MAX] {
        let text = bresize2fs::text::decimal_string(n);
        assert_eq!(text, n.to_string());
        assert_eq!(parse(&text), Ok(Operation::SetSizeBlks(n)));
        assert_eq!(parse(&format!("+{}", text)), Ok(Operation::ExtendByBlks(n)));
        assert_eq!(parse(&format!("-{}s", text)), Ok(Operation::ShrinkBySecs(n)));
    }
}

#[test]
fn parsing_agrees_with_std() {
    for s in ["", "+", "0", "+0", "00012", "-1", "18446744073709551615", "18446744073709551616", "1a"] {
        let chars: Vec<char> = s.chars().collect();
        assert_eq!(
            bresize2fs::text::parse_u64(&chars, 0, chars.len()),
            s.parse::<u64>().ok(),
            "{}",
            s
        );
    }
}

#[test]
fn accepted_texts() {
    let signs = ["", "+", "-"];
    let suffixes = ["", "K", "k", "M", "m", "G", "g", "T", "t", "s"];
    for sign in signs {
        for plus in ["", "+"] {
            for digits in ["0", "12", "007"] {
                for suffix in suffixes {
                    let text = format!("{}{}{}{}", sign, plus, digits, suffix);
                    assert!(parse(&text).is_ok(), "{}", text);
                }
            }
        }
    }
    assert_eq!(parse("-+007K"), Ok(Operation::ShrinkBySecs(14)));
    assert_eq!(parse("++12T"), Ok(Operation::ExtendBySecs(25769803776)));
    assert_eq!(parse("+9223372036854775807k"), Ok(Operation::ExtendBySecs(u64::MAX - 1)));
    for text in [
        "+", "-", "K", "+K", "-+", "-+s", "+++5", "+-5", "5+", "5KK", "5sK", "1_0", " 5", "5 ",
        "*5", "5x", "+9223372036854775808k", "18446744073709551616", "5é",
    ] {
        assert!(parse(text).is_err(), "{}", text);
    }
}

#[test]
fn parse_error_messages() {
    assert_eq!(ParseOperationError::InvalidString.message(), "invalid string");
    assert_eq!(ParseOperationError::NotAnInteger.message(), "arg must be an integer");
    assert_eq!(ParseOperationError::TooBigSize.message(), "too big size");
    assert_eq!(
        ParseOperationError::BadStart.message(),
        "arg must start with +, - or a number"
    );
    assert_eq!(
        ParseOperationError::BadEnd.message(),
        "arg must end with K, M, G, T, s or a number"
    );
}

#[test]
fn sector_counts_are_positive() {
    assert!(SectorCount::new(0).is_none());
    assert_eq!(SectorCount::new(7).unwrap().get(), 7);
}

#[test]
fn extending() {
    let new = |op, offset| BasicOperation::new(op, 4, 65536, offset);
    assert_eq!(new(Operation::ExtendToPartition, 512 * 10), extend(10));
    assert_eq!(new(Operation::ExtendToPartition, 0), BasicOperation::Nothing);
    assert_eq!(new(Operation::ExtendBySecs(3), 512 * 10), extend(3));
    assert_eq!(new(Operation::ExtendBySecs(30), 512 * 10), extend(10));
    assert_eq!(new(Operation::ExtendBySecs(0), 512 * 10), BasicOperation::Nothing);
    // 300 blocks of 4 bytes fill two whole sectors
    assert_eq!(new(Operation::ExtendByBlks(300), 512 * 10), extend(2));
    assert_eq!(new(Operation::ExtendByBlks(127), 512 * 10), BasicOperation::Nothing);
}

#[test]
fn extending_to_partition_is_extending_by_enough() {
    for offset in [0u64, 512, 51200] {
        assert_eq!(
            BasicOperation::new(Operation::ExtendToPartition, 4, 65536, offset),
            BasicOperation::new(Operation::ExtendBySecs(u64::MAX), 4, 65536, offset)
        );
    }
}

#[test]
fn shrinking_keeps_the_smallest_size() {
    // 262144 bytes: 131072 above the smallest size
    let new = |op| BasicOperation::new(op, 4, 65536, 512);
    assert_eq!(new(Operation::ShrinkBySecs(10)), shrink(10));
    assert_eq!(new(Operation::ShrinkBySecs(1000)), shrink(256));
    assert_eq!(new(Operation::ShrinkBySecs(0)), BasicOperation::Nothing);
    assert_eq!(new(Operation::ShrinkByBlks(256)), shrink(2));
    let at_minimum = |op| BasicOperation::new(op, 4, 32768, 512);
    assert_eq!(at_minimum(Operation::ShrinkBySecs(1)), BasicOperation::Nothing);
    assert_eq!(MIN_FS_SIZE, 131072);
}

#[test]
fn setting_the_size() {
    // 512 sectors, 10 of room
    let new = |v| BasicOperation::new(Operation::SetSizeSecs(v), 4, 65536, 5120);
    assert_eq!(new(512), BasicOperation::Nothing);
    assert_eq!(new(513), extend(1));
    assert_eq!(new(522), extend(10));
    assert_eq!(new(523), BasicOperation::InvalidOp);
    assert_eq!(new(511), shrink(1));
    assert_eq!(new(256), shrink(256));
    assert_eq!(new(255), BasicOperation::InvalidOp);
    // 65664 blocks of 4 bytes are 513 sectors
    assert_eq!(
        BasicOperation::new(Operation::SetSizeBlks(65664), 4, 65536, 5120),
        extend(1)
    );
}

#[test]
fn small_filesystems_can_be_set_but_not_shrunk() {
    // 128 sectors
    assert!(!BasicOperation::can_compute(Operation::ShrinkBySecs(1), 4, 16384, 512));
    assert!(BasicOperation::can_compute(Operation::SetSizeSecs(1), 4, 16384, 512));
    assert_eq!(
        BasicOperation::new(Operation::SetSizeSecs(100), 4, 16384, 512),
        BasicOperation::InvalidOp
    );
    assert_eq!(BasicOperation::new(Operation::SetSizeSecs(129), 4, 16384, 512), extend(1));
}

#[test]
fn what_can_be_computed() {
    let can = BasicOperation::can_compute;
    assert!(can(Operation::ExtendToPartition, 4, u64::MAX, 512));
    assert!(!can(Operation::ExtendToPartition, 4, 10, 511));
    assert!(!can(Operation::SetSizeSecs(5), 4, u64::MAX, 512));
    assert!(!can(Operation::ShrinkBySecs(5), 4, u64::MAX, 512));
    assert!(!can(Operation::ExtendByBlks(u64::MAX), 4, 10, 512));
    assert!(can(Operation::ExtendByBlks(u64::MAX), 1, 10, 512));
    assert!(can(Operation::ShrinkByBlks(5), 4, 32768, 0));
}

#[test]
fn arguments_decide_how_to_go_on() {
    let args = |offset, yes| Args {
        path: b"/dev/sda1".to_vec(),
        op: Operation::ExtendToPartition,
        offset,
        yes,
    };
    assert_eq!(args(Some(512), false).locate(), Locate::Verify(512));
    assert_eq!(args(None, false).locate(), Locate::Search);
    assert!(args(None, false).asks_first());
    assert!(!args(None, true).asks_first());
}
