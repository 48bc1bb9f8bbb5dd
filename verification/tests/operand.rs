use rust_find::error::ParseError;
use rust_find::operand::{parse_cmp_prefix, parse_depth, parse_mtime, parse_size, parse_type};
use rust_find::pred::{Cmp, FileType};
use rust_find::text::{chars_of, parse_i64, parse_u64, parse_usize, text_eq, to_lower};
use rust_find::time::Timestamp;

#[test]
fn cmp_test() {
    assert!(Cmp::Eq.test(5, 5));
    assert!(!Cmp::Eq.test(4, 5));
    assert!(Cmp::Lt.test(3, 5));
    assert!(Cmp::Gt.test(7, 5));
}

#[test]
fn cmp_is_strict() {
    assert!(!Cmp::Lt.test(5, 5));
    assert!(!Cmp::Gt.test(5, 5));
    assert!(Cmp::Lt.test(i64::MIN, i64::MAX));
    assert!(Cmp::Eq == Cmp::Eq);
    assert!(Cmp::Eq != Cmp::Lt);
    assert!(Cmp::Gt != Cmp::Lt);
}

#[test]
fn parse_size_units() {
    assert_eq!(parse_size("100c"), Ok((Cmp::Eq, 100)));
    assert_eq!(parse_size("+1k"), Ok((Cmp::Gt, 1024)));
    assert_eq!(parse_size("-2M"), Ok((Cmp::Lt, 2 * 1024 * 1024)));
}

#[test]
fn parse_size_blocks_and_gigabytes() {
    assert_eq!(parse_size("3"), Ok((Cmp::Eq, 1536)));
    assert_eq!(parse_size("+0"), Ok((Cmp::Gt, 0)));
    assert_eq!(parse_size("2G"), Ok((Cmp::Eq, 2147483648)));
    assert_eq!(parse_size("++7c"), Ok((Cmp::Gt, 7)));
    assert_eq!(parse_size("18446744073709551615c"), Ok((Cmp::Eq, u64::MAX)));
    assert_eq!(parse_size("36028797018963967"), Ok((Cmp::Eq, 18446744073709551104)));
}

#[test]
fn units_scale() {
    for (letter, bytes) in [("c", 1u64), ("k", 1024), ("M", 1048576), ("G", 1073741824), ("", 512)] {
        for n in [0u64, 1, 3, 1000] {
            assert_eq!(parse_size(&format!("{}{}", n, letter)), Ok((Cmp::Eq, n * bytes)));
        }
    }
}

#[test]
fn operands_read_back() {
    for (sign, qualifier) in [("", Cmp::Eq), ("+", Cmp::Gt), ("-", Cmp::Lt)] {
        for n in [0u64, 9, 10, 1234567, u64::MAX] {
            assert_eq!(parse_size(&format!("{}{}c", sign, n)), Ok((qualifier, n)));
        }
        for days in [0i64, 9, 10, 365, i64::MAX] {
            assert_eq!(parse_mtime(&format!("{}{}", sign, days)), Ok((qualifier, days)));
        }
    }
    for n in [0usize, 10, usize::MAX] {
        assert_eq!(parse_depth("-maxdepth", &format!("{}", n)), Ok(n));
    }
}

#[test]
fn parse_size_refuses() {
    for arg in ["", "c", "+", "-k", "1b", "1kk", " 1", "1 ", "0x1", "--5", "1_0", "\u{661}"] {
        assert_eq!(parse_size(arg), Err(ParseError::InvalidSize(arg.to_string())));
    }
    let long = "18446744073709551616c";
    assert_eq!(parse_size(long), Err(ParseError::InvalidSize(long.to_string())));
}

#[test]
fn parse_size_overflow() {
    for arg in ["36028797018963968", "18014398509481984k", "+18446744073709551615G"] {
        assert_eq!(parse_size(arg), Err(ParseError::SizeOverflow(arg.to_string())));
    }
}

#[test]
fn parse_cmp() {
    assert!(matches!(parse_cmp_prefix("+5"), (Cmp::Gt, "5")));
    assert!(matches!(parse_cmp_prefix("-3"), (Cmp::Lt, "3")));
    assert!(matches!(parse_cmp_prefix("7"), (Cmp::Eq, "7")));
}

#[test]
fn parse_cmp_edges() {
    assert!(matches!(parse_cmp_prefix(""), (Cmp::Eq, "")));
    assert!(matches!(parse_cmp_prefix("+"), (Cmp::Gt, "")));
    assert!(matches!(parse_cmp_prefix("-\u{e9}"), (Cmp::Lt, "\u{e9}")));
    assert!(matches!(parse_cmp_prefix("\u{e9}+"), (Cmp::Eq, "\u{e9}+")));
}

#[test]
fn parse_mtime_days() {
    assert_eq!(parse_mtime("7"), Ok((Cmp::Eq, 7)));
    assert_eq!(parse_mtime("-7"), Ok((Cmp::Lt, 7)));
    assert_eq!(parse_mtime("+7"), Ok((Cmp::Gt, 7)));
    assert_eq!(parse_mtime("--7"), Ok((Cmp::Lt, -7)));
    assert_eq!(parse_mtime("+-9223372036854775808"), Ok((Cmp::Gt, i64::MIN)));
    for arg in ["", "x", "+", "--", "-+-1", "9223372036854775808"] {
        assert_eq!(parse_mtime(arg), Err(ParseError::InvalidMtime(arg.to_string())));
    }
}

#[test]
fn parse_depth_numbers() {
    assert_eq!(parse_depth("-maxdepth", "0"), Ok(0));
    assert_eq!(parse_depth("-maxdepth", "+12"), Ok(12));
    assert_eq!(parse_depth("-mindepth", "-1"), Err(ParseError::InvalidDepth("-mindepth")));
    assert_eq!(parse_depth("-maxdepth", "two"), Err(ParseError::InvalidDepth("-maxdepth")));
}

#[test]
fn parse_type_letters() {
    let known = [
        ("f", FileType::File),
        ("d", FileType::Dir),
        ("l", FileType::Symlink),
        ("b", FileType::BlockDevice),
        ("c", FileType::CharDevice),
        ("p", FileType::Pipe),
        ("s", FileType::Socket),
    ];
    for (letter, t) in known {
        assert_eq!(parse_type(letter), Ok(t));
    }
    assert_eq!(parse_type("x"), Err(ParseError::UnknownType("x".to_string())));
    assert_eq!(parse_type("ff"), Err(ParseError::UnknownType("ff".to_string())));
    assert_eq!(parse_type(""), Err(ParseError::UnknownType("".to_string())));
}

/// The numbers are those that the standard library reads.
#[test]
fn numbers_as_in_the_standard_library() {
    let samples = [
        "", "+", "-", "0", "-0", "+0", "007", "12a", "+-1", "-+1", "--1", "++1", " 1", "1_000",
        "18446744073709551615", "18446744073709551616", "9223372036854775807",
        "9223372036854775808", "-9223372036854775808", "-9223372036854775809",
        "99999999999999999999999999999999999999999999", "\u{663}", "1\u{663}",
    ];
    for s in samples {
        assert_eq!(parse_u64(s), s.parse::<u64>().ok());
        assert_eq!(parse_usize(s), s.parse::<usize>().ok());
        assert_eq!(parse_i64(s), s.parse::<i64>().ok());
    }
}

#[test]
fn characters() {
    for c in ['A', 'Z', 'a', 'z', '@', '[', '0', '\u{c4}', '\u{e4}', '\u{212a}'] {
        assert_eq!(to_lower(c), c.to_ascii_lowercase());
    }
    assert_eq!(chars_of("a\u{e9}\u{1f600}"), vec!['a', '\u{e9}', '\u{1f600}']);
    assert!(text_eq("-name", "-name"));
    assert!(!text_eq("-name", "-nam"));
    assert!(!text_eq("-name", "-namf"));
    assert!(text_eq("", ""));
}

#[test]
fn timestamps() {
    let epoch = Timestamp::after_epoch(0, 0).unwrap();
    let later = Timestamp::after_epoch(10, 5).unwrap();
    let earlier = Timestamp::before_epoch(1, 999_999_999).unwrap();
    assert!(later.is_after(&epoch));
    assert!(epoch.is_after(&earlier));
    assert!(!epoch.is_after(&epoch));
    assert_eq!(later.secs_since(&epoch), 10);
    assert_eq!(epoch.secs_since(&earlier), 1);
    assert_eq!(later.secs_since(&earlier), 12);
    assert_eq!(epoch.secs_since(&later), 0);
    let late = Timestamp::after_epoch(20, 4).unwrap();
    assert_eq!(late.secs_since(&later), 9);
}

#[test]
fn timestamp_range() {
    assert!(Timestamp::after_epoch(0, 1_000_000_000).is_none());
    assert!(Timestamp::after_epoch(1 << 63, 0).is_none());
    assert!(Timestamp::after_epoch((1 << 63) - 1, 999_999_999).is_some());
    assert!(Timestamp::before_epoch(0, 1_000_000_000).is_none());
    assert!(Timestamp::before_epoch(1 << 63, 0).is_some());
    assert!(Timestamp::before_epoch(1 << 63, 1).is_none());
    assert!(Timestamp::before_epoch((1 << 63) + 1, 0).is_none());
    let first = Timestamp::before_epoch(1 << 63, 0).unwrap();
    let last = Timestamp::after_epoch((1 << 63) - 1, 999_999_999).unwrap();
    assert_eq!(last.secs_since(&first), u64::MAX);
}
