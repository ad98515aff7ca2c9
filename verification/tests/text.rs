use tesla_fan_control::idmap::IdMap;
use tesla_fan_control::paths::{join, same_path};
use tesla_fan_control::text::{
    chars_of, decimal_text, parse_integer, same_text, signed_decimal_text, split, split_once,
    stands_before, trim, IntError,
};

use std::path::Path;

const SAMPLES: [&str; 24] = [
    "",
    " ",
    "a",
    " a ",
    "\t40:20 , 55:40\r\n",
    ",",
    ",,",
    "a,b",
    "a,,b,",
    ":x",
    "x:",
    "gpu:0:1",
    "\u{a0}nbsp\u{2003}",
    "°C ≥ 1 ×",
    "Z",
    "z",
    "\u{85}",
    "\u{3000}wide\u{3000}",
    "\u{200b}zero width\u{200b}",
    "ab",
    "b",
    "äöü",
    "\u{1f600}",
    "\u{ffff}",
];

#[test]
fn trims_exactly_white_space() {
    for code in 0..=0x10ffffu32 {
        if let Some(c) = char::from_u32(code) {
            let s = format!("{c}x{c}");
            if c.is_whitespace() {
                assert_eq!(trim(&s), "x", "U+{code:04X}");
            } else {
                assert_eq!(trim(&s), s, "U+{code:04X}");
            }
        }
    }
}

#[test]
fn trims_like_std() {
    for s in SAMPLES {
        assert_eq!(trim(s), s.trim());
    }
}

#[test]
fn splits_like_std() {
    for s in SAMPLES {
        assert_eq!(split(s, ','), s.split(',').collect::<Vec<_>>());
        assert_eq!(split_once(s, ':'), s.split_once(':'));
        assert_eq!(chars_of(s), s.chars().collect::<Vec<_>>());
    }
}

#[test]
fn compares_like_std() {
    for a in SAMPLES {
        for b in SAMPLES {
            assert_eq!(stands_before(a, b), a < b, "{a:?} {b:?}");
            assert_eq!(same_text(a, b), a == b);
        }
    }
}

#[test]
fn writes_decimals_like_std() {
    for n in [0u128, 1, 9, 10, 99, 100, 255, 65_535, 4_294_967_295, u64::MAX as u128, u128::MAX] {
        assert_eq!(decimal_text(n), n.to_string());
    }
    for i in [0i32, 1, -1, 9, -10, 110, -32_768, 32_767, i32::MAX, i32::MIN] {
        assert_eq!(signed_decimal_text(i), i.to_string());
    }
}

fn number_samples() -> Vec<String> {
    let mut v: Vec<String> = Vec::new();
    for s in [
        "", "+", "-", "0", "-0", "+0", "00", "007", "1", "+1", "-1", "++1", "+-1", "-+1", "1 ", " 1",
        "1_000", "0x10", "a", "1a", "a1", "٣", "255", "256", "-255", "32767", "32768", "-32768",
        "-32769", "65535", "4294967295", "4294967296", "42949672950", "4294967296x", "99999999999x",
        "x99999999999", "25x", "256x", "2567", "999999999999999999999999", "-999999999999999999999999",
        "-3276x", "-32769x", "3.5", "1e3",
    ] {
        v.push(s.to_string());
    }
    v
}

#[test]
fn reads_integers_like_std() {
    for s in number_samples() {
        match s.parse::<u32>() {
            Ok(v) => assert_eq!(parse_integer(&s, 0, u32::MAX as i64), Ok(v as i64), "{s:?}"),
            Err(e) => assert_eq!(
                parse_integer(&s, 0, u32::MAX as i64).unwrap_err().describe(),
                e.to_string(),
                "{s:?}"
            ),
        }
        match s.parse::<u8>() {
            Ok(v) => assert_eq!(parse_integer(&s, 0, 255), Ok(v as i64), "{s:?}"),
            Err(e) => assert_eq!(
                parse_integer(&s, 0, 255).unwrap_err().describe(),
                e.to_string(),
                "{s:?}"
            ),
        }
        match s.parse::<i16>() {
            Ok(v) => assert_eq!(parse_integer(&s, -32_768, 32_767), Ok(v as i64), "{s:?}"),
            Err(e) => assert_eq!(
                parse_integer(&s, -32_768, 32_767).unwrap_err().describe(),
                e.to_string(),
                "{s:?}"
            ),
        }
    }
}

#[test]
fn integer_errors_have_their_causes() {
    assert_eq!(parse_integer("", 0, 255), Err(IntError::Empty));
    assert_eq!(parse_integer("-1", 0, 255), Err(IntError::InvalidDigit));
    assert_eq!(parse_integer("256", 0, 255), Err(IntError::PosOverflow));
    assert_eq!(parse_integer("-32769", -32_768, 32_767), Err(IntError::NegOverflow));
}

#[test]
fn decimals_read_back() {
    for i in [-32_768i32, -1, 0, 7, 110, 32_767] {
        let s = signed_decimal_text(i);
        assert_eq!(parse_integer(&s, -32_768, 32_767), Ok(i as i64));
    }
}

#[test]
fn joins_like_std() {
    for dir in ["", "/", "/sys/class/hwmon", "/sys/class/hwmon/", "rel", "rel/"] {
        let expected = Path::new(dir).join("pwm1");
        assert_eq!(join(dir, "pwm1"), expected.to_str().unwrap());
    }
}

#[test]
fn compares_paths_like_std() {
    let paths = [
        "", ".", "./", "..", "/", "//", "/.", "/..", "a", "./a", ".//a", "./././a", "a/", "a//", "a/.",
        "a/b", "a//b", "a/./b", "a/b/.", "/a", "//a", "/./a", "/a/", "/a/b", "/a/../b", "a/..", "..a",
        ".a", "a.", "/sys/devices/platform/x", "/sys//devices/./platform/x/",
    ];
    for a in paths {
        for b in paths {
            assert_eq!(same_path(a, b), Path::new(a) == Path::new(b), "{a:?} {b:?}");
        }
    }
}

#[test]
fn map_replaces_and_sorts() {
    let mut m: IdMap<u32> = IdMap::new();
    assert_eq!(m.get("a"), None);
    m.insert("b".to_string(), 1);
    m.insert("a".to_string(), 2);
    m.insert("ab".to_string(), 3);
    m.insert("b".to_string(), 4);
    assert_eq!(m.get("b"), Some(&4));
    assert_eq!(m.get("a"), Some(&2));
    assert_eq!(m.get("ab"), Some(&3));
    assert_eq!(m.get("c"), None);
    assert_eq!(m.sorted_names(), vec!["a".to_string(), "ab".to_string(), "b".to_string()]);
}
