use session_scheduler::numbers::{push_decimal, read_i32, read_u16, read_u8};
use session_scheduler::text::{
    chars_of, is_whitespace, position, scan_run, split_chars, split_lines, split_words, text_of,
    without_prefix, without_suffix,
};

const SAMPLES: [&str; 24] = [
    "",
    " ",
    "a",
    "a b",
    "  a  b  ",
    "a,b,,c",
    ",",
    ",,",
    "one\ntwo\n",
    "one\r\ntwo",
    "one\r",
    "\n",
    "\n\n",
    "\r\n\r\n",
    "a\n\nb",
    "tab\tseparated\tvalues\t",
    "\u{a0}wide\u{3000}space\u{2003}s\u{85}",
    "line\u{2028}separator",
    "x\r\r\ny",
    "#",
    "mon 10am 2hrs f2f 1-3 # note",
    "Week 1;Week 2",
    ";;a;",
    "\u{1F600},\u{e9}\n",
];

fn texts(pieces: Vec<Vec<char>>) -> Vec<String> {
    pieces.iter().map(|piece| text_of(piece)).collect()
}

#[test]
fn white_space_is_what_the_language_calls_so() {
    for code in 0..=0x10FFFFu32 {
        if let Some(c) = char::from_u32(code) {
            assert_eq!(is_whitespace(c), c.is_whitespace(), "{code:#x}");
        }
    }
}

#[test]
fn splitting_agrees_with_the_language() {
    for sample in SAMPLES {
        let chars = chars_of(sample);
        for separator in [',', '\t', ';', '\n', 'a'] {
            let expected: Vec<String> = sample.split(separator).map(str::to_string).collect();
            assert_eq!(texts(split_chars(&chars, separator)), expected, "{sample:?}");
        }
        let words: Vec<String> = sample.split_whitespace().map(str::to_string).collect();
        assert_eq!(texts(split_words(&chars)), words, "{sample:?}");
        let lines: Vec<String> = sample.lines().map(str::to_string).collect();
        assert_eq!(texts(split_lines(&chars)), lines, "{sample:?}");
    }
}

#[test]
fn places_are_found() {
    let chars = chars_of("a,b,,c");
    assert_eq!(position(&chars, ',', 0), 1);
    assert_eq!(position(&chars, ',', 1), 1);
    assert_eq!(position(&chars, ',', 2), 3);
    assert_eq!(position(&chars, ',', 5), 6);
    assert_eq!(position(&chars, ',', 6), 6);
    assert_eq!(position(&chars, 'x', 0), 6);
    let spaced = chars_of("  ab \t c");
    assert_eq!(scan_run(&spaced, true, 0), 2);
    assert_eq!(scan_run(&spaced, false, 2), 4);
    assert_eq!(scan_run(&spaced, true, 4), 7);
    assert_eq!(scan_run(&spaced, false, 7), 8);
    assert_eq!(scan_run(&spaced, false, 0), 0);
}

#[test]
fn affixes_are_taken_off() {
    for (text, affix) in [("10am", "am"), ("am", "am"), ("a", "am"), ("pam", "am"), ("amp", "am"), ("", ""), ("x", "")] {
        let chars = chars_of(text);
        assert_eq!(
            without_suffix(&chars, affix).map(|rest| text_of(&rest)),
            text.strip_suffix(affix).map(str::to_string)
        );
        assert_eq!(
            without_prefix(&chars, affix).map(|rest| text_of(&rest)),
            text.strip_prefix(affix).map(str::to_string)
        );
    }
}

const NUMBERS: [&str; 40] = [
    "", "0", "1", "9", "10", "007", "255", "256", "65535", "65536", "2147483647", "2147483648",
    "-2147483648", "-2147483649", "4294967295", "4294967296", "99999999999999999999", "+", "-",
    "+0", "-0", "+5", "-5", "++5", "--5", "+-5", "5+", "5-", " 5", "5 ", "1_000", "0x10", "1e3",
    "1.0", "\u{661}", "\u{ff11}", "00000000000000000000000000000000000001",
    "-00000000000000000000000000000000000001", "+255", "+256",
];

#[test]
fn numbers_are_read_as_the_language_reads_them() {
    for text in NUMBERS {
        let chars = chars_of(text);
        assert_eq!(read_u8(&chars), text.parse::<u8>().ok(), "{text:?}");
        assert_eq!(read_u16(&chars), text.parse::<u16>().ok(), "{text:?}");
        assert_eq!(read_i32(&chars), text.parse::<i32>().ok(), "{text:?}");
    }
}

#[test]
fn numbers_are_written_as_the_language_writes_them() {
    for n in [0u128, 1, 9, 10, 11, 99, 100, 255, 1000, 65535, 4294967296, u64::MAX as u128, u128::MAX] {
        let mut out = chars_of("n=");
        push_decimal(&mut out, n);
        assert_eq!(text_of(&out), format!("n={n}"));
    }
}
