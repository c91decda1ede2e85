use ax_snapshot::pid::{detect_chrome_pid, first_pid, is_white_space, CommandOutput};

fn printed(stdout: &[u8]) -> Option<i32> {
    detect_chrome_pid(Some(CommandOutput { success: true, stdout: stdout.to_vec() }))
}

fn reference(text: &str) -> Option<i32> {
    for line in text.lines() {
        if let Ok(pid) = line.trim().parse::<i32>() {
            return Some(pid);
        }
    }
    None
}

#[test]
fn command_that_did_not_run() {
    assert_eq!(detect_chrome_pid(None), None);
}

#[test]
fn command_that_failed() {
    let out = CommandOutput { success: false, stdout: b"123\n".to_vec() };
    assert_eq!(detect_chrome_pid(Some(out)), None);
}

#[test]
fn first_of_several_processes() {
    assert_eq!(printed(b"123\n456\n"), Some(123));
    assert_eq!(printed(b"123"), Some(123));
    assert_eq!(printed(b""), None);
    assert_eq!(printed(b"\n\n"), None);
}

#[test]
fn lines_that_are_no_numbers_are_passed_over() {
    assert_eq!(printed(b"pgrep: warning\n\n 77 \r\n78\n"), Some(77));
    assert_eq!(printed(b"12 34\n56\n"), Some(56));
    assert_eq!(printed(b"99999999999\n5\n"), Some(5));
}

#[test]
fn bytes_that_are_no_text_are_passed_over() {
    assert_eq!(printed(b"\xff123\n456\n"), Some(456));
    assert_eq!(printed(b"\xc2\xa0789\n"), Some(789));
    assert_eq!(printed(b"\xe2\x80\n42\n"), Some(42));
}

#[test]
fn listings_are_read_as_the_standard_library_reads_them() {
    let samples = [
        "", "0", "-0", "+0", "+7", "-7", "+", "-", "+-1", "--1", "1-", "007", "2147483647", "2147483648",
        "-2147483648", "-2147483649", "00000000000000000000001", "999999999999999999999999", "1 2", "1\u{a0}",
        "\u{2003}3\u{3000}", "\u{200b}4\n5", "\t6\u{b}", "a\nb\n8", "a\r\n9\r\n", "\r10", "11\r", "12\r\r\n",
        "\n\n\n13\n\n", "\u{663}\n14", "0x10\n15", "1_000\n16", "1e3\n17", "18.0\n19", "\u{feff}20\n21", "  \n22",
        "-\n+\n23", "\r\n", "\n", " ", "24\u{85}", "\u{85}25\u{2028}", "26\u{2029}\n27",
    ];
    for text in samples {
        assert_eq!(first_pid(text), reference(text), "{:?}", text);
    }
}

#[test]
fn white_space_is_what_the_standard_library_takes_for_it() {
    for c in '\u{0}'..=char::MAX {
        assert_eq!(is_white_space(c), c.is_whitespace(), "{:?}", c);
    }
}

#[test]
fn listed_process_is_read_back() {
    for pid in [0, 1, 9, 10, 99, 12345, i32::MAX, -1, i32::MIN] {
        assert_eq!(first_pid(&format!("{pid}\nwhatever")), Some(pid));
    }
}
