use noline::input::ControlCharacter;
use noline::terminal::Cursor;
use noline::testlib::{csi, test_cases, InputBuilder, MockTerminal, TestCase, ToByteVec};

#[test]
fn byte_vectors() {
    assert_eq!("ab".to_byte_vec(), vec![b'a', b'b']);
    assert_eq!(ControlCharacter::CtrlA.to_byte_vec(), vec![0x01]);
    assert_eq!(
        vec![ControlCharacter::CtrlB, ControlCharacter::Backspace].to_byte_vec(),
        vec![0x02, 0x7f]
    );
    assert_eq!(
        [ControlCharacter::CarriageReturn, ControlCharacter::LineFeed].to_byte_vec(),
        vec![0x0d, 0x0a]
    );
    assert_eq!(vec!["a", "bc"].to_byte_vec(), b"abc".to_vec());
    assert_eq!(["x", csi::LEFT].to_byte_vec(), b"x\x1b[D".to_vec());
}

#[test]
fn input_builder() {
    let mut input = InputBuilder::new();
    input.add("abc");
    input.add(csi::LEFT);
    input.add(ControlCharacter::CtrlD);
    input.add("de");
    assert_eq!(input.to_byte_vec(), b"abc\x1b[D\x04de".to_vec());
}

#[test]
fn test_case_screen() {
    let case = TestCase::new(vec!["Hello, World!"], vec!["Hello, World!"]);
    assert_eq!(case.input, vec![b"Hello, World!".to_vec()]);
    assert_eq!(case.output, vec!["Hello, World!".to_string()]);
    assert_eq!(case.screen_as_string("> ", 80), "> Hello, World!\n> ");

    let case = TestCase::new(vec!["abcdef"], vec!["abcdef"]);
    assert_eq!(case.screen_as_string("> ", 4), "> ab\ncdef\n");

    let case = TestCase::new(vec!["abc", "def"], vec!["abc", "def"]);
    assert_eq!(case.screen_as_string("> ", 80), "> abc\n> def\n> ");
}

#[test]
fn standard_cases() {
    let cases = test_cases();
    assert_eq!(cases.len(), 3);
    assert_eq!(cases[1].input, vec![b"abc\x1b[D\x04de".to_vec()]);
    assert_eq!(cases[1].output, vec!["abde".to_string()]);
    assert_eq!(cases[2].screen_as_string("> ", 80), "> abc\n> def\n> ");
}

#[test]
fn mock_terminal_screen() {
    let mut term = MockTerminal::new(3, 5, Cursor::new(0, 0));
    for &b in b"abc" {
        assert!(term.advance(b).is_none());
    }
    assert_eq!(term.screen_as_string(), "abc");
    assert_eq!(term.get_cursor(), Cursor::new(0, 3));

    // Position report, one based.
    let reply: Vec<u8> = b"\x1b[6n"
        .iter()
        .filter_map(|&b| term.advance(b))
        .flatten()
        .collect();
    assert_eq!(reply, b"\x1b[1;4R");

    // Line break, carriage return, more text.
    for &b in b"\n\rxy" {
        term.advance(b);
    }
    assert_eq!(term.screen_as_string(), "abc\nxy");
    assert_eq!(term.current_line_as_string(), "xy");

    // Cursor to the first row, erase below.
    for &b in b"\x1b[1;2H\x1b[J" {
        term.advance(b);
    }
    assert_eq!(term.screen_as_string(), "a");

    // Writing past the last column stays in it.
    for &b in b"bcdefg" {
        term.advance(b);
    }
    assert_eq!(term.screen_as_string(), "abcdg");

    // Bell, scrolling.
    term.advance(0x07);
    assert!(term.bell);
    for &b in b"\x1b[1T" {
        term.advance(b);
    }
    assert_eq!(term.screen_as_string(), "abcdg");
    assert_eq!(term.current_line_as_string(), "");
    for &b in b"\x1b[2S" {
        term.advance(b);
    }
    assert_eq!(term.screen_as_string(), "");
}

#[test]
fn mock_terminal_can_advance() {
    let mut term = MockTerminal::new(4, 10, Cursor::new(0, 0));
    assert!(term.can_advance(b'a'));
    assert_eq!(term.advance(0x1b), None);
    assert_eq!(term.advance(b'['), None);
    assert!(!term.can_advance(b'A'));
    assert!(term.can_advance(b'J'));
}
