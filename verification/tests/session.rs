use noline::editor::{Line, Prompt};
use noline::history::UnboundedHistory;
use noline::line_buffer::{LineBuffer, UnboundedBuffer};
use noline::output::{Output, OutputItem};
use noline::terminal::{Cursor, Terminal};
use noline::testlib::{test_cases, MockTerminal, TestCase};

/// Writes the output to the mock terminal; returns what it answered.
fn feed(term: &mut MockTerminal, output: Output<'_, UnboundedBuffer>) -> Vec<u8> {
    let mut it = output.into_iter();
    let mut replies = Vec::new();
    while let Some(item) = it.next() {
        if let OutputItem::Slice(_) | OutputItem::UintToBytes(_) = item {
            for &b in item.get_bytes().unwrap() {
                if let Some(reply) = term.advance(b) {
                    replies.extend(reply);
                }
            }
        }
    }
    replies
}

/// Brings the editor's terminal in line with the mock: size, prompt,
/// cursor position.
fn reset(term: &mut MockTerminal, line: &mut Line<'_, UnboundedBuffer, UnboundedHistory>) {
    let mut handle = line.reset();
    let mut pending = feed(term, handle.start());
    while !pending.is_empty() {
        let b = pending.remove(0);
        if let Some(out) = handle.advance(b) {
            pending.extend(feed(term, out));
        }
    }
}

/// Types `bytes` into the editor, passing the terminal's answers back.
fn type_bytes(
    term: &mut MockTerminal,
    line: &mut Line<'_, UnboundedBuffer, UnboundedHistory>,
    bytes: &[u8],
) {
    for &b in bytes {
        let mut replies = feed(term, line.advance(b));
        while !replies.is_empty() {
            let r = replies.remove(0);
            replies.extend(feed(term, line.advance(r)));
        }
    }
}

fn run_case(case: &TestCase) {
    let prompt = "> ";
    let (rows, columns) = (20, 80);
    let mut term = MockTerminal::new(rows, columns, Cursor::new(0, 0));
    let mut terminal = Terminal::default();
    let mut history = UnboundedHistory::new();
    let mut seen = Vec::new();

    for input in &case.input {
        let mut buffer = LineBuffer::new_unbounded();
        {
            let mut line =
                Line::new(Prompt::from_str(prompt), &mut buffer, &mut terminal, &mut history);
            reset(&mut term, &mut line);
            type_bytes(&mut term, &mut line, input);
            type_bytes(&mut term, &mut line, &[0x0d]);
        }
        seen.push(buffer.as_str().to_string());
    }

    // A last prompt, left with Ctrl-C.
    let mut buffer = LineBuffer::new_unbounded();
    {
        let mut line = Line::new(Prompt::from_str(prompt), &mut buffer, &mut terminal, &mut history);
        reset(&mut term, &mut line);
        type_bytes(&mut term, &mut line, &[0x03]);
    }

    assert_eq!(seen, case.output);
    let expected = case.screen_as_string(prompt, columns);
    assert_eq!(term.screen_as_string(), expected.trim_end_matches('\n'));
}

#[test]
fn editor_passes_test_cases() {
    for case in test_cases() {
        run_case(&case);
    }
}

#[test]
fn editor_session_wraps_long_lines() {
    let case = TestCase::new(
        vec!["0123456789012345678901234567890123456789012345678901234567890123456789012345678901234"],
        vec!["0123456789012345678901234567890123456789012345678901234567890123456789012345678901234"],
    );
    run_case(&case);
}
