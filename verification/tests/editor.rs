use noline::editor::{Line, Prompt, StrIter};
use noline::history::{History, UnboundedHistory};
use noline::line_buffer::{LineBuffer, UnboundedBuffer};
use noline::output::{Output, OutputItem};
use noline::terminal::{Cursor, Terminal};

fn run(output: Output<'_, UnboundedBuffer>) -> (String, bool, bool) {
    let mut it = output.into_iter();
    let mut bytes = Vec::new();
    let mut end = false;
    let mut abort = false;
    while let Some(item) = it.next() {
        match item {
            OutputItem::EndOfString => end = true,
            OutputItem::Abort => abort = true,
            _ => bytes.extend_from_slice(item.get_bytes().unwrap()),
        }
    }
    (String::from_utf8(bytes).unwrap(), end, abort)
}

fn typed(line: &mut Line<'_, UnboundedBuffer, UnboundedHistory>, input: &str) -> String {
    let mut all = String::new();
    for &b in input.as_bytes() {
        let (s, _, _) = run(line.advance(b));
        all.push_str(&s);
    }
    all
}

#[test]
fn prompt_parts() {
    let prompt = Prompt::from_str("> ");
    assert_eq!(prompt.len(), 2);
    assert_eq!(prompt.iter(), vec![b"> ".as_slice()]);

    let mut it = StrIter::new("abc");
    assert_eq!(it.next(), Some("abc"));
    assert_eq!(it.next(), None);

    let prompt = Prompt::from_str_iter(StrIter::new("ab"));
    assert_eq!(prompt.len(), 2);
}

#[test]
fn reset_then_edit() {
    let mut buffer = LineBuffer::new_unbounded();
    let mut terminal = Terminal::new(4, 10, Cursor::new(0, 0));
    let mut history = UnboundedHistory::new();
    let mut line = Line::new(Prompt::from_str("> "), &mut buffer, &mut terminal, &mut history);

    {
        let mut handle = line.reset();
        let (probe, _, _) = run(handle.start());
        assert_eq!(probe, "\x1b7\x1b[999;999H\x1b[6n\x1b8");

        let mut printed = String::new();
        for &b in b"\x1b[4;10R" {
            if let Some(out) = handle.advance(b) {
                printed.push_str(&run(out).0);
            }
        }
        assert_eq!(printed, "\r\x1b[J> \x1b[6n");

        let mut outputs = 0;
        for &b in b"\x1b[1;3R" {
            if let Some(out) = handle.advance(b) {
                assert_eq!(run(out).0, "");
                outputs += 1;
            }
        }
        // Every byte but the last is passed over.
        assert_eq!(outputs, 5);
    }

    assert_eq!(typed(&mut line, "abc"), "a\x1b[1;4Hb\x1b[1;5Hc\x1b[1;6H");

    // Ctrl-A moves to the start of the line, Ctrl-D deletes there.
    assert_eq!(run(line.advance(0x01)).0, "\x1b[1;3H");
    assert_eq!(run(line.advance(0x04)).0, "\x1b[Jbc\x1b[1;3H");

    // Ctrl-E moves to the end, Backspace deletes before the cursor.
    assert_eq!(run(line.advance(0x05)).0, "\x1b[1;5H");
    assert_eq!(run(line.advance(0x7f)).0, "\x1b[1;4H\x1b[J\x1b[1;4H");

    // Enter ends the line.
    let (s, end, abort) = run(line.advance(0x0d));
    assert_eq!(s, "\n\r");
    assert!(end);
    assert!(!abort);
}

#[test]
fn ctrl_c_aborts_and_bell_at_start() {
    let mut buffer = LineBuffer::new_unbounded();
    let mut terminal = Terminal::new(4, 10, Cursor::new(0, 2));
    let mut history = UnboundedHistory::new();
    let mut line = Line::new(Prompt::from_str("> "), &mut buffer, &mut terminal, &mut history);

    // Backspace at the start rings the bell.
    assert_eq!(run(line.advance(0x08)).0, "\x07");

    let (_, end, abort) = run(line.advance(0x03));
    assert!(abort);
    assert!(!end);
}

#[test]
fn history_is_recalled() {
    let mut buffer = LineBuffer::new_unbounded();
    let mut terminal = Terminal::new(4, 20, Cursor::new(0, 2));
    let mut history = UnboundedHistory::new();
    history.add_entry("first").unwrap();
    let mut line = Line::new(Prompt::from_str("> "), &mut buffer, &mut terminal, &mut history);

    // Ctrl-P shows the newest entry.
    let (s, _, _) = run(line.advance(0x10));
    assert_eq!(s, "\x1b[1;3H\x1b[Jfirst");

    // Another Ctrl-P finds nothing older.
    assert_eq!(run(line.advance(0x10)).0, "\x07");

    // Ctrl-N goes back past the newest entry, to an empty line.
    let (s, _, _) = run(line.advance(0x0e));
    assert_eq!(s, "\x1b[1;3H\x1b[J");
}

#[test]
fn entered_line_goes_to_history() {
    let mut buffer = LineBuffer::new_unbounded();
    let mut terminal = Terminal::new(4, 20, Cursor::new(0, 2));
    let mut history = UnboundedHistory::new();
    {
        let mut line = Line::new(Prompt::from_str("> "), &mut buffer, &mut terminal, &mut history);
        typed(&mut line, "hello");
        let (_, end, _) = run(line.advance(0x0d));
        assert!(end);
    }
    assert_eq!(history.number_of_entries(), 1);
    let entry = history.get_entry(0).unwrap();
    let (a, b) = entry.get_slices();
    assert_eq!([a, b].concat(), b"hello");
}

#[test]
fn word_deletion_and_swap() {
    let mut buffer = LineBuffer::new_unbounded();
    let mut terminal = Terminal::new(4, 40, Cursor::new(0, 2));
    let mut history = UnboundedHistory::new();
    {
        let mut line = Line::new(Prompt::from_str("> "), &mut buffer, &mut terminal, &mut history);
        typed(&mut line, "one two");
        // Ctrl-W deletes the previous word.
        let (s, _, _) = run(line.advance(0x17));
        assert_eq!(s, "\x1b[1;7H\x1b[J\x1b[1;7H");
        // Ctrl-B, Ctrl-T swaps the two characters before the cursor.
        run(line.advance(0x02));
        let (s, _, _) = run(line.advance(0x14));
        assert_eq!(s, "\x1b[1;5H e\x1b[1;6H");
    }
    assert_eq!(std::str::from_utf8(buffer.as_slice()).unwrap(), "on e");
}

#[test]
fn prompt_of_several_parts() {
    let prompt = Prompt::new(vec!["ab", "æ"]);
    assert_eq!(prompt.len(), 4);
    assert_eq!(prompt.iter(), vec!["ab".as_bytes(), "æ".as_bytes()]);
}

#[test]
fn reset_sets_size_and_cursor_and_enter_keeps_line() {
    let mut buffer = LineBuffer::new_unbounded();
    let mut terminal = Terminal::new(4, 10, Cursor::new(0, 0));
    let mut history = UnboundedHistory::new();
    {
        let mut line =
            Line::new(Prompt::from_str("> "), &mut buffer, &mut terminal, &mut history);
        {
            let mut handle = line.reset();
            let _ = run(handle.start());
            for &b in b"\x1b[24;80R" {
                if let Some(out) = handle.advance(b) {
                    let _ = run(out);
                }
            }
            for &b in b"\x1b[3;5R" {
                if let Some(out) = handle.advance(b) {
                    let _ = run(out);
                }
            }
        }
        let _ = typed(&mut line, "abc");
        let _ = run(line.advance(0x0d));
    }
    assert_eq!(terminal.get_size(), (24, 80));
    assert_eq!(history.number_of_entries(), 1);
}

#[test]
fn reset_cursor_from_position_report() {
    let mut buffer = LineBuffer::new_unbounded();
    let mut terminal = Terminal::new(4, 10, Cursor::new(0, 0));
    let mut history = UnboundedHistory::new();
    {
        let mut line =
            Line::new(Prompt::from_str("> "), &mut buffer, &mut terminal, &mut history);
        let mut handle = line.reset();
        let _ = run(handle.start());
        for &b in b"\x1b[24;80R" {
            if let Some(out) = handle.advance(b) {
                let _ = run(out);
            }
        }
        for &b in b"\x1b[3;5R" {
            if let Some(out) = handle.advance(b) {
                let _ = run(out);
            }
        }
    }
    assert_eq!(terminal.get_cursor(), Cursor::new(2, 4));
}
