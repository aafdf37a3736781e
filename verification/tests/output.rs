use noline::editor::Prompt;
use noline::line_buffer::LineBuffer;
use noline::output::{
    CursorMove, MoveCursor, MoveCursorToPosition, Output, OutputAction, OutputItem, Printable,
    Step, UintToBytes,
};
use noline::terminal::{Cursor, Position, Terminal};

fn item_bytes(item: &OutputItem, bytes: &mut Vec<u8>) {
    if let Some(slice) = item.get_bytes() {
        bytes.extend_from_slice(slice);
    }
}

#[test]
fn uint_to_bytes() {
    fn to_string<const N: usize>(n: usize) -> String {
        let uint: UintToBytes<N> = UintToBytes::from_uint(n).unwrap();

        String::from_utf8(uint.as_bytes().to_vec()).unwrap()
    }

    assert_eq!(to_string::<4>(0), "0");

    assert_eq!(to_string::<4>(42), "42");

    assert_eq!(to_string::<4>(10), "10");

    assert_eq!(to_string::<4>(9999), "9999");
}

#[test]
fn uint_to_bytes_limits() {
    assert!(UintToBytes::<4>::from_uint(10000).is_none());
    assert!(UintToBytes::<2>::from_uint(100).is_none());
    assert_eq!(UintToBytes::<2>::from_uint(7).unwrap().as_bytes(), b"7");
    assert_eq!(UintToBytes::<0>::from_uint(0).unwrap().as_bytes(), b"");
}

#[test]
fn tests_move_cursor() {
    fn to_string(mut cm: MoveCursor) -> String {
        let mut bytes = Vec::new();
        while let Some(item) = cm.next() {
            item_bytes(&item, &mut bytes);
        }
        String::from_utf8(bytes).unwrap()
    }

    assert_eq!(
        to_string(MoveCursor::new(Cursor::new(42, 0), 0)),
        "\x1b[43;1H"
    );

    assert_eq!(
        to_string(MoveCursor::new(Cursor::new(0, 42), 0)),
        "\x1b[1;43H"
    );

    assert_eq!(
        to_string(MoveCursor::new(Cursor::new(42, 43), 0)),
        "\x1b[43;44H"
    );

    assert_eq!(
        to_string(MoveCursor::new(Cursor::new(0, 0), 0)),
        "\x1b[1;1H"
    );

    assert_eq!(
        to_string(MoveCursor::new(Cursor::new(0, 9), 0)),
        "\x1b[1;10H"
    );

    assert_eq!(
        to_string(MoveCursor::new(Cursor::new(0, 0), 1)),
        "\x1b[1S\x1b[1;1H"
    );

    assert_eq!(
        to_string(MoveCursor::new(Cursor::new(0, 0), -1)),
        "\x1b[1T\x1b[1;1H"
    );
}

fn step_to_string(mut step: Step, terminal: &mut Terminal) -> String {
    let mut bytes = Vec::new();

    while let Some(item) = step.advance(terminal) {
        item_bytes(&item, &mut bytes);
    }

    String::from_utf8(bytes).unwrap()
}

#[test]
fn step() {
    let mut terminal = Terminal::new(4, 10, Cursor::new(0, 0));

    assert_eq!(
        step_to_string(
            Step::Print(Printable::from_str("01234567890123456789".as_bytes())),
            &mut terminal
        ),
        "0123456789\n\r0123456789\n\r"
    );

    assert_eq!(
        step_to_string(Step::Print(Printable::from_str("01234".as_bytes())), &mut terminal),
        "01234"
    );

    assert_eq!(
        step_to_string(
            Step::Print(Printable::from_str("5678901234567890".as_bytes())),
            &mut terminal
        ),
        "56789\n\r0123456789\n\r0"
    );

    assert_eq!(terminal.get_position(), Position::new(4, 1));

    assert_eq!(
        step_to_string(
            Step::Move(MoveCursorToPosition::new(Position::new(0, 3))),
            &mut terminal
        ),
        "\x1b[1T\x1b[1;4H"
    );

    assert_eq!(terminal.get_position(), Position::new(0, 3));

    assert_eq!(step_to_string(Step::Erase, &mut terminal), "\x1b[J");
    assert_eq!(step_to_string(Step::Newline, &mut terminal), "\n\r");
    assert_eq!(step_to_string(Step::Bell, &mut terminal), "\x07");
    assert_eq!(step_to_string(Step::Done, &mut terminal), "");
}

#[test]
fn split_utf8() {
    let mut terminal = Terminal::new(4, 10, Cursor::new(0, 0));

    assert_eq!(
        step_to_string(
            Step::Print(Printable::from_str("aadfåpadfåaåfåaadåappaåadå".as_bytes())),
            &mut terminal
        ),
        "aadfåpadfå\n\raåfåaadåap\n\rpaåadå"
    );
}

fn output_to_string(output: Output<'_, noline::line_buffer::UnboundedBuffer>) -> String {
    let mut it = output.into_iter();
    let mut bytes = Vec::new();
    while let Some(item) = it.next() {
        item_bytes(&item, &mut bytes);
    }
    String::from_utf8(bytes).unwrap()
}

#[test]
fn byte_iterator() {
    let prompt = Prompt::from_str("> ");
    let mut line_buffer = LineBuffer::new_unbounded();
    let mut terminal = Terminal::new(4, 10, Cursor::new(0, 0));

    let result = output_to_string(Output::new(
        &prompt,
        &line_buffer,
        &mut terminal,
        OutputAction::ClearAndPrintPrompt,
    ));

    assert_eq!(result, "\r\x1b[J> \x1b[6n");

    line_buffer.insert_str(0, "Hello, world!").unwrap();

    let result = output_to_string(Output::new(
        &prompt,
        &line_buffer,
        &mut terminal,
        OutputAction::PrintBufferAndMoveCursorForward,
    ));

    assert_eq!(result, "Hello, w\n\rorld!\x1b[1;4H");

    assert_eq!(terminal.get_cursor(), Cursor::new(0, 3));

    let result = output_to_string(Output::new(
        &prompt,
        &line_buffer,
        &mut terminal,
        OutputAction::MoveCursor(CursorMove::Start),
    ));

    assert_eq!(result, "\x1b[1;3H");
    assert_eq!(terminal.get_cursor(), Cursor::new(0, 2));
}

#[test]
fn output_into_vec() {
    let prompt = Prompt::from_str("> ");
    let line_buffer = LineBuffer::new_unbounded();
    let mut terminal = Terminal::new(4, 10, Cursor::new(0, 0));

    let bytes = Output::new(&prompt, &line_buffer, &mut terminal, OutputAction::ProbeSize)
        .into_vec();
    assert_eq!(bytes, b"\x1b7\x1b[999;999H\x1b[6n\x1b8");

    let bytes =
        Output::new(&prompt, &line_buffer, &mut terminal, OutputAction::RingBell).into_vec();
    assert_eq!(bytes, b"\x07");

    let bytes =
        Output::new(&prompt, &line_buffer, &mut terminal, OutputAction::Nothing).into_vec();
    assert!(bytes.is_empty());
}

#[test]
fn output_bell_when_moving_out_of_line() {
    let prompt = Prompt::from_str("> ");
    let line_buffer = LineBuffer::new_unbounded();
    let mut terminal = Terminal::new(4, 10, Cursor::new(0, 2));

    let result = output_to_string(Output::new(
        &prompt,
        &line_buffer,
        &mut terminal,
        OutputAction::MoveCursor(CursorMove::Back),
    ));
    assert_eq!(result, "\x07");

    let result = output_to_string(Output::new(
        &prompt,
        &line_buffer,
        &mut terminal,
        OutputAction::MoveCursor(CursorMove::Forward),
    ));
    assert_eq!(result, "\x07");
}

#[test]
fn output_end_of_string() {
    let prompt = Prompt::from_str("> ");
    let line_buffer = LineBuffer::new_unbounded();
    let mut terminal = Terminal::new(4, 10, Cursor::new(0, 2));

    let mut it = Output::new(&prompt, &line_buffer, &mut terminal, OutputAction::Done).into_iter();
    let first = it.next().unwrap();
    assert_eq!(first.get_bytes().unwrap(), b"\n\r");
    let second = it.next().unwrap();
    assert!(matches!(second, OutputItem::EndOfString));
    assert!(second.get_bytes().is_none());
    assert!(it.next().is_none());
    assert_eq!(terminal.get_position(), Position::new(1, 0));
}

#[test]
fn output_clear_screen_scrolls_to_top() {
    let prompt = Prompt::from_str("$ ");
    let line_buffer = LineBuffer::new_unbounded();
    let mut terminal = Terminal::new(4, 10, Cursor::new(2, 5));

    let result = output_to_string(Output::new(
        &prompt,
        &line_buffer,
        &mut terminal,
        OutputAction::ClearScreen,
    ));
    assert_eq!(result, "\x1b[2T\x1b[1;1H\x1b[J$ ");
    assert_eq!(terminal.get_cursor(), Cursor::new(0, 2));
}

#[test]
fn output_into_vec_wraps_long_line() {
    let prompt = Prompt::from_str("> ");
    let mut line_buffer = LineBuffer::new_unbounded();
    line_buffer.insert_str(0, "abcdefghijklmn").unwrap();
    let mut terminal = Terminal::new(4, 10, Cursor::new(0, 2));

    let bytes = Output::new(
        &prompt,
        &line_buffer,
        &mut terminal,
        OutputAction::ClearAndPrintBuffer,
    )
    .into_vec();
    assert_eq!(bytes, b"\x1b[1;3H\x1b[Jabcdefgh\n\rijklmn");
    assert_eq!(terminal.get_cursor(), Cursor::new(1, 6));
}

#[test]
fn output_into_vec_bell_on_wide_terminal() {
    let prompt = Prompt::from_str("> ");
    let line_buffer = LineBuffer::new_unbounded();
    let mut terminal = Terminal::new(24, 20000, Cursor::new(0, 2));

    let bytes =
        Output::new(&prompt, &line_buffer, &mut terminal, OutputAction::RingBell).into_vec();
    assert_eq!(bytes, vec![0x07]);
}
