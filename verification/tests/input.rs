use noline::input::{Action, ControlCharacter, Parser, State, CSI};
use noline::utf8::Utf8Char;

fn input_sequence(parser: &mut Parser, seq: &str) -> Vec<Action> {
    seq.as_bytes().iter().map(|&b| parser.advance(b)).collect()
}

#[test]
fn parser() {
    let mut parser = Parser::new();

    assert_eq!(*parser.state(), State::Ground);

    assert_eq!(parser.advance(b'a'), Action::Print(Utf8Char::from_str("a")));
    assert_eq!(
        parser.advance(0x7),
        Action::ControlCharacter(ControlCharacter::CtrlG)
    );
    assert_eq!(
        parser.advance(0x3),
        Action::ControlCharacter(ControlCharacter::CtrlC)
    );

    let actions = input_sequence(&mut parser, "æ");
    assert_eq!(
        actions,
        [Action::Ignore, Action::Print(Utf8Char::from_str("æ"))]
    );

    let mut actions = input_sequence(&mut parser, "\x1b[312;836R");
    assert_eq!(
        actions.pop().unwrap(),
        Action::ControlSequenceIntroducer(CSI::CPR(312, 836))
    );
    while let Some(action) = actions.pop() {
        assert_eq!(action, Action::Ignore);
    }

    let mut actions = input_sequence(&mut parser, "\x1b[R");
    assert_eq!(
        actions.pop().unwrap(),
        Action::ControlSequenceIntroducer(CSI::Invalid)
    );

    let mut actions = input_sequence(&mut parser, "\x1b[32R");
    assert_eq!(
        actions.pop().unwrap(),
        Action::ControlSequenceIntroducer(CSI::Invalid)
    );

    let mut actions = input_sequence(&mut parser, "\x1b[32;R");
    assert_eq!(
        actions.pop().unwrap(),
        Action::ControlSequenceIntroducer(CSI::Invalid)
    );

    let mut actions = input_sequence(&mut parser, "\x1b[A");
    assert_eq!(
        actions.pop().unwrap(),
        Action::ControlSequenceIntroducer(CSI::CUU(1))
    );

    let mut actions = input_sequence(&mut parser, "\x1b[10B");
    assert_eq!(
        actions.pop().unwrap(),
        Action::ControlSequenceIntroducer(CSI::CUD(10))
    );

    let mut actions = input_sequence(&mut parser, "\x1b[H");
    assert_eq!(
        actions.pop().unwrap(),
        Action::ControlSequenceIntroducer(CSI::CUP(1, 1))
    );

    let mut actions = input_sequence(&mut parser, "\x1b[2;5H");
    assert_eq!(
        actions.pop().unwrap(),
        Action::ControlSequenceIntroducer(CSI::CUP(2, 5))
    );

    let mut actions = input_sequence(&mut parser, "\x1b[;5H");
    assert_eq!(
        actions.pop().unwrap(),
        Action::ControlSequenceIntroducer(CSI::CUP(1, 5))
    );

    let mut actions = input_sequence(&mut parser, "\x1b[17;H");
    assert_eq!(
        actions.pop().unwrap(),
        Action::ControlSequenceIntroducer(CSI::CUP(17, 1))
    );

    let mut actions = input_sequence(&mut parser, "\x1b[;H");
    assert_eq!(
        actions.pop().unwrap(),
        Action::ControlSequenceIntroducer(CSI::CUP(1, 1))
    );

    let mut actions = input_sequence(&mut parser, "\x1b[;10H");
    assert_eq!(
        actions.pop().unwrap(),
        Action::ControlSequenceIntroducer(CSI::CUP(1, 10))
    );
}

#[test]
fn parser_control_sequences() {
    let mut parser = Parser::new();

    let mut actions = input_sequence(&mut parser, "\x1b[3~");
    assert_eq!(
        actions.pop().unwrap(),
        Action::ControlSequenceIntroducer(CSI::Delete)
    );

    let mut actions = input_sequence(&mut parser, "\x1b[6n");
    assert_eq!(
        actions.pop().unwrap(),
        Action::ControlSequenceIntroducer(CSI::DSR)
    );

    let mut actions = input_sequence(&mut parser, "\x1b7");
    assert_eq!(actions.pop().unwrap(), Action::EscapeSequence(b'7'));

    assert_eq!(
        parser.advance(0x7f),
        Action::ControlCharacter(ControlCharacter::Backspace)
    );
    assert_eq!(parser.advance(0xff), Action::InvalidUtf8);
}

#[test]
fn control_character_bytes() {
    assert_eq!(u8::from(ControlCharacter::CtrlA), 0x01);
    assert_eq!(u8::from(ControlCharacter::Backspace), 0x7f);
    assert_eq!(
        ControlCharacter::new(0x0d),
        Ok(ControlCharacter::CarriageReturn)
    );
    assert!(ControlCharacter::new(b'a').is_err());
}
