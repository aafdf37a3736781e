use vstd::prelude::*;

use super::output_item::{ItemView, OutputItem};
use super::uint_to_bytes::{digits, pow10, UintToBytes};
use crate::terminal::Cursor;

verus! {

/// The escape sequence start `ESC [`.
pub open spec fn csi_prefix() -> Seq<u8> {
    seq![0x1bu8, 0x5bu8]
}

/// Absolute value of `x`.
pub open spec fn abs(x: int) -> nat {
    if x < 0 {
        (-x) as nat
    } else {
        x as nat
    }
}

/// The items that scroll the screen by `scroll` rows (up when positive)
/// and put the cursor on screen place `cursor`.
pub open spec fn move_cursor_items(cursor: Cursor, scroll: int) -> Seq<Seq<u8>> {
    let scroll_items = if scroll != 0 {
        seq![
            csi_prefix(),
            digits(abs(scroll)),
            if scroll > 0 {
                seq![0x53u8]
            } else {
                seq![0x54u8]
            },
        ]
    } else {
        Seq::empty()
    };
    scroll_items + seq![
        csi_prefix(),
        digits((cursor.row + 1) as nat),
        seq![0x3bu8],
        digits((cursor.column + 1) as nat),
        seq![0x48u8],
    ]
}

/// Whether `move_cursor_items` can be written with numbers of at most
/// four digits.
pub open spec fn move_cursor_fits(cursor: Cursor, scroll: int) -> bool {
    &&& cursor.row + 1 < pow10(4)
    &&& cursor.column + 1 < pow10(4)
    &&& abs(scroll) < pow10(4)
}

#[derive(Debug, Clone, Copy)]
enum MoveCursorState {
    New,
    ScrollPrefix,
    Scroll,
    ScrollFinalByte,
    MovePrefix,
    Row,
    Separator,
    Column,
    MoveFinalByte,
    Done,
}

/// The output that scrolls and moves the cursor, one item at a time.
#[derive(Debug)]
pub struct MoveCursor {
    state: MoveCursorState,
    cursor: Cursor,
    scroll: isize,
}

proof fn lemma_pow10_4()
    ensures
        pow10(4) == 10000,
{
    reveal_with_fuel(pow10, 5);
}

impl MoveCursor {
    /// Items already handed out.
    closed spec fn done(&self) -> int {
        let s = if self.scroll != 0 {
            3int
        } else {
            0int
        };
        match self.state {
            MoveCursorState::New => 0,
            MoveCursorState::ScrollPrefix => 0,
            MoveCursorState::Scroll => 1,
            MoveCursorState::ScrollFinalByte => 2,
            MoveCursorState::MovePrefix => s,
            MoveCursorState::Row => s + 1,
            MoveCursorState::Separator => s + 2,
            MoveCursorState::Column => s + 3,
            MoveCursorState::MoveFinalByte => s + 4,
            MoveCursorState::Done => s + 5,
        }
    }

    /// The items still to come.
    pub closed spec fn remaining(&self) -> Seq<Seq<u8>> {
        let items = move_cursor_items(self.cursor, self.scroll as int);
        items.subrange(self.done(), items.len() as int)
    }

    pub closed spec fn wf(&self) -> bool {
        &&& move_cursor_fits(self.cursor, self.scroll as int)
        &&& (self.state is ScrollPrefix || self.state is Scroll || self.state is ScrollFinalByte
            ==> self.scroll != 0)
    }

    /// A fresh move to `cursor` after scrolling `scroll` rows.
    pub closed spec fn spec_new(cursor: Cursor, scroll: int) -> MoveCursor {
        MoveCursor { state: MoveCursorState::New, cursor, scroll: scroll as isize }
    }

    /// The state after handing out one item.
    pub closed spec fn spec_advanced(&self) -> MoveCursor {
        let state = match self.state {
            MoveCursorState::New => if self.scroll != 0 {
                MoveCursorState::Scroll
            } else {
                MoveCursorState::Row
            },
            MoveCursorState::ScrollPrefix => MoveCursorState::Scroll,
            MoveCursorState::Scroll => MoveCursorState::ScrollFinalByte,
            MoveCursorState::ScrollFinalByte => MoveCursorState::MovePrefix,
            MoveCursorState::MovePrefix => MoveCursorState::Row,
            MoveCursorState::Row => MoveCursorState::Separator,
            MoveCursorState::Separator => MoveCursorState::Column,
            MoveCursorState::Column => MoveCursorState::MoveFinalByte,
            MoveCursorState::MoveFinalByte => MoveCursorState::Done,
            MoveCursorState::Done => MoveCursorState::Done,
        };
        MoveCursor { state, ..*self }
    }

    /// What can be known of a fresh move.
    pub proof fn lemma_spec_new(cursor: Cursor, scroll: int)
        requires
            move_cursor_fits(cursor, scroll),
            fits_scroll(scroll),
        ensures
            Self::spec_new(cursor, scroll).wf(),
            Self::spec_new(cursor, scroll).remaining() == move_cursor_items(cursor, scroll),
    {
        let items = move_cursor_items(cursor, scroll);
        assert(items.subrange(0, items.len() as int) =~= items);
    }

    pub fn new(cursor: Cursor, scroll: isize) -> (m: Self)
        requires
            move_cursor_fits(cursor, scroll as int),
        ensures
            m == Self::spec_new(cursor, scroll as int),
            m.wf(),
            m.remaining() == move_cursor_items(cursor, scroll as int),
    {
        let m = Self { state: MoveCursorState::New, cursor, scroll };
        proof {
            let items = move_cursor_items(cursor, scroll as int);
            assert(items.subrange(0, items.len() as int) =~= items);
        }
        m
    }

    /// The next item of the move, if any is left.
    pub fn next(&mut self) -> (r: Option<OutputItem<'static>>)
        requires
            old(self).wf(),
        ensures
            final(self).wf(),
            *final(self) == old(self).spec_advanced(),
            old(self).remaining().len() > 0 ==> (r matches Some(item) && item@ is Bytes
                && item@->Bytes_0 =~= old(self).remaining()[0]) && final(self).remaining()
                == old(self).remaining().drop_first(),
            old(self).remaining().len() == 0 ==> r is None && final(self).remaining().len() == 0,
    {
        proof {
            lemma_pow10_4();
            let mi = move_cursor_items(self.cursor, self.scroll as int);
            assert(mi.subrange(self.done(), mi.len() as int).len() > 0 ==> mi.subrange(
                self.spec_advanced().done(),
                mi.len() as int,
            ) =~= mi.subrange(self.done(), mi.len() as int).drop_first());
            if self.scroll != 0 {
                assert(mi[0] == csi_prefix());
            }
        }
        if let MoveCursorState::New = self.state {
            if self.scroll != 0 {
                self.state = MoveCursorState::ScrollPrefix;
            } else {
                self.state = MoveCursorState::MovePrefix;
            }
        }
        match self.state {
            MoveCursorState::ScrollPrefix => {
                self.state = MoveCursorState::Scroll;
                Some(OutputItem::Slice(&[0x1b, 0x5b]))
            },
            MoveCursorState::Scroll => {
                self.state = MoveCursorState::ScrollFinalByte;
                let n = unsigned_abs(self.scroll);
                match UintToBytes::from_uint(n) {
                    Some(u) => Some(OutputItem::UintToBytes(u)),
                    None => None,
                }
            },
            MoveCursorState::ScrollFinalByte => {
                self.state = MoveCursorState::MovePrefix;
                Some(
                    OutputItem::Slice(
                        if self.scroll > 0 {
                            &[0x53]
                        } else {
                            &[0x54]
                        },
                    ),
                )
            },
            MoveCursorState::MovePrefix => {
                self.state = MoveCursorState::Row;
                Some(OutputItem::Slice(&[0x1b, 0x5b]))
            },
            MoveCursorState::Row => {
                self.state = MoveCursorState::Separator;
                match UintToBytes::from_uint(self.cursor.row + 1) {
                    Some(u) => Some(OutputItem::UintToBytes(u)),
                    None => None,
                }
            },
            MoveCursorState::Separator => {
                self.state = MoveCursorState::Column;
                Some(OutputItem::Slice(&[0x3b]))
            },
            MoveCursorState::Column => {
                self.state = MoveCursorState::MoveFinalByte;
                match UintToBytes::from_uint(self.cursor.column + 1) {
                    Some(u) => Some(OutputItem::UintToBytes(u)),
                    None => None,
                }
            },
            MoveCursorState::MoveFinalByte => {
                self.state = MoveCursorState::Done;
                Some(OutputItem::Slice(&[0x48]))
            },
            _ => None,
        }
    }
}

/// Whether `|scroll|` can be computed.
pub open spec fn fits_scroll(scroll: int) -> bool {
    isize::MIN <= scroll <= isize::MAX
}

/// `|x|` as an unsigned number.
fn unsigned_abs(x: isize) -> (r: usize)
    ensures
        r == abs(x as int),
{
    if x >= 0 {
        x as usize
    } else {
        ((-(x + 1)) as usize) + 1
    }
}

} // verus!
