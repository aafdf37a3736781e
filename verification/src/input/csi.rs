use vstd::prelude::*;

verus! {

/// Control sequences (`ESC [ ...`) that the editor tells apart.
#[allow(clippy::upper_case_acronyms)]
#[derive(Debug, Eq, PartialEq, Copy, Clone, Structural)]
pub enum CSI {
    CUU(usize),
    CUD(usize),
    CUF(usize),
    CUB(usize),
    CPR(usize, usize),
    CUP(usize, usize),
    ED(usize),
    DSR,
    SU(usize),
    SD(usize),
    Home,
    Delete,
    End,
    Unknown(u8),
    Invalid,
}

/// The control sequence with final byte `byte` and the given numeric
/// parameters; absent parameters take their defaults (1 for movement,
/// scrolling and positions, 0 for erasing).
pub open spec fn csi_of(byte: u8, arg1: Option<usize>, arg2: Option<usize>) -> CSI {
    if byte == 0x41 {
        CSI::CUU(arg1.unwrap_or(1))
    } else if byte == 0x42 {
        CSI::CUD(arg1.unwrap_or(1))
    } else if byte == 0x43 {
        CSI::CUF(arg1.unwrap_or(1))
    } else if byte == 0x44 {
        CSI::CUB(arg1.unwrap_or(1))
    } else if byte == 0x48 {
        CSI::CUP(arg1.unwrap_or(1), arg2.unwrap_or(1))
    } else if byte == 0x4a {
        CSI::ED(arg1.unwrap_or(0))
    } else if byte == 0x52 {
        match (arg1, arg2) {
            (Some(a), Some(b)) => CSI::CPR(a, b),
            _ => CSI::Invalid,
        }
    } else if byte == 0x53 {
        CSI::SU(arg1.unwrap_or(1))
    } else if byte == 0x54 {
        CSI::SD(arg1.unwrap_or(1))
    } else if byte == 0x6e {
        CSI::DSR
    } else if byte == 0x7e {
        match arg1 {
            Some(1) => CSI::Home,
            Some(3) => CSI::Delete,
            Some(4) => CSI::End,
            _ => CSI::Unknown(byte),
        }
    } else {
        CSI::Unknown(byte)
    }
}

/// Law: the keys sent as `ESC [ n ~` are told apart by `n`: 1 is Home,
/// 3 is Delete and 4 is End, no other parameter gives any of them, and
/// two parameters that give the same key are the same.
pub proof fn lemma_tilde_keys(n: usize, m: usize, arg2: Option<usize>, arg2b: Option<usize>)
    ensures
        csi_of(0x7e, Some(n), arg2) is Home <==> n == 1,
        csi_of(0x7e, Some(n), arg2) is Delete <==> n == 3,
        csi_of(0x7e, Some(n), arg2) is End <==> n == 4,
        csi_of(0x7e, Some(n), arg2) == csi_of(0x7e, Some(m), arg2b) && !(csi_of(
            0x7e,
            Some(n),
            arg2,
        ) is Unknown) ==> n == m,
{
}

/// Law: the final byte of a control sequence decides what it is: `A`,
/// `B`, `C` and `D` move the cursor up, down, right and left (by the
/// first parameter, 1 when absent), `H` places it, `J` erases, `S` and
/// `T` scroll, `n` asks for the cursor position and `R` reports it.
pub proof fn lemma_final_bytes(b: u8, arg1: Option<usize>, arg2: Option<usize>)
    ensures
        csi_of(b, arg1, arg2) is CUU <==> b == 0x41,
        csi_of(b, arg1, arg2) is CUD <==> b == 0x42,
        csi_of(b, arg1, arg2) is CUF <==> b == 0x43,
        csi_of(b, arg1, arg2) is CUB <==> b == 0x44,
        csi_of(b, arg1, arg2) is CUP <==> b == 0x48,
        csi_of(b, arg1, arg2) is ED <==> b == 0x4a,
        csi_of(b, arg1, arg2) is SU <==> b == 0x53,
        csi_of(b, arg1, arg2) is SD <==> b == 0x54,
        csi_of(b, arg1, arg2) is DSR <==> b == 0x6e,
        csi_of(b, arg1, arg2) is CPR ==> b == 0x52,
        b == 0x43 ==> csi_of(b, arg1, arg2) == CSI::CUF(arg1.unwrap_or(1)),
        b == 0x44 ==> csi_of(b, arg1, arg2) == CSI::CUB(arg1.unwrap_or(1)),
        b == 0x41 ==> csi_of(b, arg1, arg2) == CSI::CUU(arg1.unwrap_or(1)),
        b == 0x42 ==> csi_of(b, arg1, arg2) == CSI::CUD(arg1.unwrap_or(1)),
{
}

impl CSI {
    pub fn new(byte: u8, arg1: Option<usize>, arg2: Option<usize>) -> (c: Self)
        ensures
            c == csi_of(byte, arg1, arg2),
    {
        match byte {
            0x41 => Self::CUU(arg1.unwrap_or(1)),
            0x42 => Self::CUD(arg1.unwrap_or(1)),
            0x43 => Self::CUF(arg1.unwrap_or(1)),
            0x44 => Self::CUB(arg1.unwrap_or(1)),
            0x48 => Self::CUP(arg1.unwrap_or(1), arg2.unwrap_or(1)),
            0x4a => Self::ED(arg1.unwrap_or(0)),
            0x52 => {
                if let (Some(arg1), Some(arg2)) = (arg1, arg2) {
                    Self::CPR(arg1, arg2)
                } else {
                    Self::Invalid
                }
            },
            0x53 => Self::SU(arg1.unwrap_or(1)),
            0x54 => Self::SD(arg1.unwrap_or(1)),
            0x6e => Self::DSR,
            0x7e => {
                if let Some(arg) = arg1 {
                    match arg {
                        1 => Self::Home,
                        3 => Self::Delete,
                        4 => Self::End,
                        _ => Self::Unknown(byte),
                    }
                } else {
                    Self::Unknown(byte)
                }
            },
            _ => Self::Unknown(byte),
        }
    }
}

} // verus!
