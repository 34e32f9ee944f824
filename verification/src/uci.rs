//! The move identifier: a structured algebraic move and its two-byte wire
//! codec.
//!
//! A move is a normal move (from square, to square, optional promotion), a
//! drop of a piece onto a square, or the null move. On the wire it is one
//! little-endian 16-bit code: the six low bits carry the from square, the
//! next six the to square, and the four high bits a role code (0 for none).
//! Equal from and to squares mark a drop (role set) or the null move (role
//! clear).

use vstd::prelude::*;
use crate::codec::{le_enc, le_val, read_le, write_le, FormatError};

verus! {

/// A piece role, also used as a promotion target or a dropped piece.
#[derive(Clone, Copy, Debug, PartialEq, Eq, Hash, Structural)]
pub enum Role {
    Pawn,
    Knight,
    Bishop,
    Rook,
    Queen,
    King,
}

/// The wire code of a role, 1 through 6.
pub open spec fn role_code(r: Role) -> int {
    match r {
        Role::Pawn => 1,
        Role::Knight => 2,
        Role::Bishop => 3,
        Role::Rook => 4,
        Role::Queen => 5,
        Role::King => 6,
    }
}

/// The role a wire code between 1 and 6 names.
pub open spec fn role_of_code(code: int) -> Role {
    if code == 1 {
        Role::Pawn
    } else if code == 2 {
        Role::Knight
    } else if code == 3 {
        Role::Bishop
    } else if code == 4 {
        Role::Rook
    } else if code == 5 {
        Role::Queen
    } else {
        Role::King
    }
}

/// A move in coordinate notation. Squares are numbered 0 through 63, file
/// first (a1 is 0, b1 is 1, a2 is 8).
#[derive(Clone, Copy, Debug, PartialEq, Eq, Hash, Structural)]
pub enum UciMove {
    /// An ordinary move, possibly promoting.
    Normal { from: u8, to: u8, promotion: Option<Role> },
    /// A drop of a held piece onto a square.
    Put { role: Role, to: u8 },
    /// The null move.
    Null,
}

impl UciMove {
    /// Squares are on the board, and a normal move leaves its square.
    pub open spec fn wf(self) -> bool {
        match self {
            UciMove::Normal { from, to, .. } => from < 64 && to < 64 && from != to,
            UciMove::Put { to, .. } => to < 64,
            UciMove::Null => true,
        }
    }

    /// The 16-bit wire code of a move.
    pub open spec fn code_spec(self) -> int {
        match self {
            UciMove::Normal { from, to, promotion } => from + 64 * to + 4096 * (match promotion {
                Some(r) => role_code(r),
                None => 0,
            }),
            UciMove::Put { role, to } => to + 64 * to + 4096 * role_code(role),
            UciMove::Null => 0,
        }
    }
}

/// The wire encoding of a move: its code as two little-endian bytes.
pub open spec fn move_enc(m: UciMove) -> Seq<u8> {
    le_enc(m.code_spec() as nat, 2)
}

/// The move a 16-bit wire code names, or the error for codes outside the
/// format (a reserved role code, or a non-canonical null form).
pub open spec fn move_of_code(n: int) -> Result<UciMove, FormatError> {
    let from = n % 64;
    let to = (n / 64) % 64;
    let rc = n / 4096;
    if rc > 6 {
        Err(FormatError::Invalid)
    } else if from == to {
        if rc == 0 {
            if from == 0 {
                Ok(UciMove::Null)
            } else {
                Err(FormatError::Invalid)
            }
        } else {
            Ok(UciMove::Put { role: role_of_code(rc), to: to as u8 })
        }
    } else {
        Ok(
            UciMove::Normal {
                from: from as u8,
                to: to as u8,
                promotion: if rc == 0 {
                    None
                } else {
                    Some(role_of_code(rc))
                },
            },
        )
    }
}

/// What reading a move yields at position `i`: the move and the position two
/// bytes on, or the error.
pub open spec fn dec_move(s: Seq<u8>, i: int) -> Result<(UciMove, int), FormatError> {
    if i < 0 || i + 2 > s.len() {
        Err(FormatError::Truncated)
    } else {
        match move_of_code(le_val(s.subrange(i, i + 2)) as int) {
            Ok(m) => Ok((m, i + 2)),
            Err(e) => Err(e),
        }
    }
}

impl UciMove {
    /// The 16-bit wire code of a well-formed move.
    pub fn code(&self) -> (r: u16)
        requires
            self.wf(),
        ensures
            r as int == self.code_spec(),
    {
        match *self {
            UciMove::Normal { from, to, promotion } => {
                let rc: u16 = match promotion {
                    Some(Role::Pawn) => 1,
                    Some(Role::Knight) => 2,
                    Some(Role::Bishop) => 3,
                    Some(Role::Rook) => 4,
                    Some(Role::Queen) => 5,
                    Some(Role::King) => 6,
                    None => 0,
                };
                from as u16 + 64 * (to as u16) + 4096 * rc
            },
            UciMove::Put { role, to } => {
                let rc: u16 = match role {
                    Role::Pawn => 1,
                    Role::Knight => 2,
                    Role::Bishop => 3,
                    Role::Rook => 4,
                    Role::Queen => 5,
                    Role::King => 6,
                };
                to as u16 + 64 * (to as u16) + 4096 * rc
            },
            UciMove::Null => 0,
        }
    }

    /// Appends the two-byte encoding of this move.
    pub fn write(&self, out: &mut Vec<u8>)
        requires
            self.wf(),
        ensures
            final(out)@ == old(out)@ + move_enc(*self),
    {
        let n = self.code();
        write_le(out, n as u128, 2);
    }

    /// Reads a move at the cursor; result and final cursor are exactly what
    /// `dec_move` says of the bytes.
    pub fn read(s: &[u8], pos: &mut usize) -> (r: Result<UciMove, FormatError>)
        ensures
            match r {
                Ok(m) => *final(pos) <= s@.len() && dec_move(s@, *old(pos) as int) == Ok::<
                    (UciMove, int),
                    FormatError,
                >((m, *final(pos) as int)),
                Err(e) => dec_move(s@, *old(pos) as int) == Err::<(UciMove, int), FormatError>(e),
            },
    {
        let n128 = match read_le(s, pos, 2) {
            Ok(v) => v,
            Err(e) => {
                return Err(e);
            },
        };
        proof {
            crate::codec::lemma_le_val_bound(s@.subrange(*old(pos) as int, *old(pos) + 2));
            reveal_with_fuel(crate::codec::pow256, 3);
        }
        let n: u32 = n128 as u32;
        let from: u32 = n % 64;
        let to: u32 = (n / 64) % 64;
        let rc: u32 = n / 4096;
        if rc > 6 {
            return Err(FormatError::Invalid);
        }
        if from == to {
            if rc == 0 {
                if from == 0 {
                    Ok(UciMove::Null)
                } else {
                    Err(FormatError::Invalid)
                }
            } else {
                Ok(UciMove::Put { role: role_of_code_exec(rc as u8), to: to as u8 })
            }
        } else {
            Ok(
                UciMove::Normal {
                    from: from as u8,
                    to: to as u8,
                    promotion: if rc == 0 {
                        None
                    } else {
                        Some(role_of_code_exec(rc as u8))
                    },
                },
            )
        }
    }
}

/// The role a wire code between 1 and 6 names.
fn role_of_code_exec(code: u8) -> (r: Role)
    requires
        1 <= code <= 6,
    ensures
        r == role_of_code(code as int),
{
    match code {
        1 => Role::Pawn,
        2 => Role::Knight,
        3 => Role::Bishop,
        4 => Role::Rook,
        5 => Role::Queen,
        _ => Role::King,
    }
}

/// Round trip: wherever the encoding of a well-formed move sits in a byte
/// string, decoding there yields the move and stops right after it.
pub proof fn lemma_move_roundtrip(m: UciMove, s: Seq<u8>, i: int)
    requires
        m.wf(),
        0 <= i,
        i + 2 <= s.len(),
        s.subrange(i, i + 2) == move_enc(m),
    ensures
        dec_move(s, i) == Ok::<(UciMove, int), FormatError>((m, i + 2)),
{
    let n = m.code_spec();
    assert(0 <= n < 65536) by {
        match m {
            UciMove::Normal { from, to, promotion } => {
                assert(n <= 63 + 64 * 63 + 4096 * 6) by (nonlinear_arith)
                    requires
                        n == from + 64 * to + 4096 * (match promotion {
                            Some(r) => role_code(r),
                            None => 0,
                        }),
                        from < 64,
                        to < 64,
                        m.wf(),
                        (match promotion {
                            Some(r) => role_code(r),
                            None => 0,
                        }) <= 6,
                ;
            },
            UciMove::Put { role, to } => {
                assert(n <= 63 + 64 * 63 + 4096 * 6);
            },
            UciMove::Null => {
            },
        }
    }
    assert(crate::codec::pow256(2) == 65536) by {
        reveal_with_fuel(crate::codec::pow256, 3);
    }
    crate::codec::lemma_le_enc_val(n as nat, 2);
    let code = le_val(s.subrange(i, i + 2)) as int;
    assert(code == n);
    lemma_move_code_roundtrip(m);
}

/// Decoding the wire code of a well-formed move yields the move itself.
proof fn lemma_move_code_roundtrip(m: UciMove)
    requires
        m.wf(),
    ensures
        move_of_code(m.code_spec()) == Ok::<UciMove, FormatError>(m),
{
    let n = m.code_spec();
    match m {
        UciMove::Normal { from, to, promotion } => {
            let rc = match promotion {
                Some(r) => role_code(r),
                None => 0int,
            };
            assert(n % 64 == from && (n / 64) % 64 == to && n / 4096 == rc) by (nonlinear_arith)
                requires
                    n == from + 64 * to + 4096 * rc,
                    0 <= from < 64,
                    0 <= to < 64,
                    0 <= rc <= 6,
            ;
            if rc != 0 {
                assert(role_of_code(rc) == promotion.unwrap());
            }
        },
        UciMove::Put { role, to } => {
            let rc = role_code(role);
            assert(n % 64 == to && (n / 64) % 64 == to && n / 4096 == rc) by (nonlinear_arith)
                requires
                    n == to + 64 * to + 4096 * rc,
                    0 <= to < 64,
                    1 <= rc <= 6,
            ;
            assert(role_of_code(rc) == role);
        },
        UciMove::Null => {
        },
    }
}

} // verus!
