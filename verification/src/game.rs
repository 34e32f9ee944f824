//! Plain-value models of the facts the chess rule layer supplies: game
//! identifiers, side colors, game outcomes and player identities.

use vstd::prelude::*;
use crate::codec::{le_enc, le_val, lemma_le_val_bound, lemma_pow256_16_is_u128, read_le,
    write_le, FormatError};

verus! {

/// Opaque fixed-size identifier of one game, stored on the wire as eight
/// little-endian bytes.
#[derive(Clone, Copy, Debug, PartialEq, Eq, Hash, Structural)]
pub struct GameId(pub u64);

/// What reading a game identifier yields at position `i`: the identifier and
/// the position after it, or truncation.
pub open spec fn dec_game(s: Seq<u8>, i: int) -> Result<(GameId, int), FormatError> {
    if 0 <= i && i + 8 <= s.len() {
        Ok((GameId(le_val(s.subrange(i, i + 8)) as u64), i + 8))
    } else {
        Err(FormatError::Truncated)
    }
}

/// The wire encoding of a game identifier.
pub open spec fn game_enc(g: GameId) -> Seq<u8> {
    le_enc(g.0 as nat, 8)
}

impl GameId {
    /// Appends the eight-byte encoding of this identifier.
    pub fn write(&self, out: &mut Vec<u8>)
        ensures
            final(out)@ == old(out)@ + game_enc(*self),
    {
        write_le(out, self.0 as u128, 8);
    }

    /// Reads a game identifier at the cursor; result and final cursor are
    /// exactly what `dec_game` says of the bytes.
    pub fn read(s: &[u8], pos: &mut usize) -> (r: Result<GameId, FormatError>)
        ensures
            match r {
                Ok(g) => *final(pos) <= s@.len() && dec_game(s@, *old(pos) as int) == Ok::<
                    (GameId, int),
                    FormatError,
                >((g, *final(pos) as int)),
                Err(e) => dec_game(s@, *old(pos) as int) == Err::<(GameId, int), FormatError>(e),
            },
    {
        match read_le(s, pos, 8) {
            Ok(v) => {
                proof {
                    lemma_le_val_bound(s@.subrange(*old(pos) as int, *old(pos) + 8));
                    lemma_pow256_16_is_u128();
                }
                Ok(GameId(v as u64))
            },
            Err(e) => Err(e),
        }
    }
}

/// Side of the board a game is viewed from.
#[derive(Clone, Copy, Debug, PartialEq, Eq, Hash, Structural)]
pub enum Color {
    White,
    Black,
}

/// How a finished game ended.
#[derive(Clone, Copy, Debug, PartialEq, Eq, Structural)]
pub enum Outcome {
    /// One side won.
    Decisive { winner: Color },
    /// The game was drawn.
    Draw,
}

/// A player identity, as the raw bytes the identity layer supplies.
#[derive(Clone, Debug, PartialEq, Eq)]
pub struct UserId {
    pub bytes: Vec<u8>,
}

} // verus!
