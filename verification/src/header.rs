//! The one-byte frame header of the record format.
//!
//! A header either ends a move's group list, or announces a group for one
//! (speed, mode) bucket together with the number of sample games that follow.
//! Bit layout: the three low bits carry the speed class (1 through 6; 0 is
//! the end marker and 7 is reserved), the next bit the rated flag, and the
//! four high bits the game count (at most 15).

use vstd::prelude::*;
use crate::codec::FormatError;
use crate::mode::Mode;
use crate::speed::Speed;

verus! {

/// The maximum number of sample games one header can announce, and so the
/// retention cap of a serialized group.
pub const MAX_GAMES: u64 = 15;

/// One frame header of a move's group list.
#[derive(Clone, Copy, Debug, PartialEq, Eq, Structural)]
pub enum Header {
    /// A group for this bucket follows, with `num_games` sample games.
    Group { speed: Speed, mode: Mode, num_games: usize },
    /// The move's group list ends here.
    End,
}

/// The wire code of a speed class; code 0 is the end marker and 7 is
/// reserved.
pub open spec fn speed_code(speed: Speed) -> int {
    match speed {
        Speed::UltraBullet => 1,
        Speed::Bullet => 2,
        Speed::Blitz => 3,
        Speed::Rapid => 4,
        Speed::Classical => 5,
        Speed::Correspondence => 6,
    }
}

/// The speed class a wire code between 1 and 6 names.
pub open spec fn speed_of_code(code: int) -> Speed {
    if code == 1 {
        Speed::UltraBullet
    } else if code == 2 {
        Speed::Bullet
    } else if code == 3 {
        Speed::Blitz
    } else if code == 4 {
        Speed::Rapid
    } else if code == 5 {
        Speed::Classical
    } else {
        Speed::Correspondence
    }
}

impl Header {
    /// A group header must announce a count the four count bits can hold.
    pub open spec fn wf(self) -> bool {
        match self {
            Header::Group { num_games, .. } => num_games <= MAX_GAMES,
            Header::End => true,
        }
    }
}

/// The byte encoding a header.
pub open spec fn header_byte(h: Header) -> u8 {
    match h {
        Header::End => 0u8,
        Header::Group { speed, mode, num_games } => (speed_code(speed) + if mode.rated_spec() {
            8int
        } else {
            0int
        } + 16 * num_games) as u8,
    }
}

/// What reading a header yields at position `i`: the header and the position
/// after it, truncation at the end of the stream, or rejection of the
/// reserved speed code.
pub open spec fn dec_header(s: Seq<u8>, i: int) -> Result<(Header, int), FormatError> {
    if i < 0 || i >= s.len() {
        Err(FormatError::Truncated)
    } else {
        let b = s[i] as int;
        let code = b % 8;
        if code == 0 {
            Ok((Header::End, i + 1))
        } else if code == 7 {
            Err(FormatError::Invalid)
        } else {
            Ok(
                (
                    Header::Group {
                        speed: speed_of_code(code),
                        mode: if (b / 8) % 2 == 1 {
                            Mode::Rated
                        } else {
                            Mode::Casual
                        },
                        num_games: (b / 16) as usize,
                    },
                    i + 1,
                ),
            )
        }
    }
}

impl Header {
    /// Appends the one-byte encoding of this header.
    pub fn write(&self, out: &mut Vec<u8>)
        requires
            self.wf(),
        ensures
            final(out)@ == old(out)@ + seq![header_byte(*self)],
    {
        let b: u8 = match *self {
            Header::End => 0,
            Header::Group { speed, mode, num_games } => {
                let code: u8 = match speed {
                    Speed::UltraBullet => 1,
                    Speed::Bullet => 2,
                    Speed::Blitz => 3,
                    Speed::Rapid => 4,
                    Speed::Classical => 5,
                    Speed::Correspondence => 6,
                };
                let rated: u8 = if mode.is_rated() {
                    8
                } else {
                    0
                };
                code + rated + 16 * (num_games as u8)
            },
        };
        out.push(b);
    }

    /// Reads a header at the cursor; result and final cursor are exactly what
    /// `dec_header` says of the bytes.
    pub fn read(s: &[u8], pos: &mut usize) -> (r: Result<Header, FormatError>)
        requires
            *old(pos) <= s@.len(),
        ensures
            match r {
                Ok(h) => *final(pos) == *old(pos) + 1 && dec_header(s@, *old(pos) as int) == Ok::<
                    (Header, int),
                    FormatError,
                >((h, *final(pos) as int)),
                Err(e) => dec_header(s@, *old(pos) as int) == Err::<(Header, int), FormatError>(e),
            },
    {
        if *pos >= s.len() {
            return Err(FormatError::Truncated);
        }
        let b: u8 = s[*pos];
        let code: u8 = b % 8;
        if code == 0 {
            *pos = *pos + 1;
            return Ok(Header::End);
        }
        if code == 7 {
            return Err(FormatError::Invalid);
        }
        let speed = match code {
            1 => Speed::UltraBullet,
            2 => Speed::Bullet,
            3 => Speed::Blitz,
            4 => Speed::Rapid,
            5 => Speed::Classical,
            _ => Speed::Correspondence,
        };
        let mode = Mode::from_rated((b / 8) % 2 == 1);
        let num_games: usize = (b / 16) as usize;
        *pos = *pos + 1;
        Ok(Header::Group { speed, mode, num_games })
    }
}

/// Round trip: decoding the byte a well-formed header encodes to yields the
/// header itself, one byte on.
pub proof fn lemma_header_roundtrip(h: Header, s: Seq<u8>, i: int)
    requires
        h.wf(),
        0 <= i < s.len(),
        s[i] == header_byte(h),
    ensures
        dec_header(s, i) == Ok::<(Header, int), FormatError>((h, i + 1)),
{
    match h {
        Header::End => {
        },
        Header::Group { speed, mode, num_games } => {
            let code = speed_code(speed);
            let r = if mode.rated_spec() {
                8int
            } else {
                0int
            };
            let b = code + r + 16 * num_games;
            assert(0 <= b < 256);
            assert(s[i] as int == b);
            assert(b % 8 == code && (b / 8) % 2 == (r / 8) && b / 16 == num_games) by (nonlinear_arith)
                requires
                    1 <= code <= 6,
                    r == 0 || r == 8,
                    0 <= num_games <= 15,
                    b == code + r + 16 * num_games,
            ;
            assert(speed_of_code(code) == speed);
        },
    }
}

/// A byte whose speed bits hold the reserved code 7 is rejected as invalid.
pub proof fn lemma_header_reserved_speed(s: Seq<u8>, i: int)
    requires
        0 <= i < s.len(),
        s[i] as int % 8 == 7,
    ensures
        dec_header(s, i) == Err::<(Header, int), FormatError>(FormatError::Invalid),
{
}

} // verus!
