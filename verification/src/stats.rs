//! Win/draw/loss counters and their additive combine operation.

use vstd::prelude::*;
use crate::codec::{dec_uint, read_uint, uint_enc, write_uint, FormatError};
use crate::game::{Color, Outcome};

verus! {

/// Aggregated outcome counters of one bucket: games won by white, drawn, and
/// won by black.
#[derive(Clone, Copy, Debug, PartialEq, Eq, Hash, Structural)]
pub struct Stats {
    pub white: u64,
    pub draws: u64,
    pub black: u64,
}

/// The unit counters of a single game with the given outcome.
pub open spec fn stats_of(outcome: Outcome) -> Stats {
    match outcome {
        Outcome::Decisive { winner: Color::White } => Stats { white: 1, draws: 0, black: 0 },
        Outcome::Decisive { winner: Color::Black } => Stats { white: 0, draws: 0, black: 1 },
        Outcome::Draw => Stats { white: 0, draws: 1, black: 0 },
    }
}

/// Field-wise sum of two counters, wrapping modulo the counter width.
pub open spec fn stats_plus(a: Stats, b: Stats) -> Stats {
    Stats {
        white: (a.white + b.white) as u64,
        draws: (a.draws + b.draws) as u64,
        black: (a.black + b.black) as u64,
    }
}

/// Whether the field-wise sum of two counters stays within the counter width.
pub open spec fn stats_fits(a: Stats, b: Stats) -> bool {
    &&& a.white + b.white <= u64::MAX
    &&& a.draws + b.draws <= u64::MAX
    &&& a.black + b.black <= u64::MAX
}

/// The wire encoding of the counters: three variable-length integers in fixed
/// field order.
pub open spec fn stats_enc(s: Stats) -> Seq<u8> {
    uint_enc(s.white) + uint_enc(s.draws) + uint_enc(s.black)
}

/// What reading the three counters yields at position `i`.
pub open spec fn dec_stats(s: Seq<u8>, i: int) -> Result<(Stats, int), FormatError> {
    match dec_uint(s, i) {
        Err(e) => Err(e),
        Ok((white, j)) => match dec_uint(s, j) {
            Err(e) => Err(e),
            Ok((draws, j)) => match dec_uint(s, j) {
                Err(e) => Err(e),
                Ok((black, j)) => Ok((Stats { white, draws, black }, j)),
            },
        },
    }
}

impl Default for Stats {
    /// The zero counters: no game seen yet.
    fn default() -> (r: Stats)
        ensures
            r == (Stats { white: 0u64, draws: 0u64, black: 0u64 }),
    {
        Stats { white: 0, draws: 0, black: 0 }
    }
}

impl Stats {
    /// The unit counters for one game outcome: exactly one field is 1.
    pub fn from_outcome(outcome: Outcome) -> (r: Stats)
        ensures
            r == stats_of(outcome),
    {
        match outcome {
            Outcome::Decisive { winner: Color::White } => Stats { white: 1, draws: 0, black: 0 },
            Outcome::Decisive { winner: Color::Black } => Stats { white: 0, draws: 0, black: 1 },
            Outcome::Draw => Stats { white: 0, draws: 1, black: 0 },
        }
    }

    /// Field-wise sum, or nothing if a counter would leave its width.
    pub fn checked_plus(&self, other: &Stats) -> (r: Option<Stats>)
        ensures
            match r {
                Some(s) => stats_fits(*self, *other) && s == stats_plus(*self, *other),
                None => !stats_fits(*self, *other),
            },
    {
        if self.white <= u64::MAX - other.white && self.draws <= u64::MAX - other.draws
            && self.black <= u64::MAX - other.black {
            Some(
                Stats {
                    white: self.white + other.white,
                    draws: self.draws + other.draws,
                    black: self.black + other.black,
                },
            )
        } else {
            None
        }
    }

    /// Appends the wire encoding of the counters.
    pub fn write(&self, out: &mut Vec<u8>)
        ensures
            final(out)@ == old(out)@ + stats_enc(*self),
    {
        write_uint(out, self.white);
        write_uint(out, self.draws);
        write_uint(out, self.black);
        proof {
            assert(out@ =~= old(out)@ + stats_enc(*self));
        }
    }

    /// Reads the three counters at the cursor; result and final cursor are
    /// exactly what `dec_stats` says of the bytes.
    pub fn read(s: &[u8], pos: &mut usize) -> (r: Result<Stats, FormatError>)
        requires
            *old(pos) <= s@.len(),
        ensures
            match r {
                Ok(v) => *final(pos) <= s@.len() && dec_stats(s@, *old(pos) as int) == Ok::<
                    (Stats, int),
                    FormatError,
                >((v, *final(pos) as int)),
                Err(e) => dec_stats(s@, *old(pos) as int) == Err::<(Stats, int), FormatError>(e),
            },
    {
        let white = match read_uint(s, pos) {
            Ok(v) => v,
            Err(e) => {
                return Err(e);
            },
        };
        let draws = match read_uint(s, pos) {
            Ok(v) => v,
            Err(e) => {
                return Err(e);
            },
        };
        let black = match read_uint(s, pos) {
            Ok(v) => v,
            Err(e) => {
                return Err(e);
            },
        };
        Ok(Stats { white, draws, black })
    }
}

/// A successful read of the counters moves the cursor forward and stays
/// inside the string.
pub proof fn lemma_dec_stats_advance(s: Seq<u8>, i: int)
    ensures
        dec_stats(s, i) matches Ok(r) ==> i < r.1 <= s.len(),
{
    crate::codec::lemma_dec_uint_advance(s, i);
    match dec_uint(s, i) {
        Ok((w, j)) => {
            crate::codec::lemma_dec_uint_advance(s, j);
            match dec_uint(s, j) {
                Ok((d, j2)) => {
                    crate::codec::lemma_dec_uint_advance(s, j2);
                },
                Err(_) => {},
            }
        },
        Err(_) => {},
    }
}

/// Combining counters does not depend on the order of the operands.
pub proof fn lemma_stats_plus_commutative(a: Stats, b: Stats)
    ensures
        stats_plus(a, b) == stats_plus(b, a),
{
}

/// Combining counters does not depend on the grouping of the operands, so
/// merges may be applied in any order.
pub proof fn lemma_stats_plus_associative(a: Stats, b: Stats, c: Stats)
    ensures
        stats_plus(stats_plus(a, b), c) == stats_plus(a, stats_plus(b, c)),
        stats_plus(stats_plus(a, c), b) == stats_plus(a, stats_plus(b, c)),
{
    lemma_wrapping_sum_regroups(a.white, b.white, c.white);
    lemma_wrapping_sum_regroups(a.draws, b.draws, c.draws);
    lemma_wrapping_sum_regroups(a.black, b.black, c.black);
}

/// Wrapping addition of three counters gives one value however they are
/// grouped or ordered.
proof fn lemma_wrapping_sum_regroups(x: u64, y: u64, z: u64)
    ensures
        ((x + y) as u64 + z) as u64 == (x + (y + z) as u64) as u64,
        ((x + z) as u64 + y) as u64 == (x + (y + z) as u64) as u64,
{
    assert(((x + y) as u64 + z) as u64 == (x + (y + z) as u64) as u64 && ((x + z) as u64 + y) as u64
        == (x + (y + z) as u64) as u64) by (bit_vector);
}

} // verus!
