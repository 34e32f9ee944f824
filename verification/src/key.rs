//! Derivation of the storage lookup key: a salted identity hash folded with
//! the position hash and a per-variant constant, plus an optional year byte.

use vstd::prelude::*;
use crate::codec::{le_enc, le_val, read_le, write_le};
use crate::game::{Color, UserId};

verus! {

/// The chess variant a position belongs to. Each non-standard variant salts
/// the key so that the same position keys differently per variant.
#[derive(Clone, Copy, Debug, PartialEq, Eq, Hash, Structural)]
pub enum Variant {
    Chess,
    Antichess,
    Atomic,
    Crazyhouse,
    Horde,
    KingOfTheHill,
    RacingKings,
    ThreeCheck,
}

/// The 128-bit salt folded in for each variant; zero for standard chess.
pub open spec fn variant_salt_spec(v: Variant) -> u128 {
    match v {
        Variant::Chess => 0,
        Variant::Antichess => 0x44782fce075483666c81899cb65921c9,
        Variant::Atomic => 0x66ccbd680f655d562689ca333c5e2a42,
        Variant::Crazyhouse => 0x9d04db38ca4d923d82ff24eb9530e986,
        Variant::Horde => 0xc29dfb1076aa15186effd0d34cc60737,
        Variant::KingOfTheHill => 0xdfb25d5df41fc5961e61f6b4ba613fbe,
        Variant::RacingKings => 0x8e72f94307f96710b3910cf7e5808e0d,
        Variant::ThreeCheck => 0xd19242bae967b40e7856bd1c71aa4220,
    }
}

fn variant_salt(v: Variant) -> (r: u128)
    ensures
        r == variant_salt_spec(v),
{
    match v {
        Variant::Chess => 0,
        Variant::Antichess => 0x44782fce075483666c81899cb65921c9,
        Variant::Atomic => 0x66ccbd680f655d562689ca333c5e2a42,
        Variant::Crazyhouse => 0x9d04db38ca4d923d82ff24eb9530e986,
        Variant::Horde => 0xc29dfb1076aa15186effd0d34cc60737,
        Variant::KingOfTheHill => 0xdfb25d5df41fc5961e61f6b4ba613fbe,
        Variant::RacingKings => 0x8e72f94307f96710b3910cf7e5808e0d,
        Variant::ThreeCheck => 0xd19242bae967b40e7856bd1c71aa4220,
    }
}

/// The byte that distinguishes which side's games are keyed: the ASCII
/// letter of the color, 119 for white and 98 for black.
pub open spec fn color_tag_spec(c: Color) -> u8 {
    match c {
        Color::White => 119,
        Color::Black => 98,
    }
}

/// What the cryptographic hash returns for given bytes; a function of the
/// input alone, named here and never spelled out.
pub uninterp spec fn sha1_of(data: Seq<u8>) -> Seq<u8>;

/// Relies on sha1::Sha1 (the RustCrypto SHA-1): the digest is twenty bytes
/// and depends on the input bytes alone.
#[verifier::external_body]
fn sha1_digest(data: &Vec<u8>) -> (r: Vec<u8>)
    ensures
        r@ == sha1_of(data@),
        r@.len() == 20,
{
    let mut hasher = <sha1::Sha1 as sha1::Digest>::new();
    sha1::Digest::update(&mut hasher, data.as_slice());
    sha1::Digest::finalize(hasher).to_vec()
}

/// The salted message whose hash keys a (player, color) pair.
pub open spec fn pov_message(user: UserId, color: Color) -> Seq<u8> {
    seq![color_tag_spec(color)] + user.bytes@
}

/// The base value a (player, color) pair hashes to.
pub open spec fn pov_base(user: UserId, color: Color) -> nat {
    le_val(sha1_of(pov_message(user, color)).take(16))
}

/// The identity half of a lookup key: the salted hash of one (player, color)
/// point of view.
#[derive(Clone, Copy, Debug, PartialEq, Eq, Structural)]
pub struct PersonalKeyBuilder {
    pub base: u128,
}

/// A full 128-bit key prefix for one (player, color, variant, position).
#[derive(Clone, Copy, Debug, PartialEq, Eq, Structural)]
pub struct PersonalKeyPrefix {
    pub prefix: u128,
}

/// A reporting year, encoded as one raw byte.
#[derive(Clone, Copy, Debug, PartialEq, Eq, Structural)]
pub struct AnnoLichess(pub u8);

impl PersonalKeyBuilder {
    /// The identity hash of one point of view: the first sixteen bytes of
    /// the digest of (color tag, then identity bytes), read little-endian.
    pub fn with_user_pov(user: &UserId, color: Color) -> (r: PersonalKeyBuilder)
        ensures
            r.base as nat == pov_base(*user, color),
    {
        let mut data: Vec<u8> = Vec::new();
        data.push(
            match color {
                Color::White => 119,
                Color::Black => 98,
            },
        );
        data.extend_from_slice(user.bytes.as_slice());
        proof {
            assert(data@ =~= pov_message(*user, color));
        }
        let digest = sha1_digest(&data);
        let mut pos: usize = 0;
        let base: u128 = match read_le(digest.as_slice(), &mut pos, 16) {
            Ok(v) => v,
            Err(_) => {
                proof {
                    assert(false);
                }
                0
            },
        };
        proof {
            assert(digest@.subrange(0, 16) =~= sha1_of(pov_message(*user, color)).take(16));
        }
        PersonalKeyBuilder { base }
    }

    /// Folds the position hash and the variant salt into the base by
    /// exclusive or. Purely deterministic; no failure mode.
    pub fn with_zobrist(&self, variant: Variant, zobrist: u128) -> (r: PersonalKeyPrefix)
        ensures
            r.prefix == self.base ^ zobrist ^ variant_salt_spec(variant),
    {
        PersonalKeyPrefix { prefix: self.base ^ zobrist ^ variant_salt(variant) }
    }
}

impl PersonalKeyPrefix {
    /// The sixteen-byte little-endian form of the prefix, for range scans
    /// across all years.
    pub fn prefix(&self) -> (r: Vec<u8>)
        ensures
            r@ == le_enc(self.prefix as nat, 16),
    {
        let mut out: Vec<u8> = Vec::new();
        write_le(&mut out, self.prefix, 16);
        proof {
            assert(out@ =~= le_enc(self.prefix as nat, 16));
        }
        out
    }

    /// The seventeen-byte lookup key: the prefix extended with the year byte.
    pub fn with_year(&self, year: AnnoLichess) -> (r: Vec<u8>)
        ensures
            r@ == le_enc(self.prefix as nat, 16).push(year.0),
    {
        let mut out: Vec<u8> = Vec::new();
        write_le(&mut out, self.prefix, 16);
        out.push(year.0);
        proof {
            assert(out@ =~= le_enc(self.prefix as nat, 16).push(year.0));
        }
        out
    }
}

/// The eight variant salts are pairwise distinct (and only the base
/// variant's is zero), so with the other inputs fixed, two variants never
/// share a key prefix.
pub proof fn lemma_variant_salts_distinct(v1: Variant, v2: Variant)
    requires
        v1 != v2,
    ensures
        variant_salt_spec(v1) != variant_salt_spec(v2),
        variant_salt_spec(v1) != 0 || v1 == Variant::Chess,
{
}

/// The key prefix reacts to each folded component: with the others fixed, a
/// different position hash, or a different variant salt, gives a different
/// prefix.
pub proof fn lemma_prefix_sensitivity(base: u128, z1: u128, z2: u128, s1: u128, s2: u128)
    ensures
        z1 != z2 ==> base ^ z1 ^ s1 != base ^ z2 ^ s1,
        s1 != s2 ==> base ^ z1 ^ s1 != base ^ z1 ^ s2,
{
    assert((z1 != z2 ==> base ^ z1 ^ s1 != base ^ z2 ^ s1) && (s1 != s2 ==> base ^ z1 ^ s1 != base
        ^ z1 ^ s2)) by (bit_vector);
}

} // verus!
