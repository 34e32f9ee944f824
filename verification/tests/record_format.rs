use opening_stats::codec::{read_uint, write_uint, FormatError};
use opening_stats::game::{Color, GameId, Outcome, UserId};
use opening_stats::header::Header;
use opening_stats::key::{AnnoLichess, PersonalKeyBuilder, Variant};
use opening_stats::mode::Mode;
use opening_stats::personal::{Group, PersonalEntry};
use opening_stats::speed::Speed;
use opening_stats::stats::Stats;
use opening_stats::uci::UciMove;

fn e2e4() -> UciMove {
    UciMove::Normal { from: 12, to: 28, promotion: None }
}

fn single_entry_bytes(m: UciMove, speed: Speed, mode: Mode, id: u64, outcome: Outcome) -> Vec<u8> {
    let entry = PersonalEntry::new_single(m, speed, mode, GameId(id), outcome);
    let mut out = Vec::new();
    entry.write(&mut out);
    out
}

#[test]
fn test_header_roundtrip() {
    let headers = [
        Header::Group { mode: Mode::Rated, speed: Speed::Correspondence, num_games: 15 },
        Header::End,
    ];

    let mut writer: Vec<u8> = Vec::new();
    for header in &headers {
        header.write(&mut writer);
    }

    let mut pos: usize = 0;
    for header in headers {
        assert_eq!(Header::read(writer.as_slice(), &mut pos).unwrap(), header);
    }
}

#[test]
fn header_roundtrip_all_combinations() {
    for speed in [
        Speed::UltraBullet,
        Speed::Bullet,
        Speed::Blitz,
        Speed::Rapid,
        Speed::Classical,
        Speed::Correspondence,
    ] {
        for mode in [Mode::Rated, Mode::Casual] {
            for num_games in 0..16usize {
                let h = Header::Group { speed, mode, num_games };
                let mut out: Vec<u8> = Vec::new();
                h.write(&mut out);
                let mut pos: usize = 0;
                assert_eq!(Header::read(out.as_slice(), &mut pos).unwrap(), h);
                assert_eq!(pos, 1);
            }
        }
    }
}

#[test]
fn header_reserved_speed_is_invalid() {
    // any byte whose three low bits are 7 names no speed class
    let buf = [0x07u8];
    let mut pos: usize = 0;
    assert_eq!(Header::read(&buf, &mut pos), Err(FormatError::Invalid));
    let buf = [0xffu8];
    let mut pos: usize = 0;
    assert_eq!(Header::read(&buf, &mut pos), Err(FormatError::Invalid));
}

#[test]
fn header_truncated_stream() {
    let buf: [u8; 0] = [];
    let mut pos: usize = 0;
    assert_eq!(Header::read(&buf, &mut pos), Err(FormatError::Truncated));
}

#[test]
fn uint_codec_roundtrip_and_errors() {
    for v in [0u64, 1, 127, 128, 300, 16384, u64::MAX - 1, u64::MAX] {
        let mut out: Vec<u8> = Vec::new();
        write_uint(&mut out, v);
        let mut pos: usize = 0;
        assert_eq!(read_uint(out.as_slice(), &mut pos), Ok(v));
        assert_eq!(pos, out.len());
    }
    // truncated: a continuation byte with nothing after it
    let mut pos: usize = 0;
    assert_eq!(read_uint(&[0x80], &mut pos), Err(FormatError::Truncated));
    // non-canonical: a trailing zero group
    let mut pos: usize = 0;
    assert_eq!(read_uint(&[0x80, 0x00], &mut pos), Err(FormatError::Invalid));
    // single zero byte is the canonical encoding of zero
    let mut pos: usize = 0;
    assert_eq!(read_uint(&[0x00], &mut pos), Ok(0));
}

#[test]
fn stats_combine_commutes_and_associates() {
    let a = Stats { white: 3, draws: 1, black: 4 };
    let b = Stats { white: 1, draws: 5, black: 9 };
    let c = Stats { white: 2, draws: 6, black: 5 };
    let ab = a.checked_plus(&b).unwrap();
    let ba = b.checked_plus(&a).unwrap();
    assert_eq!(ab, ba);
    let ab_c = ab.checked_plus(&c).unwrap();
    let bc = b.checked_plus(&c).unwrap();
    let a_bc = a.checked_plus(&bc).unwrap();
    let ac = a.checked_plus(&c).unwrap();
    let ac_b = ac.checked_plus(&b).unwrap();
    assert_eq!(ab_c, a_bc);
    assert_eq!(ac_b, a_bc);
    // an overflowing counter is reported, not wrapped
    let big = Stats { white: u64::MAX, draws: 0, black: 0 };
    assert_eq!(big.checked_plus(&Stats { white: 1, draws: 0, black: 0 }), None);
}

#[test]
fn single_game_entry_roundtrip() {
    // building, serializing and re-reading one white win at blitz keeps
    // exactly that one fact, at ordinal zero, and nothing else
    let bytes = single_entry_bytes(
        e2e4(),
        Speed::Blitz,
        Mode::Rated,
        7,
        Outcome::Decisive { winner: Color::White },
    );
    let mut fresh = PersonalEntry::default();
    fresh.extend_from_reader(bytes.as_slice()).unwrap();
    assert_eq!(fresh.sub_entries.len(), 1);
    let (m, grid) = &fresh.sub_entries[0];
    assert_eq!(*m, e2e4());
    let group = grid.by_speed(Speed::Blitz).by_mode(Mode::Rated);
    assert_eq!(group.stats, Stats { white: 1, draws: 0, black: 0 });
    assert_eq!(group.games, vec![(0u64, GameId(7))]);
    for speed in [
        Speed::UltraBullet,
        Speed::Bullet,
        Speed::Blitz,
        Speed::Rapid,
        Speed::Classical,
        Speed::Correspondence,
    ] {
        for mode in [Mode::Rated, Mode::Casual] {
            if speed == Speed::Blitz && mode == Mode::Rated {
                continue;
            }
            let g = grid.by_speed(speed).by_mode(mode);
            assert_eq!(g.stats, Stats { white: 0, draws: 0, black: 0 });
            assert!(g.games.is_empty());
        }
    }
}

#[test]
fn reencoding_is_byte_identical() {
    // several buckets, then serialize / decode into fresh / serialize again
    let mut entry = PersonalEntry::new_single(
        e2e4(),
        Speed::Blitz,
        Mode::Rated,
        GameId(1),
        Outcome::Draw,
    );
    let more = single_entry_bytes(
        UciMove::Normal { from: 12, to: 20, promotion: None },
        Speed::Rapid,
        Mode::Casual,
        2,
        Outcome::Decisive { winner: Color::Black },
    );
    entry.extend_from_reader(more.as_slice()).unwrap();
    let mut first = Vec::new();
    entry.write(&mut first);

    let mut fresh = PersonalEntry::default();
    fresh.extend_from_reader(first.as_slice()).unwrap();
    let mut second = Vec::new();
    fresh.write(&mut second);
    assert_eq!(first, second);
}

#[test]
fn merge_preserves_counts_either_order() {
    let b1 = single_entry_bytes(
        e2e4(),
        Speed::Blitz,
        Mode::Rated,
        1,
        Outcome::Decisive { winner: Color::White },
    );
    let b2 = single_entry_bytes(e2e4(), Speed::Blitz, Mode::Rated, 2, Outcome::Draw);

    let mut one = PersonalEntry::default();
    one.extend_from_reader(b1.as_slice()).unwrap();
    one.extend_from_reader(b2.as_slice()).unwrap();
    let mut two = PersonalEntry::default();
    two.extend_from_reader(b2.as_slice()).unwrap();
    two.extend_from_reader(b1.as_slice()).unwrap();

    let s1 = one.sub_entries[0].1.by_speed(Speed::Blitz).by_mode(Mode::Rated).stats;
    let s2 = two.sub_entries[0].1.by_speed(Speed::Blitz).by_mode(Mode::Rated).stats;
    assert_eq!(s1, Stats { white: 1, draws: 1, black: 0 });
    assert_eq!(s2, s1);
}

#[test]
fn twenty_draws_keep_stats_but_only_fifteen_games() {
    // the storage engine's cycle: stored bytes plus one new game per round
    let mut stored = single_entry_bytes(e2e4(), Speed::Blitz, Mode::Rated, 0, Outcome::Draw);
    for k in 1..20u64 {
        let op = single_entry_bytes(e2e4(), Speed::Blitz, Mode::Rated, k, Outcome::Draw);
        let mut entry = PersonalEntry::default();
        entry.extend_from_reader(stored.as_slice()).unwrap();
        entry.extend_from_reader(op.as_slice()).unwrap();
        let mut out = Vec::new();
        entry.write(&mut out);
        stored = out;
    }
    let mut merged = PersonalEntry::default();
    merged.extend_from_reader(stored.as_slice()).unwrap();
    let group = merged.sub_entries[0].1.by_speed(Speed::Blitz).by_mode(Mode::Rated);
    assert_eq!(group.stats, Stats { white: 0, draws: 20, black: 0 });
    assert_eq!(group.games.len(), 15);
    // the fifteen most recent games survive, in order
    for (i, (ordinal, id)) in group.games.iter().enumerate() {
        assert_eq!(*ordinal, 5 + i as u64);
        assert_eq!(*id, GameId(5 + i as u64));
    }
}

#[test]
fn single_old_game_is_exempt_from_retention() {
    let mut entry = PersonalEntry::new_single(
        e2e4(),
        Speed::Bullet,
        Mode::Casual,
        GameId(9),
        Outcome::Draw,
    );
    // pretend many newer ordinals were observed elsewhere in the entry
    entry.next_game_idx = 1000;
    let mut out = Vec::new();
    entry.write(&mut out);
    let mut fresh = PersonalEntry::default();
    fresh.extend_from_reader(out.as_slice()).unwrap();
    let group = fresh.sub_entries[0].1.by_speed(Speed::Bullet).by_mode(Mode::Casual);
    assert_eq!(group.games.len(), 1);
    assert_eq!(group.games[0].1, GameId(9));
}

#[test]
fn stale_groups_keep_stats_and_drop_games() {
    let mut entry = PersonalEntry::new_single(
        e2e4(),
        Speed::Classical,
        Mode::Rated,
        GameId(1),
        Outcome::Draw,
    );
    // a second old game in the same bucket, then a far higher high-water mark
    {
        let grid = &mut entry.sub_entries[0].1;
        let group = grid.by_speed_mut(Speed::Classical).by_mode_mut(Mode::Rated);
        group.games.push((1, GameId(2)));
        group.stats = Stats { white: 0, draws: 2, black: 0 };
    }
    entry.next_game_idx = 1000;
    let mut out = Vec::new();
    entry.write(&mut out);
    let mut fresh = PersonalEntry::default();
    fresh.extend_from_reader(out.as_slice()).unwrap();
    let group = fresh.sub_entries[0].1.by_speed(Speed::Classical).by_mode(Mode::Rated);
    assert_eq!(group.stats, Stats { white: 0, draws: 2, black: 0 });
    assert!(group.games.is_empty());
}

#[test]
fn merge_format_errors() {
    let mut entry = PersonalEntry::default();
    // clean end of stream at a move boundary is success
    assert_eq!(entry.extend_from_reader(&[]), Ok(()));
    // one byte cannot hold a move identifier
    let mut entry = PersonalEntry::default();
    assert_eq!(entry.extend_from_reader(&[0x0c]), Err(FormatError::Truncated));
    // a move followed by nothing is truncation inside the record
    let m = e2e4();
    let mut buf: Vec<u8> = Vec::new();
    m.write(&mut buf);
    let mut entry = PersonalEntry::default();
    assert_eq!(entry.extend_from_reader(buf.as_slice()), Err(FormatError::Truncated));
    // a header with the reserved speed code is invalid
    let mut buf: Vec<u8> = Vec::new();
    m.write(&mut buf);
    buf.push(0x07);
    let mut entry = PersonalEntry::default();
    assert_eq!(entry.extend_from_reader(buf.as_slice()), Err(FormatError::Invalid));
}

#[test]
fn key_derivation_deterministic_and_sensitive() {
    let user = UserId { bytes: b"revoltingparakeet".to_vec() };
    let b1 = PersonalKeyBuilder::with_user_pov(&user, Color::White);
    let b2 = PersonalKeyBuilder::with_user_pov(&user, Color::White);
    assert_eq!(b1, b2);
    // the digest really mixes its input: color flips the whole key
    let black = PersonalKeyBuilder::with_user_pov(&user, Color::Black);
    assert_ne!(b1, black);
    let other = PersonalKeyBuilder::with_user_pov(
        &UserId { bytes: b"revoltingparakeeT".to_vec() },
        Color::White,
    );
    assert_ne!(b1, other);

    let zobrist: u128 = 0x123456789abcdef0_0fedcba987654321;
    let p1 = b1.with_zobrist(Variant::Chess, zobrist);
    assert_eq!(p1, b1.with_zobrist(Variant::Chess, zobrist));
    assert_ne!(p1, b1.with_zobrist(Variant::Chess, zobrist ^ 1));

    // the eight variant salts are pairwise distinct
    let variants = [
        Variant::Chess,
        Variant::Antichess,
        Variant::Atomic,
        Variant::Crazyhouse,
        Variant::Horde,
        Variant::KingOfTheHill,
        Variant::RacingKings,
        Variant::ThreeCheck,
    ];
    let keys: Vec<Vec<u8>> = variants
        .iter()
        .map(|v| b1.with_zobrist(*v, zobrist).prefix())
        .collect();
    for i in 0..keys.len() {
        assert_eq!(keys[i].len(), 16);
        for j in (i + 1)..keys.len() {
            assert_ne!(keys[i], keys[j]);
        }
    }

    // the year byte extends the prefix without disturbing it
    let key = p1.with_year(AnnoLichess(14));
    assert_eq!(key.len(), 17);
    assert_eq!(&key[..16], p1.prefix().as_slice());
    assert_eq!(key[16], 14);
}

#[test]
fn group_and_move_construction() {
    // a fresh group is empty; the move codec round-trips structured moves
    let g = Group::default();
    assert_eq!(g.stats, Stats { white: 0, draws: 0, black: 0 });
    assert!(g.games.is_empty());

    for m in [
        UciMove::Null,
        UciMove::Normal { from: 12, to: 28, promotion: None },
        UciMove::Normal {
            from: 52,
            to: 60,
            promotion: Some(opening_stats::uci::Role::Queen),
        },
        UciMove::Put { role: opening_stats::uci::Role::Knight, to: 33 },
    ] {
        let mut out: Vec<u8> = Vec::new();
        m.write(&mut out);
        assert_eq!(out.len(), 2);
        let mut pos: usize = 0;
        assert_eq!(UciMove::read(out.as_slice(), &mut pos), Ok(m));
    }
}
