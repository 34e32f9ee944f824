//! The personal entry: the full per-position record of one player, with its
//! serializer and its incremental merge from stored bytes.

use vstd::prelude::*;
use crate::codec::{dec_uint, le_val, read_uint, uint_enc, write_uint, FormatError};
use crate::game::{dec_game, game_enc, GameId, Outcome};
use crate::header::{dec_header, header_byte, Header, MAX_GAMES};
use crate::mode::{ByMode, Mode};
use crate::speed::{BySpeed, Speed};
use crate::stats::{dec_stats, stats_enc, stats_fits, stats_of, stats_plus, Stats};
use crate::uci::{dec_move, move_enc, UciMove};

verus! {

// ---------------------------------------------------------------------------
// Groups and their spec-level picture
// ---------------------------------------------------------------------------

/// The record of one (move, speed, mode) bucket: the full historical
/// counters, and a bounded list of (ordinal, game) samples. The counters
/// cover every game ever merged in, even ones whose sample was dropped.
#[derive(Debug)]
pub struct Group {
    pub stats: Stats,
    pub games: Vec<(u64, GameId)>,
}

/// Spec-level picture of a group.
#[verifier::ext_equal]
pub ghost struct GroupM {
    pub stats: Stats,
    pub games: Seq<(u64, GameId)>,
}

impl View for Group {
    type V = GroupM;

    open spec fn view(&self) -> GroupM {
        GroupM { stats: self.stats, games: self.games@ }
    }
}

/// The group of a bucket no game has touched.
pub open spec fn empty_group() -> GroupM {
    GroupM { stats: Stats { white: 0, draws: 0, black: 0 }, games: Seq::empty() }
}

/// A bucket is skipped on the wire exactly when nothing was ever merged in.
pub open spec fn group_is_empty(g: GroupM) -> bool {
    g.stats == (Stats { white: 0u64, draws: 0u64, black: 0u64 }) && g.games.len() == 0
}

impl Default for Group {
    /// The group of a bucket no game has touched.
    fn default() -> (r: Group)
        ensures
            r@ == empty_group(),
    {
        let r = Group { stats: Stats { white: 0, draws: 0, black: 0 }, games: Vec::new() };
        proof {
            assert(r@ =~= empty_group());
        }
        r
    }
}

/// The (speed, mode) grid of groups of one move.
pub type Grid = BySpeed<ByMode<Group>>;

/// Spec-level picture of a grid.
pub type GridM = BySpeed<ByMode<GroupM>>;

/// Spec-level picture of a grid of groups.
pub open spec fn grid_view(g: Grid) -> GridM {
    BySpeed {
        ultra_bullet: ByMode { rated: g.ultra_bullet.rated@, casual: g.ultra_bullet.casual@ },
        bullet: ByMode { rated: g.bullet.rated@, casual: g.bullet.casual@ },
        blitz: ByMode { rated: g.blitz.rated@, casual: g.blitz.casual@ },
        rapid: ByMode { rated: g.rapid.rated@, casual: g.rapid.casual@ },
        classical: ByMode { rated: g.classical.rated@, casual: g.classical.casual@ },
        correspondence: ByMode {
            rated: g.correspondence.rated@,
            casual: g.correspondence.casual@,
        },
    }
}

/// The grid with every bucket untouched.
pub open spec fn empty_grid() -> GridM {
    BySpeed {
        ultra_bullet: ByMode { rated: empty_group(), casual: empty_group() },
        bullet: ByMode { rated: empty_group(), casual: empty_group() },
        blitz: ByMode { rated: empty_group(), casual: empty_group() },
        rapid: ByMode { rated: empty_group(), casual: empty_group() },
        classical: ByMode { rated: empty_group(), casual: empty_group() },
        correspondence: ByMode { rated: empty_group(), casual: empty_group() },
    }
}

/// The bucket of a grid.
pub open spec fn grid_get(g: GridM, speed: Speed, mode: Mode) -> GroupM {
    g.get_spec(speed).get_spec(mode)
}

/// The grid with one bucket replaced.
pub open spec fn grid_with(g: GridM, speed: Speed, mode: Mode, v: GroupM) -> GridM {
    g.with_spec(speed, g.get_spec(speed).with_spec(mode, v))
}

/// A fresh grid with every bucket untouched.
fn grid_new() -> (g: Grid)
    ensures
        grid_view(g) == empty_grid(),
{
    let g = BySpeed {
        ultra_bullet: ByMode { rated: Group::default(), casual: Group::default() },
        bullet: ByMode { rated: Group::default(), casual: Group::default() },
        blitz: ByMode { rated: Group::default(), casual: Group::default() },
        rapid: ByMode { rated: Group::default(), casual: Group::default() },
        classical: ByMode { rated: Group::default(), casual: Group::default() },
        correspondence: ByMode { rated: Group::default(), casual: Group::default() },
    };
    proof {
        assert(grid_view(g) =~= empty_grid());
    }
    g
}

// ---------------------------------------------------------------------------
// The personal entry and its spec-level picture
// ---------------------------------------------------------------------------

/// The full per-position record of one player: for every move played, a
/// (speed, mode) grid of groups, in first-seen order; and one past the
/// highest game ordinal ever observed, the basis for relative-ordinal
/// decoding and for retention.
#[derive(Debug)]
pub struct PersonalEntry {
    pub sub_entries: Vec<(UciMove, Grid)>,
    pub next_game_idx: u64,
}

/// Spec-level picture of a personal entry.
#[verifier::ext_equal]
pub ghost struct EntryM {
    pub subs: Seq<(UciMove, GridM)>,
    pub next: u64,
}

impl EntryM {
    /// Every move key occurs once and is well-formed.
    pub open spec fn wf(self) -> bool {
        &&& forall|i: int, j: int|
            0 <= i < j < self.subs.len() ==> (#[trigger] self.subs[i]).0 != (
            #[trigger] self.subs[j]).0
        &&& forall|i: int| 0 <= i < self.subs.len() ==> (#[trigger] self.subs[i]).0.wf()
    }
}

impl View for PersonalEntry {
    type V = EntryM;

    open spec fn view(&self) -> EntryM {
        EntryM {
            subs: self.sub_entries@.map_values(|p: (UciMove, Grid)| (p.0, grid_view(p.1))),
            next: self.next_game_idx,
        }
    }
}

impl Default for PersonalEntry {
    /// The fresh entry a merge cycle starts from: no moves, no ordinals.
    fn default() -> (r: PersonalEntry)
        ensures
            r@.subs == Seq::<(UciMove, GridM)>::empty(),
            r@.next == 0,
            r@.wf(),
    {
        let r = PersonalEntry { sub_entries: Vec::new(), next_game_idx: 0 };
        proof {
            assert(r@.subs =~= Seq::<(UciMove, GridM)>::empty());
        }
        r
    }
}

// ---------------------------------------------------------------------------
// The wire encoding
// ---------------------------------------------------------------------------

/// The oldest ordinal that retention drops: fifteen below the highest
/// observed, saturating at zero. `next` is one past the highest observed.
pub open spec fn discard_threshold(next: u64) -> u64 {
    if next >= 16 {
        (next - 16) as u64
    } else {
        0u64
    }
}

/// The samples of `games` that survive the age filter, in order.
pub open spec fn passing(games: Seq<(u64, GameId)>, discard: u64) -> Seq<(u64, GameId)>
    decreases games.len(),
{
    if games.len() == 0 {
        Seq::empty()
    } else {
        (if games[0].0 > discard {
            seq![games[0]]
        } else {
            Seq::empty()
        }) + passing(games.skip(1), discard)
    }
}

/// At most the first `MAX_GAMES` elements.
pub open spec fn cap_games(s: Seq<(u64, GameId)>) -> Seq<(u64, GameId)> {
    if s.len() <= MAX_GAMES {
        s
    } else {
        s.take(MAX_GAMES as int)
    }
}

/// The samples a group serializes: a single sample is always kept, whatever
/// its age; otherwise the samples newer than the discard threshold, capped at
/// the header's count range.
pub open spec fn retained_games(games: Seq<(u64, GameId)>, discard: u64) -> Seq<(u64, GameId)> {
    if games.len() == 1 {
        games
    } else {
        cap_games(passing(games, discard))
    }
}

/// The wire encoding of a sample list: for each sample its ordinal then the
/// game identifier.
pub open spec fn games_enc(gs: Seq<(u64, GameId)>) -> Seq<u8>
    decreases gs.len(),
{
    if gs.len() == 0 {
        Seq::empty()
    } else {
        uint_enc(gs[0].0) + game_enc(gs[0].1) + games_enc(gs.skip(1))
    }
}

/// The wire encoding of one bucket: nothing for an untouched bucket, else a
/// header, the full counters, and the retained samples.
pub open spec fn frame_enc(speed: Speed, mode: Mode, g: GroupM, discard: u64) -> Seq<u8> {
    if group_is_empty(g) {
        Seq::empty()
    } else {
        let kept = retained_games(g.games, discard);
        seq![
            header_byte(Header::Group { speed, mode, num_games: kept.len() as usize }),
        ] + stats_enc(g.stats) + games_enc(kept)
    }
}

/// The wire encoding of a move's grid: its buckets in wire order, untouched
/// buckets skipped.
pub open spec fn grid_enc(g: GridM, discard: u64) -> Seq<u8> {
    frame_enc(Speed::UltraBullet, Mode::Rated, g.ultra_bullet.rated, discard) + frame_enc(
        Speed::UltraBullet,
        Mode::Casual,
        g.ultra_bullet.casual,
        discard,
    ) + frame_enc(Speed::Bullet, Mode::Rated, g.bullet.rated, discard) + frame_enc(
        Speed::Bullet,
        Mode::Casual,
        g.bullet.casual,
        discard,
    ) + frame_enc(Speed::Blitz, Mode::Rated, g.blitz.rated, discard) + frame_enc(
        Speed::Blitz,
        Mode::Casual,
        g.blitz.casual,
        discard,
    ) + frame_enc(Speed::Rapid, Mode::Rated, g.rapid.rated, discard) + frame_enc(
        Speed::Rapid,
        Mode::Casual,
        g.rapid.casual,
        discard,
    ) + frame_enc(Speed::Classical, Mode::Rated, g.classical.rated, discard) + frame_enc(
        Speed::Classical,
        Mode::Casual,
        g.classical.casual,
        discard,
    ) + frame_enc(Speed::Correspondence, Mode::Rated, g.correspondence.rated, discard) + frame_enc(
        Speed::Correspondence,
        Mode::Casual,
        g.correspondence.casual,
        discard,
    )
}

/// The wire encoding of the move records: for each move its identifier, its
/// grid, and the end marker.
pub open spec fn subs_enc(subs: Seq<(UciMove, GridM)>, discard: u64) -> Seq<u8>
    decreases subs.len(),
{
    if subs.len() == 0 {
        Seq::empty()
    } else {
        move_enc(subs[0].0) + grid_enc(subs[0].1, discard) + seq![0u8] + subs_enc(
            subs.skip(1),
            discard,
        )
    }
}

/// The wire encoding of a whole entry.
pub open spec fn entry_enc(e: EntryM) -> Seq<u8> {
    subs_enc(e.subs, discard_threshold(e.next))
}

// ---------------------------------------------------------------------------
// Concatenation lemmas for the encoding
// ---------------------------------------------------------------------------

proof fn lemma_games_enc_concat(s1: Seq<(u64, GameId)>, s2: Seq<(u64, GameId)>)
    ensures
        games_enc(s1 + s2) == games_enc(s1) + games_enc(s2),
    decreases s1.len(),
{
    if s1.len() == 0 {
        assert(s1 + s2 =~= s2);
        assert(games_enc(s1) + games_enc(s2) =~= games_enc(s2));
    } else {
        lemma_games_enc_concat(s1.skip(1), s2);
        assert((s1 + s2).skip(1) =~= s1.skip(1) + s2);
        assert(games_enc(s1 + s2) =~= games_enc(s1) + games_enc(s2));
    }
}

proof fn lemma_passing_snoc(s: Seq<(u64, GameId)>, x: (u64, GameId), discard: u64)
    ensures
        passing(s.push(x), discard) == passing(s, discard) + (if x.0 > discard {
            seq![x]
        } else {
            Seq::<(u64, GameId)>::empty()
        }),
    decreases s.len(),
{
    let tail = if x.0 > discard {
        seq![x]
    } else {
        Seq::<(u64, GameId)>::empty()
    };
    if s.len() == 0 {
        let sp = s.push(x);
        assert(sp[0] == x);
        assert(sp.skip(1) =~= Seq::<(u64, GameId)>::empty());
        assert(passing(sp.skip(1), discard) == Seq::<(u64, GameId)>::empty());
        assert(passing(sp, discard) == tail + passing(sp.skip(1), discard));
        assert(passing(s, discard) == Seq::<(u64, GameId)>::empty());
        assert(tail + Seq::<(u64, GameId)>::empty() =~= Seq::<(u64, GameId)>::empty() + tail);
        assert(passing(s.push(x), discard) =~= passing(s, discard) + tail);
    } else {
        lemma_passing_snoc(s.skip(1), x, discard);
        let sp = s.push(x);
        let h = if s[0].0 > discard {
            seq![s[0]]
        } else {
            Seq::<(u64, GameId)>::empty()
        };
        assert(sp.skip(1) =~= s.skip(1).push(x));
        assert(sp[0] == s[0]);
        assert(passing(sp, discard) == h + passing(sp.skip(1), discard));
        assert(passing(s, discard) == h + passing(s.skip(1), discard));
        assert(h + (passing(s.skip(1), discard) + tail) =~= (h + passing(s.skip(1), discard))
            + tail);
    }
}

// ---------------------------------------------------------------------------
// The serializer
// ---------------------------------------------------------------------------

/// Appends the wire encoding of a sample list.
fn write_games(out: &mut Vec<u8>, games: &Vec<(u64, GameId)>)
    ensures
        final(out)@ == old(out)@ + games_enc(games@),
{
    let n = games.len();
    let mut i: usize = 0;
    while i < n
        invariant
            i <= n,
            n == games@.len(),
            out@ == old(out)@ + games_enc(games@.take(i as int)),
        decreases n - i,
    {
        let (idx, g): (u64, GameId) = games[i];
        write_uint(out, idx);
        g.write(out);
        proof {
            let pre = games@.take(i as int);
            let one = seq![games@[i as int]];
            lemma_games_enc_concat(pre, one);
            assert(pre + one =~= games@.take(i + 1));
            assert(one.skip(1) =~= Seq::<(u64, GameId)>::empty());
            assert(games_enc(one.skip(1)) == Seq::<u8>::empty());
            assert(one[0] == (idx, g));
            assert(games_enc(one) =~= uint_enc(idx) + game_enc(g));
            assert(out@ =~= old(out)@ + games_enc(games@.take(i + 1)));
        }
        i = i + 1;
    }
    proof {
        assert(games@.take(n as int) =~= games@);
    }
}

/// Appends the wire frame of one bucket: nothing if the bucket is untouched,
/// else its header, counters and retained samples.
#[verifier::rlimit(100)]
fn write_bucket(out: &mut Vec<u8>, speed: Speed, mode: Mode, group: &Group, discard: u64)
    ensures
        final(out)@ == old(out)@ + frame_enc(speed, mode, group@, discard),
{
    if group.games.len() == 0 && group.stats.white == 0 && group.stats.draws == 0
        && group.stats.black == 0 {
        proof {
            assert(group_is_empty(group@));
            assert(out@ =~= old(out)@ + frame_enc(speed, mode, group@, discard));
        }
        return ;
    }
    let n = group.games.len();
    let mut kept: Vec<(u64, GameId)> = Vec::new();
    if n == 1 {
        kept.push(group.games[0]);
        proof {
            assert(kept@ =~= retained_games(group@.games, discard));
        }
    } else {
        let mut i: usize = 0;
        while i < n
            invariant
                i <= n,
                n == group.games@.len(),
                n != 1,
                kept@ == cap_games(passing(group.games@.take(i as int), discard)),
                kept@.len() <= MAX_GAMES,
            decreases n - i,
        {
            let (idx, g): (u64, GameId) = group.games[i];
            proof {
                lemma_passing_snoc(group.games@.take(i as int), group.games@[i as int], discard);
                assert(group.games@.take(i as int).push(group.games@[i as int]) =~= group.games@
                    .take(i + 1));
            }
            if idx > discard && kept.len() < 15 {
                kept.push((idx, g));
            }
            proof {
                let p0 = passing(group.games@.take(i as int), discard);
                let p1 = passing(group.games@.take(i + 1), discard);
                if group.games@[i as int].0 > discard {
                    assert(p1 =~= p0 + seq![group.games@[i as int]]);
                    if p0.len() < MAX_GAMES {
                        assert(cap_games(p1) =~= cap_games(p0).push(group.games@[i as int]));
                    } else {
                        assert(p1.take(MAX_GAMES as int) =~= cap_games(p0));
                    }
                } else {
                    assert(p1 =~= p0);
                }
                assert(kept@ == cap_games(p1));
            }
            i = i + 1;
        }
        proof {
            assert(group.games@.take(n as int) =~= group.games@);
        }
    }
    let num_games = kept.len();
    let header = Header::Group { speed, mode, num_games };
    header.write(out);
    group.stats.write(out);
    write_games(out, &kept);
    proof {
        assert(kept@ == retained_games(group@.games, discard));
        assert(out@ =~= old(out)@ + frame_enc(speed, mode, group@, discard));
    }
}

/// Appends the wire encoding of a move's grid, buckets in wire order.
#[verifier::rlimit(100)]
fn write_grid(out: &mut Vec<u8>, grid: &Grid, discard: u64)
    ensures
        final(out)@ == old(out)@ + grid_enc(grid_view(*grid), discard),
{
    let ghost gm = grid_view(*grid);
    let ghost o0 = out@;
    write_bucket(out, Speed::UltraBullet, Mode::Rated, &grid.ultra_bullet.rated, discard);
    let ghost e1 = frame_enc(Speed::UltraBullet, Mode::Rated, gm.ultra_bullet.rated, discard);
    proof {
        assert(out@ =~= o0 + e1);
    }
    write_bucket(out, Speed::UltraBullet, Mode::Casual, &grid.ultra_bullet.casual, discard);
    let ghost e2 = e1 + frame_enc(Speed::UltraBullet, Mode::Casual, gm.ultra_bullet.casual, discard);
    proof {
        assert(out@ =~= o0 + e2);
    }
    write_bucket(out, Speed::Bullet, Mode::Rated, &grid.bullet.rated, discard);
    let ghost e3 = e2 + frame_enc(Speed::Bullet, Mode::Rated, gm.bullet.rated, discard);
    proof {
        assert(out@ =~= o0 + e3);
    }
    write_bucket(out, Speed::Bullet, Mode::Casual, &grid.bullet.casual, discard);
    let ghost e4 = e3 + frame_enc(Speed::Bullet, Mode::Casual, gm.bullet.casual, discard);
    proof {
        assert(out@ =~= o0 + e4);
    }
    write_bucket(out, Speed::Blitz, Mode::Rated, &grid.blitz.rated, discard);
    let ghost e5 = e4 + frame_enc(Speed::Blitz, Mode::Rated, gm.blitz.rated, discard);
    proof {
        assert(out@ =~= o0 + e5);
    }
    write_bucket(out, Speed::Blitz, Mode::Casual, &grid.blitz.casual, discard);
    let ghost e6 = e5 + frame_enc(Speed::Blitz, Mode::Casual, gm.blitz.casual, discard);
    proof {
        assert(out@ =~= o0 + e6);
    }
    write_bucket(out, Speed::Rapid, Mode::Rated, &grid.rapid.rated, discard);
    let ghost e7 = e6 + frame_enc(Speed::Rapid, Mode::Rated, gm.rapid.rated, discard);
    proof {
        assert(out@ =~= o0 + e7);
    }
    write_bucket(out, Speed::Rapid, Mode::Casual, &grid.rapid.casual, discard);
    let ghost e8 = e7 + frame_enc(Speed::Rapid, Mode::Casual, gm.rapid.casual, discard);
    proof {
        assert(out@ =~= o0 + e8);
    }
    write_bucket(out, Speed::Classical, Mode::Rated, &grid.classical.rated, discard);
    let ghost e9 = e8 + frame_enc(Speed::Classical, Mode::Rated, gm.classical.rated, discard);
    proof {
        assert(out@ =~= o0 + e9);
    }
    write_bucket(out, Speed::Classical, Mode::Casual, &grid.classical.casual, discard);
    let ghost e10 = e9 + frame_enc(Speed::Classical, Mode::Casual, gm.classical.casual, discard);
    proof {
        assert(out@ =~= o0 + e10);
    }
    write_bucket(out, Speed::Correspondence, Mode::Rated, &grid.correspondence.rated, discard);
    let ghost e11 = e10 + frame_enc(Speed::Correspondence, Mode::Rated, gm.correspondence.rated, discard);
    proof {
        assert(out@ =~= o0 + e11);
    }
    write_bucket(out, Speed::Correspondence, Mode::Casual, &grid.correspondence.casual, discard);
    let ghost e12 = e11 + frame_enc(Speed::Correspondence, Mode::Casual, gm.correspondence.casual, discard);
    proof {
        assert(out@ =~= o0 + e12);
        assert(e12 == grid_enc(gm, discard));
    }
}

impl PersonalEntry {
    /// Serializes the whole entry: for each move, its identifier, the
    /// non-empty buckets of its grid, and the end marker. Retention applies
    /// only here: counters are written in full, samples filtered by age with
    /// the single-sample exemption.
    #[verifier::rlimit(100)]
    pub fn write(&self, out: &mut Vec<u8>)
        requires
            self@.wf(),
        ensures
            final(out)@ == old(out)@ + entry_enc(self@),
    {
        let discard: u64 = if self.next_game_idx >= 16 {
            self.next_game_idx - 16
        } else {
            0
        };
        proof {
            assert(discard == discard_threshold(self@.next));
        }
        let n = self.sub_entries.len();
        let mut i: usize = 0;
        while i < n
            invariant
                i <= n,
                n == self.sub_entries@.len(),
                self@.wf(),
                discard == discard_threshold(self@.next),
                out@ == old(out)@ + subs_enc(self@.subs.take(i as int), discard),
            decreases n - i,
        {
            let pair: &(UciMove, Grid) = &self.sub_entries[i];
            proof {
                assert(self@.subs[i as int] == (pair.0, grid_view(pair.1)));
                assert(self@.subs[i as int].0.wf());
            }
            pair.0.write(out);
            write_grid(out, &pair.1, discard);
            out.push(0u8);
            proof {
                lemma_subs_enc_concat(
                    self@.subs.take(i as int),
                    seq![self@.subs[i as int]],
                    discard,
                );
                assert(self@.subs.take(i as int) + seq![self@.subs[i as int]] =~= self@.subs.take(
                    i + 1,
                ));
                let one = seq![self@.subs[i as int]];
                assert(one[0] == self@.subs[i as int]);
                assert(one.skip(1) =~= Seq::<(UciMove, GridM)>::empty());
                assert(subs_enc(one.skip(1), discard) == Seq::<u8>::empty());
                assert(subs_enc(one, discard) == move_enc(one[0].0) + grid_enc(one[0].1, discard)
                    + seq![0u8] + subs_enc(one.skip(1), discard));
                assert(subs_enc(one, discard) =~= move_enc(pair.0) + grid_enc(
                    grid_view(pair.1),
                    discard,
                ) + seq![0u8]);
                assert(out@ =~= old(out)@ + subs_enc(self@.subs.take(i + 1), discard));
            }
            i = i + 1;
        }
        proof {
            assert(self@.subs.take(n as int) =~= self@.subs);
        }
    }

    /// The entry recording exactly one brand-new game: one move, one bucket,
    /// one sample at ordinal zero.
    pub fn new_single(uci: UciMove, speed: Speed, mode: Mode, game_id: GameId, outcome: Outcome) -> (r:
        PersonalEntry)
        requires
            uci.wf(),
        ensures
            r@.wf(),
            r@.next == 1,
            r@.subs.len() == 1,
            r@.subs[0].0 == uci,
            grid_get(r@.subs[0].1, speed, mode) == (GroupM {
                stats: stats_of(outcome),
                games: seq![(0u64, game_id)],
            }),
            forall|s2: Speed, m2: Mode|
                !(s2 == speed && m2 == mode) ==> grid_get(r@.subs[0].1, s2, m2) == empty_group(),
    {
        let mut grid = grid_new();
        let mut games: Vec<(u64, GameId)> = Vec::new();
        games.push((0, game_id));
        let group = Group { stats: Stats::from_outcome(outcome), games };
        let by_mode = grid.by_speed_mut(speed);
        let bucket = by_mode.by_mode_mut(mode);
        *bucket = group;
        proof {
            assert(grid_view(grid) =~= grid_with(
                empty_grid(),
                speed,
                mode,
                GroupM { stats: stats_of(outcome), games: seq![(0u64, game_id)] },
            ));
        }
        let mut sub_entries: Vec<(UciMove, Grid)> = Vec::new();
        sub_entries.push((uci, grid));
        let r = PersonalEntry { sub_entries, next_game_idx: 1 };
        proof {
            assert(r@.subs =~= seq![(uci, grid_view(grid))]);
            assert forall|s2: Speed, m2: Mode| !(s2 == speed && m2 == mode) implies grid_get(
                r@.subs[0].1,
                s2,
                m2,
            ) == empty_group() by {
                assert(grid_get(grid_view(grid), s2, m2) == empty_group());
            }
        }
        r
    }
}

#[verifier::rlimit(100)]
proof fn lemma_subs_enc_concat(s1: Seq<(UciMove, GridM)>, s2: Seq<(UciMove, GridM)>, discard: u64)
    ensures
        subs_enc(s1 + s2, discard) == subs_enc(s1, discard) + subs_enc(s2, discard),
    decreases s1.len(),
{
    if s1.len() == 0 {
        assert(s1 + s2 =~= s2);
        assert(subs_enc(s1, discard) + subs_enc(s2, discard) =~= subs_enc(s2, discard));
    } else {
        lemma_subs_enc_concat(s1.skip(1), s2, discard);
        assert((s1 + s2).skip(1) =~= s1.skip(1) + s2);
        assert(subs_enc(s1 + s2, discard) =~= subs_enc(s1, discard) + subs_enc(s2, discard));
    }
}


// ---------------------------------------------------------------------------
// The wire decoding: merge-from-bytes
// ---------------------------------------------------------------------------

/// Two bucket records combined: counters summed, samples concatenated in
/// order, duplicates kept.
pub open spec fn group_plus(a: GroupM, b: GroupM) -> GroupM {
    GroupM { stats: stats_plus(a.stats, b.stats), games: a.games + b.games }
}

/// The position of a move among the entry's records, or -1 if absent.
pub open spec fn find_move(subs: Seq<(UciMove, GridM)>, m: UciMove) -> int
    decreases subs.len(),
{
    if subs.len() == 0 {
        -1
    } else if subs[0].0 == m {
        0
    } else {
        let r = find_move(subs.skip(1), m);
        if r == -1 {
            -1
        } else {
            r + 1
        }
    }
}

proof fn lemma_find_move_properties(subs: Seq<(UciMove, GridM)>, m: UciMove)
    ensures
        find_move(subs, m) == -1 ==> forall|k: int|
            0 <= k < subs.len() ==> (#[trigger] subs[k]).0 != m,
        find_move(subs, m) != -1 ==> 0 <= find_move(subs, m) < subs.len() && subs[find_move(
            subs,
            m,
        )].0 == m && forall|k: int| 0 <= k < find_move(subs, m) ==> (#[trigger] subs[k]).0 != m,
    decreases subs.len(),
{
    if subs.len() > 0 && subs[0].0 != m {
        lemma_find_move_properties(subs.skip(1), m);
        let tail = subs.skip(1);
        assert(forall|k: int| 0 <= k < tail.len() ==> #[trigger] tail[k] == subs[k + 1]);
        let r = find_move(tail, m);
        if r == -1 {
            assert forall|k: int| 0 <= k < subs.len() implies (#[trigger] subs[k]).0 != m by {
                if k > 0 {
                    assert(tail[k - 1].0 != m);
                }
            }
        } else {
            assert(subs[r + 1].0 == m);
            assert forall|k: int| 0 <= k < r + 1 implies (#[trigger] subs[k]).0 != m by {
                if k > 0 {
                    assert(tail[k - 1].0 != m);
                }
            }
        }
    }
}

/// A decoded move identifier is always well-formed: its squares come from
/// six-bit fields.
proof fn lemma_dec_move_wf(s: Seq<u8>, i: int)
    ensures
        dec_move(s, i) matches Ok(r) ==> r.0.wf(),
{
    if 0 <= i && i + 2 <= s.len() {
        let n = le_val(s.subrange(i, i + 2)) as int;
        assert(n % 64 < 64 && (n / 64) % 64 < 64);
    }
}

/// What reading `n` (relative ordinal, game) pairs yields at position `i`:
/// the absolute samples in order, the raised high-water mark, and the
/// position after them. A relative ordinal is lifted by `base`; one that
/// leaves the counter range is invalid.
pub open spec fn dec_games(s: Seq<u8>, i: int, n: int, base: u64, next: u64) -> Result<
    (Seq<(u64, GameId)>, u64, int),
    FormatError,
>
    decreases n,
{
    if n <= 0 {
        Ok((Seq::empty(), next, i))
    } else {
        match dec_uint(s, i) {
            Err(e) => Err(e),
            Ok((rel, j)) => if base + rel >= u64::MAX {
                Err(FormatError::Invalid)
            } else {
                let idx = (base + rel) as u64;
                match dec_game(s, j) {
                    Err(e) => Err(e),
                    Ok((g, j2)) => {
                        let next2 = if idx + 1 > next {
                            (idx + 1) as u64
                        } else {
                            next
                        };
                        match dec_games(s, j2, n - 1, base, next2) {
                            Err(e) => Err(e),
                            Ok((rest, next3, j3)) => Ok((seq![(idx, g)] + rest, next3, j3)),
                        }
                    },
                }
            },
        }
    }
}

/// Folds the frames of one move into its grid until the end marker: each
/// frame's counters are summed into its bucket (an overflowing counter is
/// invalid) and its samples appended.
pub open spec fn dec_frames(s: Seq<u8>, i: int, g: GridM, base: u64, next: u64) -> Result<
    (GridM, u64, int),
    FormatError,
>
    decreases s.len() - i,
{
    match dec_header(s, i) {
        Err(e) => Err(e),
        Ok((h, j)) => match h {
            Header::End => Ok((g, next, j)),
            Header::Group { speed, mode, num_games } => match dec_stats(s, j) {
                Err(e) => Err(e),
                Ok((st, j2)) => match dec_games(s, j2, num_games as int, base, next) {
                    Err(e) => Err(e),
                    Ok((games, next2, j3)) => {
                        let bucket = grid_get(g, speed, mode);
                        if !stats_fits(bucket.stats, st) {
                            Err(FormatError::Invalid)
                        } else {
                            let g2 = grid_with(
                                g,
                                speed,
                                mode,
                                group_plus(bucket, GroupM { stats: st, games }),
                            );
                            if i < j3 <= s.len() {
                                dec_frames(s, j3, g2, base, next2)
                            } else {
                                Err(FormatError::Invalid)
                            }
                        }
                    },
                },
            },
        },
    }
}

/// Folds every move record of a stored byte stream into the entry. A clean
/// end of stream at a move boundary completes the merge. Relative ordinals
/// are lifted by `base`, the entry's high-water mark before the merge began,
/// the same for every record of the stream.
pub open spec fn dec_moves(s: Seq<u8>, i: int, e: EntryM, base: u64) -> Result<
    EntryM,
    FormatError,
>
    decreases s.len() - i,
{
    if i >= s.len() {
        Ok(e)
    } else {
        match dec_move(s, i) {
            Err(e2) => Err(e2),
            Ok((m, j)) => {
                let k = find_move(e.subs, m);
                let g0 = if k == -1 {
                    empty_grid()
                } else {
                    e.subs[k].1
                };
                match dec_frames(s, j, g0, base, e.next) {
                    Err(e2) => Err(e2),
                    Ok((g1, next2, j2)) => {
                        let subs2 = if k == -1 {
                            e.subs.push((m, g1))
                        } else {
                            e.subs.update(k, (m, g1))
                        };
                        if i < j2 <= s.len() {
                            dec_moves(s, j2, EntryM { subs: subs2, next: next2 }, base)
                        } else {
                            Err(FormatError::Invalid)
                        }
                    },
                }
            },
        }
    }
}

/// Reads `n` (relative ordinal, game) pairs into `games`, raising the
/// high-water mark; result, cursor and mark are exactly what `dec_games`
/// says of the bytes.
fn read_games(
    buf: &[u8],
    pos: &mut usize,
    n: usize,
    base: u64,
    next: &mut u64,
    games: &mut Vec<(u64, GameId)>,
) -> (r: Result<(), FormatError>)
    requires
        *old(pos) <= buf@.len(),
        old(games)@.len() == 0,
    ensures
        match r {
            Ok(()) => *old(pos) <= *final(pos) <= buf@.len() && dec_games(
                buf@,
                *old(pos) as int,
                n as int,
                base,
                *old(next),
            ) == Ok::<(Seq<(u64, GameId)>, u64, int), FormatError>(
                (final(games)@, *final(next), *final(pos) as int),
            ),
            Err(e) => dec_games(buf@, *old(pos) as int, n as int, base, *old(next)) == Err::<
                (Seq<(u64, GameId)>, u64, int),
                FormatError,
            >(e),
        },
{
    let mut cnt: usize = 0;
    while cnt < n
        invariant
            cnt <= n,
            *old(pos) <= *pos <= buf@.len(),
            dec_games(buf@, *old(pos) as int, n as int, base, *old(next)) == (
            match dec_games(buf@, *pos as int, (n - cnt) as int, base, *next) {
                Ok(t) => Ok::<(Seq<(u64, GameId)>, u64, int), FormatError>(
                    (games@ + t.0, t.1, t.2),
                ),
                Err(e) => Err(e),
            }),
        decreases n - cnt,
    {
        let ghost p0 = *pos as int;
        let ghost next0 = *next;
        let ghost games0 = games@;
        let rel = match read_uint(buf, pos) {
            Ok(v) => v,
            Err(e) => {
                return Err(e);
            },
        };
        proof {
            crate::codec::lemma_dec_uint_advance(buf@, p0);
        }
        if (base as u128) + (rel as u128) >= 0xFFFF_FFFF_FFFF_FFFFu128 {
            return Err(FormatError::Invalid);
        }
        let idx: u64 = base + rel;
        let g = match GameId::read(buf, pos) {
            Ok(v) => v,
            Err(e) => {
                return Err(e);
            },
        };
        if idx + 1 > *next {
            *next = idx + 1;
        }
        games.push((idx, g));
        proof {
            match dec_games(buf@, *pos as int, (n - cnt - 1) as int, base, *next) {
                Ok(t) => {
                    assert(games0 + (seq![(idx, g)] + t.0) =~= games0.push((idx, g)) + t.0);
                },
                Err(_) => {},
            }
        }
        cnt = cnt + 1;
    }
    proof {
        assert(dec_games(buf@, *pos as int, 0, base, *next) == Ok::<
            (Seq<(u64, GameId)>, u64, int),
            FormatError,
        >((Seq::empty(), *next, *pos as int)));
        assert(games@ + Seq::<(u64, GameId)>::empty() =~= games@);
    }
    Ok(())
}

/// Reads the frames of one move until the end marker, folding each into the
/// grid; grid, mark and cursor end exactly as `dec_frames` says of the bytes.
#[verifier::rlimit(100)]
fn read_frames(buf: &[u8], pos: &mut usize, grid: &mut Grid, base: u64, next: &mut u64) -> (r:
    Result<(), FormatError>)
    requires
        *old(pos) <= buf@.len(),
    ensures
        match r {
            Ok(()) => *old(pos) < *final(pos) <= buf@.len() && dec_frames(
                buf@,
                *old(pos) as int,
                grid_view(*old(grid)),
                base,
                *old(next),
            ) == Ok::<(GridM, u64, int), FormatError>(
                (grid_view(*final(grid)), *final(next), *final(pos) as int),
            ),
            Err(e) => dec_frames(buf@, *old(pos) as int, grid_view(*old(grid)), base, *old(next))
                == Err::<(GridM, u64, int), FormatError>(e),
        },
{
    loop
        invariant
            *old(pos) <= *pos <= buf@.len(),
            dec_frames(buf@, *old(pos) as int, grid_view(*old(grid)), base, *old(next))
                == dec_frames(buf@, *pos as int, grid_view(*grid), base, *next),
        decreases buf@.len() - *pos,
    {
        let ghost fstart = *pos as int;
        let ghost gv0 = grid_view(*grid);
        let ghost next0 = *next;
        let h = match Header::read(buf, pos) {
            Ok(h) => h,
            Err(e) => {
                return Err(e);
            },
        };
        match h {
            Header::End => {
                return Ok(());
            },
            Header::Group { speed, mode, num_games } => {
                let st = match Stats::read(buf, pos) {
                    Ok(v) => v,
                    Err(e) => {
                        return Err(e);
                    },
                };
                proof {
                    crate::stats::lemma_dec_stats_advance(buf@, fstart + 1);
                }
                let mut games: Vec<(u64, GameId)> = Vec::new();
                match read_games(buf, pos, num_games, base, next, &mut games) {
                    Ok(()) => {},
                    Err(e) => {
                        return Err(e);
                    },
                }
                let ghost gseq = games@;
                proof {
                    assert(grid_get(gv0, speed, mode) == grid.get_spec(speed).get_spec(mode)@);
                }
                let by_mode_ref = grid.by_speed_mut(speed);
                let bucket = by_mode_ref.by_mode_mut(mode);
                let summed = match bucket.stats.checked_plus(&st) {
                    Some(x) => x,
                    None => {
                        return Err(FormatError::Invalid);
                    },
                };
                bucket.stats = summed;
                bucket.games.append(&mut games);
                proof {
                    let merged = group_plus(
                        grid_get(gv0, speed, mode),
                        GroupM { stats: st, games: gseq },
                    );
                    assert(grid_view(*grid) =~~= grid_with(gv0, speed, mode, merged));
                }
            },
        }
    }
}

impl PersonalEntry {
    /// Folds a stored record into this entry in one forward pass, creating
    /// absent moves, summing counters and appending samples. On success the
    /// entry is exactly what `dec_moves` says of the bytes; on a format
    /// error it is partially updated and must be discarded.
    #[verifier::rlimit(100)]
    pub fn extend_from_reader(&mut self, buf: &[u8]) -> (r: Result<(), FormatError>)
        requires
            old(self)@.wf(),
        ensures
            match r {
                Ok(()) => dec_moves(buf@, 0, old(self)@, old(self)@.next) == Ok::<
                    EntryM,
                    FormatError,
                >(final(self)@) && final(self)@.wf(),
                Err(e) => dec_moves(buf@, 0, old(self)@, old(self)@.next) == Err::<
                    EntryM,
                    FormatError,
                >(e),
            },
    {
        let mut pos: usize = 0;
        let base = self.next_game_idx;
        loop
            invariant
                pos <= buf@.len(),
                self@.wf(),
                base == old(self)@.next,
                dec_moves(buf@, 0, old(self)@, base) == dec_moves(buf@, pos as int, self@, base),
            decreases buf@.len() - pos,
        {
            if pos >= buf.len() {
                return Ok(());
            }
            let ghost i0 = pos as int;
            let ghost e0 = self@;
            let m = match UciMove::read(buf, &mut pos) {
                Ok(m) => m,
                Err(e) => {
                    return Err(e);
                },
            };
            proof {
                lemma_dec_move_wf(buf@, i0);
            }
            let n_subs = self.sub_entries.len();
            let mut k: usize = 0;
            while k < n_subs && self.sub_entries[k].0 != m
                invariant
                    k <= n_subs,
                    n_subs == self.sub_entries@.len(),
                    forall|j: int| 0 <= j < k ==> (#[trigger] self.sub_entries@[j]).0 != m,
                    self@ == e0,
                decreases n_subs - k,
            {
                k = k + 1;
            }
            let found = k < n_subs;
            proof {
                lemma_find_move_properties(e0.subs, m);
                assert(forall|j: int|
                    0 <= j < e0.subs.len() ==> (#[trigger] e0.subs[j]).0 == self.sub_entries@[j].0);
                if found {
                    assert(e0.subs[k as int].0 == m);
                    let fm = find_move(e0.subs, m);
                    assert(fm != -1);
                    if fm < k as int {
                        assert(e0.subs[fm].0 == m);
                        assert(false);
                    }
                    if fm > k as int {
                        assert(e0.subs[k as int].0 != m);
                        assert(false);
                    }
                } else {
                    if find_move(e0.subs, m) != -1 {
                        assert(e0.subs[find_move(e0.subs, m)].0 == m);
                        assert(false);
                    }
                }
            }
            let mut grid: Grid;
            if found {
                let pair = self.sub_entries.remove(k);
                grid = pair.1;
                proof {
                    assert(grid_view(grid) == e0.subs[k as int].1);
                }
            } else {
                grid = grid_new();
            }
            let ghost subs_rest = self.sub_entries@;
            let mut next = self.next_game_idx;
            let ghost j0 = pos as int;
            let ghost g0 = if found {
                e0.subs[k as int].1
            } else {
                empty_grid()
            };
            match read_frames(buf, &mut pos, &mut grid, base, &mut next) {
                Ok(()) => {},
                Err(e) => {
                    return Err(e);
                },
            }
            if found {
                self.sub_entries.insert(k, (m, grid));
            } else {
                self.sub_entries.push((m, grid));
            }
            self.next_game_idx = next;
            proof {
                let g1 = grid_view(grid);
                if found {
                    assert(self.sub_entries@ =~= subs_rest.insert(k as int, (m, grid)));
                    assert(self@.subs =~~= e0.subs.update(k as int, (m, g1))) by {
                        assert(forall|j: int|
                            0 <= j < self@.subs.len() ==> (#[trigger] self@.subs[j]) == (
                            self.sub_entries@[j].0, grid_view(self.sub_entries@[j].1)));
                    }
                } else {
                    assert(self@.subs =~~= e0.subs.push((m, g1))) by {
                        assert(forall|j: int|
                            0 <= j < self@.subs.len() ==> (#[trigger] self@.subs[j]) == (
                            self.sub_entries@[j].0, grid_view(self.sub_entries@[j].1)));
                    }
                }
                assert(i0 < pos as int <= buf@.len());
                assert(dec_moves(buf@, i0, e0, base) == dec_moves(buf@, pos as int, self@, base));
            }
        }
    }
}

// ---------------------------------------------------------------------------
// Laws of retention
// ---------------------------------------------------------------------------

/// A group holding exactly one sample keeps it in serialized form whatever
/// its age relative to the discard threshold.
pub proof fn lemma_single_game_always_retained(games: Seq<(u64, GameId)>, discard: u64)
    requires
        games.len() == 1,
    ensures
        retained_games(games, discard) == games,
{
}

/// A group of two or more samples, all at or below the discard threshold,
/// serializes with no samples at all while its counters are written in full.
pub proof fn lemma_stale_games_all_dropped(speed: Speed, mode: Mode, g: GroupM, discard: u64)
    requires
        g.games.len() >= 2,
        forall|i: int| 0 <= i < g.games.len() ==> (#[trigger] g.games[i]).0 <= discard,
    ensures
        retained_games(g.games, discard) == Seq::<(u64, GameId)>::empty(),
        frame_enc(speed, mode, g, discard) == seq![
            header_byte(Header::Group { speed, mode, num_games: 0 }),
        ] + stats_enc(g.stats),
{
    lemma_passing_all_stale(g.games, discard);
    assert(cap_games(Seq::<(u64, GameId)>::empty()) =~= Seq::<(u64, GameId)>::empty());
    assert(games_enc(Seq::<(u64, GameId)>::empty()) == Seq::<u8>::empty());
    assert(!group_is_empty(g));
    assert(seq![header_byte(Header::Group { speed, mode, num_games: 0 })] + stats_enc(g.stats)
        + Seq::<u8>::empty() =~= seq![
        header_byte(Header::Group { speed, mode, num_games: 0 }),
    ] + stats_enc(g.stats));
}

proof fn lemma_passing_all_stale(games: Seq<(u64, GameId)>, discard: u64)
    requires
        forall|i: int| 0 <= i < games.len() ==> (#[trigger] games[i]).0 <= discard,
    ensures
        passing(games, discard) == Seq::<(u64, GameId)>::empty(),
    decreases games.len(),
{
    if games.len() > 0 {
        assert(forall|i: int|
            0 <= i < games.skip(1).len() ==> #[trigger] games.skip(1)[i] == games[i + 1]);
        lemma_passing_all_stale(games.skip(1), discard);
        assert(passing(games, discard) =~= Seq::<(u64, GameId)>::empty());
    }
}

/// Merging bucket records into a group gives counters independent of the
/// order the records arrive in: folding two records either way sums to the
/// same counters.
pub proof fn lemma_merge_counts_order_free(g: GroupM, a: GroupM, b: GroupM)
    ensures
        group_plus(group_plus(g, a), b).stats == group_plus(group_plus(g, b), a).stats,
        group_plus(group_plus(g, a), b).stats == stats_plus(g.stats, stats_plus(a.stats, b.stats)),
{
    crate::stats::lemma_stats_plus_associative(g.stats, a.stats, b.stats);
    crate::stats::lemma_stats_plus_commutative(a.stats, b.stats);
}

} // verus!
