//! Transposition table.
//!
//! The same position is reached by different paths; the table remembers, per
//! Zobrist key, what the search already established: a score, the depth it was
//! established at, what the score guarantees, and the best move found.
//!
//! Mate scores are written `±(MATE - ply)` and so depend on the ply they were
//! found at. They are normalised on the way in (distance from the position)
//! and denormalised on the way out (distance from the root).
//!
//! Each entry is two 64-bit words: `key ^ data`, then `data`. A reader
//! rebuilds the key with a xor; an entry whose two words come from different
//! writes rebuilds a key that matches nothing and reads as an ordinary miss.
use vstd::prelude::*;

use crate::eval::MATE_THRESHOLD;
use crate::types::{piece_idx, piece_of, Move, Piece};

verus! {

/// What a stored score says of the true value of the position.
#[derive(Clone, Copy, Debug, PartialEq, Eq, Structural)]
pub enum Bound {
    /// Every move was searched: the score is exact.
    Exact,
    /// A beta cut-off: the true value is at least the score.
    Lower,
    /// No move raised alpha: the true value is at most the score.
    Upper,
}

impl Bound {
    /// The two bits that encode this bound.
    pub open spec fn bits(self) -> u64 {
        match self {
            Bound::Exact => 0,
            Bound::Lower => 1,
            Bound::Upper => 2,
        }
    }

    /// The bound that two bits decode to; the unused value `3` reads as exact.
    pub open spec fn of_bits(bits: u64) -> Bound {
        let b = bits & 3u64;
        if b == 1 {
            Bound::Lower
        } else if b == 2 {
            Bound::Upper
        } else {
            Bound::Exact
        }
    }

    /// Encodes the bound on two bits.
    pub fn to_bits(self) -> (r: u64)
        ensures
            r == self.bits(),
            r < 3,
    {
        match self {
            Bound::Exact => 0,
            Bound::Lower => 1,
            Bound::Upper => 2,
        }
    }

    /// Decodes two bits. `3` is never written; reading it means a torn entry,
    /// which the key check has already rejected, so it decodes as `Exact`
    /// rather than failing.
    pub fn from_bits(bits: u64) -> (r: Bound)
        ensures
            r == Bound::of_bits(bits),
    {
        let b = bits & 3;
        if b == 1 {
            Bound::Lower
        } else if b == 2 {
            Bound::Upper
        } else {
            Bound::Exact
        }
    }
}

/// What the table knows of a position.
#[derive(Clone, Copy, Debug, PartialEq, Eq, Structural)]
pub struct Hit {
    /// The best known move, to be tried first even when the score is unusable.
    pub mv: Option<Move>,
    /// The score, already brought back to the current ply.
    pub score: i32,
    /// The depth the score was established at.
    pub depth: i8,
    /// What the score guarantees.
    pub bound: Bound,
}

/// A score clamped to the range of an `i16`.
pub open spec fn clamp_i16(score: int) -> i16 {
    if score < -32768 {
        -32768i16
    } else if score > 32767 {
        32767i16
    } else {
        score as i16
    }
}

/// The data word of an entry: score in bits 0 to 15, move in 16 to 31, depth
/// in 32 to 39, bound in 40 and 41, generation in 42 to 49.
pub open spec fn data_of(score: i16, mv: u16, depth: i8, bound: Bound, generation: u8) -> u64 {
    (score as u16) as u64 | ((mv as u64) << 16u64) | (((depth as u8) as u64) << 32u64) | (
    bound.bits() << 40u64) | ((generation as u64) << 42u64)
}

/// The score field of a data word.
pub open spec fn data_score(data: u64) -> i16 {
    ((data & 0xFFFFu64) as u16) as i16
}

/// The move field of a data word.
pub open spec fn data_move(data: u64) -> u16 {
    ((data >> 16u64) & 0xFFFFu64) as u16
}

/// The depth field of a data word.
pub open spec fn data_depth(data: u64) -> i8 {
    (((data >> 32u64) & 0xFFu64) as u8) as i8
}

/// The bound field of a data word.
pub open spec fn data_bound(data: u64) -> Bound {
    Bound::of_bits(data >> 40u64)
}

/// The generation field of a data word.
pub open spec fn data_generation(data: u64) -> u8 {
    ((data >> 42u64) & 0xFFu64) as u8
}

proof fn lemma_fields(score: i16, mv: u16, depth: i8, b: u64, g: u8)
    by (bit_vector)
    requires
        b < 3,
    ensures
        (((((score as u16) as u64 | ((mv as u64) << 16u64) | (((depth as u8) as u64) << 32u64) | (b
            << 40u64) | ((g as u64) << 42u64)) & 0xFFFFu64) as u16) as i16) == score,
        (((((score as u16) as u64 | ((mv as u64) << 16u64) | (((depth as u8) as u64) << 32u64) | (b
            << 40u64) | ((g as u64) << 42u64)) >> 16u64) & 0xFFFFu64) as u16) == mv,
        ((((((score as u16) as u64 | ((mv as u64) << 16u64) | (((depth as u8) as u64) << 32u64) | (b
            << 40u64) | ((g as u64) << 42u64)) >> 32u64) & 0xFFu64) as u8) as i8) == depth,
        ((((score as u16) as u64 | ((mv as u64) << 16u64) | (((depth as u8) as u64) << 32u64) | (b
            << 40u64) | ((g as u64) << 42u64)) >> 40u64) & 3u64) == b,
        (((((score as u16) as u64 | ((mv as u64) << 16u64) | (((depth as u8) as u64) << 32u64) | (b
            << 40u64) | ((g as u64) << 42u64)) >> 42u64) & 0xFFu64) as u8) == g,
{
}

/// Reading a field of a packed word gives back the value packed into it.
pub proof fn lemma_data_roundtrip(score: i16, mv: u16, depth: i8, bound: Bound, generation: u8)
    ensures
        data_score(data_of(score, mv, depth, bound, generation)) == score,
        data_move(data_of(score, mv, depth, bound, generation)) == mv,
        data_depth(data_of(score, mv, depth, bound, generation)) == depth,
        data_bound(data_of(score, mv, depth, bound, generation)) == bound,
        data_generation(data_of(score, mv, depth, bound, generation)) == generation,
{
    lemma_fields(score, mv, depth, bound.bits(), generation);
}

/// Packs the data word of an entry; the score is clamped to sixteen bits.
fn pack_data(score: i32, mv: u16, depth: i8, bound: Bound, generation: u8) -> (r: u64)
    ensures
        r == data_of(clamp_i16(score as int), mv, depth, bound, generation),
{
    let clamped: i16 = if score < -32768 {
        -32768
    } else if score > 32767 {
        32767
    } else {
        score as i16
    };
    (clamped as u16) as u64 | ((mv as u64) << 16u64) | (((depth as u8) as u64) << 32u64) | (
    bound.to_bits() << 40u64) | ((generation as u64) << 42u64)
}

/// The inverse of [`pack_data`].
fn unpack_data(data: u64) -> (r: (i32, u16, i8, Bound, u8))
    ensures
        r == (data_score(data) as i32, data_move(data), data_depth(data), data_bound(data),
        data_generation(data)),
{
    let score = ((data & 0xFFFF) as u16) as i16;
    let mv = ((data >> 16u64) & 0xFFFF) as u16;
    let depth = (((data >> 32u64) & 0xFF) as u8) as i8;
    let bound = Bound::from_bits(data >> 40u64);
    let generation = ((data >> 42u64) & 0xFF) as u8;
    (score as i32, mv, depth, bound, generation)
}

/// The data word of a blank entry: depth `-1`, which a probe rejects.
pub open spec fn empty_data_spec() -> u64 {
    data_of(0, 0, -1i8, Bound::Exact, 0)
}

/// The data word of a blank entry.
fn empty_data() -> (r: u64)
    ensures
        r == empty_data_spec(),
{
    pack_data(0, 0, -1, Bound::Exact, 0)
}

/// The key an entry answers to.
pub open spec fn entry_key(entry: [u64; 2]) -> u64 {
    entry[0] ^ entry[1]
}

/// The data an entry holds.
pub open spec fn entry_data(entry: [u64; 2]) -> u64 {
    entry[1]
}

/// An entry holding `data` for `key`.
pub open spec fn entry_of(key: u64, data: u64) -> [u64; 2] {
    [key ^ data, data]
}

proof fn lemma_xor_back(key: u64, data: u64)
    by (bit_vector)
    ensures
        (key ^ data) ^ data == key,
        (0u64 ^ data) == data,
{
}

/// A blank entry: key zero, blank data.
fn entry_empty() -> (r: [u64; 2])
    ensures
        r == entry_of(0, empty_data_spec()),
        entry_key(r) == 0,
        entry_data(r) == empty_data_spec(),
{
    let data = empty_data();
    proof {
        lemma_xor_back(0, data);
    }
    [data, data]
}

/// The rebuilt key and the data of an entry.
fn entry_load(entry: &[u64; 2]) -> (r: (u64, u64))
    ensures
        r == (entry_key(*entry), entry_data(*entry)),
{
    (entry[0] ^ entry[1], entry[1])
}

/// The entry that holds `data` for `key`.
fn entry_store(key: u64, data: u64) -> (r: [u64; 2])
    ensures
        r == entry_of(key, data),
        entry_key(r) == key,
        entry_data(r) == data,
{
    proof {
        lemma_xor_back(key, data);
    }
    [key ^ data, data]
}

/// Default size, in mebibytes.
pub const DEFAULT_SIZE_MB: usize = 16;

/// The size in bytes of one entry.
#[verifier::external_body]
fn entry_bytes() -> (r: usize)
    ensures
        r == 16,
{
    std::mem::size_of::<[u64; 2]>()
}

/// Whether `x` is a power of two.
pub open spec fn is_pow2(x: int) -> bool
    decreases x,
{
    if x <= 0 {
        false
    } else if x == 1 {
        true
    } else {
        x % 2 == 0 && is_pow2(x / 2)
    }
}

proof fn lemma_pow2_double(x: int)
    requires
        is_pow2(x),
    ensures
        is_pow2(2 * x),
    decreases x,
{
    if x > 1 {
        lemma_pow2_double(x / 2);
    }
}

proof fn lemma_pow2_half(x: int)
    requires
        is_pow2(x),
        x > 1,
    ensures
        is_pow2(x / 2),
        x / 2 * 2 == x,
{
}

proof fn lemma_pow2_lt(a: int, b: int)
    requires
        is_pow2(a),
        is_pow2(b),
        a < b,
    ensures
        2 * a <= b,
    decreases b,
{
    if a > 1 {
        lemma_pow2_lt(a / 2, b / 2);
    }
}

/// The smallest power of two at or above `count`, and one for zero.
fn next_power_of_two(count: usize) -> (r: usize)
    requires
        count <= usize::MAX / 2 + 1,
    ensures
        is_pow2(r as int),
        r >= count,
        r == 1 || r / 2 < count,
        is_pow2(count as int) ==> r == count,
{
    let mut p: usize = 1;
    while p < count
        invariant
            is_pow2(p as int),
            p == 1 || p / 2 < count,
            count <= usize::MAX / 2 + 1,
            p >= 1,
            is_pow2(count as int) ==> p <= count,
        decreases usize::MAX - p,
    {
        proof {
            lemma_pow2_double(p as int);
            if is_pow2(count as int) {
                lemma_pow2_lt(p as int, count as int);
            }
        }
        p = p * 2;
    }
    p
}

/// Normalises a mate score before it is stored: its distance becomes relative
/// to the position instead of the root.
pub open spec fn to_tt(score: int, ply: int) -> int {
    if score > MATE_THRESHOLD {
        score + ply
    } else if score < -MATE_THRESHOLD {
        score - ply
    } else {
        score
    }
}

/// The inverse of [`to_tt`], applied when a score is read back.
pub open spec fn from_tt(score: int, ply: int) -> int {
    if score > MATE_THRESHOLD {
        score - ply
    } else if score < -MATE_THRESHOLD {
        score + ply
    } else {
        score
    }
}

/// Whether an integer fits an `i32`.
pub open spec fn fits_i32(x: int) -> bool {
    i32::MIN <= x <= i32::MAX
}

/// Normalises a mate score before storage.
pub fn score_to_tt(score: i32, ply: i32) -> (r: i32)
    requires
        fits_i32(to_tt(score as int, ply as int)),
    ensures
        r == to_tt(score as int, ply as int),
{
    if score > MATE_THRESHOLD {
        score + ply
    } else if score < -MATE_THRESHOLD {
        score - ply
    } else {
        score
    }
}

/// Brings a stored score back to the current ply.
pub fn score_from_tt(score: i32, ply: i32) -> (r: i32)
    requires
        fits_i32(from_tt(score as int, ply as int)),
    ensures
        r == from_tt(score as int, ply as int),
{
    if score > MATE_THRESHOLD {
        score - ply
    } else if score < -MATE_THRESHOLD {
        score + ply
    } else {
        score
    }
}

/// A score stored at a ply and read back at the same ply is unchanged.
pub proof fn lemma_score_roundtrip(score: int, ply: int)
    requires
        0 <= ply,
    ensures
        from_tt(to_tt(score, ply), ply) == score,
{
}

/// A mate found at one ply and read back at another is the same mate seen from
/// the new ply: a store at `ply` then a read at `later` moves a winning mate
/// score by `ply - later`.
pub proof fn lemma_mate_score_moves_with_ply(score: int, ply: int, later: int)
    requires
        score > MATE_THRESHOLD,
        0 <= ply,
        0 <= later,
        to_tt(score, ply) - later > MATE_THRESHOLD,
    ensures
        from_tt(to_tt(score, ply), later) == score + ply - later,
{
}

/// The sixteen-bit code of a move.
pub open spec fn move_code(mv: Move) -> u16 {
    let promo: u16 = match mv.promotion {
        None => 0u16,
        Some(p) => (piece_idx(p) + 1) as u16,
    };
    (mv.from as u16) | ((mv.to as u16) << 6u16) | (promo << 12u16)
}

/// The move a sixteen-bit code decodes to; zero decodes to no move.
pub open spec fn move_of_code(packed: u16) -> Option<Move> {
    if packed == 0 {
        None
    } else {
        let from = (packed & 0x3Fu16) as u8;
        let to = ((packed >> 6u16) & 0x3Fu16) as u8;
        let promo = (packed >> 12u16) & 7u16;
        if promo == 0 {
            Some(Move { from, to, promotion: None })
        } else if promo <= 6 {
            Some(Move { from, to, promotion: Some(piece_of(promo - 1)) })
        } else {
            None
        }
    }
}

proof fn lemma_move_bits(from: u16, to: u16, promo: u16)
    by (bit_vector)
    requires
        from < 64,
        to < 64,
        promo < 7,
    ensures
        (from | (to << 6u16) | (promo << 12u16)) & 0x3Fu16 == from,
        ((from | (to << 6u16) | (promo << 12u16)) >> 6u16) & 0x3Fu16 == to,
        ((from | (to << 6u16) | (promo << 12u16)) >> 12u16) & 7u16 == promo,
        (from | (to << 6u16) | (promo << 12u16)) == 0 <==> (from == 0 && to == 0 && promo == 0),
{
}

/// Packing then unpacking a move gives the move back, except for the one
/// code reserved for "no move".
pub proof fn lemma_move_roundtrip(mv: Move)
    requires
        mv.wf(),
    ensures
        move_code(mv) == 0 <==> mv == (Move { from: 0, to: 0, promotion: None }),
        move_code(mv) != 0 ==> move_of_code(move_code(mv)) == Some(mv),
{
    let promo: u16 = match mv.promotion {
        None => 0u16,
        Some(p) => (piece_idx(p) + 1) as u16,
    };
    lemma_move_bits(mv.from as u16, mv.to as u16, promo);
    match mv.promotion {
        None => {},
        Some(p) => {
            assert(piece_of(piece_idx(p)) == p);
        },
    }
}

/// Packs a move on sixteen bits: six for the origin, six for the
/// destination, three for the promotion. Zero codes no legal move (a1a1) and
/// so marks the absence of a move.
pub fn pack_move(mv: Move) -> (r: u16)
    requires
        mv.wf(),
    ensures
        r == move_code(mv),
{
    let promotion: u16 = match mv.promotion {
        None => 0,
        Some(piece) => piece.index() as u16 + 1,
    };
    (mv.from as u16) | ((mv.to as u16) << 6u16) | (promotion << 12u16)
}

/// Unpacks a move produced by [`pack_move`].
pub fn unpack_move(packed: u16) -> (r: Option<Move>)
    ensures
        r == move_of_code(packed),
        r matches Some(m) ==> m.wf(),
{
    if packed == 0 {
        return None;
    }
    let from = (packed & 0x3F) as u8;
    let to = ((packed >> 6u16) & 0x3F) as u8;
    let promo = (packed >> 12u16) & 7;
    assert((packed & 0x3Fu16) < 64) by (bit_vector);
    assert(((packed >> 6u16) & 0x3Fu16) < 64) by (bit_vector);
    if promo == 0 {
        Some(Move { from, to, promotion: None })
    } else {
        match Piece::from_index((promo - 1) as usize) {
            Some(p) => Some(Move { from, to, promotion: Some(p) }),
            None => None,
        }
    }
}

/// The slot a key falls into.
pub open spec fn slot_of(key: u64, mask: usize) -> int {
    ((key as usize) & mask) as int
}

/// What a slot answers to a probe for `key` at `ply`.
pub open spec fn probe_entry(entry: [u64; 2], key: u64, ply: int) -> Option<Hit> {
    let data = entry_data(entry);
    if entry_key(entry) != key || data_depth(data) < 0 {
        None
    } else {
        Some(
            Hit {
                mv: move_of_code(data_move(data)),
                score: from_tt(data_score(data) as int, ply) as i32,
                depth: data_depth(data),
                bound: data_bound(data),
            },
        )
    }
}

/// A depth clamped to `[0, 127]`, as the table stores it.
pub open spec fn stored_depth(depth: int) -> i8 {
    if depth < 0 {
        0i8
    } else if depth > 127 {
        127i8
    } else {
        depth as i8
    }
}

/// Whether a store for `key` at `depth` replaces the entry in its slot.
pub open spec fn replaces(entry: [u64; 2], key: u64, depth: int, generation: u8) -> bool {
    let data = entry_data(entry);
    entry_key(entry) != key || data_generation(data) != generation || stored_depth(depth)
        >= data_depth(data)
}

/// The move code written by a store: the new move, else the slot's move when
/// the slot already holds this key, else nothing.
pub open spec fn stored_move(entry: [u64; 2], key: u64, mv: Option<Move>) -> u16 {
    match mv {
        Some(m) => move_code(m),
        None => if entry_key(entry) == key {
            data_move(entry_data(entry))
        } else {
            0u16
        },
    }
}

/// The entry a store leaves in the slot, when it replaces it.
pub open spec fn stored_entry(
    entry: [u64; 2],
    key: u64,
    mv: Option<Move>,
    score: int,
    depth: int,
    bound: Bound,
    ply: int,
    generation: u8,
) -> [u64; 2] {
    entry_of(
        key,
        data_of(
            clamp_i16(to_tt(score, ply)),
            stored_move(entry, key, mv),
            stored_depth(depth),
            bound,
            generation,
        ),
    )
}

/// The table.
pub struct TranspositionTable {
    entries: Vec<[u64; 2]>,
    /// `entries.len() - 1`; the length is a power of two, so an `AND` maps a
    /// key to its slot.
    mask: usize,
    generation: u8,
}

impl TranspositionTable {
    /// The slots of the table.
    pub closed spec fn slots(&self) -> Seq<[u64; 2]> {
        self.entries@
    }

    /// The slot mask: the number of slots minus one.
    pub closed spec fn mask_spec(&self) -> usize {
        self.mask
    }

    /// The current search generation.
    pub closed spec fn generation_spec(&self) -> u8 {
        self.generation
    }

    /// The slot a key falls into in this table.
    pub open spec fn slot(&self, key: u64) -> int {
        slot_of(key, self.mask_spec())
    }

    /// What a probe for `key` at `ply` returns.
    /// The permille of used slots among the first thousand (or all, when
    /// fewer).
    pub open spec fn permille_spec(&self) -> int {
        let sample = if self.slots().len() < 1000 {
            self.slots().len() as int
        } else {
            1000
        };
        count_used(self.slots(), sample) * 1000 / sample
    }

    pub open spec fn lookup(&self, key: u64, ply: int) -> Option<Hit> {
        probe_entry(self.slots()[self.slot(key)], key, ply)
    }

    /// The table's invariant: a power-of-two number of slots, and the mask
    /// that goes with it.
    pub open spec fn wf(&self) -> bool {
        &&& self.slots().len() == self.mask_spec() + 1
        &&& is_pow2(self.slots().len() as int)
    }

    proof fn lemma_slot_in_range(&self, key: u64)
        requires
            self.wf(),
        ensures
            0 <= self.slot(key) < self.slots().len(),
    {
        let m = self.mask;
        assert(((key as usize) & m) <= m) by (bit_vector);
    }

    /// A table of `megabytes` mebibytes (clamped to `[1, 4096]`), rounded down
    /// to a power of two of entries.
    pub fn new(megabytes: usize) -> (r: Self)
        ensures
            r.wf(),
            ({
                let bytes = (if megabytes < 1 {
                    1
                } else if megabytes > 4096 {
                    4096
                } else {
                    megabytes as int
                }) * 1024 * 1024;
                &&& r.slots().len() * 16 <= bytes
                &&& bytes < r.slots().len() * 32
            }),
            forall|i: int| 0 <= i < r.slots().len() ==> r.slots()[i] == entry_of(0, empty_data_spec()),
            r.generation_spec() == 0,
    {
        let mb: usize = if megabytes < 1 {
            1
        } else if megabytes > 4096 {
            4096
        } else {
            megabytes
        };
        let bytes: u64 = (mb as u64) * 1024 * 1024;
        let size = entry_bytes();
        assert(bytes == mb * 1048576);
        assert(bytes / 16 == mb * 65536) by (nonlinear_arith)
            requires
                bytes == mb * 1048576,
        ;
        let wanted = (bytes / (size as u64)) as usize;
        let up = next_power_of_two(wanted);
        let low = if up < wanted { up } else { wanted };
        let count0 = if low < 1 { 1 } else { low };
        let count = if up == wanted {
            count0
        } else {
            proof {
                assert(up > wanted);
                assert(up > 1);
                lemma_pow2_half(up as int);
            }
            up / 2
        };
        proof {
            if up == wanted {
                assert(count == wanted);
            } else {
                assert(count == up / 2);
                assert(up / 2 < wanted);
                assert(wanted < up);
            }
        }
        Self::with_entry_count(count)
    }

    /// A table of a given number of entries, rounded up to a power of two.
    ///
    /// Exists for measurement: it fixes the capacity independently of the
    /// size of an entry.
    pub fn with_entry_count(count: usize) -> (r: Self)
        requires
            count <= usize::MAX / 2 + 1,
        ensures
            r.wf(),
            r.slots().len() >= count,
            r.slots().len() == 1 || r.slots().len() / 2 < count,
            is_pow2(count as int) ==> r.slots().len() == count,
            forall|i: int| 0 <= i < r.slots().len() ==> r.slots()[i] == entry_of(0, empty_data_spec()),
            r.generation_spec() == 0,
    {
        let count = next_power_of_two(count);
        let mut entries: Vec<[u64; 2]> = Vec::new();
        let mut i: usize = 0;
        while i < count
            invariant
                i <= count,
                entries@.len() == i,
                forall|j: int| 0 <= j < i ==> entries@[j] == entry_of(0, empty_data_spec()),
            decreases count - i,
        {
            entries.push(entry_empty());
            i = i + 1;
        }
        TranspositionTable { entries, mask: count - 1, generation: 0 }
    }

    /// Empties the table. To be called on `ucinewgame`: the positions of a
    /// previous game say nothing of the next one.
    pub fn clear(&mut self)
        requires
            old(self).wf(),
        ensures
            final(self).wf(),
            final(self).slots().len() == old(self).slots().len(),
            final(self).mask_spec() == old(self).mask_spec(),
            forall|i: int|
                0 <= i < final(self).slots().len() ==> final(self).slots()[i] == entry_of(
                    0,
                    empty_data_spec(),
                ),
            final(self).generation_spec() == 0,
            final(self).slots() == after_write(
                old(self).slots(),
                old(self).mask_spec(),
                old(self).generation_spec(),
                TableWrite::Clear,
            ).0,
    {
        let data = empty_data();
        let n = self.entries.len();
        let mut i: usize = 0;
        while i < n
            invariant
                i <= n,
                n == self.entries@.len(),
                self.entries@.len() == old(self).entries@.len(),
                self.mask == old(self).mask,
                data == empty_data_spec(),
                forall|j: int| 0 <= j < i ==> self.entries@[j] == entry_of(0, empty_data_spec()),
            decreases n - i,
        {
            self.entries.set(i, entry_store(0, data));
            i = i + 1;
        }
        self.generation = 0;
    }

    /// Marks the start of a new search. Entries of earlier searches stay
    /// readable but become replaceable first.
    pub fn new_search(&mut self)
        requires
            old(self).wf(),
        ensures
            final(self).wf(),
            final(self).slots() == old(self).slots(),
            final(self).mask_spec() == old(self).mask_spec(),
            final(self).generation_spec() == (if old(self).generation_spec() == 255 {
                0
            } else {
                old(self).generation_spec() + 1
            }),
            (final(self).slots(), final(self).generation_spec()) == after_write(
                old(self).slots(),
                old(self).mask_spec(),
                old(self).generation_spec(),
                TableWrite::NewSearch,
            ),
    {
        self.generation = if self.generation == 255 {
            0
        } else {
            self.generation + 1
        };
    }

    /// Number of entries.
    pub fn capacity(&self) -> (r: usize)
        ensures
            r == self.slots().len(),
    {
        self.entries.len()
    }

    /// Fill rate in permille, estimated on the first thousand entries: what the
    /// UCI `hashfull` field expects.
    pub fn permille_used(&self) -> (r: u32)
        requires
            self.wf(),
        ensures
            r == self.permille_spec(),
            r <= 1000,
    {
        let sample = if self.entries.len() < 1000 {
            self.entries.len()
        } else {
            1000
        };
        let mut used: usize = 0;
        let mut i: usize = 0;
        while i < sample
            invariant
                i <= sample,
                sample <= self.entries@.len(),
                sample <= 1000,
                used == count_used(self.entries@, i as int),
                used <= i,
            decreases sample - i,
        {
            let (_, data) = entry_load(&self.entries[i]);
            let (_, _, depth, _, _) = unpack_data(data);
            if depth >= 0 {
                used = used + 1;
            }
            i = i + 1;
        }
        proof {
            assert(sample > 0) by {
                assert(is_pow2(self.entries@.len() as int));
            }
            assert((used as int) * 1000 / (sample as int) <= 1000) by (nonlinear_arith)
                requires
                    used <= sample,
                    sample > 0,
            ;
        }
        (used * 1000 / sample) as u32
    }

    /// Looks a key up. `ply` brings a mate score back to the current ply.
    pub fn probe(&self, key: u64, ply: i32) -> (r: Option<Hit>)
        requires
            self.wf(),
            ply >= i32::MIN + 32768,
        ensures
            r == self.lookup(key, ply as int),
            r matches Some(h) ==> h.depth >= 0 && (h.mv matches Some(m) ==> m.wf()),
    {
        proof {
            self.lemma_slot_in_range(key);
        }
        let index = (key as usize) & self.mask;
        let (stored_key, data) = entry_load(&self.entries[index]);
        // A torn entry rebuilds a key that matches nothing: it is rejected
        // here, by the same test as an ordinary collision.
        if stored_key != key {
            return None;
        }
        let (score, mv, depth, bound, _) = unpack_data(data);
        if depth < 0 {
            return None;
        }
        Some(Hit { mv: unpack_move(mv), score: score_from_tt(score, ply), depth, bound })
    }

    /// Records what the search just established.
    ///
    /// Replaces the slot if it holds another position, if it comes from an
    /// earlier search, or if the new result is at least as deep. A deep entry of
    /// the current search is never overwritten by a shallow result; a known move
    /// is kept when the new result has none.
    pub fn store(
        &mut self,
        key: u64,
        mv: Option<Move>,
        score: i32,
        depth: i32,
        bound: Bound,
        ply: i32,
    )
        requires
            old(self).wf(),
            fits_i32(to_tt(score as int, ply as int)),
            mv matches Some(m) ==> m.wf(),
        ensures
            final(self).wf(),
            final(self).mask_spec() == old(self).mask_spec(),
            final(self).generation_spec() == old(self).generation_spec(),
            final(self).slots() == (if replaces(
                old(self).slots()[old(self).slot(key)],
                key,
                depth as int,
                old(self).generation_spec(),
            ) {
                old(self).slots().update(
                    old(self).slot(key),
                    stored_entry(
                        old(self).slots()[old(self).slot(key)],
                        key,
                        mv,
                        score as int,
                        depth as int,
                        bound,
                        ply as int,
                        old(self).generation_spec(),
                    ),
                )
            } else {
                old(self).slots()
            }),
            (final(self).slots(), final(self).generation_spec()) == after_write(
                old(self).slots(),
                old(self).mask_spec(),
                old(self).generation_spec(),
                (TableWrite::Store { key, mv, score, depth, bound, ply }),
            ),
    {
        proof {
            self.lemma_slot_in_range(key);
        }
        let index = (key as usize) & self.mask;
        let (existing_key, existing_data) = entry_load(&self.entries[index]);
        let (_, existing_mv, existing_depth, _, existing_gen) = unpack_data(existing_data);
        let generation = self.generation;
        let depth: i8 = if depth < 0 {
            0
        } else if depth > 127 {
            127
        } else {
            depth as i8
        };
        let replace = existing_key != key || existing_gen != generation || depth >= existing_depth;
        if !replace {
            return ;
        }
        // Do not erase a known move when the new entry has none: even without a
        // usable score, a move to try first is worth a lot.
        let packed: u16 = match mv {
            Some(m) => pack_move(m),
            None => if existing_key == key {
                existing_mv
            } else {
                0
            },
        };
        let data = pack_data(score_to_tt(score, ply), packed, depth, bound, generation);
        self.entries.set(index, entry_store(key, data));
    }
}

impl Default for TranspositionTable {
    /// A table of the default size, `DEFAULT_SIZE_MB` mebibytes.
    fn default() -> (r: Self)
        ensures
            r.wf(),
            r.slots().len() * 16 <= DEFAULT_SIZE_MB * 1024 * 1024,
            DEFAULT_SIZE_MB * 1024 * 1024 < r.slots().len() * 32,
            r.generation_spec() == 0,
            forall|i: int| 0 <= i < r.slots().len() ==> r.slots()[i] == entry_of(0, empty_data_spec()),
    {
        Self::new(DEFAULT_SIZE_MB)
    }
}

/// How many of the first `n` slots hold an entry (a non-negative depth).
pub open spec fn count_used(slots: Seq<[u64; 2]>, n: int) -> int
    decreases n,
{
    if n <= 0 {
        0
    } else {
        count_used(slots, n - 1) + if data_depth(entry_data(slots[n - 1])) >= 0 {
            1int
        } else {
            0int
        }
    }
}

/// What a store at a ply and a probe of the same key at the same ply give
/// back: the stored move, score, depth and bound — provided the store replaced
/// the slot, the depth lies in `[0, 127]` and the normalised score fits sixteen
/// bits.
pub proof fn lemma_store_then_probe(
    slots: Seq<[u64; 2]>,
    mask: usize,
    generation: u8,
    key: u64,
    mv: Move,
    score: int,
    depth: int,
    bound: Bound,
    ply: int,
)
    requires
        0 <= slot_of(key, mask) < slots.len(),
        mv.wf(),
        move_code(mv) != 0,
        0 <= depth <= 127,
        0 <= ply,
        -32768 <= to_tt(score, ply) <= 32767,
    ensures
        probe_entry(
            stored_entry(slots[slot_of(key, mask)], key, Some(mv), score, depth, bound, ply, generation),
            key,
            ply,
        ) == Some(Hit { mv: Some(mv), score: score as i32, depth: depth as i8, bound }),
{
    let e = stored_entry(
        slots[slot_of(key, mask)],
        key,
        Some(mv),
        score,
        depth,
        bound,
        ply,
        generation,
    );
    let data = data_of(
        clamp_i16(to_tt(score, ply)),
        move_code(mv),
        depth as i8,
        bound,
        generation,
    );
    lemma_xor_back(key, data);
    lemma_data_roundtrip(clamp_i16(to_tt(score, ply)), move_code(mv), depth as i8, bound, generation);
    lemma_move_roundtrip(mv);
    assert(entry_key(e) == key);
    assert(entry_data(e) == data);
    lemma_score_roundtrip(score, ply);
}

/// A blank slot answers no probe, whatever the key.
pub proof fn lemma_empty_slot_answers_nothing(key: u64, ply: int)
    ensures
        probe_entry(entry_of(0, empty_data_spec()), key, ply).is_none(),
{
    lemma_xor_back(0, empty_data_spec());
    lemma_data_roundtrip(0, 0, -1i8, Bound::Exact, 0);
}

/// A slot answers only the key it was written for: a probe for any other key
/// finds nothing.
pub proof fn lemma_other_key_misses(entry: [u64; 2], key: u64, other: u64, ply: int)
    requires
        entry_key(entry) == key,
        other != key,
    ensures
        probe_entry(entry, other, ply).is_none(),
{
}

/// A write to the table, as the law on sequences of writes names them.
pub enum TableWrite {
    /// `store(key, mv, score, depth, bound, ply)`.
    Store { key: u64, mv: Option<Move>, score: i32, depth: i32, bound: Bound, ply: i32 },
    /// `clear()`.
    Clear,
    /// `new_search()`.
    NewSearch,
}

/// The slots and the generation after one write, as the writes' contracts
/// give them.
pub open spec fn after_write(slots: Seq<[u64; 2]>, mask: usize, generation: u8, write: TableWrite) -> (
    Seq<[u64; 2]>,
    u8,
) {
    match write {
        TableWrite::Store { key, mv, score, depth, bound, ply } => {
            let at = slot_of(key, mask);
            if replaces(slots[at], key, depth as int, generation) {
                (
                    slots.update(
                        at,
                        stored_entry(
                            slots[at],
                            key,
                            mv,
                            score as int,
                            depth as int,
                            bound,
                            ply as int,
                            generation,
                        ),
                    ),
                    generation,
                )
            } else {
                (slots, generation)
            }
        },
        TableWrite::Clear => (Seq::new(slots.len(), |i: int| entry_of(0, empty_data_spec())), 0u8),
        TableWrite::NewSearch => (slots, if generation == 255 {
            0u8
        } else {
            (generation + 1) as u8
        }),
    }
}

/// The slots and the generation after a sequence of writes, first to last.
pub open spec fn after_writes(
    slots: Seq<[u64; 2]>,
    mask: usize,
    generation: u8,
    writes: Seq<TableWrite>,
) -> (Seq<[u64; 2]>, u8)
    decreases writes.len(),
{
    if writes.len() == 0 {
        (slots, generation)
    } else {
        let before = after_writes(slots, mask, generation, writes.drop_last());
        after_write(before.0, mask, before.1, writes.last())
    }
}

/// Whether write `i` is a store of `key` and the last write into its slot:
/// no later write clears the table or stores into that slot.
pub open spec fn last_store_into_slot(writes: Seq<TableWrite>, mask: usize, key: u64, i: int) -> bool {
    &&& 0 <= i < writes.len()
    &&& writes[i] matches TableWrite::Store { key: k, .. } && k == key
    &&& forall|j: int|
        i < j < writes.len() ==> match #[trigger] writes[j] {
            TableWrite::Clear => false,
            TableWrite::Store { key: k, .. } => slot_of(k, mask) != slot_of(key, mask),
            TableWrite::NewSearch => true,
        }
}

/// A key always falls into one of the slots.
proof fn lemma_slot_below_mask(key: u64, mask: usize)
    ensures
        0 <= slot_of(key, mask) <= mask,
{
    assert(((key as usize) & mask) <= mask) by (bit_vector);
}

/// Writes keep the number of slots.
proof fn lemma_writes_keep_length(slots: Seq<[u64; 2]>, mask: usize, generation: u8, writes: Seq<TableWrite>)
    requires
        slots.len() == mask + 1,
    ensures
        after_writes(slots, mask, generation, writes).0.len() == slots.len(),
    decreases writes.len(),
{
    if writes.len() > 0 {
        lemma_writes_keep_length(slots, mask, generation, writes.drop_last());
        if let TableWrite::Store { key, .. } = writes.last() {
            lemma_slot_below_mask(key, mask);
        }
    }
}

/// From a fresh or cleared table, through any sequence of stores, clears and
/// new searches: a probe finds an entry for `key` only if the last write into
/// the slot of `key` was a store of that very key, with no clear after it. So
/// another key of the same slot never reads that entry, and a table that
/// nothing was stored in since it was made or cleared answers nothing.
pub proof fn lemma_probe_answers_last_store(
    slots: Seq<[u64; 2]>,
    mask: usize,
    generation: u8,
    writes: Seq<TableWrite>,
    key: u64,
    ply: int,
)
    requires
        slots.len() == mask + 1,
        forall|i: int| 0 <= i < slots.len() ==> slots[i] == entry_of(0, empty_data_spec()),
    ensures
        probe_entry(after_writes(slots, mask, generation, writes).0[slot_of(key, mask)], key, ply)
            is Some ==> exists|i: int| last_store_into_slot(writes, mask, key, i),
    decreases writes.len(),
{
    lemma_slot_below_mask(key, mask);
    lemma_empty_slot_answers_nothing(key, ply);
    if writes.len() > 0 {
        let earlier = writes.drop_last();
        let before = after_writes(slots, mask, generation, earlier);
        let at = slot_of(key, mask);
        lemma_writes_keep_length(slots, mask, generation, earlier);
        lemma_probe_answers_last_store(slots, mask, generation, earlier, key, ply);
        let now = after_writes(slots, mask, generation, writes);
        assert(now == after_write(before.0, mask, before.1, writes.last()));
        let last = writes.len() - 1;
        assert(writes[last] == writes.last());
        if probe_entry(now.0[at], key, ply) is Some {
            match writes.last() {
                TableWrite::Clear => {
                    assert(now.0[at] == entry_of(0, empty_data_spec()));
                },
                TableWrite::NewSearch => {
                    let i = choose|i: int| last_store_into_slot(earlier, mask, key, i);
                    assert forall|j: int| i < j < writes.len() implies match #[trigger] writes[j] {
                        TableWrite::Clear => false,
                        TableWrite::Store { key: k, .. } => slot_of(k, mask) != slot_of(key, mask),
                        TableWrite::NewSearch => true,
                    } by {
                        if j < last {
                            assert(writes[j] == earlier[j]);
                        }
                    }
                    assert(last_store_into_slot(writes, mask, key, i));
                },
                TableWrite::Store { key: k, mv, score, depth, bound, ply: p } => {
                    lemma_slot_below_mask(k, mask);
                    if slot_of(k, mask) == at {
                        let entry = before.0[at];
                        if replaces(entry, k, depth as int, before.1) {
                            let data = data_of(
                                clamp_i16(to_tt(score as int, p as int)),
                                stored_move(entry, k, mv),
                                stored_depth(depth as int),
                                bound,
                                before.1,
                            );
                            lemma_xor_back(k, data);
                            assert(entry_key(now.0[at]) == k);
                        } else {
                            assert(now.0[at] == entry);
                        }
                        assert(k == key);
                        assert(last_store_into_slot(writes, mask, key, last));
                    } else {
                        assert(now.0[at] == before.0[at]);
                        let i = choose|i: int| last_store_into_slot(earlier, mask, key, i);
                        assert forall|j: int| i < j < writes.len() implies match #[trigger] writes[j] {
                            TableWrite::Clear => false,
                            TableWrite::Store { key: k, .. } => slot_of(k, mask) != slot_of(key, mask),
                            TableWrite::NewSearch => true,
                        } by {
                            if j < last {
                                assert(writes[j] == earlier[j]);
                            }
                        }
                        assert(last_store_into_slot(writes, mask, key, i));
                    }
                },
            }
        }
    } else {
        assert(after_writes(slots, mask, generation, writes).0 == slots);
    }
}

} // verus!
