//! The hash of a position: the exclusive or of one key for each piece on its
//! square, one for the castling rights, one for the en-passant file and one
//! for the side to move.

use vstd::prelude::*;
use vstd::std_specs::bits::{axiom_u8_trailing_zeros, u8_trailing_zeros};
use rand::{Rng, SeedableRng};
use rand::rngs::StdRng;
use crate::bits::{bit, lemma_zero_iff_empty, pop_lowest};
use crate::gamestate::{
    Gamestate, MoveEffect, MoveError, effect_of, effect_on, lemma_effect_on, pieces_after,
};
use crate::gamestate::board::{
    Board, PieceType, Side, Square, lemma_occupant, lemma_with_piece, lemma_without_piece,
    spec_piece_index, valid_pieces, with_piece, without_piece,
};
use crate::gamestate::castling_rights::CastlingRights;
use crate::gamestate::chess_move::{Move, MoveFlags};
use crate::gamestate::constants::{
    BOARD_NUM_OF_SQUARES, BOARD_SIDE_LENGTH, CASTLING_CONFIGURATIONS_NUM, PIECE_TYPES_NUM, SIDE_NUM,
};

verus! {

/// The seed from which the keys are drawn by default.
pub const SEED: u64 = 1231231;

/// `StdRng` of the `rand` crate: a seeded generator of numbers. Nothing is
/// known of what it holds.
#[verifier::external_type_specification]
#[verifier::external_body]
pub struct ExStdRng(StdRng);

/// `StdRng::seed_from_u64` of the `rand` crate: a generator whose output is
/// determined by `seed`. Nothing is claimed about the generator.
#[verifier::external_body]
fn seeded_generator(seed: u64) -> (rng: StdRng) {
    StdRng::seed_from_u64(seed)
}

/// `Rng::gen` of the `rand` crate at type `u64`: the next number of the
/// generator. Nothing is claimed about the number.
#[verifier::external_body]
fn next_key(rng: &mut StdRng) -> (key: u64) {
    rng.gen()
}

/// Draws `count` keys from a generator seeded with `seed`.
fn generate_hashes(seed: u64, count: usize) -> (keys: Vec<u64>)
    ensures
        keys@.len() == count,
{
    let mut rng: StdRng = seeded_generator(seed);
    let mut keys: Vec<u64> = Vec::new();
    let mut i: usize = 0;
    while i < count
        invariant
            0 <= i <= count,
            keys@.len() == i,
        decreases count - i,
    {
        let hash: u64 = next_key(&mut rng);
        keys.push(hash);
        i += 1;
    }
    keys
}

/// The keys of the pieces: for each square, one key for each of the twelve
/// pieces, the squares in ascending order.
fn generate_pieces_hashes(seed: u64) -> (keys: Vec<u64>)
    ensures
        keys@.len() == 768,
{
    generate_hashes(seed, BOARD_NUM_OF_SQUARES * (PIECE_TYPES_NUM * 2))
}

/// The keys of the two sides.
fn generate_side_hashes(seed: u64) -> (keys: [u64; 2]) {
    let drawn: Vec<u64> = generate_hashes(seed, SIDE_NUM);
    side_keys_from(&drawn)
}

/// The keys of the sixteen values of the castling rights.
fn generate_castling_hashes(seed: u64) -> (keys: [u64; 16]) {
    let drawn: Vec<u64> = generate_hashes(seed, CASTLING_CONFIGURATIONS_NUM);
    castling_keys_from(&drawn)
}

/// The keys of the eight en-passant files.
fn generate_enpassant_hashes(seed: u64) -> (keys: [u64; 8]) {
    let drawn: Vec<u64> = generate_hashes(seed, BOARD_SIDE_LENGTH);
    en_passant_keys_from(&drawn)
}

/// The first two of the drawn numbers as the keys of the sides: white's,
/// then black's.
pub fn side_keys_from(drawn: &Vec<u64>) -> (keys: [u64; 2])
    requires
        drawn@.len() >= 2,
    ensures
        keys@ == drawn@.subrange(0, 2),
{
    let keys: [u64; 2] = [drawn[0], drawn[1]];
    assert(keys@ =~= drawn@.subrange(0, 2));
    keys
}

/// The first sixteen of the drawn numbers as the keys of the castling
/// rights: the key of the rights with packed value `b` is `drawn[b]`.
pub fn castling_keys_from(drawn: &Vec<u64>) -> (keys: [u64; 16])
    requires
        drawn@.len() >= 16,
    ensures
        keys@ == drawn@.subrange(0, 16),
{
    let mut keys: [u64; 16] = [0u64; 16];
    let mut i: usize = 0;
    while i < 16
        invariant
            0 <= i <= 16,
            drawn@.len() >= 16,
            forall|j: int| 0 <= j < i ==> keys[j] == drawn[j],
        decreases 16 - i,
    {
        keys[i] = drawn[i];
        i += 1;
    }
    assert(keys@ =~= drawn@.subrange(0, 16));
    keys
}

/// The first eight of the drawn numbers as the keys of the en-passant
/// files: the key of file `f` is `drawn[f]`.
pub fn en_passant_keys_from(drawn: &Vec<u64>) -> (keys: [u64; 8])
    requires
        drawn@.len() >= 8,
    ensures
        keys@ == drawn@.subrange(0, 8),
{
    let mut keys: [u64; 8] = [0u64; 8];
    let mut i: usize = 0;
    while i < 8
        invariant
            0 <= i <= 8,
            drawn@.len() >= 8,
            forall|j: int| 0 <= j < i ==> keys[j] == drawn[j],
        decreases 8 - i,
    {
        keys[i] = drawn[i];
        i += 1;
    }
    assert(keys@ =~= drawn@.subrange(0, 8));
    keys
}

/// The keys from which positions are hashed. They are drawn once and never
/// change.
pub struct ZobristKeys {
    pieces: Vec<u64>,
    sides: [u64; 2],
    castling: [u64; 16],
    en_passant: [u64; 8],
}

impl ZobristKeys {
    /// There is a key for each of the twelve pieces on each of the 64
    /// squares.
    #[verifier::type_invariant]
    pub closed spec fn well_formed(&self) -> bool {
        self.pieces@.len() == 768
    }

    /// The key of piece number `piece` (of twelve) on square `square`.
    pub closed spec fn spec_piece_key(&self, square: int, piece: int) -> u64 {
        self.pieces@[square * 12 + piece]
    }

    /// The key of `side` being the side to move.
    pub closed spec fn spec_side_key(&self, side: Side) -> u64 {
        self.sides[side.index()]
    }

    /// The key of the castling rights with packed value `bits`.
    pub closed spec fn spec_castling_key(&self, bits: int) -> u64 {
        self.castling[bits]
    }

    /// The key of en-passant file `file`.
    pub closed spec fn spec_en_passant_key(&self, file: int) -> u64 {
        self.en_passant[file]
    }

    /// Draws the keys from generators seeded with `seed`. Each of the four
    /// groups of keys is drawn from a generator of its own.
    pub fn new(seed: u64) -> (keys: ZobristKeys)
        ensures
            keys.well_formed(),
    {
        ZobristKeys {
            pieces: generate_pieces_hashes(seed),
            sides: generate_side_hashes(seed),
            castling: generate_castling_hashes(seed),
            en_passant: generate_enpassant_hashes(seed),
        }
    }

    /// The keys with the given values, if there are 768 piece keys: the key
    /// of piece `p` on square `s` is `pieces[s * 12 + p]`.
    pub fn from_parts(
        pieces: Vec<u64>,
        sides: [u64; 2],
        castling: [u64; 16],
        en_passant: [u64; 8],
    ) -> (r: Option<ZobristKeys>)
        ensures
            r is Some <==> pieces@.len() == 768,
            r is Some ==> {
                &&& forall|s: int, p: int|
                    0 <= s < 64 && 0 <= p < 12 ==> #[trigger] r->0.spec_piece_key(s, p)
                        == pieces@[s * 12 + p]
                &&& r->0.spec_side_key(Side::White) == sides[0]
                &&& r->0.spec_side_key(Side::Black) == sides[1]
                &&& forall|b: int| 0 <= b < 16 ==> #[trigger] r->0.spec_castling_key(b) == castling[b]
                &&& forall|f: int|
                    0 <= f < 8 ==> #[trigger] r->0.spec_en_passant_key(f) == en_passant[f]
            },
    {
        if pieces.len() == 768 {
            Some(ZobristKeys { pieces, sides, castling, en_passant })
        } else {
            None
        }
    }

    /// The key of piece number `piece` (of twelve) on `square`.
    pub fn piece_key(&self, square: Square, piece: usize) -> (key: u64)
        requires
            piece < 12,
        ensures
            key == self.spec_piece_key(square.index(), piece as int),
    {
        proof {
            use_type_invariant(self);
        }
        self.pieces[square.get_index() * 12 + piece]
    }

    /// The key of `side` being the side to move.
    pub fn side_key(&self, side: Side) -> (key: u64)
        ensures
            key == self.spec_side_key(side),
    {
        self.sides[side.to_index()]
    }

    /// The key of the castling rights with packed value `bits`.
    pub fn castling_key(&self, bits: u8) -> (key: u64)
        requires
            bits < 16,
        ensures
            key == self.spec_castling_key(bits as int),
    {
        self.castling[bits as usize]
    }

    /// The key of en-passant file `file`.
    pub fn en_passant_key(&self, file: u8) -> (key: u64)
        requires
            file < 8,
        ensures
            key == self.spec_en_passant_key(file as int),
    {
        self.en_passant[file as usize]
    }
}

/// The exclusive or of the keys of piece number `piece` on the squares of
/// `bitboard` below `n`.
pub open spec fn set_hash(keys: ZobristKeys, piece: int, bitboard: u64, n: int) -> u64
    decreases n,
{
    if n <= 0 {
        0
    } else if bit(bitboard, n - 1) {
        set_hash(keys, piece, bitboard, n - 1) ^ keys.spec_piece_key(n - 1, piece)
    } else {
        set_hash(keys, piece, bitboard, n - 1)
    }
}

/// The exclusive or of the keys of the pieces of the first `k` of the twelve
/// bitboards `pieces`.
pub open spec fn pieces_hash(keys: ZobristKeys, pieces: Seq<u64>, k: int) -> u64
    decreases k,
{
    if k <= 0 {
        0
    } else {
        pieces_hash(keys, pieces, k - 1) ^ set_hash(keys, k - 1, pieces[k - 1], 64)
    }
}

/// The file that a non-zero en-passant value names.
pub open spec fn en_passant_file(en_passant: u8) -> int {
    u8_trailing_zeros(en_passant) as int
}

/// What the en-passant value contributes to the hash: nothing when it is
/// zero, the key of its file otherwise.
pub open spec fn en_passant_hash(keys: ZobristKeys, en_passant: u8) -> u64 {
    if en_passant == 0 {
        0
    } else {
        keys.spec_en_passant_key(en_passant_file(en_passant))
    }
}

/// The hash of a position with piece bitboards `pieces`, side to move
/// `side`, castling rights of packed value `rights` and en-passant value
/// `en_passant`.
pub open spec fn position_hash(
    keys: ZobristKeys,
    pieces: Seq<u64>,
    side: Side,
    rights: int,
    en_passant: u8,
) -> u64 {
    pieces_hash(keys, pieces, 12) ^ keys.spec_castling_key(rights) ^ en_passant_hash(
        keys,
        en_passant,
    ) ^ keys.spec_side_key(side)
}

/// The hash of `game`. The `zobrist_key` of `game` is not read.
pub open spec fn spec_hash(keys: ZobristKeys, game: Gamestate) -> u64 {
    position_hash(
        keys,
        game.board@,
        game.side_to_move,
        game.castling_rights.spec_bits(),
        game.en_passant,
    )
}

/// The file that a non-zero en-passant value names.
pub fn get_en_passant_file(en_passant: u8) -> (file: u8)
    requires
        en_passant != 0,
    ensures
        file == en_passant_file(en_passant),
        file < 8,
{
    proof {
        axiom_u8_trailing_zeros(en_passant);
    }
    en_passant.trailing_zeros() as u8
}

/// Hashing of positions.
pub struct Zobrist;

impl Zobrist {
    /// Computes the hash of `game` from scratch.
    pub fn hash(keys: &ZobristKeys, game: &Gamestate) -> (hash: u64)
        ensures
            hash == spec_hash(*keys, *game),
    {
        let mut hash: u64 = 0;
        let mut i: usize = 0;
        proof {
            game.board.lemma_view_len();
        }
        while i < 12
            invariant
                0 <= i <= 12,
                game.board@.len() == 12,
                hash == pieces_hash(*keys, game.board@, i as int),
            decreases 12 - i,
        {
            let bitboard: u64 = game.board.get_bitboard_at(i);
            let mut rest: u64 = bitboard;
            let mut set: u64 = 0;
            let ghost mut lo: int = 0;
            while rest != 0
                invariant
                    0 <= lo <= 64,
                    0 <= i < 12,
                    forall|s: int| #[trigger] bit(rest, s) == (bit(bitboard, s) && s >= lo),
                    set == set_hash(*keys, i as int, bitboard, lo),
                decreases 64 - lo,
            {
                let t: u8 = pop_lowest(&mut rest);
                proof {
                    assert(bit(bitboard, t as int) && t >= lo);
                    assert forall|j: int| lo <= j < t implies !bit(bitboard, j) by {
                        assert(!bit(rest, j) || j == t);
                    }
                    lemma_set_hash_skip(*keys, i as int, bitboard, lo, t as int);
                    lo = t + 1;
                }
                set = set ^ keys.piece_key(Square::new(t), i);
            }
            proof {
                lemma_zero_iff_empty(rest);
                assert forall|j: int| lo <= j < 64 implies !bit(bitboard, j) by {
                    assert(!bit(rest, j));
                }
                lemma_set_hash_skip(*keys, i as int, bitboard, lo, 64);
            }
            hash = hash ^ set;
            i += 1;
        }
        hash = hash ^ keys.castling_key(game.castling_rights.as_u8());
        if game.en_passant != 0 {
            let ep_file: u8 = get_en_passant_file(game.en_passant);
            hash = hash ^ keys.en_passant_key(ep_file);
        } else {
            proof {
                lemma_xor_zero(hash);
            }
        }
        hash = hash ^ keys.side_key(game.side_to_move);
        hash
    }
}

proof fn bv_xor_zero(a: u64)
    by (bit_vector)
    ensures
        a ^ 0 == a,
        0 ^ a == a,
        a ^ a == 0,
{
}

/// Zero is neutral for the exclusive or, and every word is its own inverse.
pub proof fn lemma_xor_zero(a: u64)
    ensures
        a ^ 0 == a,
        0 ^ a == a,
        a ^ a == 0,
{
    bv_xor_zero(a);
}

/// Squares that the bitboard does not hold contribute nothing.
pub proof fn lemma_set_hash_skip(keys: ZobristKeys, piece: int, bitboard: u64, lo: int, hi: int)
    requires
        0 <= lo <= hi,
        forall|j: int| lo <= j < hi ==> !bit(bitboard, j),
    ensures
        set_hash(keys, piece, bitboard, hi) == set_hash(keys, piece, bitboard, lo),
    decreases hi - lo,
{
    if lo < hi {
        lemma_set_hash_skip(keys, piece, bitboard, lo, hi - 1);
    }
}


proof fn bv_xor_algebra(a: u64, b: u64, c: u64)
    by (bit_vector)
    ensures
        (a ^ b) ^ c == (a ^ c) ^ b,
        (a ^ b) ^ c == a ^ (b ^ c),
        (a ^ b) ^ b == a,
        a ^ b == b ^ a,
{
}

/// The exclusive or is associative and commutative, and applying a word
/// twice changes nothing.
pub proof fn lemma_xor_algebra(a: u64, b: u64, c: u64)
    ensures
        (a ^ b) ^ c == (a ^ c) ^ b,
        (a ^ b) ^ c == a ^ (b ^ c),
        (a ^ b) ^ b == a,
        a ^ b == b ^ a,
{
    bv_xor_algebra(a, b, c);
}

/// Changing whether a bitboard holds square `s` changes the hash of its
/// squares below `n` by the key of `s`, if `s` is below `n`.
pub proof fn lemma_set_hash_toggle(
    keys: ZobristKeys,
    piece: int,
    before: u64,
    after: u64,
    s: int,
    n: int,
)
    requires
        0 <= s < 64,
        0 <= n <= 64,
        bit(after, s) != bit(before, s),
        forall|i: int| 0 <= i < 64 && i != s ==> bit(after, i) == bit(before, i),
    ensures
        set_hash(keys, piece, after, n) == (if s < n {
            set_hash(keys, piece, before, n) ^ keys.spec_piece_key(s, piece)
        } else {
            set_hash(keys, piece, before, n)
        }),
    decreases n,
{
    if n > 0 {
        lemma_set_hash_toggle(keys, piece, before, after, s, n - 1);
        let key = keys.spec_piece_key(s, piece);
        let below = set_hash(keys, piece, before, n - 1);
        if s == n - 1 {
            lemma_xor_algebra(below, key, key);
        } else if s < n - 1 {
            lemma_xor_algebra(below, key, keys.spec_piece_key(n - 1, piece));
        }
    }
}

/// Changing whether bitboard `k0` holds square `s` changes the hash of the
/// first `k` bitboards by the key of piece `k0` on `s`, if `k0` is among
/// them.
pub proof fn lemma_pieces_hash_toggle(
    keys: ZobristKeys,
    before: Seq<u64>,
    after: Seq<u64>,
    k0: int,
    s: int,
    k: int,
)
    requires
        before.len() == 12,
        after.len() == 12,
        0 <= k0 < 12,
        0 <= s < 64,
        0 <= k <= 12,
        forall|j: int| 0 <= j < 12 && j != k0 ==> after[j] == before[j],
        bit(after[k0], s) != bit(before[k0], s),
        forall|i: int| 0 <= i < 64 && i != s ==> bit(after[k0], i) == bit(before[k0], i),
    ensures
        pieces_hash(keys, after, k) == (if k0 < k {
            pieces_hash(keys, before, k) ^ keys.spec_piece_key(s, k0)
        } else {
            pieces_hash(keys, before, k)
        }),
    decreases k,
{
    if k > 0 {
        lemma_pieces_hash_toggle(keys, before, after, k0, s, k - 1);
        let key = keys.spec_piece_key(s, k0);
        let below = pieces_hash(keys, before, k - 1);
        if k0 == k - 1 {
            lemma_set_hash_toggle(keys, k0, before[k0], after[k0], s, 64);
            lemma_xor_algebra(below, set_hash(keys, k0, before[k0], 64), key);
        } else if k0 < k - 1 {
            lemma_xor_algebra(below, key, set_hash(keys, k - 1, before[k - 1], 64));
        }
    }
}

/// Putting a piece on a square where it does not stand adds its key to the
/// hash of the pieces.
pub proof fn lemma_hash_with_piece(keys: ZobristKeys, p: Seq<u64>, k: int, s: int)
    requires
        p.len() == 12,
        0 <= k < 12,
        0 <= s < 64,
        !bit(p[k], s),
    ensures
        pieces_hash(keys, with_piece(p, k, s), 12) == pieces_hash(keys, p, 12)
            ^ keys.spec_piece_key(s, k),
{
    lemma_with_piece(p, k, s);
    let q = with_piece(p, k, s);
    assert(bit(q[k], s));
    lemma_pieces_hash_toggle(keys, p, q, k, s, 12);
}

/// Taking a piece off the square where it stands adds its key to the hash
/// of the pieces.
pub proof fn lemma_hash_without_piece(keys: ZobristKeys, p: Seq<u64>, k: int, s: int)
    requires
        p.len() == 12,
        0 <= k < 12,
        0 <= s < 64,
        bit(p[k], s),
    ensures
        pieces_hash(keys, without_piece(p, k, s), 12) == pieces_hash(keys, p, 12)
            ^ keys.spec_piece_key(s, k),
{
    lemma_without_piece(p, k, s);
    let q = without_piece(p, k, s);
    assert(!bit(q[k], s));
    lemma_pieces_hash_toggle(keys, p, q, k, s, 12);
}

/// The hash after a move with effect `e`, computed from the hash `key`
/// before it: the keys of the pieces that leave and arrive are toggled, the
/// key of the old castling rights is exchanged for that of the new, the
/// en-passant key likewise, and the keys of both sides are toggled.
pub open spec fn incremental_hash(
    keys: ZobristKeys,
    key: u64,
    rights: int,
    en_passant: u8,
    e: MoveEffect,
) -> u64 {
    let h1 = match e.captured {
        Some((victim, square)) => key ^ keys.spec_piece_key(
            square as int,
            spec_piece_index(victim, e.side.other()),
        ),
        None => key,
    };
    let h2 = h1 ^ keys.spec_piece_key(e.from as int, spec_piece_index(e.mover, e.side));
    let h3 = h2 ^ keys.spec_piece_key(e.to as int, spec_piece_index(e.placed, e.side));
    let h4 = match e.rook {
        Some((rook_from, rook_to)) => (h3 ^ keys.spec_piece_key(
            rook_from as int,
            spec_piece_index(PieceType::Rook, e.side),
        )) ^ keys.spec_piece_key(rook_to as int, spec_piece_index(PieceType::Rook, e.side)),
        None => h3,
    };
    let h5 = (h4 ^ keys.spec_castling_key(rights)) ^ keys.spec_castling_key(e.rights.spec_bits());
    let h6 = (h5 ^ en_passant_hash(keys, en_passant)) ^ en_passant_hash(keys, e.en_passant);
    (h6 ^ keys.spec_side_key(Side::White)) ^ keys.spec_side_key(Side::Black)
}

impl Zobrist {
    /// The hash that `game` will have after `mv`, computed from the hash
    /// that it has before, or why `mv` cannot be applied to `game`.
    pub fn incremental_update(keys: &ZobristKeys, game: &Gamestate, mv: Move) -> (r: Result<
        u64,
        MoveError,
    >)
        ensures
            match effect_of(*game, mv) {
                Ok(e) => r == Ok::<u64, MoveError>(
                    incremental_hash(
                        *keys,
                        game.zobrist_key,
                        game.castling_rights.spec_bits(),
                        game.en_passant,
                        e,
                    ),
                ),
                Err(error) => r == Err::<u64, MoveError>(error),
            },
    {
        match game.analyse_move(mv) {
            Ok(effect) => Ok(Self::updated_hash(keys, game, &effect)),
            Err(error) => Err(error),
        }
    }

    /// The hash after a move with effect `effect` on `game`, computed from
    /// the hash before it.
    pub fn updated_hash(keys: &ZobristKeys, game: &Gamestate, effect: &MoveEffect) -> (hash: u64)
        requires
            effect.from < 64,
            effect.to < 64,
            effect.captured matches Some((_, square)) ==> square < 64,
            effect.rook matches Some((rook_from, rook_to)) ==> rook_from < 64 && rook_to < 64,
        ensures
            hash == incremental_hash(
                *keys,
                game.zobrist_key,
                game.castling_rights.spec_bits(),
                game.en_passant,
                *effect,
            ),
    {
        let side: Side = effect.side;
        let mut hash: u64 = game.zobrist_key;
        match effect.captured {
            Some((victim, square)) => {
                hash = hash ^ keys.piece_key(
                    Square::new(square),
                    Board::piece_index(victim, side.opponent()),
                );
            },
            None => {},
        }
        hash = hash ^ keys.piece_key(
            Square::new(effect.from),
            Board::piece_index(effect.mover, side),
        );
        hash = hash ^ keys.piece_key(Square::new(effect.to), Board::piece_index(effect.placed, side));
        match effect.rook {
            Some((rook_from, rook_to)) => {
                let rook: usize = Board::piece_index(PieceType::Rook, side);
                hash = hash ^ keys.piece_key(Square::new(rook_from), rook);
                hash = hash ^ keys.piece_key(Square::new(rook_to), rook);
            },
            None => {},
        }
        hash = hash ^ keys.castling_key(game.castling_rights.as_u8());
        hash = hash ^ keys.castling_key(effect.rights.as_u8());
        if game.en_passant != 0 {
            hash = hash ^ keys.en_passant_key(get_en_passant_file(game.en_passant));
        } else {
            proof {
                lemma_xor_zero(hash);
            }
        }
        if effect.en_passant != 0 {
            hash = hash ^ keys.en_passant_key(get_en_passant_file(effect.en_passant));
        } else {
            proof {
                lemma_xor_zero(hash);
            }
        }
        hash = hash ^ keys.side_key(Side::White);
        hash = hash ^ keys.side_key(Side::Black);
        hash
    }
}


proof fn bv_incremental(
    pp: u64,
    c: u64,
    e: u64,
    s: u64,
    k1: u64,
    k2: u64,
    k3: u64,
    k4: u64,
    k5: u64,
    c2: u64,
    e2: u64,
    s2: u64,
)
    by (bit_vector)
    ensures
        (((((((((((((((pp ^ c) ^ e) ^ s) ^ k1) ^ k2) ^ k3) ^ k4) ^ k5) ^ c) ^ c2) ^ e) ^ e2) ^ s)
            ^ s2)) == (((((((((pp ^ k1) ^ k2) ^ k3) ^ k4) ^ k5) ^ c2) ^ e2) ^ s2)),
        (((((((((((((((pp ^ c) ^ e) ^ s) ^ k1) ^ k2) ^ k3) ^ k4) ^ k5) ^ c) ^ c2) ^ e) ^ e2) ^ s2)
            ^ s)) == (((((((((pp ^ k1) ^ k2) ^ k3) ^ k4) ^ k5) ^ c2) ^ e2) ^ s2)),
{
}

/// The incremental update agrees with hashing from scratch: for a position
/// whose hash is `position_hash` of its parts and a move that can be applied
/// to it, `incremental_hash` is `position_hash` of the parts after the move.
pub proof fn lemma_incremental_hash(
    keys: ZobristKeys,
    p: Seq<u64>,
    side: Side,
    rights: CastlingRights,
    en_passant: u8,
    from: int,
    to: int,
    flags: MoveFlags,
)
    requires
        valid_pieces(p),
        0 <= from < 64,
        0 <= to < 64,
        effect_on(p, side, rights, from, to, flags) is Ok,
    ensures
        ({
            let e = effect_on(p, side, rights, from, to, flags)->Ok_0;
            incremental_hash(
                keys,
                position_hash(keys, p, side, rights.spec_bits(), en_passant),
                rights.spec_bits(),
                en_passant,
                e,
            ) == position_hash(
                keys,
                pieces_after(p, e),
                side.other(),
                e.rights.spec_bits(),
                e.en_passant,
            )
        }),
{
    let e = effect_on(p, side, rights, from, to, flags)->Ok_0;
    lemma_effect_on(p, side, rights, from, to, flags);
    let mover = spec_piece_index(e.mover, side);
    let placed = spec_piece_index(e.placed, side);
    let rook = spec_piece_index(PieceType::Rook, side);
    let pp = pieces_hash(keys, p, 12);
    let c = keys.spec_castling_key(rights.spec_bits());
    let ep = en_passant_hash(keys, en_passant);
    let s = keys.spec_side_key(side);
    let c2 = keys.spec_castling_key(e.rights.spec_bits());
    let ep2 = en_passant_hash(keys, e.en_passant);
    let s2 = keys.spec_side_key(side.other());
    let key = position_hash(keys, p, side, rights.spec_bits(), en_passant);
    // The taken piece.
    let k1 = match e.captured {
        Some((victim, square)) => keys.spec_piece_key(
            square as int,
            spec_piece_index(victim, side.other()),
        ),
        None => 0u64,
    };
    let taken = match e.captured {
        Some((victim, square)) => without_piece(
            p,
            spec_piece_index(victim, side.other()),
            square as int,
        ),
        None => p,
    };
    lemma_xor_zero(key);
    lemma_xor_zero(pp);
    match e.captured {
        Some((victim, square)) => {
            let k = spec_piece_index(victim, side.other());
            lemma_hash_without_piece(keys, p, k, square as int);
            lemma_without_piece(p, k, square as int);
            lemma_occupant(p, k, square as int);
        },
        None => {},
    }
    assert(pieces_hash(keys, taken, 12) == pp ^ k1);
    // The moving piece leaves and arrives.
    let k2 = keys.spec_piece_key(from, mover);
    let k3 = keys.spec_piece_key(to, placed);
    let lifted = without_piece(taken, mover, from);
    lemma_occupant(p, mover, from);
    lemma_hash_without_piece(keys, taken, mover, from);
    lemma_without_piece(taken, mover, from);
    let landed = with_piece(lifted, placed, to);
    assert(!bit(lifted[placed], to)) by {
        if bit(lifted[placed], to) {
            assert(bit(taken[placed], to));
            assert(bit(p[placed], to));
            lemma_occupant(p, placed, to);
        }
    }
    lemma_hash_with_piece(keys, lifted, placed, to);
    lemma_with_piece(lifted, placed, to);
    assert(pieces_hash(keys, landed, 12) == ((pp ^ k1) ^ k2) ^ k3);
    // The rook of a castling move.
    let k4 = match e.rook {
        Some((rook_from, rook_to)) => keys.spec_piece_key(rook_from as int, rook),
        None => 0u64,
    };
    let k5 = match e.rook {
        Some((rook_from, rook_to)) => keys.spec_piece_key(rook_to as int, rook),
        None => 0u64,
    };
    lemma_xor_zero(((pp ^ k1) ^ k2) ^ k3);
    lemma_xor_zero((((pp ^ k1) ^ k2) ^ k3) ^ k4);
    lemma_xor_zero(((key ^ k1) ^ k2) ^ k3);
    lemma_xor_zero((((key ^ k1) ^ k2) ^ k3) ^ k4);
    match e.rook {
        Some((rook_from, rook_to)) => {
            let rook_lifted = without_piece(landed, rook, rook_from as int);
            assert(bit(landed[rook], rook_from as int));
            lemma_hash_without_piece(keys, landed, rook, rook_from as int);
            lemma_without_piece(landed, rook, rook_from as int);
            assert(!bit(rook_lifted[rook], rook_to as int)) by {
                if bit(rook_lifted[rook], rook_to as int) {
                    assert(bit(p[rook], rook_to as int));
                }
            }
            lemma_hash_with_piece(keys, rook_lifted, rook, rook_to as int);
        },
        None => {},
    }
    assert(pieces_hash(keys, pieces_after(p, e), 12) == ((((pp ^ k1) ^ k2) ^ k3) ^ k4) ^ k5);
    bv_incremental(pp, c, ep, s, k1, k2, k3, k4, k5, c2, ep2, s2);
}


proof fn bv_toggle_twice(
    h: u64,
    k1: u64,
    k2: u64,
    k3: u64,
    k4: u64,
    k5: u64,
    c: u64,
    c2: u64,
    e: u64,
    e2: u64,
    s: u64,
    s2: u64,
)
    by (bit_vector)
    ensures
        ({
            let g = ((((((((((h ^ k1) ^ k2) ^ k3) ^ k4) ^ k5) ^ c) ^ c2) ^ e) ^ e2) ^ s) ^ s2;
            ((((((((((g ^ k1) ^ k2) ^ k3) ^ k4) ^ k5) ^ c) ^ c2) ^ e) ^ e2) ^ s) ^ s2 == h
        }),
{
}

/// Updating a hash twice with the same effect, from the same castling
/// rights and en-passant value, gives the hash back: this is how a move is
/// taken back.
pub proof fn lemma_incremental_hash_reverts(
    keys: ZobristKeys,
    key: u64,
    rights: int,
    en_passant: u8,
    e: MoveEffect,
)
    ensures
        incremental_hash(
            keys,
            incremental_hash(keys, key, rights, en_passant, e),
            rights,
            en_passant,
            e,
        ) == key,
{
    let side = e.side;
    let k1 = match e.captured {
        Some((victim, square)) => keys.spec_piece_key(
            square as int,
            spec_piece_index(victim, side.other()),
        ),
        None => 0u64,
    };
    let k2 = keys.spec_piece_key(e.from as int, spec_piece_index(e.mover, side));
    let k3 = keys.spec_piece_key(e.to as int, spec_piece_index(e.placed, side));
    let rook = spec_piece_index(PieceType::Rook, side);
    let k4 = match e.rook {
        Some((rook_from, rook_to)) => keys.spec_piece_key(rook_from as int, rook),
        None => 0u64,
    };
    let k5 = match e.rook {
        Some((rook_from, rook_to)) => keys.spec_piece_key(rook_to as int, rook),
        None => 0u64,
    };
    let c = keys.spec_castling_key(rights);
    let c2 = keys.spec_castling_key(e.rights.spec_bits());
    let ep = en_passant_hash(keys, en_passant);
    let ep2 = en_passant_hash(keys, e.en_passant);
    let s = keys.spec_side_key(Side::White);
    let s2 = keys.spec_side_key(Side::Black);
    let once = incremental_hash(keys, key, rights, en_passant, e);
    lemma_xor_zero(key);
    lemma_xor_zero(((key ^ k1) ^ k2) ^ k3);
    lemma_xor_zero((((key ^ k1) ^ k2) ^ k3) ^ k4);
    assert(once == ((((((((((key ^ k1) ^ k2) ^ k3) ^ k4) ^ k5) ^ c) ^ c2) ^ ep) ^ ep2) ^ s) ^ s2);
    lemma_xor_zero(once);
    lemma_xor_zero(((once ^ k1) ^ k2) ^ k3);
    lemma_xor_zero((((once ^ k1) ^ k2) ^ k3) ^ k4);
    bv_toggle_twice(key, k1, k2, k3, k4, k5, c, c2, ep, ep2, s, s2);
}

} // verus!
