use rusty_chess_engine::bits::{count_subsets, deposit_bits, extract_bits, pop_lowest};
use rusty_chess_engine::gamestate::board::{Side, Square};
use rusty_chess_engine::movegen::magic_bitboards::Magic;
use rusty_chess_engine::movegen::masks::{
    generate_king_attacks, generate_knight_attacks, generate_pawn_attacks,
    generate_pawn_double_pushes, generate_pawn_single_pushes, king_attacks_from,
    knight_attacks_from, pawn_attacks_from, pawn_double_push_from, pawn_push_from, shift,
};
use rusty_chess_engine::movegen::sliders::{
    bishop_mask_from, calculate_bishop_attacks, calculate_rook_attacks, generate_bishop_masks,
    generate_rook_masks, get_bishop_attacks, get_rook_attacks, ray_attacks, ray_mask,
    rook_mask_from,
};
use rusty_chess_engine::movegen::tables::{AttackTables, SliderTable};

fn sq(name: &str) -> Square {
    Square::new_from_algebraic_notation(name).unwrap()
}

#[test]
fn shift_moves_squares_and_drops_overflow() {
    assert_eq!(shift(1, 8), 1 << 8);
    assert_eq!(shift(1 << 8, -8), 1);
    assert_eq!(shift(1 << 63, 1), 0);
    assert_eq!(shift(1, -1), 0);
    assert_eq!(shift(0xFF, 0), 0xFF);
    assert_eq!(shift(u64::MAX, 63), 1 << 63);
    assert_eq!(shift(u64::MAX, -63), 1);
}

#[test]
fn knight_attacks_do_not_wrap() {
    assert_eq!(knight_attacks_from(sq("b1")), 0x50800);
    assert_eq!(knight_attacks_from(sq("e4")), 0x284400442800);
    assert_eq!(knight_attacks_from(sq("h8")), 0x20400000000000);
    assert_eq!(knight_attacks_from(sq("a1")), 0x20400);
}

#[test]
fn king_attacks_do_not_wrap() {
    assert_eq!(king_attacks_from(sq("e1")), 0x3828);
    assert_eq!(king_attacks_from(sq("a1")), 0x302);
    assert_eq!(king_attacks_from(sq("e4")), 0x3828380000);
    assert_eq!(king_attacks_from(sq("h8")), 0x40c0000000000000);
}

#[test]
fn pawn_attacks_go_forward_for_each_side() {
    assert_eq!(pawn_attacks_from(Side::White, sq("e4")), (1 << 35) | (1 << 37));
    assert_eq!(pawn_attacks_from(Side::White, sq("a2")), 1 << 17);
    assert_eq!(pawn_attacks_from(Side::White, sq("h2")), 1 << 22);
    assert_eq!(pawn_attacks_from(Side::White, sq("e8")), 0);
    assert_eq!(pawn_attacks_from(Side::Black, sq("e5")), (1 << 27) | (1 << 29));
    assert_eq!(pawn_attacks_from(Side::Black, sq("h7")), 1 << 46);
    assert_eq!(pawn_attacks_from(Side::Black, sq("a7")), 1 << 41);
    assert_eq!(pawn_attacks_from(Side::Black, sq("e1")), 0);
}

#[test]
fn pawn_pushes_go_forward_for_each_side() {
    assert_eq!(pawn_push_from(Side::White, sq("e2")), 1 << 20);
    assert_eq!(pawn_push_from(Side::White, sq("e8")), 0);
    assert_eq!(pawn_push_from(Side::Black, sq("e7")), 1 << 44);
    assert_eq!(pawn_push_from(Side::Black, sq("e1")), 0);
    for file in 0u8..8 {
        assert_eq!(pawn_double_push_from(Side::White, file), 1 << (24 + file));
        assert_eq!(pawn_double_push_from(Side::Black, file), 1 << (32 + file));
    }
}

#[test]
fn tables_hold_the_attacks_of_each_square() {
    let tables = AttackTables::new();
    let knights = generate_knight_attacks();
    let kings = generate_king_attacks();
    let (white_attacks, black_attacks) = generate_pawn_attacks();
    let (white_pushes, black_pushes) = generate_pawn_single_pushes();
    let (white_doubles, black_doubles) = generate_pawn_double_pushes();
    for i in 0u8..64 {
        let square = Square::new(i);
        let s = i as usize;
        assert_eq!(tables.knight_attacks(square), knight_attacks_from(square));
        assert_eq!(knights[s], knight_attacks_from(square));
        assert_eq!(tables.king_attacks(square), king_attacks_from(square));
        assert_eq!(kings[s], king_attacks_from(square));
        assert_eq!(tables.pawn_attacks(Side::White, square), white_attacks[s]);
        assert_eq!(tables.pawn_attacks(Side::Black, square), black_attacks[s]);
        assert_eq!(white_attacks[s], pawn_attacks_from(Side::White, square));
        assert_eq!(black_attacks[s], pawn_attacks_from(Side::Black, square));
        assert_eq!(tables.pawn_single_push(Side::White, square), white_pushes[s]);
        assert_eq!(tables.pawn_single_push(Side::Black, square), black_pushes[s]);
        assert_eq!(white_pushes[s], pawn_push_from(Side::White, square));
        assert_eq!(black_pushes[s], pawn_push_from(Side::Black, square));
    }
    for file in 0u8..8 {
        assert_eq!(tables.pawn_double_push(Side::White, file), white_doubles[file as usize]);
        assert_eq!(tables.pawn_double_push(Side::Black, file), black_doubles[file as usize]);
        assert_eq!(white_doubles[file as usize], 1 << (24 + file));
        assert_eq!(black_doubles[file as usize], 1 << (32 + file));
    }
}

#[test]
fn rook_walks_to_the_first_blocker() {
    assert_eq!(calculate_rook_attacks(sq("d4"), 0), 0x8080808f7080808);
    let blockers = sq("a3").get_mask() | sq("c1").get_mask();
    assert_eq!(calculate_rook_attacks(sq("a1"), blockers), 0x10106);
    assert_eq!(calculate_rook_attacks(sq("a1"), u64::MAX), (1 << 1) | (1 << 8));
    // The own square does not block.
    assert_eq!(calculate_rook_attacks(sq("d4"), sq("d4").get_mask()), 0x8080808f7080808);
}

#[test]
fn bishop_walks_to_the_first_blocker() {
    assert_eq!(calculate_bishop_attacks(sq("d4"), 0), 0x8041221400142241);
    let blockers = sq("e3").get_mask() | sq("b2").get_mask();
    assert_eq!(calculate_bishop_attacks(sq("c1"), blockers), 0x100a00);
    assert_eq!(calculate_bishop_attacks(sq("a1"), u64::MAX), 1 << 9);
}

#[test]
fn single_rays() {
    assert_eq!(ray_attacks(sq("a1"), 0, 1, 0), 0x0101010101010100);
    assert_eq!(ray_attacks(sq("a1"), 1, 0, 0), 0xFE);
    assert_eq!(ray_attacks(sq("a1"), -1, 0, 0), 0);
    assert_eq!(ray_attacks(sq("a1"), 1, 1, 1 << 27), (1 << 9) | (1 << 18) | (1 << 27));
    assert_eq!(ray_attacks(sq("h8"), -1, -1, 0), 0x0040201008040201);
    assert_eq!(ray_mask(sq("a1"), 0, 1), 0x0001010101010100);
    assert_eq!(ray_mask(sq("a1"), 1, 1), 0x0040201008040200);
    assert_eq!(ray_mask(sq("g1"), 1, 0), 0);
}

#[test]
fn relevant_masks_leave_out_the_ends_of_the_rays() {
    assert_eq!(rook_mask_from(sq("a1")), 0x101010101017e);
    assert_eq!(rook_mask_from(sq("d4")), 0x8080876080800);
    assert_eq!(rook_mask_from(sq("h8")), 0x7e80808080808000);
    assert_eq!(bishop_mask_from(sq("a1")), 0x40201008040200);
    assert_eq!(bishop_mask_from(sq("d4")), 0x40221400142200);
    assert_eq!(bishop_mask_from(sq("e1")), 0x2442800);
    let rooks = generate_rook_masks();
    let bishops = generate_bishop_masks();
    let mut rook_entries = 0usize;
    let mut bishop_entries = 0usize;
    for i in 0u8..64 {
        assert_eq!(rooks[i as usize], rook_mask_from(Square::new(i)));
        assert_eq!(bishops[i as usize], bishop_mask_from(Square::new(i)));
        rook_entries += count_subsets(rooks[i as usize]);
        bishop_entries += count_subsets(bishops[i as usize]);
    }
    assert_eq!(rook_entries, 102400);
    assert_eq!(bishop_entries, 5248);
}

#[test]
fn lookup_equals_walk_for_every_relevant_blocker_set() {
    let tables = AttackTables::new();
    for i in 0u8..64 {
        let square = Square::new(i);
        let mask = rook_mask_from(square);
        let mut subset = 0u64;
        loop {
            assert_eq!(
                get_rook_attacks(&tables, square, subset),
                calculate_rook_attacks(square, subset)
            );
            subset = subset.wrapping_sub(mask) & mask;
            if subset == 0 {
                break;
            }
        }
        let mask = bishop_mask_from(square);
        let mut subset = 0u64;
        loop {
            assert_eq!(
                get_bishop_attacks(&tables, square, subset),
                calculate_bishop_attacks(square, subset)
            );
            subset = subset.wrapping_sub(mask) & mask;
            if subset == 0 {
                break;
            }
        }
    }
}

#[test]
fn lookup_equals_walk_for_arbitrary_occupancies() {
    let tables = AttackTables::new();
    let mut occupancy = 0x0123_4567_89AB_CDEFu64;
    for round in 0..2000u64 {
        occupancy = occupancy
            .wrapping_mul(6364136223846793005)
            .wrapping_add(1442695040888963407 + round);
        let square = Square::new((occupancy >> 58) as u8);
        let rook = calculate_rook_attacks(square, occupancy);
        let bishop = calculate_bishop_attacks(square, occupancy);
        assert_eq!(get_rook_attacks(&tables, square, occupancy), rook);
        assert_eq!(tables.rook_attacks(square, occupancy), rook);
        assert_eq!(get_bishop_attacks(&tables, square, occupancy), bishop);
        assert_eq!(tables.bishop_attacks(square, occupancy), bishop);
        assert_eq!(tables.queen_attacks(square, occupancy), rook | bishop);
    }
    assert_eq!(tables.queen_attacks(sq("d1"), 0xFFFF00000000FFFF), 0x1c14);
}

#[test]
fn slider_table_answers_for_its_own_kind() {
    let rook = SliderTable::new(false);
    let bishop = SliderTable::new(true);
    assert_eq!(rook.mask(sq("d4")), 0x8080876080800);
    assert_eq!(bishop.mask(sq("d4")), 0x40221400142200);
    assert_eq!(rook.attacks(sq("d4"), 0), 0x8080808f7080808);
    assert_eq!(bishop.attacks(sq("d4"), 0), 0x8041221400142241);
}

#[test]
fn extract_and_deposit_are_inverse_on_the_mask() {
    let mask = 0x0008_0808_7608_0800u64;
    assert_eq!(count_subsets(mask), 1024);
    assert_eq!(count_subsets(0), 1);
    for index in 0usize..1024 {
        let subset = deposit_bits(index, mask);
        assert_eq!(subset & !mask, 0);
        assert_eq!(extract_bits(subset, mask), index);
        assert_eq!(extract_bits(subset | !mask, mask), index);
    }
    assert_eq!(deposit_bits(0b101, 0b1110), 0b1010);
    assert_eq!(extract_bits(0b1010, 0b1110), 0b101);
    assert_eq!(extract_bits(u64::MAX, 0), 0);
    assert_eq!(deposit_bits(usize::MAX, 0xF0), 0xF0);
    let mut word = 0x8000_0000_0000_0006u64;
    assert_eq!(pop_lowest(&mut word), 1);
    assert_eq!(word, 0x8000_0000_0000_0004);
    assert_eq!(pop_lowest(&mut word), 2);
    assert_eq!(pop_lowest(&mut word), 63);
    assert_eq!(word, 0);
}

#[test]
fn magic_index_is_product_shifted_plus_offset() {
    let magic = Magic { mask: 0xFF00, shift: 60, offset: 100, nr: 0x1000_0000_0000_0000 };
    assert_eq!(magic.get_index(0x0000), 100);
    assert_eq!(magic.get_index(0x0100), 100);
    assert_eq!(magic.get_index(0x01FF), 100);
    let magic = Magic { mask: 0xFF, shift: 4, offset: 7, nr: 3 };
    assert_eq!(magic.get_index(0x1234), ((0x34u64 * 3) >> 4) as usize + 7);
    let magic = Magic { mask: u64::MAX, shift: 0, offset: 0, nr: 2 };
    assert_eq!(magic.get_index(1 << 63), 0);
    assert_eq!(Magic::default().get_index(u64::MAX), 0);
}
