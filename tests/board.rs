use bitboard::board::Board;

#[test]
fn fresh_board_is_empty() {
    assert_eq!(Board::new().to_uint(), 0);
    assert_eq!(Board::default().to_uint(), 0);
}

#[test]
fn from_keeps_the_mask() {
    assert_eq!(Board::from(0xdead_beefu32).to_uint(), 0xdead_beef);
}

#[test]
fn toggle_sets_and_clears_single_squares() {
    let b = Board::new().toggle(0).unwrap();
    assert_eq!(b.to_uint(), 1);
    let b = b.toggle(5).unwrap();
    assert_eq!(b.to_uint(), 0b10_0001);
    let b = b.toggle(0).unwrap();
    assert_eq!(b.to_uint(), 0b10_0000);
}

#[test]
fn toggle_highest_square() {
    assert_eq!(Board::new().toggle(31).unwrap().to_uint(), 0x8000_0000);
}

#[test]
fn toggle_twice_restores_mask() {
    for &m in &[0u32, 1, 0x8000_0001, 0xffff_ffff, 0x1234_5678] {
        for i in 0u8..32 {
            let b = Board::from(m);
            let back = b.toggle(i).unwrap().toggle(i).unwrap();
            assert_eq!(back.to_uint(), m);
        }
    }
}

#[test]
fn toggle_flips_exactly_one_bit() {
    for &m in &[0u32, 0xffff_ffff, 0xa5a5_5a5a] {
        for i in 0u8..32 {
            let after = Board::from(m).toggle(i).unwrap().to_uint();
            assert_eq!(after ^ m, 1u32 << i);
        }
    }
}

#[test]
fn toggle_out_of_range_is_refused() {
    let b = Board::from(7);
    assert!(b.toggle(32).is_err());
    assert!(b.toggle(40).is_err());
    assert!(b.toggle(255).is_err());
    assert_eq!(b.to_uint(), 7);
}
