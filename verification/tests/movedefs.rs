use rustic::movegen::movedefs::{
    Move, MoveList, Shift, MAX_LEGAL_MOVES, NO_CAPTURE, NO_PROMOTION,
};

#[test]
fn move_fields_sit_at_their_offsets() {
    // Pawn e2-e4 as a double step.
    let m = Move::new(5, 12, 28, NO_CAPTURE, NO_PROMOTION, false, true, false);
    let expected: u64 = 5 | (12 << 3) | (28 << 9) | (7 << 15) | (6 << 18) | (1 << 22);
    assert_eq!(m.data, expected);
    assert_eq!(m.data, 6_010_981);
}

#[test]
fn move_fields_come_back() {
    let m = Move::new(1, 63, 0, 2, 4, true, false, true);
    assert_eq!(m.piece(), 1);
    assert_eq!(m.from(), 63);
    assert_eq!(m.to(), 0);
    assert_eq!(m.captured(), 2);
    assert_eq!(m.promoted(), 4);
    assert!(m.en_passant());
    assert!(!m.double_step());
    assert!(m.castling());
}

#[test]
fn move_fields_come_back_for_every_flag() {
    for bits in 0..8u8 {
        let (e, d, c) = (bits & 1 == 1, bits & 2 == 2, bits & 4 == 4);
        let m = Move::new(7, 0, 63, 0, 7, e, d, c);
        assert_eq!(m.piece(), 7);
        assert_eq!(m.from(), 0);
        assert_eq!(m.to(), 63);
        assert_eq!(m.captured(), 0);
        assert_eq!(m.promoted(), 7);
        assert_eq!(m.en_passant(), e);
        assert_eq!(m.double_step(), d);
        assert_eq!(m.castling(), c);
    }
}

#[test]
fn move_reads_fields_of_any_word() {
    let m = Move { data: 0xFFFF_FFFF_FFFF_FFFF };
    assert_eq!(m.piece(), 7);
    assert_eq!(m.from(), 63);
    assert_eq!(m.to(), 63);
    assert_eq!(m.captured(), 7);
    assert_eq!(m.promoted(), 7);
    assert!(m.en_passant() && m.double_step() && m.castling());
    let zero = Move { data: 0 };
    assert_eq!(zero.piece(), 0);
    assert!(!zero.en_passant() && !zero.double_step() && !zero.castling());
}

#[test]
fn shift_offsets() {
    assert_eq!(Shift::Piece.bits(), 0);
    assert_eq!(Shift::FromSq.bits(), 3);
    assert_eq!(Shift::ToSq.bits(), 9);
    assert_eq!(Shift::Capture.bits(), 15);
    assert_eq!(Shift::Promotion.bits(), 18);
    assert_eq!(Shift::EnPassant.bits(), 21);
    assert_eq!(Shift::DoubleStep.bits(), 22);
    assert_eq!(Shift::Castling.bits(), 23);
}

#[test]
fn move_list_keeps_the_order() {
    let mut list = MoveList::new();
    assert_eq!(list.len(), 0);
    for i in 0..10u64 {
        list.push(Move { data: i * 3 });
    }
    assert_eq!(list.len(), 10);
    for i in 0..10u8 {
        assert_eq!(list.get_move(i).data, i as u64 * 3);
    }
    list.clear();
    assert_eq!(list.len(), 0);
}

#[test]
fn move_list_holds_its_capacity() {
    let mut list = MoveList::new();
    for i in 0..MAX_LEGAL_MOVES {
        list.push(Move { data: i as u64 });
    }
    assert_eq!(list.len(), 255);
    assert_eq!(list.get_move(254).data, 254);
    let copy = list;
    assert_eq!(copy.get_move(0).data, 0);
}
