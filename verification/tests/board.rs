use tuning::{
    parse_fen, Bitboard, Board, Castling, CastlingKind, Color, InvalidInput, Piece, Square,
};

const START: &str = "rnbqkbnr/pppppppp/8/8/8/8/PPPPPPPP/RNBQKBNR w KQkq - 0 1";

#[test]
fn start_position_has_sixteen_pieces_a_side() {
    let board = Board::new(START);
    assert_eq!(board.colors[Color::White.index()].count(), 16);
    assert_eq!(board.colors[Color::Black.index()].count(), 16);
    assert_eq!(board.colors[0], Bitboard(0x0000_0000_0000_ffff));
    assert_eq!(board.colors[1], Bitboard(0xffff_0000_0000_0000));
}

#[test]
fn start_position_kinds() {
    let board = Board::new(START);
    assert_eq!(board.pieces(Piece::Pawn), Bitboard(0x00ff_0000_0000_ff00));
    assert_eq!(board.pieces(Piece::Knight), Bitboard(0x4200_0000_0000_0042));
    assert_eq!(board.pieces(Piece::Bishop), Bitboard(0x2400_0000_0000_0024));
    assert_eq!(board.pieces(Piece::Rook), Bitboard(0x8100_0000_0000_0081));
    assert_eq!(board.pieces(Piece::Queen), Bitboard(0x0800_0000_0000_0008));
    assert_eq!(board.pieces(Piece::King), Bitboard(0x1000_0000_0000_0010));
    assert_eq!(board.of(Piece::King, Color::White), Bitboard(0x10));
    assert_eq!(board.of(Piece::King, Color::Black), Bitboard(0x1000_0000_0000_0000));
    assert_eq!(board.turn, Color::White);
    assert_eq!(board.en_passant, None);
    assert_eq!(board.castling, Castling(0b1111));
}

#[test]
fn the_twelve_sets_part_the_occupied_squares() {
    let fens = [
        START,
        "r1b2rk1/1pq2pbp/3p1np1/2p1n3/NPP1p3/P3P3/1BQPBPPP/R1N2RK1 b - - 0 1",
        "1r4k1/6p1/7p/4p3/R7/3rPNP1/1b3P1P/5RK1 b - - 0 1",
    ];
    for fen in fens {
        let board = Board::new(fen);
        let mut seen = 0u64;
        for p in 0..6 {
            for c in [Color::White, Color::Black] {
                let set = board.of(Piece::from_index(p), c).0;
                assert_eq!(seen & set, 0);
                seen |= set;
            }
        }
        assert_eq!(seen, board.colors[0].0 | board.colors[1].0);
        let mut kinds = 0u64;
        for p in 0..6 {
            kinds |= board.pieces[p].0;
        }
        assert_eq!(seen, kinds);
    }
}

#[test]
fn pieces_stand_where_the_placement_puts_them() {
    let board = Board::new("1r4k1/6p1/7p/4p3/R7/3rPNP1/1b3P1P/5RK1 b - e6 0 1");
    assert_eq!(board.get_piece(Square::parse("b8").unwrap()), Some(Piece::Rook));
    assert_eq!(board.get_piece(Square::parse("g8").unwrap()), Some(Piece::King));
    assert_eq!(board.get_piece(Square::parse("a4").unwrap()), Some(Piece::Rook));
    assert_eq!(board.get_piece(Square::parse("f3").unwrap()), Some(Piece::Knight));
    assert_eq!(board.get_piece(Square::parse("b2").unwrap()), Some(Piece::Bishop));
    assert_eq!(board.get_piece(Square::parse("a1").unwrap()), None);
    assert!(board.of(Piece::Rook, Color::White).contains(Square::parse("a4").unwrap()));
    assert!(board.of(Piece::Rook, Color::Black).contains(Square::parse("d3").unwrap()));
    assert!(!board.of(Piece::Rook, Color::White).contains(Square::parse("d3").unwrap()));
    assert_eq!(board.turn, Color::Black);
    assert_eq!(board.en_passant, Some(Square(44)));
    assert_eq!(board.castling, Castling(0));
    assert_eq!(board.colors[0].count() + board.colors[1].count(), 15);
}

#[test]
fn phase_is_full_at_the_start() {
    assert_eq!(Board::new(START).phase, 24);
}

#[test]
fn phase_is_zero_with_kings_and_pawns() {
    assert_eq!(Board::new("4k3/pppppppp/8/8/8/8/PPPPPPPP/4K3 w - - 0 1").phase, 0);
    assert_eq!(Board::new("4k3/8/8/8/8/8/8/4K3 w - -").phase, 0);
}

#[test]
fn phase_counts_the_pieces_by_weight() {
    assert_eq!(Board::new("4k3/8/8/8/8/8/8/1N2K3 w - -").phase, 1);
    assert_eq!(Board::new("4k3/8/8/8/8/8/8/2B1K3 w - -").phase, 1);
    assert_eq!(Board::new("4k3/8/8/8/8/8/8/R3K3 w - -").phase, 2);
    assert_eq!(Board::new("3qk3/8/8/8/8/8/8/4K3 w - -").phase, 4);
    assert_eq!(Board::new("r1b2rk1/1pq2pbp/3p1np1/2p1n3/NPP1p3/P3P3/1BQPBPPP/R1N2RK1 b - -").phase, 24);
}

#[test]
fn phase_passes_the_full_phase_with_promoted_queens() {
    assert_eq!(Board::new("rnbqkbnr/pppppppp/8/8/8/8/PPPPPPPQ/RNBQKBNR w KQkq - 0 1").phase, 28);
}

#[test]
fn fields_may_be_parted_by_any_white_space() {
    let plain = Board::new(START);
    let spaced = Board::new("  rnbqkbnr/pppppppp/8/8/8/8/PPPPPPPP/RNBQKBNR \t w\u{2003}KQkq\n-   0 1 ");
    assert_eq!(plain.pieces, spaced.pieces);
    assert_eq!(plain.colors, spaced.colors);
    assert_eq!(plain.castling, spaced.castling);
    assert_eq!(plain.turn, spaced.turn);
}

#[test]
fn counters_after_the_fourth_field_are_not_read() {
    let a = parse_fen("4k3/8/8/8/8/8/8/4K3 b - - 0 1").unwrap();
    let b = parse_fen("4k3/8/8/8/8/8/8/4K3 b - - what ever").unwrap();
    let c = parse_fen("4k3/8/8/8/8/8/8/4K3 b - -").unwrap();
    assert_eq!(a.pieces, b.pieces);
    assert_eq!(a.pieces, c.pieces);
    assert_eq!(a.turn, Color::Black);
}

#[test]
fn a_fen_with_fewer_than_four_fields_is_refused() {
    assert_eq!(parse_fen("").err(), Some(InvalidInput::MissingField));
    assert_eq!(parse_fen("8/8/8/8/8/8/8/8 w -").err(), Some(InvalidInput::MissingField));
    assert_eq!(parse_fen("x y z").err(), Some(InvalidInput::MissingField));
}

#[test]
fn an_unknown_piece_letter_is_refused() {
    assert_eq!(parse_fen("8/8/8/8/8/8/8/4X3 w - -").err(), Some(InvalidInput::Placement));
    assert_eq!(parse_fen("8/8/8/8/8/8/8/4-3 w - -").err(), Some(InvalidInput::Placement));
}

#[test]
fn a_piece_past_the_last_file_is_refused() {
    assert_eq!(parse_fen("ppppppppp/8/8/8/8/8/8/8 w - -").err(), Some(InvalidInput::Placement));
    assert_eq!(parse_fen("8p/8/8/8/8/8/8/8 w - -").err(), Some(InvalidInput::Placement));
    assert_eq!(parse_fen("7p/8/8/8/8/8/8/8 w - -").err(), None);
}

#[test]
fn a_ninth_rank_is_refused() {
    assert_eq!(parse_fen("8/8/8/8/8/8/8/8/8 w - -").err(), Some(InvalidInput::Placement));
}

#[test]
fn skips_may_run_past_the_last_file() {
    let board = parse_fen("99/p w - -").unwrap();
    assert_eq!(board.pieces(Piece::Pawn), Bitboard(1 << 48));
}

#[test]
fn unknown_turn_is_refused() {
    assert_eq!(parse_fen("8/8/8/8/8/8/8/8 x - -").err(), Some(InvalidInput::Turn));
    assert_eq!(parse_fen("8/8/8/8/8/8/8/8 W - -").err(), Some(InvalidInput::Turn));
    assert_eq!(parse_fen("8/8/8/8/8/8/8/8 wb - -").err(), Some(InvalidInput::Turn));
}

#[test]
fn unknown_castling_letter_is_refused() {
    assert_eq!(parse_fen("8/8/8/8/8/8/8/8 w KQx -").err(), Some(InvalidInput::Castling));
}

#[test]
fn unreadable_en_passant_square_is_refused() {
    assert_eq!(parse_fen("8/8/8/8/8/8/8/8 w - e9").err(), Some(InvalidInput::EnPassant));
    assert_eq!(parse_fen("8/8/8/8/8/8/8/8 w - e").err(), Some(InvalidInput::EnPassant));
    assert_eq!(parse_fen("8/8/8/8/8/8/8/8 w - --").err(), Some(InvalidInput::EnPassant));
    assert_eq!(parse_fen("8/8/8/8/8/8/8/8 w - e3").unwrap().en_passant, Some(Square(20)));
}

#[test]
fn the_first_fault_is_the_one_reported() {
    assert_eq!(parse_fen("8/8/8/8/8/8/8/4X3 x KQx e9").err(), Some(InvalidInput::Placement));
    assert_eq!(parse_fen("8/8/8/8/8/8/8/8 x KQx e9").err(), Some(InvalidInput::Turn));
    assert_eq!(parse_fen("8/8/8/8/8/8/8/8 w KQx e9").err(), Some(InvalidInput::Castling));
}

#[test]
fn castling_rights_are_read_letter_by_letter() {
    let c = Castling::parse("Kq").unwrap();
    assert!(c.is_allowed(CastlingKind::WhiteShort));
    assert!(!c.is_allowed(CastlingKind::WhiteLong));
    assert!(!c.is_allowed(CastlingKind::BlackShort));
    assert!(c.is_allowed(CastlingKind::BlackLong));
    assert_eq!(c, Castling(0b1001));
    assert_eq!(Castling::parse("-"), Some(Castling(0)));
    assert_eq!(Castling::parse(""), Some(Castling(0)));
    assert_eq!(Castling::parse("KQkq"), Some(Castling(0b1111)));
    assert_eq!(Castling::parse("qqq"), Some(Castling(0b1000)));
    assert_eq!(Castling::parse("KQx"), None);
}

#[test]
fn allowing_a_castling_move_sets_its_bit() {
    let mut c = Castling::default();
    assert!(!c.is_allowed(CastlingKind::BlackShort));
    c.allow(CastlingKind::BlackShort);
    assert_eq!(c, Castling(0b0100));
    assert!(c.is_allowed(CastlingKind::BlackShort));
    assert!(!c.is_allowed(CastlingKind::WhiteShort));
    c.allow(CastlingKind::WhiteLong);
    c.allow(CastlingKind::WhiteLong);
    assert_eq!(c, Castling(0b0110));
    assert_eq!(CastlingKind::WhiteShort.bit(), 1);
    assert_eq!(CastlingKind::WhiteLong.bit(), 2);
    assert_eq!(CastlingKind::BlackShort.bit(), 4);
    assert_eq!(CastlingKind::BlackLong.bit(), 8);
}

#[test]
fn squares_in_algebraic_notation() {
    assert_eq!(Square::parse("a1"), Some(Square(0)));
    assert_eq!(Square::parse("h1"), Some(Square(7)));
    assert_eq!(Square::parse("a8"), Some(Square(56)));
    assert_eq!(Square::parse("h8"), Some(Square(63)));
    assert_eq!(Square::parse("E3"), Some(Square(20)));
    assert_eq!(Square::parse("e3 and more"), Some(Square(20)));
    assert_eq!(Square::parse("i1"), None);
    assert_eq!(Square::parse("a9"), None);
    assert_eq!(Square::parse("a0"), None);
    assert_eq!(Square::parse("a"), None);
    assert_eq!(Square::parse(""), None);
    assert_eq!(Square(20).to_text(), "e3");
    assert_eq!(Square(0).to_text(), "a1");
    assert_eq!(Square(63).to_text(), "h8");
}

#[test]
fn squares_by_rank_and_file() {
    assert_eq!(Square::from_rank_file(0, 0), Square(0));
    assert_eq!(Square::from_rank_file(0, 7), Square(7));
    assert_eq!(Square::from_rank_file(1, 0), Square(8));
    assert_eq!(Square::from_rank_file(7, 7), Square(63));
    assert_eq!(Square::from_index(42), Square(42));
    assert_eq!(Square::NUM, 64);
}

#[test]
fn flipping_a_square_changes_its_rank_only() {
    assert_eq!(Square(0).flip(), Square(56));
    assert_eq!(Square(4).flip(), Square(60));
    assert_eq!(Square(63).flip(), Square(7));
    for s in 0..64u8 {
        assert_eq!(Square(s).flip().flip(), Square(s));
        assert_eq!(Square(s).flip().0 % 8, s % 8);
        assert_eq!(Square(s).flip().0 / 8, 7 - s / 8);
    }
}

#[test]
fn bitboard_holds_what_was_set() {
    let mut b = Bitboard::empty();
    assert!(b.is_empty());
    assert!(!b.is_not_empty());
    assert_eq!(b.count(), 0);
    b.set(Square(0));
    b.set(Square(63));
    b.set(Square(17));
    b.set(Square(17));
    assert_eq!(b, Bitboard(0x8000_0000_0002_0001));
    assert!(!b.is_empty());
    assert!(b.is_not_empty());
    assert_eq!(b.count(), 3);
    assert!(b.contains(Square(17)));
    assert!(!b.contains(Square(18)));
    b.clear(Square(17));
    b.clear(Square(5));
    assert_eq!(b, Bitboard(0x8000_0000_0000_0001));
    assert_eq!(b.count(), 2);
    assert_eq!(Bitboard(u64::MAX).count(), 64);
}

#[test]
fn bitboard_pops_the_lowest_square_first() {
    let mut b = Bitboard(0b1010_0100);
    assert_eq!(b.pop(), Some(Square(2)));
    assert_eq!(b, Bitboard(0b1010_0000));
    assert_eq!(b.pop(), Some(Square(5)));
    assert_eq!(b.pop(), Some(Square(7)));
    assert_eq!(b.pop(), None);
    assert_eq!(b, Bitboard(0));
    let mut top = Bitboard(1 << 63);
    assert_eq!(top.pop(), Some(Square(63)));
    assert_eq!(top.pop(), None);
}

#[test]
fn bitboard_lists_its_squares_in_ascending_order() {
    assert_eq!(Bitboard(0).squares(), vec![]);
    assert_eq!(Bitboard(0b1010_0100).squares(), vec![Square(2), Square(5), Square(7)]);
    assert_eq!(Bitboard(u64::MAX).squares().len(), 64);
    let board = Bitboard(0x8000_0000_0002_0001);
    assert_eq!(board.squares(), vec![Square(0), Square(17), Square(63)]);
    assert_eq!(board, Bitboard(0x8000_0000_0002_0001));
}

#[test]
fn bitboards_combine_as_sets() {
    let a = Bitboard(0b1100);
    let b = Bitboard(0b1010);
    assert_eq!(a.intersect(b), Bitboard(0b1000));
    assert_eq!(a.union(b), Bitboard(0b1110));
    assert_eq!(a.complement(), Bitboard(!0b1100u64));
}

#[test]
fn pieces_come_and_go_in_both_sets() {
    let mut board = Board::default();
    assert_eq!(board.turn, Color::White);
    assert_eq!(board.phase, 0);
    board.add_piece(Piece::Knight, Color::Black, Square(18));
    assert_eq!(board.pieces(Piece::Knight), Bitboard(1 << 18));
    assert_eq!(board.colors[1], Bitboard(1 << 18));
    assert_eq!(board.colors[0], Bitboard(0));
    assert_eq!(board.of(Piece::Knight, Color::Black), Bitboard(1 << 18));
    assert_eq!(board.of(Piece::Knight, Color::White), Bitboard(0));
    assert_eq!(board.get_piece(Square(18)), Some(Piece::Knight));
    assert_eq!(board.material_phase(), 1);
    board.remove_piece(Piece::Knight, Color::Black, Square(18));
    assert_eq!(board.pieces(Piece::Knight), Bitboard(0));
    assert_eq!(board.colors[1], Bitboard(0));
    assert_eq!(board.get_piece(Square(18)), None);
}

#[test]
fn piece_kinds_by_ordinal_and_letter() {
    let kinds = [Piece::Pawn, Piece::Knight, Piece::Bishop, Piece::Rook, Piece::Queen, Piece::King];
    for (i, kind) in kinds.iter().enumerate() {
        assert_eq!(kind.index(), i);
        assert_eq!(Piece::from_index(i), *kind);
    }
    assert_eq!(Piece::NUM, 6);
    assert_eq!(Color::NUM, 2);
    assert_eq!(Piece::from_char('p'), Some(Piece::Pawn));
    assert_eq!(Piece::from_char('N'), Some(Piece::Knight));
    assert_eq!(Piece::from_char('b'), Some(Piece::Bishop));
    assert_eq!(Piece::from_char('R'), Some(Piece::Rook));
    assert_eq!(Piece::from_char('q'), Some(Piece::Queen));
    assert_eq!(Piece::from_char('K'), Some(Piece::King));
    assert_eq!(Piece::from_char('x'), None);
    assert_eq!(Piece::from_char('1'), None);
    assert_eq!(Color::White.opposite(), Color::Black);
    assert_eq!(Color::Black.opposite(), Color::White);
    assert_eq!(Color::default(), Color::White);
}
