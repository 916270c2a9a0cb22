use tuning::index::{
    IDX_MATERIAL_EG, IDX_MATERIAL_MG, IDX_PSQT_EG, IDX_PSQT_MG, SIZE_FEATURES, SIZE_MATERIAL_EG,
    SIZE_MATERIAL_MG, SIZE_PSQT_EG, SIZE_PSQT_MG,
};
use tuning::{
    book_parser, epd_parser, file_format, get_weights, Board, Feature, Format, InvalidInput, Outcome,
    Position,
};

const START: &str = "rnbqkbnr/pppppppp/8/8/8/8/PPPPPPPP/RNBQKBNR w KQkq - 0 1";

fn features_of(fen: &str) -> Vec<Feature> {
    Position::new(Board::new(fen), Outcome::Draw).features
}

#[test]
fn the_weight_vector_has_four_regions() {
    assert_eq!(IDX_MATERIAL_MG, 0);
    assert_eq!(SIZE_MATERIAL_MG, 5);
    assert_eq!(IDX_MATERIAL_EG, 5);
    assert_eq!(SIZE_MATERIAL_EG, 10);
    assert_eq!(IDX_PSQT_MG, 10);
    assert_eq!(SIZE_PSQT_MG, 394);
    assert_eq!(IDX_PSQT_EG, 394);
    assert_eq!(SIZE_PSQT_EG, 778);
    assert_eq!(SIZE_FEATURES, 778);
}

#[test]
fn the_start_position_has_no_material_feature() {
    let board = Board::new(START);
    assert_eq!(board.colors[0].count(), 16);
    assert_eq!(board.colors[1].count(), 16);
    let position = Position::new(board, Outcome::Win);
    assert!(position.features.iter().all(|f| f.index >= IDX_PSQT_MG));
    assert_eq!(position.label, Outcome::Win);
}

#[test]
fn a_position_that_mirrors_itself_has_no_feature() {
    assert_eq!(features_of(START), vec![]);
    assert_eq!(features_of("4k3/8/8/8/8/8/8/4K3 w - -"), vec![]);
}

#[test]
fn a_pawn_up_in_the_endgame() {
    assert_eq!(
        features_of("4k3/8/8/8/8/8/4P3/4K3 w - - 0 1"),
        vec![
            Feature::new(0, 0),
            Feature::new(24, 5),
            Feature::new(0, 22),
            Feature::new(24, 406),
        ]
    );
}

#[test]
fn a_queen_up_weighs_by_phase() {
    assert_eq!(
        features_of("4k3/8/8/8/8/8/8/3QK3 w - -"),
        vec![
            Feature::new(4, 4),
            Feature::new(20, 9),
            Feature::new(4, 269),
            Feature::new(20, 653),
        ]
    );
}

#[test]
fn mirroring_negates_the_coefficients() {
    let pairs = [
        ("4k3/8/8/8/8/8/8/3QK3 w - -", "3qk3/8/8/8/8/8/8/4K3 b - -"),
        (
            "r1b2rk1/1pq2pbp/3p1np1/2p1n3/NPP1p3/P3P3/1BQPBPPP/R1N2RK1 b - -",
            "r1n2rk1/1bqpbppp/p3p3/npp1P3/2P1N3/3P1NP1/1PQ2PBP/R1B2RK1 w - -",
        ),
        (
            "1r4k1/6p1/7p/4p3/R7/3rPNP1/1b3P1P/5RK1 b - -",
            "5rk1/1B3p1p/3Rpnp1/r7/4P3/7P/6P1/1R4K1 w - -",
        ),
    ];
    for (fen, mirrored) in pairs {
        let a = features_of(fen);
        let b = features_of(mirrored);
        assert!(!a.is_empty());
        assert_eq!(a.len(), b.len());
        for (x, y) in a.iter().zip(b.iter()) {
            assert_eq!(x.index, y.index);
            assert_eq!(x.coefficient, -y.coefficient);
        }
    }
    assert_eq!(
        features_of("3qk3/8/8/8/8/8/8/4K3 b - -"),
        vec![
            Feature::new(-4, 4),
            Feature::new(-20, 9),
            Feature::new(-4, 269),
            Feature::new(-20, 653),
        ]
    );
}

#[test]
fn features_index_the_weight_vector() {
    let fens = [
        START,
        "r1b2rk1/1pq2pbp/3p1np1/2p1n3/NPP1p3/P3P3/1BQPBPPP/R1N2RK1 b - -",
        "1r4k1/6p1/7p/4p3/R7/3rPNP1/1b3P1P/5RK1 b - -",
        "QQQQQQQQ/QQQQQQQQ/QQQQQQQQ/QQQQQQQQ/QQQQQQQQ/QQQQQQQQ/QQQQQQQQ/QQQQQQQQ w - -",
    ];
    for fen in fens {
        let position = Position::new(Board::new(fen), Outcome::Loss);
        assert!(position.features.len() <= 778);
        assert!(position.features.iter().all(|f| f.index < 778));
        assert!(position.indexes_within(SIZE_FEATURES));
    }
}

#[test]
fn a_board_full_of_queens() {
    let fen = "QQQQQQQQ/QQQQQQQQ/QQQQQQQQ/QQQQQQQQ/QQQQQQQQ/QQQQQQQQ/QQQQQQQQ/QQQQQQQQ w - -";
    let board = Board::new(fen);
    assert_eq!(board.phase, 256);
    let features = Position::new(board, Outcome::Win).features;
    assert_eq!(features.len(), 2 + 2 * 64);
    assert_eq!(features[0], Feature::new(64 * 256, 4));
    assert_eq!(features[1], Feature::new(64 * (24 - 256), 9));
    assert_eq!(features[2], Feature::new(256, IDX_PSQT_MG + 4 * 64));
    assert_eq!(features[3], Feature::new(24 - 256, IDX_PSQT_EG + 4 * 64));
    assert_eq!(features[129], Feature::new(24 - 256, IDX_PSQT_EG + 4 * 64 + 63));
}

#[test]
fn features_come_square_by_square() {
    let features = features_of("4k3/8/8/8/8/8/8/NB2K3 w - -");
    let indices: Vec<usize> = features.iter().map(|f| f.index).collect();
    assert_eq!(indices, vec![1, 6, 2, 7, 10 + 64, 394 + 64, 10 + 128 + 1, 394 + 128 + 1]);
    let coefficients: Vec<i64> = features.iter().map(|f| f.coefficient).collect();
    assert_eq!(coefficients, vec![2, 22, 2, 22, 2, 22, 2, 22]);
}

#[test]
fn indexes_within_tells_whether_a_position_fits() {
    let position = Position { features: vec![Feature::new(1, 3), Feature::new(-1, 9)], label: Outcome::Draw };
    assert!(position.indexes_within(10));
    assert!(!position.indexes_within(9));
    let empty = Position { features: vec![], label: Outcome::Draw };
    assert!(empty.indexes_within(0));
}

#[test]
fn outcomes_in_half_points() {
    assert_eq!(Outcome::Loss.half_points(), 0);
    assert_eq!(Outcome::Draw.half_points(), 1);
    assert_eq!(Outcome::Win.half_points(), 2);
}

#[test]
fn an_epd_line_of_two_kings_is_a_draw_without_features() {
    let (board, outcome) = epd_parser("4k3/8/8/8/8/8/8/4K3 w - - c9 \"1/2-1/2\";").unwrap();
    assert_eq!(outcome, Outcome::Draw);
    let position = Position::new(board, outcome);
    assert_eq!(position.label, Outcome::Draw);
    assert!(position.features.iter().all(|f| f.index >= IDX_PSQT_MG));
    assert_eq!(position.features, vec![]);
}

#[test]
fn kings_off_the_mirror_give_one_term_each() {
    let (board, outcome) = epd_parser("4k3/8/8/8/8/8/8/3K4 w - - c9 \"1/2-1/2\";").unwrap();
    assert_eq!(outcome, Outcome::Draw);
    let position = Position::new(board, outcome);
    assert_eq!(
        position.features,
        vec![
            Feature::new(0, 333),
            Feature::new(24, 717),
            Feature::new(0, 334),
            Feature::new(-24, 718),
        ]
    );
    let live: Vec<&Feature> = position.features.iter().filter(|f| f.coefficient != 0).collect();
    assert_eq!(live.len(), 2);
}

#[test]
fn epd_lines_name_the_result() {
    let line = "r1b2rk1/1pq2pbp/3p1np1/2p1n3/NPP1p3/P3P3/1BQPBPPP/R1N2RK1 b - - c9 \"1-0\";";
    let (board, outcome) = epd_parser(line).unwrap();
    assert_eq!(outcome, Outcome::Win);
    assert_eq!(board.colors[0].count(), 16);
    assert_eq!(board.colors[1].count(), 15);
    assert_eq!(epd_parser("4k3/8/8/8/8/8/8/4K3 w - - c9 \"0-1\";").unwrap().1, Outcome::Loss);
    assert_eq!(epd_parser("4k3/8/8/8/8/8/8/4K3 w - - c9 \"1/2-1/2\";").unwrap().1, Outcome::Draw);
}

#[test]
fn epd_lines_are_refused_for_their_first_fault() {
    assert_eq!(epd_parser("4k3/8/8/8/8/8/8/4K3 w - - \"1-0\";").err(), Some(InvalidInput::Separator));
    assert_eq!(epd_parser("").err(), Some(InvalidInput::Separator));
    assert_eq!(epd_parser("4k3/8/8/8/8/8/8/4K3 w - - c9 \"2-0\";").err(), Some(InvalidInput::Label));
    assert_eq!(epd_parser("4k3/8/8/8/8/8/8/4K3 w - - c9 \"1-0\"").err(), Some(InvalidInput::Label));
    assert_eq!(epd_parser("4k3/8/8/8/8/8/8/4K3 w - - c9 \"1-0\"; ").err(), Some(InvalidInput::Label));
    assert_eq!(epd_parser("4k3/8/8/8/8/8/8/4K3 w - c9 \"1-0\";").err(), Some(InvalidInput::MissingField));
    assert_eq!(epd_parser("4k3/8/8/8/8/8/8/4Z3 w - - c9 \"1-0\";").err(), Some(InvalidInput::Placement));
    assert_eq!(epd_parser("4k3/8/8/8/8/8/8/4K3 x - - c9 \"1-0\";").err(), Some(InvalidInput::Turn));
    assert_eq!(epd_parser("4k3/8/8/8/8/8/8/4K3 w Z - c9 \"1-0\";").err(), Some(InvalidInput::Castling));
    assert_eq!(epd_parser("4k3/8/8/8/8/8/8/4K3 w - z9 c9 \"1-0\";").err(), Some(InvalidInput::EnPassant));
    assert_eq!(epd_parser("4k3/8/8/8/8/8/8/4Z3 w - - c9 \"2-0\";").err(), Some(InvalidInput::Label));
}

#[test]
fn an_epd_line_is_parted_at_the_first_separator() {
    assert_eq!(
        epd_parser("4k3/8/8/8/8/8/8/4K3 w - - c9 \"1-0\"; c9 \"0-1\";").err(),
        Some(InvalidInput::Label)
    );
    assert_eq!(epd_parser("4k3/8/8/8/8/8/8/4K3 w - - c9 c9 \"1-0\";").err(), Some(InvalidInput::Label));
}

#[test]
fn book_lines_name_the_label() {
    let (board, outcome) = book_parser("1r4k1/6p1/7p/4p3/R7/3rPNP1/1b3P1P/5RK1 b - - 0 1 [1.0]").unwrap();
    assert_eq!(outcome, Outcome::Win);
    assert_eq!(board.colors[0].count(), 8);
    assert_eq!(board.colors[1].count(), 7);
    assert_eq!(book_parser("4k3/8/8/8/8/8/8/4K3 w - - 0 1 [0.0]").unwrap().1, Outcome::Loss);
    assert_eq!(book_parser("4k3/8/8/8/8/8/8/4K3 w - - 0 1 [0.5]").unwrap().1, Outcome::Draw);
    assert_eq!(book_parser("4k3/8/8/8/8/8/8/4K3 w - - [0.5]").unwrap().1, Outcome::Draw);
}

#[test]
fn book_lines_are_refused_for_their_first_fault() {
    assert_eq!(book_parser("[1.0]").err(), Some(InvalidInput::Separator));
    assert_eq!(book_parser("").err(), Some(InvalidInput::Separator));
    assert_eq!(book_parser("4k3/8/8/8/8/8/8/4K3 w - - 0 1 [2.0]").err(), Some(InvalidInput::Label));
    assert_eq!(book_parser("4k3/8/8/8/8/8/8/4K3 w - - 0 1 [1.0] ").err(), Some(InvalidInput::Label));
    assert_eq!(book_parser("4k3/8/8/8/8/8/8/4K3 w - - 0 1 1.0").err(), Some(InvalidInput::Label));
    assert_eq!(book_parser("4k3/8/8/8/8/8/8/4K3 w - [1.0]").err(), Some(InvalidInput::MissingField));
    assert_eq!(book_parser("4k3/8/8/8/8/8/8/4K3 b x - [1.0]").err(), Some(InvalidInput::Castling));
}

#[test]
fn the_weights_start_from_the_material_values() {
    let weights = get_weights();
    assert_eq!(weights.len(), 778);
    assert_eq!(&weights[0..5], &[100, 300, 325, 500, 900]);
    assert_eq!(&weights[5..10], &[100, 300, 325, 500, 900]);
    assert!(weights[10..].iter().all(|w| *w == 10));
}

#[test]
fn the_extension_tells_the_format() {
    assert_eq!(file_format("games.epd"), Ok(Format::Epd));
    assert_eq!(file_format("data/quiet.book"), Ok(Format::Book));
    assert_eq!(file_format("book/games.epd"), Ok(Format::Epd));
    assert_eq!(file_format(".epd"), Ok(Format::Epd));
    assert_eq!(file_format("games.book.epd"), Ok(Format::Epd));
}

#[test]
fn an_unknown_extension_is_refused() {
    assert_eq!(file_format("games.txt"), Err(InvalidInput::Extension));
    assert_eq!(file_format("book"), Err(InvalidInput::Extension));
    assert_eq!(file_format("games.EPD"), Err(InvalidInput::Extension));
    assert_eq!(file_format("games.epd "), Err(InvalidInput::Extension));
    assert_eq!(file_format("epd"), Err(InvalidInput::Extension));
    assert_eq!(file_format(""), Err(InvalidInput::Extension));
}
