use bitboard::board::Board;
use bitboard::command::{is_done, next_step, next_step_trimmed, parse_index, ParseFailure, Step};

fn mask_of(step: Step) -> u32 {
    match step {
        Step::Update(b) => b.to_uint(),
        Step::Finish(b) => b.to_uint(),
        other => panic!("no board in {:?}", other),
    }
}

#[test]
fn scenario_toggles_then_done() {
    let b = Board::new();
    let s = next_step(b, "0\n");
    assert!(matches!(s, Step::Update(_)));
    let b = Board::from(mask_of(s));
    assert_eq!(b.to_uint(), 1);
    let b = Board::from(mask_of(next_step(b, "31\n")));
    assert_eq!(b.to_uint(), 0x8000_0001);
    let b = Board::from(mask_of(next_step(b, "0\n")));
    assert_eq!(b.to_uint(), 0x8000_0000);
    let end = next_step(b, "done\n");
    assert!(matches!(end, Step::Finish(_)));
    assert_eq!(format!("Bitboard: {}", mask_of(end)), "Bitboard: 2147483648");
}

#[test]
fn scenario_out_of_range_then_done() {
    let b = Board::new();
    assert!(matches!(next_step(b, "40\n"), Step::InvalidSquare));
    let end = next_step(b, "done\n");
    assert_eq!(format!("Bitboard: {}", mask_of(end)), "Bitboard: 0");
}

#[test]
fn scenario_unparsable_then_done() {
    let b = Board::new();
    assert!(matches!(
        next_step(b, "abc\n"),
        Step::ParseProblem(ParseFailure::InvalidDigit)
    ));
    let end = next_step(b, "done\n");
    assert_eq!(format!("Bitboard: {}", mask_of(end)), "Bitboard: 0");
}

#[test]
fn done_keeps_mask_after_many_toggles() {
    let mut b = Board::new();
    for i in 0..100u32 {
        let line = format!("{}\n", (i * 7) % 32);
        b = Board::from(mask_of(next_step(b, &line)));
    }
    let before = b.to_uint();
    assert_eq!(mask_of(next_step(b, "  done  \n")), before);
}

#[test]
fn done_is_case_sensitive() {
    assert!(is_done("done"));
    assert!(!is_done("Done"));
    assert!(!is_done("done!"));
    assert!(matches!(
        next_step_trimmed(Board::new(), "DONE"),
        Step::ParseProblem(ParseFailure::InvalidDigit)
    ));
}

#[test]
fn empty_line_is_a_parse_problem() {
    assert!(matches!(
        next_step(Board::new(), "\n"),
        Step::ParseProblem(ParseFailure::Empty)
    ));
}

#[test]
fn parse_index_values() {
    assert_eq!(parse_index("0"), Ok(0));
    assert_eq!(parse_index("07"), Ok(7));
    assert_eq!(parse_index("+5"), Ok(5));
    assert_eq!(parse_index("31"), Ok(31));
    assert_eq!(parse_index("32"), Ok(32));
    assert_eq!(parse_index("300"), Ok(32));
    assert_eq!(parse_index("99999999999999999999"), Ok(32));
    assert_eq!(parse_index(""), Err(ParseFailure::Empty));
    assert_eq!(parse_index("+"), Err(ParseFailure::InvalidDigit));
    assert_eq!(parse_index("-1"), Err(ParseFailure::InvalidDigit));
    assert_eq!(parse_index("1a"), Err(ParseFailure::InvalidDigit));
    assert_eq!(parse_index(" 1"), Err(ParseFailure::InvalidDigit));
}

#[test]
fn large_index_is_invalid_square() {
    assert!(matches!(next_step(Board::new(), "32"), Step::InvalidSquare));
    assert!(matches!(next_step(Board::new(), "300"), Step::InvalidSquare));
}

#[test]
fn surrounding_whitespace_is_trimmed() {
    let s = next_step(Board::new(), " \t 3 \r\n");
    assert_eq!(mask_of(s), 8);
}

#[test]
fn rejected_lines_leave_board_alone() {
    let b = Board::from(0x55);
    assert!(matches!(next_step(b, "x"), Step::ParseProblem(_)));
    assert_eq!(b.to_uint(), 0x55);
}

#[test]
fn unicode_white_space_is_trimmed() {
    let s = next_step(Board::new(), "\u{a0}\u{3000}done\u{2028}");
    assert_eq!(mask_of(s), 0);
    assert!(matches!(
        next_step(Board::new(), "\u{2003}5\u{85}"),
        Step::Update(_)
    ));
}
