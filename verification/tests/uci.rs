use a4::fen::FenParseError;
use a4::position::Position;
use a4::uci::{
    bestmove_line, info_line, is_word, parse_go, parse_number, parse_position, parse_threads,
    read_command, split_words, Command, GoField, SearchRequest, UciError,
};
use a4::moves::Move;
use a4::value::Value;

fn words(line: &str) -> Vec<Vec<char>> {
    split_words(line)
}

fn chars(text: &str) -> Vec<char> {
    text.chars().collect()
}

#[test]
fn lines_are_split_into_words() {
    assert_eq!(words("  go   depth\t3 \r\n"), vec![chars("go"), chars("depth"), chars("3")]);
    assert_eq!(words(""), Vec::<Vec<char>>::new());
    assert_eq!(words("   "), Vec::<Vec<char>>::new());
    assert!(is_word(&chars("moves"), "moves"));
    assert!(!is_word(&chars("move"), "moves"));
    assert!(!is_word(&chars("movez"), "moves"));
}

#[test]
fn numbers_are_read_as_the_standard_library_reads_them() {
    assert_eq!(parse_number(&chars("0"), u64::MAX), Some(0));
    assert_eq!(parse_number(&chars("+17"), u64::MAX), Some(17));
    assert_eq!(parse_number(&chars("007"), u64::MAX), Some(7));
    assert_eq!(parse_number(&chars("18446744073709551615"), u64::MAX), Some(u64::MAX));
    assert_eq!(parse_number(&chars("18446744073709551616"), u64::MAX), None);
    assert_eq!(parse_number(&chars("4294967296"), u32::MAX as u64), None);
    assert_eq!(parse_number(&chars(""), u64::MAX), None);
    assert_eq!(parse_number(&chars("+"), u64::MAX), None);
    assert_eq!(parse_number(&chars("-1"), u64::MAX), None);
    assert_eq!(parse_number(&chars("1x"), u64::MAX), None);
    for text in ["0", "+17", "007", "", "+", "-1", "1x", "99999999999999999999999"] {
        assert_eq!(parse_number(&chars(text), u64::MAX), text.parse::<u64>().ok());
    }
    assert_eq!(parse_threads(&chars("1")), Some(1));
    assert_eq!(parse_threads(&chars("32")), Some(32));
    assert_eq!(parse_threads(&chars("0")), None);
    assert_eq!(parse_threads(&chars("33")), None);
    assert_eq!(parse_threads(&chars("many")), None);
}

#[test]
fn go_commands() {
    let none = SearchRequest { time_limit: None, node_limit: None, depth: None };
    assert_eq!(parse_go(&words("")), Ok(none));
    assert_eq!(parse_go(&words("infinite")), Ok(none));
    assert_eq!(parse_go(&words("depth 5")), Ok(SearchRequest { depth: Some(5), ..none }));
    assert_eq!(
        parse_go(&words("wtime 1000 btime 2000 winc 1 binc 2 movestogo 40 nodes 500 movetime 250 depth 3")),
        Ok(SearchRequest { time_limit: Some(250), node_limit: Some(500), depth: Some(3) })
    );
    assert_eq!(parse_go(&words("movetime 100 infinite")), Ok(none));
    assert_eq!(parse_go(&words("ponder searchmoves depth 2")), Ok(SearchRequest { depth: Some(2), ..none }));
    assert_eq!(parse_go(&words("depth")), Err(UciError::ExpectedValue(GoField::Depth)));
    assert_eq!(parse_go(&words("nodes")), Err(UciError::ExpectedValue(GoField::Nodes)));
    assert_eq!(parse_go(&words("movetime")), Err(UciError::ExpectedValue(GoField::MoveTime)));
    assert_eq!(parse_go(&words("wtime")), Err(UciError::ExpectedValue(GoField::WhiteTime)));
    assert_eq!(parse_go(&words("btime")), Err(UciError::ExpectedValue(GoField::BlackTime)));
    assert_eq!(parse_go(&words("winc")), Err(UciError::ExpectedValue(GoField::WhiteIncrement)));
    assert_eq!(parse_go(&words("binc")), Err(UciError::ExpectedValue(GoField::BlackIncrement)));
    assert_eq!(parse_go(&words("movestogo")), Err(UciError::ExpectedValue(GoField::MovesToGo)));
    assert_eq!(parse_go(&words("depth x")), Err(UciError::InvalidNumber(chars("x"))));
    assert_eq!(parse_go(&words("depth 4294967296")), Err(UciError::InvalidNumber(chars("4294967296"))));
    assert_eq!(parse_go(&words("deep 3")), Err(UciError::UnexpectedToken(chars("deep"))));
    assert_eq!(parse_go(&words("depth")).unwrap_err().message(), "expected depth after depth");
    assert_eq!(parse_go(&words("wtime")).unwrap_err().message(), "expected duration after wtime");
    assert_eq!(parse_go(&words("deep 3")).unwrap_err().message(), "unexpected token: deep");
    assert_eq!(parse_go(&words("depth x")).unwrap_err().message(), "invalid number: x");
}

#[test]
fn position_commands() {
    let start = "rnbqkbnr/pppppppp/8/8/8/8/PPPPPPPP/RNBQKBNR w KQkq - 0 1";
    assert_eq!(parse_position(&words("startpos")).unwrap().as_fen(), start);
    assert_eq!(parse_position(&words("")).unwrap().as_fen(), Position::new().as_fen());
    assert_eq!(
        parse_position(&words("startpos moves e2e4 e7e5 g1f3")).unwrap().as_fen(),
        "rnbqkbnr/pppp1ppp/8/4p3/4P3/5N2/PPPP1PPP/RNBQKB1R b KQkq - 1 2"
    );
    assert_eq!(
        parse_position(&words("fen 8/8/8/8/8/8/4P3/4K2k w - - 0 1 moves e2e4")).unwrap().as_fen(),
        "8/8/8/8/4P3/8/8/4K2k b - e3 0 1"
    );
    assert_eq!(
        parse_position(&words("fen 4k3/8/8/8/8/8/8/R3K2R w KQ - 0 1 moves e1g1")).unwrap().as_fen(),
        "4k3/8/8/8/8/8/8/R4RK1 b - - 1 1"
    );
    assert_eq!(
        parse_position(&words("startpos moves e2e5")).unwrap_err(),
        UciError::InvalidMove(chars("e2e5"))
    );
    assert_eq!(
        parse_position(&words("startpos moves e2e4 e2e4")).unwrap_err(),
        UciError::InvalidMove(chars("e2e4"))
    );
    assert_eq!(
        parse_position(&words("startpos moves zzzz")).unwrap_err(),
        UciError::InvalidMove(chars("zzzz"))
    );
    assert_eq!(
        parse_position(&words("startpos moves 0000")).unwrap_err(),
        UciError::InvalidMove(chars("0000"))
    );
    assert_eq!(parse_position(&words("here")).unwrap_err(), UciError::UnknownToken(chars("here")));
    assert_eq!(
        parse_position(&words("fen 9/8/8/8/8/8/8/8 w - - 0 0")).unwrap_err(),
        UciError::InvalidFen(FenParseError::InvalidDigit)
    );
    assert_eq!(
        parse_position(&words("fen")).unwrap_err(),
        UciError::InvalidFen(FenParseError::UnexpectedEnd)
    );
    assert_eq!(parse_position(&words("here")).unwrap_err().message(), "unknown token: here");
    assert_eq!(parse_position(&words("startpos moves e2e5")).unwrap_err().message(), "invalid move: e2e5");
    assert_eq!(parse_position(&words("fen 9/8 w")).unwrap_err().message(), "invalid digit");
}

#[test]
fn reasons_why_a_position_cannot_be_read() {
    let cases = [
        (FenParseError::UnexpectedChar('x'), "unexpected char: x"),
        (FenParseError::UnexpectedEnd, "unexpected EOF while reading"),
        (FenParseError::InvalidDigit, "invalid digit"),
        (FenParseError::FileDoesNotSumToEight, "file does not sum to 8"),
        (FenParseError::UnknownPiece('z'), "unknown piece: z"),
        (FenParseError::InvalidSideToMove, "invalid side to move"),
        (FenParseError::InvalidCastle, "invalid castle"),
        (FenParseError::InvalidEnPassant, "invalid en-passant"),
        (FenParseError::EmptyHalfmove, "empty halfmove"),
        (FenParseError::InvalidHalfmove, "invalid halfmove"),
        (FenParseError::EmptyFullmove, "empty fullmove"),
        (FenParseError::InvalidFullmove, "invalid fullmove"),
    ];
    for (error, text) in cases {
        assert_eq!(error.message(), text);
    }
    assert_eq!(
        Position::from_fen("8/8/8/8/8/8/8/8x").unwrap_err(),
        FenParseError::UnexpectedChar('x')
    );
    assert_eq!(
        Position::from_fen("8/8/8/8/8/8/8/8 w KQkqK - 0 0").unwrap_err(),
        FenParseError::UnexpectedChar('K')
    );
    assert_eq!(
        Position::from_fen("8/8/8/8/8/8/8/8 w - e 0 0").unwrap_err(),
        FenParseError::InvalidEnPassant
    );
    assert_eq!(Position::from_fen("8/8/8/8/8/8/8/8 w - e").unwrap_err(), FenParseError::UnexpectedEnd);
    assert_eq!(
        Position::from_fen("8/8/8/8/8/8/8/8 w - - 65536 0").unwrap_err(),
        FenParseError::InvalidHalfmove
    );
    assert_eq!(
        Position::from_fen("8/8/8/8/8/8/8/8 w - - 0 65536").unwrap_err(),
        FenParseError::InvalidFullmove
    );
    let pos = Position::from_fen("8/8/8/8/8/8/8/8 b kq e6 65535 0012 and more").unwrap();
    assert_eq!(pos.as_fen(), "8/8/8/8/8/8/8/8 b kq e6 65535 12");
}

#[test]
fn lines_of_a_search_report() {
    let pos = Position::from_start_position();
    let e4 = Move::from_uci(&pos, "e2e4").unwrap();
    let after = pos.clone_and_make_move(e4);
    let e5 = Move::from_uci(&after, "e7e5").unwrap();
    assert_eq!(
        info_line(2, 1234, 56789, &vec![e4, e5], Value::new(-21)),
        "info depth 2 nodes 1234 nps 56789 pv e2e4 e7e5 score cp -21"
    );
    assert_eq!(
        info_line(1, 0, 0, &vec![], Value::mate_in(3)),
        "info depth 1 nodes 0 nps 0 pv  score mate 3"
    );
    assert_eq!(bestmove_line(e4), "bestmove e2e4");
    assert_eq!(bestmove_line(Move::null()), "bestmove 0000");
    assert_eq!(Value::mated_in(2).as_uci(), "mate -2");
    assert_eq!(Value::new(0).as_uci(), "cp 0");
    assert_eq!(Value::new(16382).as_uci(), "cp 16382");
    assert_eq!(Value::new(-16382).as_uci(), "cp -16382");
}

#[test]
fn scores() {
    assert_eq!(Value::new(30000), Value::new(16383));
    assert_eq!(Value::new(-30000), Value::new(-16383));
    assert_eq!(Value::new(100) + Value::new(50), Value::new(150));
    assert_eq!(Value::new(100) - Value::new(150), Value::new(-50));
    assert_eq!(Value::new(16000) + Value::new(16000), Value::new(16382));
    assert_eq!(Value::new(100) + 30000, Value::new(16382));
    assert_eq!(Value::new(100) - 30000, Value::new(-16382));
    assert_eq!(-Value::new(7), Value::new(-7));
    assert_eq!(Value::mate_in(0).as_i16(), 16433);
    assert_eq!(Value::mated_in(0).as_i16(), -16433);
    assert_eq!(Value::mate_in(3).step(), Value::mate_in(4));
    assert_eq!(Value::mated_in(3).step(), Value::mated_in(4));
    assert_eq!(Value::mate_in(49).step(), Value::mate_in(49));
    assert_eq!(Value::new(12).step(), Value::new(12));
    assert!(Value::mate_in(49) > Value::new(16382));
    assert!(Value::mated_in(49) < Value::new(-16382));
    assert!(Value::new(1) > Value::new(0));
}

#[test]
fn the_first_word_names_the_command() {
    assert_eq!(read_command(&words("uci")), Command::Uci);
    assert_eq!(read_command(&words("uci now")), Command::Unrecognized);
    assert_eq!(read_command(&words("debug on")), Command::Debug);
    assert_eq!(read_command(&words("debug off")), Command::Debug);
    assert_eq!(read_command(&words("debug")), Command::Unrecognized);
    assert_eq!(read_command(&words("debug maybe")), Command::Unrecognized);
    assert_eq!(read_command(&words("isready")), Command::IsReady);
    assert_eq!(read_command(&words("ucinewgame")), Command::NewGame);
    assert_eq!(read_command(&words("position")), Command::Position);
    assert_eq!(read_command(&words("position startpos moves e2e4")), Command::Position);
    assert_eq!(read_command(&words("go")), Command::Go);
    assert_eq!(read_command(&words("go depth 3")), Command::Go);
    assert_eq!(read_command(&words("stop")), Command::Stop);
    assert_eq!(read_command(&words("stop it")), Command::Unrecognized);
    assert_eq!(read_command(&words("quit")), Command::Quit);
    assert_eq!(read_command(&words("setoption name Threads value 4")), Command::SetOption);
    assert_eq!(read_command(&words("setoption name Threads")), Command::Unrecognized);
    assert_eq!(read_command(&words("setoption title Threads value 4")), Command::Unrecognized);
    assert_eq!(read_command(&words("table 8/8/8/8/8/8/8/8 w - - 0 1")), Command::Table);
    assert_eq!(read_command(&words("")), Command::Unrecognized);
    assert_eq!(read_command(&words("UCI")), Command::Unrecognized);
}

#[test]
fn words_are_parted_at_every_white_space() {
    assert_eq!(
        words("go\u{00A0}depth\u{2003}3\u{3000}\u{0085}nodes\u{000B}7"),
        vec![chars("go"), chars("depth"), chars("3"), chars("nodes"), chars("7")]
    );
    let line = "position \u{2028} startpos\u{000C}moves\u{1680}e2e4";
    let expected: Vec<Vec<char>> = line.split_whitespace().map(chars).collect();
    assert_eq!(words(line), expected);
    assert!(a4::uci::is_white_space(' '));
    assert!(a4::uci::is_white_space('\u{205F}'));
    assert!(!a4::uci::is_white_space('\u{200B}'));
    assert!(!a4::uci::is_white_space('a'));
    for code in 0u32..0x3100 {
        if let Some(c) = char::from_u32(code) {
            assert_eq!(a4::uci::is_white_space(c), c.is_whitespace(), "{:x}", code);
        }
    }
}
