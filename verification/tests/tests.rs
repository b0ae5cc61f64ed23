//! The sample games rendered through the plain tokenizer, with the result
//! node kept or dropped before formatting.

use pgn_parser::game;
use pgn_parser::game_formatter;
use pgn_parser::pgn_tokenizer;
use pgn_parser::pgn_tree_builder;
use pgn_parser::tokenizer;

/// The movetext of the sample games, by the name the suite knows them by.
fn sample_text(file: &str) -> String {
    let text = match file {
        "sample_games/0000.pgn" => "1. d4",
        "sample_games/0001.pgn" => "1. d4 d5",
        "sample_games/0002.pgn" => "1. d4 (1. e4) 1... d5",
        "sample_games/0003.pgn" => "1. d4 (1. e4 e5) 1... d5",
        "sample_games/0004.pgn" => "1. d4 (1. e4) (1. f4) 1... d5",
        "sample_games/0005.pgn" => "1. d4 (1. e4 e5) (1. f4) 1... d5",
        "sample_games/0006.pgn" => "1. d4 (1. e4 e5) (1. f4 Cc6) 1... d5",
        "sample_games/0007.pgn" => "1. d4 d5 2. c4 c6",
        "sample_games/0008.pgn" => "1. d4 d5 2. c4 c6 (2... e5)",
        "sample_games/0009.pgn" => "1. d4 { This is a bad move }",
        "sample_games/0010.pgn" => "1. d4 { This is a bad move } 1... d5 { [%clk 19] This is also a bad move }",
        "sample_games/0011.pgn" => "1. d4 { [%clk 99] } (1. e4 { [%clk 99] [%eval -50] }) 1... d5",
        "sample_games/0012.pgn" => "1. d4 { Hola } (1. e4 { Adéu } 1... e5 { 新しい }) 1... d5 { 大きい }",
        "sample_games/0013.pgn" => "1. d4 { [%clk 9] A A } (1. e4 { [%clk 9] B B }) (1. f4 { [%clk 9] C C }) 1... d5",
        "sample_games/0014.pgn" => "1. d4 { [%clk 9] [%eval -9] A A } (1. e4 { [%clk 9] [%eval -9] B B } 1... e5 { [%clk 9] [%eval -9] C C }) (1. f4 { [%clk 9] [%eval -9] D D }) 1... d5 { [%clk 9] [%eval -9] E E }",
        "sample_games/0015.pgn" => "1. d4 { [%clk 9] [%eval -9] A A } (1. e4 { [%clk 9] [%eval -9] B B } 1... e5 { [%clk 9] [%eval -9] C C }) (1. f4 { [%clk 9] [%eval -9] D D } 1... Cc6) 1... d5 { [%clk 9] [%eval -9] E E }",
        "sample_games/0016.pgn" => "1. d4 d5 { B B } 2. c4 c6 { C C }",
        "sample_games/0017.pgn" => "1. d4 d5 2. c4 c6 (2... e5 { P P })",
        "sample_games/0000-r.pgn" => "1. d4 1-0",
        "sample_games/0001-r.pgn" => "1. d4 d5 0-1",
        "sample_games/0002-r.pgn" => "1. d4 (1. e4) 1... d5 0-1",
        "sample_games/0003-r.pgn" => "1. d4 (1. e4 e5) 1... d5 1/2-1/2",
        "sample_games/0004-r.pgn" => "1. d4 (1. e4) (1. f4) 1... d5 1/2-1/2",
        "sample_games/0005-r.pgn" => "1. d4 (1. e4 e5) (1. f4) 1... d5 0-1",
        "sample_games/0006-r.pgn" => "1. d4 (1. e4 e5) (1. f4 Cc6) 1... d5 1-0",
        "sample_games/0007-r.pgn" => "1. d4 d5 2. c4 c6 1/2-1/2",
        "sample_games/0008-r.pgn" => "1. d4 d5 2. c4 c6 (2... e5) 0-1",
        "sample_games/0009-r.pgn" => "1. d4 { This is a bad move } 1-0",
        "sample_games/0010-r.pgn" => "1. d4 { This is a bad move } 1... d5 { [%clk 19] This is also a bad move } 0-1",
        "sample_games/0011-r.pgn" => "1. d4 { [%clk 99] } (1. e4 { [%clk 99] [%eval -50] }) 1... d5 0-1",
        "sample_games/0012-r.pgn" => "1. d4 { Hola } (1. e4 { Adéu } 1... e5 { 新しい }) 1... d5 { 大きい } 1/2-1/2",
        "sample_games/0013-r.pgn" => "1. d4 { [%clk 9] A A } (1. e4 { [%clk 9] B B }) (1. f4 { [%clk 9] C C }) 1... d5 1/2-1/2",
        "sample_games/0014-r.pgn" => "1. d4 { [%clk 9] [%eval -9] A A } (1. e4 { [%clk 9] [%eval -9] B B } 1... e5 { [%clk 9] [%eval -9] C C }) (1. f4 { [%clk 9] [%eval -9] D D }) 1... d5 { [%clk 9] [%eval -9] E E } 0-1",
        "sample_games/0015-r.pgn" => "1. d4 { [%clk 9] [%eval -9] A A } (1. e4 { [%clk 9] [%eval -9] B B } 1... e5 { [%clk 9] [%eval -9] C C }) (1. f4 { [%clk 9] [%eval -9] D D } 1... Cc6) 1... d5 { [%clk 9] [%eval -9] E E } 1-0",
        "sample_games/0016-r.pgn" => "1. d4 d5 { B B } 2. c4 c6 { C C } 1-0",
        "sample_games/0017-r.pgn" => "1. d4 d5 2. c4 c6 (2... e5 { P P }) 0-1",
        _ => panic!("unknown sample game"),
    };
    text.to_string()
}

fn make_builder(file: String) -> pgn_tree_builder::PGNTreeBuilder {
    let entire_file_str = sample_text(&file);

    let mut all_tokens: Vec<String> = Vec::new();
    let mut all_token_types: Vec<pgn_tokenizer::TokenType> = Vec::new();
    for (lexeme, tt) in tokenizer::tokenize(entire_file_str) {
        all_tokens.push(lexeme);
        all_token_types.push(match tt {
            tokenizer::TokenType::VariantDelim { open } => {
                pgn_tokenizer::TokenType::VariantDelim { open }
            }
            tokenizer::TokenType::CommentDelim { open } => {
                pgn_tokenizer::TokenType::CommentDelim { open }
            }
            tokenizer::TokenType::TagDelim { open } => pgn_tokenizer::TokenType::TagDelim { open },
            tokenizer::TokenType::MoveNumber { id, side } => {
                pgn_tokenizer::TokenType::MoveNumber {
                    id: id as u16,
                    side: match side {
                        tokenizer::Side::White => pgn_tokenizer::Side::White,
                        tokenizer::Side::Black => pgn_tokenizer::Side::Black,
                    },
                }
            }
            tokenizer::TokenType::Text => pgn_tokenizer::TokenType::Text,
            tokenizer::TokenType::Result { result } => pgn_tokenizer::TokenType::Result {
                result: match result {
                    tokenizer::ResultType::White => pgn_tokenizer::ResultType::White,
                    tokenizer::ResultType::Draw => pgn_tokenizer::ResultType::Draw,
                    tokenizer::ResultType::Black => pgn_tokenizer::ResultType::Black,
                },
            },
        });
    }

    let mut builder = pgn_tree_builder::PGNTreeBuilder::new();
    builder.set_token_list(all_tokens, all_token_types);

    builder
}

fn make_game(file: String) -> game::GameTree {
    let mut builder = make_builder(file);
    if let Some(g) = builder.build_game_tree(0) {
        return g;
    }

    assert_eq!(true, false);
    game::GameTree::new()
}

fn game_to_string(
    file: String,
    keep_result: bool,
    print_comments: bool,
    print_variations: bool,
    print_result: bool,
) -> String {
    let g = make_game(file);

    game_formatter::GameFormatter::new()
        .set_print_comments(print_comments)
        .set_print_variation(print_variations)
        .set_print_result(keep_result && print_result)
        .to_string(&g)
}

#[test]
fn tests_sample_0000() {
    for kr in vec![false, true] {
    for pc in vec![false, true] {
    for pv in vec![false, true] {
    for pr in vec![false, true] {
        assert_eq!(
            game_to_string("sample_games/0000.pgn".to_string(), kr, pc, pv, pr),
            "1. d4".to_string()
        );
    }
    }
    }
    }
}
#[test]
fn tests_sample_0000_r() {
    for pc in vec![false, true] {
    for pv in vec![false, true] {
    for pr in vec![false, true] {
        assert_eq!(
            game_to_string("sample_games/0000-r.pgn".to_string(), false, pc, pv, pr),
            "1. d4".to_string()
        );
    }
    }
    }
    for pc in vec![false, true] {
    for pv in vec![false, true] {
        assert_eq!(
            game_to_string("sample_games/0000-r.pgn".to_string(), true, pc, pv, true),
            "1. d4 1-0".to_string()
        );
        assert_eq!(
            game_to_string("sample_games/0000-r.pgn".to_string(), true, pc, pv, false),
            "1. d4".to_string()
        );
    }
    }
}

#[test]
fn tests_sample_0001() {
    for kr in vec![false, true] {
    for pc in vec![false, true] {
    for pv in vec![false, true] {
    for pr in vec![false, true] {
        assert_eq!(
            game_to_string("sample_games/0001.pgn".to_string(), kr, pc, pv, pr),
            "1. d4 d5".to_string()
        );
    }
    }
    }
    }
}
#[test]
fn tests_sample_0001_r() {
    for pc in vec![false, true] {
    for pv in vec![false, true] {
    for pr in vec![false, true] {
        assert_eq!(
            game_to_string("sample_games/0001-r.pgn".to_string(), false, pc, pv, pr),
            "1. d4 d5".to_string()
        );
    }
    }
    }
    for pc in vec![false, true] {
    for pv in vec![false, true] {
        assert_eq!(
            game_to_string("sample_games/0001-r.pgn".to_string(), true, pc, pv, true),
            "1. d4 d5 0-1".to_string()
        );
        assert_eq!(
            game_to_string("sample_games/0001-r.pgn".to_string(), true, pc, pv, false),
            "1. d4 d5".to_string()
        );
    }
    }
}

#[test]
fn tests_sample_0002() {
    for kr in vec![false, true] {
    for pc in vec![false, true] {
    for pr in vec![false, true] {
        assert_eq!(
            game_to_string("sample_games/0002.pgn".to_string(), kr, pc, true, pr),
            "1. d4 (1. e4) 1... d5".to_string()
        );
        assert_eq!(
            game_to_string("sample_games/0002.pgn".to_string(), kr, pc, false, pr),
            "1. d4 d5".to_string()
        );
    }
    }
    }
}
#[test]
fn tests_sample_0002_r() {
    for pc in vec![false, true] {
    for pr in vec![false, true] {
        assert_eq!(
            game_to_string("sample_games/0002-r.pgn".to_string(), false, pc, true, pr),
            "1. d4 (1. e4) 1... d5".to_string()
        );
        assert_eq!(
            game_to_string("sample_games/0002-r.pgn".to_string(), false, pc, false, pr),
            "1. d4 d5".to_string()
        );
    }
    }
    for pc in vec![false, true] {
        assert_eq!(
            game_to_string("sample_games/0002-r.pgn".to_string(), true, pc, true, true),
            "1. d4 (1. e4) 1... d5 0-1".to_string()
        );
        assert_eq!(
            game_to_string("sample_games/0002-r.pgn".to_string(), true, pc, false, false),
            "1. d4 d5".to_string()
        );
    }
}
