//! The token sources: operator folding, comment skipping, positions.

use bfc::instruction::Instruction;
use bfc::lexer::Lexer;
use bfc::parser::{parse, Token};
use bfc::stream::Stream;

#[test]
fn parse_folds_shift_runs() {
    let mut stream = Stream::new(b">>><<".to_vec());
    let (token, line, column) = parse(&mut stream);
    assert_eq!(token, Token::Move(1));
    assert_eq!(line, 1);
    assert_eq!(column, 1);
    let (token, _, _) = parse(&mut stream);
    assert_eq!(token, Token::EndOfFile);
}

#[test]
fn parse_folds_increment_runs() {
    let mut stream = Stream::new(b"++--- abc -".to_vec());
    let (token, line, column) = parse(&mut stream);
    assert_eq!(token, Token::Add(-2));
    assert_eq!(line, 1);
    assert_eq!(column, 1);
}

#[test]
fn parse_skips_comment_bytes() {
    let mut stream = Stream::new(b"hello . world ,".to_vec());
    let (token, line, column) = parse(&mut stream);
    assert_eq!(token, Token::WriteChar);
    assert_eq!(line, 1);
    assert_eq!(column, 7);
    let (token, _, column) = parse(&mut stream);
    assert_eq!(token, Token::ReadChar);
    assert_eq!(column, 15);
}

#[test]
fn parse_comment_bytes_do_not_end_a_run() {
    let mut stream = Stream::new(b"+ comment +[".to_vec());
    let (token, _, _) = parse(&mut stream);
    assert_eq!(token, Token::Add(2));
    let (token, _, column) = parse(&mut stream);
    assert_eq!(token, Token::LoopStart);
    assert_eq!(column, 12);
}

#[test]
fn parse_brackets_one_per_token() {
    let mut stream = Stream::new(b"[]".to_vec());
    let (token, _, column) = parse(&mut stream);
    assert_eq!(token, Token::LoopStart);
    assert_eq!(column, 1);
    let (token, _, column) = parse(&mut stream);
    assert_eq!(token, Token::LoopEnd);
    assert_eq!(column, 2);
    let (token, _, column) = parse(&mut stream);
    assert_eq!(token, Token::EndOfFile);
    assert_eq!(column, 3);
}

#[test]
fn parse_empty_source() {
    let mut stream = Stream::new(Vec::new());
    let (token, line, column) = parse(&mut stream);
    assert_eq!(token, Token::EndOfFile);
    assert_eq!(line, 1);
    assert_eq!(column, 1);
}

#[test]
fn stream_peek_and_forward() {
    let mut stream = Stream::new(b"ab".to_vec());
    assert_eq!(stream.peek(), Some(b'a'));
    assert_eq!(stream.peek(), Some(b'a'));
    stream.forward();
    assert_eq!(stream.column, 2);
    assert_eq!(stream.peek(), Some(b'b'));
    stream.forward();
    assert_eq!(stream.peek(), None);
    assert_eq!(stream.line, 1);
    assert_eq!(stream.column, 3);
}

#[test]
fn stream_tracks_lines() {
    let mut stream = Stream::new(b"a\nb".to_vec());
    stream.forward();
    assert_eq!((stream.line, stream.column), (1, 2));
    stream.forward();
    assert_eq!((stream.line, stream.column), (2, 1));
    stream.forward();
    assert_eq!((stream.line, stream.column), (2, 2));
}

#[test]
fn parse_positions_span_lines() {
    let mut stream = Stream::new(b"ab\n.\n  [".to_vec());
    let (token, line, column) = parse(&mut stream);
    assert_eq!(token, Token::WriteChar);
    assert_eq!((line, column), (2, 1));
    let (token, line, column) = parse(&mut stream);
    assert_eq!(token, Token::LoopStart);
    assert_eq!((line, column), (3, 3));
    let (token, line, _) = parse(&mut stream);
    assert_eq!(token, Token::EndOfFile);
    assert_eq!(line, 3);
}

#[test]
fn lexer_tracks_lines() {
    let mut lexer = Lexer::new(b"x\ny\n+++".to_vec());
    let (instruction, line, column) = lexer.lex();
    assert_eq!(instruction, Instruction::Add(3));
    assert_eq!(line, 3);
    assert_eq!(column, 1);
}

#[test]
fn lexer_folds_and_positions() {
    let mut lexer = Lexer::new(b"ab\n>><\ncd-".to_vec());
    let (instruction, line, column) = lexer.lex();
    assert_eq!(instruction, Instruction::Move(1));
    assert_eq!(line, 2);
    assert_eq!(column, 1);
    let (instruction, line, column) = lexer.lex();
    assert_eq!(instruction, Instruction::Add(-1));
    assert_eq!(line, 3);
    assert_eq!(column, 3);
    let (instruction, line, _) = lexer.lex();
    assert_eq!(instruction, Instruction::ProgramEnd);
    assert_eq!(line, 3);
}

#[test]
fn lexer_all_operators() {
    let mut lexer = Lexer::new(b".,[]".to_vec());
    assert_eq!(lexer.lex().0, Instruction::WriteChar);
    assert_eq!(lexer.lex().0, Instruction::ReadChar);
    assert_eq!(lexer.lex().0, Instruction::LoopStart);
    assert_eq!(lexer.lex().0, Instruction::LoopEnd);
    assert_eq!(lexer.lex().0, Instruction::ProgramEnd);
}
