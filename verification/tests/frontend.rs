use bfvm::common::{Node, Token};
use bfvm::{generate_code, Interpreter, Lexer, Parser, Tokenizer};

fn lex_all(source: &[u8]) -> Vec<Token> {
    let mut lexer = Lexer::new(source.to_vec());
    let mut tokens = Vec::new();
    while let Some(t) = lexer.next() {
        tokens.push(t);
    }
    tokens
}

fn parse_all(tokens: Vec<Token>) -> Vec<Node> {
    let mut parser = Parser::new(tokens);
    let mut nodes = Vec::new();
    while let Some(n) = parser.next() {
        nodes.push(n);
    }
    nodes
}

#[test]
fn lexer_maps_command_bytes() {
    let tokens = lex_all(b"><+-.,[]");
    assert_eq!(
        tokens,
        vec![
            Token::MoveRight,
            Token::MoveLeft,
            Token::Increment,
            Token::Decrement,
            Token::Output,
            Token::Input,
            Token::LeftLoop,
            Token::RightLoop,
            Token::EOF,
        ]
    );
}

#[test]
fn lexer_skips_other_bytes() {
    let tokens = lex_all(b"say + hello - world .");
    assert_eq!(
        tokens,
        vec![
            Token::Increment,
            Token::Decrement,
            Token::Output,
            Token::EOF,
        ]
    );
}

#[test]
fn lexer_stops_after_eof_token() {
    let mut lexer = Lexer::new(b"+".to_vec());
    assert_eq!(lexer.next(), Some(Token::Increment));
    assert_eq!(lexer.next(), Some(Token::EOF));
    assert_eq!(lexer.next(), None);
    assert_eq!(lexer.next(), None);
}

#[test]
fn tokenizer_scans_like_the_lexer() {
    let mut tokenizer = Tokenizer::new(b"x+y[z]".to_vec());
    let mut tokens = Vec::new();
    while let Some(t) = tokenizer.next() {
        tokens.push(t);
    }
    assert_eq!(
        tokens,
        vec![
            Token::Increment,
            Token::LeftLoop,
            Token::RightLoop,
            Token::EOF,
        ]
    );
}

#[test]
fn parser_builds_flat_program() {
    let nodes = parse_all(lex_all(b",."));
    assert_eq!(nodes, vec![Node::Input, Node::Output, Node::Halt]);
}

#[test]
fn parser_builds_nested_loops() {
    let nodes = parse_all(lex_all(b"+[[-]>]"));
    assert_eq!(
        nodes,
        vec![
            Node::Increment,
            Node::Loop(vec![
                Node::Loop(vec![Node::Decrement]),
                Node::MoveRight,
            ]),
            Node::Halt,
        ]
    );
}

#[test]
fn parser_rejects_stray_closing_bracket() {
    let mut parser = Parser::new(lex_all(b"]+"));
    assert_eq!(parser.next(), None);
}

#[test]
fn parser_rejects_unterminated_loop() {
    let mut parser = Parser::new(lex_all(b"[+"));
    assert_eq!(parser.next(), None);
}

#[test]
fn whole_pipeline_from_source_text() {
    let nodes = parse_all(lex_all(b"++++[>++++<-]>."));
    let code = generate_code(nodes);
    let mut vm = Interpreter::new(code, vec![]);
    vm.run(1_000_000).unwrap();
    assert_eq!(vm.output().clone(), vec![16]);
}

#[test]
fn whole_pipeline_round_trip() {
    let nodes = parse_all(lex_all(b",."));
    let code = generate_code(nodes);
    let mut vm = Interpreter::new(code, vec![0x41]);
    vm.run(1_000_000).unwrap();
    assert_eq!(vm.output().clone(), vec![0x41]);
}
