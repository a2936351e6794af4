use bfvm::common::Token;
use bfvm::oldvm::TokenRunError;
use bfvm::{BFInterpreter, Lexer};

fn lex_all(source: &[u8]) -> Vec<Token> {
    let mut lexer = Lexer::new(source.to_vec());
    let mut tokens = Vec::new();
    while let Some(t) = lexer.next() {
        tokens.push(t);
    }
    tokens
}

const FUEL: u64 = 10_000_000;

#[test]
fn token_interpreter_round_trip() {
    let mut vm = BFInterpreter::new(lex_all(b",."), vec![0x41]);
    vm.run(FUEL).unwrap();
    assert_eq!(vm.output().clone(), vec![0x41]);
}

#[test]
fn token_interpreter_multiplication() {
    let mut vm = BFInterpreter::new(lex_all(b"++++[>++++<-]>."), vec![]);
    vm.run(FUEL).unwrap();
    assert_eq!(vm.output().clone(), vec![16]);
}

#[test]
fn token_interpreter_skips_zero_loop() {
    // the loop body must be skipped entirely when the cell is zero
    let mut vm = BFInterpreter::new(lex_all(b"[+++.]-."), vec![]);
    vm.run(FUEL).unwrap();
    assert_eq!(vm.output().clone(), vec![255]);
}

#[test]
fn token_interpreter_nested_loops() {
    // 2 * (3 * 2) written with a nested loop
    let mut vm = BFInterpreter::new(lex_all(b"++[>+++[>++<-]<-]>>."), vec![]);
    vm.run(FUEL).unwrap();
    assert_eq!(vm.output().clone(), vec![12]);
}

#[test]
fn token_interpreter_unmatched_close() {
    let mut vm = BFInterpreter::new(lex_all(b"]+"), vec![]);
    assert_eq!(vm.run(FUEL), Err(TokenRunError::UnmatchedClose));
}

#[test]
fn token_interpreter_unmatched_open() {
    let mut vm = BFInterpreter::new(lex_all(b"["), vec![]);
    assert_eq!(vm.run(FUEL), Err(TokenRunError::UnmatchedOpen));
}

#[test]
fn token_interpreter_exhausted_stream() {
    // a raw token list without the end marker runs off the end
    let mut vm = BFInterpreter::new(vec![Token::Increment], vec![]);
    assert_eq!(vm.run(FUEL), Err(TokenRunError::TokenExhausted));
}

#[test]
fn token_interpreter_out_of_fuel_and_resume() {
    let mut vm = BFInterpreter::new(lex_all(b"+[]"), vec![]);
    assert_eq!(vm.run(1_000), Err(TokenRunError::OutOfFuel));
    assert_eq!(vm.run(1_000), Err(TokenRunError::OutOfFuel));
}

#[test]
fn token_interpreter_wraps_leftward() {
    let tokens = lex_all(b"<+.");
    let mut vm = BFInterpreter::with_capacity(tokens, vec![], 5);
    vm.run(FUEL).unwrap();
    assert_eq!(vm.output().clone(), vec![1]);
}

#[test]
fn token_interpreter_get_token() {
    let vm = BFInterpreter::new(vec![Token::Increment, Token::EOF], vec![]);
    assert_eq!(vm.get_token(0), Ok(Token::Increment));
    assert_eq!(vm.get_token(1), Ok(Token::EOF));
    assert_eq!(vm.get_token(2), Err(TokenRunError::TokenExhausted));
}

#[test]
fn token_interpreter_agrees_with_compiled_vm() {
    let source: &[u8] = b"++++[>++++<-]>.<,[->+<]>.";
    let input = vec![7u8];
    let mut tvm = BFInterpreter::new(lex_all(source), input.clone());
    tvm.run(FUEL).unwrap();
    let mut parser = bfvm::Parser::new(lex_all(source));
    let mut nodes = Vec::new();
    while let Some(n) = parser.next() {
        nodes.push(n);
    }
    let code = bfvm::generate_code(nodes);
    let mut cvm = bfvm::Interpreter::new(code, input);
    cvm.run(FUEL).unwrap();
    assert_eq!(tvm.output(), cvm.output());
}
