use bfvm::common::{Instruction, Node};
use bfvm::vm::is_well_formed;
use bfvm::{generate_code, Interpreter, RuntimeError};

const FUEL: u64 = 100_000_000;

fn run_prog(nodes: Vec<Node>, input: Vec<u8>) -> Vec<u8> {
    let code = generate_code(nodes);
    assert!(is_well_formed(&code));
    let mut vm = Interpreter::new(code, input);
    vm.run(FUEL).unwrap();
    vm.output().clone()
}

fn run_raw(nodes: Vec<Node>, input: Vec<u8>) -> Vec<u8> {
    let code = bfvm::codegen::generate_raw_code(&nodes);
    assert!(is_well_formed(&code));
    let mut vm = Interpreter::new(code, input);
    vm.run(FUEL).unwrap();
    vm.output().clone()
}

#[test]
fn round_trip_byte() {
    // ,. : read one byte, write it back
    let nodes = vec![Node::Input, Node::Output, Node::Halt];
    assert_eq!(run_prog(nodes, vec![0x41]), vec![0x41]);
}

fn end_to_end_nodes() -> Vec<Node> {
    // ++++[>++++<-]>.
    vec![
        Node::Increment,
        Node::Increment,
        Node::Increment,
        Node::Increment,
        Node::Loop(vec![
            Node::MoveRight,
            Node::Increment,
            Node::Increment,
            Node::Increment,
            Node::Increment,
            Node::MoveLeft,
            Node::Decrement,
        ]),
        Node::MoveRight,
        Node::Output,
        Node::Halt,
    ]
}

#[test]
fn end_to_end_multiplication() {
    assert_eq!(run_prog(end_to_end_nodes(), vec![]), vec![16]);
}

#[test]
fn end_to_end_on_two_cell_tape() {
    let code = generate_code(end_to_end_nodes());
    assert!(is_well_formed(&code));
    let mut vm = Interpreter::with_capacity(code, vec![], 2);
    vm.run(FUEL).unwrap();
    assert_eq!(vm.output().clone(), vec![16]);
}

fn clear_nodes() -> Vec<Node> {
    vec![
        Node::Input,
        Node::Loop(vec![Node::Decrement]),
        Node::Output,
        Node::Halt,
    ]
}

#[test]
fn clear_loop_all_start_values() {
    for v in 0..=255u8 {
        assert_eq!(run_prog(clear_nodes(), vec![v]), vec![0]);
        assert_eq!(run_raw(clear_nodes(), vec![v]), vec![0]);
    }
}

fn search_nodes(k: usize) -> Vec<Node> {
    // k nonzero cells, a zero at cell k, a marker at cell k + 1, pointer
    // returned to the start; then [>], step right, write the marker.
    let mut nodes = Vec::new();
    for _ in 0..k {
        nodes.push(Node::Increment);
        nodes.push(Node::MoveRight);
    }
    nodes.push(Node::MoveRight);
    for _ in 0..7 {
        nodes.push(Node::Increment);
    }
    for _ in 0..(k + 1) {
        nodes.push(Node::MoveLeft);
    }
    nodes.push(Node::Loop(vec![Node::MoveRight]));
    nodes.push(Node::MoveRight);
    nodes.push(Node::Output);
    nodes.push(Node::Halt);
    nodes
}

#[test]
fn search_loop_lands_after_the_run() {
    for k in [0usize, 1, 5, 100] {
        assert_eq!(run_prog(search_nodes(k), vec![]), vec![7]);
        assert_eq!(run_raw(search_nodes(k), vec![]), vec![7]);
    }
}

fn move_cell_nodes() -> Vec<Node> {
    // ,>>>,<<<[->>>+<<<].>>>.
    let mut body = vec![Node::Decrement];
    for _ in 0..3 {
        body.push(Node::MoveRight);
    }
    body.push(Node::Increment);
    for _ in 0..3 {
        body.push(Node::MoveLeft);
    }
    let mut nodes = vec![Node::Input];
    for _ in 0..3 {
        nodes.push(Node::MoveRight);
    }
    nodes.push(Node::Input);
    for _ in 0..3 {
        nodes.push(Node::MoveLeft);
    }
    nodes.push(Node::Loop(body));
    nodes.push(Node::Output);
    for _ in 0..3 {
        nodes.push(Node::MoveRight);
    }
    nodes.push(Node::Output);
    nodes.push(Node::Halt);
    nodes
}

#[test]
fn move_cell_transfers_and_zeroes() {
    for s in 0..=255u8 {
        for t in [0u8, 1, 100, 255] {
            let expected = vec![0, t.wrapping_add(s)];
            assert_eq!(run_prog(move_cell_nodes(), vec![s, t]), expected);
        }
    }
}

#[test]
fn move_cell_matches_unoptimized() {
    for s in [0u8, 1, 2, 200, 255] {
        for t in [0u8, 99, 255] {
            let expected = vec![0, t.wrapping_add(s)];
            assert_eq!(run_raw(move_cell_nodes(), vec![s, t]), expected);
        }
    }
}

fn planted_tape_nodes() -> Vec<Node> {
    // cells 0..4 hold 10..14 on a five-cell tape; pointer back at cell 0
    let mut nodes = Vec::new();
    for i in 0..5usize {
        for _ in 0..(10 + i) {
            nodes.push(Node::Increment);
        }
        nodes.push(Node::MoveRight);
    }
    nodes
}

#[test]
fn wraparound_right_moves() {
    for m in [0usize, 1, 5, 6, 11] {
        let mut nodes = planted_tape_nodes();
        for _ in 0..m {
            nodes.push(Node::MoveRight);
        }
        nodes.push(Node::Output);
        nodes.push(Node::Halt);
        let code = generate_code(nodes);
        assert!(is_well_formed(&code));
        let mut vm = Interpreter::with_capacity(code, vec![], 5);
        vm.run(FUEL).unwrap();
        assert_eq!(vm.output().clone(), vec![(10 + m % 5) as u8]);
    }
}

#[test]
fn wraparound_left_moves() {
    for m in [0usize, 1, 5, 6, 11] {
        let mut nodes = planted_tape_nodes();
        for _ in 0..m {
            nodes.push(Node::MoveLeft);
        }
        nodes.push(Node::Output);
        nodes.push(Node::Halt);
        let code = generate_code(nodes);
        assert!(is_well_formed(&code));
        let mut vm = Interpreter::with_capacity(code, vec![], 5);
        vm.run(FUEL).unwrap();
        let landing = (5 - m % 5) % 5;
        assert_eq!(vm.output().clone(), vec![(10 + landing) as u8]);
    }
}

#[test]
fn read_past_input_leaves_cell() {
    // +++++ , . with no input: the read is a no-op, the cell keeps 5
    let nodes = vec![
        Node::Increment,
        Node::Increment,
        Node::Increment,
        Node::Increment,
        Node::Increment,
        Node::Input,
        Node::Output,
        Node::Halt,
    ];
    assert_eq!(run_prog(nodes, vec![]), vec![5]);
}

#[test]
fn out_of_fuel_and_resume() {
    let code = generate_code(end_to_end_nodes());
    let mut vm = Interpreter::new(code, vec![]);
    let mut budgets = 0u32;
    loop {
        match vm.run(3) {
            Ok(()) => break,
            Err(RuntimeError::OutOfFuel) => {
                budgets += 1;
                assert!(budgets < 1000);
            },
        }
    }
    assert_eq!(vm.output().clone(), vec![16]);
}

#[test]
fn nonterminating_program_runs_out_of_fuel() {
    // + followed by an empty loop: spins forever on the jump pair
    let nodes = vec![Node::Increment, Node::Loop(vec![]), Node::Halt];
    let code = generate_code(nodes);
    assert!(is_well_formed(&code));
    let mut vm = Interpreter::new(code, vec![]);
    assert_eq!(vm.run(10_000), Err(RuntimeError::OutOfFuel));
}

#[test]
fn well_formedness_checker() {
    assert!(!is_well_formed(&vec![]));
    assert!(!is_well_formed(&vec![Instruction::Add(1)]));
    assert!(!is_well_formed(&vec![Instruction::Jez(5), Instruction::Halt]));
    assert!(!is_well_formed(&vec![Instruction::Jnz(1), Instruction::Halt]));
    assert!(is_well_formed(&vec![
        Instruction::Jez(1),
        Instruction::Jnz(1),
        Instruction::Halt,
    ]));
    assert!(is_well_formed(&generate_code(end_to_end_nodes())));
}
