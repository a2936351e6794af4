use bfvm::common::{Instruction, Node};
use bfvm::generate_code;
use bfvm::peephole::optimize_instruction_chain;

fn incs(n: usize) -> Vec<Node> {
    let mut v = Vec::new();
    for _ in 0..n {
        v.push(Node::Increment);
    }
    v
}

fn decs(n: usize) -> Vec<Node> {
    let mut v = Vec::new();
    for _ in 0..n {
        v.push(Node::Decrement);
    }
    v
}

#[test]
fn fold_incs_then_decs() {
    let mut nodes = incs(3);
    nodes.extend(decs(5));
    nodes.push(Node::Halt);
    let code = generate_code(nodes);
    assert_eq!(code, vec![Instruction::Add(254), Instruction::Halt]);
}

#[test]
fn fold_pure_increments() {
    let code = generate_code(incs(4));
    assert_eq!(code, vec![Instruction::Add(4)]);
}

#[test]
fn fold_wraps_modulo_256() {
    let mut nodes = incs(300);
    nodes.push(Node::Halt);
    let code = generate_code(nodes);
    assert_eq!(code, vec![Instruction::Add(44), Instruction::Halt]);
}

#[test]
fn shift_net_right() {
    let nodes = vec![
        Node::MoveRight,
        Node::MoveRight,
        Node::MoveLeft,
        Node::MoveRight,
        Node::Halt,
    ];
    let code = generate_code(nodes);
    assert_eq!(code, vec![Instruction::Right(2), Instruction::Halt]);
}

#[test]
fn shift_net_left() {
    let nodes = vec![Node::MoveLeft, Node::MoveLeft, Node::MoveLeft, Node::Halt];
    let code = generate_code(nodes);
    assert_eq!(code, vec![Instruction::Left(3), Instruction::Halt]);
}

#[test]
fn shift_net_zero_is_left_zero() {
    let nodes = vec![Node::MoveRight, Node::MoveLeft, Node::Halt];
    let code = generate_code(nodes);
    assert_eq!(code, vec![Instruction::Left(0), Instruction::Halt]);
}

#[test]
fn clear_loop_fuses_to_zero() {
    let nodes = vec![Node::Loop(vec![Node::Decrement]), Node::Halt];
    let code = generate_code(nodes);
    assert_eq!(code, vec![Instruction::Zero, Instruction::Halt]);
    let nodes_plus = vec![Node::Loop(vec![Node::Increment]), Node::Halt];
    let code_plus = generate_code(nodes_plus);
    assert_eq!(code_plus, vec![Instruction::Zero, Instruction::Halt]);
}

#[test]
fn nested_clear_loop_fuses_to_zero() {
    let nodes = vec![
        Node::Loop(vec![Node::Loop(vec![Node::Decrement])]),
        Node::Halt,
    ];
    let code = generate_code(nodes);
    assert_eq!(code, vec![Instruction::Zero, Instruction::Halt]);
}

#[test]
fn search_loops_fuse() {
    let right = generate_code(vec![Node::Loop(vec![Node::MoveRight]), Node::Halt]);
    assert_eq!(right, vec![Instruction::SearchRight(1), Instruction::Halt]);
    let left = generate_code(vec![Node::Loop(vec![Node::MoveLeft]), Node::Halt]);
    assert_eq!(left, vec![Instruction::SearchLeft(1), Instruction::Halt]);
}

fn move_cell_loop(stride: usize) -> Node {
    let mut body = vec![Node::Decrement];
    for _ in 0..stride {
        body.push(Node::MoveRight);
    }
    body.push(Node::Increment);
    for _ in 0..stride {
        body.push(Node::MoveLeft);
    }
    Node::Loop(body)
}

#[test]
fn move_cell_loop_fuses() {
    let code = generate_code(vec![move_cell_loop(3), Node::Halt]);
    assert_eq!(code, vec![Instruction::AddMoveRight(3), Instruction::Halt]);
}

#[test]
fn zero_area_chain_merges() {
    let nodes = vec![
        Node::Loop(vec![Node::Decrement]),
        Node::MoveRight,
        Node::Loop(vec![Node::Decrement]),
        Node::MoveRight,
        Node::Loop(vec![Node::Decrement]),
        Node::MoveRight,
        Node::Halt,
    ];
    let code = generate_code(nodes);
    assert_eq!(code, vec![Instruction::ZeroRight(3), Instruction::Halt]);
}

#[test]
fn diffusion_loop_fuses_to_mandel() {
    // [ >> [->>>+<<<] <<<<< ] : x = 2, n = 3, return shift q = 5 = x + n
    let mut outer = vec![Node::MoveRight, Node::MoveRight, move_cell_loop(3)];
    for _ in 0..5 {
        outer.push(Node::MoveLeft);
    }
    let code = generate_code(vec![Node::Loop(outer), Node::Halt]);
    assert_eq!(code, vec![Instruction::Mandel(2, 3), Instruction::Halt]);
}

#[test]
fn general_loop_keeps_jump_pair() {
    // ++++[>++++<-]>. : the outer loop is none of the fused idioms, so it
    // must stay a Jez/Jnz pair with distances covering its body.
    let nodes = vec![
        Node::Increment,
        Node::Increment,
        Node::Increment,
        Node::Increment,
        Node::Loop(vec![
            Node::MoveRight,
            Node::Increment,
            Node::Increment,
            Node::Increment,
            Node::Increment,
            Node::MoveLeft,
            Node::Decrement,
        ]),
        Node::MoveRight,
        Node::Output,
        Node::Halt,
    ];
    let code = generate_code(nodes);
    assert_eq!(
        code,
        vec![
            Instruction::Add(4),
            Instruction::Jez(5),
            Instruction::Right(1),
            Instruction::Add(4),
            Instruction::Left(1),
            Instruction::Add(255),
            Instruction::Jnz(5),
            Instruction::Right(1),
            Instruction::Write,
            Instruction::Halt,
        ]
    );
}

#[test]
fn optimizer_is_stable_on_its_output() {
    let nodes = vec![
        Node::Increment,
        Node::Increment,
        Node::Increment,
        Node::Increment,
        Node::Loop(vec![
            Node::MoveRight,
            Node::Increment,
            Node::Increment,
            Node::Increment,
            Node::Increment,
            Node::MoveLeft,
            Node::Decrement,
        ]),
        Node::MoveRight,
        Node::Output,
        Node::Halt,
    ];
    let code = generate_code(nodes);
    let again = optimize_instruction_chain(&code);
    assert_eq!(code, again);
}

#[test]
fn optimizer_is_stable_on_fused_output() {
    let nodes = vec![
        Node::Loop(vec![Node::Decrement]),
        Node::MoveRight,
        move_cell_loop(3),
        Node::Loop(vec![Node::MoveRight]),
        Node::Halt,
    ];
    let code = generate_code(nodes);
    let again = optimize_instruction_chain(&code);
    assert_eq!(code, again);
}
