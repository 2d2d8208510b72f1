use brim::config::{Config, Overflow, TapeModel};
use brim::interpret;
use brim::machine::{Machine, Run, Status};
use brim::parse;
use brim::token::{optimize, parse_with, Token};

fn compile(source: &str) -> Vec<Token> {
    optimize(&parse(source)).expect("the source is a program")
}

#[test]
fn an_empty_program_is_finished_at_once() {
    assert_eq!(
        interpret(&[], &[1, 2, 3], 0),
        Run { output: vec![], flushed: 0, consumed: 0, status: Status::Finished }
    );
}

#[test]
fn a_run_counts_its_steps() {
    let program = compile("+++.");
    assert_eq!(program, vec![Token::Inc(3), Token::Out]);
    assert_eq!(interpret(&program, &[], 0).status, Status::OutOfSteps);
    assert_eq!(
        interpret(&program, &[], 1),
        Run { output: vec![], flushed: 0, consumed: 0, status: Status::OutOfSteps }
    );
    assert_eq!(
        interpret(&program, &[], 2),
        Run { output: vec![3], flushed: 1, consumed: 0, status: Status::Finished }
    );
    assert_eq!(
        interpret(&program, &[], usize::MAX),
        Run { output: vec![3], flushed: 1, consumed: 0, status: Status::Finished }
    );
}

#[test]
fn a_run_reads_its_input_in_order() {
    let program = compile(",.,.,.,.");
    assert_eq!(
        interpret(&program, &[7, 8], 100),
        Run { output: vec![7, 8, 0, 0], flushed: 4, consumed: 2, status: Status::Finished }
    );
    assert_eq!(
        interpret(&program, &[7, 8, 9, 10, 11], 100),
        Run { output: vec![7, 8, 9, 10], flushed: 4, consumed: 4, status: Status::Finished }
    );
}

#[test]
fn a_run_that_stops_early_says_what_it_read() {
    let program = compile(",.,.");
    assert_eq!(
        interpret(&program, &[7, 8], 3),
        Run { output: vec![7], flushed: 0, consumed: 2, status: Status::OutOfSteps }
    );
}

#[test]
fn end_is_reported_without_a_step() {
    let program = compile("+.[]+.");
    assert_eq!(program, vec![Token::Inc(1), Token::Out, Token::End, Token::Inc(1), Token::Out]);
    assert_eq!(
        interpret(&program, &[], 1000),
        Run { output: vec![1], flushed: 0, consumed: 0, status: Status::Stuck }
    );
    assert_eq!(
        interpret(&program, &[], 2),
        Run { output: vec![1], flushed: 0, consumed: 0, status: Status::Stuck }
    );
    assert_eq!(interpret(&program, &[], 1).status, Status::OutOfSteps);
}

#[test]
fn an_endless_loop_runs_out_of_steps() {
    let program = compile("+[>+<]");
    let run = interpret(&program, &[], 10_000);
    assert_eq!(run.status, Status::OutOfSteps);
    assert_eq!(run.output, vec![]);
}

#[test]
fn an_endless_scan_runs_out_of_steps() {
    let program = vec![Token::Inc(1), Token::Scan(0)];
    assert_eq!(interpret(&program, &[], 10_000).status, Status::OutOfSteps);
}

#[test]
fn hello_world() {
    let source = "++++++++[>++++[>++>+++>+++>+<<<<-]>+>+>->>+[<]<-]>>.\
                  >---.+++++++..+++.>>.<-.<.+++.------.--------.>>+.>++.";
    let run = interpret(&compile(source), &[], 100_000);
    assert_eq!(run.status, Status::Finished);
    assert_eq!(run.output, b"Hello World!\n".to_vec());
}

#[test]
fn reverse_the_input() {
    let run = interpret(&compile(">,[>,]<[.<]"), b"abc", 100_000);
    assert_eq!(run.output, b"cba".to_vec());
    assert_eq!(run.consumed, 3);
    assert_eq!(run.status, Status::Finished);
}

#[test]
fn the_pointer_wraps_at_the_left_end() {
    let run = interpret(&compile("<+>>[-]<<."), &[], 100);
    assert_eq!(run.output, vec![1]);
    let mut machine = Machine::new(Config::default());
    machine.run(&compile("<+"), &[], 100);
    assert_eq!(machine.sp(), 29999);
    assert_eq!(machine.cell(29999), 1);
}

#[test]
fn cells_wrap_on_the_default_machine() {
    assert_eq!(interpret(&compile("-."), &[], 100).output, vec![255]);
    let source = format!("{}.", "+".repeat(300));
    assert_eq!(interpret(&compile(&source), &[], 100).output, vec![44]);
}

#[test]
fn the_idioms_do_what_their_loops_do() {
    // Each source, run as written by a plain loop, and run fused.
    let sources = [
        "+++++[-]+++.",
        "+++++[->+<]>.<.",
        "+++++[->+++<]>.<.",
        "+++++[>++<-]>.<.",
        "+++++>+++++++<[->-<]>.<.",
        "+++++>+++++++<[>-<-]>.<.",
        "+++++[->+>++<<]>.>.<<.",
        "+++++[>+>++<<-]>.>.<<.",
        "+>+>+>>+<<<<[>]>.<<.",
    ];
    for source in sources {
        let fused = compile(source);
        let mut plain = Vec::new();
        let mut open = Vec::new();
        for ch in source.chars() {
            let here = plain.len();
            match ch {
                '+' => plain.push(Token::Inc(1)),
                '-' => plain.push(Token::Dec(1)),
                '>' => plain.push(Token::Goto(1)),
                '<' => plain.push(Token::Goto(-1)),
                '.' => plain.push(Token::Out),
                '[' => {
                    open.push(here);
                    plain.push(Token::LBrack(0));
                }
                ']' => {
                    let left = open.pop().expect("the brackets match");
                    plain[left] = Token::LBrack(here);
                    plain.push(Token::RBrack(left));
                }
                _ => {}
            }
        }
        assert!(fused.len() < plain.len());
        let expected = interpret(&plain, &[], 100_000);
        assert_eq!(expected.status, Status::Finished);
        assert_eq!(interpret(&fused, &[], 100_000), expected);
    }
}

#[test]
fn a_machine_can_be_run_in_parts() {
    let program = compile(",.,.,.");
    let input = [4u8, 5, 6];
    let mut machine = Machine::new(Config::default());
    let first = machine.run(&program, &input, 3);
    assert_eq!(first, Run { output: vec![4], flushed: 0, consumed: 2, status: Status::OutOfSteps });
    let second = machine.run(&program, &input[first.consumed..], 100);
    assert_eq!(second, Run { output: vec![5, 6], flushed: 2, consumed: 1, status: Status::Finished });
    assert!(machine.halted(&program));
}

#[test]
fn a_saturating_machine_holds_at_the_ends() {
    let config = Config { tape: TapeModel::Fixed(100), overflow: Overflow::Saturate };
    let source = format!("-.{}.", "+".repeat(300));
    let tokens = parse_with(&source, Overflow::Saturate, false);
    let program = optimize(&tokens).expect("the source is a program");
    assert_eq!(program, vec![Token::Dec(1), Token::Out, Token::Inc(255), Token::Out]);
    let mut machine = Machine::new(config);
    assert_eq!(machine.run(&program, &[], 100).output, vec![0, 255]);
    let mut machine = Machine::new(config);
    let program = vec![
        Token::Inc(200),
        Token::Inc(200),
        Token::Out,
        Token::Dec(255),
        Token::Dec(1),
        Token::Out,
    ];
    assert_eq!(machine.run(&program, &[], 100).output, vec![255, 0]);
}

#[test]
fn a_growing_tape_goes_beyond_30000_cells() {
    let config = Config { tape: TapeModel::Dynamic, overflow: Overflow::Wrap };
    let program = vec![
        Token::Goto(40000),
        Token::Inc(5),
        Token::Out,
        Token::Goto(-50000),
        Token::Inc(1),
    ];
    let mut machine = Machine::new(config);
    let run = machine.run(&program, &[], 100);
    assert_eq!(run.output, vec![5]);
    assert_eq!(machine.sp(), 0);
    assert_eq!(machine.cell(0), 1);
    assert_eq!(machine.cell(40000), 5);
    assert_eq!(machine.tape_len(), 40001);
    // The same program on the default ring writes to cell 10000.
    let mut machine = Machine::new(Config::default());
    machine.run(&program, &[], 100);
    assert_eq!(machine.cell(10000), 5);
    assert_eq!(machine.sp(), 20000);
}

#[test]
fn a_scan_to_the_right_ends_beyond_the_growing_tape() {
    let config = Config { tape: TapeModel::Dynamic, overflow: Overflow::Wrap };
    let program = compile("+>+>+<<[>]");
    let mut machine = Machine::new(config);
    assert_eq!(machine.run(&program, &[], 100).status, Status::Finished);
    assert_eq!(machine.sp(), 3);
    assert_eq!(machine.tape_len(), 3);
}

#[test]
fn dump_is_passed_over_in_a_run() {
    let program = optimize(&parse_with("+;.;", Overflow::Wrap, true)).expect("the source is a program");
    assert_eq!(program, vec![Token::Inc(1), Token::Dump, Token::Out, Token::Dump]);
    assert_eq!(
        interpret(&program, &[], 100),
        Run { output: vec![1], flushed: 1, consumed: 0, status: Status::Finished }
    );
}

#[test]
fn a_newline_flushes_the_output() {
    // Writes 9, 10, 11 and stands at the end token after them.
    let program = compile("+++++++++.+.+.[]");
    assert_eq!(
        interpret(&program, &[], 100),
        Run { output: vec![9, 10, 11], flushed: 2, consumed: 0, status: Status::Stuck }
    );
    assert_eq!(
        interpret(&program, &[], 2),
        Run { output: vec![9], flushed: 0, consumed: 0, status: Status::OutOfSteps }
    );
    assert_eq!(
        interpret(&program, &[], 4),
        Run { output: vec![9, 10], flushed: 2, consumed: 0, status: Status::OutOfSteps }
    );
}

#[test]
fn the_end_of_the_program_flushes_the_output() {
    assert_eq!(
        interpret(&compile("+.+."), &[], 100),
        Run { output: vec![1, 2], flushed: 2, consumed: 0, status: Status::Finished }
    );
    assert_eq!(
        interpret(&compile("++++++++++.+."), &[], 100),
        Run { output: vec![10, 11], flushed: 2, consumed: 0, status: Status::Finished }
    );
}
