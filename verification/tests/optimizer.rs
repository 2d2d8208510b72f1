use brim::parse;
use brim::token::{optimize, BracketError, Token};

fn compile(source: &str) -> Vec<Token> {
    optimize(&parse(source)).expect("the source is a program")
}

#[test]
fn clear_loop_becomes_zero() {
    assert_eq!(compile("[-]"), vec![Token::Zero]);
}

#[test]
fn clear_loop_and_run_become_set() {
    assert_eq!(compile("[-]+++"), vec![Token::SetTo(3)]);
}

#[test]
fn move_loop_becomes_add() {
    assert_eq!(compile("[->+<]"), vec![Token::Add(1, 1)]);
}

#[test]
fn pointer_loop_becomes_scan() {
    assert_eq!(compile("[>]"), vec![Token::Scan(1)]);
    assert_eq!(compile("[<<<]"), vec![Token::Scan(-3)]);
}

#[test]
fn empty_loop_becomes_end() {
    assert_eq!(compile("[]"), vec![Token::End]);
}

#[test]
fn add_takes_the_offset_and_the_count() {
    assert_eq!(compile("[->>>+++++<<<]"), vec![Token::Add(3, 5)]);
    assert_eq!(compile("[-<<+>>]"), vec![Token::Add(-2, 1)]);
}

#[test]
fn add_is_found_with_the_decrement_last() {
    assert_eq!(compile("[>+<-]"), vec![Token::Add(1, 1)]);
    assert_eq!(compile("[<<++>>-]"), vec![Token::Add(-2, 2)]);
}

#[test]
fn subtracting_loop_becomes_sub() {
    assert_eq!(compile("[->-<]"), vec![Token::Sub(1)]);
    assert_eq!(compile("[>>-<<-]"), vec![Token::Sub(2)]);
    assert_eq!(compile("[-<->]"), vec![Token::Sub(-1)]);
}

#[test]
fn copying_loop_becomes_dup() {
    assert_eq!(compile("[->+>+<<]"), vec![Token::Dup(1, 1, 1, 1)]);
    assert_eq!(compile("[>+>+<<-]"), vec![Token::Dup(1, 1, 1, 1)]);
    assert_eq!(compile("[->>++<+++<]"), vec![Token::Dup(2, 2, -1, 3)]);
}

#[test]
fn add_needs_the_way_back() {
    assert_eq!(
        compile("[->+<<]"),
        vec![
            Token::LBrack(5),
            Token::Dec(1),
            Token::Goto(1),
            Token::Inc(1),
            Token::Goto(-2),
            Token::RBrack(0),
        ]
    );
}

#[test]
fn sub_needs_single_decrements() {
    assert_eq!(
        compile("[->--<]"),
        vec![
            Token::LBrack(5),
            Token::Dec(1),
            Token::Goto(1),
            Token::Dec(2),
            Token::Goto(-1),
            Token::RBrack(0),
        ]
    );
    assert_eq!(
        compile("[-->-<]"),
        vec![
            Token::LBrack(5),
            Token::Dec(2),
            Token::Goto(1),
            Token::Dec(1),
            Token::Goto(-1),
            Token::RBrack(0),
        ]
    );
}

#[test]
fn dup_with_the_decrement_first_needs_a_second_move_onwards() {
    // The second move undoes the first: no idiom with the decrement first.
    let tokens = vec![
        Token::LBrack(0),
        Token::Dec(1),
        Token::Goto(1),
        Token::Inc(1),
        Token::Goto(-1),
        Token::Inc(1),
        Token::Goto(0),
        Token::RBrack(0),
    ];
    assert_eq!(
        optimize(&tokens),
        Ok(vec![
            Token::LBrack(6),
            Token::Dec(1),
            Token::Goto(1),
            Token::Inc(1),
            Token::Goto(-1),
            Token::Inc(1),
            Token::RBrack(0),
        ])
    );
}

#[test]
fn dup_with_the_decrement_last_takes_any_second_move() {
    assert_eq!(compile("[>+<+><-]"), vec![Token::Dup(1, 1, -1, 1)]);
}

#[test]
fn clear_loop_takes_a_run_that_wrapped_to_0() {
    let text = format!("[-]{}", "+".repeat(256));
    assert_eq!(compile(&text), vec![Token::SetTo(0)]);
}

#[test]
fn an_idiom_inside_a_text() {
    assert_eq!(
        compile("+[-]>[->+<]."),
        vec![Token::Inc(1), Token::Zero, Token::Goto(1), Token::Add(1, 1), Token::Out]
    );
}

#[test]
fn brackets_get_their_partners() {
    assert_eq!(compile("[+]"), vec![Token::LBrack(2), Token::Inc(1), Token::RBrack(0)]);
    assert_eq!(
        compile("+[>[+]<-]"),
        vec![
            Token::Inc(1),
            Token::LBrack(8),
            Token::Goto(1),
            Token::LBrack(5),
            Token::Inc(1),
            Token::RBrack(3),
            Token::Goto(-1),
            Token::Dec(1),
            Token::RBrack(1),
        ]
    );
}

#[test]
fn every_left_bracket_points_at_the_right_bracket_that_points_back() {
    let sources = [
        "++++++++[>++++[>++>+++>+++>+<<<<-]>+>+>->>+[<]<-]>>.",
        "[[[+]+]+][,.][[.]]",
        ">+[[-]>[+>]+[<]>-]",
        "+[+[+[+[+]+]+]+]+",
    ];
    for source in sources {
        let program = compile(source);
        let mut brackets = 0;
        for (i, token) in program.iter().enumerate() {
            match *token {
                Token::LBrack(t) => {
                    brackets += 1;
                    assert!(i < t && t < program.len());
                    assert_eq!(program[t], Token::RBrack(i));
                }
                Token::RBrack(t) => {
                    brackets += 1;
                    assert!(t < i);
                    assert_eq!(program[t], Token::LBrack(i));
                }
                _ => {}
            }
        }
        assert!(brackets > 0);
    }
}

#[test]
fn dead_tokens_are_dropped() {
    assert_eq!(compile("+><-"), vec![Token::Inc(1), Token::Dec(1)]);
    assert_eq!(compile(&"+".repeat(256)), vec![]);
    assert_eq!(compile(&"-".repeat(512)), vec![]);
    assert_eq!(
        optimize(&[Token::Goto(0), Token::Inc(0), Token::Dec(0), Token::Out]),
        Ok(vec![Token::Out])
    );
}

#[test]
fn a_dead_move_inside_an_idiom_is_kept() {
    assert_eq!(compile("[><]"), vec![Token::Scan(0)]);
}

#[test]
fn brackets_count_positions_after_dropping() {
    assert_eq!(
        compile("><[+><.]"),
        vec![Token::LBrack(3), Token::Inc(1), Token::Out, Token::RBrack(0)]
    );
}

#[test]
fn macro_tokens_pass_through() {
    let program = vec![
        Token::Zero,
        Token::SetTo(4),
        Token::Add(1, 2),
        Token::Sub(-1),
        Token::Dup(1, 1, 1, 1),
        Token::Scan(2),
        Token::End,
        Token::Dump,
        Token::In,
        Token::Out,
    ];
    assert_eq!(optimize(&program), Ok(program.clone()));
}

#[test]
fn given_bracket_indices_are_replaced() {
    assert_eq!(
        optimize(&[Token::LBrack(77), Token::Out, Token::RBrack(99)]),
        Ok(vec![Token::LBrack(2), Token::Out, Token::RBrack(0)])
    );
}

#[test]
fn unmatched_closing_bracket() {
    assert_eq!(optimize(&parse("]")), Err(BracketError::UnmatchedClosing));
    assert_eq!(optimize(&parse("+]+[")), Err(BracketError::UnmatchedClosing));
    assert_eq!(optimize(&parse("[+]]")), Err(BracketError::UnmatchedClosing));
}

#[test]
fn unmatched_opening_bracket() {
    assert_eq!(optimize(&parse("[")), Err(BracketError::UnmatchedOpening));
    assert_eq!(optimize(&parse("[+[-]")), Err(BracketError::UnmatchedOpening));
    assert_eq!(optimize(&parse("[[+]")), Err(BracketError::UnmatchedOpening));
}

#[test]
fn a_closing_bracket_is_reported_before_an_opening_one() {
    assert_eq!(optimize(&parse("[+[+]]+]+[")), Err(BracketError::UnmatchedClosing));
}

#[test]
fn errors_have_their_words() {
    assert_eq!(BracketError::UnmatchedClosing.message(), "unmatched closing bracket");
    assert_eq!(BracketError::UnmatchedOpening.message(), "unmatched opening bracket");
}

#[test]
fn empty_list_is_the_empty_program() {
    assert_eq!(optimize(&[]), Ok(vec![]));
}
