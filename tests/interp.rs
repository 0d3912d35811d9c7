use rforth::interp::ForthInterp;
use rforth::lexer::{parse_number, tokenize};
use rforth::parser::ForthParser;
use rforth::types::{ForthErr, ForthExp, ForthOp, Prim};

fn run(lines: &[&str]) -> (ForthInterp, Result<(), ForthErr>) {
    let mut it = ForthInterp::new();
    let mut last = Ok(());
    for l in lines {
        last = it.eval_str(l);
    }
    (it, last)
}

fn stack_of(lines: &[&str]) -> Vec<i64> {
    let (it, r) = run(lines);
    assert_eq!(r, Ok(()));
    it.stack().clone()
}

#[test]
fn division_truncates_toward_zero() {
    assert_eq!(stack_of(&["7 2 /"]), vec![3]);
    assert_eq!(stack_of(&["-7 2 /"]), vec![-3]);
    assert_eq!(stack_of(&["7 -2 /"]), vec![-3]);
    assert_eq!(stack_of(&["-7 -2 /"]), vec![3]);
}

#[test]
fn modulo_follows_truncating_division() {
    assert_eq!(stack_of(&["7 2 mod"]), vec![1]);
    assert_eq!(stack_of(&["-7 2 mod"]), vec![-1]);
    assert_eq!(stack_of(&["7 -2 mod"]), vec![1]);
    assert_eq!(stack_of(&["7 2 /mod"]), vec![1, 3]);
}

#[test]
fn division_of_min_by_minus_one_wraps() {
    assert_eq!(stack_of(&["-9223372036854775808 -1 /"]), vec![i64::MIN]);
    assert_eq!(stack_of(&["-9223372036854775808 -1 mod"]), vec![0]);
}

#[test]
fn division_by_zero_restores_operands() {
    let (it, r) = run(&["5 0 /"]);
    assert_eq!(r, Err(ForthErr::DivisionByZero));
    assert_eq!(it.stack().clone(), vec![5, 0]);
    let (it, r) = run(&["1 5 0 mod"]);
    assert_eq!(r, Err(ForthErr::DivisionByZero));
    assert_eq!(it.stack().clone(), vec![1, 5, 0]);
    let (it, r) = run(&["2 3 0 */"]);
    assert_eq!(r, Err(ForthErr::DivisionByZero));
    assert_eq!(it.stack().clone(), vec![2, 3, 0]);
}

#[test]
fn addition_wraps_at_the_maximum() {
    assert_eq!(stack_of(&["9223372036854775807 1 +"]), vec![i64::MIN]);
    assert_eq!(stack_of(&["-9223372036854775808 1 -"]), vec![i64::MAX]);
    assert_eq!(stack_of(&["4611686018427387904 2 *"]), vec![i64::MIN]);
}

#[test]
fn dup_grows_the_stack_by_one() {
    assert_eq!(stack_of(&["5 dup"]), vec![5, 5]);
    assert_eq!(stack_of(&["1 2 dup"]), vec![1, 2, 2]);
}

#[test]
fn pick_zero_is_dup() {
    assert_eq!(stack_of(&["1 2 0 pick"]), stack_of(&["1 2 dup"]));
    assert_eq!(stack_of(&["1 2 3 2 pick"]), vec![1, 2, 3, 1]);
}

#[test]
fn pick_beyond_depth_restores_index() {
    let (it, r) = run(&["1 2 2 pick"]);
    assert_eq!(r, Err(ForthErr::NotEnoughValues));
    assert_eq!(it.stack().clone(), vec![1, 2, 2]);
    let (it, r) = run(&["1 2 5 roll"]);
    assert_eq!(r, Err(ForthErr::NotEnoughValues));
    assert_eq!(it.stack().clone(), vec![1, 2, 5]);
}

#[test]
fn roll_moves_an_item_to_the_top() {
    assert_eq!(stack_of(&["1 2 3 2 roll"]), vec![2, 3, 1]);
    assert_eq!(stack_of(&["1 2 3 0 roll"]), vec![1, 2, 3]);
}

#[test]
fn square_word() {
    assert_eq!(stack_of(&[": square dup * ;", "5 square"]), vec![25]);
}

#[test]
fn variable_store_and_fetch() {
    assert_eq!(stack_of(&["variable x", "7 x !", "x @"]), vec![7]);
}

#[test]
fn variables_start_at_zero() {
    assert_eq!(stack_of(&["variable y y @"]), vec![0]);
}

#[test]
fn constant_binds_once() {
    assert_eq!(stack_of(&["42 constant answer", "answer answer"]), vec![42, 42]);
    assert_eq!(stack_of(&["1 42 constant answer answer"]), vec![1, 42]);
}

#[test]
fn constant_without_value() {
    let (_, r) = run(&["constant c"]);
    assert_eq!(r, Err(ForthErr::NoConstantValue));
}

#[test]
fn if_else_then() {
    assert_eq!(stack_of(&["0 if 1 else 2 then"]), vec![2]);
    assert_eq!(stack_of(&["1 if 1 else 2 then"]), vec![1]);
    assert_eq!(stack_of(&["-5 if 1 then"]), vec![1]);
    assert_eq!(stack_of(&["0 if 1 then"]), Vec::<i64>::new());
}

#[test]
fn nested_if() {
    assert_eq!(stack_of(&["1 0 if 10 else if 20 else 30 then then"]), vec![20]);
}

#[test]
fn begin_until_counts_to_three() {
    assert_eq!(stack_of(&["0 begin 1+ dup 3 = until"]), vec![3]);
}

#[test]
fn begin_while_repeat() {
    assert_eq!(stack_of(&["0 begin dup 3 < while 1+ repeat"]), vec![3]);
}

#[test]
fn undefined_word_keeps_stack() {
    let (it, r) = run(&["1 2 foo"]);
    assert_eq!(r, Err(ForthErr::Undefined(ForthOp::UserWord("foo".to_string()))));
    assert_eq!(it.stack().clone(), vec![1, 2]);
}

#[test]
fn undefined_variable() {
    let (_, r) = run(&["1 if @ then"]);
    assert_eq!(r, Err(ForthErr::UndefinedVariable("if".to_string())));
}

#[test]
fn stray_semicolon() {
    let (_, r) = run(&["1 ;"]);
    assert_eq!(r, Err(ForthErr::Unexpected(";".to_string())));
}

#[test]
fn nested_colon() {
    let (_, r) = run(&[": a : b ;"]);
    assert_eq!(r, Err(ForthErr::Unexpected(":".to_string())));
}

#[test]
fn repeat_without_while() {
    let (_, r) = run(&["begin 1 repeat"]);
    assert_eq!(r, Err(ForthErr::Unexpected("repeat".to_string())));
}

#[test]
fn until_after_while() {
    let (_, r) = run(&["begin 1 while 2 until"]);
    assert_eq!(r, Err(ForthErr::Unexpected("until".to_string())));
}

#[test]
fn missing_then() {
    let (_, r) = run(&["1 if 2"]);
    assert_eq!(r, Err(ForthErr::Unterminated));
}

#[test]
fn missing_name() {
    let (_, r) = run(&["variable"]);
    assert_eq!(r, Err(ForthErr::NoName));
}

#[test]
fn fetch_without_name() {
    let (_, r) = run(&["@"]);
    assert_eq!(r, Err(ForthErr::NoVarName));
}

#[test]
fn empty_stack() {
    let (it, r) = run(&["drop"]);
    assert_eq!(r, Err(ForthErr::EmptyStack));
    assert!(it.stack().is_empty());
    let (it, r) = run(&["1 +"]);
    assert_eq!(r, Err(ForthErr::EmptyStack));
    assert_eq!(it.stack().clone(), vec![1]);
}

#[test]
fn runaway_recursion_is_bounded() {
    let (_, r) = run(&[": f f ;", "f"]);
    assert_eq!(r, Err(ForthErr::TooDeep));
}

#[test]
fn failed_parse_commits_nothing() {
    let (mut it, r) = run(&[": foo 1 if ;"]);
    assert!(r.is_err());
    assert_eq!(it.eval_str("2"), Ok(()));
    assert_eq!(
        it.eval_str("foo"),
        Err(ForthErr::Undefined(ForthOp::UserWord("foo".to_string())))
    );
    assert_eq!(it.stack().clone(), vec![2]);
}

#[test]
fn definition_spans_inputs() {
    assert_eq!(stack_of(&[": sq", "dup * ;", "4 sq"]), vec![16]);
}

#[test]
fn keywords_ignore_case() {
    assert_eq!(stack_of(&["5 DUP", "1 IF 7 THEN"]), vec![5, 5, 7]);
}

#[test]
fn user_word_shadows_primitive() {
    assert_eq!(stack_of(&[": dup 99 ;", "1 dup"]), vec![1, 99]);
}

#[test]
fn redefinition_shadows() {
    assert_eq!(stack_of(&[": w 1 ;", ": w 2 ;", "w"]), vec![2]);
}

#[test]
fn print_hands_out_values() {
    let (mut it, r) = run(&["5 6 . ."]);
    assert_eq!(r, Ok(()));
    assert_eq!(it.take_printed(), vec![6, 5]);
    assert!(it.stack().is_empty());
    assert!(it.take_printed().is_empty());
}

#[test]
fn stack_shuffles() {
    assert_eq!(stack_of(&["1 2 3 rot"]), vec![2, 3, 1]);
    assert_eq!(stack_of(&["1 2 swap"]), vec![2, 1]);
    assert_eq!(stack_of(&["1 2 over"]), vec![1, 2, 1]);
    assert_eq!(stack_of(&["1 2 2dup"]), vec![1, 2, 1, 2]);
    assert_eq!(stack_of(&["1 2 3 2drop"]), vec![1]);
    assert_eq!(stack_of(&["1 2 3 4 2swap"]), vec![3, 4, 1, 2]);
    assert_eq!(stack_of(&["1 2 3 4 2over"]), vec![1, 2, 3, 4, 1, 2]);
    assert_eq!(stack_of(&["1 2 depth"]), vec![1, 2, 2]);
}

#[test]
fn unary_arithmetic() {
    assert_eq!(stack_of(&["-4 abs 4 negate 1 1+ 1 1- 1 2+ 1 2- 3 2* -7 2/"]), vec![4, -4, 2, 0, 3, -1, 6, -3]);
    assert_eq!(stack_of(&["3 4 5 */"]), vec![2]);
    assert_eq!(stack_of(&["3 4 5 */mod"]), vec![2, 2]);
}

#[test]
fn comparisons_use_all_bits_true() {
    assert_eq!(stack_of(&["1 2 <", "2 1 <", "2 2 =", "1 2 <>", "3 3 >=", "0 0="]), vec![-1, 0, -1, -1, -1, -1]);
    assert_eq!(stack_of(&["-1 0<", "1 0>", "0 not", "5 not"]), vec![-1, -1, -1, 0]);
}

#[test]
fn bitwise_logic() {
    assert_eq!(stack_of(&["12 10 and 12 10 or 12 10 xor 0 invert"]), vec![8, 14, 6, -1]);
}

#[test]
fn constructs_at_different_positions() {
    assert_eq!(stack_of(&["variable a variable b", "1 a ! 2 b !", "a @ b @"]), vec![1, 2]);
}

#[test]
fn evaluate_single_expressions() {
    let mut it = ForthInterp::new();
    assert_eq!(it.eval(ForthExp::Number(4)), Ok(()));
    assert_eq!(it.eval(ForthExp::Op(ForthOp::Prim(Prim::Dup))), Ok(()));
    assert_eq!(it.eval(ForthExp::Op(ForthOp::Prim(Prim::Mul))), Ok(()));
    assert_eq!(it.pop_num(), Ok(16));
    assert_eq!(it.pop_num(), Err(ForthErr::EmptyStack));
    it.push(3);
    assert_eq!(it.stack().clone(), vec![3]);
}

#[test]
fn tokenize_splits_on_whitespace() {
    assert_eq!(tokenize("  a\tbc\n d \u{3000}e "), vec!["a", "bc", "d", "e"]);
    assert!(tokenize("   ").is_empty());
}

#[test]
fn number_literals() {
    assert_eq!(parse_number("-12"), Some(-12));
    assert_eq!(parse_number("+5"), Some(5));
    assert_eq!(parse_number("9223372036854775807"), Some(i64::MAX));
    assert_eq!(parse_number("9223372036854775808"), None);
    assert_eq!(parse_number("-9223372036854775808"), Some(i64::MIN));
    assert_eq!(parse_number("1+"), None);
    assert_eq!(parse_number("-"), None);
    assert_eq!(parse_number(""), None);
}

#[test]
fn parser_cursor() {
    let mut p = ForthParser::new();
    let r = p.parse_str("x @");
    assert!(r.is_ok());
    assert_eq!(p.tokens, vec!["x".to_string(), "@".to_string()]);
    assert_eq!(p.next(), Err(ForthErr::Unterminated));
    assert_eq!(p.get_var_name(), Ok("x".to_string()));
    p.cur = 0;
    assert_eq!(p.get_cur(), "x".to_string());
    assert_eq!(p.get_var_name(), Err(ForthErr::NoVarName));
    assert_eq!(p.next(), Ok("x".to_string()));
    assert_eq!(p.cur, 1);
}

#[test]
fn parse_result_lists_entries() {
    let mut p = ForthParser::new();
    let r = p.parse_str("variable v 3 v !").unwrap();
    assert_eq!(r.variables, vec!["v".to_string()]);
    assert_eq!(r.new_words.len(), 2);
    assert_eq!(r.new_words[0].0, ForthOp::Variable("v".to_string()));
    assert_eq!(r.new_words[1].0, ForthOp::SetVar(4));
    assert_eq!(
        r.program,
        vec![
            ForthExp::Op(ForthOp::Variable("v".to_string())),
            ForthExp::Number(3),
            ForthExp::Op(ForthOp::UserWord("v".to_string())),
            ForthExp::Op(ForthOp::SetVar(4)),
        ]
    );
}
