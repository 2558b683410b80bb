use parsec::grammar::{char_, cmd, cmds, none_of, one_of, parse_fully, satisfy, string_};
use parsec::maybe::{bind, catMaybes, id, join};
use parsec::ops::{MapFn, PairFn, Pred};
use parsec::parser::{
    alt, alt_with, empty, fmap, liftA2, many, optional, parse, pure, sequenceA, some,
    then_keep_left, then_keep_right, traverse, IntoPure, Parser,
};
use parsec::value::{Command, Value};

fn chars(s: &str) -> Vec<char> {
    s.chars().collect()
}

fn digit() -> Parser {
    satisfy(Pred::IsDigit)
}

fn item() -> Parser {
    satisfy(Pred::AnyChar)
}

#[test]
fn pure_yields_once_on_any_input() {
    let input = chars("abc");
    let results = parse(&pure(Value::Num(7)), &input);
    assert_eq!(results.len(), 1);
    assert_eq!(results[0].0, Value::Num(7));
    assert_eq!(results[0].1, &input[..]);

    let empty_input = chars("");
    let results = parse(&pure(Value::Ch('x')), &empty_input);
    assert_eq!(results.len(), 1);
    assert_eq!(results[0].0, Value::Ch('x'));
    assert_eq!(results[0].1, &empty_input[..]);
}

#[test]
fn empty_never_matches() {
    let input = chars("abc");
    assert!(parse(&empty(), &input).is_empty());
    assert!(parse(&empty(), &chars("")).is_empty());
}

#[test]
fn satisfy_digit_rejects_letter() {
    let input = chars("a");
    assert!(parse(&digit(), &input).is_empty());
}

#[test]
fn satisfy_digit_takes_one_character() {
    let input = chars("23");
    let results = parse(&digit(), &input);
    assert_eq!(results.len(), 1);
    assert_eq!(results[0].0, Value::Ch('2'));
    assert_eq!(results[0].1, &input[1..]);
}

#[test]
fn satisfy_fails_on_empty_input() {
    let input = chars("");
    assert!(parse(&item(), &input).is_empty());
}

#[test]
fn item_takes_any_character() {
    let input = chars("a1");
    let results = parse(&item(), &input);
    assert_eq!(results.len(), 1);
    assert_eq!(results[0].0, Value::Ch('a'));
    assert_eq!(results[0].1, &input[1..]);
}

#[test]
fn combine_pairs_two_digits() {
    let input = chars("423");
    let two = liftA2(digit(), digit(), PairFn::PairUp);
    let results = parse(&two, &input);
    assert_eq!(results.len(), 1);
    assert_eq!(
        results[0].0,
        Value::Pair(Box::new(Value::Ch('4')), Box::new(Value::Ch('2')))
    );
    assert_eq!(results[0].1, &input[2..]);
}

#[test]
fn combine_fails_when_either_side_fails() {
    let input = chars("4a");
    let two = liftA2(digit(), digit(), PairFn::PairUp);
    assert!(parse(&two, &input).is_empty());
    let input = chars("a4");
    assert!(parse(&two, &input).is_empty());
}

#[test]
fn then_keep_left_keeps_the_first_value() {
    let input = chars("4a");
    let p = then_keep_left(digit(), item());
    let results = parse(&p, &input);
    assert_eq!(results.len(), 1);
    assert_eq!(results[0].0, Value::Ch('4'));
    assert_eq!(results[0].1, &input[2..]);
}

#[test]
fn then_keep_right_keeps_the_second_value() {
    let input = chars("4a");
    let p = then_keep_right(digit(), item());
    let results = parse(&p, &input);
    assert_eq!(results.len(), 1);
    assert_eq!(results[0].0, Value::Ch('a'));
    assert_eq!(results[0].1, &input[2..]);
}

#[test]
fn choice_is_left_biased() {
    let input = chars("5x");
    let p = alt(digit(), item());
    let results = parse(&p, &input);
    assert_eq!(results.len(), 1);
    assert_eq!(results[0].0, Value::Ch('5'));
    assert_eq!(results[0].1, &input[1..]);
}

#[test]
fn choice_falls_through_on_failure() {
    let input = chars("x5");
    let p = alt(digit(), item());
    let results = parse(&p, &input);
    assert_eq!(results.len(), 1);
    assert_eq!(results[0].0, Value::Ch('x'));

    let p = alt(empty(), char_('x'));
    let results = parse(&p, &input);
    assert_eq!(results.len(), 1);
    assert_eq!(results[0].0, Value::Ch('x'));
}

#[test]
fn alt_with_builds_the_second_branch_on_demand() {
    let input = chars("x5");
    let p = alt_with(digit(), || item());
    let results = parse(&p, &input);
    assert_eq!(results.len(), 1);
    assert_eq!(results[0].0, Value::Ch('x'));
}

#[test]
fn fmap_transforms_each_value() {
    let input = chars("1");
    let p = fmap(digit(), MapFn::DigitValue);
    let results = parse(&p, &input);
    assert_eq!(results.len(), 1);
    assert_eq!(results[0].0, Value::Num(1));
}

#[test]
fn fmap_char_code() {
    let input = chars("a");
    let p = fmap(item(), MapFn::CharCode);
    let results = parse(&p, &input);
    assert_eq!(results.len(), 1);
    assert_eq!(results[0].0, Value::Num('a' as u32));
}

#[test]
fn many_collects_digits_and_stops() {
    let input = chars("12a");
    let p = many(digit());
    let results = parse(&p, &input);
    assert_eq!(results.len(), 1);
    assert_eq!(
        results[0].0,
        Value::List(vec![Value::Ch('1'), Value::Ch('2')])
    );
    assert_eq!(results[0].1, &input[2..]);
}

#[test]
fn many_digit_values() {
    let input = chars("12a");
    let p = many(fmap(digit(), MapFn::DigitValue));
    let results = parse(&p, &input);
    assert_eq!(results.len(), 1);
    assert_eq!(results[0].0, Value::List(vec![Value::Num(1), Value::Num(2)]));
    assert_eq!(results[0].1, &input[2..]);
}

#[test]
fn many_succeeds_with_nothing_on_failure() {
    let input = chars("ab");
    let p = many(digit());
    let results = parse(&p, &input);
    assert_eq!(results.len(), 1);
    assert_eq!(results[0].0, Value::List(vec![]));
    assert_eq!(results[0].1, &input[..]);
}

#[test]
fn many_stops_on_a_zero_width_match() {
    let input = chars("ab");
    let p = many(pure(Value::Num(1)));
    let results = parse(&p, &input);
    assert_eq!(results.len(), 1);
    assert_eq!(results[0].0, Value::List(vec![]));
    assert_eq!(results[0].1, &input[..]);
}

#[test]
fn some_needs_at_least_one_match() {
    let input = chars("ab");
    let p = some(digit());
    assert!(parse(&p, &input).is_empty());

    let input = chars("1ab");
    let results = parse(&some(digit()), &input);
    assert_eq!(results.len(), 1);
    assert_eq!(results[0].0, Value::List(vec![Value::Ch('1')]));
    assert_eq!(results[0].1, &input[1..]);
}

#[test]
fn optional_wraps_or_defaults() {
    let input = chars("1a");
    let results = parse(&optional(digit()), &input);
    assert_eq!(results.len(), 1);
    assert_eq!(results[0].0, Value::Found(Box::new(Value::Ch('1'))));

    let input = chars("a1");
    let results = parse(&optional(digit()), &input);
    assert_eq!(results.len(), 1);
    assert_eq!(results[0].0, Value::Missing);
    assert_eq!(results[0].1, &input[..]);
}

#[test]
fn into_pure_wraps_a_value() {
    let input = chars("zz");
    let results = parse(&Value::Num(3).into_pure(), &input);
    assert_eq!(results.len(), 1);
    assert_eq!(results[0].0, Value::Num(3));
    assert_eq!(results[0].1, &input[..]);
}

#[test]
fn cloned_parsers_match_alike() {
    let input = chars("12a");
    let p = many(digit());
    let q = p.clone();
    assert_eq!(parse(&p, &input), parse(&q, &input));
}

#[test]
fn sequence_runs_parsers_in_order() {
    let input = chars("1ab");
    let p = sequenceA(vec![digit(), item()]);
    let results = parse(&p, &input);
    assert_eq!(results.len(), 1);
    assert_eq!(
        results[0].0,
        Value::List(vec![Value::Ch('1'), Value::Ch('a')])
    );
    assert_eq!(results[0].1, &input[2..]);

    let none = sequenceA(vec![]);
    let results = parse(&none, &input);
    assert_eq!(results.len(), 1);
    assert_eq!(results[0].0, Value::List(vec![]));
}

#[test]
fn traverse_builds_one_parser_per_item() {
    let input = chars("12x");
    let p = traverse(vec![Value::Num(0), Value::Num(1)], |_item| digit());
    let results = parse(&p, &input);
    assert_eq!(results.len(), 1);
    assert_eq!(
        results[0].0,
        Value::List(vec![Value::Ch('1'), Value::Ch('2')])
    );
    assert_eq!(results[0].1, &input[2..]);
}

#[test]
fn cat_maybes_keeps_payloads() {
    let r: Vec<u32> = catMaybes(vec![Some(1), None, Some(2), None, None, Some(3)]);
    assert_eq!(r, vec![1, 2, 3]);
    let r: Vec<u32> = catMaybes(vec![]);
    assert_eq!(r, Vec::<u32>::new());
}

#[test]
fn bind_runs_only_on_present_values() {
    let r = bind(Some(4u32), |n| if n > 3 { Some(n + 1) } else { None });
    assert_eq!(r, Some(5));
    let r = bind(None::<u32>, |n| Some(n + 1));
    assert_eq!(r, None);
}

#[test]
fn join_flattens_one_layer() {
    assert_eq!(join(Some(Some(3u32))), Some(3));
    assert_eq!(join(Some(None::<u32>)), None);
    assert_eq!(join(None::<Option<u32>>), None);
}

#[test]
fn id_gives_back_its_argument() {
    let f = id::<u32>();
    assert_eq!(f(7), 7);
}

#[test]
fn string_matches_its_literal_prefix() {
    let input = chars("hello world");
    let pat = chars("hello");
    let results = parse(&string_(&pat), &input);
    assert_eq!(results.len(), 1);
    assert_eq!(results[0].0, Value::Str(chars("hello")));
    assert_eq!(results[0].1, &input[5..]);
}

#[test]
fn string_then_bang() {
    let input = chars("hello!");
    let pat = chars("hello");
    let p = then_keep_left(string_(&pat), char_('!'));
    let results = parse(&p, &input);
    assert_eq!(results.len(), 1);
    assert_eq!(results[0].0, Value::Str(chars("hello")));
    assert_eq!(results[0].1, &input[6..]);
}

#[test]
fn string_rejects_a_mismatch() {
    let input = chars("help");
    let pat = chars("hello");
    assert!(parse(&string_(&pat), &input).is_empty());
}

#[test]
fn empty_string_matches_trivially() {
    let input = chars("abc");
    let pat = chars("");
    let results = parse(&string_(&pat), &input);
    assert_eq!(results.len(), 1);
    assert_eq!(results[0].0, Value::Str(vec![]));
    assert_eq!(results[0].1, &input[..]);
}

#[test]
fn one_of_and_none_of_split_the_alphabet() {
    let input = chars("M1");
    let results = parse(&one_of(chars("MN")), &input);
    assert_eq!(results.len(), 1);
    assert_eq!(results[0].0, Value::Ch('M'));
    assert!(parse(&none_of(chars("MN")), &input).is_empty());

    let input = chars("x1");
    assert!(parse(&one_of(chars("MN")), &input).is_empty());
    let results = parse(&none_of(chars("MN")), &input);
    assert_eq!(results.len(), 1);
    assert_eq!(results[0].0, Value::Ch('x'));
}

#[test]
fn parse_fully_rejects_partial_matches() {
    let input = chars("12a");
    let full: Vec<Value> = parse_fully(&many(digit()), &input);
    assert!(full.is_empty());
}

#[test]
fn parse_fully_keeps_a_whole_match() {
    let input = chars("12");
    let full = parse_fully(&many(digit()), &input);
    assert_eq!(full, vec![Value::List(vec![Value::Ch('1'), Value::Ch('2')])]);
}

#[test]
fn command_script_parses_with_discards() {
    let input = chars("M+X[-N]+[]");
    let results = parse(&cmds(), &input);
    assert_eq!(results.len(), 1);
    assert_eq!(
        results[0].0,
        Value::List(vec![
            Value::Cmd(Command::F),
            Value::Cmd(Command::L),
            Value::Cmd(Command::B(vec![Command::R, Command::F])),
            Value::Cmd(Command::L),
            Value::Cmd(Command::B(vec![])),
        ])
    );
    assert!(results[0].1.is_empty());
}

#[test]
fn command_tokens_parse_one_by_one() {
    let forward = chars("N");
    let results = parse(&cmd(), &forward);
    assert_eq!(results.len(), 1);
    assert_eq!(results[0].0, Value::Found(Box::new(Value::Cmd(Command::F))));

    let left = chars("+");
    let results = parse(&cmd(), &left);
    assert_eq!(results.len(), 1);
    assert_eq!(results[0].0, Value::Found(Box::new(Value::Cmd(Command::L))));

    let right = chars("-");
    let results = parse(&cmd(), &right);
    assert_eq!(results.len(), 1);
    assert_eq!(results[0].0, Value::Found(Box::new(Value::Cmd(Command::R))));

    let block = chars("[]");
    let results = parse(&cmd(), &block);
    assert_eq!(results.len(), 1);
    assert_eq!(
        results[0].0,
        Value::Found(Box::new(Value::Cmd(Command::B(vec![]))))
    );

    let discard = chars("x");
    let results = parse(&cmd(), &discard);
    assert_eq!(results.len(), 1);
    assert_eq!(results[0].0, Value::Missing);

    // A closing bracket belongs to no alternative, the catch-all included.
    let stray = chars("]");
    assert!(parse(&cmd(), &stray).is_empty());

    let nothing = chars("");
    assert!(parse(&cmd(), &nothing).is_empty());
}

#[test]
fn blocks_nest_to_any_depth() {
    let input = chars("[[[M]]]");
    let results = parse(&cmds(), &input);
    assert_eq!(results.len(), 1);
    assert_eq!(
        results[0].0,
        Value::List(vec![Value::Cmd(Command::B(vec![Command::B(vec![
            Command::B(vec![Command::F])
        ])]))])
    );
    assert!(results[0].1.is_empty());
}

#[test]
fn unclosed_bracket_stops_the_repetition() {
    // `[` with no `]` fails the block alternative, and the catch-all does not
    // accept `[` either, so no command parses and the repetition stops with
    // the input unconsumed.
    let input = chars("[M");
    let results = parse(&cmds(), &input);
    assert_eq!(results.len(), 1);
    assert_eq!(results[0].0, Value::List(vec![]));
    assert_eq!(results[0].1, &input[..]);
}
