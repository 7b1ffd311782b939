use patlang::call_levels::CallLevel;
use patlang::eval::{try_bind, try_bind_single, try_bind_with_state, Data, ProgramState};
use patlang::function::FunctionName;
use patlang::name_map::NameMap;
use patlang::numeric_expr::NumericData;
use patlang::pattern_match::{
    bind_segment_to_bindpattern, call_level_to_argbind, list_to_bind, single_seg_to_bind,
    slots_to_binds, token_to_bind, try_token_to_constant, try_token_to_identifier, ArgBind,
};
use patlang::segments::{matched_terminators, prune_clauses, Segment};
use patlang::tokens::{string_to, MyError, Token};

fn chars(s: &str) -> Vec<char> {
    s.chars().collect()
}

fn num(n: i64) -> Data {
    Data::Number(NumericData::Int(n))
}

fn cons(h: Data, t: Data) -> Data {
    Data::List(Box::new(h), Box::new(t))
}

fn pvar(s: &str) -> ArgBind {
    ArgBind::Identifier(chars(s))
}

fn cell(h: ArgBind, t: ArgBind) -> ArgBind {
    ArgBind::ListPattern { head: Box::new(h), tail: Box::new(t) }
}

fn pattern_segments(src: &str) -> Vec<Segment> {
    prune_clauses(&matched_terminators(&string_to(src.to_string())).unwrap())
}

fn patterns(src: &str) -> Result<Vec<ArgBind>, MyError> {
    bind_segment_to_bindpattern(&pattern_segments(src))
}

fn empty_scope() -> ProgramState {
    NameMap::new()
}

#[test]
fn no_segments_are_no_patterns() {
    assert_eq!(patterns(""), Ok(vec![]));
}

#[test]
fn identifiers_are_variables() {
    assert_eq!(patterns("N"), Ok(vec![pvar("N")]));
    assert_eq!(patterns("a,b,c"), Ok(vec![pvar("a"), pvar("b"), pvar("c")]));
}

#[test]
fn literals_are_constants() {
    assert_eq!(patterns("0"), Ok(vec![ArgBind::ConstPattern(num(0))]));
    assert_eq!(
        patterns("true,x,12"),
        Ok(vec![
            ArgBind::ConstPattern(Data::Boolean(true)),
            pvar("x"),
            ArgBind::ConstPattern(num(12))
        ])
    );
}

#[test]
fn list_patterns() {
    assert_eq!(patterns("[H|T]"), Ok(vec![cell(pvar("H"), pvar("T"))]));
    assert_eq!(patterns("[]"), Ok(vec![ArgBind::ConstPattern(Data::Emptylist)]));
    assert_eq!(patterns("[1|T]"), Ok(vec![cell(ArgBind::ConstPattern(num(1)), pvar("T"))]));
}

#[test]
fn a_list_pattern_may_stand_anywhere() {
    assert_eq!(patterns("[H|T],x,y"), Ok(vec![cell(pvar("H"), pvar("T")), pvar("x"), pvar("y")]));
    assert_eq!(patterns("[],n"), Ok(vec![ArgBind::ConstPattern(Data::Emptylist), pvar("n")]));
    assert_eq!(patterns("x,[H|T]"), Ok(vec![pvar("x"), cell(pvar("H"), pvar("T"))]));
    assert_eq!(
        patterns("[H|T],x,[A|B],0,[]"),
        Ok(vec![
            cell(pvar("H"), pvar("T")),
            pvar("x"),
            cell(pvar("A"), pvar("B")),
            ArgBind::ConstPattern(num(0)),
            ArgBind::ConstPattern(Data::Emptylist)
        ])
    );
}

#[test]
fn list_patterns_nest_in_source() {
    assert_eq!(patterns("[H|[A|B]]"), Ok(vec![cell(pvar("H"), cell(pvar("A"), pvar("B")))]));
    assert_eq!(patterns("[[a|b]|t]"), Ok(vec![cell(cell(pvar("a"), pvar("b")), pvar("t"))]));
    assert_eq!(
        patterns("[x|[]]"),
        Ok(vec![cell(pvar("x"), ArgBind::ConstPattern(Data::Emptylist))])
    );
    assert_eq!(
        patterns("[0|[true|T]]"),
        Ok(vec![cell(
            ArgBind::ConstPattern(num(0)),
            cell(ArgBind::ConstPattern(Data::Boolean(true)), pvar("T"))
        )])
    );
}

#[test]
fn malformed_patterns() {
    for src in [
        "[H,T]", "[H]", "a+b", "+", "(x)", "[H|T][A|B]", "a,", ",a", ",", "a,,b", "[H|T|U]",
        "[|T]", "[H|]", "[a+b|T]", "x[H|T]", "{x}", "f(x)", "[H|f(x)]",
    ] {
        assert_eq!(patterns(src), Err(MyError::MalformedGrammar), "on {}", src);
    }
    assert_eq!(patterns("ab"), Ok(vec![pvar("ab")]));
}

#[test]
fn parts_are_read_one_by_one() {
    let part = |src: &str| pattern_segments(src);
    assert_eq!(slots_to_binds(&[part("a"), part("[H|T]")]), Ok(vec![pvar("a"), cell(pvar("H"), pvar("T"))]));
    assert_eq!(slots_to_binds(&[]), Ok(vec![]));
    assert_eq!(slots_to_binds(&[part("a"), vec![]]), Err(MyError::MalformedGrammar));
    assert_eq!(list_to_bind(&part("H|T")), Ok(cell(pvar("H"), pvar("T"))));
    assert_eq!(list_to_bind(&vec![]), Ok(ArgBind::ConstPattern(Data::Emptylist)));
    assert_eq!(list_to_bind(&part("H")), Err(MyError::MalformedGrammar));
}

#[test]
fn one_token_is_a_constant_or_a_variable() {
    let t = |s: &str| Token::Identifier(chars(s));
    assert_eq!(token_to_bind(&t("7")), Ok(ArgBind::ConstPattern(num(7))));
    assert_eq!(token_to_bind(&t("false")), Ok(ArgBind::ConstPattern(Data::Boolean(false))));
    assert_eq!(token_to_bind(&t("x")), Ok(pvar("x")));
    assert_eq!(token_to_bind(&Token::Add), Err(MyError::MalformedGrammar));
    assert_eq!(try_token_to_constant(&t("x")), None);
    assert_eq!(try_token_to_constant(&Token::Pipe), None);
    assert_eq!(try_token_to_constant(&t("-3")), Some(ArgBind::ConstPattern(num(-3))));
    assert_eq!(try_token_to_identifier(&t("7")), Some(pvar("7")));
    assert_eq!(try_token_to_identifier(&Token::Pipe), None);
}

#[test]
fn one_part_is_one_pattern() {
    assert_eq!(single_seg_to_bind(&pattern_segments("[H|T]")), Ok(cell(pvar("H"), pvar("T"))));
    assert_eq!(single_seg_to_bind(&pattern_segments("x")), Ok(pvar("x")));
    assert_eq!(single_seg_to_bind(&pattern_segments("7")), Ok(ArgBind::ConstPattern(num(7))));
    assert_eq!(single_seg_to_bind(&pattern_segments("{x}")), Err(MyError::MalformedGrammar));
    assert_eq!(single_seg_to_bind(&pattern_segments("")), Err(MyError::MalformedGrammar));
    assert_eq!(single_seg_to_bind(&pattern_segments("a,b")), Err(MyError::MalformedGrammar));
}

#[test]
fn the_left_of_an_assignment_is_a_variable() {
    assert_eq!(call_level_to_argbind(&CallLevel::Identifier(chars("x"))), Ok(pvar("x")));
    assert_eq!(call_level_to_argbind(&CallLevel::Identifier(chars("1"))), Ok(pvar("1")));
    assert_eq!(call_level_to_argbind(&CallLevel::Emptylist), Err(MyError::MalformedGrammar));
    assert_eq!(
        call_level_to_argbind(&CallLevel::ListBuild(vec![])),
        Err(MyError::MalformedGrammar)
    );
}

#[test]
fn a_variable_binds_any_value() {
    let scope = try_bind_single(empty_scope(), &pvar("x"), &num(3)).unwrap().unwrap();
    assert_eq!(scope.get(&chars("x")), Some(&num(3)));
    assert_eq!(scope.get(&chars("y")), None);
}

#[test]
fn a_constant_takes_only_its_own_value() {
    let zero = ArgBind::ConstPattern(num(0));
    assert!(try_bind_single(empty_scope(), &zero, &num(0)).unwrap().is_some());
    assert!(try_bind_single(empty_scope(), &zero, &num(1)).unwrap().is_none());
    assert!(try_bind_single(empty_scope(), &zero, &Data::Boolean(false)).unwrap().is_none());
    assert!(try_bind_single(empty_scope(), &zero, &Data::Emptylist).unwrap().is_none());
}

#[test]
fn the_empty_list_pattern_takes_the_empty_list() {
    assert!(try_bind_single(empty_scope(), &ArgBind::Emptylist, &Data::Emptylist)
        .unwrap()
        .is_some());
    assert!(try_bind_single(empty_scope(), &ArgBind::Emptylist, &num(0)).unwrap().is_none());
    assert!(try_bind_single(
        empty_scope(),
        &ArgBind::Emptylist,
        &cons(num(1), Data::Emptylist)
    )
    .unwrap()
    .is_none());
    let constant = ArgBind::ConstPattern(Data::Emptylist);
    assert!(try_bind_single(empty_scope(), &constant, &Data::Emptylist).unwrap().is_some());
    assert!(try_bind_single(empty_scope(), &constant, &num(0)).unwrap().is_none());
}

#[test]
fn a_list_pattern_takes_a_list_apart() {
    let list = cons(num(1), cons(num(2), cons(num(3), Data::Emptylist)));
    let scope = try_bind_single(empty_scope(), &cell(pvar("H"), pvar("T")), &list)
        .unwrap()
        .unwrap();
    assert_eq!(scope.get(&chars("H")), Some(&num(1)));
    assert_eq!(scope.get(&chars("T")), Some(&cons(num(2), cons(num(3), Data::Emptylist))));
}

#[test]
fn list_patterns_nest() {
    let list = cons(num(1), cons(num(2), Data::Emptylist));
    let pattern = cell(pvar("a"), cell(pvar("b"), ArgBind::Emptylist));
    let scope = try_bind_single(empty_scope(), &pattern, &list).unwrap().unwrap();
    assert_eq!(scope.get(&chars("a")), Some(&num(1)));
    assert_eq!(scope.get(&chars("b")), Some(&num(2)));
    let longer = cons(num(1), cons(num(2), cons(num(3), Data::Emptylist)));
    assert!(try_bind_single(empty_scope(), &pattern, &longer).unwrap().is_none());
}

#[test]
fn a_list_pattern_takes_no_other_value() {
    let pattern = cell(pvar("H"), pvar("T"));
    assert!(try_bind_single(empty_scope(), &pattern, &Data::Emptylist).unwrap().is_none());
    assert!(try_bind_single(empty_scope(), &pattern, &num(1)).unwrap().is_none());
    let improper = cons(num(1), num(2));
    let scope = try_bind_single(empty_scope(), &pattern, &improper).unwrap().unwrap();
    assert_eq!(scope.get(&chars("T")), Some(&num(2)));
}

#[test]
fn a_name_that_is_bound_cannot_be_bound_again() {
    let scope = empty_scope().insert(chars("x"), num(1));
    assert_eq!(
        try_bind_single(scope, &pvar("x"), &num(1)).map(|s| s.is_some()),
        Err(MyError::DuplicateBinding)
    );
    assert_eq!(
        try_bind(&vec![pvar("x"), pvar("x")], &vec![num(1), num(1)]).map(|s| s.is_some()),
        Err(MyError::DuplicateBinding)
    );
    assert_eq!(
        try_bind_single(empty_scope(), &cell(pvar("x"), pvar("x")), &cons(num(1), num(1)))
            .map(|s| s.is_some()),
        Err(MyError::DuplicateBinding)
    );
}

#[test]
fn arguments_are_matched_from_left_to_right() {
    let scope = try_bind(&vec![pvar("a"), ArgBind::ConstPattern(num(2)), pvar("c")], &vec![
        num(1),
        num(2),
        num(3),
    ])
    .unwrap()
    .unwrap();
    assert_eq!(scope.get(&chars("a")), Some(&num(1)));
    assert_eq!(scope.get(&chars("c")), Some(&num(3)));
    assert!(try_bind(&vec![pvar("a"), ArgBind::ConstPattern(num(2))], &vec![num(1), num(3)])
        .unwrap()
        .is_none());
    assert!(try_bind(&vec![ArgBind::ConstPattern(num(0)), pvar("x"), pvar("x")], &vec![
        num(1),
        num(2),
        num(3),
    ])
    .unwrap()
    .is_none());
}

#[test]
fn lists_of_different_lengths_are_an_arity_error() {
    assert_eq!(
        try_bind(&vec![pvar("a")], &vec![num(1), num(2)]).map(|s| s.is_some()),
        Err(MyError::PatternArityMismatch)
    );
    assert_eq!(
        try_bind(&vec![pvar("a")], &vec![]).map(|s| s.is_some()),
        Err(MyError::PatternArityMismatch)
    );
    assert_eq!(try_bind(&vec![], &vec![]).map(|s| s.is_some()), Ok(true));
}

#[test]
fn matching_extends_the_scope_it_starts_from() {
    let start = empty_scope().insert(chars("k"), Data::Boolean(true));
    let scope = try_bind_with_state(start, &vec![pvar("x")], &vec![num(9)]).unwrap().unwrap();
    assert_eq!(scope.get(&chars("k")), Some(&Data::Boolean(true)));
    assert_eq!(scope.get(&chars("x")), Some(&num(9)));
}

#[test]
fn values_compare_by_structure() {
    assert_eq!(cons(num(1), Data::Emptylist), cons(num(1), Data::Emptylist));
    assert_ne!(cons(num(1), Data::Emptylist), cons(num(2), Data::Emptylist));
    assert_ne!(cons(num(1), Data::Emptylist), cons(num(1), num(1)));
    assert_ne!(num(1), Data::Boolean(true));
    assert_eq!(
        Data::FunctionPointer(FunctionName::Static(chars("f"))),
        Data::FunctionPointer(FunctionName::Static(chars("f")))
    );
    assert_ne!(
        Data::FunctionPointer(FunctionName::Static(chars("f"))),
        Data::FunctionPointer(FunctionName::Dynamic(chars("f")))
    );
    assert_ne!(
        Data::FunctionPointer(FunctionName::Static(chars("f"))),
        Data::FunctionPointer(FunctionName::Static(chars("g")))
    );
    let list = cons(num(1), cons(Data::Boolean(false), Data::Emptylist));
    assert_eq!(list.clone(), list);
}

#[test]
fn a_scope_rebinds_and_copies() {
    let scope = empty_scope().insert(chars("x"), num(1)).insert(chars("y"), num(2));
    let scope = scope.insert(chars("x"), num(3));
    assert_eq!(scope.get(&chars("x")), Some(&num(3)));
    assert_eq!(scope.get(&chars("y")), Some(&num(2)));
    assert_eq!(scope.entries().len(), 2);
    assert!(scope.contains_key(&chars("y")));
    assert!(!scope.contains_key(&chars("z")));
    let copy = scope.duplicate();
    assert_eq!(copy.get(&chars("x")), Some(&num(3)));
    assert_eq!(copy.entries().len(), 2);
}
