use patlang::eval::Data;
use patlang::expr::Expr;
use patlang::function::FunctionName;
use patlang::logic_expr::LogicExpr;
use patlang::name_map::NameMap;
use patlang::numeric_expr::NumericData;
use patlang::pattern_match::ArgBind;
use patlang::program::{
    funbind_to_bind, funfilter_to_filter, funfun_to_fun, funs_int, segments_to_binds,
    segments_to_filters, to_funs, to_program, Bind, Filter, Fun, FunBind, FunFilter, FunFun,
    Functions,
};
use patlang::segments::{matched_terminators, prune_clauses, Segment};
use patlang::tokens::{string_to, MyError, Token};

fn letters(s: &str) -> Vec<char> {
    s.chars().collect()
}

fn whole(n: i64) -> Data {
    Data::Number(NumericData::Int(n))
}

fn pruned(src: &str) -> Vec<Segment> {
    prune_clauses(&matched_terminators(&string_to(src.to_string())).unwrap())
}

fn run_segment(names: &[&str]) -> Segment {
    Segment::UnMatched(names.iter().map(|n| Token::Identifier(letters(n))).collect())
}

fn funs(src: &str) -> Result<Functions, MyError> {
    to_funs(&pruned(src))
}

fn body_of_block(src: &str) -> Vec<Segment> {
    match pruned(src).into_iter().nth(1) {
        Some(Segment::Clause { body, .. }) => body,
        other => panic!("expected a block, found {:?}", other),
    }
}

#[test]
fn no_definitions_give_an_empty_table() {
    let table = funs("").unwrap();
    assert_eq!(table.entries().len(), 0);
}

#[test]
fn a_definition_is_entered_under_its_name() {
    let table = funs("f:(x)/x\\end").unwrap();
    assert_eq!(table.entries().len(), 1);
    assert_eq!(
        table.get(&letters("f")),
        Some(&FunFun {
            name: letters("f"),
            binds: vec![FunBind {
                pattern: vec![ArgBind::Identifier(letters("x"))],
                filters: vec![FunFilter { head: vec![], code: vec![run_segment(&["x"])] }],
            }],
        })
    );
    assert_eq!(table.get(&letters("g")), None);
}

#[test]
fn clauses_keep_their_order() {
    let table = funs("f:(0)/10\\(N)/20\\end").unwrap();
    let f = table.get(&letters("f")).unwrap();
    assert_eq!(f.binds.len(), 2);
    assert_eq!(f.binds[0].pattern, vec![ArgBind::ConstPattern(whole(0))]);
    assert_eq!(f.binds[1].pattern, vec![ArgBind::Identifier(letters("N"))]);
    assert_eq!(f.binds[0].filters[0].code, vec![run_segment(&["10"])]);
    assert_eq!(f.binds[1].filters[0].code, vec![run_segment(&["20"])]);
}

#[test]
fn guards_stand_before_their_bodies() {
    let body = body_of_block("g:(x){x==1}/1\\{x==2}/2\\/3\\end");
    let binds = segments_to_binds(&body).unwrap();
    assert_eq!(binds.len(), 1);
    let filters = &binds[0].filters;
    assert_eq!(filters.len(), 3);
    assert_eq!(
        filters[0].head,
        vec![Segment::UnMatched(vec![
            Token::Identifier(letters("x")),
            Token::Eq,
            Token::Identifier(letters("1"))
        ])]
    );
    assert_eq!(filters[0].code, vec![run_segment(&["1"])]);
    assert_eq!(filters[1].code, vec![run_segment(&["2"])]);
    assert_eq!(filters[2].head, Vec::<Segment>::new());
    assert_eq!(filters[2].code, vec![run_segment(&["3"])]);
}

#[test]
fn filters_end_where_the_next_pattern_starts() {
    let body = body_of_block("f:(0)/10\\(N)/20\\end");
    let (filters, taken) = segments_to_filters(&body[1..]).unwrap();
    assert_eq!(filters.len(), 1);
    assert_eq!(taken, 1);
    let (filters, taken) = segments_to_filters(&body[2..]).unwrap();
    assert_eq!(filters.len(), 0);
    assert_eq!(taken, 0);
    let (filters, taken) = segments_to_filters(&[]).unwrap();
    assert_eq!(filters.len(), 0);
    assert_eq!(taken, 0);
}

#[test]
fn a_single_segment_that_is_no_body_is_malformed() {
    let body = body_of_block("f:(0)(1)end");
    assert_eq!(
        segments_to_filters(&body[1..]).map(|r| r.1),
        Err(MyError::MalformedGrammar)
    );
    assert_eq!(segments_to_binds(&body).map(|b| b.len()), Err(MyError::MalformedGrammar));
}

#[test]
fn a_block_must_hold_clauses() {
    assert_eq!(funs("f:xend").map(|t| t.entries().len()), Err(MyError::MalformedGrammar));
    assert_eq!(funs("f:/1\\end").map(|t| t.entries().len()), Err(MyError::MalformedGrammar));
    assert_eq!(funs("f:(x)[a]end").map(|t| t.entries().len()), Err(MyError::MalformedGrammar));
}

#[test]
fn a_block_without_clauses_defines_an_empty_function() {
    let table = funs("f:end").unwrap();
    assert_eq!(table.get(&letters("f")), Some(&FunFun { name: letters("f"), binds: vec![] }));
}

#[test]
fn what_is_no_definition_is_malformed() {
    assert_eq!(funs("f").map(|t| t.entries().len()), Err(MyError::MalformedGrammar));
    assert_eq!(funs("f(x)").map(|t| t.entries().len()), Err(MyError::MalformedGrammar));
    assert_eq!(funs(":(x)/1\\end").map(|t| t.entries().len()), Err(MyError::MalformedGrammar));
    assert_eq!(funs("a+b:(x)/1\\end").map(|t| t.entries().len()), Err(MyError::MalformedGrammar));
    assert_eq!(funs("+:(x)/1\\end").map(|t| t.entries().len()), Err(MyError::MalformedGrammar));
    assert_eq!(
        funs("f:(x)/1\\endg").map(|t| t.entries().len()),
        Err(MyError::MalformedGrammar)
    );
}

#[test]
fn the_last_definition_of_a_name_stands() {
    let table = funs("f:()/1\\endg:()/5\\endf:()/2\\end").unwrap();
    assert_eq!(table.entries().len(), 2);
    let f = table.get(&letters("f")).unwrap();
    assert_eq!(f.binds.len(), 1);
    assert_eq!(f.binds[0].filters[0].code, vec![run_segment(&["2"])]);
    let once = funs("g:()/5\\endf:()/2\\end").unwrap();
    assert_eq!(once.get(&letters("f")), table.get(&letters("f")));
    assert_eq!(once.get(&letters("g")), table.get(&letters("g")));
}

#[test]
fn definitions_are_entered_behind_those_given() {
    let start: Functions = NameMap::new();
    let start = start.insert(letters("h"), FunFun { name: letters("h"), binds: vec![] });
    let table = funs_int(&pruned("f:()/1\\end"), start).unwrap();
    assert!(table.contains_key(&letters("h")));
    assert!(table.contains_key(&letters("f")));
}

#[test]
fn a_filter_without_a_guard_is_always_true() {
    let no_context: Functions = NameMap::new();
    let filter = FunFilter { head: vec![], code: vec![run_segment(&["7"])] };
    assert_eq!(
        funfilter_to_filter(&filter, &no_context),
        Ok(Filter { head: LogicExpr::True, code: Expr::Constant(whole(7)) })
    );
    let malformed = FunFilter { head: vec![], code: vec![] };
    assert_eq!(funfilter_to_filter(&malformed, &no_context), Err(MyError::MalformedGrammar));
}

#[test]
fn a_program_has_the_names_of_its_table() {
    let table = funs("f:(x){x==1}/x\\/g(x)\\endg:(y)/f\\end").unwrap();
    let program = to_program(&table).unwrap();
    assert_eq!(program.entries().len(), 2);
    assert_eq!(
        program.get(&letters("f")),
        Some(&Fun {
            name: letters("f"),
            binds: vec![Bind {
                pattern: vec![ArgBind::Identifier(letters("x"))],
                filters: vec![
                    Filter {
                        head: LogicExpr::EQ(vec![
                            Expr::Identifier(letters("x")),
                            Expr::Constant(whole(1))
                        ]),
                        code: Expr::Identifier(letters("x")),
                    },
                    Filter {
                        head: LogicExpr::True,
                        code: Expr::Call(FunctionName::Static(letters("g")), vec![
                            Expr::Identifier(letters("x"))
                        ]),
                    }
                ],
            }],
        })
    );
    assert_eq!(
        program.get(&letters("g")),
        Some(&Fun {
            name: letters("g"),
            binds: vec![Bind {
                pattern: vec![ArgBind::Identifier(letters("y"))],
                filters: vec![Filter {
                    head: LogicExpr::True,
                    code: Expr::Constant(Data::FunctionPointer(FunctionName::Static(letters(
                        "f"
                    )))),
                }],
            }],
        })
    );
}

#[test]
fn one_malformed_body_fails_the_whole_program() {
    let table = funs("f:()/1\\endg:()/a+b*c\\end").unwrap();
    assert_eq!(to_program(&table).map(|p| p.entries().len()), Err(MyError::MalformedGrammar));
    let table = funs("f:(){a+b}/1\\end").unwrap();
    assert_eq!(to_program(&table).map(|p| p.entries().len()), Err(MyError::MalformedGrammar));
}

#[test]
fn a_definition_that_was_replaced_is_not_lowered() {
    let table = funs("f:()/a+b*c\\endf:()/2\\end").unwrap();
    let program = to_program(&table).unwrap();
    assert_eq!(
        program.get(&letters("f")).unwrap().binds[0].filters[0].code,
        Expr::Constant(whole(2))
    );
}

#[test]
fn functions_and_clauses_are_lowered_alone() {
    let table = funs("f:(a,b)/a\\end").unwrap();
    let f = table.get(&letters("f")).unwrap();
    let lowered = funfun_to_fun(f, &table).unwrap();
    assert_eq!(lowered.name, letters("f"));
    assert_eq!(lowered.binds.len(), 1);
    let bind = funbind_to_bind(&f.binds[0], &table).unwrap();
    assert_eq!(
        bind.pattern,
        vec![ArgBind::Identifier(letters("a")), ArgBind::Identifier(letters("b"))]
    );
    assert_eq!(bind.filters, vec![Filter {
        head: LogicExpr::True,
        code: Expr::Identifier(letters("a"))
    }]);
}
