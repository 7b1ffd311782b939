use patlang::call_levels::{
    build_level_int, int_oplevel_to_oplevel, listbuild, make_fun, make_rust_fun,
    read_slot_levels, segment_to_call_level, segments_to_call_args, segments_to_call_level,
    tokens_to_call_level, CallLevel, IntOpLevel,
};
use patlang::function::FunctionName;
use patlang::name_map::NameMap;
use patlang::program::{FunFun, Functions};
use patlang::segments::{matched_terminators, prune_clauses, Segment};
use patlang::tokens::{string_to, MyError, Token};

fn name(s: &str) -> Vec<char> {
    s.chars().collect()
}

fn var(s: &str) -> CallLevel {
    CallLevel::Identifier(name(s))
}

fn segs(src: &str) -> Vec<Segment> {
    prune_clauses(&matched_terminators(&string_to(src.to_string())).unwrap())
}

fn no_functions() -> Functions {
    NameMap::new()
}

fn functions_named(names: &[&str]) -> Functions {
    let mut table: Functions = NameMap::new();
    for n in names {
        table = table.insert(name(n), FunFun { name: name(n), binds: Vec::new() });
    }
    table
}

fn level(src: &str) -> Result<CallLevel, MyError> {
    segments_to_call_level(&segs(src), &no_functions())
}

#[test]
fn one_identifier_is_itself() {
    assert_eq!(level("a"), Ok(var("a")));
    assert_eq!(level("12"), Ok(var("12")));
}

#[test]
fn a_chain_is_one_level_with_all_operands() {
    assert_eq!(level("a+b+c+d"), Ok(CallLevel::OpLevel(
        Token::Add,
        vec![var("a"), var("b"), var("c"), var("d")]
    )));
    assert_eq!(level("a==b"), Ok(CallLevel::OpLevel(Token::Eq, vec![var("a"), var("b")])));
    assert_eq!(level("a-b"), Ok(CallLevel::OpLevel(Token::SUB, vec![var("a"), var("b")])));
}

#[test]
fn a_chain_of_mixed_operators_is_malformed() {
    assert_eq!(level("a+b*c"), Err(MyError::MalformedGrammar));
    assert_eq!(level("a+b-c"), Err(MyError::MalformedGrammar));
    assert_eq!(level("a*b+f(x)"), Err(MyError::MalformedGrammar));
}

#[test]
fn a_chain_must_end_in_an_operand() {
    assert_eq!(level("a+"), Err(MyError::MalformedGrammar));
    assert_eq!(level("a+b+"), Err(MyError::MalformedGrammar));
    assert_eq!(level("+a"), Err(MyError::MalformedGrammar));
    assert_eq!(level("a,b"), Err(MyError::MalformedGrammar));
}

#[test]
fn no_segments_are_malformed() {
    assert_eq!(
        segments_to_call_level(&Vec::new(), &no_functions()),
        Err(MyError::MalformedGrammar)
    );
}

#[test]
fn a_call_of_an_unknown_name_is_dynamic() {
    assert_eq!(
        level("f(a,b)"),
        Ok(CallLevel::Call(FunctionName::Dynamic(name("f")), vec![var("a"), var("b")]))
    );
}

#[test]
fn a_call_of_a_defined_name_is_static() {
    assert_eq!(
        segments_to_call_level(&segs("f(a,b)"), &functions_named(&["g", "f"])),
        Ok(CallLevel::Call(FunctionName::Static(name("f")), vec![var("a"), var("b")]))
    );
}

#[test]
fn a_call_without_arguments() {
    assert_eq!(level("f()"), Ok(CallLevel::Call(FunctionName::Dynamic(name("f")), vec![])));
}

#[test]
fn a_call_is_the_last_operand_of_a_chain() {
    assert_eq!(
        level("1+f(a)"),
        Ok(CallLevel::OpLevel(
            Token::Add,
            vec![var("1"), CallLevel::Call(FunctionName::Dynamic(name("f")), vec![var("a")])]
        ))
    );
    assert_eq!(
        level("x*y*f()"),
        Ok(CallLevel::OpLevel(
            Token::MUL,
            vec![var("x"), var("y"), CallLevel::Call(FunctionName::Dynamic(name("f")), vec![])]
        ))
    );
}

#[test]
fn an_assignment_binds_a_call_and_goes_on() {
    assert_eq!(
        level("x=f(a)x+1"),
        Ok(CallLevel::Assign {
            left: Box::new(var("x")),
            right: Box::new(CallLevel::Call(FunctionName::Dynamic(name("f")), vec![var("a")])),
            rest: Box::new(CallLevel::OpLevel(Token::Add, vec![var("x"), var("1")])),
        })
    );
}

#[test]
fn assignments_chain_through_their_rest() {
    assert_eq!(
        level("a=f()b=g()a+b"),
        Ok(CallLevel::Assign {
            left: Box::new(var("a")),
            right: Box::new(CallLevel::Call(FunctionName::Dynamic(name("f")), vec![])),
            rest: Box::new(CallLevel::Assign {
                left: Box::new(var("b")),
                right: Box::new(CallLevel::Call(FunctionName::Dynamic(name("g")), vec![])),
                rest: Box::new(CallLevel::OpLevel(Token::Add, vec![var("a"), var("b")])),
            }),
        })
    );
}

#[test]
fn an_assignment_needs_a_rest() {
    assert_eq!(level("x=f(a)"), Err(MyError::MalformedGrammar));
}

#[test]
fn a_clause_in_parentheses_is_the_first_operand() {
    assert_eq!(
        level("(a+b)*c"),
        Ok(CallLevel::OpLevel(
            Token::MUL,
            vec![CallLevel::OpLevel(Token::Add, vec![var("a"), var("b")]), var("c")]
        ))
    );
}

#[test]
fn a_builtin_call_is_qualified_by_rust() {
    assert_eq!(
        level("log::rust(x)"),
        Ok(CallLevel::Call(FunctionName::Rust(name("log")), vec![var("x")]))
    );
    assert_eq!(level("log::java(x)"), Err(MyError::MalformedGrammar));
    assert_eq!(level("a+log::rust(x)"), Err(MyError::MalformedGrammar));
}

#[test]
fn segments_behind_a_call_are_malformed() {
    assert_eq!(level("f(a)g(b)"), Err(MyError::MalformedGrammar));
    assert_eq!(level("f(a)*n"), Err(MyError::MalformedGrammar));
    assert_eq!(level("1+f(a)+2"), Err(MyError::MalformedGrammar));
}

#[test]
fn other_shapes_are_malformed() {
    assert_eq!(level("(a)"), Err(MyError::MalformedGrammar));
    assert_eq!(level("{a}b"), Err(MyError::MalformedGrammar));
    assert_eq!(level("+(a)"), Err(MyError::MalformedGrammar));
    assert_eq!(level("a,f(x)"), Err(MyError::MalformedGrammar));
}

#[test]
fn list_literals() {
    assert_eq!(
        level("[a,b]"),
        Ok(CallLevel::ListBuild(vec![var("a"), var("b"), CallLevel::Emptylist]))
    );
    assert_eq!(level("[h|t]"), Ok(CallLevel::ListBuild(vec![var("h"), var("t")])));
    assert_eq!(level("[]"), Ok(CallLevel::ListBuild(vec![])));
    assert_eq!(level("[a]"), Ok(CallLevel::ListBuild(vec![var("a"), CallLevel::Emptylist])));
    assert_eq!(
        level("[1,2,3]"),
        Ok(CallLevel::ListBuild(vec![var("1"), var("2"), var("3"), CallLevel::Emptylist]))
    );
}

#[test]
fn list_items_are_expressions() {
    let call = |f: &str, args: Vec<CallLevel>| CallLevel::Call(FunctionName::Dynamic(name(f)), args);
    assert_eq!(
        level("[a+b,f(x)]"),
        Ok(CallLevel::ListBuild(vec![
            CallLevel::OpLevel(Token::Add, vec![var("a"), var("b")]),
            call("f", vec![var("x")]),
            CallLevel::Emptylist
        ]))
    );
    assert_eq!(
        level("[f(x)|g(y,z)]"),
        Ok(CallLevel::ListBuild(vec![
            call("f", vec![var("x")]),
            call("g", vec![var("y"), var("z")])
        ]))
    );
    assert_eq!(
        level("[[a|b],[],c]"),
        Ok(CallLevel::ListBuild(vec![
            CallLevel::ListBuild(vec![var("a"), var("b")]),
            CallLevel::ListBuild(vec![]),
            var("c"),
            CallLevel::Emptylist
        ]))
    );
    assert_eq!(
        level("[a|[b|[c|d]]]"),
        Ok(CallLevel::ListBuild(vec![
            var("a"),
            CallLevel::ListBuild(vec![
                var("b"),
                CallLevel::ListBuild(vec![var("c"), var("d")])
            ])
        ]))
    );
}

#[test]
fn malformed_list_literals() {
    for src in ["[a|b|c]", "[|b]", "[a|]", "[|]", "[a,]", "[,a]", "[,]", "[a,,b]", "[a,b|t]"] {
        assert_eq!(level(src), Err(MyError::MalformedGrammar), "on {}", src);
    }
    assert_eq!(level("[a(b)]"), Ok(CallLevel::ListBuild(vec![
        CallLevel::Call(FunctionName::Dynamic(name("a")), vec![var("b")]),
        CallLevel::Emptylist
    ])));
    assert_eq!(level("[(a)]"), Err(MyError::MalformedGrammar));
    assert_eq!(level("[{a}]"), Err(MyError::MalformedGrammar));
    assert_eq!(level("[a{b}]"), Err(MyError::MalformedGrammar));
}

#[test]
fn segments_and_list_bodies_alone() {
    let list = segs("[x|y]");
    assert_eq!(
        segment_to_call_level(&list[0], &no_functions()),
        Ok(CallLevel::ListBuild(vec![var("x"), var("y")]))
    );
    assert_eq!(
        listbuild(&segs("x,y"), &no_functions()),
        Ok(CallLevel::ListBuild(vec![var("x"), var("y"), CallLevel::Emptylist]))
    );
    assert_eq!(listbuild(&vec![], &no_functions()), Ok(CallLevel::ListBuild(vec![])));
    let block = segs("{x}");
    assert_eq!(segment_to_call_level(&block[0], &no_functions()), Err(MyError::MalformedGrammar));
    assert_eq!(
        read_slot_levels(&[segs("a"), segs("b+c")], &no_functions()),
        Ok(vec![var("a"), CallLevel::OpLevel(Token::Add, vec![var("b"), var("c")])])
    );
    assert_eq!(read_slot_levels(&[], &no_functions()), Ok(vec![]));
    assert_eq!(
        read_slot_levels(&[segs("a"), vec![]], &no_functions()),
        Err(MyError::MalformedGrammar)
    );
}


#[test]
fn arguments_are_split_at_commas() {
    let call = |args: Vec<CallLevel>| Ok(CallLevel::Call(FunctionName::Dynamic(name("f")), args));
    assert_eq!(level("f(a)"), call(vec![var("a")]));
    assert_eq!(level("f(a,b,c)"), call(vec![var("a"), var("b"), var("c")]));
    assert_eq!(level("f(a,)"), Err(MyError::MalformedGrammar));
    assert_eq!(level("f(,a)"), Err(MyError::MalformedGrammar));
    assert_eq!(level("f(,)"), Err(MyError::MalformedGrammar));
    assert_eq!(level("f(a,,b)"), Err(MyError::MalformedGrammar));
    assert_eq!(level("f(+)"), Err(MyError::MalformedGrammar));
    assert_eq!(level("f(a|b)"), Err(MyError::MalformedGrammar));
}

#[test]
fn an_argument_may_be_a_chain() {
    let sum = || CallLevel::OpLevel(Token::Add, vec![var("1"), var("1")]);
    let call = |args: Vec<CallLevel>| Ok(CallLevel::Call(FunctionName::Dynamic(name("f")), args));
    assert_eq!(level("f(1+1,a)"), call(vec![sum(), var("a")]));
    assert_eq!(level("f(1+1)"), call(vec![sum()]));
    assert_eq!(level("f(a,1+1)"), call(vec![var("a"), sum()]));
    assert_eq!(level("f(a,1+1,b,1+1)"), call(vec![var("a"), sum(), var("b"), sum()]));
    assert_eq!(level("f(a,1+)"), Err(MyError::MalformedGrammar));
    assert_eq!(level("f(a,1+2*3)"), Err(MyError::MalformedGrammar));
}

#[test]
fn an_argument_may_be_a_list() {
    let call = |args: Vec<CallLevel>| Ok(CallLevel::Call(FunctionName::Dynamic(name("f")), args));
    let xy = || CallLevel::ListBuild(vec![var("x"), var("y")]);
    let zw = || CallLevel::ListBuild(vec![var("z"), var("w")]);
    assert_eq!(level("f(a,[x|y])"), call(vec![var("a"), xy()]));
    assert_eq!(level("f([x|y])"), call(vec![xy()]));
    assert_eq!(level("f(a,[x|y],b,[z|w])"), call(vec![var("a"), xy(), var("b"), zw()]));
    assert_eq!(level("f([x|y],a)"), call(vec![xy(), var("a")]));
    assert_eq!(level("f([x|y],[z|w])"), call(vec![xy(), zw()]));
    assert_eq!(level("f([],[])"), call(vec![CallLevel::ListBuild(vec![]), CallLevel::ListBuild(vec![])]));
}

#[test]
fn an_argument_may_be_a_call() {
    let call = |f: &str, args: Vec<CallLevel>| CallLevel::Call(FunctionName::Dynamic(name(f)), args);
    assert_eq!(level("f(g(x))"), Ok(call("f", vec![call("g", vec![var("x")])])));
    assert_eq!(
        level("f(a,g(x,h()),b)"),
        Ok(call("f", vec![var("a"), call("g", vec![var("x"), call("h", vec![])]), var("b")]))
    );
    assert_eq!(
        level("f(1+g(x),(a+b)*c)"),
        Ok(call("f", vec![
            CallLevel::OpLevel(Token::Add, vec![var("1"), call("g", vec![var("x")])]),
            CallLevel::OpLevel(Token::MUL, vec![
                CallLevel::OpLevel(Token::Add, vec![var("a"), var("b")]),
                var("c")
            ])
        ]))
    );
    assert_eq!(
        level("f(x=g(1)x+1)"),
        Ok(call("f", vec![CallLevel::Assign {
            left: Box::new(var("x")),
            right: Box::new(call("g", vec![var("1")])),
            rest: Box::new(CallLevel::OpLevel(Token::Add, vec![var("x"), var("1")])),
        }]))
    );
    assert_eq!(
        segments_to_call_level(&segs("f(g(x),h(y))"), &functions_named(&["g"])),
        Ok(call("f", vec![
            CallLevel::Call(FunctionName::Static(name("g")), vec![var("x")]),
            call("h", vec![var("y")])
        ]))
    );
    assert_eq!(
        level("f(io::rust(x))"),
        Ok(call("f", vec![CallLevel::Call(FunctionName::Rust(name("io")), vec![var("x")])]))
    );
}

#[test]
fn malformed_arguments() {
    assert_eq!(level("f(a[x|y])"), Err(MyError::MalformedGrammar));
    assert_eq!(level("f(g(x)h(y))"), Err(MyError::MalformedGrammar));
    assert_eq!(level("f((a))"), Err(MyError::MalformedGrammar));
    assert_eq!(level("f({a})"), Err(MyError::MalformedGrammar));
    assert_eq!(level("f(a,{b})"), Err(MyError::MalformedGrammar));
    assert_eq!(level("f(g(,))"), Err(MyError::MalformedGrammar));
}

#[test]
fn no_segments_are_no_arguments() {
    assert_eq!(segments_to_call_args(&[], &no_functions()), Ok(vec![]));
    assert_eq!(
        segments_to_call_args(&segs("a,b"), &no_functions()),
        Ok(vec![var("a"), var("b")])
    );
}

#[test]
fn chain_builder_reads_operands_behind_those_given() {
    let t = |s: &str| Token::Identifier(name(s));
    let built = build_level_int(&[t("b"), Token::Add, t("c")], &Token::Add, vec![var("a")]);
    assert_eq!(built, Ok(IntOpLevel { t: Token::Add, v: vec![var("a"), var("b"), var("c")] }));
    assert_eq!(
        int_oplevel_to_oplevel(built.unwrap()),
        CallLevel::OpLevel(Token::Add, vec![var("a"), var("b"), var("c")])
    );
}

#[test]
fn chain_builder_rejects_what_is_no_chain() {
    let t = |s: &str| Token::Identifier(name(s));
    assert_eq!(build_level_int(&[], &Token::Add, vec![]), Err(MyError::MalformedGrammar));
    assert_eq!(
        build_level_int(&[t("a"), Token::Add], &Token::Add, vec![]),
        Err(MyError::MalformedGrammar)
    );
    assert_eq!(
        build_level_int(&[t("a"), Token::MUL, t("b")], &Token::Add, vec![]),
        Err(MyError::MalformedGrammar)
    );
    assert_eq!(
        build_level_int(&[Token::Add], &Token::Add, vec![]),
        Err(MyError::MalformedGrammar)
    );
    assert_eq!(
        build_level_int(&[t("a")], &Token::Assign, vec![]),
        Err(MyError::MalformedGrammar)
    );
}

#[test]
fn token_runs_of_length_two_are_malformed() {
    let t = |s: &str| Token::Identifier(name(s));
    assert_eq!(tokens_to_call_level(&[t("a"), t("b")]), Err(MyError::MalformedGrammar));
    assert_eq!(tokens_to_call_level(&[]), Err(MyError::MalformedGrammar));
    assert_eq!(tokens_to_call_level(&[Token::Add]), Err(MyError::MalformedGrammar));
    assert_eq!(
        tokens_to_call_level(&[t("a"), Token::Assign, t("b")]),
        Err(MyError::MalformedGrammar)
    );
}

#[test]
fn calls_are_made_static_only_for_defined_names() {
    let args = segs("a");
    assert_eq!(
        make_fun(&name("f"), &args, &functions_named(&["f"])),
        Ok(CallLevel::Call(FunctionName::Static(name("f")), vec![var("a")]))
    );
    assert_eq!(
        make_fun(&name("f"), &args, &functions_named(&["g"])),
        Ok(CallLevel::Call(FunctionName::Dynamic(name("f")), vec![var("a")]))
    );
    assert_eq!(
        make_rust_fun(&name("log"), &args, &no_functions()),
        Ok(CallLevel::Call(FunctionName::Rust(name("log")), vec![var("a")]))
    );
    assert_eq!(make_fun(&name("f"), &segs("a,"), &no_functions()), Err(MyError::MalformedGrammar));
}
