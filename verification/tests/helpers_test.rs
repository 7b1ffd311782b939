use patlang::call_levels::CallLevel;
use patlang::eval::Data;
use patlang::expr::Expr;
use patlang::function::{clone_name, FunctionName};
use patlang::logic_expr::LogicExpr;
use patlang::name_map::NameMap;
use patlang::numeric_expr::{call_levels_to_num_exprs, NumericData, NumericExpr};
use patlang::pattern_match::ArgBind;
use patlang::program::{
    clone_patterns, funbinds_to_binds, funfilters_to_filters, to_funs, Filter, FunFilter,
    Functions,
};
use patlang::segments::{
    clone_segments, clone_tokens, matched_terminators, prune_clauses, Segment,
};
use patlang::tokens::{chars_eq, chars_of, copy_range, string_to, MyError, Token};
use patlang::views::{sub_slice, whole_slice};

fn word(s: &str) -> Vec<char> {
    s.chars().collect()
}

fn parsed(src: &str) -> Vec<Segment> {
    prune_clauses(&matched_terminators(&string_to(src.to_string())).unwrap())
}

#[test]
fn texts_are_compared_character_by_character() {
    assert!(chars_eq(&word("abc"), &word("abc")));
    assert!(chars_eq(&word(""), &word("")));
    assert!(!chars_eq(&word("abc"), &word("abd")));
    assert!(!chars_eq(&word("abc"), &word("ab")));
    assert!(!chars_eq(&word(""), &word("a")));
}

#[test]
fn a_range_of_characters_is_copied() {
    let text = word("hello");
    assert_eq!(copy_range(&text, 1, 4), word("ell"));
    assert_eq!(copy_range(&text, 0, 5), text);
    assert_eq!(copy_range(&text, 2, 2), word(""));
    assert_eq!(clone_name(&text), text);
}

#[test]
fn the_characters_of_a_string_come_in_order() {
    assert_eq!(chars_of("a\u{e9}\u{4e16}z"), vec!['a', '\u{e9}', '\u{4e16}', 'z']);
    assert_eq!(chars_of(""), Vec::<char>::new());
}

#[test]
fn tokens_and_segments_are_copied() {
    let tokens = string_to("f(a,[b|c])".to_string());
    assert_eq!(clone_tokens(&tokens), tokens);
    let segments = parsed("f:(x){x==1}/g(x,[a|b])\\end");
    assert_eq!(clone_segments(&segments), segments);
    assert_eq!(clone_segments(&Vec::new()), Vec::<Segment>::new());
}

#[test]
fn patterns_are_copied() {
    let patterns = vec![
        ArgBind::Identifier(word("x")),
        ArgBind::ConstPattern(Data::Number(NumericData::Int(3))),
        ArgBind::ListPattern {
            head: Box::new(ArgBind::Emptylist),
            tail: Box::new(ArgBind::ConstPattern(Data::FunctionPointer(FunctionName::Rust(
                word("log"),
            )))),
        },
    ];
    assert_eq!(clone_patterns(&patterns), patterns);
}

#[test]
fn slices_are_parts_of_vectors() {
    let tokens = vec![Token::Add, Token::SUB, Token::MUL, Token::Eq];
    assert_eq!(whole_slice(&tokens), &tokens[..]);
    assert_eq!(sub_slice(&tokens, 1, 3), &[Token::SUB, Token::MUL][..]);
    assert_eq!(sub_slice(&tokens, 2, 2), &[][..]);
    assert_eq!(sub_slice(&tokens, 0, 4), &tokens[..]);
}

#[test]
fn function_names_compare_by_kind_and_text() {
    let f = FunctionName::Static(word("f"));
    assert_eq!(f.clone(), f);
    assert_eq!(FunctionName::Dynamic(word("f")).clone(), FunctionName::Dynamic(word("f")));
    assert_eq!(FunctionName::Rust(word("f")).clone(), FunctionName::Rust(word("f")));
    assert_ne!(FunctionName::Static(word("f")), FunctionName::Rust(word("f")));
    assert_ne!(FunctionName::Dynamic(word("f")), FunctionName::Dynamic(word("g")));
}

#[test]
fn a_map_keeps_the_order_of_first_insertion() {
    let map: NameMap<Data> = NameMap::new();
    assert_eq!(map.entries().len(), 0);
    assert_eq!(map.get(&word("a")), None);
    let map = map
        .insert(word("b"), Data::Boolean(true))
        .insert(word("a"), Data::Emptylist)
        .insert(word("b"), Data::Boolean(false))
        .insert(word(""), Data::Emptylist);
    let names: Vec<Vec<char>> = map.entries().iter().map(|e| e.0.clone()).collect();
    assert_eq!(names, vec![word("b"), word("a"), word("")]);
    assert_eq!(map.get(&word("b")), Some(&Data::Boolean(false)));
    assert_eq!(map.get(&word("")), Some(&Data::Emptylist));
    assert_eq!(map.get(&word("c")), None);
}

#[test]
fn filters_and_clauses_are_lowered_in_their_order() {
    let table: Functions = to_funs(&parsed("f:(x){x==1}/1\\/2\\(y,z)/y\\end")).unwrap();
    let f = table.get(&word("f")).unwrap();
    let filters = funfilters_to_filters(&f.binds[0].filters, &table).unwrap();
    assert_eq!(filters.len(), 2);
    assert_eq!(
        filters[1],
        Filter {
            head: LogicExpr::True,
            code: Expr::Constant(Data::Number(NumericData::Int(2)))
        }
    );
    let binds = funbinds_to_binds(&f.binds, &table).unwrap();
    assert_eq!(binds.len(), 2);
    assert_eq!(
        binds[1].pattern,
        vec![ArgBind::Identifier(word("y")), ArgBind::Identifier(word("z"))]
    );
    assert_eq!(funfilters_to_filters(&[], &table), Ok(vec![]));
    assert_eq!(funbinds_to_binds(&[], &table), Ok(vec![]));
    let broken = vec![
        FunFilter { head: vec![], code: parsed("1") },
        FunFilter { head: vec![], code: parsed("a+b*c") },
    ];
    assert_eq!(funfilters_to_filters(&broken, &table), Err(MyError::MalformedGrammar));
}

#[test]
fn numeric_operands_are_lowered_in_their_order() {
    let table: Functions = NameMap::new();
    let levels = vec![CallLevel::Identifier(word("1")), CallLevel::Identifier(word("x"))];
    assert_eq!(
        call_levels_to_num_exprs(&levels, &table),
        Ok(vec![
            NumericExpr::Const(NumericData::Int(1)),
            NumericExpr::Identifier(word("x"))
        ])
    );
    assert_eq!(call_levels_to_num_exprs(&[], &table), Ok(vec![]));
    assert_eq!(
        call_levels_to_num_exprs(&[CallLevel::Emptylist], &table),
        Err(MyError::MalformedGrammar)
    );
}
