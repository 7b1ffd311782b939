use crate::call_levels::{
    lemma_call_levels_view, segments_level, segments_to_call_level, CallLevel, SpecCallLevel,
};
use crate::eval::{Data, Program, ProgramState, SpecData, SpecProgram, SpecScope};
use crate::expr::{
    call_levels_to_exprs, eval_and_call, eval_args, eval_call, eval_expr, eval_exprs, expr_view,
    exprs_view, lemma_exprs_view, lookup, lower_exprs, var_lookup, Expr, SpecExpr,
};
use crate::function::{Builtins, FunctionName, SpecFunctionName};
use crate::program::Functions;
use crate::segments::{Segment, SpecSegment};
use crate::tokens::{MyError, SpecToken, Token};
use crate::views::{res_view, whole_slice};
use itertools::Itertools;
use crate::function::clone_name;
use vstd::prelude::*;

verus! {

/// An expression whose value is a truth value.
#[derive(Debug, PartialEq)]
pub enum LogicExpr {
    True,
    False,
    Identifier(Vec<char>),
    /// True where every operand is true.
    AND(Vec<LogicExpr>),
    /// True where all operands have the same value.
    EQ(Vec<Expr>),
    NEQ(Box<Expr>, Box<Expr>),
    Call(Vec<char>, Vec<Expr>),
    DynamicCall(Vec<char>, Vec<Expr>),
}

/// The mathematical value of a [`LogicExpr`].
pub enum SpecLogicExpr {
    True,
    False,
    Identifier(Seq<char>),
    AND(Seq<SpecLogicExpr>),
    EQ(Seq<SpecExpr>),
    NEQ(Box<SpecExpr>, Box<SpecExpr>),
    Call(Seq<char>, Seq<SpecExpr>),
    DynamicCall(Seq<char>, Seq<SpecExpr>),
}

/// The mathematical values of a sequence of logic expressions.
pub open spec fn logic_exprs_view(v: Seq<LogicExpr>) -> Seq<SpecLogicExpr>
    decreases v,
{
    Seq::new(
        v.len(),
        |i: int|
            if 0 <= i < v.len() {
                logic_expr_view(v[i])
            } else {
                arbitrary()
            },
    )
}

/// The mathematical value of a logic expression.
pub open spec fn logic_expr_view(e: LogicExpr) -> SpecLogicExpr
    decreases e,
{
    match e {
        LogicExpr::True => SpecLogicExpr::True,
        LogicExpr::False => SpecLogicExpr::False,
        LogicExpr::Identifier(name) => SpecLogicExpr::Identifier(name@),
        LogicExpr::AND(v) => SpecLogicExpr::AND(logic_exprs_view(v@)),
        LogicExpr::EQ(v) => SpecLogicExpr::EQ(exprs_view(v@)),
        LogicExpr::NEQ(l, r) => SpecLogicExpr::NEQ(
            Box::new(expr_view(*l)),
            Box::new(expr_view(*r)),
        ),
        LogicExpr::Call(name, args) => SpecLogicExpr::Call(name@, exprs_view(args@)),
        LogicExpr::DynamicCall(name, args) => SpecLogicExpr::DynamicCall(
            name@,
            exprs_view(args@),
        ),
    }
}

impl DeepView for LogicExpr {
    type V = SpecLogicExpr;

    #[verifier::inline]
    open spec fn deep_view(&self) -> SpecLogicExpr {
        logic_expr_view(*self)
    }
}

impl View for LogicExpr {
    type V = SpecLogicExpr;

    #[verifier::inline]
    open spec fn view(&self) -> SpecLogicExpr {
        logic_expr_view(*self)
    }
}

/// The value of a logic expression, with the values of its parts written as
/// the deep view of the vector that holds them.
pub broadcast proof fn lemma_logic_expr_view(e: LogicExpr)
    ensures
        #![trigger logic_expr_view(e)]
        e matches LogicExpr::AND(v) ==> logic_expr_view(e) == SpecLogicExpr::AND(v.deep_view()),
        e matches LogicExpr::EQ(v) ==> logic_expr_view(e) == SpecLogicExpr::EQ(v.deep_view()),
        e matches LogicExpr::Call(name, args) ==> logic_expr_view(e) == SpecLogicExpr::Call(
            name@,
            args.deep_view(),
        ),
        e matches LogicExpr::DynamicCall(name, args) ==> logic_expr_view(e)
            == SpecLogicExpr::DynamicCall(name@, args.deep_view()),
{
    match e {
        LogicExpr::AND(v) => {
            assert(logic_exprs_view(v@) =~= v.deep_view());
        },
        LogicExpr::EQ(v) => {
            lemma_exprs_view(v);
        },
        LogicExpr::Call(name, args) => {
            lemma_exprs_view(args);
        },
        LogicExpr::DynamicCall(name, args) => {
            lemma_exprs_view(args);
        },
        _ => {},
    }
}

/// The truth value that a text spells: `true` or `false`.
pub open spec fn bool_literal(s: Seq<char>) -> Option<bool> {
    if s == seq!['t', 'r', 'u', 'e'] {
        Some(true)
    } else if s == seq!['f', 'a', 'l', 's', 'e'] {
        Some(false)
    } else {
        None
    }
}

/// Reads a text as a truth value.
pub fn parse_bool(chars: &Vec<char>) -> (r: Option<bool>)
    ensures
        r == bool_literal(chars@),
{
    if chars.len() == 4 && chars[0] == 't' && chars[1] == 'r' && chars[2] == 'u' && chars[3]
        == 'e' {
        assert(chars@ =~= seq!['t', 'r', 'u', 'e']);
        Some(true)
    } else if chars.len() == 5 && chars[0] == 'f' && chars[1] == 'a' && chars[2] == 'l' && chars[3]
        == 's' && chars[4] == 'e' {
        assert(chars@ =~= seq!['f', 'a', 'l', 's', 'e']);
        Some(false)
    } else {
        None
    }
}

/// What an identifier stands for where a truth value is wanted: a constant
/// where its text spells one, else a variable.
pub open spec fn token_logic_expr(chars: Seq<char>) -> SpecLogicExpr {
    match bool_literal(chars) {
        Some(true) => SpecLogicExpr::True,
        Some(false) => SpecLogicExpr::False,
        None => SpecLogicExpr::Identifier(chars),
    }
}

/// Reads an identifier as a logic expression: a truth value or a variable.
pub fn string_token_to_logic_expr(chars: &Vec<char>) -> (r: LogicExpr)
    ensures
        r@ == token_logic_expr(chars@),
{
    match parse_bool(chars) {
        Some(true) => LogicExpr::True,
        Some(false) => LogicExpr::False,
        None => LogicExpr::Identifier(clone_name(chars)),
    }
}

/// The logic expression that a call level stands for: a chain under `==`, a
/// truth value or a variable, or a call of a function of the program or of
/// one that a variable holds.
pub open spec fn lower_logic(level: SpecCallLevel, context: Set<Seq<char>>) -> Result<
    SpecLogicExpr,
    MyError,
> {
    match level {
        SpecCallLevel::OpLevel(token, subs) => match token {
            SpecToken::Eq => match lower_exprs(subs, context) {
                Ok(v) => Ok(SpecLogicExpr::EQ(v)),
                Err(e) => Err(e),
            },
            _ => Err(MyError::MalformedGrammar),
        },
        SpecCallLevel::Identifier(v) => Ok(token_logic_expr(v)),
        SpecCallLevel::Call(fname, subs) => match lower_exprs(subs, context) {
            Ok(v) => match fname {
                SpecFunctionName::Static(name) => Ok(SpecLogicExpr::Call(name, v)),
                SpecFunctionName::Dynamic(name) => Ok(SpecLogicExpr::DynamicCall(name, v)),
                SpecFunctionName::Rust(name) => Err(MyError::MalformedGrammar),
            },
            Err(e) => Err(e),
        },
        _ => Err(MyError::MalformedGrammar),
    }
}

/// The logic expression that a sequence of segments stands for.
pub open spec fn segments_logic(s: Seq<SpecSegment>, context: Set<Seq<char>>) -> Result<
    SpecLogicExpr,
    MyError,
> {
    match segments_level(s, context) {
        Ok(level) => lower_logic(level, context),
        Err(e) => Err(e),
    }
}

/// Lowers a call level to a logic expression.
pub fn call_levels_to_logic_expr(level: &CallLevel, context: &Functions) -> (r: Result<
    LogicExpr,
    MyError,
>)
    ensures
        res_view(r) == lower_logic(level@, context@.dom()),
{
    broadcast use {lemma_call_levels_view, lemma_logic_expr_view};

    match level {
        CallLevel::OpLevel(token, sublevels) => match token {
            Token::Eq => {
                let subs = call_levels_to_exprs(whole_slice(sublevels), context)?;
                Ok(LogicExpr::EQ(subs))
            },
            _ => Err(MyError::MalformedGrammar),
        },
        CallLevel::Identifier(v) => Ok(string_token_to_logic_expr(v)),
        CallLevel::Call(fname, sublevels) => {
            let subs = call_levels_to_exprs(whole_slice(sublevels), context)?;
            match fname {
                FunctionName::Static(name) => Ok(LogicExpr::Call(clone_name(name), subs)),
                FunctionName::Dynamic(name) => Ok(LogicExpr::DynamicCall(clone_name(name), subs)),
                FunctionName::Rust(name) => Err(MyError::MalformedGrammar),
            }
        },
        _ => Err(MyError::MalformedGrammar),
    }
}

/// Reads a sequence of segments as a logic expression.
pub fn segments_to_logical_expr(s: &Vec<Segment>, context: &Functions) -> (r: Result<
    LogicExpr,
    MyError,
>)
    ensures
        res_view(r) == segments_logic(s.deep_view(), context@.dom()),
{
    let level = segments_to_call_level(whole_slice(s), context)?;
    call_levels_to_logic_expr(&level, context)
}

/// Whether all values of a sequence are equal.
pub open spec fn values_all_equal(v: Seq<SpecData>) -> bool {
    forall|i: int, j: int| 0 <= i < v.len() && 0 <= j < v.len() ==> v[i] == v[j]
}

/// Whether all logic expressions of a sequence are true. They are evaluated
/// from left to right, and the first that is false or fails ends the
/// evaluation.
pub open spec fn eval_all_true<B: Builtins>(
    code: SpecProgram,
    scope: SpecScope,
    es: Seq<SpecLogicExpr>,
    depth: nat,
    b: B,
) -> Result<bool, MyError>
    decreases depth, 0int, es, 0int,
{
    if es.len() == 0 {
        Ok(true)
    } else {
        match eval_logic(code, scope, es[0], depth, b) {
            Err(e) => Err(e),
            Ok(false) => Ok(false),
            Ok(true) => eval_all_true(code, scope, es.subrange(1, es.len() as int), depth, b),
        }
    }
}

/// The truth value that a value is, where it is one.
pub open spec fn as_truth(r: Result<SpecData, MyError>) -> Result<bool, MyError> {
    match r {
        Ok(SpecData::Boolean(b)) => Ok(b),
        Ok(_) => Err(MyError::TypeMismatch),
        Err(e) => Err(e),
    }
}

/// The truth value of a logic expression.
///
/// `EQ` evaluates all its operands, from left to right, and is true where
/// they all have the same value. `AND` is true where all its operands are
/// true. A variable, and a call, must have a truth value.
pub open spec fn eval_logic<B: Builtins>(
    code: SpecProgram,
    scope: SpecScope,
    e: SpecLogicExpr,
    depth: nat,
    b: B,
) -> Result<bool, MyError>
    decreases depth, 0int, e, 0int,
{
    match e {
        SpecLogicExpr::False => Ok(false),
        SpecLogicExpr::True => Ok(true),
        SpecLogicExpr::Identifier(name) => as_truth(lookup(scope, name)),
        SpecLogicExpr::NEQ(l, r) => match eval_expr(code, scope, *l, depth, b) {
            Err(e) => Err(e),
            Ok(l1) => match eval_expr(code, scope, *r, depth, b) {
                Err(e) => Err(e),
                Ok(r1) => Ok(l1 != r1),
            },
        },
        SpecLogicExpr::EQ(v) => match eval_exprs(code, scope, v, depth, b) {
            Ok(values) => Ok(values_all_equal(values)),
            Err(e) => Err(e),
        },
        SpecLogicExpr::AND(v) => eval_all_true(code, scope, v, depth, b),
        SpecLogicExpr::Call(name, args) => as_truth(
            eval_call(code, scope, SpecFunctionName::Static(name), args, depth, b),
        ),
        SpecLogicExpr::DynamicCall(name, args) => as_truth(
            eval_call(code, scope, SpecFunctionName::Dynamic(name), args, depth, b),
        ),
    }
}

/// An equality chain is true exactly where all its operands have one value:
/// a value that differs from the others, wherever it stands, makes it false.
pub proof fn lemma_eq_chain<B: Builtins>(
    code: SpecProgram,
    scope: SpecScope,
    es: Seq<SpecExpr>,
    depth: nat,
    values: Seq<SpecData>,
    b: B,
)
    requires
        eval_exprs(code, scope, es, depth, b) == Ok::<Seq<SpecData>, MyError>(values),
    ensures
        eval_logic(code, scope, SpecLogicExpr::EQ(es), depth, b) == Ok::<bool, MyError>(
            forall|i: int, j: int|
                0 <= i < values.len() && 0 <= j < values.len() ==> values[i] == values[j],
        ),
{
}

/// Whether all values of `values` are equal, by `Itertools::all_equal` of
/// the crate `itertools`: it compares the first item with each of the others
/// by `==`, which on `Data` is equality of the values.
#[verifier::external_body]
fn all_equal_values(values: &Vec<Data>) -> (r: bool)
    ensures
        r == values_all_equal(values.deep_view()),
{
    values.iter().all_equal()
}

/// Evaluates logic expressions from left to right until one is false.
pub fn eval_all<B: Builtins>(
    c: &Program,
    p: &ProgramState,
    es: &[LogicExpr],
    depth: usize,
    b: &B,
) -> (r: Result<bool, MyError>)
    ensures
        r == eval_all_true(c@, p@, es.deep_view(), depth as nat, *b),
    decreases depth, 0int, es.deep_view(), 0int,
{
    let ghost all = es.deep_view();
    let mut i: usize = 0;
    assert(all.subrange(0, all.len() as int) =~= all);
    while i < es.len()
        invariant
            i <= es.len(),
            all == es.deep_view(),
            eval_all_true(c@, p@, all.subrange(i as int, all.len() as int), depth as nat, *b)
                == eval_all_true(c@, p@, all, depth as nat, *b),
        decreases es.len() - i,
    {
        let ghost rest = all.subrange(i as int, all.len() as int);
        assert(rest[0] == es[i as int]@ && all[i as int] == es[i as int]@);
        assert(rest.subrange(1, rest.len() as int) =~= all.subrange(i + 1, all.len() as int));
        if !eval(c, p, &es[i], depth, b)? {
            return Ok(false);
        }
        i = i + 1;
    }
    Ok(true)
}

/// Evaluates a logic expression in the scope `p` of the program `c`.
pub fn eval<B: Builtins>(
    c: &Program,
    p: &ProgramState,
    expr: &LogicExpr,
    depth: usize,
    b: &B,
) -> (r: Result<bool, MyError>)
    ensures
        r == eval_logic(c@, p@, expr@, depth as nat, *b),
    decreases depth, 0int, expr@, 0int,
{
    broadcast use lemma_logic_expr_view;

    match expr {
        LogicExpr::False => Ok(false),
        LogicExpr::True => Ok(true),
        LogicExpr::Identifier(name) => match var_lookup(name, p)? {
            Data::Boolean(value) => Ok(value),
            _ => Err(MyError::TypeMismatch),
        },
        LogicExpr::NEQ(l, r) => {
            let l1 = crate::expr::eval(c, p, l, depth, b)?;
            let r1 = crate::expr::eval(c, p, r, depth, b)?;
            Ok(l1 != r1)
        },
        LogicExpr::EQ(v) => {
            let values = eval_args(c, p, whole_slice(v), depth, b)?;
            Ok(all_equal_values(&values))
        },
        LogicExpr::AND(v) => eval_all(c, p, whole_slice(v), depth, b),
        LogicExpr::Call(name, args) => {
            let target = FunctionName::Static(clone_name(name));
            match eval_and_call(c, &target, args, p, depth, b)? {
                Data::Boolean(value) => Ok(value),
                _ => Err(MyError::TypeMismatch),
            }
        },
        LogicExpr::DynamicCall(name, args) => {
            let target = FunctionName::Dynamic(clone_name(name));
            match eval_and_call(c, &target, args, p, depth, b)? {
                Data::Boolean(value) => Ok(value),
                _ => Err(MyError::TypeMismatch),
            }
        },
    }
}

} // verus!
