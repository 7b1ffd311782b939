use crate::eval::{
    bind_all, bind_single, call_fun, run_binds, run_filters, SpecData, SpecProgram, SpecScope,
};
use crate::expr::{eval_call, eval_expr, eval_exprs, SpecExpr};
use crate::function::{call_function, Builtins, SpecFunctionName};
use crate::logic_expr::{eval_all_true, eval_logic, SpecLogicExpr};
use crate::numeric_expr::{
    apply_array_op, eval_fold, eval_num, ArrayNumOp, NumericData, SpecNumericExpr,
};
use crate::program::{SpecBind, SpecFilter, SpecFun};
use crate::tokens::MyError;
use vstd::prelude::*;

verus! {

/// Whether an evaluation ended, with a value or an error, without running
/// out of depth.
pub open spec fn within_depth<T>(r: Result<T, MyError>) -> bool {
    r != Err::<T, MyError>(MyError::DepthExceeded)
}

/// The depth only bounds an evaluation: an expression that is evaluated
/// without running out of depth has the same result with any greater depth.
pub proof fn lemma_expr_depth<B: Builtins>(
    code: SpecProgram,
    scope: SpecScope,
    e: SpecExpr,
    d1: nat,
    d2: nat,
    b: B,
)
    requires
        d1 <= d2,
        within_depth(eval_expr(code, scope, e, d1, b)),
    ensures
        eval_expr(code, scope, e, d2, b) == eval_expr(code, scope, e, d1, b),
    decreases d1, 0int, e, 0int,
{
    match e {
        SpecExpr::Call(f, args) => {
            lemma_call_depth(code, scope, f, args, d1, d2, b);
        },
        SpecExpr::Constant(c) => {},
        SpecExpr::Identifier(l) => {},
        SpecExpr::ListBuild(h, t) => {
            lemma_expr_depth(code, scope, *h, d1, d2, b);
            if eval_expr(code, scope, *h, d1, b) is Ok {
                lemma_expr_depth(code, scope, *t, d1, d2, b);
            }
        },
        SpecExpr::NumericExpr(n) => {
            lemma_num_depth(code, scope, n, d1, d2, b);
        },
        SpecExpr::LogicExpr(l) => {
            lemma_logic_depth(code, scope, l, d1, d2, b);
        },
        SpecExpr::Assign { pattern, arg, rest } => {
            lemma_expr_depth(code, scope, *arg, d1, d2, b);
            match eval_expr(code, scope, *arg, d1, b) {
                Ok(v) => match bind_single(scope, *pattern, v) {
                    Ok(Some(scope1)) => {
                        lemma_expr_depth(code, scope1, *rest, d1, d2, b);
                    },
                    _ => {},
                },
                Err(e) => {},
            }
        },
    }
}

/// A sequence of expressions that is evaluated without running out of depth
/// has the same values with any greater depth.
pub proof fn lemma_exprs_depth<B: Builtins>(
    code: SpecProgram,
    scope: SpecScope,
    es: Seq<SpecExpr>,
    d1: nat,
    d2: nat,
    b: B,
)
    requires
        d1 <= d2,
        within_depth(eval_exprs(code, scope, es, d1, b)),
    ensures
        eval_exprs(code, scope, es, d2, b) == eval_exprs(code, scope, es, d1, b),
    decreases d1, 0int, es, 0int,
{
    if es.len() > 0 {
        let front = es.subrange(0, es.len() - 1);
        lemma_exprs_depth(code, scope, front, d1, d2, b);
        if eval_exprs(code, scope, front, d1, b) is Ok {
            lemma_expr_depth(code, scope, es[es.len() - 1], d1, d2, b);
        }
    }
}

/// A call expression that is evaluated without running out of depth has the
/// same result with any greater depth.
pub proof fn lemma_call_depth<B: Builtins>(
    code: SpecProgram,
    scope: SpecScope,
    f: SpecFunctionName,
    args: Seq<SpecExpr>,
    d1: nat,
    d2: nat,
    b: B,
)
    requires
        d1 <= d2,
        within_depth(eval_call(code, scope, f, args, d1, b)),
    ensures
        eval_call(code, scope, f, args, d2, b) == eval_call(code, scope, f, args, d1, b),
    decreases d1, 0int, args, 1int,
{
    lemma_exprs_depth(code, scope, args, d1, d2, b);
    match eval_exprs(code, scope, args, d1, b) {
        Ok(values) => {
            lemma_function_depth(code, scope, f, values, (d1 - 1) as nat, (d2 - 1) as nat, b);
        },
        Err(e) => {},
    }
}

/// A call that is made without running out of depth has the same result with
/// any greater depth.
pub proof fn lemma_function_depth<B: Builtins>(
    code: SpecProgram,
    scope: SpecScope,
    f: SpecFunctionName,
    args: Seq<SpecData>,
    d1: nat,
    d2: nat,
    b: B,
)
    requires
        d1 <= d2,
        within_depth(call_function(code, scope, f, args, d1, b)),
    ensures
        call_function(code, scope, f, args, d2, b) == call_function(code, scope, f, args, d1, b),
    decreases d1, 4int, args, (if f is Dynamic {
        1int
    } else {
        0int
    }),
{
    match f {
        SpecFunctionName::Static(key) => {
            if code.contains_key(key) {
                lemma_fun_depth(code, code[key], args, d1, d2, b);
            }
        },
        SpecFunctionName::Dynamic(key) => {
            if scope.contains_key(key) {
                match scope[key] {
                    SpecData::FunctionPointer(g) => {
                        if !(g is Dynamic) {
                            lemma_function_depth(code, scope, g, args, d1, d2, b);
                        } else {
                            lemma_function_depth(
                                code,
                                scope,
                                g,
                                args,
                                (d1 - 1) as nat,
                                (d2 - 1) as nat,
                                b,
                            );
                        }
                    },
                    _ => {},
                }
            }
        },
        SpecFunctionName::Rust(key) => {},
    }
}

/// A call of a function that is made without running out of depth has the
/// same result with any greater depth.
pub proof fn lemma_fun_depth<B: Builtins>(
    code: SpecProgram,
    fun: SpecFun,
    args: Seq<SpecData>,
    d1: nat,
    d2: nat,
    b: B,
)
    requires
        d1 <= d2,
        within_depth(call_fun(code, fun, args, d1, b)),
    ensures
        call_fun(code, fun, args, d2, b) == call_fun(code, fun, args, d1, b),
    decreases d1, 3int, args, 0int,
{
    lemma_binds_depth(code, fun.binds, args, d1, d2, b);
}

proof fn lemma_binds_depth<B: Builtins>(
    code: SpecProgram,
    binds: Seq<SpecBind>,
    args: Seq<SpecData>,
    d1: nat,
    d2: nat,
    b: B,
)
    requires
        d1 <= d2,
        within_depth(run_binds(code, binds, args, d1, b)),
    ensures
        run_binds(code, binds, args, d2, b) == run_binds(code, binds, args, d1, b),
    decreases d1, 2int, binds, 0int,
{
    if binds.len() > 0 {
        match bind_all(Map::empty(), binds[0].pattern, args) {
            Ok(Some(state)) => {
                lemma_filters_depth(code, state, binds[0].filters, d1, d2, b);
            },
            Ok(None) => {
                lemma_binds_depth(code, binds.subrange(1, binds.len() as int), args, d1, d2, b);
            },
            Err(e) => {},
        }
    }
}

proof fn lemma_filters_depth<B: Builtins>(
    code: SpecProgram,
    scope: SpecScope,
    filters: Seq<SpecFilter>,
    d1: nat,
    d2: nat,
    b: B,
)
    requires
        d1 <= d2,
        within_depth(run_filters(code, scope, filters, d1, b)),
    ensures
        run_filters(code, scope, filters, d2, b) == run_filters(code, scope, filters, d1, b),
    decreases d1, 1int, filters, 0int,
{
    if filters.len() > 0 {
        lemma_logic_depth(code, scope, filters[0].head, d1, d2, b);
        match eval_logic(code, scope, filters[0].head, d1, b) {
            Ok(true) => {
                lemma_expr_depth(code, scope, filters[0].code, d1, d2, b);
            },
            Ok(false) => {
                lemma_filters_depth(
                    code,
                    scope,
                    filters.subrange(1, filters.len() as int),
                    d1,
                    d2,
                    b,
                );
            },
            Err(e) => {},
        }
    }
}

/// A logic expression that is evaluated without running out of depth has the
/// same result with any greater depth.
pub proof fn lemma_logic_depth<B: Builtins>(
    code: SpecProgram,
    scope: SpecScope,
    e: SpecLogicExpr,
    d1: nat,
    d2: nat,
    b: B,
)
    requires
        d1 <= d2,
        within_depth(eval_logic(code, scope, e, d1, b)),
    ensures
        eval_logic(code, scope, e, d2, b) == eval_logic(code, scope, e, d1, b),
    decreases d1, 0int, e, 0int,
{
    match e {
        SpecLogicExpr::NEQ(l, r) => {
            lemma_expr_depth(code, scope, *l, d1, d2, b);
            if eval_expr(code, scope, *l, d1, b) is Ok {
                lemma_expr_depth(code, scope, *r, d1, d2, b);
            }
        },
        SpecLogicExpr::EQ(v) => {
            lemma_exprs_depth(code, scope, v, d1, d2, b);
        },
        SpecLogicExpr::AND(v) => {
            lemma_all_true_depth(code, scope, v, d1, d2, b);
        },
        SpecLogicExpr::Call(name, args) => {
            lemma_call_depth(code, scope, SpecFunctionName::Static(name), args, d1, d2, b);
        },
        SpecLogicExpr::DynamicCall(name, args) => {
            lemma_call_depth(code, scope, SpecFunctionName::Dynamic(name), args, d1, d2, b);
        },
        _ => {},
    }
}

proof fn lemma_all_true_depth<B: Builtins>(
    code: SpecProgram,
    scope: SpecScope,
    es: Seq<SpecLogicExpr>,
    d1: nat,
    d2: nat,
    b: B,
)
    requires
        d1 <= d2,
        within_depth(eval_all_true(code, scope, es, d1, b)),
    ensures
        eval_all_true(code, scope, es, d2, b) == eval_all_true(code, scope, es, d1, b),
    decreases d1, 0int, es, 0int,
{
    if es.len() > 0 {
        lemma_logic_depth(code, scope, es[0], d1, d2, b);
        if eval_logic(code, scope, es[0], d1, b) == Ok::<bool, MyError>(true) {
            lemma_all_true_depth(code, scope, es.subrange(1, es.len() as int), d1, d2, b);
        }
    }
}

/// A numeric expression that is evaluated without running out of depth has
/// the same result with any greater depth.
pub proof fn lemma_num_depth<B: Builtins>(
    code: SpecProgram,
    scope: SpecScope,
    e: SpecNumericExpr,
    d1: nat,
    d2: nat,
    b: B,
)
    requires
        d1 <= d2,
        within_depth(eval_num(code, scope, e, d1, b)),
    ensures
        eval_num(code, scope, e, d2, b) == eval_num(code, scope, e, d1, b),
    decreases d1, 0int, e, 0int,
{
    match e {
        SpecNumericExpr::OrderedOperator { op, left, right } => {
            lemma_num_depth(code, scope, *left, d1, d2, b);
            if eval_num(code, scope, *left, d1, b) is Ok {
                lemma_num_depth(code, scope, *right, d1, d2, b);
            }
        },
        SpecNumericExpr::ArrayOperator { op, v } => {
            lemma_fold_depth(code, scope, op, v, crate::numeric_expr::array_op_unit(op), d1, d2, b);
        },
        SpecNumericExpr::Call(f, args) => {
            lemma_call_depth(code, scope, f, args, d1, d2, b);
        },
        _ => {},
    }
}

proof fn lemma_fold_depth<B: Builtins>(
    code: SpecProgram,
    scope: SpecScope,
    op: ArrayNumOp,
    es: Seq<SpecNumericExpr>,
    acc: i64,
    d1: nat,
    d2: nat,
    b: B,
)
    requires
        d1 <= d2,
        within_depth(eval_fold(code, scope, op, es, acc, d1, b)),
    ensures
        eval_fold(code, scope, op, es, acc, d2, b) == eval_fold(code, scope, op, es, acc, d1, b),
    decreases d1, 0int, es, 0int,
{
    if es.len() > 0 {
        lemma_num_depth(code, scope, es[0], d1, d2, b);
        match eval_num(code, scope, es[0], d1, b) {
            Ok(NumericData::Int(x)) => match apply_array_op(op, acc, x) {
                Ok(next) => {
                    lemma_fold_depth(
                        code,
                        scope,
                        op,
                        es.subrange(1, es.len() as int),
                        next,
                        d1,
                        d2,
                        b,
                    );
                },
                Err(e) => {},
            },
            Err(e) => {},
        }
    }
}

} // verus!
