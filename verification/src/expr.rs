use crate::call_levels::{lemma_call_levels_view, CallLevel, SpecCallLevel};
use crate::eval::{
    bind_single, try_bind_single, Data, Program, ProgramState, SpecData, SpecProgram, SpecScope,
};
use crate::function::{call_function, clone_name, Builtins, FunctionName, SpecFunctionName};
use crate::logic_expr::{
    bool_literal, eval_logic, logic_expr_view, parse_bool, LogicExpr, SpecLogicExpr,
};
use crate::numeric_expr::{
    int_literal, numeric_expr_view, parse_int, NumericData, NumericExpr, SpecNumericExpr,
};
use crate::numeric_expr::{call_levels_to_num_expr, eval_num, lower_num};
use crate::pattern_match::{call_level_to_argbind, level_argbind, ArgBind, SpecArgBind};
use crate::program::Functions;
use crate::tokens::{MyError, SpecToken, Token};
use crate::views::{res_view, sub_slice, whole_slice};
use vstd::prelude::*;

verus! {

/// An expression of any kind.
#[derive(Debug, PartialEq)]
pub enum Expr {
    Identifier(Vec<char>),
    Constant(Data),
    Call(FunctionName, Vec<Expr>),
    /// A cons cell of a head and a tail.
    ListBuild(Box<Expr>, Box<Expr>),
    NumericExpr(NumericExpr),
    LogicExpr(LogicExpr),
    /// Match the value of `arg` against `pattern`, then go on with `rest`.
    Assign { pattern: Box<ArgBind>, arg: Box<Expr>, rest: Box<Expr> },
}

/// The mathematical value of an [`Expr`].
pub enum SpecExpr {
    Identifier(Seq<char>),
    Constant(SpecData),
    Call(SpecFunctionName, Seq<SpecExpr>),
    ListBuild(Box<SpecExpr>, Box<SpecExpr>),
    NumericExpr(SpecNumericExpr),
    LogicExpr(SpecLogicExpr),
    Assign { pattern: Box<SpecArgBind>, arg: Box<SpecExpr>, rest: Box<SpecExpr> },
}

/// The mathematical values of a sequence of expressions.
pub open spec fn exprs_view(v: Seq<Expr>) -> Seq<SpecExpr>
    decreases v,
{
    Seq::new(
        v.len(),
        |i: int|
            if 0 <= i < v.len() {
                expr_view(v[i])
            } else {
                arbitrary()
            },
    )
}

/// The mathematical value of an expression.
pub open spec fn expr_view(e: Expr) -> SpecExpr
    decreases e,
{
    match e {
        Expr::Identifier(name) => SpecExpr::Identifier(name@),
        Expr::Constant(d) => SpecExpr::Constant(d@),
        Expr::Call(f, args) => SpecExpr::Call(f@, exprs_view(args@)),
        Expr::ListBuild(head, tail) => SpecExpr::ListBuild(
            Box::new(expr_view(*head)),
            Box::new(expr_view(*tail)),
        ),
        Expr::NumericExpr(n) => SpecExpr::NumericExpr(numeric_expr_view(n)),
        Expr::LogicExpr(l) => SpecExpr::LogicExpr(logic_expr_view(l)),
        Expr::Assign { pattern, arg, rest } => SpecExpr::Assign {
            pattern: Box::new((*pattern)@),
            arg: Box::new(expr_view(*arg)),
            rest: Box::new(expr_view(*rest)),
        },
    }
}

impl DeepView for Expr {
    type V = SpecExpr;

    #[verifier::inline]
    open spec fn deep_view(&self) -> SpecExpr {
        expr_view(*self)
    }
}

impl View for Expr {
    type V = SpecExpr;

    #[verifier::inline]
    open spec fn view(&self) -> SpecExpr {
        expr_view(*self)
    }
}

/// The helper `exprs_view` is the deep view of a vector.
pub proof fn lemma_exprs_view(v: Vec<Expr>)
    ensures
        exprs_view(v@) == v.deep_view(),
{
    assert(exprs_view(v@) =~= v.deep_view());
}

/// The value of a call, with the values of its arguments written as the deep
/// view of the vector that holds them.
pub broadcast proof fn lemma_expr_view(e: Expr)
    ensures
        #![trigger expr_view(e)]
        e matches Expr::Call(f, args) ==> expr_view(e) == SpecExpr::Call(f@, args.deep_view()),
{
    match e {
        Expr::Call(f, args) => {
            lemma_exprs_view(args);
        },
        _ => {},
    }
}

/// The constant that a text spells: an integer, else a truth value, else
/// none.
pub open spec fn literal_value(chars: Seq<char>) -> Option<SpecData> {
    match int_literal(chars) {
        Some(n) => Some(SpecData::Number(NumericData::Int(n))),
        None => match bool_literal(chars) {
            Some(b) => Some(SpecData::Boolean(b)),
            None => None,
        },
    }
}

/// Reads a text as a constant.
pub fn parse_literal(chars: &Vec<char>) -> (r: Option<Data>)
    ensures
        r.deep_view() == literal_value(chars@),
{
    match parse_int(chars) {
        Some(n) => Some(Data::Number(NumericData::Int(n))),
        None => match parse_bool(chars) {
            Some(b) => Some(Data::Boolean(b)),
            None => None,
        },
    }
}

/// What an identifier stands for as an expression: a constant where its text
/// spells a number or a truth value, else a variable.
pub open spec fn token_expr(chars: Seq<char>) -> SpecExpr {
    match literal_value(chars) {
        Some(d) => SpecExpr::Constant(d),
        None => SpecExpr::Identifier(chars),
    }
}

/// Reads an identifier as an expression: a constant or a variable.
pub fn string_token_to_expr(chars: &Vec<char>) -> (r: Expr)
    ensures
        r@ == token_expr(chars@),
{
    match parse_literal(chars) {
        Some(d) => Expr::Constant(d),
        None => Expr::Identifier(clone_name(chars)),
    }
}

/// An expression in which a variable that names a function of the program
/// has become a pointer to that function.
pub open spec fn resolve_name(e: SpecExpr, context: Set<Seq<char>>) -> SpecExpr {
    match e {
        SpecExpr::Identifier(name) => {
            if context.contains(name) {
                SpecExpr::Constant(SpecData::FunctionPointer(SpecFunctionName::Static(name)))
            } else {
                e
            }
        },
        _ => e,
    }
}

/// The cons cells with the heads `heads`, in their order, in front of `tail`.
pub open spec fn list_onto(heads: Seq<SpecExpr>, tail: SpecExpr) -> SpecExpr
    decreases heads.len(),
{
    if heads.len() == 0 {
        tail
    } else {
        list_onto(
            heads.subrange(0, heads.len() - 1),
            SpecExpr::ListBuild(Box::new(heads[heads.len() - 1]), Box::new(tail)),
        )
    }
}

/// The list that the items of a list literal build: the last item is the
/// tail of the last cell, and no item at all is the empty list.
pub open spec fn list_expr(items: Seq<SpecExpr>) -> SpecExpr {
    if items.len() == 0 {
        SpecExpr::Constant(SpecData::Emptylist)
    } else {
        list_onto(items.subrange(0, items.len() - 1), items[items.len() - 1])
    }
}

/// The expressions that a sequence of call levels stands for.
pub open spec fn lower_exprs(levels: Seq<SpecCallLevel>, context: Set<Seq<char>>) -> Result<
    Seq<SpecExpr>,
    MyError,
>
    decreases levels, 0int,
{
    if levels.len() == 0 {
        Ok(Seq::empty())
    } else {
        match (
            lower_exprs(levels.subrange(0, levels.len() - 1), context),
            lower_expr(levels[levels.len() - 1], context),
        ) {
            (Ok(front), Ok(last)) => Ok(front.push(last)),
            _ => Err(MyError::MalformedGrammar),
        }
    }
}

/// The expression that a call level stands for, in a program that defines
/// the functions named in `context`.
///
/// A chain under `==` is the test that all its operands are equal; a chain
/// under `+`, `-` or `*` is numeric; no other operator is accepted. An
/// identifier is a constant where its text spells one, a pointer to a
/// function where it names one of the program, else a variable.
pub open spec fn lower_expr(level: SpecCallLevel, context: Set<Seq<char>>) -> Result<
    SpecExpr,
    MyError,
>
    decreases level, 1int,
{
    match level {
        SpecCallLevel::OpLevel(token, subs) => match token {
            SpecToken::Eq => match lower_exprs(subs, context) {
                Ok(v) => Ok(SpecExpr::LogicExpr(SpecLogicExpr::EQ(v))),
                Err(e) => Err(e),
            },
            SpecToken::Add | SpecToken::SUB | SpecToken::MUL => match lower_num(level, context) {
                Ok(n) => Ok(SpecExpr::NumericExpr(n)),
                Err(e) => Err(e),
            },
            _ => Err(MyError::MalformedGrammar),
        },
        SpecCallLevel::Identifier(v) => Ok(resolve_name(token_expr(v), context)),
        SpecCallLevel::Call(fname, subs) => match lower_exprs(subs, context) {
            Ok(v) => Ok(SpecExpr::Call(fname, v)),
            Err(e) => Err(e),
        },
        SpecCallLevel::Assign { left, right, rest } => match (
            level_argbind(*left),
            lower_expr(*right, context),
            lower_expr(*rest, context),
        ) {
            (Ok(pattern), Ok(arg), Ok(rest)) => Ok(
                SpecExpr::Assign {
                    pattern: Box::new(pattern),
                    arg: Box::new(arg),
                    rest: Box::new(rest),
                },
            ),
            _ => Err(MyError::MalformedGrammar),
        },
        SpecCallLevel::ListBuild(subs) => match lower_exprs(subs, context) {
            Ok(v) => Ok(list_expr(v)),
            Err(e) => Err(e),
        },
        SpecCallLevel::Emptylist => Ok(SpecExpr::Constant(SpecData::Emptylist)),
    }
}

/// Builds the list that the items of a list literal stand for.
pub fn expr_vec_to_list(v: Vec<Expr>) -> (r: Expr)
    ensures
        r@ == list_expr(v.deep_view()),
{
    let ghost items = v.deep_view();
    let mut v = v;
    match v.pop() {
        None => Expr::Constant(Data::Emptylist),
        Some(last) => {
            let mut acc = last;
            assert(v.deep_view() =~= items.subrange(0, items.len() - 1));
            while v.len() > 0
                invariant
                    list_onto(v.deep_view(), acc@) == list_expr(items),
                decreases v.len(),
            {
                let ghost before = v.deep_view();
                let head = v.pop().unwrap();
                assert(v.deep_view() =~= before.subrange(0, before.len() - 1));
                acc = Expr::ListBuild(Box::new(head), Box::new(acc));
            }
            acc
        },
    }
}

/// Lowers call levels to expressions, one by one.
pub fn call_levels_to_exprs(levels: &[CallLevel], context: &Functions) -> (r: Result<
    Vec<Expr>,
    MyError,
>)
    ensures
        res_view(r) == lower_exprs(levels.deep_view(), context@.dom()),
    decreases levels.deep_view(), 0int,
{
    broadcast use crate::views::lemma_deep_view_push;

    let n = levels.len();
    if n == 0 {
        let out: Vec<Expr> = Vec::new();
        assert(out.deep_view() =~= Seq::<SpecExpr>::empty());
        Ok(out)
    } else {
        let front = call_levels_to_exprs(sub_slice(levels, 0, n - 1), context);
        let last = call_levels_to_expr(&levels[n - 1], context);
        match (front, last) {
            (Ok(mut front), Ok(last)) => {
                front.push(last);
                Ok(front)
            },
            _ => Err(MyError::MalformedGrammar),
        }
    }
}

/// Lowers a call level to an expression, in a program that defines the
/// functions of `context`.
pub fn call_levels_to_expr(level: &CallLevel, context: &Functions) -> (r: Result<Expr, MyError>)
    ensures
        res_view(r) == lower_expr(level@, context@.dom()),
    decreases level@, 1int,
{
    broadcast use {lemma_call_levels_view, lemma_expr_view, crate::logic_expr::lemma_logic_expr_view};

    match level {
        CallLevel::OpLevel(token, sublevels) => match token {
            Token::Eq => {
                let subs = call_levels_to_exprs(whole_slice(sublevels), context)?;
                let test = LogicExpr::EQ(subs);
                assert(test@ == SpecLogicExpr::EQ(subs.deep_view()));
                Ok(Expr::LogicExpr(test))
            },
            Token::Add | Token::SUB | Token::MUL => {
                let n = call_levels_to_num_expr(level, context)?;
                Ok(Expr::NumericExpr(n))
            },
            _ => Err(MyError::MalformedGrammar),
        },
        CallLevel::Identifier(v) => {
            let e = string_token_to_expr(v);
            match e {
                Expr::Identifier(name) => {
                    if context.contains_key(&name) {
                        Ok(Expr::Constant(Data::FunctionPointer(FunctionName::Static(name))))
                    } else {
                        Ok(Expr::Identifier(name))
                    }
                },
                other => Ok(other),
            }
        },
        CallLevel::Call(fname, sublevels) => {
            let subs = call_levels_to_exprs(whole_slice(sublevels), context)?;
            Ok(Expr::Call(fname.clone(), subs))
        },
        CallLevel::Assign { left, right, rest } => {
            let pattern = call_level_to_argbind(left);
            let arg = call_levels_to_expr(right, context);
            let rest = call_levels_to_expr(rest, context);
            match (pattern, arg, rest) {
                (Ok(pattern), Ok(arg), Ok(rest)) => Ok(
                    Expr::Assign {
                        pattern: Box::new(pattern),
                        arg: Box::new(arg),
                        rest: Box::new(rest),
                    },
                ),
                _ => Err(MyError::MalformedGrammar),
            }
        },
        CallLevel::ListBuild(sublevels) => {
            let subs = call_levels_to_exprs(whole_slice(sublevels), context)?;
            Ok(expr_vec_to_list(subs))
        },
        CallLevel::Emptylist => Ok(Expr::Constant(Data::Emptylist)),
    }
}

/// The value that `scope` binds `name` to.
pub open spec fn lookup(scope: SpecScope, name: Seq<char>) -> Result<SpecData, MyError> {
    if scope.contains_key(name) {
        Ok(scope[name])
    } else {
        Err(MyError::UnboundIdentifier)
    }
}

/// The values of a sequence of expressions, evaluated from left to right;
/// the first error ends the evaluation.
pub open spec fn eval_exprs<B: Builtins>(
    code: SpecProgram,
    scope: SpecScope,
    es: Seq<SpecExpr>,
    depth: nat,
    b: B,
) -> Result<Seq<SpecData>, MyError>
    decreases depth, 0int, es, 0int,
{
    if es.len() == 0 {
        Ok(Seq::empty())
    } else {
        match eval_exprs(code, scope, es.subrange(0, es.len() - 1), depth, b) {
            Err(e) => Err(e),
            Ok(front) => match eval_expr(code, scope, es[es.len() - 1], depth, b) {
                Err(e) => Err(e),
                Ok(last) => Ok(front.push(last)),
            },
        }
    }
}

/// The value of a call of `f` on the arguments `args`: the arguments are
/// evaluated from left to right, then the call is made. The call costs one
/// unit of depth, and fails where none is left.
pub open spec fn eval_call<B: Builtins>(
    code: SpecProgram,
    scope: SpecScope,
    f: SpecFunctionName,
    args: Seq<SpecExpr>,
    depth: nat,
    b: B,
) -> Result<SpecData, MyError>
    decreases depth, 0int, args, 1int,
{
    match eval_exprs(code, scope, args, depth, b) {
        Err(e) => Err(e),
        Ok(values) => {
            if depth == 0 {
                Err(MyError::DepthExceeded)
            } else {
                call_function(code, scope, f, values, (depth - 1) as nat, b)
            }
        },
    }
}

/// The value of an expression in the scope `scope` of the program `code`,
/// with the builtins of the table `b` and at most `depth` call expressions
/// nested in the evaluation.
///
/// An assignment evaluates its right side, matches the value against its
/// pattern in the current scope, and evaluates the rest in the scope that
/// the match made; a pattern that does not take the value is an error.
pub open spec fn eval_expr<B: Builtins>(code: SpecProgram, scope: SpecScope, e: SpecExpr, depth: nat, b: B) -> Result<
    SpecData,
    MyError,
>
    decreases depth, 0int, e, 0int,
{
    match e {
        SpecExpr::Call(f, args) => eval_call(code, scope, f, args, depth, b),
        SpecExpr::Constant(c) => Ok(c),
        SpecExpr::Identifier(l) => lookup(scope, l),
        SpecExpr::ListBuild(h, t) => match eval_expr(code, scope, *h, depth, b) {
            Err(e) => Err(e),
            Ok(head) => match eval_expr(code, scope, *t, depth, b) {
                Err(e) => Err(e),
                Ok(tail) => Ok(SpecData::List(Box::new(head), Box::new(tail))),
            },
        },
        SpecExpr::NumericExpr(n) => match eval_num(code, scope, n, depth, b) {
            Ok(v) => Ok(SpecData::Number(v)),
            Err(e) => Err(e),
        },
        SpecExpr::LogicExpr(l) => match eval_logic(code, scope, l, depth, b) {
            Ok(b) => Ok(SpecData::Boolean(b)),
            Err(e) => Err(e),
        },
        SpecExpr::Assign { pattern, arg, rest } => match eval_expr(code, scope, *arg, depth, b) {
            Err(e) => Err(e),
            Ok(v) => match bind_single(scope, *pattern, v) {
                Ok(Some(scope1)) => eval_expr(code, scope1, *rest, depth, b),
                Ok(None) => Err(MyError::NoMatchingClause),
                Err(e) => Err(e),
            },
        },
    }
}

/// A call expression through a variable that holds a pointer to a function
/// of the program has the value of the call expression that names the
/// function, on the same arguments.
pub proof fn lemma_dynamic_call_expression<B: Builtins>(
    code: SpecProgram,
    scope: SpecScope,
    variable: Seq<char>,
    name: Seq<char>,
    args: Seq<SpecExpr>,
    depth: nat,
    b: B,
)
    requires
        scope.contains_key(variable),
        scope[variable] == SpecData::FunctionPointer(SpecFunctionName::Static(name)),
    ensures
        eval_expr(code, scope, SpecExpr::Call(SpecFunctionName::Dynamic(variable), args), depth, b)
            == eval_expr(
            code,
            scope,
            SpecExpr::Call(SpecFunctionName::Static(name), args),
            depth,
            b,
        ),
{
    let through = SpecFunctionName::Dynamic(variable);
    let direct = SpecFunctionName::Static(name);
    assert(eval_expr(code, scope, SpecExpr::Call(through, args), depth, b) == eval_call(
        code,
        scope,
        through,
        args,
        depth,
        b,
    ));
    assert(eval_expr(code, scope, SpecExpr::Call(direct, args), depth, b) == eval_call(
        code,
        scope,
        direct,
        args,
        depth,
        b,
    ));
    match eval_exprs(code, scope, args, depth, b) {
        Ok(values) => {
            if depth > 0 {
                crate::function::lemma_dynamic_call_is_static(
                    code,
                    scope,
                    variable,
                    name,
                    values,
                    (depth - 1) as nat,
                    b,
                );
            }
        },
        Err(e) => {},
    }
}

/// The value of a variable.
pub fn var_lookup(name: &Vec<char>, p: &ProgramState) -> (r: Result<Data, MyError>)
    ensures
        res_view(r) == lookup(p@, name@),
{
    match p.get(name) {
        Some(v) => Ok(v.clone()),
        None => Err(MyError::UnboundIdentifier),
    }
}

/// Evaluates expressions from left to right.
pub fn eval_args<B: Builtins>(c: &Program, p: &ProgramState, args: &[Expr], depth: usize, b: &B) -> (r: Result<
    Vec<Data>,
    MyError,
>)
    ensures
        res_view(r) == eval_exprs(c@, p@, args.deep_view(), depth as nat, *b),
    decreases depth, 0int, args.deep_view(), 0int,
{
    broadcast use crate::views::lemma_deep_view_push;

    let n = args.len();
    if n == 0 {
        let out: Vec<Data> = Vec::new();
        assert(out.deep_view() =~= Seq::<SpecData>::empty());
        Ok(out)
    } else {
        let mut front = eval_args(c, p, sub_slice(args, 0, n - 1), depth, b)?;
        let last = eval(c, p, &args[n - 1], depth, b)?;
        front.push(last);
        Ok(front)
    }
}

/// Evaluates the arguments of a call and makes the call.
pub fn eval_and_call<B: Builtins>(
    c: &Program,
    f: &FunctionName,
    args: &Vec<Expr>,
    p: &ProgramState,
    depth: usize,
    b: &B,
) -> (r: Result<Data, MyError>)
    ensures
        res_view(r) == eval_call(c@, p@, f@, args.deep_view(), depth as nat, *b),
    decreases depth, 0int, args.deep_view(), 1int,
{
    let values = eval_args(c, p, whole_slice(args), depth, b)?;
    if depth == 0 {
        Err(MyError::DepthExceeded)
    } else {
        crate::function::call(c, p, f, &values, depth - 1, b)
    }
}

/// The value of a call of what the variable `name` points to.
pub open spec fn eval_dynamic_call<B: Builtins>(
    code: SpecProgram,
    scope: SpecScope,
    name: Seq<char>,
    args: Seq<SpecExpr>,
    depth: nat,
    b: B,
) -> Result<SpecData, MyError> {
    match lookup(scope, name) {
        Ok(SpecData::FunctionPointer(f)) => eval_call(code, scope, f, args, depth, b),
        Ok(_) => Err(MyError::TypeMismatch),
        Err(e) => Err(e),
    }
}

/// Calls what the variable `name` points to.
pub fn dynamic_eval_and_call<B: Builtins>(
    c: &Program,
    name: &Vec<char>,
    args: &Vec<Expr>,
    p: &ProgramState,
    depth: usize,
    b: &B,
) -> (r: Result<Data, MyError>)
    ensures
        res_view(r) == eval_dynamic_call(c@, p@, name@, args.deep_view(), depth as nat, *b),
{
    match p.get(name) {
        Some(Data::FunctionPointer(fname)) => eval_and_call(c, fname, args, p, depth, b),
        Some(_) => Err(MyError::TypeMismatch),
        None => Err(MyError::UnboundIdentifier),
    }
}

/// Evaluates an expression in the scope `p` of the program `c`, with the
/// builtins of the table `b`. At most `depth` call expressions are nested in
/// the evaluation.
pub fn eval<B: Builtins>(c: &Program, p: &ProgramState, expr: &Expr, depth: usize, b: &B) -> (r: Result<Data, MyError>)
    ensures
        res_view(r) == eval_expr(c@, p@, expr@, depth as nat, *b),
    decreases depth, 0int, expr@, 0int,
{
    broadcast use lemma_expr_view;

    match expr {
        Expr::Call(f, args) => eval_and_call(c, f, args, p, depth, b),
        Expr::Constant(value) => Ok(value.clone()),
        Expr::Identifier(l) => var_lookup(l, p),
        Expr::ListBuild(h, t) => {
            let h1 = eval(c, p, h, depth, b)?;
            let t1 = eval(c, p, t, depth, b)?;
            Ok(Data::List(Box::new(h1), Box::new(t1)))
        },
        Expr::NumericExpr(nexpr) => crate::numeric_expr::eval(c, p, nexpr, depth, b),
        Expr::LogicExpr(lexpr) => {
            let b = crate::logic_expr::eval(c, p, lexpr, depth, b)?;
            Ok(Data::Boolean(b))
        },
        Expr::Assign { pattern, arg, rest } => {
            let value = eval(c, p, arg, depth, b)?;
            assert forall|a: Data, b: Data| cloned(a, b) implies a.deep_view() == b.deep_view() by {}
            match try_bind_single(p.duplicate(), pattern, &value)? {
                Some(p1) => eval(c, &p1, rest, depth, b),
                None => Err(MyError::NoMatchingClause),
            }
        },
    }
}

} // verus!
