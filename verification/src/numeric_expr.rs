use crate::call_levels::{lemma_call_levels_view, CallLevel, SpecCallLevel};
use crate::eval::{Data, Program, ProgramState, SpecData, SpecProgram, SpecScope};
use crate::expr::{
    call_levels_to_exprs, eval_and_call, eval_call, exprs_view, lemma_exprs_view, lookup,
    lower_exprs, var_lookup, Expr, SpecExpr,
};
use crate::program::Functions;
use crate::tokens::{MyError, SpecToken, Token};
use crate::views::{res_view, sub_slice, whole_slice};
use crate::function::{clone_name, Builtins, FunctionName, SpecFunctionName};
use vstd::prelude::*;

verus! {

/// An expression whose value is a number.
#[derive(Debug, PartialEq)]
#[allow(inconsistent_fields)]
pub enum NumericExpr {
    Identifier(Vec<char>),
    Call(FunctionName, Vec<Expr>),
    Const(NumericData),
    ArrayOperator { op: ArrayNumOp, v: Vec<NumericExpr> },
    OrderedOperator { op: OrderedNumOp, left: Box<NumericExpr>, right: Box<NumericExpr> },
}

/// The mathematical value of a [`NumericExpr`].
#[allow(inconsistent_fields)]
pub enum SpecNumericExpr {
    Identifier(Seq<char>),
    Call(SpecFunctionName, Seq<SpecExpr>),
    Const(NumericData),
    ArrayOperator { op: ArrayNumOp, v: Seq<SpecNumericExpr> },
    OrderedOperator { op: OrderedNumOp, left: Box<SpecNumericExpr>, right: Box<SpecNumericExpr> },
}

/// The mathematical values of a sequence of numeric expressions.
pub open spec fn numeric_exprs_view(v: Seq<NumericExpr>) -> Seq<SpecNumericExpr>
    decreases v,
{
    Seq::new(
        v.len(),
        |i: int|
            if 0 <= i < v.len() {
                numeric_expr_view(v[i])
            } else {
                arbitrary()
            },
    )
}

/// The mathematical value of a numeric expression.
pub open spec fn numeric_expr_view(e: NumericExpr) -> SpecNumericExpr
    decreases e,
{
    match e {
        NumericExpr::Identifier(name) => SpecNumericExpr::Identifier(name@),
        NumericExpr::Call(f, args) => SpecNumericExpr::Call(f@, exprs_view(args@)),
        NumericExpr::Const(n) => SpecNumericExpr::Const(n),
        NumericExpr::ArrayOperator { op, v } => SpecNumericExpr::ArrayOperator {
            op,
            v: numeric_exprs_view(v@),
        },
        NumericExpr::OrderedOperator { op, left, right } => SpecNumericExpr::OrderedOperator {
            op,
            left: Box::new(numeric_expr_view(*left)),
            right: Box::new(numeric_expr_view(*right)),
        },
    }
}

impl DeepView for NumericExpr {
    type V = SpecNumericExpr;

    #[verifier::inline]
    open spec fn deep_view(&self) -> SpecNumericExpr {
        numeric_expr_view(*self)
    }
}

impl View for NumericExpr {
    type V = SpecNumericExpr;

    #[verifier::inline]
    open spec fn view(&self) -> SpecNumericExpr {
        numeric_expr_view(*self)
    }
}

/// The value of a numeric expression, with the values of its parts written
/// as the deep view of the vector that holds them.
pub broadcast proof fn lemma_numeric_expr_view(e: NumericExpr)
    ensures
        #![trigger numeric_expr_view(e)]
        e matches NumericExpr::Call(f, args) ==> numeric_expr_view(e) == SpecNumericExpr::Call(
            f@,
            args.deep_view(),
        ),
        e matches NumericExpr::ArrayOperator { op, v } ==> numeric_expr_view(e)
            == (SpecNumericExpr::ArrayOperator { op, v: v.deep_view() }),
{
    match e {
        NumericExpr::Call(f, args) => {
            lemma_exprs_view(args);
        },
        NumericExpr::ArrayOperator { op, v } => {
            assert(numeric_exprs_view(v@) =~= v.deep_view());
        },
        _ => {},
    }
}

/// A number of the language.
#[derive(Debug, Clone, Copy, PartialEq, Eq, Structural)]
pub enum NumericData {
    Int(i64),
}

/// An operator that folds over any number of operands.
#[derive(Debug, Clone, Copy, PartialEq, Eq, Structural)]
pub enum ArrayNumOp {
    ADD,
    MUL,
}

/// An operator that takes two operands, whose order matters.
#[derive(Debug, Clone, Copy, PartialEq, Eq, Structural)]
pub enum OrderedNumOp {
    SUB,
    DIV,
}

/// The value of a decimal digit.
pub open spec fn digit_value(c: char) -> Option<int> {
    if '0' <= c <= '9' {
        Some(c as int - '0' as int)
    } else {
        None
    }
}

/// The number that a run of decimal digits spells; the empty run spells 0.
pub open spec fn digits_value(s: Seq<char>) -> Option<int>
    decreases s.len(),
{
    if s.len() == 0 {
        Some(0)
    } else {
        match (digits_value(s.subrange(0, s.len() - 1)), digit_value(s[s.len() - 1])) {
            (Some(v), Some(d)) => Some(10 * v + d),
            _ => None,
        }
    }
}

/// The integer that a text spells: an optional sign, `+` or `-`, and then
/// one or more decimal digits, with a value in the range of `i64`.
pub open spec fn int_literal(s: Seq<char>) -> Option<i64> {
    let signed = s.len() > 0 && (s[0] == '-' || s[0] == '+');
    let digits = if signed {
        s.subrange(1, s.len() as int)
    } else {
        s
    };
    if digits.len() == 0 {
        None
    } else {
        match digits_value(digits) {
            Some(v) => {
                let n = if signed && s[0] == '-' {
                    -v
                } else {
                    v
                };
                if i64::MIN <= n <= i64::MAX {
                    Some(n as i64)
                } else {
                    None
                }
            },
            None => None,
        }
    }
}

/// The digits of a number are digits, and a number is no less than what any
/// of its prefixes spells.
pub proof fn lemma_digits_prefix(s: Seq<char>, k: int)
    requires
        0 <= k <= s.len(),
    ensures
        digits_value(s) matches Some(v) ==> digits_value(s.subrange(0, k)) matches Some(p) && 0
            <= p <= v,
        digits_value(s.subrange(0, k)) is None ==> digits_value(s) is None,
    decreases s.len(),
{
    if k == s.len() {
        assert(s.subrange(0, k) =~= s);
        lemma_digits_nonneg(s);
    } else {
        let front = s.subrange(0, s.len() - 1);
        lemma_digits_prefix(front, k);
        assert(front.subrange(0, k) =~= s.subrange(0, k));
    }
}

proof fn lemma_digits_nonneg(s: Seq<char>)
    ensures
        digits_value(s) matches Some(v) ==> 0 <= v,
    decreases s.len(),
{
    if s.len() > 0 {
        lemma_digits_nonneg(s.subrange(0, s.len() - 1));
    }
}

/// Reads a text as a decimal integer.
pub fn parse_int(chars: &Vec<char>) -> (r: Option<i64>)
    ensures
        r == int_literal(chars@),
{
    let n = chars.len();
    if n == 0 {
        return None;
    }
    let negative = chars[0] == '-';
    let first: usize = if chars[0] == '-' || chars[0] == '+' {
        1
    } else {
        0
    };
    if first == n {
        return None;
    }
    let ghost digits = chars@.subrange(first as int, n as int);
    assert(first == 0 ==> digits =~= chars@);
    let limit: i128 = 9_223_372_036_854_775_808i128;
    let mut acc: i128 = 0;
    let mut i: usize = first;
    while i < n
        invariant
            first <= i <= n,
            n == chars.len(),
            n > 0,
            negative == (chars@[0] == '-'),
            first == (if chars@[0] == '-' || chars@[0] == '+' {
                1int
            } else {
                0int
            }),
            digits == chars@.subrange(first as int, n as int),
            first == 0 ==> digits == chars@,
            limit == 9_223_372_036_854_775_808i128,
            digits_value(digits.subrange(0, i - first)) == Some(acc as int),
            0 <= acc <= limit,
        decreases n - i,
    {
        let c = chars[i];
        if c < '0' || c > '9' {
            proof {
                assert(digits.subrange(0, i + 1 - first).subrange(0, i - first) =~= digits.subrange(
                    0,
                    i - first,
                ));
                lemma_digits_prefix(digits, i + 1 - first);
            }
            return None;
        }
        let d: i128 = (c as u32 - '0' as u32) as i128;
        let next: i128 = acc * 10 + d;
        proof {
            assert(digits.subrange(0, i + 1 - first).subrange(0, i - first) =~= digits.subrange(
                0,
                i - first,
            ));
            assert(digits_value(digits.subrange(0, i + 1 - first)) == Some(next as int));
        }
        if next > limit {
            proof {
                lemma_digits_prefix(digits, i + 1 - first);
            }
            return None;
        }
        acc = next;
        i = i + 1;
    }
    proof {
        assert(digits.subrange(0, n - first) =~= digits);
    }
    if negative {
        Some((-acc) as i64)
    } else if acc == limit {
        None
    } else {
        Some(acc as i64)
    }
}

/// What an identifier stands for where a number is wanted: an integer where
/// its text spells one, else a variable.
pub open spec fn token_num_expr(chars: Seq<char>) -> SpecNumericExpr {
    match int_literal(chars) {
        Some(n) => SpecNumericExpr::Const(NumericData::Int(n)),
        None => SpecNumericExpr::Identifier(chars),
    }
}

/// Reads an identifier as a numeric expression: an integer or a variable.
pub fn string_token_to_num_expr(chars: &Vec<char>) -> (r: NumericExpr)
    ensures
        r@ == token_num_expr(chars@),
{
    match parse_int(chars) {
        Some(n) => NumericExpr::Const(NumericData::Int(n)),
        None => NumericExpr::Identifier(clone_name(chars)),
    }
}

/// The numeric expressions that a sequence of call levels stands for.
pub open spec fn lower_nums(levels: Seq<SpecCallLevel>, context: Set<Seq<char>>) -> Result<
    Seq<SpecNumericExpr>,
    MyError,
>
    decreases levels, 0int,
{
    if levels.len() == 0 {
        Ok(Seq::empty())
    } else {
        match (
            lower_nums(levels.subrange(0, levels.len() - 1), context),
            lower_num(levels[levels.len() - 1], context),
        ) {
            (Ok(front), Ok(last)) => Ok(front.push(last)),
            _ => Err(MyError::MalformedGrammar),
        }
    }
}

/// The numeric expression that a call level stands for. A chain under `+` or
/// `*` takes any number of operands; one under `-` takes exactly two, and is
/// malformed with any other number.
pub open spec fn lower_num(level: SpecCallLevel, context: Set<Seq<char>>) -> Result<
    SpecNumericExpr,
    MyError,
>
    decreases level, 0int,
{
    match level {
        SpecCallLevel::OpLevel(token, subs) => match lower_nums(subs, context) {
            Ok(v) => match token {
                SpecToken::Add => Ok(SpecNumericExpr::ArrayOperator { op: ArrayNumOp::ADD, v }),
                SpecToken::MUL => Ok(SpecNumericExpr::ArrayOperator { op: ArrayNumOp::MUL, v }),
                SpecToken::SUB => {
                    if v.len() == 2 {
                        Ok(
                            SpecNumericExpr::OrderedOperator {
                                op: OrderedNumOp::SUB,
                                left: Box::new(v[0]),
                                right: Box::new(v[1]),
                            },
                        )
                    } else {
                        Err(MyError::MalformedGrammar)
                    }
                },
                _ => Err(MyError::MalformedGrammar),
            },
            Err(e) => Err(e),
        },
        SpecCallLevel::Identifier(v) => Ok(token_num_expr(v)),
        SpecCallLevel::Call(fname, subs) => match lower_exprs(subs, context) {
            Ok(v) => Ok(SpecNumericExpr::Call(fname, v)),
            Err(e) => Err(e),
        },
        _ => Err(MyError::MalformedGrammar),
    }
}

/// Lowering keeps the number of operands.
pub proof fn lemma_lower_nums_len(levels: Seq<SpecCallLevel>, context: Set<Seq<char>>)
    ensures
        lower_nums(levels, context) matches Ok(v) ==> v.len() == levels.len(),
    decreases levels.len(),
{
    if levels.len() > 0 {
        lemma_lower_nums_len(levels.subrange(0, levels.len() - 1), context);
    }
}

/// A subtraction takes exactly two operands: a chain under `-` with any other
/// number of them is rejected.
pub proof fn lemma_sub_takes_two(subs: Seq<SpecCallLevel>, context: Set<Seq<char>>)
    requires
        subs.len() != 2,
    ensures
        lower_num(SpecCallLevel::OpLevel(SpecToken::SUB, subs), context) is Err,
{
    lemma_lower_nums_len(subs, context);
}

/// Lowers call levels to numeric expressions, one by one.
pub fn call_levels_to_num_exprs(levels: &[CallLevel], context: &Functions) -> (r: Result<
    Vec<NumericExpr>,
    MyError,
>)
    ensures
        res_view(r) == lower_nums(levels.deep_view(), context@.dom()),
    decreases levels.deep_view(), 0int,
{
    broadcast use crate::views::lemma_deep_view_push;

    let n = levels.len();
    if n == 0 {
        let out: Vec<NumericExpr> = Vec::new();
        assert(out.deep_view() =~= Seq::<SpecNumericExpr>::empty());
        Ok(out)
    } else {
        let front = call_levels_to_num_exprs(sub_slice(levels, 0, n - 1), context);
        let last = call_levels_to_num_expr(&levels[n - 1], context);
        match (front, last) {
            (Ok(mut front), Ok(last)) => {
                front.push(last);
                Ok(front)
            },
            _ => Err(MyError::MalformedGrammar),
        }
    }
}

/// Lowers a call level to a numeric expression.
pub fn call_levels_to_num_expr(level: &CallLevel, context: &Functions) -> (r: Result<
    NumericExpr,
    MyError,
>)
    ensures
        res_view(r) == lower_num(level@, context@.dom()),
    decreases level@, 0int,
{
    broadcast use {lemma_call_levels_view, lemma_numeric_expr_view};

    match level {
        CallLevel::OpLevel(token, sublevels) => {
            let mut subs = call_levels_to_num_exprs(whole_slice(sublevels), context)?;
            match token {
                Token::Add => Ok(NumericExpr::ArrayOperator { op: ArrayNumOp::ADD, v: subs }),
                Token::MUL => Ok(NumericExpr::ArrayOperator { op: ArrayNumOp::MUL, v: subs }),
                Token::SUB => {
                    if subs.len() == 2 {
                        let ghost both = subs.deep_view();
                        let right = subs.pop().unwrap();
                        let left = subs.pop().unwrap();
                        assert(left@ == both[0] && right@ == both[1]);
                        Ok(
                            NumericExpr::OrderedOperator {
                                op: OrderedNumOp::SUB,
                                left: Box::new(left),
                                right: Box::new(right),
                            },
                        )
                    } else {
                        Err(MyError::MalformedGrammar)
                    }
                },
                _ => Err(MyError::MalformedGrammar),
            }
        },
        CallLevel::Identifier(v) => Ok(string_token_to_num_expr(v)),
        CallLevel::Call(fname, sublevels) => {
            let subs = call_levels_to_exprs(whole_slice(sublevels), context)?;
            Ok(NumericExpr::Call(fname.clone(), subs))
        },
        _ => Err(MyError::MalformedGrammar),
    }
}

/// An integer as a number of the language, where it is in the range of
/// `i64`; outside of it the operation that made it has overflowed.
pub open spec fn checked(n: int) -> Result<i64, MyError> {
    if i64::MIN <= n <= i64::MAX {
        Ok(n as i64)
    } else {
        Err(MyError::ArithmeticOverflow)
    }
}

/// The quotient of `a` by `b`, rounded towards zero.
pub open spec fn truncated_quotient(a: int, b: int) -> int
    recommends
        b != 0,
{
    if a >= 0 && b > 0 {
        a / b
    } else if a < 0 && b < 0 {
        (-a) / (-b)
    } else if a < 0 {
        -((-a) / b)
    } else {
        -(a / (-b))
    }
}

/// The value with which a fold under `op` starts: 0 for a sum, 1 for a
/// product.
pub open spec fn array_op_unit(op: ArrayNumOp) -> i64 {
    match op {
        ArrayNumOp::ADD => 0,
        ArrayNumOp::MUL => 1,
    }
}

/// One step of a fold: `acc + x` or `acc * x`, an error where it overflows.
pub open spec fn apply_array_op(op: ArrayNumOp, acc: i64, x: i64) -> Result<i64, MyError> {
    match op {
        ArrayNumOp::ADD => checked(acc + x),
        ArrayNumOp::MUL => checked(acc * x),
    }
}

/// `l - r`, or `l / r` rounded towards zero: an error where it overflows or
/// divides by zero.
pub open spec fn apply_ordered_op(op: OrderedNumOp, l: i64, r: i64) -> Result<i64, MyError> {
    match op {
        OrderedNumOp::SUB => checked(l - r),
        OrderedNumOp::DIV => {
            if r == 0 {
                Err(MyError::DivisionByZero)
            } else {
                checked(truncated_quotient(l as int, r as int))
            }
        },
    }
}

/// The fold of `op` over the operands `es`, from left to right, starting
/// from `acc`: each operand is evaluated and then taken into the result, and
/// the first error, of an operand or of a step, ends the fold.
pub open spec fn eval_fold<B: Builtins>(
    code: SpecProgram,
    scope: SpecScope,
    op: ArrayNumOp,
    es: Seq<SpecNumericExpr>,
    acc: i64,
    depth: nat,
    b: B,
) -> Result<i64, MyError>
    decreases depth, 0int, es, 0int,
{
    if es.len() == 0 {
        Ok(acc)
    } else {
        match eval_num(code, scope, es[0], depth, b) {
            Err(e) => Err(e),
            Ok(NumericData::Int(x)) => match apply_array_op(op, acc, x) {
                Err(e) => Err(e),
                Ok(next) => eval_fold(
                    code,
                    scope,
                    op,
                    es.subrange(1, es.len() as int),
                    next,
                    depth,
                    b,
                ),
            },
        }
    }
}

/// The number that a value is, where it is one.
pub open spec fn as_number(r: Result<SpecData, MyError>) -> Result<NumericData, MyError> {
    match r {
        Ok(SpecData::Number(a)) => Ok(a),
        Ok(_) => Err(MyError::TypeMismatch),
        Err(e) => Err(e),
    }
}

/// The value of a numeric expression. Arithmetic is checked: a result
/// outside the range of `i64` is an error.
pub open spec fn eval_num<B: Builtins>(
    code: SpecProgram,
    scope: SpecScope,
    e: SpecNumericExpr,
    depth: nat,
    b: B,
) -> Result<NumericData, MyError>
    decreases depth, 0int, e, 0int,
{
    match e {
        SpecNumericExpr::Const(c) => Ok(c),
        SpecNumericExpr::Identifier(name) => as_number(lookup(scope, name)),
        SpecNumericExpr::OrderedOperator { op, left, right } => match eval_num(
            code,
            scope,
            *left,
            depth,
            b,
        ) {
            Err(e) => Err(e),
            Ok(NumericData::Int(l)) => match eval_num(code, scope, *right, depth, b) {
                Err(e) => Err(e),
                Ok(NumericData::Int(r)) => match apply_ordered_op(op, l, r) {
                    Ok(v) => Ok(NumericData::Int(v)),
                    Err(e) => Err(e),
                },
            },
        },
        SpecNumericExpr::ArrayOperator { op, v } => match eval_fold(
            code,
            scope,
            op,
            v,
            array_op_unit(op),
            depth,
            b,
        ) {
            Ok(n) => Ok(NumericData::Int(n)),
            Err(e) => Err(e),
        },
        SpecNumericExpr::Call(f, args) => as_number(eval_call(code, scope, f, args, depth, b)),
    }
}

/// Folds `op` over the operands `es`, starting from `acc`.
pub fn eval_fold_int<B: Builtins>(
    c: &Program,
    p: &ProgramState,
    op: ArrayNumOp,
    es: &[NumericExpr],
    acc: i64,
    depth: usize,
    b: &B,
) -> (r: Result<i64, MyError>)
    ensures
        r == eval_fold(c@, p@, op, es.deep_view(), acc, depth as nat, *b),
    decreases depth, 0int, es.deep_view(), 0int,
{
    let ghost all = es.deep_view();
    let mut total: i64 = acc;
    let mut i: usize = 0;
    assert(all.subrange(0, all.len() as int) =~= all);
    while i < es.len()
        invariant
            i <= es.len(),
            all == es.deep_view(),
            eval_fold(c@, p@, op, all.subrange(i as int, all.len() as int), total, depth as nat, *b)
                == eval_fold(c@, p@, op, all, acc, depth as nat, *b),
        decreases es.len() - i,
    {
        let ghost rest = all.subrange(i as int, all.len() as int);
        assert(rest[0] == es[i as int]@ && all[i as int] == es[i as int]@);
        assert(rest.subrange(1, rest.len() as int) =~= all.subrange(i + 1, all.len() as int));
        let NumericData::Int(x) = eval_int(c, p, &es[i], depth, b)?;
        let step = match op {
            ArrayNumOp::ADD => total.checked_add(x),
            ArrayNumOp::MUL => total.checked_mul(x),
        };
        match step {
            Some(next) => {
                total = next;
            },
            None => {
                return Err(MyError::ArithmeticOverflow);
            },
        }
        i = i + 1;
    }
    Ok(total)
}

/// Evaluates a numeric expression to a number.
pub fn eval_int<B: Builtins>(c: &Program, p: &ProgramState, expr: &NumericExpr, depth: usize, b: &B) -> (r: Result<
    NumericData,
    MyError,
>)
    ensures
        r == eval_num(c@, p@, expr@, depth as nat, *b),
    decreases depth, 0int, expr@, 0int,
{
    broadcast use lemma_numeric_expr_view;

    match expr {
        NumericExpr::Const(n) => Ok(*n),
        NumericExpr::Identifier(name) => match var_lookup(name, p)? {
            Data::Number(a) => Ok(a),
            _ => Err(MyError::TypeMismatch),
        },
        NumericExpr::OrderedOperator { op, left, right } => {
            let NumericData::Int(l1) = eval_int(c, p, left, depth, b)?;
            let NumericData::Int(r1) = eval_int(c, p, right, depth, b)?;
            match op {
                OrderedNumOp::SUB => match l1.checked_sub(r1) {
                    Some(v) => Ok(NumericData::Int(v)),
                    None => Err(MyError::ArithmeticOverflow),
                },
                OrderedNumOp::DIV => {
                    if r1 == 0 {
                        Err(MyError::DivisionByZero)
                    } else {
                        match l1.checked_div(r1) {
                            Some(v) => Ok(NumericData::Int(v)),
                            None => Err(MyError::ArithmeticOverflow),
                        }
                    }
                },
            }
        },
        NumericExpr::ArrayOperator { op, v } => {
            let unit: i64 = match op {
                ArrayNumOp::ADD => 0,
                ArrayNumOp::MUL => 1,
            };
            let n = eval_fold_int(c, p, *op, whole_slice(v), unit, depth, b)?;
            Ok(NumericData::Int(n))
        },
        NumericExpr::Call(f, args) => match eval_and_call(c, f, args, p, depth, b)? {
            Data::Number(a) => Ok(a),
            _ => Err(MyError::TypeMismatch),
        },
    }
}

/// Evaluates a numeric expression to a value.
pub fn eval<B: Builtins>(c: &Program, p: &ProgramState, expr: &NumericExpr, depth: usize, b: &B) -> (r: Result<
    Data,
    MyError,
>)
    ensures
        res_view(r) == (match eval_num(c@, p@, expr@, depth as nat, *b) {
            Ok(n) => Ok(SpecData::Number(n)),
            Err(e) => Err(e),
        }),
    decreases depth, 0int, expr@, 1int,
{
    let res = eval_int(c, p, expr, depth, b)?;
    Ok(Data::Number(res))
}

} // verus!
