use crate::function::{clone_name, FunctionName, SpecFunctionName};
use crate::program::Functions;
use crate::segments::{
    lemma_segment_size_in, lemma_segments_size_split, lemma_slots_size, segment_size,
    segments_size, slots, slots_size, split_segments_at, Segment, SpecSegment,
};
use crate::tokens::{is_operator, is_operator_token, MyError, SpecToken, Token};
use crate::views::{res_view, sub_slice, whole_slice};
use vstd::prelude::*;

verus! {

/// An expression as the builder first reads it, before names and operators
/// are given a type.
#[derive(Debug, PartialEq)]
pub enum CallLevel {
    /// `f(a, b, c)`
    Call(FunctionName, Vec<CallLevel>),
    /// `a + b + c`: one operator over all its operands
    OpLevel(Token, Vec<CallLevel>),
    /// `a = f(5) a + 1`: bind `left` to `right`, then go on with `rest`
    Assign { left: Box<CallLevel>, right: Box<CallLevel>, rest: Box<CallLevel> },
    Identifier(Vec<char>),
    /// `[a, b]` holds `a`, `b` and the empty list; `[a | b]` holds `a` and `b`
    ListBuild(Vec<CallLevel>),
    Emptylist,
}

/// The mathematical value of a [`CallLevel`].
pub enum SpecCallLevel {
    Call(SpecFunctionName, Seq<SpecCallLevel>),
    OpLevel(SpecToken, Seq<SpecCallLevel>),
    Assign { left: Box<SpecCallLevel>, right: Box<SpecCallLevel>, rest: Box<SpecCallLevel> },
    Identifier(Seq<char>),
    ListBuild(Seq<SpecCallLevel>),
    Emptylist,
}

/// The mathematical values of a sequence of call levels.
pub open spec fn call_levels_view(v: Seq<CallLevel>) -> Seq<SpecCallLevel>
    decreases v,
{
    Seq::new(
        v.len(),
        |i: int|
            if 0 <= i < v.len() {
                call_level_view(v[i])
            } else {
                arbitrary()
            },
    )
}

/// The mathematical value of a call level.
pub open spec fn call_level_view(c: CallLevel) -> SpecCallLevel
    decreases c,
{
    match c {
        CallLevel::Call(f, args) => SpecCallLevel::Call(f@, call_levels_view(args@)),
        CallLevel::OpLevel(op, operands) => SpecCallLevel::OpLevel(
            op@,
            call_levels_view(operands@),
        ),
        CallLevel::Assign { left, right, rest } => SpecCallLevel::Assign {
            left: Box::new(call_level_view(*left)),
            right: Box::new(call_level_view(*right)),
            rest: Box::new(call_level_view(*rest)),
        },
        CallLevel::Identifier(name) => SpecCallLevel::Identifier(name@),
        CallLevel::ListBuild(items) => SpecCallLevel::ListBuild(call_levels_view(items@)),
        CallLevel::Emptylist => SpecCallLevel::Emptylist,
    }
}

impl DeepView for CallLevel {
    type V = SpecCallLevel;

    #[verifier::inline]
    open spec fn deep_view(&self) -> SpecCallLevel {
        call_level_view(*self)
    }
}

impl View for CallLevel {
    type V = SpecCallLevel;

    #[verifier::inline]
    open spec fn view(&self) -> SpecCallLevel {
        call_level_view(*self)
    }
}

/// The value of a call level, with the values of its parts written as the
/// deep view of the vector that holds them.
pub broadcast proof fn lemma_call_levels_view(c: CallLevel)
    ensures
        #![trigger call_level_view(c)]
        c matches CallLevel::Call(f, args) ==> call_level_view(c) == SpecCallLevel::Call(
            f@,
            args.deep_view(),
        ),
        c matches CallLevel::OpLevel(op, operands) ==> call_level_view(c) == SpecCallLevel::OpLevel(
            op@,
            operands.deep_view(),
        ),
        c matches CallLevel::ListBuild(items) ==> call_level_view(c) == SpecCallLevel::ListBuild(
            items.deep_view(),
        ),
{
    match c {
        CallLevel::Call(f, args) => {
            assert(call_levels_view(args@) =~= args.deep_view());
        },
        CallLevel::OpLevel(op, operands) => {
            assert(call_levels_view(operands@) =~= operands.deep_view());
        },
        CallLevel::ListBuild(items) => {
            assert(call_levels_view(items@) =~= items.deep_view());
        },
        _ => {},
    }
}

/// The operands of a flat chain `x op y op ... z` behind the operands `done`
/// that were read before: the tokens are identifiers at the even places and
/// the operator `op`, and no other, at the odd ones. A chain that mixes
/// operators is malformed.
pub open spec fn operand_chain(tv: Seq<SpecToken>, op: SpecToken, done: Seq<SpecCallLevel>) -> Result<
    Seq<SpecCallLevel>,
    MyError,
>
    decreases tv.len(),
{
    if is_operator(op) && (tv.len() == 1 || tv.len() > 2) {
        match tv[0] {
            SpecToken::Identifier(l) => {
                if tv.len() == 1 {
                    Ok(done.push(SpecCallLevel::Identifier(l)))
                } else if tv[1] == op {
                    operand_chain(
                        tv.subrange(2, tv.len() as int),
                        op,
                        done.push(SpecCallLevel::Identifier(l)),
                    )
                } else {
                    Err(MyError::MalformedGrammar)
                }
            },
            _ => Err(MyError::MalformedGrammar),
        }
    } else {
        Err(MyError::MalformedGrammar)
    }
}

/// What a run of tokens stands for: one identifier, or a flat chain of
/// identifiers under one operator.
pub open spec fn tokens_level(tv: Seq<SpecToken>) -> Result<SpecCallLevel, MyError> {
    if tv.len() == 1 {
        match tv[0] {
            SpecToken::Identifier(l) => Ok(SpecCallLevel::Identifier(l)),
            _ => Err(MyError::MalformedGrammar),
        }
    } else if tv.len() > 2 {
        match tv[0] {
            SpecToken::Identifier(l) => {
                if is_operator(tv[1]) {
                    match operand_chain(
                        tv.subrange(2, tv.len() as int),
                        tv[1],
                        seq![SpecCallLevel::Identifier(l)],
                    ) {
                        Ok(v) => Ok(SpecCallLevel::OpLevel(tv[1], v)),
                        Err(e) => Err(e),
                    }
                } else {
                    Err(MyError::MalformedGrammar)
                }
            },
            _ => Err(MyError::MalformedGrammar),
        }
    } else {
        Err(MyError::MalformedGrammar)
    }
}

/// The call levels that the parts of a split stand for, each part read as an
/// expression of its own.
pub open spec fn read_slots(parts: Seq<Seq<SpecSegment>>, context: Set<Seq<char>>) -> Result<
    Seq<SpecCallLevel>,
    MyError,
>
    decreases slots_size(parts), 2int, parts.len(),
{
    if parts.len() == 0 {
        Ok(Seq::empty())
    } else {
        match (
            read_slots(parts.subrange(0, parts.len() - 1), context),
            segments_level(parts[parts.len() - 1], context),
        ) {
            (Ok(front), Ok(level)) => Ok(front.push(level)),
            _ => Err(MyError::MalformedGrammar),
        }
    }
}

/// What the body of a list clause stands for. `[]` holds nothing; `[h | t]`
/// holds the head and the tail of a cell; `[a, b, c]` holds its items and
/// then the empty list. Each item, head or tail is an expression of its own.
pub open spec fn list_level(body: Seq<SpecSegment>, context: Set<Seq<char>>) -> Result<
    SpecCallLevel,
    MyError,
>
    decreases segments_size(body), 3int, 0nat,
{
    if body.len() == 0 {
        Ok(SpecCallLevel::ListBuild(Seq::empty()))
    } else {
        let by_pipe = slots(body, SpecToken::Pipe);
        proof {
            lemma_slots_size(body, SpecToken::Pipe);
            lemma_slots_size(body, SpecToken::ArgTerm);
        }
        if by_pipe.len() == 2 {
            match read_slots(by_pipe, context) {
                Ok(items) => Ok(SpecCallLevel::ListBuild(items)),
                Err(e) => Err(e),
            }
        } else if by_pipe.len() == 1 {
            match read_slots(slots(body, SpecToken::ArgTerm), context) {
                Ok(items) => Ok(SpecCallLevel::ListBuild(items.push(SpecCallLevel::Emptylist))),
                Err(e) => Err(e),
            }
        } else {
            Err(MyError::MalformedGrammar)
        }
    }
}

/// What one segment stands for: a run of tokens or a list clause.
pub open spec fn segment_level(seg: SpecSegment, context: Set<Seq<char>>) -> Result<
    SpecCallLevel,
    MyError,
>
    decreases segment_size(seg), 0int, 0nat,
{
    match seg {
        SpecSegment::UnMatched(tv) => tokens_level(tv),
        SpecSegment::Clause { head: SpecToken::LeftB, body, .. } => list_level(body, context),
        _ => Err(MyError::MalformedGrammar),
    }
}

/// The arguments that the body of a call's parentheses holds: none where it
/// is empty, else one for each part between its commas, each an expression
/// of its own.
pub open spec fn call_args(seg: Seq<SpecSegment>, context: Set<Seq<char>>) -> Result<
    Seq<SpecCallLevel>,
    MyError,
>
    decreases segments_size(seg), 3int, 0nat,
{
    if seg.len() == 0 {
        Ok(Seq::empty())
    } else {
        proof {
            lemma_slots_size(seg, SpecToken::ArgTerm);
        }
        read_slots(slots(seg, SpecToken::ArgTerm), context)
    }
}

/// The call of `fname` on the arguments in `args`: static where the program
/// defines a function of that name, dynamic where it does not.
pub open spec fn fun_call(fname: Seq<char>, args: Seq<SpecSegment>, context: Set<Seq<char>>) -> Result<
    SpecCallLevel,
    MyError,
>
    decreases segments_size(args), 4int, 0nat,
{
    match call_args(args, context) {
        Ok(a) => Ok(
            SpecCallLevel::Call(
                if context.contains(fname) {
                    SpecFunctionName::Static(fname)
                } else {
                    SpecFunctionName::Dynamic(fname)
                },
                a,
            ),
        ),
        Err(e) => Err(e),
    }
}

/// The call of the builtin `fname` on the arguments in `args`.
pub open spec fn rust_fun_call(
    fname: Seq<char>,
    args: Seq<SpecSegment>,
    context: Set<Seq<char>>,
) -> Result<SpecCallLevel, MyError>
    decreases segments_size(args), 4int, 0nat,
{
    match call_args(args, context) {
        Ok(a) => Ok(SpecCallLevel::Call(SpecFunctionName::Rust(fname), a)),
        Err(e) => Err(e),
    }
}

/// The word that marks a call as one of a builtin: `name::rust(..)`.
pub open spec fn rust_word() -> Seq<char> {
    seq!['r', 'u', 's', 't']
}

/// What a sequence of segments stands for, in a program that defines the
/// functions named in `context`.
///
/// One segment is a run of tokens or a list literal. A run that ends in an
/// identifier, before a clause in parentheses, is a call; the tokens before
/// the identifier decide what is made of it: none, the call alone; an
/// operator, the last operand of a flat chain; `=`, the right side of an
/// assignment whose rest are the segments after the call; `::`, with the
/// identifier `rust`, a builtin call of the name before it. A clause in
/// parentheses before a run that starts with an operator is the first operand
/// of a flat chain. Every other shape is malformed, and so are segments left
/// over behind a call or a chain.
pub open spec fn segments_level(s: Seq<SpecSegment>, context: Set<Seq<char>>) -> Result<
    SpecCallLevel,
    MyError,
>
    decreases segments_size(s), 1int, 0nat,
{
    if s.len() == 1 {
        proof {
            lemma_segment_size_in(s, 0);
        }
        segment_level(s[0], context)
    } else if s.len() > 1 {
        proof {
            lemma_segment_size_in(s, 0);
            lemma_segment_size_in(s, 1);
            lemma_segments_size_split(s, 2);
            lemma_segment_size_in(s.subrange(0, 2), 1);
        }
        match (s[0], s[1]) {
            (
                SpecSegment::UnMatched(v),
                SpecSegment::Clause { head: SpecToken::LeftP, body, .. },
            ) => {
                if v.len() == 0 {
                    Err(MyError::MalformedGrammar)
                } else {
                    match v[v.len() - 1] {
                        SpecToken::Identifier(fname) => {
                            if v.len() == 1 {
                                if s.len() == 2 {
                                    fun_call(fname, body, context)
                                } else {
                                    Err(MyError::MalformedGrammar)
                                }
                            } else {
                                let op = v[v.len() - 2];
                                let before = v.subrange(0, v.len() - 2);
                                if is_operator(op) {
                                    match (
                                        fun_call(fname, body, context),
                                        operand_chain(before, op, Seq::empty()),
                                    ) {
                                        (Ok(fun), Ok(operands)) if s.len() == 2 => Ok(
                                            SpecCallLevel::OpLevel(op, operands.push(fun)),
                                        ),
                                        _ => Err(MyError::MalformedGrammar),
                                    }
                                } else if op is Assign {
                                    match (
                                        fun_call(fname, body, context),
                                        tokens_level(before),
                                        segments_level(s.subrange(2, s.len() as int), context),
                                    ) {
                                        (Ok(fun), Ok(left), Ok(rest)) => Ok(
                                            SpecCallLevel::Assign {
                                                left: Box::new(left),
                                                right: Box::new(fun),
                                                rest: Box::new(rest),
                                            },
                                        ),
                                        _ => Err(MyError::MalformedGrammar),
                                    }
                                } else if op is Qualify {
                                    if s.len() == 2 && fname == rust_word() && before.len() == 1 {
                                        match before[0] {
                                            SpecToken::Identifier(name) => rust_fun_call(
                                                name,
                                                body,
                                                context,
                                            ),
                                            _ => Err(MyError::MalformedGrammar),
                                        }
                                    } else {
                                        Err(MyError::MalformedGrammar)
                                    }
                                } else {
                                    Err(MyError::MalformedGrammar)
                                }
                            }
                        },
                        _ => Err(MyError::MalformedGrammar),
                    }
                }
            },
            (
                SpecSegment::Clause { head: SpecToken::LeftP, body, .. },
                SpecSegment::UnMatched(tv),
            ) => {
                if s.len() == 2 && tv.len() > 0 && is_operator(tv[0]) {
                    match segments_level(body, context) {
                        Ok(first) => match operand_chain(
                            tv.subrange(1, tv.len() as int),
                            tv[0],
                            seq![first],
                        ) {
                            Ok(operands) => Ok(SpecCallLevel::OpLevel(tv[0], operands)),
                            Err(e) => Err(e),
                        },
                        Err(e) => Err(e),
                    }
                } else {
                    Err(MyError::MalformedGrammar)
                }
            },
            _ => Err(MyError::MalformedGrammar),
        }
    } else {
        Err(MyError::MalformedGrammar)
    }
}

/// A flat chain as it is built: its operator and the operands read so far.
#[derive(Debug, PartialEq)]
pub struct IntOpLevel {
    pub t: Token,
    pub v: Vec<CallLevel>,
}

/// The call level of a chain that has been read to its end.
pub fn int_oplevel_to_oplevel(level: IntOpLevel) -> (r: CallLevel)
    ensures
        r@ == SpecCallLevel::OpLevel(level.t@, level.v.deep_view()),
{
    broadcast use lemma_call_levels_view;

    CallLevel::OpLevel(level.t, level.v)
}

/// Reads the operands of a flat chain under `leveltoken` behind those in
/// `done`.
pub fn build_level_int(tv: &[Token], leveltoken: &Token, done: Vec<CallLevel>) -> (r: Result<
    IntOpLevel,
    MyError,
>)
    ensures
        match r {
            Ok(level) => level.t@ == leveltoken@ && operand_chain(
                tv.deep_view(),
                leveltoken@,
                done.deep_view(),
            ) == Ok::<Seq<SpecCallLevel>, MyError>(level.v.deep_view()),
            Err(e) => operand_chain(tv.deep_view(), leveltoken@, done.deep_view()) == Err::<
                Seq<SpecCallLevel>,
                MyError,
            >(e),
        },
{
    if !is_operator_token(leveltoken) {
        return Err(MyError::MalformedGrammar);
    }
    let ghost all = tv.deep_view();
    let ghost given = done.deep_view();
    let mut operands = done;
    let mut i: usize = 0;
    assert(all.subrange(0, all.len() as int) =~= all);
    while i < tv.len()
        invariant
            i <= tv.len(),
            all == tv.deep_view(),
            given == done.deep_view(),
            is_operator(leveltoken@),
            operand_chain(all.subrange(i as int, all.len() as int), leveltoken@, operands.deep_view())
                == operand_chain(all, leveltoken@, given),
        decreases tv.len() - i,
    {
        broadcast use {lemma_call_levels_view, crate::views::lemma_deep_view_push};

        let ghost rest = all.subrange(i as int, all.len() as int);
        assert(rest[0] == tv[i as int]@);
        let left = tv.len() - i;
        if left == 2 {
            return Err(MyError::MalformedGrammar);
        }
        match &tv[i] {
            Token::Identifier(l) => {
                operands.push(CallLevel::Identifier(clone_name(l)));
                if left == 1 {
                    return Ok(IntOpLevel { t: leveltoken.clone(), v: operands });
                }
                assert(rest[1] == tv[i + 1]@);
                if tv[i + 1] != *leveltoken {
                    return Err(MyError::MalformedGrammar);
                }
                assert(rest.subrange(2, rest.len() as int) =~= all.subrange(
                    i + 2,
                    all.len() as int,
                ));
                i = i + 2;
            },
            _ => {
                return Err(MyError::MalformedGrammar);
            },
        }
    }
    Err(MyError::MalformedGrammar)
}

/// Reads a run of tokens as one identifier or one flat chain.
pub fn tokens_to_call_level(tv: &[Token]) -> (r: Result<CallLevel, MyError>)
    ensures
        res_view(r) == tokens_level(tv.deep_view()),
{
    broadcast use {lemma_call_levels_view, crate::views::lemma_deep_view_push};

    if tv.len() == 1 {
        match &tv[0] {
            Token::Identifier(l) => Ok(CallLevel::Identifier(clone_name(l))),
            _ => Err(MyError::MalformedGrammar),
        }
    } else if tv.len() > 2 {
        match &tv[0] {
            Token::Identifier(l) => {
                if is_operator_token(&tv[1]) {
                    let mut first: Vec<CallLevel> = Vec::new();
                    first.push(CallLevel::Identifier(clone_name(l)));
                    assert(first.deep_view() =~= seq![SpecCallLevel::Identifier(l@)]);
                    let level = build_level_int(sub_slice(tv, 2, tv.len()), &tv[1], first)?;
                    Ok(int_oplevel_to_oplevel(level))
                } else {
                    Err(MyError::MalformedGrammar)
                }
            },
            _ => Err(MyError::MalformedGrammar),
        }
    } else {
        Err(MyError::MalformedGrammar)
    }
}

/// Reads the parts of a split, each as an expression of its own.
pub fn read_slot_levels(parts: &[Vec<Segment>], context: &Functions) -> (r: Result<
    Vec<CallLevel>,
    MyError,
>)
    ensures
        res_view(r) == read_slots(parts.deep_view(), context@.dom()),
    decreases slots_size(parts.deep_view()), 2int, parts.len(),
{
    broadcast use crate::views::lemma_deep_view_push;

    let n = parts.len();
    if n == 0 {
        let out: Vec<CallLevel> = Vec::new();
        assert(out.deep_view() =~= Seq::<SpecCallLevel>::empty());
        Ok(out)
    } else {
        let front = read_slot_levels(sub_slice(parts, 0, n - 1), context);
        let last = segments_to_call_level(whole_slice(&parts[n - 1]), context);
        match (front, last) {
            (Ok(mut front), Ok(last)) => {
                front.push(last);
                Ok(front)
            },
            _ => Err(MyError::MalformedGrammar),
        }
    }
}

/// Reads the body of a list clause.
pub fn listbuild(body: &Vec<Segment>, context: &Functions) -> (r: Result<CallLevel, MyError>)
    ensures
        res_view(r) == list_level(body.deep_view(), context@.dom()),
    decreases segments_size(body.deep_view()), 3int, 0nat,
{
    broadcast use {lemma_call_levels_view, crate::views::lemma_deep_view_push};

    if body.len() == 0 {
        let items: Vec<CallLevel> = Vec::new();
        assert(items.deep_view() =~= Seq::<SpecCallLevel>::empty());
        return Ok(CallLevel::ListBuild(items));
    }
    proof {
        lemma_slots_size(body.deep_view(), SpecToken::Pipe);
        lemma_slots_size(body.deep_view(), SpecToken::ArgTerm);
    }
    let by_pipe = split_segments_at(whole_slice(body), &Token::Pipe);
    if by_pipe.len() == 2 {
        let items = read_slot_levels(whole_slice(&by_pipe), context)?;
        Ok(CallLevel::ListBuild(items))
    } else if by_pipe.len() == 1 {
        let by_comma = split_segments_at(whole_slice(body), &Token::ArgTerm);
        let mut items = read_slot_levels(whole_slice(&by_comma), context)?;
        items.push(CallLevel::Emptylist);
        Ok(CallLevel::ListBuild(items))
    } else {
        Err(MyError::MalformedGrammar)
    }
}

/// Reads one segment: a run of tokens or a list literal.
pub fn segment_to_call_level(seg: &Segment, context: &Functions) -> (r: Result<CallLevel, MyError>)
    ensures
        res_view(r) == segment_level(seg@, context@.dom()),
    decreases segment_size(seg@), 0int, 0nat,
{
    broadcast use crate::segments::lemma_segment_view;

    match seg {
        Segment::UnMatched(tv) => tokens_to_call_level(whole_slice(tv)),
        Segment::Clause { head: Token::LeftB, body, .. } => listbuild(body, context),
        _ => Err(MyError::MalformedGrammar),
    }
}

/// Reads the arguments that the body of a call's parentheses holds.
pub fn segments_to_call_args(seg: &[Segment], context: &Functions) -> (r: Result<
    Vec<CallLevel>,
    MyError,
>)
    ensures
        res_view(r) == call_args(seg.deep_view(), context@.dom()),
    decreases segments_size(seg.deep_view()), 3int, 0nat,
{
    if seg.len() == 0 {
        let res: Vec<CallLevel> = Vec::new();
        assert(res.deep_view() =~= Seq::<SpecCallLevel>::empty());
        return Ok(res);
    }
    proof {
        lemma_slots_size(seg.deep_view(), SpecToken::ArgTerm);
    }
    let parts = split_segments_at(seg, &Token::ArgTerm);
    read_slot_levels(whole_slice(&parts), context)
}

/// The call of `fname` on the arguments in `args`, static where `context`
/// defines `fname` and dynamic where it does not.
pub fn make_fun(fname: &Vec<char>, args: &Vec<Segment>, context: &Functions) -> (r: Result<
    CallLevel,
    MyError,
>)
    ensures
        res_view(r) == fun_call(fname@, args.deep_view(), context@.dom()),
    decreases segments_size(args.deep_view()), 4int, 0nat,
{
    broadcast use lemma_call_levels_view;

    let args = segments_to_call_args(whole_slice(args), context)?;
    if context.contains_key(fname) {
        Ok(CallLevel::Call(FunctionName::Static(clone_name(fname)), args))
    } else {
        Ok(CallLevel::Call(FunctionName::Dynamic(clone_name(fname)), args))
    }
}

/// The call of the builtin `fname` on the arguments in `args`.
pub fn make_rust_fun(fname: &Vec<char>, args: &Vec<Segment>, context: &Functions) -> (r: Result<
    CallLevel,
    MyError,
>)
    ensures
        res_view(r) == rust_fun_call(fname@, args.deep_view(), context@.dom()),
    decreases segments_size(args.deep_view()), 4int, 0nat,
{
    broadcast use lemma_call_levels_view;

    let args = segments_to_call_args(whole_slice(args), context)?;
    Ok(CallLevel::Call(FunctionName::Rust(clone_name(fname)), args))
}

/// Whether a name is the word `rust`.
pub fn is_rust_word(name: &Vec<char>) -> (r: bool)
    ensures
        r == (name@ == rust_word()),
{
    let r = name.len() == 4 && name[0] == 'r' && name[1] == 'u' && name[2] == 's' && name[3]
        == 't';
    assert(r ==> name@ =~= rust_word());
    r
}

/// Reads a sequence of segments as one expression, in a program that defines
/// the functions of `context`.
pub fn segments_to_call_level(s: &[Segment], context: &Functions) -> (r: Result<CallLevel, MyError>)
    ensures
        res_view(r) == segments_level(s.deep_view(), context@.dom()),
    decreases segments_size(s.deep_view()), 1int, 0nat,
{
    broadcast use {
        lemma_call_levels_view,
        crate::views::lemma_deep_view_push,
        crate::segments::lemma_segment_view,
    };

    if s.len() == 1 {
        proof {
            lemma_segment_size_in(s.deep_view(), 0);
        }
        return segment_to_call_level(&s[0], context);
    }
    if s.len() < 2 {
        return Err(MyError::MalformedGrammar);
    }
    proof {
        let sv = s.deep_view();
        lemma_segment_size_in(sv, 0);
        lemma_segment_size_in(sv, 1);
        lemma_segments_size_split(sv, 2);
        lemma_segment_size_in(sv.subrange(0, 2), 1);
    }
    match (&s[0], &s[1]) {
        (Segment::UnMatched(v), Segment::Clause { head: Token::LeftP, body, .. }) => {
            if v.len() == 0 {
                return Err(MyError::MalformedGrammar);
            }
            match &v[v.len() - 1] {
                Token::Identifier(fname) => {
                    if v.len() == 1 {
                        if s.len() == 2 {
                            make_fun(fname, body, context)
                        } else {
                            Err(MyError::MalformedGrammar)
                        }
                    } else {
                        let op = &v[v.len() - 2];
                        let before = sub_slice(whole_slice(v), 0, v.len() - 2);
                        if is_operator_token(op) {
                            let fun = make_fun(fname, body, context);
                            let empty: Vec<CallLevel> = Vec::new();
                            assert(empty.deep_view() =~= Seq::<SpecCallLevel>::empty());
                            let chain = build_level_int(before, op, empty);
                            match (fun, chain) {
                                (Ok(fun), Ok(level)) => {
                                    if s.len() == 2 {
                                        let IntOpLevel { t, v: mut operands } = level;
                                        operands.push(fun);
                                        Ok(CallLevel::OpLevel(t, operands))
                                    } else {
                                        Err(MyError::MalformedGrammar)
                                    }
                                },
                                _ => Err(MyError::MalformedGrammar),
                            }
                        } else {
                            match op {
                                Token::Assign => {
                                    let fun = make_fun(fname, body, context);
                                    let left = tokens_to_call_level(before);
                                    let rest = segments_to_call_level(
                                        sub_slice(s, 2, s.len()),
                                        context,
                                    );
                                    match (fun, left, rest) {
                                        (Ok(fun), Ok(left), Ok(rest)) => Ok(
                                            CallLevel::Assign {
                                                left: Box::new(left),
                                                right: Box::new(fun),
                                                rest: Box::new(rest),
                                            },
                                        ),
                                        _ => Err(MyError::MalformedGrammar),
                                    }
                                },
                                Token::Qualify => {
                                    if s.len() == 2 && is_rust_word(fname) && before.len() == 1 {
                                        match &before[0] {
                                            Token::Identifier(name) => make_rust_fun(
                                                name,
                                                body,
                                                context,
                                            ),
                                            _ => Err(MyError::MalformedGrammar),
                                        }
                                    } else {
                                        Err(MyError::MalformedGrammar)
                                    }
                                },
                                _ => Err(MyError::MalformedGrammar),
                            }
                        }
                    }
                },
                _ => Err(MyError::MalformedGrammar),
            }
        },
        (Segment::Clause { head: Token::LeftP, body, .. }, Segment::UnMatched(tv)) => {
            if s.len() == 2 && tv.len() > 0 && is_operator_token(&tv[0]) {
                let first = segments_to_call_level(whole_slice(body), context)?;
                let mut operands: Vec<CallLevel> = Vec::new();
                operands.push(first);
                assert(operands.deep_view() =~= seq![first@]);
                let level = build_level_int(
                    sub_slice(whole_slice(tv), 1, tv.len()),
                    &tv[0],
                    operands,
                )?;
                Ok(int_oplevel_to_oplevel(level))
            } else {
                Err(MyError::MalformedGrammar)
            }
        },
        _ => Err(MyError::MalformedGrammar),
    }
}

} // verus!
