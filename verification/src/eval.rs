use crate::function::{Builtins, FunctionName, SpecFunctionName};
use crate::name_map::NameMap;
use crate::numeric_expr::NumericData;
use crate::expr::{eval_expr, Expr, SpecExpr};
use crate::logic_expr::eval_logic;
use crate::pattern_match::{ArgBind, SpecArgBind};
use crate::program::{Bind, Filter, Fun, SpecBind, SpecFilter, SpecFun};
use crate::views::{res_view, whole_slice};
use crate::tokens::MyError;
use vstd::prelude::*;

verus! {

/// A runtime value. Lists are cons cells; a list whose last tail is not
/// `Emptylist` can be built but need not match a list pattern.
#[derive(Debug)]
pub enum Data {
    Number(NumericData),
    Boolean(bool),
    Emptylist,
    List(Box<Data>, Box<Data>),
    FunctionPointer(FunctionName),
}

/// The lowered program: the functions by their names.
pub type Program = NameMap<Fun>;

/// A scope: the values of the variables that are bound.
pub type ProgramState = NameMap<Data>;

/// The mathematical value of a [`Data`].
pub enum SpecData {
    Number(NumericData),
    Boolean(bool),
    Emptylist,
    List(Box<SpecData>, Box<SpecData>),
    FunctionPointer(SpecFunctionName),
}

/// The mathematical value of a runtime value.
pub open spec fn data_view(d: Data) -> SpecData
    decreases d,
{
    match d {
        Data::Number(n) => SpecData::Number(n),
        Data::Boolean(b) => SpecData::Boolean(b),
        Data::Emptylist => SpecData::Emptylist,
        Data::List(head, tail) => SpecData::List(
            Box::new(data_view(*head)),
            Box::new(data_view(*tail)),
        ),
        Data::FunctionPointer(f) => SpecData::FunctionPointer(f@),
    }
}

impl DeepView for Data {
    type V = SpecData;

    #[verifier::inline]
    open spec fn deep_view(&self) -> SpecData {
        data_view(*self)
    }
}

impl View for Data {
    type V = SpecData;

    #[verifier::inline]
    open spec fn view(&self) -> SpecData {
        data_view(*self)
    }
}

impl Clone for Data {
    fn clone(&self) -> (r: Data)
        ensures
            r@ == self@,
        decreases self,
    {
        match self {
            Data::Number(n) => Data::Number(*n),
            Data::Boolean(b) => Data::Boolean(*b),
            Data::Emptylist => Data::Emptylist,
            Data::List(head, tail) => Data::List(
                Box::new((&**head).clone()),
                Box::new((&**tail).clone()),
            ),
            Data::FunctionPointer(f) => Data::FunctionPointer(f.clone()),
        }
    }
}

impl PartialEq for Data {
    fn eq(&self, other: &Data) -> (r: bool)
        decreases self,
    {
        match (self, other) {
            (Data::Number(a), Data::Number(b)) => *a == *b,
            (Data::Boolean(a), Data::Boolean(b)) => *a == *b,
            (Data::Emptylist, Data::Emptylist) => true,
            (Data::List(h1, t1), Data::List(h2, t2)) => (&**h1).eq(&**h2) && (&**t1).eq(&**t2),
            (Data::FunctionPointer(f), Data::FunctionPointer(g)) => *f == *g,
            _ => false,
        }
    }
}

impl Eq for Data {

}

impl vstd::std_specs::cmp::PartialEqSpecImpl for Data {
    open spec fn obeys_eq_spec() -> bool {
        true
    }

    open spec fn eq_spec(&self, other: &Data) -> bool {
        self@ == other@
    }
}

/// The mathematical value of a scope.
pub type SpecScope = Map<Seq<char>, SpecData>;

/// The mathematical value of a program.
pub type SpecProgram = Map<Seq<char>, SpecFun>;

/// The mathematical value of what a match returns: the scope that the match
/// made, none where the pattern does not take the value, or an error.
pub open spec fn bound_view(r: Result<Option<ProgramState>, MyError>) -> Result<
    Option<SpecScope>,
    MyError,
> {
    match r {
        Ok(Some(state)) => Ok(Some(state@)),
        Ok(None) => Ok(None),
        Err(e) => Err(e),
    }
}

/// Matching one value against one pattern, in the scope `state`.
///
/// A constant takes the value that equals it, and `Emptylist` the empty
/// list. A variable takes every value and binds it, but is an error where the
/// scope binds the name already: one name stands once in the patterns of a
/// clause. A list pattern takes a cons cell whose head and tail its two
/// parts take, the head first.
pub open spec fn bind_single(state: SpecScope, pattern: SpecArgBind, arg: SpecData) -> Result<
    Option<SpecScope>,
    MyError,
>
    decreases pattern,
{
    match pattern {
        SpecArgBind::ConstPattern(c) => Ok(
            if c == arg {
                Some(state)
            } else {
                None
            },
        ),
        SpecArgBind::Emptylist => Ok(
            if arg is Emptylist {
                Some(state)
            } else {
                None
            },
        ),
        SpecArgBind::Identifier(name) => {
            if state.contains_key(name) {
                Err(MyError::DuplicateBinding)
            } else {
                Ok(Some(state.insert(name, arg)))
            }
        },
        SpecArgBind::ListPattern { head, tail } => match arg {
            SpecData::List(dh, dt) => match bind_single(state, *head, *dh) {
                Ok(Some(state1)) => bind_single(state1, *tail, *dt),
                other => other,
            },
            _ => Ok(None),
        },
    }
}

/// Matching a list of values against a list of patterns, from left to right,
/// each in the scope that the matches before it made. Lists of different
/// lengths are an error.
pub open spec fn bind_all(state: SpecScope, patterns: Seq<SpecArgBind>, args: Seq<SpecData>) -> Result<
    Option<SpecScope>,
    MyError,
>
    decreases patterns.len(),
{
    if patterns.len() != args.len() {
        Err(MyError::PatternArityMismatch)
    } else if patterns.len() == 0 {
        Ok(Some(state))
    } else {
        match bind_single(state, patterns[0], args[0]) {
            Ok(Some(state1)) => bind_all(
                state1,
                patterns.subrange(1, patterns.len() as int),
                args.subrange(1, args.len() as int),
            ),
            other => other,
        }
    }
}

/// Whether the scope `after` binds every name that `before` binds, to the
/// same value.
pub open spec fn extends(after: SpecScope, before: SpecScope) -> bool {
    forall|name: Seq<char>| #[trigger]
        before.contains_key(name) ==> after.contains_key(name) && after[name] == before[name]
}

/// A match only adds bindings: the scope that it makes binds every name of
/// the scope that it started from, to the same value.
pub proof fn lemma_bind_single_extends(state: SpecScope, pattern: SpecArgBind, arg: SpecData)
    ensures
        bind_single(state, pattern, arg) matches Ok(Some(after)) ==> extends(after, state),
    decreases pattern,
{
    match pattern {
        SpecArgBind::ListPattern { head, tail } => match arg {
            SpecData::List(dh, dt) => {
                lemma_bind_single_extends(state, *head, *dh);
                match bind_single(state, *head, *dh) {
                    Ok(Some(state1)) => {
                        lemma_bind_single_extends(state1, *tail, *dt);
                    },
                    _ => {},
                }
            },
            _ => {},
        },
        _ => {},
    }
}

/// Matching a list of values only adds bindings.
pub proof fn lemma_bind_all_extends(
    state: SpecScope,
    patterns: Seq<SpecArgBind>,
    args: Seq<SpecData>,
)
    ensures
        bind_all(state, patterns, args) matches Ok(Some(after)) ==> extends(after, state),
    decreases patterns.len(),
{
    if patterns.len() == args.len() && patterns.len() > 0 {
        lemma_bind_single_extends(state, patterns[0], args[0]);
        match bind_single(state, patterns[0], args[0]) {
            Ok(Some(state1)) => {
                lemma_bind_all_extends(
                    state1,
                    patterns.subrange(1, patterns.len() as int),
                    args.subrange(1, args.len() as int),
                );
            },
            _ => {},
        }
    }
}

/// A list pattern of two distinct variables takes a cons cell apart: the
/// first variable is bound to the head, the second to the tail.
pub proof fn lemma_list_pattern_destructures(
    h: Seq<char>,
    t: Seq<char>,
    head: SpecData,
    tail: SpecData,
)
    requires
        h != t,
    ensures
        bind_single(
            Map::empty(),
            SpecArgBind::ListPattern {
                head: Box::new(SpecArgBind::Identifier(h)),
                tail: Box::new(SpecArgBind::Identifier(t)),
            },
            SpecData::List(Box::new(head), Box::new(tail)),
        ) == Ok::<Option<SpecScope>, MyError>(
            Some(Map::<Seq<char>, SpecData>::empty().insert(h, head).insert(t, tail)),
        ),
{
    let empty = Map::<Seq<char>, SpecData>::empty();
    assert(bind_single(empty, SpecArgBind::Identifier(h), head) == Ok::<
        Option<SpecScope>,
        MyError,
    >(Some(empty.insert(h, head))));
    assert(bind_single(empty.insert(h, head), SpecArgBind::Identifier(t), tail) == Ok::<
        Option<SpecScope>,
        MyError,
    >(Some(empty.insert(h, head).insert(t, tail))));
}

/// Matches one value against one pattern, in the scope `state`.
pub fn try_bind_single(state: ProgramState, pattern: &ArgBind, arg: &Data) -> (r: Result<
    Option<ProgramState>,
    MyError,
>)
    ensures
        bound_view(r) == bind_single(state@, pattern@, arg@),
    decreases pattern,
{
    match pattern {
        ArgBind::ConstPattern(c) => {
            if *c == *arg {
                Ok(Some(state))
            } else {
                Ok(None)
            }
        },
        ArgBind::Emptylist => match arg {
            Data::Emptylist => Ok(Some(state)),
            _ => Ok(None),
        },
        ArgBind::Identifier(name) => {
            if state.contains_key(name) {
                Err(MyError::DuplicateBinding)
            } else {
                Ok(Some(state.insert(crate::function::clone_name(name), arg.clone())))
            }
        },
        ArgBind::ListPattern { head, tail } => match arg {
            Data::List(dh, dt) => match try_bind_single(state, head, dh)? {
                Some(state1) => try_bind_single(state1, tail, dt),
                None => Ok(None),
            },
            _ => Ok(None),
        },
    }
}

/// Matches a list of values against a list of patterns, starting from the
/// scope `state`.
pub fn try_bind_with_state(state: ProgramState, pattern: &Vec<ArgBind>, args: &Vec<Data>) -> (r:
    Result<Option<ProgramState>, MyError>)
    ensures
        bound_view(r) == bind_all(state@, pattern.deep_view(), args.deep_view()),
{
    if pattern.len() != args.len() {
        return Err(MyError::PatternArityMismatch);
    }
    let ghost patterns = pattern.deep_view();
    let ghost values = args.deep_view();
    let ghost start = state@;
    let mut current = state;
    let mut i: usize = 0;
    assert(patterns.subrange(0, patterns.len() as int) =~= patterns);
    assert(values.subrange(0, values.len() as int) =~= values);
    while i < pattern.len()
        invariant
            i <= pattern.len(),
            pattern.len() == args.len(),
            patterns == pattern.deep_view(),
            values == args.deep_view(),
            start == state@,
            bind_all(
                current@,
                patterns.subrange(i as int, patterns.len() as int),
                values.subrange(i as int, values.len() as int),
            ) == bind_all(start, patterns, values),
        decreases pattern.len() - i,
    {
        let ghost ps = patterns.subrange(i as int, patterns.len() as int);
        let ghost vs = values.subrange(i as int, values.len() as int);
        assert(ps.subrange(1, ps.len() as int) =~= patterns.subrange(
            i + 1,
            patterns.len() as int,
        ));
        assert(vs.subrange(1, vs.len() as int) =~= values.subrange(i + 1, values.len() as int));
        assert(ps[0] == pattern[i as int]@ && vs[0] == args[i as int]@);
        match try_bind_single(current, &pattern[i], &args[i]) {
            Ok(Some(state1)) => {
                current = state1;
            },
            Ok(None) => {
                return Ok(None);
            },
            Err(e) => {
                return Err(e);
            },
        }
        i = i + 1;
    }
    Ok(Some(current))
}

/// Matches the arguments of a call against the patterns of a clause, starting
/// from the empty scope.
pub fn try_bind(pattern: &Vec<ArgBind>, args: &Vec<Data>) -> (r: Result<
    Option<ProgramState>,
    MyError,
>)
    ensures
        bound_view(r) == bind_all(Map::empty(), pattern.deep_view(), args.deep_view()),
{
    try_bind_with_state(NameMap::new(), pattern, args)
}

/// The first clause whose patterns take the arguments: the scope that the
/// match made, and the guarded bodies of the clause. An error of a match
/// ends the search; that no clause takes the arguments is an error too.
pub open spec fn select_bind(binds: Seq<SpecBind>, args: Seq<SpecData>) -> Result<
    (SpecScope, Seq<SpecFilter>),
    MyError,
>
    decreases binds.len(),
{
    if binds.len() == 0 {
        Err(MyError::NoMatchingClause)
    } else {
        match bind_all(Map::empty(), binds[0].pattern, args) {
            Ok(Some(state)) => Ok((state, binds[0].filters)),
            Ok(None) => select_bind(binds.subrange(1, binds.len() as int), args),
            Err(e) => Err(e),
        }
    }
}

/// The body behind the first guard that is true in `scope`. An error of a
/// guard ends the search; that no guard is true is an error too.
pub open spec fn select_body<B: Builtins>(
    code: SpecProgram,
    scope: SpecScope,
    filters: Seq<SpecFilter>,
    depth: nat,
    b: B,
) -> Result<SpecExpr, MyError>
    decreases filters.len(),
{
    if filters.len() == 0 {
        Err(MyError::NoMatchingClause)
    } else {
        match eval_logic(code, scope, filters[0].head, depth, b) {
            Err(e) => Err(e),
            Ok(true) => Ok(filters[0].code),
            Ok(false) => select_body(code, scope, filters.subrange(1, filters.len() as int), depth, b),
        }
    }
}

/// The value of the body behind the first guard that is true in `scope`.
pub open spec fn run_filters<B: Builtins>(
    code: SpecProgram,
    scope: SpecScope,
    filters: Seq<SpecFilter>,
    depth: nat,
    b: B,
) -> Result<SpecData, MyError>
    decreases depth, 1int, filters, 0int,
{
    if filters.len() == 0 {
        Err(MyError::NoMatchingClause)
    } else {
        match eval_logic(code, scope, filters[0].head, depth, b) {
            Err(e) => Err(e),
            Ok(true) => eval_expr(code, scope, filters[0].code, depth, b),
            Ok(false) => run_filters(code, scope, filters.subrange(1, filters.len() as int), depth, b),
        }
    }
}

/// The value of a call of the clauses `binds` on `args`.
pub open spec fn run_binds<B: Builtins>(
    code: SpecProgram,
    binds: Seq<SpecBind>,
    args: Seq<SpecData>,
    depth: nat,
    b: B,
) -> Result<SpecData, MyError>
    decreases depth, 2int, binds, 0int,
{
    if binds.len() == 0 {
        Err(MyError::NoMatchingClause)
    } else {
        match bind_all(Map::empty(), binds[0].pattern, args) {
            Ok(Some(state)) => run_filters(code, state, binds[0].filters, depth, b),
            Ok(None) => run_binds(code, binds.subrange(1, binds.len() as int), args, depth, b),
            Err(e) => Err(e),
        }
    }
}

/// The value of a call of the function `fun` on `args`.
///
/// The clauses are tried in their order, and the first whose patterns take
/// the arguments is chosen. Its guards are then tried in their order, in the
/// scope that the match made, and the body behind the first true guard is
/// evaluated. Where no guard of the chosen clause is true the call fails: no
/// later clause is tried.
pub open spec fn call_fun<B: Builtins>(code: SpecProgram, fun: SpecFun, args: Seq<SpecData>, depth: nat, b: B) -> Result<
    SpecData,
    MyError,
>
    decreases depth, 3int, args, 0int,
{
    run_binds(code, fun.binds, args, depth, b)
}

/// The value of the chosen body is the value of the body that `select_body`
/// chooses.
pub proof fn lemma_run_filters<B: Builtins>(
    code: SpecProgram,
    scope: SpecScope,
    filters: Seq<SpecFilter>,
    depth: nat,
    b: B,
)
    ensures
        run_filters(code, scope, filters, depth, b) == (match select_body(code, scope, filters, depth, b) {
            Ok(body) => eval_expr(code, scope, body, depth, b),
            Err(e) => Err(e),
        }),
    decreases filters.len(),
{
    if filters.len() > 0 {
        lemma_run_filters(code, scope, filters.subrange(1, filters.len() as int), depth, b);
    }
}

/// A call chooses a clause by `select_bind`, then a body by `select_body`,
/// and evaluates that body in the scope of the match.
pub proof fn lemma_call_fun<B: Builtins>(code: SpecProgram, fun: SpecFun, args: Seq<SpecData>, depth: nat, b: B)
    ensures
        call_fun(code, fun, args, depth, b) == (match select_bind(fun.binds, args) {
            Ok((state, filters)) => match select_body(code, state, filters, depth, b) {
                Ok(body) => eval_expr(code, state, body, depth, b),
                Err(e) => Err(e),
            },
            Err(e) => Err(e),
        }),
{
    lemma_run_binds(code, fun.binds, args, depth, b);
}

proof fn lemma_run_binds<B: Builtins>(code: SpecProgram, binds: Seq<SpecBind>, args: Seq<SpecData>, depth: nat, b: B)
    ensures
        run_binds(code, binds, args, depth, b) == (match select_bind(binds, args) {
            Ok((state, filters)) => match select_body(code, state, filters, depth, b) {
                Ok(body) => eval_expr(code, state, body, depth, b),
                Err(e) => Err(e),
            },
            Err(e) => Err(e),
        }),
    decreases binds.len(),
{
    if binds.len() > 0 {
        match bind_all(Map::empty(), binds[0].pattern, args) {
            Ok(Some(state)) => {
                lemma_run_filters(code, state, binds[0].filters, depth, b);
            },
            Ok(None) => {
                lemma_run_binds(code, binds.subrange(1, binds.len() as int), args, depth, b);
            },
            Err(e) => {},
        }
    }
}

/// Where all guards of the chosen clause are false the call fails, whatever
/// the clauses behind it would take.
pub proof fn lemma_false_guards_are_final<B: Builtins>(
    code: SpecProgram,
    fun: SpecFun,
    args: Seq<SpecData>,
    depth: nat,
    b: B,
)
    requires
        select_bind(fun.binds, args) matches Ok((state, filters)) && forall|i: int|
            0 <= i < filters.len() ==> eval_logic(code, state, (#[trigger] filters[i]).head, depth, b)
                == Ok::<bool, MyError>(false),
    ensures
        call_fun(code, fun, args, depth, b) == Err::<SpecData, MyError>(MyError::NoMatchingClause),
{
    lemma_call_fun(code, fun, args, depth, b);
    let (state, filters) = select_bind(fun.binds, args)->Ok_0;
    lemma_all_guards_false(code, state, filters, depth, b);
}

proof fn lemma_all_guards_false<B: Builtins>(
    code: SpecProgram,
    scope: SpecScope,
    filters: Seq<SpecFilter>,
    depth: nat,
    b: B,
)
    requires
        forall|i: int|
            0 <= i < filters.len() ==> eval_logic(code, scope, (#[trigger] filters[i]).head, depth, b)
                == Ok::<bool, MyError>(false),
    ensures
        select_body(code, scope, filters, depth, b) == Err::<SpecExpr, MyError>(
            MyError::NoMatchingClause,
        ),
    decreases filters.len(),
{
    if filters.len() > 0 {
        let rest = filters.subrange(1, filters.len() as int);
        assert(filters[0] == filters[0]);
        assert forall|i: int| 0 <= i < rest.len() implies eval_logic(
            code,
            scope,
            (#[trigger] rest[i]).head,
            depth,
            b,
        ) == Ok::<bool, MyError>(false) by {
            assert(rest[i] == filters[i + 1]);
        }
        lemma_all_guards_false(code, scope, rest, depth, b);
    }
}

/// Clauses are tried in their order: where the clauses before the one at `j`
/// do not take the arguments and that one does, it is chosen.
pub proof fn lemma_first_matching_clause(binds: Seq<SpecBind>, args: Seq<SpecData>, j: int)
    requires
        0 <= j < binds.len(),
        forall|i: int|
            0 <= i < j ==> bind_all(Map::empty(), (#[trigger] binds[i]).pattern, args) == Ok::<
                Option<SpecScope>,
                MyError,
            >(None),
        bind_all(Map::empty(), binds[j].pattern, args) matches Ok(Some(_)),
    ensures
        select_bind(binds, args) == Ok::<(SpecScope, Seq<SpecFilter>), MyError>(
            (bind_all(Map::empty(), binds[j].pattern, args)->Ok_0->Some_0, binds[j].filters),
        ),
    decreases j,
{
    if j > 0 {
        let rest = binds.subrange(1, binds.len() as int);
        assert(binds[0] == binds[0]);
        assert forall|i: int| 0 <= i < j - 1 implies bind_all(
            Map::empty(),
            (#[trigger] rest[i]).pattern,
            args,
        ) == Ok::<Option<SpecScope>, MyError>(None) by {
            assert(rest[i] == binds[i + 1]);
        }
        lemma_first_matching_clause(rest, args, j - 1);
    }
}

/// A clause for a constant before a clause for a variable: the constant's
/// clause is chosen for the value that equals the constant, and the
/// variable's clause, with the variable bound to the value, for every other.
pub proof fn lemma_constant_then_variable(
    c: SpecData,
    name: Seq<char>,
    first: Seq<SpecFilter>,
    second: Seq<SpecFilter>,
    value: SpecData,
)
    ensures
        select_bind(
            seq![
                SpecBind { pattern: seq![SpecArgBind::ConstPattern(c)], filters: first },
                SpecBind { pattern: seq![SpecArgBind::Identifier(name)], filters: second },
            ],
            seq![value],
        ) == Ok::<(SpecScope, Seq<SpecFilter>), MyError>(
            if value == c {
                (Map::empty(), first)
            } else {
                (Map::<Seq<char>, SpecData>::empty().insert(name, value), second)
            },
        ),
{
    let constant = SpecBind { pattern: seq![SpecArgBind::ConstPattern(c)], filters: first };
    let variable = SpecBind { pattern: seq![SpecArgBind::Identifier(name)], filters: second };
    let binds = seq![constant, variable];
    let args = seq![value];
    let empty = Map::<Seq<char>, SpecData>::empty();
    assert(constant.pattern.subrange(1, 1) =~= Seq::<SpecArgBind>::empty());
    assert(variable.pattern.subrange(1, 1) =~= Seq::<SpecArgBind>::empty());
    assert(args.subrange(1, 1) =~= Seq::<SpecData>::empty());
    assert(bind_all(empty, Seq::<SpecArgBind>::empty(), Seq::<SpecData>::empty()) == Ok::<
        Option<SpecScope>,
        MyError,
    >(Some(empty)));
    let bound = empty.insert(name, value);
    assert(bind_all(bound, Seq::<SpecArgBind>::empty(), Seq::<SpecData>::empty()) == Ok::<
        Option<SpecScope>,
        MyError,
    >(Some(bound)));
    assert(bind_all(empty, constant.pattern, args) == Ok::<Option<SpecScope>, MyError>(
        if value == c {
            Some(empty)
        } else {
            None
        },
    ));
    assert(bind_all(empty, variable.pattern, args) == Ok::<Option<SpecScope>, MyError>(
        Some(bound),
    ));
    if value == c {
        lemma_first_matching_clause(binds, args, 0);
    } else {
        lemma_first_matching_clause(binds, args, 1);
    }
}

/// Guards are tried in their order: where the guards before the one at `j`
/// are false and that one is true, the body behind it is chosen.
pub proof fn lemma_first_true_guard<B: Builtins>(
    code: SpecProgram,
    scope: SpecScope,
    filters: Seq<SpecFilter>,
    depth: nat,
    j: int,
    b: B,
)
    requires
        0 <= j < filters.len(),
        forall|i: int|
            0 <= i < j ==> eval_logic(code, scope, (#[trigger] filters[i]).head, depth, b) == Ok::<
                bool,
                MyError,
            >(false),
        eval_logic(code, scope, filters[j].head, depth, b) == Ok::<bool, MyError>(true),
    ensures
        select_body(code, scope, filters, depth, b) == Ok::<SpecExpr, MyError>(filters[j].code),
    decreases j,
{
    if j > 0 {
        let rest = filters.subrange(1, filters.len() as int);
        assert(filters[0] == filters[0]);
        assert forall|i: int| 0 <= i < j - 1 implies eval_logic(
            code,
            scope,
            (#[trigger] rest[i]).head,
            depth,
            b,
        ) == Ok::<bool, MyError>(false) by {
            assert(rest[i] == filters[i + 1]);
        }
        lemma_first_true_guard(code, scope, rest, depth, j - 1, b);
    }
}

/// Finds the first clause whose patterns take the arguments.
pub fn bind_args<'a>(binds: &'a [Bind], args: &Vec<Data>) -> (r: Result<
    (ProgramState, &'a Vec<Filter>),
    MyError,
>)
    ensures
        match r {
            Ok((state, filters)) => select_bind(binds.deep_view(), args.deep_view()) == Ok::<
                (SpecScope, Seq<SpecFilter>),
                MyError,
            >((state@, filters.deep_view())),
            Err(e) => select_bind(binds.deep_view(), args.deep_view()) == Err::<
                (SpecScope, Seq<SpecFilter>),
                MyError,
            >(e),
        },
{
    let ghost all = binds.deep_view();
    let mut i: usize = 0;
    assert(all.subrange(0, all.len() as int) =~= all);
    while i < binds.len()
        invariant
            i <= binds.len(),
            all == binds.deep_view(),
            select_bind(all.subrange(i as int, all.len() as int), args.deep_view()) == select_bind(
                all,
                args.deep_view(),
            ),
        decreases binds.len() - i,
    {
        let ghost rest = all.subrange(i as int, all.len() as int);
        assert(rest[0] == binds[i as int].deep_view());
        assert(rest.subrange(1, rest.len() as int) =~= all.subrange(i + 1, all.len() as int));
        match try_bind(&binds[i].pattern, args)? {
            Some(state) => {
                return Ok((state, &binds[i].filters));
            },
            None => {
                i = i + 1;
            },
        }
    }
    Err(MyError::NoMatchingClause)
}

/// Finds the body behind the first guard that is true in the scope `p`.
pub fn get_callpath<'a, B: Builtins>(
    c: &Program,
    p: &ProgramState,
    fv: &'a [Filter],
    depth: usize,
    b: &B,
) -> (r: Result<&'a Expr, MyError>)
    ensures
        res_view(r) == select_body(c@, p@, fv.deep_view(), depth as nat, *b),
    decreases depth, 1int, fv.deep_view(), 0int,
{
    let ghost all = fv.deep_view();
    let mut i: usize = 0;
    assert(all.subrange(0, all.len() as int) =~= all);
    while i < fv.len()
        invariant
            i <= fv.len(),
            all == fv.deep_view(),
            select_body(c@, p@, all.subrange(i as int, all.len() as int), depth as nat, *b)
                == select_body(c@, p@, all, depth as nat, *b),
        decreases fv.len() - i,
    {
        let ghost rest = all.subrange(i as int, all.len() as int);
        assert(rest[0] == fv[i as int].deep_view());
        assert(rest.subrange(1, rest.len() as int) =~= all.subrange(i + 1, all.len() as int));
        if crate::logic_expr::eval(c, p, &fv[i].head, depth, b)? {
            return Ok(&fv[i].code);
        }
        i = i + 1;
    }
    Err(MyError::NoMatchingClause)
}

/// Calls the function `fun` on `args`.
pub fn call<B: Builtins>(code: &Program, fun: &Fun, args: &Vec<Data>, depth: usize, b: &B) -> (r: Result<Data, MyError>)
    ensures
        res_view(r) == call_fun(code@, fun.deep_view(), args.deep_view(), depth as nat, *b),
    decreases depth, 3int, args.deep_view(), 0int,
{
    proof {
        lemma_call_fun(code@, fun.deep_view(), args.deep_view(), depth as nat, *b);
    }
    let (state0, filters) = bind_args(whole_slice(&fun.binds), args)?;
    let body = get_callpath(code, &state0, whole_slice(filters), depth, b)?;
    crate::expr::eval(code, &state0, body, depth, b)
}

} // verus!
