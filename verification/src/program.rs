use crate::call_levels::{segments_level, segments_to_call_level};
use crate::expr::{call_levels_to_expr, lower_expr, Expr, SpecExpr};
use crate::function::clone_name;
use crate::logic_expr::{segments_logic, segments_to_logical_expr, LogicExpr, SpecLogicExpr};
use crate::eval::{Program, SpecProgram};
use crate::name_map::{entries_map, has_name, lemma_entries_map_at, names_distinct, NameMap};
use crate::pattern_match::{
    bind_segment_to_bindpattern, segments_patterns, ArgBind, SpecArgBind,
};
use crate::segments::{clone_segments, lemma_segment_view, Segment, SpecSegment};
use crate::tokens::{MyError, SpecToken, Token};
use crate::views::{lemma_deep_view_push, res_view, sub_slice, whole_slice};
use vstd::prelude::*;

verus! {

/// A function: its clauses in the order in which they are tried.
#[derive(Debug, PartialEq)]
pub struct Fun {
    pub name: Vec<char>,
    pub binds: Vec<Bind>,
}

/// A clause: a pattern for the arguments and the guarded bodies behind it.
#[derive(Debug, PartialEq)]
pub struct Bind {
    pub pattern: Vec<ArgBind>,
    pub filters: Vec<Filter>,
}

/// A guard and the body that it stands before.
#[derive(Debug, PartialEq)]
pub struct Filter {
    pub head: LogicExpr,
    pub code: Expr,
}

/// A function whose guards and bodies are still segments.
#[derive(Debug, PartialEq)]
pub struct FunFun {
    pub name: Vec<char>,
    pub binds: Vec<FunBind>,
}

/// A clause whose guards and bodies are still segments.
#[derive(Debug, PartialEq)]
pub struct FunBind {
    pub pattern: Vec<ArgBind>,
    pub filters: Vec<FunFilter>,
}

/// A guard and a body as segments. No guard is an empty `head`.
#[derive(Debug, PartialEq)]
pub struct FunFilter {
    pub head: Vec<Segment>,
    pub code: Vec<Segment>,
}

/// The table of functions as the source defines them, by name.
pub type Functions = NameMap<FunFun>;

/// The mathematical value of a [`Filter`].
pub struct SpecFilter {
    pub head: SpecLogicExpr,
    pub code: SpecExpr,
}

/// The mathematical value of a [`Bind`].
pub struct SpecBind {
    pub pattern: Seq<SpecArgBind>,
    pub filters: Seq<SpecFilter>,
}

/// The mathematical value of a [`Fun`].
pub struct SpecFun {
    pub name: Seq<char>,
    pub binds: Seq<SpecBind>,
}

/// The mathematical value of a [`FunFilter`].
pub struct SpecFunFilter {
    pub head: Seq<SpecSegment>,
    pub code: Seq<SpecSegment>,
}

/// The mathematical value of a [`FunBind`].
pub struct SpecFunBind {
    pub pattern: Seq<SpecArgBind>,
    pub filters: Seq<SpecFunFilter>,
}

/// The mathematical value of a [`FunFun`].
pub struct SpecFunFun {
    pub name: Seq<char>,
    pub binds: Seq<SpecFunBind>,
}

impl DeepView for Filter {
    type V = SpecFilter;

    open spec fn deep_view(&self) -> SpecFilter {
        SpecFilter { head: self.head@, code: self.code@ }
    }
}

impl DeepView for Bind {
    type V = SpecBind;

    open spec fn deep_view(&self) -> SpecBind {
        SpecBind { pattern: self.pattern.deep_view(), filters: self.filters.deep_view() }
    }
}

impl DeepView for Fun {
    type V = SpecFun;

    open spec fn deep_view(&self) -> SpecFun {
        SpecFun { name: self.name@, binds: self.binds.deep_view() }
    }
}

impl DeepView for FunFilter {
    type V = SpecFunFilter;

    open spec fn deep_view(&self) -> SpecFunFilter {
        SpecFunFilter { head: self.head.deep_view(), code: self.code.deep_view() }
    }
}

impl DeepView for FunBind {
    type V = SpecFunBind;

    open spec fn deep_view(&self) -> SpecFunBind {
        SpecFunBind { pattern: self.pattern.deep_view(), filters: self.filters.deep_view() }
    }
}

impl DeepView for FunFun {
    type V = SpecFunFun;

    open spec fn deep_view(&self) -> SpecFunFun {
        SpecFunFun { name: self.name@, binds: self.binds.deep_view() }
    }
}

/// The guarded bodies at the start of `s`, and the segments behind them.
/// A body is a clause between `/` and `\`; a guard is a clause in braces
/// right before a body, and a body without one has the empty guard.
pub open spec fn filters_of(s: Seq<SpecSegment>) -> Result<
    (Seq<SpecFunFilter>, Seq<SpecSegment>),
    MyError,
>
    decreases s.len(),
{
    if s.len() == 0 {
        Ok((Seq::empty(), s))
    } else if s.len() == 1 {
        match s[0] {
            SpecSegment::Clause { head: SpecToken::CodeStart, body, .. } => Ok(
                (seq![SpecFunFilter { head: Seq::empty(), code: body }], Seq::empty()),
            ),
            _ => Err(MyError::MalformedGrammar),
        }
    } else {
        match (s[0], s[1]) {
            (
                SpecSegment::Clause { head: SpecToken::LeftW, body: guard, .. },
                SpecSegment::Clause { head: SpecToken::CodeStart, body: code, .. },
            ) => match filters_of(s.subrange(2, s.len() as int)) {
                Ok((others, rest)) => Ok(
                    (seq![SpecFunFilter { head: guard, code }] + others, rest),
                ),
                Err(e) => Err(e),
            },
            (SpecSegment::Clause { head: SpecToken::CodeStart, body: code, .. }, _) => match filters_of(
                s.subrange(1, s.len() as int),
            ) {
                Ok((others, rest)) => Ok(
                    (seq![SpecFunFilter { head: Seq::empty(), code }] + others, rest),
                ),
                Err(e) => Err(e),
            },
            _ => Ok((Seq::empty(), s)),
        }
    }
}

/// What `filters_of` leaves behind is the end of what it was given.
pub proof fn lemma_filters_rest(s: Seq<SpecSegment>)
    ensures
        filters_of(s) matches Ok((filters, rest)) ==> rest.len() <= s.len() && rest == s.subrange(
            s.len() - rest.len(),
            s.len() as int,
        ),
    decreases s.len(),
{
    if s.len() == 0 {
        assert(s.subrange(0, 0) =~= s);
    } else if s.len() == 1 {
        assert(s.subrange(1, 1) =~= Seq::<SpecSegment>::empty());
    } else {
        match (s[0], s[1]) {
            (
                SpecSegment::Clause { head: SpecToken::LeftW, body: guard, .. },
                SpecSegment::Clause { head: SpecToken::CodeStart, body: code, .. },
            ) => {
                let sub = s.subrange(2, s.len() as int);
                lemma_filters_rest(sub);
                match filters_of(sub) {
                    Ok((others, rest)) => {
                        assert(sub.subrange(sub.len() - rest.len(), sub.len() as int) =~= s.subrange(
                            s.len() - rest.len(),
                            s.len() as int,
                        ));
                    },
                    Err(e) => {},
                }
            },
            (SpecSegment::Clause { head: SpecToken::CodeStart, body: code, .. }, _) => {
                let sub = s.subrange(1, s.len() as int);
                lemma_filters_rest(sub);
                match filters_of(sub) {
                    Ok((others, rest)) => {
                        assert(sub.subrange(sub.len() - rest.len(), sub.len() as int) =~= s.subrange(
                            s.len() - rest.len(),
                            s.len() as int,
                        ));
                    },
                    Err(e) => {},
                }
            },
            _ => {
                assert(s.subrange(0, s.len() as int) =~= s);
            },
        }
    }
}

/// The clauses that the body of a function's block holds: each is a pattern
/// in parentheses and the guarded bodies behind it.
pub open spec fn binds_of(s: Seq<SpecSegment>) -> Result<Seq<SpecFunBind>, MyError>
    decreases s.len(),
{
    if s.len() == 0 {
        Ok(Seq::empty())
    } else {
        match s[0] {
            SpecSegment::Clause { head: SpecToken::LeftP, body, .. } => match filters_of(
                s.subrange(1, s.len() as int),
            ) {
                Ok((filters, rest)) => {
                    proof {
                        lemma_filters_rest(s.subrange(1, s.len() as int));
                    }
                    match (binds_of(rest), segments_patterns(body)) {
                        (Ok(others), Ok(pattern)) => Ok(
                            seq![SpecFunBind { pattern, filters }] + others,
                        ),
                        _ => Err(MyError::MalformedGrammar),
                    }
                },
                Err(e) => Err(e),
            },
            _ => Err(MyError::MalformedGrammar),
        }
    }
}

/// The table `done` after the definitions in `s` were entered, in their
/// order: each definition is a name and a block from `:` to `end`, and a
/// later definition of a name takes the place of an earlier one.
pub open spec fn funs_of(s: Seq<SpecSegment>, done: Map<Seq<char>, SpecFunFun>) -> Result<
    Map<Seq<char>, SpecFunFun>,
    MyError,
>
    decreases s.len(),
{
    if s.len() == 0 {
        Ok(done)
    } else if s.len() == 1 {
        Err(MyError::MalformedGrammar)
    } else {
        match (s[0], s[1]) {
            (
                SpecSegment::UnMatched(i),
                SpecSegment::Clause { head: SpecToken::FunStart, body, .. },
            ) => {
                if i.len() == 1 {
                    match i[0] {
                        SpecToken::Identifier(n) => match binds_of(body) {
                            Ok(binds) => funs_of(
                                s.subrange(2, s.len() as int),
                                done.insert(n, SpecFunFun { name: n, binds }),
                            ),
                            Err(e) => Err(e),
                        },
                        _ => Err(MyError::MalformedGrammar),
                    }
                } else {
                    Err(MyError::MalformedGrammar)
                }
            },
            _ => Err(MyError::MalformedGrammar),
        }
    }
}

/// The table of the functions that a pruned program defines.
pub open spec fn program_funs(s: Seq<SpecSegment>) -> Result<Map<Seq<char>, SpecFunFun>, MyError> {
    funs_of(s, Map::empty())
}

/// Of two definitions of one name that follow each other, the table keeps
/// the second: it is the table of the program without the first.
pub proof fn lemma_redefinition_last_wins(
    name: Seq<char>,
    first: SpecSegment,
    second: SpecSegment,
    rest: Seq<SpecSegment>,
    done: Map<Seq<char>, SpecFunFun>,
)
    requires
        first matches SpecSegment::Clause { head: SpecToken::FunStart, body, .. } && binds_of(body)
            is Ok,
        second matches SpecSegment::Clause { head: SpecToken::FunStart, .. },
    ensures
        funs_of(
            seq![
                SpecSegment::UnMatched(seq![SpecToken::Identifier(name)]),
                first,
                SpecSegment::UnMatched(seq![SpecToken::Identifier(name)]),
                second,
            ] + rest,
            done,
        ) == funs_of(
            seq![SpecSegment::UnMatched(seq![SpecToken::Identifier(name)]), second] + rest,
            done,
        ),
{
    let head = SpecSegment::UnMatched(seq![SpecToken::Identifier(name)]);
    let twice = seq![head, first, head, second] + rest;
    let once = seq![head, second] + rest;
    assert(twice.subrange(2, twice.len() as int) =~= once);
    assert(once.subrange(2, once.len() as int) =~= rest);
    let f1 = SpecFunFun { name, binds: binds_of(first->body)->Ok_0 };
    let done1 = done.insert(name, f1);
    assert(twice[0] == head && twice[1] == first);
    assert(once[0] == head && once[1] == second);
    assert(funs_of(twice, done) == funs_of(once, done1));
    match binds_of(second->body) {
        Ok(binds) => {
            let f2 = SpecFunFun { name, binds };
            assert(done1.insert(name, f2) =~= done.insert(name, f2));
            assert(funs_of(once, done1) == funs_of(rest, done1.insert(name, f2)));
            assert(funs_of(once, done) == funs_of(rest, done.insert(name, f2)));
        },
        Err(e) => {
            assert(funs_of(once, done1) == Err::<Map<Seq<char>, SpecFunFun>, MyError>(e));
            assert(funs_of(once, done) == Err::<Map<Seq<char>, SpecFunFun>, MyError>(e));
        },
    }
}

/// The result of `filters_of` on what is left to read, with the guarded
/// bodies `front` that were read before it in front.
pub open spec fn behind_filters(
    front: Seq<SpecFunFilter>,
    r: Result<(Seq<SpecFunFilter>, Seq<SpecSegment>), MyError>,
) -> Result<(Seq<SpecFunFilter>, Seq<SpecSegment>), MyError> {
    match r {
        Ok((others, rest)) => Ok((front + others, rest)),
        Err(e) => Err(e),
    }
}

/// The result of `binds_of` on what is left to read, with the clauses `front`
/// that were read before it in front.
pub open spec fn behind_binds(
    front: Seq<SpecFunBind>,
    r: Result<Seq<SpecFunBind>, MyError>,
) -> Result<Seq<SpecFunBind>, MyError> {
    match r {
        Ok(others) => Ok(front + others),
        Err(e) => Err(e),
    }
}

/// Reads the guarded bodies at the start of `s`. Returns them and the number
/// of segments that they take.
pub fn segments_to_filters(s: &[Segment]) -> (r: Result<(Vec<FunFilter>, usize), MyError>)
    ensures
        match r {
            Ok((filters, taken)) => taken <= s.len() && filters_of(s.deep_view()) == Ok::<
                (Seq<SpecFunFilter>, Seq<SpecSegment>),
                MyError,
            >((filters.deep_view(), s.deep_view().subrange(taken as int, s.len() as int))),
            Err(e) => filters_of(s.deep_view()) == Err::<
                (Seq<SpecFunFilter>, Seq<SpecSegment>),
                MyError,
            >(e),
        },
{
    let ghost all = s.deep_view();
    let mut filters: Vec<FunFilter> = Vec::new();
    let mut i: usize = 0;
    assert(all.subrange(0, all.len() as int) =~= all);
    assert(filters.deep_view() =~= Seq::<SpecFunFilter>::empty());
    assert(behind_filters(filters.deep_view(), filters_of(all)) == filters_of(all)) by {
        match filters_of(all) {
            Ok((others, rest)) => {
                assert(Seq::<SpecFunFilter>::empty() + others =~= others);
            },
            Err(e) => {},
        }
    }
    while i < s.len()
        invariant
            i <= s.len(),
            all == s.deep_view(),
            behind_filters(
                filters.deep_view(),
                filters_of(all.subrange(i as int, all.len() as int)),
            ) == filters_of(all),
        decreases s.len() - i,
    {
        broadcast use {lemma_deep_view_push, lemma_segment_view};

        let ghost rest = all.subrange(i as int, all.len() as int);
        let ghost front = filters.deep_view();
        assert(rest[0] == s[i as int]@);
        let left = s.len() - i;
        if left == 1 {
            return match &s[i] {
                Segment::Clause { head: Token::CodeStart, body, .. } => {
                    let filter = FunFilter { head: Vec::new(), code: clone_segments(body) };
                    assert(filter.head.deep_view() =~= Seq::<SpecSegment>::empty());
                    filters.push(filter);
                    assert(filters.deep_view() =~= front + seq![filter.deep_view()]);
                    assert(all.subrange(i + 1, all.len() as int) =~= Seq::<SpecSegment>::empty());
                    Ok((filters, i + 1))
                },
                _ => Err(MyError::MalformedGrammar),
            };
        }
        assert(rest[1] == s[i + 1]@);
        match (&s[i], &s[i + 1]) {
            (
                Segment::Clause { head: Token::LeftW, body: guard, .. },
                Segment::Clause { head: Token::CodeStart, body: code, .. },
            ) => {
                let filter = FunFilter { head: clone_segments(guard), code: clone_segments(code) };
                filters.push(filter);
                proof {
                    let after = all.subrange(i + 2, all.len() as int);
                    assert(rest.subrange(2, rest.len() as int) =~= after);
                    match filters_of(after) {
                        Ok((others, tail)) => {
                            assert(filters.deep_view() + others =~= front + (seq![
                                filter.deep_view(),
                            ] + others));
                        },
                        Err(e) => {},
                    }
                }
                i = i + 2;
            },
            (Segment::Clause { head: Token::CodeStart, body: code, .. }, _) => {
                let filter = FunFilter { head: Vec::new(), code: clone_segments(code) };
                assert(filter.head.deep_view() =~= Seq::<SpecSegment>::empty());
                filters.push(filter);
                proof {
                    let after = all.subrange(i + 1, all.len() as int);
                    assert(rest.subrange(1, rest.len() as int) =~= after);
                    match filters_of(after) {
                        Ok((others, tail)) => {
                            assert(filters.deep_view() + others =~= front + (seq![
                                filter.deep_view(),
                            ] + others));
                        },
                        Err(e) => {},
                    }
                }
                i = i + 1;
            },
            _ => {
                assert(front + Seq::<SpecFunFilter>::empty() =~= front);
                return Ok((filters, i));
            },
        }
    }
    assert(filters.deep_view() + Seq::<SpecFunFilter>::empty() =~= filters.deep_view());
    Ok((filters, i))
}

/// Reads the clauses that the body of a function's block holds.
pub fn segments_to_binds(binds: &[Segment]) -> (r: Result<Vec<FunBind>, MyError>)
    ensures
        res_view(r) == binds_of(binds.deep_view()),
{
    let ghost all = binds.deep_view();
    let mut clauses: Vec<FunBind> = Vec::new();
    let mut i: usize = 0;
    assert(all.subrange(0, all.len() as int) =~= all);
    assert(clauses.deep_view() =~= Seq::<SpecFunBind>::empty());
    assert(behind_binds(clauses.deep_view(), binds_of(all)) == binds_of(all)) by {
        match binds_of(all) {
            Ok(others) => {
                assert(Seq::<SpecFunBind>::empty() + others =~= others);
            },
            Err(e) => {},
        }
    }
    while i < binds.len()
        invariant
            i <= binds.len(),
            all == binds.deep_view(),
            behind_binds(clauses.deep_view(), binds_of(all.subrange(i as int, all.len() as int)))
                == binds_of(all),
        decreases binds.len() - i,
    {
        broadcast use {lemma_deep_view_push, lemma_segment_view};

        let ghost rest = all.subrange(i as int, all.len() as int);
        let ghost front = clauses.deep_view();
        assert(rest[0] == binds[i as int]@);
        match &binds[i] {
            Segment::Clause { head: Token::LeftP, body, .. } => {
                let after = sub_slice(binds, i + 1, binds.len());
                assert(rest.subrange(1, rest.len() as int) =~= after.deep_view());
                let (filters, taken) = segments_to_filters(after)?;
                let pattern = match bind_segment_to_bindpattern(body) {
                    Ok(pattern) => pattern,
                    Err(_) => {
                        return Err(MyError::MalformedGrammar);
                    },
                };
                let bind = FunBind { pattern, filters };
                clauses.push(bind);
                proof {
                    let tail = after.deep_view().subrange(taken as int, after.len() as int);
                    assert(tail =~= all.subrange(i + 1 + taken, all.len() as int));
                    match binds_of(tail) {
                        Ok(others) => {
                            assert(clauses.deep_view() + others =~= front + (seq![
                                bind.deep_view(),
                            ] + others));
                        },
                        Err(e) => {
                            lemma_binds_of_error(tail);
                        },
                    }
                }
                i = i + 1 + taken;
            },
            _ => {
                return Err(MyError::MalformedGrammar);
            },
        }
    }
    assert(clauses.deep_view() + Seq::<SpecFunBind>::empty() =~= clauses.deep_view());
    Ok(clauses)
}

/// Enters the definitions in `clauses` into the table `done`.
pub fn funs_int(clauses: &[Segment], done: Functions) -> (r: Result<Functions, MyError>)
    ensures
        match r {
            Ok(table) => funs_of(clauses.deep_view(), done@) == Ok::<
                Map<Seq<char>, SpecFunFun>,
                MyError,
            >(table@),
            Err(e) => funs_of(clauses.deep_view(), done@) == Err::<
                Map<Seq<char>, SpecFunFun>,
                MyError,
            >(e),
        },
{
    let ghost all = clauses.deep_view();
    let ghost given = done@;
    let mut table = done;
    let mut i: usize = 0;
    assert(all.subrange(0, all.len() as int) =~= all);
    while i < clauses.len()
        invariant
            i <= clauses.len(),
            all == clauses.deep_view(),
            given == done@,
            funs_of(all.subrange(i as int, all.len() as int), table@) == funs_of(all, given),
        decreases clauses.len() - i,
    {
        broadcast use lemma_segment_view;

        let ghost rest = all.subrange(i as int, all.len() as int);
        if clauses.len() - i == 1 {
            return Err(MyError::MalformedGrammar);
        }
        assert(rest[0] == clauses[i as int]@ && rest[1] == clauses[i + 1]@);
        assert(rest.subrange(2, rest.len() as int) =~= all.subrange(i + 2, all.len() as int));
        match (&clauses[i], &clauses[i + 1]) {
            (Segment::UnMatched(name), Segment::Clause { head: Token::FunStart, body, .. }) => {
                if name.len() != 1 {
                    return Err(MyError::MalformedGrammar);
                }
                match &name[0] {
                    Token::Identifier(n) => {
                        let binds = segments_to_binds(whole_slice(body))?;
                        let fun = FunFun { name: clone_name(n), binds };
                        table = table.insert(clone_name(n), fun);
                        i = i + 2;
                    },
                    _ => {
                        return Err(MyError::MalformedGrammar);
                    },
                }
            },
            _ => {
                return Err(MyError::MalformedGrammar);
            },
        }
    }
    Ok(table)
}

/// Builds the table of the functions that a pruned program defines. Where a
/// name is defined more than once, its last definition stands.
pub fn to_funs(clauses: &Vec<Segment>) -> (r: Result<Functions, MyError>)
    ensures
        match r {
            Ok(table) => program_funs(clauses.deep_view()) == Ok::<
                Map<Seq<char>, SpecFunFun>,
                MyError,
            >(table@),
            Err(e) => e == MyError::MalformedGrammar && program_funs(clauses.deep_view()) == Err::<
                Map<Seq<char>, SpecFunFun>,
                MyError,
            >(e),
        },
{
    proof {
        lemma_funs_of_error(clauses.deep_view(), Map::empty());
    }
    funs_int(whole_slice(clauses), NameMap::new())
}

/// The only error of the table builder is `MalformedGrammar`.
pub proof fn lemma_funs_of_error(s: Seq<SpecSegment>, done: Map<Seq<char>, SpecFunFun>)
    ensures
        funs_of(s, done) matches Err(e) ==> e == MyError::MalformedGrammar,
    decreases s.len(),
{
    if s.len() >= 2 {
        match (s[0], s[1]) {
            (
                SpecSegment::UnMatched(i),
                SpecSegment::Clause { head: SpecToken::FunStart, body, .. },
            ) => {
                if i.len() == 1 {
                    match i[0] {
                        SpecToken::Identifier(n) => {
                            lemma_binds_of_error(body);
                            match binds_of(body) {
                                Ok(binds) => {
                                    lemma_funs_of_error(
                                        s.subrange(2, s.len() as int),
                                        done.insert(n, SpecFunFun { name: n, binds }),
                                    );
                                },
                                Err(e) => {},
                            }
                        },
                        _ => {},
                    }
                }
            },
            _ => {},
        }
    }
}

proof fn lemma_filters_of_error(s: Seq<SpecSegment>)
    ensures
        filters_of(s) matches Err(e) ==> e == MyError::MalformedGrammar,
    decreases s.len(),
{
    if s.len() >= 2 {
        lemma_filters_of_error(s.subrange(2, s.len() as int));
        lemma_filters_of_error(s.subrange(1, s.len() as int));
    }
}

proof fn lemma_binds_of_error(s: Seq<SpecSegment>)
    ensures
        binds_of(s) matches Err(e) ==> e == MyError::MalformedGrammar,
{
    if s.len() > 0 {
        lemma_filters_of_error(s.subrange(1, s.len() as int));
    }
}

/// A guard and a body as expressions, in a program that defines the
/// functions named in `context`. The empty guard is `True`.
pub open spec fn lower_filter(f: SpecFunFilter, context: Set<Seq<char>>) -> Result<
    SpecFilter,
    MyError,
> {
    let head = if f.head.len() == 0 {
        Ok(SpecLogicExpr::True)
    } else {
        segments_logic(f.head, context)
    };
    match (head, segments_level(f.code, context)) {
        (Ok(head), Ok(level)) => match lower_expr(level, context) {
            Ok(code) => Ok(SpecFilter { head, code }),
            Err(e) => Err(e),
        },
        _ => Err(MyError::MalformedGrammar),
    }
}

/// The guarded bodies of a clause as expressions, in their order.
pub open spec fn lower_filters(fs: Seq<SpecFunFilter>, context: Set<Seq<char>>) -> Result<
    Seq<SpecFilter>,
    MyError,
>
    decreases fs.len(),
{
    if fs.len() == 0 {
        Ok(Seq::empty())
    } else {
        match (
            lower_filters(fs.subrange(0, fs.len() - 1), context),
            lower_filter(fs[fs.len() - 1], context),
        ) {
            (Ok(front), Ok(last)) => Ok(front.push(last)),
            _ => Err(MyError::MalformedGrammar),
        }
    }
}

/// A clause with its guards and bodies as expressions.
pub open spec fn lower_bind(b: SpecFunBind, context: Set<Seq<char>>) -> Result<SpecBind, MyError> {
    match lower_filters(b.filters, context) {
        Ok(filters) => Ok(SpecBind { pattern: b.pattern, filters }),
        Err(e) => Err(e),
    }
}

/// The clauses of a function with their guards and bodies as expressions, in
/// their order.
pub open spec fn lower_binds(bs: Seq<SpecFunBind>, context: Set<Seq<char>>) -> Result<
    Seq<SpecBind>,
    MyError,
>
    decreases bs.len(),
{
    if bs.len() == 0 {
        Ok(Seq::empty())
    } else {
        match (
            lower_binds(bs.subrange(0, bs.len() - 1), context),
            lower_bind(bs[bs.len() - 1], context),
        ) {
            (Ok(front), Ok(last)) => Ok(front.push(last)),
            _ => Err(MyError::MalformedGrammar),
        }
    }
}

/// A function with the guards and bodies of its clauses as expressions.
pub open spec fn lower_fun(f: SpecFunFun, context: Set<Seq<char>>) -> Result<SpecFun, MyError> {
    match lower_binds(f.binds, context) {
        Ok(binds) => Ok(SpecFun { name: f.name, binds }),
        Err(e) => Err(e),
    }
}

/// Lowers a guard and a body to expressions.
pub fn funfilter_to_filter(f: &FunFilter, context: &Functions) -> (r: Result<Filter, MyError>)
    ensures
        res_view(r) == lower_filter(f.deep_view(), context@.dom()),
{
    let head = if f.head.len() == 0 {
        Ok(LogicExpr::True)
    } else {
        segments_to_logical_expr(&f.head, context)
    };
    let level = segments_to_call_level(whole_slice(&f.code), context);
    match (head, level) {
        (Ok(head), Ok(level)) => {
            let code = call_levels_to_expr(&level, context)?;
            Ok(Filter { head, code })
        },
        _ => Err(MyError::MalformedGrammar),
    }
}

/// Lowers the guarded bodies of a clause, one by one.
pub fn funfilters_to_filters(fs: &[FunFilter], context: &Functions) -> (r: Result<
    Vec<Filter>,
    MyError,
>)
    ensures
        res_view(r) == lower_filters(fs.deep_view(), context@.dom()),
    decreases fs.len(),
{
    broadcast use lemma_deep_view_push;

    let n = fs.len();
    if n == 0 {
        let out: Vec<Filter> = Vec::new();
        assert(out.deep_view() =~= Seq::<SpecFilter>::empty());
        Ok(out)
    } else {
        let front = funfilters_to_filters(sub_slice(fs, 0, n - 1), context);
        let last = funfilter_to_filter(&fs[n - 1], context);
        match (front, last) {
            (Ok(mut front), Ok(last)) => {
                front.push(last);
                Ok(front)
            },
            _ => Err(MyError::MalformedGrammar),
        }
    }
}

/// A copy of a pattern list.
pub fn clone_patterns(v: &Vec<ArgBind>) -> (r: Vec<ArgBind>)
    ensures
        r.deep_view() == v.deep_view(),
{
    let mut out: Vec<ArgBind> = Vec::new();
    let mut i: usize = 0;
    while i < v.len()
        invariant
            i <= v.len(),
            out.deep_view() == v.deep_view().take(i as int),
        decreases v.len() - i,
    {
        broadcast use lemma_deep_view_push;

        out.push(v[i].clone());
        i += 1;
        assert(out.deep_view() =~= v.deep_view().take(i as int));
    }
    assert(v.deep_view().take(v.len() as int) =~= v.deep_view());
    out
}

/// Lowers a clause.
pub fn funbind_to_bind(b: &FunBind, context: &Functions) -> (r: Result<Bind, MyError>)
    ensures
        res_view(r) == lower_bind(b.deep_view(), context@.dom()),
{
    let filters = funfilters_to_filters(whole_slice(&b.filters), context)?;
    Ok(Bind { pattern: clone_patterns(&b.pattern), filters })
}

/// Lowers the clauses of a function, one by one.
pub fn funbinds_to_binds(bs: &[FunBind], context: &Functions) -> (r: Result<Vec<Bind>, MyError>)
    ensures
        res_view(r) == lower_binds(bs.deep_view(), context@.dom()),
    decreases bs.len(),
{
    broadcast use lemma_deep_view_push;

    let n = bs.len();
    if n == 0 {
        let out: Vec<Bind> = Vec::new();
        assert(out.deep_view() =~= Seq::<SpecBind>::empty());
        Ok(out)
    } else {
        let front = funbinds_to_binds(sub_slice(bs, 0, n - 1), context);
        let last = funbind_to_bind(&bs[n - 1], context);
        match (front, last) {
            (Ok(mut front), Ok(last)) => {
                front.push(last);
                Ok(front)
            },
            _ => Err(MyError::MalformedGrammar),
        }
    }
}

/// Lowers a function.
pub fn funfun_to_fun(f: &FunFun, context: &Functions) -> (r: Result<Fun, MyError>)
    ensures
        res_view(r) == lower_fun(f.deep_view(), context@.dom()),
{
    let binds = funbinds_to_binds(whole_slice(&f.binds), context)?;
    Ok(Fun { name: clone_name(&f.name), binds })
}

/// The program that a table of functions stands for: it has the names of the
/// table, each bound to its function with guards and bodies as expressions,
/// where every name that is called is static if the table defines it. There
/// is no program where a guard or a body of any function is malformed.
pub open spec fn lower_table(funs: Map<Seq<char>, SpecFunFun>) -> Result<SpecProgram, MyError> {
    if forall|name: Seq<char>| #[trigger]
        funs.contains_key(name) ==> lower_fun(funs[name], funs.dom()) is Ok {
        Ok(
            Map::new(
                |name: Seq<char>| funs.contains_key(name),
                |name: Seq<char>| lower_fun(funs[name], funs.dom())->Ok_0,
            ),
        )
    } else {
        Err(MyError::MalformedGrammar)
    }
}

/// Lowers every function of the table.
pub fn to_program(funs: &Functions) -> (r: Result<Program, MyError>)
    ensures
        match r {
            Ok(program) => lower_table(funs@) == Ok::<SpecProgram, MyError>(program@),
            Err(e) => lower_table(funs@) == Err::<SpecProgram, MyError>(e),
        },
{
    let entries = funs.entries();
    let ghost context = funs@.dom();
    let mut program: Program = NameMap::new();
    let mut i: usize = 0;
    while i < entries.len()
        invariant
            i <= entries.len(),
            names_distinct(entries@),
            funs@ == entries_map(entries@),
            context == funs@.dom(),
            forall|name: Seq<char>|
                program@.contains_key(name) <==> has_name(entries@.take(i as int), name),
            forall|j: int|
                0 <= j < i ==> lower_fun((#[trigger] entries[j]).1.deep_view(), context) == Ok::<
                    SpecFun,
                    MyError,
                >(program@[entries[j].0@]),
        decreases entries.len() - i,
    {
        proof {
            lemma_entries_map_at(entries@, i as int);
        }
        let ghost before = program@;
        let ghost name = entries[i as int].0@;
        match funfun_to_fun(&entries[i].1, funs) {
            Ok(fun) => {
                program = program.insert(clone_name(&entries[i].0), fun);
                proof {
                    assert forall|other: Seq<char>|
                        program@.contains_key(other) <==> has_name(
                            entries@.take(i + 1),
                            other,
                        ) by {
                        if has_name(entries@.take(i + 1), other) {
                            let j = choose|j: int|
                                0 <= j < i + 1 && (#[trigger] entries@.take(i + 1)[j]).0@ == other;
                            if j < i {
                                assert(entries@.take(i as int)[j].0@ == other);
                            }
                        }
                        if has_name(entries@.take(i as int), other) {
                            let j = choose|j: int|
                                0 <= j < i && (#[trigger] entries@.take(i as int)[j]).0@ == other;
                            assert(entries@.take(i + 1)[j].0@ == other);
                        }
                        assert(entries@.take(i + 1)[i as int].0@ == name);
                    }
                }
            },
            Err(_) => {
                assert(funs@.contains_key(name));
                return Err(MyError::MalformedGrammar);
            },
        }
        i = i + 1;
    }
    proof {
        assert(entries@.take(entries.len() as int) =~= entries@);
        assert(program@.dom() =~= funs@.dom());
        assert forall|name: Seq<char>| #[trigger] funs@.contains_key(name) implies lower_fun(
            funs@[name],
            funs@.dom(),
        ) == Ok::<SpecFun, MyError>(program@[name]) by {
            let j = choose|j: int| 0 <= j < entries.len() && (#[trigger] entries@[j]).0@ == name;
            lemma_entries_map_at(entries@, j);
        }
        assert(program@ =~= Map::new(
            |name: Seq<char>| funs@.contains_key(name),
            |name: Seq<char>| lower_fun(funs@[name], funs@.dom())->Ok_0,
        ));
    }
    Ok(program)
}

} // verus!
