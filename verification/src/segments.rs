use crate::tokens::{closing_token, has_pair, MyError, SpecToken, Token};
use vstd::prelude::*;

verus! {

/// A node of the bracket tree: a matched pair of delimiters with what stands
/// between them, or a run of tokens that holds no opening delimiter.
#[derive(Debug, PartialEq)]
pub enum Segment {
    Clause { head: Token, body: Vec<Segment>, tail: Token },
    UnMatched(Vec<Token>),
}

/// The mathematical value of a [`Segment`].
pub enum SpecSegment {
    Clause { head: SpecToken, body: Seq<SpecSegment>, tail: SpecToken },
    UnMatched(Seq<SpecToken>),
}

/// The mathematical value of a segment.
pub open spec fn segment_view(s: Segment) -> SpecSegment
    decreases s,
{
    match s {
        Segment::Clause { head, body, tail } => SpecSegment::Clause {
            head: head@,
            body: Seq::new(
                body@.len(),
                |i: int|
                    if 0 <= i < body@.len() {
                        segment_view(body[i])
                    } else {
                        arbitrary()
                    },
            ),
            tail: tail@,
        },
        Segment::UnMatched(tokens) => SpecSegment::UnMatched(tokens.deep_view()),
    }
}

impl DeepView for Segment {
    type V = SpecSegment;

    #[verifier::inline]
    open spec fn deep_view(&self) -> SpecSegment {
        segment_view(*self)
    }
}

impl View for Segment {
    type V = SpecSegment;

    #[verifier::inline]
    open spec fn view(&self) -> SpecSegment {
        segment_view(*self)
    }
}

/// The value of a segment, with the value of a clause's body written as the
/// deep view of the vector that holds it.
pub broadcast proof fn lemma_segment_view(s: Segment)
    ensures
        #[trigger] segment_view(s) == (match s {
            Segment::Clause { head, body, tail } => SpecSegment::Clause {
                head: head@,
                body: body.deep_view(),
                tail: tail@,
            },
            Segment::UnMatched(tokens) => SpecSegment::UnMatched(tokens.deep_view()),
        }),
{
    match s {
        Segment::Clause { head, body, tail } => {
            assert(segment_view(s)->body =~= body.deep_view());
        },
        Segment::UnMatched(tokens) => {},
    }
}

/// A copy of a token vector.
pub fn clone_tokens(v: &Vec<Token>) -> (r: Vec<Token>)
    ensures
        r.deep_view() == v.deep_view(),
{
    let mut out: Vec<Token> = Vec::new();
    let mut i: usize = 0;
    while i < v.len()
        invariant
            i <= v.len(),
            out.deep_view() == v.deep_view().take(i as int),
        decreases v.len() - i,
    {
        broadcast use crate::views::lemma_deep_view_push;

        out.push(v[i].clone());
        i += 1;
        assert(out.deep_view() =~= v.deep_view().take(i as int));
    }
    assert(v.deep_view().take(v.len() as int) =~= v.deep_view());
    out
}

/// A copy of a segment vector.
pub fn clone_segments(v: &Vec<Segment>) -> (r: Vec<Segment>)
    ensures
        r.deep_view() == v.deep_view(),
    decreases v,
{
    let mut out: Vec<Segment> = Vec::new();
    let mut i: usize = 0;
    while i < v.len()
        invariant
            i <= v.len(),
            out.deep_view() == v.deep_view().take(i as int),
        decreases v.len() - i,
    {
        broadcast use {lemma_segment_view, crate::views::lemma_deep_view_push};

        let copy = match &v[i] {
            Segment::Clause { head, body, tail } => {
                let inner = clone_segments(body);
                let copy = Segment::Clause { head: head.clone(), body: inner, tail: tail.clone() };
                copy
            },
            Segment::UnMatched(tokens) => Segment::UnMatched(clone_tokens(tokens)),
        };
        assert(copy@ == v[i as int]@);
        out.push(copy);
        i += 1;
        assert(out.deep_view() =~= v.deep_view().take(i as int));
    }
    assert(v.deep_view().take(v.len() as int) =~= v.deep_view());
    out
}

impl Clone for Segment {
    fn clone(&self) -> (r: Segment)
        ensures
            r@ == self@,
    {
        broadcast use lemma_segment_view;

        match self {
            Segment::Clause { head, body, tail } => {
                let inner = clone_segments(body);
                let copy = Segment::Clause { head: head.clone(), body: inner, tail: tail.clone() };
                copy
            },
            Segment::UnMatched(tokens) => Segment::UnMatched(clone_tokens(tokens)),
        }
    }
}

/// Scanning `t` from `pos` on, inside `depth` nested openers `head`: the place
/// of the closer `tail` that ends the outermost of them, if there is one.
pub open spec fn find_closer(
    t: Seq<SpecToken>,
    head: SpecToken,
    tail: SpecToken,
    pos: int,
    depth: nat,
) -> Option<int>
    decreases t.len() - pos,
{
    if pos < 0 || pos >= t.len() {
        None
    } else if t[pos] == tail && depth == 0 {
        Some(pos)
    } else if t[pos] == head {
        find_closer(t, head, tail, pos + 1, depth + 1)
    } else if t[pos] == tail {
        find_closer(t, head, tail, pos + 1, (depth - 1) as nat)
    } else {
        find_closer(t, head, tail, pos + 1, depth)
    }
}

/// Where `find_closer` finds a closer, it lies at or after `pos`, inside `t`.
pub proof fn lemma_find_closer_bounds(
    t: Seq<SpecToken>,
    head: SpecToken,
    tail: SpecToken,
    pos: int,
    depth: nat,
)
    requires
        0 <= pos,
    ensures
        find_closer(t, head, tail, pos, depth) matches Some(c) ==> pos <= c < t.len() && t[c]
            == tail,
    decreases t.len() - pos,
{
    if pos < t.len() {
        if t[pos] == tail && depth == 0 {
        } else if t[pos] == head {
            lemma_find_closer_bounds(t, head, tail, pos + 1, depth + 1);
        } else if t[pos] == tail {
            lemma_find_closer_bounds(t, head, tail, pos + 1, (depth - 1) as nat);
        } else {
            lemma_find_closer_bounds(t, head, tail, pos + 1, depth);
        }
    }
}

/// The segments of `t` from `pos` on, where the tokens `t[start..pos]` have
/// been read and belong to a run that is still open; `None` where an opening
/// delimiter is never closed. A run is closed, also when it is empty, before
/// each clause and at the end of `t`.
pub open spec fn segments_from(t: Seq<SpecToken>, start: int, pos: int) -> Option<
    Seq<SpecSegment>,
>
    decreases t.len(), t.len() - pos,
{
    if start < 0 || pos < start || pos > t.len() {
        None
    } else if pos == t.len() {
        Some(seq![SpecSegment::UnMatched(t.subrange(start, pos))])
    } else {
        match closing_token(t[pos]) {
            None => segments_from(t, start, pos + 1),
            Some(tail) => match find_closer(t, t[pos], tail, pos + 1, 0) {
                None => None,
                Some(close) => {
                    proof {
                        lemma_find_closer_bounds(t, t[pos], tail, pos + 1, 0);
                    }
                    match (
                        segments_from(t.subrange(pos + 1, close), 0, 0),
                        segments_from(t, close + 1, close + 1),
                    ) {
                        (Some(body), Some(rest)) => Some(
                            seq![
                                SpecSegment::UnMatched(t.subrange(start, pos)),
                                SpecSegment::Clause { head: t[pos], body, tail },
                            ] + rest,
                        ),
                        _ => None,
                    }
                },
            },
        }
    }
}

/// The bracket tree of a token sequence, or `None` where the sequence is
/// unbalanced: each opening delimiter is paired with the first closer of its
/// kind that is not inside a nested pair of the same kind, and what stands
/// between the two is segmented in turn.
pub open spec fn segment_tokens(t: Seq<SpecToken>) -> Option<Seq<SpecSegment>> {
    segments_from(t, 0, 0)
}

/// The tokens that a segment was built from, its delimiters put back.
pub open spec fn segment_tokens_of(s: SpecSegment) -> Seq<SpecToken>
    decreases s,
{
    match s {
        SpecSegment::UnMatched(tokens) => tokens,
        SpecSegment::Clause { head, body, tail } => (seq![head] + flatten_segments(body)).push(
            tail,
        ),
    }
}

/// The tokens that a segment sequence was built from, depth first.
pub open spec fn flatten_segments(v: Seq<SpecSegment>) -> Seq<SpecToken>
    decreases v,
{
    if v.len() == 0 {
        Seq::empty()
    } else {
        segment_tokens_of(v[0]) + flatten_segments(v.subrange(1, v.len() as int))
    }
}

/// Builds the clause that the token at `pos` opens and `tail` closes: finds
/// the closer and segments what stands between. Returns the clause and the
/// place after the closer. Fails where `t` has no token at `pos`, no closer
/// for it, or an unbalanced sequence between the two.
pub fn build_clause(t: &Vec<Token>, pos: usize, tail: Token) -> (r: Result<
    (Segment, usize),
    MyError,
>)
    ensures
        match r {
            Ok((clause, next)) => {
                &&& pos + 2 <= next <= t.len()
                &&& find_closer(t.deep_view(), t[pos as int]@, tail@, pos + 1, 0) == Some(
                    next - 1,
                )
                &&& segment_tokens(t.deep_view().subrange(pos + 1, next - 1))
                    matches Some(body) && clause@ == (SpecSegment::Clause {
                    head: t[pos as int]@,
                    body,
                    tail: tail@,
                })
            },
            Err(e) => {
                &&& e == MyError::UnbalancedDelimiter
                &&& pos < t.len() ==> match find_closer(
                    t.deep_view(),
                    t[pos as int]@,
                    tail@,
                    pos + 1,
                    0,
                ) {
                    None => true,
                    Some(close) => segment_tokens(t.deep_view().subrange(pos + 1, close))
                        is None,
                }
            },
        },
    decreases t.len(), 0int,
{
    if pos >= t.len() {
        return Err(MyError::UnbalancedDelimiter);
    }
    let ghost tv = t.deep_view();
    let ghost head = t[pos as int]@;
    let mut body: Vec<Token> = Vec::new();
    let mut depth: usize = 0;
    let mut i: usize = pos + 1;
    while i < t.len()
        invariant
            pos < i <= t.len(),
            depth <= i - pos,
            tv == t.deep_view(),
            head == t[pos as int]@,
            body.deep_view() == tv.subrange(pos + 1, i as int),
            find_closer(tv, head, tail@, i as int, depth as nat) == find_closer(
                tv,
                head,
                tail@,
                pos + 1,
                0,
            ),
        decreases t.len() - i,
    {
        broadcast use crate::views::lemma_deep_view_push;

        if t[i] == tail && depth == 0 {
            proof {
                lemma_find_closer_bounds(tv, head, tail@, pos + 1, 0);
            }
            let inner = matched_terminators(&body)?;
            proof {
                lemma_segment_view(Segment::Clause { head: t[pos as int], body: inner, tail });
            }
            return Ok((Segment::Clause { head: t[pos].clone(), body: inner, tail }, i + 1));
        } else if t[i] == t[pos] {
            depth = depth + 1;
        } else if t[i] == tail {
            depth = depth - 1;
        }
        body.push(t[i].clone());
        i = i + 1;
        assert(body.deep_view() =~= tv.subrange(pos + 1, i as int));
    }
    Err(MyError::UnbalancedDelimiter)
}

/// Splits a token sequence into runs and clauses, closing the open run before
/// each clause and at the end.
pub fn clauses_int(t: &Vec<Token>) -> (r: Result<Vec<Segment>, MyError>)
    ensures
        match r {
            Ok(v) => segment_tokens(t.deep_view()) == Some(v.deep_view()),
            Err(e) => e == MyError::UnbalancedDelimiter && segment_tokens(t.deep_view()) is None,
        },
    decreases t.len(), 1int,
{
    let ghost tv = t.deep_view();
    let ghost mut start: int = 0;
    let mut done: Vec<Segment> = Vec::new();
    let mut acc: Vec<Token> = Vec::new();
    let mut pos: usize = 0;
    while pos < t.len()
        invariant
            0 <= start <= pos <= t.len(),
            tv == t.deep_view(),
            acc.deep_view() == tv.subrange(start, pos as int),
            match segments_from(tv, start, pos as int) {
                Some(rest) => segment_tokens(tv) == Some(done.deep_view() + rest),
                None => segment_tokens(tv) is None,
            },
        decreases t.len() - pos,
    {
        broadcast use {crate::views::lemma_deep_view_push, lemma_segment_view};

        match has_pair(&t[pos]) {
            None => {
                acc.push(t[pos].clone());
                pos = pos + 1;
                assert(acc.deep_view() =~= tv.subrange(start, pos as int));
            },
            Some(tail) => {
                let (clause, next) = build_clause(t, pos, tail)?;
                let ghost before = done.deep_view();
                let ghost run = SpecSegment::UnMatched(tv.subrange(start, pos as int));
                done.push(Segment::UnMatched(acc));
                done.push(clause);
                acc = Vec::new();
                proof {
                    assert(done.deep_view() =~= before + seq![run, clause@]);
                    match segments_from(tv, next as int, next as int) {
                        Some(rest) => {
                            assert(before + (seq![run, clause@] + rest) =~= (before + seq![
                                run,
                                clause@,
                            ]) + rest);
                        },
                        None => {},
                    }
                    start = next as int;
                }
                pos = next;
                assert(acc.deep_view() =~= tv.subrange(start, pos as int));
            },
        }
    }
    let ghost before = done.deep_view();
    done.push(Segment::UnMatched(acc));
    proof {
        broadcast use {crate::views::lemma_deep_view_push, lemma_segment_view};

        assert(done.deep_view() =~= before + seq![
            SpecSegment::UnMatched(tv.subrange(start, pos as int)),
        ]);
    }
    Ok(done)
}

/// Matches the paired delimiters of a token sequence into a tree of clauses
/// and unmatched runs. Fails where an opening delimiter has no closer.
pub fn matched_terminators(t: &Vec<Token>) -> (r: Result<Vec<Segment>, MyError>)
    ensures
        match r {
            Ok(v) => segment_tokens(t.deep_view()) == Some(v.deep_view()),
            Err(e) => e == MyError::UnbalancedDelimiter && segment_tokens(t.deep_view()) is None,
        },
    decreases t.len(), 2int,
{
    clauses_int(t)
}

/// Flattening a concatenation concatenates the flattenings.
pub proof fn lemma_flatten_concat(a: Seq<SpecSegment>, b: Seq<SpecSegment>)
    ensures
        flatten_segments(a + b) == flatten_segments(a) + flatten_segments(b),
    decreases a.len(),
{
    if a.len() == 0 {
        assert(a + b =~= b);
        assert(flatten_segments(a) + flatten_segments(b) =~= flatten_segments(b));
    } else {
        let rest = a.subrange(1, a.len() as int);
        assert((a + b).subrange(1, (a + b).len() as int) =~= rest + b);
        lemma_flatten_concat(rest, b);
        assert(flatten_segments(a + b) =~= flatten_segments(a) + flatten_segments(b));
    }
}

proof fn lemma_flatten_one(s: SpecSegment)
    ensures
        flatten_segments(seq![s]) == segment_tokens_of(s),
{
    let one = seq![s];
    assert(one.subrange(1, one.len() as int) =~= Seq::<SpecSegment>::empty());
    assert(flatten_segments(Seq::<SpecSegment>::empty()) =~= Seq::<SpecToken>::empty());
    assert(flatten_segments(one) =~= segment_tokens_of(s));
}

proof fn lemma_segments_from_flat(t: Seq<SpecToken>, start: int, pos: int)
    requires
        0 <= start <= pos <= t.len(),
    ensures
        segments_from(t, start, pos) matches Some(segs) ==> flatten_segments(segs) == t.subrange(
            start,
            t.len() as int,
        ),
    decreases t.len(), t.len() - pos,
{
    if pos == t.len() {
        lemma_flatten_one(SpecSegment::UnMatched(t.subrange(start, pos)));
    } else {
        match closing_token(t[pos]) {
            None => {
                lemma_segments_from_flat(t, start, pos + 1);
            },
            Some(tail) => match find_closer(t, t[pos], tail, pos + 1, 0) {
                None => {},
                Some(close) => {
                    lemma_find_closer_bounds(t, t[pos], tail, pos + 1, 0);
                    let inner = t.subrange(pos + 1, close);
                    lemma_segments_from_flat(inner, 0, 0);
                    lemma_segments_from_flat(t, close + 1, close + 1);
                    match (segments_from(inner, 0, 0), segments_from(t, close + 1, close + 1)) {
                        (Some(body), Some(rest)) => {
                            let run = SpecSegment::UnMatched(t.subrange(start, pos));
                            let clause = SpecSegment::Clause { head: t[pos], body, tail };
                            assert(inner.subrange(0, inner.len() as int) =~= inner);
                            assert(seq![run, clause] =~= seq![run] + seq![clause]);
                            lemma_flatten_one(run);
                            lemma_flatten_one(clause);
                            lemma_flatten_concat(seq![run], seq![clause]);
                            lemma_flatten_concat(seq![run, clause], rest);
                            assert(t.subrange(start, pos) + (seq![t[pos]] + inner).push(tail)
                                + t.subrange(close + 1, t.len() as int) =~= t.subrange(
                                start,
                                t.len() as int,
                            ));
                        },
                        _ => {},
                    }
                },
            },
        }
    }
}

/// Segmenting loses nothing: the segments of a balanced token sequence,
/// flattened depth first with their delimiters put back, are the sequence
/// again.
pub proof fn lemma_segments_round_trip(t: Seq<SpecToken>)
    ensures
        segment_tokens(t) matches Some(segs) ==> flatten_segments(segs) == t,
{
    lemma_segments_from_flat(t, 0, 0);
    assert(t.subrange(0, t.len() as int) =~= t);
}

/// Whether pruning keeps a segment: comments and empty runs are dropped.
pub open spec fn is_kept(s: SpecSegment) -> bool {
    match s {
        SpecSegment::Clause { head, .. } => !(head is CommentStart),
        SpecSegment::UnMatched(tokens) => tokens.len() > 0,
    }
}

/// A segment with the body of a clause pruned.
pub open spec fn prune_segment(s: SpecSegment) -> SpecSegment
    decreases s,
{
    match s {
        SpecSegment::Clause { head, body, tail } => SpecSegment::Clause {
            head,
            body: prune(body),
            tail,
        },
        SpecSegment::UnMatched(tokens) => s,
    }
}

/// The segments of `v` without comment clauses and empty runs, at every
/// depth, in their order.
pub open spec fn prune(v: Seq<SpecSegment>) -> Seq<SpecSegment>
    decreases v,
{
    if v.len() == 0 {
        Seq::empty()
    } else {
        let rest = prune(v.subrange(0, v.len() - 1));
        let last = v[v.len() - 1];
        if is_kept(last) {
            rest.push(prune_segment(last))
        } else {
            rest
        }
    }
}

/// Whether a segment sequence holds no comment clause and no empty run, at
/// any depth.
pub open spec fn is_pruned(v: Seq<SpecSegment>) -> bool
    decreases v,
{
    forall|i: int|
        0 <= i < v.len() ==> is_kept(#[trigger] v[i]) && (v[i] matches SpecSegment::Clause {
            body,
            ..
        } ==> is_pruned(body))
}

/// What pruning returns holds no comment clause and no empty run.
pub proof fn lemma_prune_is_pruned(v: Seq<SpecSegment>)
    ensures
        is_pruned(prune(v)),
    decreases v,
{
    if v.len() > 0 {
        let front = v.subrange(0, v.len() - 1);
        let last = v[v.len() - 1];
        lemma_prune_is_pruned(front);
        if is_kept(last) {
            match last {
                SpecSegment::Clause { head, body, tail } => {
                    lemma_prune_is_pruned(body);
                },
                SpecSegment::UnMatched(tokens) => {},
            }
            assert forall|i: int| 0 <= i < prune(v).len() implies is_kept(#[trigger] prune(v)[i])
                && (prune(v)[i] matches SpecSegment::Clause { body, .. } ==> is_pruned(body)) by {
                if i < prune(front).len() {
                    assert(prune(v)[i] == prune(front)[i]);
                } else {
                    assert(prune(v)[i] == prune_segment(last));
                }
            }
        }
    }
}

/// Removes comment clauses and empty runs from a segment tree.
pub fn prune_clauses(t: &Vec<Segment>) -> (r: Vec<Segment>)
    ensures
        r.deep_view() == prune(t.deep_view()),
        is_pruned(r.deep_view()),
    decreases t,
{
    let mut out: Vec<Segment> = Vec::new();
    let mut i: usize = 0;
    while i < t.len()
        invariant
            i <= t.len(),
            out.deep_view() == prune(t.deep_view().take(i as int)),
        decreases t.len() - i,
    {
        broadcast use {crate::views::lemma_deep_view_push, lemma_segment_view};

        let ghost front = t.deep_view().take(i as int);
        let ghost upto = t.deep_view().take(i + 1);
        assert(upto.subrange(0, upto.len() - 1) =~= front);
        assert(upto[upto.len() - 1] == t[i as int]@);
        match &t[i] {
            Segment::Clause { head, body, tail } => {
                let comment = match head {
                    Token::CommentStart => true,
                    _ => false,
                };
                if !comment {
                    let inner = prune_clauses(body);
                    let kept = Segment::Clause { head: head.clone(), body: inner, tail: tail.clone() };
                    assert(kept@ == prune_segment(t[i as int]@));
                    out.push(kept);
                }
            },
            Segment::UnMatched(tokens) => {
                if tokens.len() > 0 {
                    let kept = Segment::UnMatched(clone_tokens(tokens));
                    assert(kept@ == prune_segment(t[i as int]@));
                    out.push(kept);
                }
            },
        }
        i = i + 1;
    }
    proof {
        assert(t.deep_view().take(t.len() as int) =~= t.deep_view());
        lemma_prune_is_pruned(t.deep_view());
    }
    out
}

/// The number of tokens that a segment was built from.
pub open spec fn segment_size(s: SpecSegment) -> nat
    decreases s,
{
    match s {
        SpecSegment::UnMatched(tokens) => tokens.len(),
        SpecSegment::Clause { head, body, tail } => 2 + segments_size(body),
    }
}

/// The number of tokens that a segment sequence was built from.
pub open spec fn segments_size(v: Seq<SpecSegment>) -> nat
    decreases v,
{
    if v.len() == 0 {
        0
    } else {
        segments_size(v.subrange(0, v.len() - 1)) + segment_size(v[v.len() - 1])
    }
}

/// The size of a sequence is the size of any front part of it and the size of
/// the rest.
pub proof fn lemma_segments_size_split(v: Seq<SpecSegment>, k: int)
    requires
        0 <= k <= v.len(),
    ensures
        segments_size(v) == segments_size(v.subrange(0, k)) + segments_size(
            v.subrange(k, v.len() as int),
        ),
    decreases v.len(),
{
    if k == v.len() {
        assert(v.subrange(0, k) =~= v);
        assert(v.subrange(k, v.len() as int) =~= Seq::<SpecSegment>::empty());
    } else {
        let front = v.subrange(0, v.len() - 1);
        let back = v.subrange(k, v.len() as int);
        lemma_segments_size_split(front, k);
        assert(front.subrange(0, k) =~= v.subrange(0, k));
        assert(front.subrange(k, front.len() as int) =~= back.subrange(0, back.len() - 1));
        assert(back[back.len() - 1] == v[v.len() - 1]);
    }
}

/// A segment is no larger than a sequence that holds it.
pub proof fn lemma_segment_size_in(v: Seq<SpecSegment>, i: int)
    requires
        0 <= i < v.len(),
    ensures
        segment_size(v[i]) <= segments_size(v),
{
    lemma_segments_size_split(v, i + 1);
    let front = v.subrange(0, i + 1);
    assert(front[front.len() - 1] == v[i]);
}

/// The segments `current` with the tokens `run` behind them as one more run,
/// if there are any.
pub open spec fn with_run(current: Seq<SpecSegment>, run: Seq<SpecToken>) -> Seq<SpecSegment> {
    if run.len() > 0 {
        current.push(SpecSegment::UnMatched(run))
    } else {
        current
    }
}

/// Splitting a run of tokens at the separator `sep`: the parts that are
/// closed, the segments of the part that is open, and the tokens of its
/// last run, after the tokens `tokens` were read.
pub open spec fn split_tokens(
    tokens: Seq<SpecToken>,
    sep: SpecToken,
    done: Seq<Seq<SpecSegment>>,
    current: Seq<SpecSegment>,
    run: Seq<SpecToken>,
) -> (Seq<Seq<SpecSegment>>, Seq<SpecSegment>, Seq<SpecToken>)
    decreases tokens.len(),
{
    if tokens.len() == 0 {
        (done, current, run)
    } else if tokens[0] == sep {
        split_tokens(
            tokens.subrange(1, tokens.len() as int),
            sep,
            done.push(with_run(current, run)),
            Seq::empty(),
            Seq::empty(),
        )
    } else {
        split_tokens(
            tokens.subrange(1, tokens.len() as int),
            sep,
            done,
            current,
            run.push(tokens[0]),
        )
    }
}

/// Splitting a segment sequence at the separator `sep`: the parts behind the
/// closed parts `done`, where `current` holds the segments of the open part.
pub open spec fn split_segments(
    segs: Seq<SpecSegment>,
    sep: SpecToken,
    done: Seq<Seq<SpecSegment>>,
    current: Seq<SpecSegment>,
) -> Seq<Seq<SpecSegment>>
    decreases segs.len(),
{
    if segs.len() == 0 {
        done.push(current)
    } else {
        match segs[0] {
            SpecSegment::UnMatched(tokens) => {
                let (done1, current1, run) = split_tokens(tokens, sep, done, current, Seq::empty());
                split_segments(
                    segs.subrange(1, segs.len() as int),
                    sep,
                    done1,
                    with_run(current1, run),
                )
            },
            clause => split_segments(
                segs.subrange(1, segs.len() as int),
                sep,
                done,
                current.push(clause),
            ),
        }
    }
}

/// The parts of a segment sequence between the separators `sep` that stand
/// in its runs of tokens: one part more than there are separators. A clause
/// belongs whole to the part it stands in, and a run is cut at each
/// separator.
pub open spec fn slots(segs: Seq<SpecSegment>, sep: SpecToken) -> Seq<Seq<SpecSegment>> {
    split_segments(segs, sep, Seq::empty(), Seq::empty())
}

/// How often the separator `sep` stands in a run of tokens.
pub open spec fn count_in_run(tokens: Seq<SpecToken>, sep: SpecToken) -> nat
    decreases tokens.len(),
{
    if tokens.len() == 0 {
        0
    } else {
        count_in_run(tokens.subrange(1, tokens.len() as int), sep) + if tokens[0] == sep {
            1nat
        } else {
            0nat
        }
    }
}

/// How often the separator `sep` stands in the runs of a segment sequence,
/// not counting what stands inside its clauses.
pub open spec fn count_separators(segs: Seq<SpecSegment>, sep: SpecToken) -> nat
    decreases segs.len(),
{
    if segs.len() == 0 {
        0
    } else {
        count_separators(segs.subrange(1, segs.len() as int), sep) + match segs[0] {
            SpecSegment::UnMatched(tokens) => count_in_run(tokens, sep),
            _ => 0nat,
        }
    }
}

proof fn lemma_split_tokens_count(
    tokens: Seq<SpecToken>,
    sep: SpecToken,
    done: Seq<Seq<SpecSegment>>,
    current: Seq<SpecSegment>,
    run: Seq<SpecToken>,
)
    ensures
        split_tokens(tokens, sep, done, current, run).0.len() == done.len() + count_in_run(
            tokens,
            sep,
        ),
    decreases tokens.len(),
{
    if tokens.len() > 0 {
        let rest = tokens.subrange(1, tokens.len() as int);
        if tokens[0] == sep {
            lemma_split_tokens_count(
                rest,
                sep,
                done.push(with_run(current, run)),
                Seq::empty(),
                Seq::empty(),
            );
        } else {
            lemma_split_tokens_count(rest, sep, done, current, run.push(tokens[0]));
        }
    }
}

proof fn lemma_split_segments_count(
    segs: Seq<SpecSegment>,
    sep: SpecToken,
    done: Seq<Seq<SpecSegment>>,
    current: Seq<SpecSegment>,
)
    ensures
        split_segments(segs, sep, done, current).len() == done.len() + 1 + count_separators(
            segs,
            sep,
        ),
    decreases segs.len(),
{
    if segs.len() > 0 {
        let rest = segs.subrange(1, segs.len() as int);
        match segs[0] {
            SpecSegment::UnMatched(tokens) => {
                lemma_split_tokens_count(tokens, sep, done, current, Seq::empty());
                let (done1, current1, run) = split_tokens(tokens, sep, done, current, Seq::empty());
                lemma_split_segments_count(rest, sep, done1, with_run(current1, run));
            },
            clause => {
                lemma_split_segments_count(rest, sep, done, current.push(clause));
            },
        }
    }
}

/// A split has one part more than there are separators.
pub proof fn lemma_slots_count(segs: Seq<SpecSegment>, sep: SpecToken)
    ensures
        slots(segs, sep).len() == 1 + count_separators(segs, sep),
{
    lemma_split_segments_count(segs, sep, Seq::empty(), Seq::empty());
}

/// The tokens of the parts of a split, with the separator `sep` put back
/// between each two of them.
pub open spec fn joined(parts: Seq<Seq<SpecSegment>>, sep: SpecToken) -> Seq<SpecToken>
    decreases parts.len(),
{
    if parts.len() == 0 {
        Seq::empty()
    } else if parts.len() == 1 {
        flatten_segments(parts[0])
    } else {
        joined(parts.subrange(0, parts.len() - 1), sep).push(sep) + flatten_segments(
            parts[parts.len() - 1],
        )
    }
}

/// The tokens of the closed parts `done`, each with the separator behind it.
pub open spec fn closed_tokens(done: Seq<Seq<SpecSegment>>, sep: SpecToken) -> Seq<SpecToken> {
    if done.len() == 0 {
        Seq::empty()
    } else {
        joined(done, sep).push(sep)
    }
}

proof fn lemma_flatten_push(v: Seq<SpecSegment>, s: SpecSegment)
    ensures
        flatten_segments(v.push(s)) == flatten_segments(v) + segment_tokens_of(s),
{
    assert(v.push(s) =~= v + seq![s]);
    lemma_flatten_concat(v, seq![s]);
    lemma_flatten_one(s);
}

proof fn lemma_flatten_with_run(current: Seq<SpecSegment>, run: Seq<SpecToken>)
    ensures
        flatten_segments(with_run(current, run)) == flatten_segments(current) + run,
{
    if run.len() > 0 {
        lemma_flatten_push(current, SpecSegment::UnMatched(run));
    } else {
        assert(flatten_segments(current) + run =~= flatten_segments(current));
    }
}

proof fn lemma_closed_push(done: Seq<Seq<SpecSegment>>, part: Seq<SpecSegment>, sep: SpecToken)
    ensures
        joined(done.push(part), sep) == closed_tokens(done, sep) + flatten_segments(part),
{
    let all = done.push(part);
    assert(all.subrange(0, all.len() - 1) =~= done);
    if done.len() == 0 {
        assert(closed_tokens(done, sep) + flatten_segments(part) =~= flatten_segments(part));
    }
}

proof fn lemma_split_tokens_joined(
    tokens: Seq<SpecToken>,
    sep: SpecToken,
    done: Seq<Seq<SpecSegment>>,
    current: Seq<SpecSegment>,
    run: Seq<SpecToken>,
)
    ensures
        ({
            let (done1, current1, run1) = split_tokens(tokens, sep, done, current, run);
            closed_tokens(done1, sep) + flatten_segments(current1) + run1 == closed_tokens(
                done,
                sep,
            ) + flatten_segments(current) + run + tokens
        }),
    decreases tokens.len(),
{
    let before = closed_tokens(done, sep) + flatten_segments(current) + run;
    if tokens.len() == 0 {
        assert(before + tokens =~= before);
    } else {
        let rest = tokens.subrange(1, tokens.len() as int);
        if tokens[0] == sep {
            let part = with_run(current, run);
            lemma_flatten_with_run(current, run);
            lemma_closed_push(done, part, sep);
            lemma_split_tokens_joined(rest, sep, done.push(part), Seq::empty(), Seq::empty());
            let (done1, current1, run1) = split_tokens(tokens, sep, done, current, run);
            assert(flatten_segments(Seq::<SpecSegment>::empty()) =~= Seq::<SpecToken>::empty());
            assert(closed_tokens(done.push(part), sep) + Seq::<SpecToken>::empty() + Seq::<
                SpecToken,
            >::empty() + rest =~= before + tokens);
        } else {
            lemma_split_tokens_joined(rest, sep, done, current, run.push(tokens[0]));
            assert(before.push(tokens[0]) + rest =~= before + tokens);
            assert(closed_tokens(done, sep) + flatten_segments(current) + run.push(tokens[0])
                =~= before.push(tokens[0]));
        }
    }
}

proof fn lemma_split_segments_joined(
    segs: Seq<SpecSegment>,
    sep: SpecToken,
    done: Seq<Seq<SpecSegment>>,
    current: Seq<SpecSegment>,
)
    ensures
        joined(split_segments(segs, sep, done, current), sep) == closed_tokens(done, sep)
            + flatten_segments(current) + flatten_segments(segs),
    decreases segs.len(),
{
    let before = closed_tokens(done, sep) + flatten_segments(current);
    if segs.len() == 0 {
        lemma_closed_push(done, current, sep);
        assert(before + flatten_segments(segs) =~= before);
    } else {
        let rest = segs.subrange(1, segs.len() as int);
        match segs[0] {
            SpecSegment::UnMatched(tokens) => {
                lemma_split_tokens_joined(tokens, sep, done, current, Seq::empty());
                let (done1, current1, run) = split_tokens(tokens, sep, done, current, Seq::empty());
                lemma_flatten_with_run(current1, run);
                lemma_split_segments_joined(rest, sep, done1, with_run(current1, run));
                assert(flatten_segments(segs) == segment_tokens_of(segs[0]) + flatten_segments(
                    rest,
                ));
                assert(segment_tokens_of(segs[0]) == tokens);
                assert(before + Seq::<SpecToken>::empty() + tokens + flatten_segments(rest)
                    =~= before + flatten_segments(segs));
                assert(closed_tokens(done1, sep) + (flatten_segments(current1) + run)
                    =~= closed_tokens(done1, sep) + flatten_segments(current1) + run);
            },
            clause => {
                lemma_flatten_push(current, clause);
                lemma_split_segments_joined(rest, sep, done, current.push(clause));
                assert(flatten_segments(segs) == segment_tokens_of(segs[0]) + flatten_segments(
                    rest,
                ));
                assert(closed_tokens(done, sep) + (flatten_segments(current)
                    + segment_tokens_of(clause)) + flatten_segments(rest) =~= before
                    + flatten_segments(segs));
            },
        }
    }
}

/// A split loses nothing but its separators: the tokens of its parts, with
/// the separator put back between them, are the tokens of what was split.
pub proof fn lemma_slots_joined(segs: Seq<SpecSegment>, sep: SpecToken)
    ensures
        joined(slots(segs, sep), sep) == flatten_segments(segs),
{
    lemma_split_segments_joined(segs, sep, Seq::empty(), Seq::empty());
    assert(flatten_segments(Seq::<SpecSegment>::empty()) =~= Seq::<SpecToken>::empty());
    assert(Seq::<SpecToken>::empty() + Seq::<SpecToken>::empty() + flatten_segments(segs)
        =~= flatten_segments(segs));
}

/// The number of tokens that the parts of a split hold together.
pub open spec fn slots_size(parts: Seq<Seq<SpecSegment>>) -> nat
    decreases parts.len(),
{
    if parts.len() == 0 {
        0
    } else {
        slots_size(parts.subrange(0, parts.len() - 1)) + segments_size(parts[parts.len() - 1])
    }
}

proof fn lemma_size_push(v: Seq<SpecSegment>, s: SpecSegment)
    ensures
        segments_size(v.push(s)) == segments_size(v) + segment_size(s),
{
    assert(v.push(s).subrange(0, v.push(s).len() - 1) =~= v);
}

proof fn lemma_slots_size_push(parts: Seq<Seq<SpecSegment>>, part: Seq<SpecSegment>)
    ensures
        slots_size(parts.push(part)) == slots_size(parts) + segments_size(part),
{
    assert(parts.push(part).subrange(0, parts.push(part).len() - 1) =~= parts);
}

proof fn lemma_split_tokens_size(
    tokens: Seq<SpecToken>,
    sep: SpecToken,
    done: Seq<Seq<SpecSegment>>,
    current: Seq<SpecSegment>,
    run: Seq<SpecToken>,
)
    ensures
        ({
            let (done1, current1, run1) = split_tokens(tokens, sep, done, current, run);
            slots_size(done1) + segments_size(current1) + run1.len() <= slots_size(done)
                + segments_size(current) + run.len() + tokens.len()
        }),
    decreases tokens.len(),
{
    if tokens.len() > 0 {
        let rest = tokens.subrange(1, tokens.len() as int);
        if tokens[0] == sep {
            if run.len() > 0 {
                lemma_size_push(current, SpecSegment::UnMatched(run));
            }
            lemma_slots_size_push(done, with_run(current, run));
            lemma_split_tokens_size(
                rest,
                sep,
                done.push(with_run(current, run)),
                Seq::empty(),
                Seq::empty(),
            );
        } else {
            lemma_split_tokens_size(rest, sep, done, current, run.push(tokens[0]));
        }
    }
}

proof fn lemma_split_segments_size(
    segs: Seq<SpecSegment>,
    sep: SpecToken,
    done: Seq<Seq<SpecSegment>>,
    current: Seq<SpecSegment>,
)
    ensures
        slots_size(split_segments(segs, sep, done, current)) <= slots_size(done) + segments_size(
            current,
        ) + segments_size(segs),
    decreases segs.len(),
{
    if segs.len() == 0 {
        lemma_slots_size_push(done, current);
    } else {
        let rest = segs.subrange(1, segs.len() as int);
        lemma_segments_size_split(segs, 1);
        let first = segs.subrange(0, 1);
        assert(first.subrange(0, first.len() - 1) =~= Seq::<SpecSegment>::empty());
        assert(segments_size(Seq::<SpecSegment>::empty()) == 0);
        assert(first[first.len() - 1] == segs[0]);
        assert(segments_size(first) == segment_size(segs[0]));
        match segs[0] {
            SpecSegment::UnMatched(tokens) => {
                lemma_split_tokens_size(tokens, sep, done, current, Seq::empty());
                let (done1, current1, run) = split_tokens(tokens, sep, done, current, Seq::empty());
                if run.len() > 0 {
                    lemma_size_push(current1, SpecSegment::UnMatched(run));
                }
                lemma_split_segments_size(rest, sep, done1, with_run(current1, run));
            },
            clause => {
                lemma_size_push(current, clause);
                lemma_split_segments_size(rest, sep, done, current.push(clause));
            },
        }
    }
}

/// The parts of a split hold no more tokens than what was split.
pub proof fn lemma_slots_size(segs: Seq<SpecSegment>, sep: SpecToken)
    ensures
        slots_size(slots(segs, sep)) <= segments_size(segs),
{
    lemma_split_segments_size(segs, sep, Seq::empty(), Seq::empty());
}

/// Splits a segment sequence at the separators `sep` that stand in its runs
/// of tokens.
pub fn split_segments_at(segs: &[Segment], sep: &Token) -> (r: Vec<Vec<Segment>>)
    ensures
        r.deep_view() == slots(segs.deep_view(), sep@),
{
    let ghost all = segs.deep_view();
    let mut done: Vec<Vec<Segment>> = Vec::new();
    let mut current: Vec<Segment> = Vec::new();
    let mut i: usize = 0;
    assert(all.subrange(0, all.len() as int) =~= all);
    assert(done.deep_view() =~= Seq::<Seq<SpecSegment>>::empty());
    assert(current.deep_view() =~= Seq::<SpecSegment>::empty());
    while i < segs.len()
        invariant
            i <= segs.len(),
            all == segs.deep_view(),
            split_segments(
                all.subrange(i as int, all.len() as int),
                sep@,
                done.deep_view(),
                current.deep_view(),
            ) == slots(all, sep@),
        decreases segs.len() - i,
    {
        broadcast use {crate::views::lemma_deep_view_push, lemma_segment_view};

        let ghost rest = all.subrange(i as int, all.len() as int);
        assert(rest[0] == segs[i as int]@);
        assert(rest.subrange(1, rest.len() as int) =~= all.subrange(i + 1, all.len() as int));
        match &segs[i] {
            Segment::UnMatched(tokens) => {
                let ghost tv = tokens.deep_view();
                let ghost done0 = done.deep_view();
                let ghost current0 = current.deep_view();
                let mut run: Vec<Token> = Vec::new();
                let mut j: usize = 0;
                assert(tv.subrange(0, tv.len() as int) =~= tv);
                assert(run.deep_view() =~= Seq::<SpecToken>::empty());
                while j < tokens.len()
                    invariant
                        j <= tokens.len(),
                        tv == tokens.deep_view(),
                        split_tokens(
                            tv.subrange(j as int, tv.len() as int),
                            sep@,
                            done.deep_view(),
                            current.deep_view(),
                            run.deep_view(),
                        ) == split_tokens(tv, sep@, done0, current0, Seq::empty()),
                    decreases tokens.len() - j,
                {
                    broadcast use {crate::views::lemma_deep_view_push, lemma_segment_view};

                    let ghost left = tv.subrange(j as int, tv.len() as int);
                    assert(left[0] == tokens[j as int]@);
                    assert(left.subrange(1, left.len() as int) =~= tv.subrange(
                        j + 1,
                        tv.len() as int,
                    ));
                    if tokens[j] == *sep {
                        if run.len() > 0 {
                            current.push(Segment::UnMatched(run));
                        }
                        done.push(current);
                        current = Vec::new();
                        run = Vec::new();
                        assert(current.deep_view() =~= Seq::<SpecSegment>::empty());
                        assert(run.deep_view() =~= Seq::<SpecToken>::empty());
                    } else {
                        run.push(tokens[j].clone());
                    }
                    j = j + 1;
                }
                if run.len() > 0 {
                    current.push(Segment::UnMatched(run));
                }
            },
            other => {
                current.push(other.clone());
            },
        }
        i = i + 1;
    }
    done.push(current);
    done
}

} // verus!
