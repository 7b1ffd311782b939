use crate::call_levels::{CallLevel, SpecCallLevel};
use crate::eval::{Data, SpecData};
use crate::expr::{literal_value, parse_literal};
use crate::function::clone_name;
use crate::segments::{
    lemma_segment_size_in, lemma_slots_size, segments_size, slots, slots_size,
    split_segments_at, Segment, SpecSegment,
};
use crate::tokens::{MyError, SpecToken, Token};
use crate::views::{res_view, sub_slice, whole_slice};
use vstd::prelude::*;

verus! {

/// What an argument, or the left side of an assignment, is matched against.
#[derive(Debug, PartialEq)]
pub enum ArgBind {
    Emptylist,
    ListPattern { head: Box<ArgBind>, tail: Box<ArgBind> },
    ConstPattern(Data),
    Identifier(Vec<char>),
}

/// The mathematical value of an [`ArgBind`].
pub enum SpecArgBind {
    Emptylist,
    ListPattern { head: Box<SpecArgBind>, tail: Box<SpecArgBind> },
    ConstPattern(SpecData),
    Identifier(Seq<char>),
}

/// The mathematical value of a pattern.
pub open spec fn argbind_view(p: ArgBind) -> SpecArgBind
    decreases p,
{
    match p {
        ArgBind::Emptylist => SpecArgBind::Emptylist,
        ArgBind::ListPattern { head, tail } => SpecArgBind::ListPattern {
            head: Box::new(argbind_view(*head)),
            tail: Box::new(argbind_view(*tail)),
        },
        ArgBind::ConstPattern(d) => SpecArgBind::ConstPattern(d@),
        ArgBind::Identifier(name) => SpecArgBind::Identifier(name@),
    }
}

impl DeepView for ArgBind {
    type V = SpecArgBind;

    #[verifier::inline]
    open spec fn deep_view(&self) -> SpecArgBind {
        argbind_view(*self)
    }
}

impl View for ArgBind {
    type V = SpecArgBind;

    #[verifier::inline]
    open spec fn view(&self) -> SpecArgBind {
        argbind_view(*self)
    }
}

impl Clone for ArgBind {
    fn clone(&self) -> (r: ArgBind)
        ensures
            r@ == self@,
        decreases self,
    {
        match self {
            ArgBind::Emptylist => ArgBind::Emptylist,
            ArgBind::ListPattern { head, tail } => ArgBind::ListPattern {
                head: Box::new((&**head).clone()),
                tail: Box::new((&**tail).clone()),
            },
            ArgBind::ConstPattern(d) => ArgBind::ConstPattern(d.clone()),
            ArgBind::Identifier(name) => ArgBind::Identifier(clone_name(name)),
        }
    }
}

/// The pattern on the left of an assignment: a variable.
pub open spec fn level_argbind(level: SpecCallLevel) -> Result<SpecArgBind, MyError> {
    match level {
        SpecCallLevel::Identifier(name) => Ok(SpecArgBind::Identifier(name)),
        _ => Err(MyError::MalformedGrammar),
    }
}

/// Reads the left side of an assignment as a pattern.
pub fn call_level_to_argbind(level: &CallLevel) -> (r: Result<ArgBind, MyError>)
    ensures
        res_view(r) == level_argbind(level@),
{
    match level {
        CallLevel::Identifier(name) => Ok(ArgBind::Identifier(clone_name(name))),
        _ => Err(MyError::MalformedGrammar),
    }
}

/// The constant pattern that a token spells, if it spells a number or a
/// truth value.
pub open spec fn token_constant(t: SpecToken) -> Option<SpecArgBind> {
    match t {
        SpecToken::Identifier(chars) => match literal_value(chars) {
            Some(d) => Some(SpecArgBind::ConstPattern(d)),
            None => None,
        },
        _ => None,
    }
}

/// The variable pattern that a token names, if it is an identifier.
pub open spec fn token_identifier(t: SpecToken) -> Option<SpecArgBind> {
    match t {
        SpecToken::Identifier(chars) => Some(SpecArgBind::Identifier(chars)),
        _ => None,
    }
}

/// The pattern that one token stands for: a constant where it spells one,
/// else a variable.
pub open spec fn token_pattern(t: SpecToken) -> Result<SpecArgBind, MyError> {
    match token_constant(t) {
        Some(p) => Ok(p),
        None => match token_identifier(t) {
            Some(p) => Ok(p),
            None => Err(MyError::MalformedGrammar),
        },
    }
}

/// Reads a token as a constant pattern, where it spells a constant.
pub fn try_token_to_constant(t: &Token) -> (r: Option<ArgBind>)
    ensures
        r.deep_view() == token_constant(t@),
{
    match t {
        Token::Identifier(chars) => match parse_literal(chars) {
            Some(d) => Some(ArgBind::ConstPattern(d)),
            None => None,
        },
        _ => None,
    }
}

/// Reads a token as a variable pattern, where it is an identifier.
pub fn try_token_to_identifier(t: &Token) -> (r: Option<ArgBind>)
    ensures
        r.deep_view() == token_identifier(t@),
{
    match t {
        Token::Identifier(chars) => Some(ArgBind::Identifier(clone_name(chars))),
        _ => None,
    }
}

/// Reads a token as a pattern.
pub fn token_to_bind(t: &Token) -> (r: Result<ArgBind, MyError>)
    ensures
        res_view(r) == token_pattern(t@),
{
    if let Some(c) = try_token_to_constant(t) {
        Ok(c)
    } else if let Some(i) = try_token_to_identifier(t) {
        Ok(i)
    } else {
        Err(MyError::MalformedGrammar)
    }
}

/// The pattern that the body of a list clause stands for: `[]` is the empty
/// list, and `[h | t]` a cell whose head and tail are patterns of their own.
pub open spec fn list_pattern(body: Seq<SpecSegment>) -> Result<SpecArgBind, MyError>
    decreases segments_size(body), 1int,
{
    if body.len() == 0 {
        Ok(SpecArgBind::ConstPattern(SpecData::Emptylist))
    } else {
        let parts = slots(body, SpecToken::Pipe);
        if parts.len() == 2 {
            proof {
                lemma_slots_size(body, SpecToken::Pipe);
                lemma_two_slots_size(parts);
            }
            match (slot_pattern(parts[0]), slot_pattern(parts[1])) {
                (Ok(head), Ok(tail)) => Ok(
                    SpecArgBind::ListPattern { head: Box::new(head), tail: Box::new(tail) },
                ),
                _ => Err(MyError::MalformedGrammar),
            }
        } else {
            Err(MyError::MalformedGrammar)
        }
    }
}

/// The pattern that one part between two commas stands for: one token, or
/// one list clause.
pub open spec fn slot_pattern(part: Seq<SpecSegment>) -> Result<SpecArgBind, MyError>
    decreases segments_size(part), 0int,
{
    if part.len() == 1 {
        match part[0] {
            SpecSegment::UnMatched(t) => {
                if t.len() == 1 {
                    token_pattern(t[0])
                } else {
                    Err(MyError::MalformedGrammar)
                }
            },
            SpecSegment::Clause { head: SpecToken::LeftB, body, .. } => {
                proof {
                    lemma_segment_size_in(part, 0);
                }
                list_pattern(body)
            },
            _ => Err(MyError::MalformedGrammar),
        }
    } else {
        Err(MyError::MalformedGrammar)
    }
}

/// Each of two parts holds no more tokens than both together.
pub proof fn lemma_two_slots_size(parts: Seq<Seq<SpecSegment>>)
    requires
        parts.len() == 2,
    ensures
        slots_size(parts) == segments_size(parts[0]) + segments_size(parts[1]),
{
    let front = parts.subrange(0, 1);
    assert(front.subrange(0, 0) =~= Seq::<Seq<SpecSegment>>::empty());
    assert(slots_size(Seq::<Seq<SpecSegment>>::empty()) == 0);
    assert(front[0] == parts[0]);
    assert(slots_size(front) == segments_size(parts[0]));
}

/// The patterns that the parts of a split stand for, one each.
pub open spec fn slots_patterns(parts: Seq<Seq<SpecSegment>>) -> Result<Seq<SpecArgBind>, MyError>
    decreases parts.len(),
{
    if parts.len() == 0 {
        Ok(Seq::empty())
    } else {
        match (
            slots_patterns(parts.subrange(0, parts.len() - 1)),
            slot_pattern(parts[parts.len() - 1]),
        ) {
            (Ok(front), Ok(last)) => Ok(front.push(last)),
            _ => Err(MyError::MalformedGrammar),
        }
    }
}

/// The patterns that the parentheses of a clause hold: none where they are
/// empty, else one for each part between their commas.
pub open spec fn segments_patterns(s: Seq<SpecSegment>) -> Result<Seq<SpecArgBind>, MyError> {
    if s.len() == 0 {
        Ok(Seq::empty())
    } else {
        slots_patterns(slots(s, SpecToken::ArgTerm))
    }
}

/// Reads the body of a list clause as a pattern.
pub fn list_to_bind(body: &Vec<Segment>) -> (r: Result<ArgBind, MyError>)
    ensures
        res_view(r) == list_pattern(body.deep_view()),
    decreases segments_size(body.deep_view()), 1int,
{
    if body.len() == 0 {
        return Ok(ArgBind::ConstPattern(Data::Emptylist));
    }
    let parts = split_segments_at(whole_slice(body), &Token::Pipe);
    if parts.len() == 2 {
        proof {
            lemma_slots_size(body.deep_view(), SpecToken::Pipe);
            lemma_two_slots_size(parts.deep_view());
        }
        let head = single_seg_to_bind(whole_slice(&parts[0]));
        let tail = single_seg_to_bind(whole_slice(&parts[1]));
        match (head, tail) {
            (Ok(head), Ok(tail)) => Ok(
                ArgBind::ListPattern { head: Box::new(head), tail: Box::new(tail) },
            ),
            _ => Err(MyError::MalformedGrammar),
        }
    } else {
        Err(MyError::MalformedGrammar)
    }
}

/// Reads the pattern that one part between two commas holds.
pub fn single_seg_to_bind(part: &[Segment]) -> (r: Result<ArgBind, MyError>)
    ensures
        res_view(r) == slot_pattern(part.deep_view()),
    decreases segments_size(part.deep_view()), 0int,
{
    broadcast use crate::segments::lemma_segment_view;

    if part.len() != 1 {
        return Err(MyError::MalformedGrammar);
    }
    match &part[0] {
        Segment::UnMatched(t) => {
            if t.len() == 1 {
                token_to_bind(&t[0])
            } else {
                Err(MyError::MalformedGrammar)
            }
        },
        Segment::Clause { head: Token::LeftB, body, .. } => {
            proof {
                lemma_segment_size_in(part.deep_view(), 0);
            }
            list_to_bind(body)
        },
        _ => Err(MyError::MalformedGrammar),
    }
}

/// Reads the patterns that the parts of a split hold, one each.
pub fn slots_to_binds(parts: &[Vec<Segment>]) -> (r: Result<Vec<ArgBind>, MyError>)
    ensures
        res_view(r) == slots_patterns(parts.deep_view()),
    decreases parts.len(),
{
    broadcast use crate::views::lemma_deep_view_push;

    let n = parts.len();
    if n == 0 {
        let out: Vec<ArgBind> = Vec::new();
        assert(out.deep_view() =~= Seq::<SpecArgBind>::empty());
        Ok(out)
    } else {
        let front = slots_to_binds(sub_slice(parts, 0, n - 1));
        let last = single_seg_to_bind(whole_slice(&parts[n - 1]));
        match (front, last) {
            (Ok(mut front), Ok(last)) => {
                front.push(last);
                Ok(front)
            },
            _ => Err(MyError::MalformedGrammar),
        }
    }
}

/// Reads the patterns that the parentheses of a clause hold.
pub fn bind_segment_to_bindpattern(s: &Vec<Segment>) -> (r: Result<Vec<ArgBind>, MyError>)
    ensures
        res_view(r) == segments_patterns(s.deep_view()),
{
    if s.len() == 0 {
        let res: Vec<ArgBind> = Vec::new();
        assert(res.deep_view() =~= Seq::<SpecArgBind>::empty());
        return Ok(res);
    }
    let parts = split_segments_at(whole_slice(s), &Token::ArgTerm);
    slots_to_binds(whole_slice(&parts))
}

} // verus!
