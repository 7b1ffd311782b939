use crate::depth::{lemma_function_depth, within_depth};
use crate::eval::{Data, Program, ProgramState, SpecData, SpecProgram};
use crate::function::{call, call_function, Builtins, FunctionName, LogOnly, SpecFunctionName};
use crate::name_map::NameMap;
use crate::program::{lower_table, program_funs, to_funs, to_program};
use crate::segments::{matched_terminators, prune, prune_clauses, segment_tokens};
use crate::tokens::{chars_of, string_to, tokenize, MyError};
use crate::views::res_view;
use vstd::prelude::*;

verus! {

/// Whether a character is white space, as `char::is_whitespace` of the
/// standard library decides it: whether it has the Unicode property
/// `White_Space`.
pub uninterp spec fn is_whitespace_char(c: char) -> bool;

/// Whether a character is white space, by `char::is_whitespace`.
#[verifier::external_body]
fn is_whitespace(c: char) -> (r: bool)
    ensures
        r == is_whitespace_char(c),
{
    c.is_whitespace()
}

/// The string made of the characters of `chars`, in their order, by
/// `String::from_iter`.
#[verifier::external_body]
fn string_from_chars(chars: &Vec<char>) -> (r: String)
    ensures
        r@ == chars@,
{
    String::from_iter(chars.iter())
}

/// A text without its white space.
pub open spec fn without_whitespace(s: Seq<char>) -> Seq<char> {
    s.filter(|c: char| !is_whitespace_char(c))
}

/// Takes all white space out of a source text.
pub fn clean(s: String) -> (r: String)
    ensures
        r@ == without_whitespace(s@),
{
    let text = chars_of(s.as_str());
    let mut kept: Vec<char> = Vec::new();
    let mut i: usize = 0;
    while i < text.len()
        invariant
            i <= text.len(),
            kept@ == without_whitespace(text@.take(i as int)),
        decreases text.len() - i,
    {
        proof {
            assert(text@.take(i + 1).drop_last() =~= text@.take(i as int));
            reveal(Seq::filter);
        }
        if !is_whitespace(text[i]) {
            kept.push(text[i]);
        }
        i = i + 1;
    }
    assert(text@.take(text.len() as int) =~= text@);
    string_from_chars(&kept)
}

/// The name of the function that a program starts with.
pub open spec fn main_name() -> Seq<char> {
    seq!['m', 'a', 'i', 'n']
}

/// The program that a source text without white space stands for: its
/// tokens are segmented and pruned, its definitions entered into a table and
/// every function of the table lowered.
pub open spec fn source_program(text: Seq<char>) -> Result<SpecProgram, MyError> {
    match segment_tokens(tokenize(text)) {
        None => Err(MyError::UnbalancedDelimiter),
        Some(segments) => match program_funs(prune(segments)) {
            Err(e) => Err(e),
            Ok(funs) => lower_table(funs),
        },
    }
}

/// The result of a program, given as its source text without white space:
/// the value of a call of its function `main` on no arguments, with the
/// builtins of the table `b`.
pub open spec fn run_source<B: Builtins>(text: Seq<char>, depth: nat, b: B) -> Result<
    SpecData,
    MyError,
> {
    match source_program(text) {
        Err(e) => Err(e),
        Ok(code) => call_function(
            code,
            Map::empty(),
            SpecFunctionName::Static(main_name()),
            Seq::empty(),
            depth,
            b,
        ),
    }
}

/// The depth only bounds a run: a program that ends, with a value or an
/// error, without running out of depth has the same result with any greater
/// depth.
pub proof fn lemma_run_depth<B: Builtins>(text: Seq<char>, d1: nat, d2: nat, b: B)
    requires
        d1 <= d2,
        within_depth(run_source(text, d1, b)),
    ensures
        run_source(text, d2, b) == run_source(text, d1, b),
{
    match source_program(text) {
        Ok(code) => {
            lemma_function_depth(
                code,
                Map::empty(),
                SpecFunctionName::Static(main_name()),
                Seq::empty(),
                d1,
                d2,
                b,
            );
        },
        Err(e) => {},
    }
}

/// Builds the program that a source text without white space stands for.
pub fn build(source: String) -> (r: Result<Program, MyError>)
    ensures
        match r {
            Ok(program) => source_program(source@) == Ok::<SpecProgram, MyError>(program@),
            Err(e) => source_program(source@) == Err::<SpecProgram, MyError>(e),
        },
{
    let tokens = string_to(source);
    match matched_terminators(&tokens) {
        Err(e) => Err(e),
        Ok(clauses) => {
            let pruned = prune_clauses(&clauses);
            match to_funs(&pruned) {
                Err(e) => Err(e),
                Ok(funs) => to_program(&funs),
            }
        },
    }
}

/// Runs a program, given as its source text without white space, with the
/// builtins of the table `b`: builds it and calls its function `main` on no
/// arguments. At most `depth` call expressions are nested in the evaluation.
pub fn run_with<B: Builtins>(source: String, depth: usize, b: &B) -> (r: Result<Data, MyError>)
    ensures
        res_view(r) == run_source(source@, depth as nat, *b),
{
    let program = build(source)?;
    let mut name: Vec<char> = Vec::new();
    name.push('m');
    name.push('a');
    name.push('i');
    name.push('n');
    assert(name@ =~= main_name());
    let state: ProgramState = NameMap::new();
    let args: Vec<Data> = Vec::new();
    assert(args.deep_view() =~= Seq::<SpecData>::empty());
    call(&program, &state, &FunctionName::Static(name), &args, depth, b)
}

/// Runs a program, given as its source text without white space, with no
/// builtin but `log`.
pub fn run(source: String, depth: usize) -> (r: Result<Data, MyError>)
    ensures
        res_view(r) == run_source(source@, depth as nat, LogOnly),
{
    run_with(source, depth, &LogOnly)
}

} // verus!
