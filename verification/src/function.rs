use crate::eval::{call_fun, Data, Program, ProgramState, SpecData, SpecProgram, SpecScope};
use crate::tokens::{chars_eq, copy_range, MyError};
use crate::views::res_view;
use vstd::prelude::*;

verus! {

/// How a call names its target: a function of the program, a variable that
/// holds a function pointer, or a builtin.
#[derive(Debug)]
pub enum FunctionName {
    Static(Vec<char>),
    Dynamic(Vec<char>),
    Rust(Vec<char>),
}

/// The mathematical value of a [`FunctionName`].
pub enum SpecFunctionName {
    Static(Seq<char>),
    Dynamic(Seq<char>),
    Rust(Seq<char>),
}

impl DeepView for FunctionName {
    type V = SpecFunctionName;

    open spec fn deep_view(&self) -> SpecFunctionName {
        match self {
            FunctionName::Static(name) => SpecFunctionName::Static(name@),
            FunctionName::Dynamic(name) => SpecFunctionName::Dynamic(name@),
            FunctionName::Rust(name) => SpecFunctionName::Rust(name@),
        }
    }
}

impl View for FunctionName {
    type V = SpecFunctionName;

    #[verifier::inline]
    open spec fn view(&self) -> SpecFunctionName {
        self.deep_view()
    }
}

/// A copy of a name.
pub fn clone_name(name: &Vec<char>) -> (r: Vec<char>)
    ensures
        r@ == name@,
{
    let copy = copy_range(name, 0, name.len());
    assert(copy@ =~= name@);
    copy
}

impl Clone for FunctionName {
    fn clone(&self) -> (r: FunctionName)
        ensures
            r@ == self@,
    {
        match self {
            FunctionName::Static(name) => FunctionName::Static(clone_name(name)),
            FunctionName::Dynamic(name) => FunctionName::Dynamic(clone_name(name)),
            FunctionName::Rust(name) => FunctionName::Rust(clone_name(name)),
        }
    }
}

impl PartialEq for FunctionName {
    fn eq(&self, other: &FunctionName) -> (r: bool) {
        match (self, other) {
            (FunctionName::Static(a), FunctionName::Static(b)) => chars_eq(a, b),
            (FunctionName::Dynamic(a), FunctionName::Dynamic(b)) => chars_eq(a, b),
            (FunctionName::Rust(a), FunctionName::Rust(b)) => chars_eq(a, b),
            _ => false,
        }
    }
}

impl Eq for FunctionName {

}

impl vstd::std_specs::cmp::PartialEqSpecImpl for FunctionName {
    open spec fn obeys_eq_spec() -> bool {
        true
    }

    open spec fn eq_spec(&self, other: &FunctionName) -> bool {
        self@ == other@
    }
}

/// The name of the builtin that logs its arguments.
pub open spec fn log_name() -> Seq<char> {
    seq!['l', 'o', 'g']
}

/// The value of a call of the builtin `name`: `log` returns the empty list,
/// and no other builtin is known.
pub open spec fn builtin_call(name: Seq<char>, args: Seq<SpecData>) -> Result<SpecData, MyError> {
    if name == log_name() {
        Ok(SpecData::Emptylist)
    } else {
        Err(MyError::UnboundIdentifier)
    }
}

/// The value of a call of `f` on the values `args`, in which at most `depth`
/// call expressions are nested.
///
/// A static name is looked up in the program. A dynamic name is looked up in
/// the scope, where it must be bound to a function pointer, and the call goes
/// to what the pointer names; a pointer to a dynamic name costs one unit of
/// depth. A builtin is looked up in the table `b`.
pub open spec fn call_function<B: Builtins>(
    code: SpecProgram,
    scope: SpecScope,
    f: SpecFunctionName,
    args: Seq<SpecData>,
    depth: nat,
    b: B,
) -> Result<SpecData, MyError>
    decreases depth, 4int, args, (if f is Dynamic {
        1int
    } else {
        0int
    }),
{
    match f {
        SpecFunctionName::Static(key) => {
            if code.contains_key(key) {
                call_fun(code, code[key], args, depth, b)
            } else {
                Err(MyError::UnboundIdentifier)
            }
        },
        SpecFunctionName::Dynamic(key) => {
            if !scope.contains_key(key) {
                Err(MyError::UnboundIdentifier)
            } else {
                match scope[key] {
                    SpecData::FunctionPointer(g) => {
                        if !(g is Dynamic) {
                            call_function(code, scope, g, args, depth, b)
                        } else if depth == 0 {
                            Err(MyError::DepthExceeded)
                        } else {
                            call_function(code, scope, g, args, (depth - 1) as nat, b)
                        }
                    },
                    _ => Err(MyError::TypeMismatch),
                }
            }
        },
        SpecFunctionName::Rust(key) => b.result(key, args),
    }
}

/// A call through a variable that holds a pointer to a function of the
/// program is the call of that function.
pub proof fn lemma_dynamic_call_is_static<B: Builtins>(
    code: SpecProgram,
    scope: SpecScope,
    variable: Seq<char>,
    name: Seq<char>,
    args: Seq<SpecData>,
    depth: nat,
    b: B,
)
    requires
        scope.contains_key(variable),
        scope[variable] == SpecData::FunctionPointer(SpecFunctionName::Static(name)),
    ensures
        call_function(code, scope, SpecFunctionName::Dynamic(variable), args, depth, b)
            == call_function(code, scope, SpecFunctionName::Static(name), args, depth, b),
{
}

/// A table of builtins: what a call of a builtin by its name returns. A
/// program calls a builtin as `name::rust(..)`; who embeds the interpreter
/// chooses the table, and so which builtins there are. What is proved of an
/// evaluation holds for a table whose `call_builtin` returns what its
/// `result` says.
pub trait Builtins {
    /// What the table returns for a call of `name` on `args`. A table that
    /// says nothing else knows `log`, which returns the empty list, and no
    /// other builtin.
    open spec fn result(&self, name: Seq<char>, args: Seq<SpecData>) -> Result<SpecData, MyError> {
        builtin_call(name, args)
    }

    /// Calls the builtin `name` on `args`.
    fn call_builtin(&self, name: &Vec<char>, args: &Vec<Data>) -> (r: Result<Data, MyError>)
        ensures
            res_view(r) == self.result(name@, args.deep_view()),
    ;
}

/// The table that knows `log` and nothing else.
#[derive(Debug, Clone, Copy)]
pub struct LogOnly;

impl Builtins for LogOnly {
    fn call_builtin(&self, name: &Vec<char>, args: &Vec<Data>) -> (r: Result<Data, MyError>) {
        rust_call(name, args)
    }
}

/// Calls the builtin `name` of the table that knows `log` only.
pub fn rust_call(name: &Vec<char>, args: &Vec<Data>) -> (r: Result<Data, MyError>)
    ensures
        res_view(r) == builtin_call(name@, args.deep_view()),
{
    if name.len() == 3 && name[0] == 'l' && name[1] == 'o' && name[2] == 'g' {
        assert(name@ =~= log_name());
        Ok(Data::Emptylist)
    } else {
        Err(MyError::UnboundIdentifier)
    }
}

/// Calls `function` on `args`; at most `depth` call expressions are nested
/// in the evaluation.
pub fn call<B: Builtins>(
    code: &Program,
    state: &ProgramState,
    function: &FunctionName,
    args: &Vec<Data>,
    depth: usize,
    b: &B,
) -> (r: Result<Data, MyError>)
    ensures
        res_view(r) == call_function(code@, state@, function@, args.deep_view(), depth as nat, *b),
    decreases depth, 4int, args.deep_view(), (if function@ is Dynamic {
        1int
    } else {
        0int
    }),
{
    match function {
        FunctionName::Static(key) => match code.get(key) {
            None => Err(MyError::UnboundIdentifier),
            Some(f) => crate::eval::call(code, f, args, depth, b),
        },
        FunctionName::Dynamic(key) => match state.get(key) {
            None => Err(MyError::UnboundIdentifier),
            Some(Data::FunctionPointer(f)) => match f {
                FunctionName::Dynamic(_) => {
                    if depth == 0 {
                        Err(MyError::DepthExceeded)
                    } else {
                        call(code, state, f, args, depth - 1, b)
                    }
                },
                _ => call(code, state, f, args, depth, b),
            },
            Some(_) => Err(MyError::TypeMismatch),
        },
        FunctionName::Rust(key) => b.call_builtin(key, args),
    }
}

} // verus!
