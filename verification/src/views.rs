use crate::tokens::MyError;
use vstd::prelude::*;

verus! {

/// The mathematical value of a result: that of what it holds where it is
/// `Ok`, the error itself where it is `Err`.
pub open spec fn res_view<T: DeepView>(r: Result<T, MyError>) -> Result<T::V, MyError> {
    match r {
        Ok(v) => Ok(v.deep_view()),
        Err(e) => Err(e),
    }
}

/// Pushing an element onto a vector pushes its value onto the deep view.
pub broadcast proof fn lemma_deep_view_push<T: DeepView>(before: Vec<T>, after: Vec<T>, x: T)
    requires
        after@ == before@.push(x),
    ensures
        #![trigger after.deep_view(), before@.push(x)]
        after.deep_view() == before.deep_view().push(x.deep_view()),
{
    assert(after.deep_view() =~= before.deep_view().push(x.deep_view()));
}

/// The part `s[from..to]` of a slice.
pub fn sub_slice<T: DeepView>(s: &[T], from: usize, to: usize) -> (r: &[T])
    requires
        from <= to <= s.len(),
    ensures
        r@ == s@.subrange(from as int, to as int),
        r.deep_view() == s.deep_view().subrange(from as int, to as int),
{
    let r = &s[from..to];
    assert(r.deep_view() =~= s.deep_view().subrange(from as int, to as int));
    r
}

/// A vector as a slice.
pub fn whole_slice<T: DeepView>(v: &Vec<T>) -> (r: &[T])
    ensures
        r@ == v@,
        r.deep_view() == v.deep_view(),
{
    let r = v.as_slice();
    assert(r.deep_view() =~= v.deep_view());
    r
}

} // verus!
