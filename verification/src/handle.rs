use std::rc::Rc;
use vstd::prelude::*;

verus! {

/// `<Rc<T> as Clone>::clone`: one more handle on the same value. Trusted, as the standard
/// library documents it: the new handle points to what the old one points to.
#[verifier::external_body]
pub(crate) fn share<T>(handle: &Rc<T>) -> (r: Rc<T>)
    ensures
        r == *handle,
{
    Rc::clone(handle)
}

} // verus!
