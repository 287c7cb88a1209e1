//! Small vector and string helpers.
use vstd::prelude::*;

verus! {

/// A new vector holding `item` and then the elements of `items`, which is left empty.
pub fn prepend<T>(item: T, items: &mut Vec<T>) -> (r: Vec<T>)
    ensures
        r@ == seq![item] + old(items)@,
        final(items)@ == Seq::<T>::empty(),
{
    let mut new = Vec::new();
    new.push(item);
    new.append(items);
    new
}

/// The elements of `v` in reverse order.
pub fn reversed<T>(v: Vec<T>) -> (r: Vec<T>)
    ensures
        r@ == v@.reverse(),
{
    let mut rest = v;
    let mut out: Vec<T> = Vec::new();
    while rest.len() > 0
        invariant
            out@ + rest@.reverse() == v@.reverse(),
        decreases rest@.len(),
    {
        let ghost before = rest@;
        let x = rest.pop().unwrap();
        assert(before.reverse() =~= seq![x] + rest@.reverse());
        out.push(x);
        assert(out@ + rest@.reverse() =~= v@.reverse());
    }
    assert(rest@.reverse() =~= Seq::<T>::empty());
    assert(out@ =~= v@.reverse());
    out
}

/// Relies on `String::push`: appends one character to the string.
#[verifier::external_body]
pub(crate) fn push_char(s: &mut String, c: char)
    ensures
        final(s)@ == old(s)@.push(c),
{
    s.push(c);
}

} // verus!
