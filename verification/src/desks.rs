//! Values by the number of a desktop.
use std::collections::BTreeMap;
use vstd::prelude::*;


verus! {

/// The views of the values.
pub open spec fn mviews<V: View>(m: Map<u8, V>) -> Map<u8, V::V> {
    m.map_values(|v: V| v@)
}

/// The view of the value of a desktop, where it has one.
pub open spec fn at_desk<T>(m: Map<u8, T>, n: u8) -> Option<T> {
    if m.contains_key(n) {
        Some(m[n])
    } else {
        None
    }
}

/// The value of a desktop.
pub fn desk_get<V: View>(m: &BTreeMap<u8, V>, n: u8) -> (r: Option<&V>)
    ensures
        crate::text::oview(r) == at_desk(mviews(m@), n),
        r is Some == m@.contains_key(n),
        r matches Some(v) ==> *v == m@[n],
{
    m.get(&n)
}

/// Give a desktop a value.
pub fn desk_put<V: View>(m: &mut BTreeMap<u8, V>, n: u8, v: V)
    ensures
        final(m)@ == old(m)@.insert(n, v),
        mviews(final(m)@) == mviews(old(m)@).insert(n, v@),
{
    m.insert(n, v);
    assert(mviews(m@) =~= mviews(old(m)@).insert(n, v@));
}

/// Take the value of a desktop out.
pub fn desk_take<V: View>(m: &mut BTreeMap<u8, V>, n: u8) -> (r: Option<V>)
    ensures
        final(m)@ == old(m)@.remove(n),
        mviews(final(m)@) == mviews(old(m)@).remove(n),
        crate::text::oview(r) == at_desk(mviews(old(m)@), n),
{
    let r = m.remove(&n);
    assert(mviews(m@) =~= mviews(old(m)@).remove(n));
    r
}

} // verus!
