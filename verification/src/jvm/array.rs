//! `System.arraycopy` between two arrays of the same component type, and
//! within one array (with Java's memmove-style overlap semantics).

use vstd::prelude::*;
use super::{wrap_i32, JavaError, JavaResult};

verus! {

/// Java's range check for `arraycopy`: `None` when `[position, position +
/// length)` lies in an array of `array_length` elements, else the exception.
pub open spec fn copy_range_failure(array_length: i32, position: i32, length: i32) -> Option<JavaError> {
    if position < 0 || length < 0 || position > array_length || length > array_length - position {
        Some(JavaError::ArrayIndexOutOfBounds {
            index: wrap_i32(position + length) as i32,
            length: array_length,
        })
    } else {
        None
    }
}

fn copy_range(array_length: i32, position: i32, length: i32) -> (r: JavaResult<(usize, usize)>)
    requires array_length >= 0,
    ensures
        match copy_range_failure(array_length, position, length) {
            Some(e) => r == Err::<(usize, usize), JavaError>(e),
            None => r == Ok::<(usize, usize), JavaError>((position as usize, (position + length) as usize)),
        },
{
    if position < 0 || length < 0 || position > array_length || length > array_length - position {
        return Err(JavaError::ArrayIndexOutOfBounds {
            index: position.wrapping_add(length),
            length: array_length,
        });
    }
    let end = position + length;
    Ok((position as usize, end as usize))
}

/// The array after a successful `arraycopy` of `length` elements from
/// `source[sp..]` to `destination[dp..]`.
pub open spec fn copied<T>(source: Seq<T>, sp: int, destination: Seq<T>, dp: int, length: int) -> Seq<T> {
    Seq::new(destination.len(), |i: int|
        if dp <= i < dp + length { source[sp + (i - dp)] } else { destination[i] })
}

/// `System.arraycopy(source, sourcePosition, destination, destinationPosition,
/// length)` for two distinct arrays. Both null checks come first, then the
/// source range and then the destination range; nothing changes on failure.
pub fn arraycopy<T: Copy>(
    source: Option<&[T]>,
    source_position: i32,
    destination: Option<&mut [T]>,
    destination_position: i32,
    length: i32,
) -> (r: JavaResult<()>)
    requires
        source matches Some(s) ==> s@.len() <= i32::MAX,
        destination matches Some(d) ==> (*d)@.len() <= i32::MAX,
    ensures
        source is None ==> r == Err::<(), JavaError>(JavaError::NullPointer),
        source is Some && destination is None ==> r == Err::<(), JavaError>(JavaError::NullPointer),
        source is Some && destination is Some ==> {
            let s = source->Some_0;
            let d = (*destination->Some_0)@;
            let fd = (*final(destination->Some_0))@;
            match copy_range_failure(s@.len() as i32, source_position, length) {
                Some(e) => r == Err::<(), JavaError>(e) && fd == d,
                None => match copy_range_failure(d.len() as i32, destination_position, length) {
                    Some(e) => r == Err::<(), JavaError>(e) && fd == d,
                    None => r is Ok && fd == copied(s@, source_position as int, d, destination_position as int, length as int),
                },
            }
        },
{
    let source = match source {
        Some(s) => s,
        None => return Err(JavaError::NullPointer),
    };
    let destination = match destination {
        Some(d) => d,
        None => return Err(JavaError::NullPointer),
    };
    let (s0, _s1) = copy_range(source.len() as i32, source_position, length)?;
    let (d0, d1) = copy_range(destination.len() as i32, destination_position, length)?;
    let ghost d_old = destination@;
    let mut i: usize = d0;
    while i < d1
        invariant
            d0 <= i <= d1, d1 <= destination@.len(), d1 - d0 == length, s0 == source_position,
            d0 == destination_position, s0 + length <= source@.len(),
            destination@.len() == d_old.len(),
            forall|k: int| 0 <= k < d_old.len() ==> destination@[k] == (
                if d0 <= k < i { source@[s0 + (k - d0)] } else { d_old[k] }),
        decreases d1 - i,
    {
        let value = source[s0 + (i - d0)];
        destination[i] = value;
        i = i + 1;
    }
    assert(destination@ =~= copied(source@, source_position as int, d_old, destination_position as int, length as int));
    Ok(())
}

/// `System.arraycopy` where source and destination are the same array; the
/// copy behaves as if it went through a temporary, so overlaps are safe.
pub fn arraycopy_within<T: Copy>(
    array: Option<&mut [T]>,
    source_position: i32,
    destination_position: i32,
    length: i32,
) -> (r: JavaResult<()>)
    requires array matches Some(a) ==> (*a)@.len() <= i32::MAX,
    ensures
        array is None ==> r == Err::<(), JavaError>(JavaError::NullPointer),
        array is Some ==> {
            let a = (*array->Some_0)@;
            let fa = (*final(array->Some_0))@;
            match copy_range_failure(a.len() as i32, source_position, length) {
                Some(e) => r == Err::<(), JavaError>(e) && fa == a,
                None => match copy_range_failure(a.len() as i32, destination_position, length) {
                    Some(e) => r == Err::<(), JavaError>(e) && fa == a,
                    None => r is Ok && fa == copied(a, source_position as int, a, destination_position as int, length as int),
                },
            }
        },
{
    let array = match array {
        Some(a) => a,
        None => return Err(JavaError::NullPointer),
    };
    let (s0, s1) = copy_range(array.len() as i32, source_position, length)?;
    let (d0, d1) = copy_range(array.len() as i32, destination_position, length)?;
    let mut temp: Vec<T> = Vec::new();
    let mut j: usize = s0;
    while j < s1
        invariant
            s0 <= j <= s1, s1 <= array@.len(), temp@.len() == j - s0,
            forall|k: int| 0 <= k < temp@.len() ==> temp@[k] == array@[s0 + k],
        decreases s1 - j,
    {
        temp.push(array[j]);
        j = j + 1;
    }
    let ghost a_old = array@;
    let mut i: usize = d0;
    while i < d1
        invariant
            d0 <= i <= d1, d1 <= array@.len(), d1 - d0 == length, s1 - s0 == length,
            temp@.len() == length, s0 == source_position, d0 == destination_position,
            array@.len() == a_old.len(), s1 <= a_old.len(),
            forall|k: int| 0 <= k < temp@.len() ==> temp@[k] == a_old[s0 + k],
            forall|k: int| 0 <= k < a_old.len() ==> array@[k] == (
                if d0 <= k < i { a_old[s0 + (k - d0)] } else { a_old[k] }),
        decreases d1 - i,
    {
        let value = temp[i - d0];
        array[i] = value;
        i = i + 1;
    }
    assert(array@ =~= copied(a_old, source_position as int, a_old, destination_position as int, length as int));
    Ok(())
}

} // verus!
