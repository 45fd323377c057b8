//! Copying bytes from one buffer to the end of another.

use vstd::prelude::*;

verus! {

/// Appends the bytes of `source` from `from` up to `to` to `target`.
pub fn append_range(target: &mut Vec<u8>, source: &[u8], from: usize, to: usize)
    requires
        from <= to <= source@.len(),
    ensures
        final(target)@ == old(target)@ + source@.subrange(from as int, to as int),
{
    let mut index: usize = from;
    while index < to
        invariant
            from <= index <= to <= source@.len(),
            target@ == old(target)@ + source@.subrange(from as int, index as int),
        decreases to - index,
    {
        target.push(source[index]);
        index += 1;
    }
}

/// Appends all of `bytes` to `target`.
pub fn append_bytes(target: &mut Vec<u8>, bytes: &Vec<u8>)
    ensures
        final(target)@ == old(target)@ + bytes@,
{
    append_range(target, bytes.as_slice(), 0, bytes.len());
}

} // verus!
