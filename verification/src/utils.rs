//! Access modes and conversions that take a value or a reference.
use vstd::prelude::*;

verus! {

/// Whether a storage is opened for reading alone.
pub trait AccessMode {
    const READ_ONLY: bool;
}

/// Access for reading alone.
pub struct Read;

/// Access for reading and writing.
pub struct Write;

impl AccessMode for Read {
    const READ_ONLY: bool = true;
}

impl AccessMode for Write {
    const READ_ONLY: bool = false;
}

/// The purpose of this trait is to create a new value of a passed object: when
/// the passed object is the value, simply move the value; when the passed object
/// is the reference, create the new value by clone. Other extension is possible.
pub trait WrappedCreateFrom<FromType, ToType> {
    fn take(x: FromType) -> ToType;

    /// Replaces `dest` by the value made from `x`.
    fn take_from(dest: &mut ToType, x: FromType)
        default_ensures
            call_ensures(Self::take, (x,), *final(dest)),
    {
        *dest = Self::take(x);
    }
}

} // verus!
