//! The growable byte buffer that frames are read from and written to.
//!
//! `bytes::BytesMut` is used as it stands; Verus sees it through the name
//! `bytes_of`, the sequence of bytes that the buffer currently holds.
use vstd::prelude::*;

verus! {

#[verifier::external_type_specification]
#[verifier::external_body]
pub struct ExBytesMut(bytes::BytesMut);

/// The bytes that a `BytesMut` currently holds, front first.
pub uninterp spec fn bytes_of(b: bytes::BytesMut) -> Seq<u8>;

/// Relies on `BytesMut::len`: the number of bytes held.
pub assume_specification[ bytes::BytesMut::len ](b: &bytes::BytesMut) -> (r: usize)
    ensures
        r == bytes_of(*b).len(),
;

/// Relies on `BytesMut::reserve`: capacity may grow, the contents stay.
/// It panics when the length plus `additional` overflows `usize`.
pub assume_specification[ bytes::BytesMut::reserve ](b: &mut bytes::BytesMut, additional: usize)
    requires
        bytes_of(*old(b)).len() + additional <= usize::MAX,
    ensures
        bytes_of(*final(b)) == bytes_of(*old(b)),
;

/// Relies on `BytesMut::split_to`: the first `at` bytes are returned and
/// removed from the front. It panics when `at` exceeds the length.
pub assume_specification[ bytes::BytesMut::split_to ](b: &mut bytes::BytesMut, at: usize) -> (r:
    bytes::BytesMut)
    requires
        at <= bytes_of(*old(b)).len(),
    ensures
        bytes_of(r) == bytes_of(*old(b)).take(at as int),
        bytes_of(*final(b)) == bytes_of(*old(b)).skip(at as int),
;

/// Relies on `BytesMut::truncate`: keeps the first `len` bytes, and has no
/// effect when `len` is not below the current length.
pub assume_specification[ bytes::BytesMut::truncate ](b: &mut bytes::BytesMut, len: usize)
    ensures
        bytes_of(*final(b)) == if len < bytes_of(*old(b)).len() {
            bytes_of(*old(b)).take(len as int)
        } else {
            bytes_of(*old(b))
        },
;

/// Relies on `BytesMut::extend_from_slice`: appends the slice at the back.
/// It reserves room first, which panics when the new length overflows `usize`.
pub assume_specification[ bytes::BytesMut::extend_from_slice ](
    b: &mut bytes::BytesMut,
    extend: &[u8],
)
    requires
        bytes_of(*old(b)).len() + extend@.len() <= usize::MAX,
    ensures
        bytes_of(*final(b)) == bytes_of(*old(b)) + extend@,
;

/// Relies on `<BytesMut as AsRef<[u8]>>::as_ref`: a view of the held bytes.
#[verifier::external_body]
pub(crate) fn contents(b: &bytes::BytesMut) -> (r: &[u8])
    ensures
        r@ == bytes_of(*b),
{
    b.as_ref()
}

} // verus!
