//! What a term needs of its identifiers.

use vstd::prelude::*;
use vstd::utf8::encode_utf8_decode_utf8;

verus! {

/// An identifier: something that can be duplicated exactly and compared
/// with another identifier by its view.
pub trait Identifier: View + Sized {
    /// An exact copy of the identifier.
    fn duplicate(&self) -> (r: Self)
        ensures
            r == *self,
    ;

    /// Whether two identifiers name the same thing.
    fn same(&self, other: &Self) -> (r: bool)
        ensures
            r == (self@ == other@),
    ;
}

/// An identifier that can be shown as text.
pub trait Label: View<V = Seq<char>> {
    /// The text of the identifier.
    fn label(&self) -> (r: &str)
        ensures
            r@ == self@,
    ;
}

/// Whether two byte strings are equal, compared byte by byte.
fn bytes_equal(a: &[u8], b: &[u8]) -> (r: bool)
    ensures
        r == (a@ == b@),
{
    if a.len() != b.len() {
        return false;
    }
    let mut i: usize = 0;
    while i < a.len()
        invariant
            a@.len() == b@.len(),
            i <= a@.len(),
            forall|j: int| 0 <= j < i ==> a@[j] == b@[j],
        decreases a@.len() - i,
    {
        if a[i] != b[i] {
            return false;
        }
        i = i + 1;
    }
    assert(a@ =~= b@);
    true
}

impl<'a> Identifier for &'a str {
    fn duplicate(&self) -> (r: Self) {
        *self
    }

    fn same(&self, other: &Self) -> (r: bool) {
        let r = bytes_equal(self.as_bytes(), other.as_bytes());
        proof {
            encode_utf8_decode_utf8(self@);
            encode_utf8_decode_utf8(other@);
        }
        r
    }
}

impl<'a> Label for &'a str {
    fn label(&self) -> (r: &str) {
        *self
    }
}

impl Identifier for String {
    fn duplicate(&self) -> (r: Self) {
        self.clone()
    }

    fn same(&self, other: &Self) -> (r: bool) {
        *self == *other
    }
}

impl Identifier for u64 {
    fn duplicate(&self) -> (r: Self) {
        *self
    }

    fn same(&self, other: &Self) -> (r: bool) {
        *self == *other
    }
}

impl Label for String {
    fn label(&self) -> (r: &str) {
        self.as_str()
    }
}

} // verus!
