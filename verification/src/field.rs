//! Header fields: a name and a value, both octet strings.
use vstd::prelude::*;
use vstd::string::StringSliceAdditionalSpecFns;

verus! {

/// A header field: a name and a value.
#[derive(Debug, Clone, PartialEq, Eq)]
pub struct HeaderField {
    pub name: Vec<u8>,
    pub value: Vec<u8>,
}

/// The octets of a header field's name and value.
pub type FieldView = (Seq<u8>, Seq<u8>);

impl View for HeaderField {
    type V = FieldView;

    open spec fn view(&self) -> FieldView {
        (self.name@, self.value@)
    }
}

/// The size a field takes in a dynamic table: the lengths of its name and
/// value plus 32 octets of overhead (RFC 9204, section 3.2.1).
pub open spec fn field_size(f: FieldView) -> nat {
    f.0.len() + f.1.len() + 32
}

impl HeaderField {
    /// A field with the octets of `name` and of `value`.
    pub fn new(name: &str, value: &str) -> (f: HeaderField)
        ensures
            f.name@ == name.spec_bytes(),
            f.value@ == value.spec_bytes(),
    {
        HeaderField {
            name: vstd::slice::slice_to_vec(name.as_bytes()),
            value: vstd::slice::slice_to_vec(value.as_bytes()),
        }
    }

    /// A field with this field's name and the octets of `value`.
    pub fn with_value(&self, value: &str) -> (f: HeaderField)
        ensures
            f.name@ == self.name@,
            f.value@ == value.spec_bytes(),
    {
        HeaderField {
            name: vstd::slice::slice_to_vec(self.name.as_slice()),
            value: vstd::slice::slice_to_vec(value.as_bytes()),
        }
    }

    /// The size this field takes in a dynamic table, or `usize::MAX` where
    /// that size does not fit in a `usize`.
    pub fn mem_size(&self) -> (r: usize)
        ensures
            r == (if field_size(self@) <= usize::MAX {
                field_size(self@)
            } else {
                usize::MAX as nat
            }),
    {
        let n = self.name.len();
        let v = self.value.len();
        if n <= usize::MAX - 32 && v <= usize::MAX - 32 - n {
            n + v + 32
        } else {
            usize::MAX
        }
    }
}

/// Whether two octet strings are equal.
pub(crate) fn bytes_eq(a: &[u8], b: &[u8]) -> (r: bool)
    ensures
        r == (a@ == b@),
{
    if a.len() != b.len() {
        return false;
    }
    let mut i: usize = 0;
    while i < a.len()
        invariant
            a@.len() == b@.len(),
            i <= a@.len(),
            forall|k: int| 0 <= k < i ==> a@[k] == b@[k],
        decreases a.len() - i,
    {
        if a[i] != b[i] {
            return false;
        }
        i = i + 1;
    }
    assert(a@ =~= b@);
    true
}

} // verus!
