use vstd::prelude::*;

verus! {

pub type Key = Vec<u8>;

/// A stored value.
#[derive(Clone, Debug, PartialEq)]
pub enum Value {
    String(Vec<u8>),
}

impl Value {
    /// The value's bytes.
    pub open spec fn bytes(&self) -> Seq<u8> {
        match self {
            Value::String(b) => b@,
        }
    }

    pub fn as_bytes(&self) -> (r: &[u8])
        ensures
            r@ == self.bytes(),
    {
        match self {
            Value::String(bytes) => bytes.as_slice(),
        }
    }

    pub fn size_bytes(&self) -> (r: usize)
        ensures
            r == self.bytes().len(),
    {
        match self {
            Value::String(bytes) => bytes.len(),
        }
    }
}

/// A fresh vector holding the same bytes.
pub fn copy_bytes(src: &[u8]) -> (r: Vec<u8>)
    ensures
        r@ == src@,
{
    let mut out: Vec<u8> = Vec::new();
    let mut i: usize = 0;
    while i < src.len()
        invariant
            i <= src.len(),
            out@ == src@.take(i as int),
        decreases src.len() - i,
    {
        out.push(src[i]);
        i = i + 1;
        assert(out@ =~= src@.take(i as int));
    }
    assert(src@.take(src.len() as int) =~= src@);
    out
}

/// Whether two byte strings are equal.
pub fn bytes_equal(a: &[u8], b: &[u8]) -> (r: bool)
    ensures
        r == (a@ == b@),
{
    if a.len() != b.len() {
        return false;
    }
    let mut i: usize = 0;
    while i < a.len()
        invariant
            i <= a.len(),
            a.len() == b.len(),
            forall|j: int| 0 <= j < i ==> a@[j] == b@[j],
        decreases a.len() - i,
    {
        if a[i] != b[i] {
            return false;
        }
        i = i + 1;
    }
    assert(a@ =~= b@);
    true
}

} // verus!
