//! Persistent named aliases for blobs. A tag is a short opaque byte
//! name chosen by a caller or generated from the wall-clock time.
use vstd::prelude::*;

verus! {

/// An opaque byte name for a blob.
pub struct Tag {
    name: Vec<u8>,
}

impl View for Tag {
    type V = Seq<u8>;

    closed spec fn view(&self) -> Seq<u8> {
        self.name@
    }
}

impl Clone for Tag {
    fn clone(&self) -> (r: Tag)
        ensures
            r@ == self@,
    {
        Tag { name: clone_bytes(&self.name) }
    }
}

/// Copy a byte vector.
pub fn clone_bytes(v: &Vec<u8>) -> (r: Vec<u8>)
    ensures
        r@ == v@,
{
    let mut r: Vec<u8> = Vec::new();
    let mut i: usize = 0;
    while i < v.len()
        invariant
            i <= v@.len(),
            r@ == v@.subrange(0, i as int),
        decreases v@.len() - i,
    {
        r.push(v[i]);
        proof {
            assert(r@ =~= v@.subrange(0, i + 1));
        }
        i += 1;
    }
    proof {
        assert(r@ =~= v@);
    }
    r
}

impl Tag {
    /// Wrap a byte name.
    pub fn from_bytes(name: Vec<u8>) -> (r: Tag)
        ensures
            r@ == name@,
    {
        Tag { name }
    }

    /// The name's bytes.
    pub fn as_bytes(&self) -> (r: &Vec<u8>)
        ensures
            r@ == self@,
    {
        &self.name
    }

    /// Byte-wise equality.
    pub fn eq_tag(&self, other: &Tag) -> (r: bool)
        ensures
            r == (self@ == other@),
    {
        if self.name.len() != other.name.len() {
            proof {
                assert(self@.len() != other@.len());
            }
            return false;
        }
        let mut i: usize = 0;
        while i < self.name.len()
            invariant
                i <= self.name@.len(),
                self.name@.len() == other.name@.len(),
                forall|j: int| 0 <= j < i ==> self.name@[j] == other.name@[j],
            decreases self.name@.len() - i,
        {
            if self.name[i] != other.name[i] {
                return false;
            }
            i += 1;
        }
        proof {
            assert(self.name@ =~= other.name@);
        }
        true
    }

    /// A generated name derived from a wall-clock time in
    /// microseconds: a fixed prefix followed by the decimal digits of
    /// the time.
    pub fn auto_base(time_micros: u64) -> (r: Tag) {
        let mut digits: Vec<u8> = Vec::new();
        let mut x: u64 = time_micros;
        loop
            decreases x,
        {
            let d: u8 = (x % 10) as u8;
            digits.push(d + 48);
            x = x / 10;
            if x == 0 {
                break;
            }
        }
        let mut name: Vec<u8> = Vec::new();
        name.push(97);
        name.push(117);
        name.push(116);
        name.push(111);
        name.push(45);
        let mut i: usize = digits.len();
        while i > 0
            invariant
                i <= digits@.len(),
            decreases i,
        {
            i -= 1;
            name.push(digits[i]);
        }
        Tag { name }
    }

    /// The same name with one byte appended: the deterministic step
    /// taken when a generated name is already in use.
    pub fn extended(&self) -> (r: Tag)
        ensures
            r@ == self@.push(120u8),
            r@.len() == self@.len() + 1,
    {
        let mut name = clone_bytes(&self.name);
        name.push(120);
        Tag { name }
    }
}

} // verus!
