//! Content fingerprints.

use vstd::prelude::*;

verus! {

/// A value derived from a file's content. Two files with equal
/// fingerprints are taken to hold the same bytes.
#[derive(Debug, PartialEq, Eq)]
pub struct Fingerprint {
    pub bytes: Vec<u8>,
}

impl View for Fingerprint {
    type V = Seq<u8>;

    open spec fn view(&self) -> Seq<u8> {
        self.bytes@
    }
}

impl Clone for Fingerprint {
    fn clone(&self) -> (copy: Fingerprint)
        ensures
            copy@ == self@,
    {
        let mut bytes: Vec<u8> = Vec::new();
        let mut i: usize = 0;
        while i < self.bytes.len()
            invariant
                i <= self.bytes.len(),
                bytes@ == self.bytes@.take(i as int),
            decreases self.bytes.len() - i,
        {
            bytes.push(self.bytes[i]);
            assert(bytes@ =~= self.bytes@.take(i + 1));
            i = i + 1;
        }
        assert(bytes@ =~= self.bytes@);
        Fingerprint { bytes }
    }
}

impl Fingerprint {
    /// The fingerprint made of the given bytes.
    pub fn new(bytes: Vec<u8>) -> (fingerprint: Fingerprint)
        ensures
            fingerprint@ == bytes@,
    {
        Fingerprint { bytes }
    }

    /// Tells whether the two fingerprints are equal. Every byte is looked
    /// at, whatever the earlier ones were.
    pub fn same_as(&self, other: &Fingerprint) -> (same: bool)
        ensures
            same == (self@ == other@),
    {
        if self.bytes.len() != other.bytes.len() {
            assert(self@.len() != other@.len());
            return false;
        }
        let mut same = true;
        let mut i: usize = 0;
        assert(self@.take(0) =~= other@.take(0));
        while i < self.bytes.len()
            invariant
                i <= self.bytes.len(),
                self.bytes.len() == other.bytes.len(),
                same == (self@.take(i as int) == other@.take(i as int)),
            decreases self.bytes.len() - i,
        {
            let here = self.bytes[i] == other.bytes[i];
            proof {
                let a = self@.take(i + 1);
                let b = other@.take(i + 1);
                assert(a.drop_last() =~= self@.take(i as int));
                assert(b.drop_last() =~= other@.take(i as int));
                assert(a.last() == self@[i as int] && b.last() == other@[i as int]);
                if same && here {
                    assert(a =~= b);
                }
            }
            same = same && here;
            i = i + 1;
        }
        assert(self@.take(self@.len() as int) =~= self@);
        assert(other@.take(other@.len() as int) =~= other@);
        same
    }
}

} // verus!
