use vstd::prelude::*;

verus! {

/// A digitized target: residue codes at positions `1..=length` of
/// `digital_bytes`; position 0 is a sentinel.
pub struct Sequence {
    pub length: usize,
    pub digital_bytes: Vec<u8>,
}

impl Sequence {
    /// Every position holds a residue code below `alphabet_size`.
    pub open spec fn wf(&self, alphabet_size: nat) -> bool {
        &&& self.digital_bytes@.len() == self.length + 1
        &&& forall|i: int|
            1 <= i <= self.length ==> (#[trigger] self.digital_bytes@[i]) < alphabet_size
    }

    pub open spec fn residue(&self, i: int) -> int {
        self.digital_bytes@[i] as int
    }
}

} // verus!
