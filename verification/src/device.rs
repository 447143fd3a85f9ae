//! The text-output device as the kernel sees it: a sink of bytes. The real
//! VGA buffer lives behind memory-mapped I/O in the hardware shell; the
//! model records exactly the bytes handed to it, in order.

use vstd::prelude::*;

verus! {

/// The text device: everything printed so far, in order.
pub struct TextDevice {
    pub bytes: Vec<u8>,
}

impl TextDevice {
    /// A device that has printed nothing.
    pub fn new() -> (r: TextDevice)
        ensures
            r.bytes@ == Seq::<u8>::empty(),
    {
        TextDevice { bytes: Vec::new() }
    }

    /// Prints `b`: the device receives exactly these bytes, appended to
    /// what it already holds.
    pub fn print_bytes(&mut self, b: &Vec<u8>)
        ensures
            final(self).bytes@ == old(self).bytes@ + b@,
    {
        let n = b.len();
        let mut i: usize = 0;
        while i < n
            invariant
                n == b@.len(),
                0 <= i <= n,
                self.bytes@ == old(self).bytes@ + b@.take(i as int),
            decreases n - i,
        {
            self.bytes.push(b[i]);
            proof {
                assert(self.bytes@ =~= old(self).bytes@ + b@.take(i + 1));
            }
            i = i + 1;
        }
        proof {
            assert(b@.take(n as int) =~= b@);
        }
    }
}

/// Two prints in a row hand the device the concatenation of the two byte
/// sequences: no byte is lost, reordered, or inserted between them.
pub proof fn lemma_prints_concatenate(before: Seq<u8>, b1: Seq<u8>, b2: Seq<u8>)
    ensures
        (before + b1) + b2 == before + (b1 + b2),
{
    assert((before + b1) + b2 =~= before + (b1 + b2));
}

} // verus!
