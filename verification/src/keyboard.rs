//! The scancode queue between the keyboard interrupt handler and the
//! consumer task. On hardware a bounded lock-free ring carries it; on
//! the single CPU each operation completes alone, so the model is a
//! bounded queue of plain bytes with the same drop-when-full behaviour.

use vstd::prelude::*;

verus! {

/// Most scancodes the queue holds before new ones are dropped.
pub const SCANCODE_QUEUE_CAPACITY: usize = 128;

/// The stream of scancodes not yet consumed, oldest first.
pub struct ScancodeStream {
    pub scancodes: Vec<u8>,
}

impl ScancodeStream {
    /// An empty stream backed by a fresh queue.
    pub fn new() -> (r: ScancodeStream)
        ensures
            r.scancodes@ == Seq::<u8>::empty(),
    {
        ScancodeStream { scancodes: Vec::new() }
    }

    /// Takes the oldest queued scancode; `None` means the consumer should
    /// wait for the next keyboard interrupt.
    pub fn poll_next(&mut self) -> (r: Option<u8>)
        ensures
            old(self).scancodes@.len() > 0 ==> {
                &&& r == Some(old(self).scancodes@[0])
                &&& final(self).scancodes@ == old(self).scancodes@.drop_first()
            },
            old(self).scancodes@.len() == 0 ==> {
                &&& r is None
                &&& *final(self) == *old(self)
            },
    {
        if self.scancodes.len() > 0 {
            let c = self.scancodes.remove(0);
            proof {
                assert(self.scancodes@ =~= old(self).scancodes@.drop_first());
            }
            Some(c)
        } else {
            None
        }
    }
}

/// Queues a scancode read from the keyboard port. A full queue drops the
/// scancode; the hardware shell logs the loss.
pub fn add_scancode(queue: &mut ScancodeStream, scancode: u8) -> (accepted: bool)
    ensures
        old(queue).scancodes@.len() < SCANCODE_QUEUE_CAPACITY ==> {
            &&& accepted
            &&& final(queue).scancodes@ == old(queue).scancodes@.push(scancode)
        },
        old(queue).scancodes@.len() >= SCANCODE_QUEUE_CAPACITY ==> {
            &&& !accepted
            &&& *final(queue) == *old(queue)
        },
{
    if queue.scancodes.len() < SCANCODE_QUEUE_CAPACITY {
        queue.scancodes.push(scancode);
        true
    } else {
        false
    }
}

} // verus!
