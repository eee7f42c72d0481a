//! A fixed-capacity ring buffer holding the latest output samples for the
//! waveform display: recording evicts the oldest samples first, and a
//! snapshot returns the kept samples oldest-first.

use std::collections::VecDeque;

use vstd::prelude::*;

verus! {

/// Ring buffer storing the latest waveform samples for visualization.
/// It always holds the last `capacity` samples recorded (or all of them
/// while fewer have arrived), oldest first.
pub struct ScopeBuffer {
    samples: VecDeque<i64>,
    capacity: usize,
}

impl ScopeBuffer {
    /// The samples currently held, oldest first.
    pub closed spec fn view(&self) -> Seq<i64> {
        self.samples@
    }

    /// The fixed capacity this buffer was created with.
    pub closed spec fn spec_capacity(&self) -> int {
        self.capacity as int
    }

    /// The buffer never holds more than its capacity, which is at least
    /// one sample.
    pub open spec fn wf(&self) -> bool {
        self@.len() <= self.spec_capacity() && self.spec_capacity() >= 1
    }

    /// An empty buffer that will keep the last `capacity` samples.
    pub fn new(capacity: usize) -> (r: ScopeBuffer)
        requires
            capacity >= 1,
        ensures
            r@.len() == 0,
            r.spec_capacity() == capacity,
            r.wf(),
    {
        ScopeBuffer { samples: VecDeque::with_capacity(capacity), capacity }
    }

    /// Append a block of samples, evicting the oldest ones so that only
    /// the last `capacity` samples of everything recorded remain.
    pub fn record(&mut self, block: &Vec<i64>)
        requires
            old(self).wf(),
        ensures
            final(self).wf(),
            final(self).spec_capacity() == old(self).spec_capacity(),
            ({
                let all = old(self)@ + block@;
                final(self)@ == all.skip(
                    if all.len() <= old(self).spec_capacity() {
                        0
                    } else {
                        all.len() - old(self).spec_capacity()
                    },
                )
            }),
    {
        let ghost all = self@ + block@;
        let ghost cap = self.spec_capacity();
        let n = block.len();
        let mut i: usize = 0;
        while i < n
            invariant
                i <= n == block@.len(),
                self.spec_capacity() == cap,
                self.wf(),
                ({
                    let sofar = old(self)@ + block@.take(i as int);
                    self@ == sofar.skip(
                        if sofar.len() <= cap {
                            0
                        } else {
                            sofar.len() - cap
                        },
                    )
                }),
            decreases n - i,
        {
            let ghost pre = self@;
            let ghost sofar = old(self)@ + block@.take(i as int);
            if self.samples.len() == self.capacity {
                let popped = self.samples.pop_front();
                proof {
                    assert(pre.len() == cap);
                    assert(popped is Some);
                    assert(self.samples@ == pre.subrange(1, pre.len() as int));
                }
            }
            self.samples.push_back(block[i]);
            proof {
                let b = block@[i as int];
                let sofar2 = old(self)@ + block@.take(i as int + 1);
                let off = if sofar.len() <= cap {
                    0int
                } else {
                    sofar.len() - cap
                };
                let off2 = if sofar2.len() <= cap {
                    0int
                } else {
                    sofar2.len() - cap
                };
                assert(sofar2 =~= sofar.push(b));
                assert(pre == sofar.skip(off));
                if pre.len() == cap {
                    assert(self@ == pre.subrange(1, pre.len() as int).push(b));
                    assert(self@ =~= sofar2.skip(off2));
                } else {
                    assert(self@ == pre.push(b));
                    assert(self@ =~= sofar2.skip(off2));
                }
            }
            i = i + 1;
        }
        proof {
            assert(block@.take(n as int) =~= block@);
        }
    }

    /// An independent copy of the held samples, oldest first.
    pub fn snapshot(&self) -> (r: Vec<i64>)
        ensures
            r@ == self@,
    {
        let n = self.samples.len();
        let mut out: Vec<i64> = Vec::new();
        let mut i: usize = 0;
        while i < n
            invariant
                i <= n == self@.len(),
                out@ == self@.take(i as int),
            decreases n - i,
        {
            let v = *(&self.samples[i]);
            out.push(v);
            proof {
                assert(out@ =~= self@.take(i as int + 1));
            }
            i = i + 1;
        }
        proof {
            assert(self@.take(n as int) =~= self@);
        }
        out
    }
}

} // verus!
