//! An injectable uniform-integer-in-range generator. Floor generation and
//! player placement draw from a `RandomSource` handed in by the caller, so
//! that a scripted source can reproduce a layout exactly.

use vstd::prelude::*;

verus! {

/// Declares rand's thread-local generator handle so that it can stand in
/// fields and signatures. Verus treats a value of it as opaque.
#[verifier::external_type_specification]
#[verifier::external_body]
pub struct ExThreadRng(rand::rngs::ThreadRng);

/// Relies on rand::thread_rng: returns a handle to the lazily initialized
/// thread-local generator. Nothing is promised of the handle; it can fail
/// only if the operating system cannot supply entropy at first use.
pub assume_specification[ rand::thread_rng ]() -> rand::rngs::ThreadRng;

/// Relies on rand::Rng::gen_range over the inclusive range `lo..=hi`: the
/// result lies within that range. The call panics only on an empty range,
/// which the precondition rules out.
#[verifier::external_body]
fn draw_in_range(rng: &mut rand::rngs::ThreadRng, lo: u16, hi: u16) -> (r: u16)
    requires
        lo <= hi,
    ensures
        lo <= r <= hi,
{
    rand::Rng::gen_range(rng, lo..=hi)
}

/// A source of uniform integers in a requested range. Scripted values, when
/// present, are consumed first (folded into the range by remainder); once
/// they run out, draws come from the thread-local generator.
pub struct RandomSource {
    rng: rand::rngs::ThreadRng,
    script: Vec<u16>,
    next: usize,
}

impl RandomSource {
    /// The scripted values not yet consumed.
    pub closed spec fn pending(self) -> Seq<u16> {
        if self.next <= self.script@.len() {
            self.script@.skip(self.next as int)
        } else {
            Seq::empty()
        }
    }

    /// A source that draws every value from the thread-local generator.
    pub fn system() -> (s: RandomSource)
        ensures
            s.pending().len() == 0,
    {
        RandomSource { rng: rand::thread_rng(), script: Vec::new(), next: 0 }
    }

    /// A source that first replays the given values in order, folding each
    /// into the requested range, and only then falls back to the
    /// thread-local generator. Layouts drawn from it are reproducible.
    pub fn scripted(script: Vec<u16>) -> (s: RandomSource)
        ensures
            s.pending() == script@,
    {
        let s = RandomSource { rng: rand::thread_rng(), script, next: 0 };
        proof {
            assert(s.pending() =~= s.script@);
        }
        s
    }

    /// Draw one value from the inclusive range `lo..=hi`. While scripted
    /// values remain, the draw is their head folded into the range, so a
    /// scripted source is deterministic.
    pub fn gen_range(&mut self, lo: u16, hi: u16) -> (r: u16)
        requires
            lo <= hi,
        ensures
            lo <= r <= hi,
            old(self).pending().len() > 0 ==> {
                &&& r == lo + (old(self).pending().first() as int % (hi - lo + 1))
                &&& final(self).pending() == old(self).pending().drop_first()
            },
            old(self).pending().len() == 0 ==> final(self).pending().len() == 0,
    {
        if self.next < self.script.len() {
            let v = self.script[self.next];
            self.next = self.next + 1;
            let span: u32 = (hi - lo) as u32 + 1;
            let folded: u32 = v as u32 % span;
            proof {
                assert(old(self).pending().first() == v);
                assert(self.pending() =~= old(self).pending().drop_first());
            }
            lo + (folded as u16)
        } else {
            proof {
                assert(old(self).pending() =~= Seq::<u16>::empty());
            }
            draw_in_range(&mut self.rng, lo, hi)
        }
    }
}

} // verus!
