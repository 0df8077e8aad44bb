//! An adapter that turns a walk into `(start, end)` tuples.

use vstd::prelude::*;

verus! {

/// The sequence of consecutive pairs of `s`: `(s[0], s[1]), (s[1], s[2]), ...`.
///
/// Empty when `s` has no two elements.
pub open spec fn pair_seq<T>(s: Seq<T>) -> Seq<(T, T)> {
    if s.len() <= 1 {
        Seq::empty()
    } else {
        Seq::new((s.len() - 1) as nat, |i: int| (s[i], s[i + 1]))
    }
}

/// An iterator that returns `(start, end)` tuples of a collected walk.
///
/// All the walkers in this crate have a `steps()` function associated with
/// them to turn their collected points into a [`Steps`] iterator.
pub struct Steps<T> {
    items: Vec<T>,
    pos: usize,
}

impl<T: Copy> Steps<T> {
    /// The pairs this adapter has not yet returned.
    pub closed spec fn remaining(self) -> Seq<(T, T)> {
        pair_seq(self.items@.skip(self.pos as int))
    }

    pub closed spec fn wf(self) -> bool {
        self.pos <= self.items@.len()
    }

    pub fn new(items: Vec<T>) -> (r: Steps<T>)
        ensures
            r.wf(),
            r.remaining() == pair_seq(items@),
    {
        let r = Steps { items, pos: 0 };
        proof {
            assert(r.items@.skip(0) =~= r.items@);
        }
        r
    }

    /// The next `(start, end)` pair, or `None` when fewer than two items remain.
    pub fn next(&mut self) -> (r: Option<(T, T)>)
        requires
            old(self).wf(),
        ensures
            final(self).wf(),
            match r {
                Some(p) => old(self).remaining().len() > 0 && p == old(self).remaining()[0]
                    && final(self).remaining() == old(self).remaining().skip(1),
                None => old(self).remaining().len() == 0 && *final(self) == *old(self),
            },
    {
        if self.pos < self.items.len() && self.items.len() - self.pos > 1 {
            let a = self.items[self.pos];
            let b = self.items[self.pos + 1];
            proof {
                let s = self.items@.skip(self.pos as int);
                let s2 = self.items@.skip(self.pos as int + 1);
                assert(pair_seq(s)[0] == (a, b));
                assert(pair_seq(s).skip(1) =~= pair_seq(s2));
            }
            self.pos = self.pos + 1;
            Some((a, b))
        } else {
            None
        }
    }

    /// Collect every remaining pair.
    pub fn collect_pairs(&mut self) -> (r: Vec<(T, T)>)
        requires
            old(self).wf(),
        ensures
            final(self).wf(),
            r@ == old(self).remaining(),
    {
        let mut out: Vec<(T, T)> = Vec::new();
        loop
            invariant
                self.wf(),
                out@ + self.remaining() == old(self).remaining(),
            ensures
                self.wf(),
                self.remaining().len() == 0,
                out@ + self.remaining() == old(self).remaining(),
            decreases self.remaining().len(),
        {
            match self.next() {
                Some(p) => out.push(p),
                None => {
                    break;
                }
            }
        }
        proof {
            assert(out@ =~= old(self).remaining());
        }
        out
    }
}

/// For any sequence `s` of length `n`, its pair sequence has exactly
/// `n - 1` entries for `n >= 2` (none otherwise), and entry `i` is
/// `(s[i], s[i+1])`.
pub proof fn lemma_pair_seq<T>(s: Seq<T>)
    ensures
        s.len() <= 1 ==> pair_seq(s).len() == 0,
        s.len() > 1 ==> pair_seq(s).len() == s.len() - 1,
        forall|i: int| 0 <= i < pair_seq(s).len() ==> #[trigger] pair_seq(s)[i] == (s[i], s[i + 1]),
{
}

} // verus!
