//! How far a run has come: the files done, counted against the files that
//! were indexed.

use vstd::prelude::*;

verus! {

pub struct Progress {
    total: usize,
    done: usize,
}

/// The share of `done` in `total`, in hundredths of a percent, rounded
/// down. Nothing to do counts as all done.
pub open spec fn share(done: nat, total: nat) -> nat {
    if total == 0 {
        10000
    } else {
        done * 10000 / total
    }
}

/// The share never falls while files are counted, never runs past a
/// hundred percent for files that are among the total, and is within a
/// hundredth of a percent of the true share.
pub proof fn lemma_share(done: nat, more: nat, total: nat)
    requires
        done + more <= total,
    ensures
        share(done, total) <= share(done + more, total) <= 10000,
        share(total, total) == 10000,
        share(done, total) * total <= done * 10000 || total == 0,
        done * 10000 < (share(done, total) + 1) * total || total == 0,
{
    if total > 0 {
        let t = total as int;
        assert(done * 10000 <= (done + more) * 10000 <= t * 10000) by (nonlinear_arith)
            requires
                done + more <= t,
                more >= 0,
                done >= 0,
        ;
        vstd::arithmetic::div_mod::lemma_div_is_ordered(
            (done * 10000) as int,
            ((done + more) * 10000) as int,
            t,
        );
        vstd::arithmetic::div_mod::lemma_div_is_ordered(
            ((done + more) * 10000) as int,
            t * 10000,
            t,
        );
        vstd::arithmetic::div_mod::lemma_div_multiples_vanish(10000, t);
        vstd::arithmetic::div_mod::lemma_fundamental_div_mod((done * 10000) as int, t);
        let q = (done * 10000) as int / t;
        assert((q + 1) * t == t * q + t) by (nonlinear_arith);
    }
}

impl Progress {
    /// The files that were indexed.
    pub closed spec fn total(&self) -> nat {
        self.total as nat
    }

    /// The files that are done.
    pub closed spec fn done(&self) -> nat {
        self.done as nat
    }

    #[verifier::type_invariant]
    spec fn well_formed(&self) -> bool {
        self.done <= self.total
    }

    /// Nothing done of `total_files`.
    pub fn new(total_files: usize) -> (p: Progress)
        ensures
            p.total() == total_files,
            p.done() == 0,
    {
        Progress { total: total_files, done: 0 }
    }

    /// Counts `files` more as done; files beyond the total are not counted.
    pub fn advance(&mut self, files: usize)
        ensures
            final(self).total() == old(self).total(),
            old(self).done() <= final(self).done() <= final(self).total(),
            final(self).done() == if old(self).done() + files <= old(self).total() {
                old(self).done() + files
            } else {
                old(self).total() as int
            },
    {
        proof {
            use_type_invariant(&*self);
        }
        if files <= self.total - self.done {
            self.done = self.done + files;
        } else {
            self.done = self.total;
        }
    }

    /// The share of the files done, in hundredths of a percent: between 0
    /// and 10000.
    pub fn hundredths(&self) -> (r: u32)
        ensures
            r == share(self.done(), self.total()),
            r <= 10000,
            self.done() <= self.total(),
    {
        proof {
            use_type_invariant(self);
            lemma_share(self.done as nat, 0, self.total as nat);
        }
        if self.total == 0 {
            10000
        } else {
            proof {
                assert(self.done as u128 * 10000 <= 0xffff_ffff_ffff_ffff * 10000) by (nonlinear_arith)
                    requires
                        self.done <= 0xffff_ffff_ffff_ffff,
                ;
            }
            ((self.done as u128 * 10000) / (self.total as u128)) as u32
        }
    }
}

} // verus!
