//! The exporter's buffer. Records are appended as they arrive; after every
//! `interval` arrivals the whole buffer is written out as a checkpoint, and
//! when the input closes it is written out as the final artifact. What lies
//! on disk is therefore always a prefix of what is in memory.

use crate::record::{record_views, ExportFrame, ExportFrameView};
use vstd::prelude::*;

verus! {

/// The two formats of checkpoints and of the final artifact.
#[derive(Clone, Copy, Debug, PartialEq, Eq, Structural)]
pub enum ExportFormat {
    Json,
    Csv,
}

/// How many records have arrived, and how many of them since the newest
/// checkpoint.
struct Arrivals {
    since: usize,
    received: Ghost<nat>,
}

/// The records in memory, and how many of them the newest image on disk
/// holds.
struct Store {
    records: Vec<ExportFrame>,
    saved: usize,
}

pub struct CheckpointBuffer {
    store: Store,
    check_point: usize,
    arrivals: Arrivals,
}

impl CheckpointBuffer {
    #[verifier::type_invariant]
    spec fn well_formed(&self) -> bool {
        &&& self.check_point > 0
        &&& self.arrivals.since < self.check_point
        &&& self.arrivals.since == self.arrivals.received@ % (self.check_point as nat)
        &&& self.store.saved <= self.store.records@.len()
    }

    /// The records in memory, oldest first.
    pub closed spec fn records(&self) -> Seq<ExportFrameView> {
        record_views(self.store.records@)
    }

    /// After how many arrivals a checkpoint is written.
    pub closed spec fn interval(&self) -> nat {
        self.check_point as nat
    }

    /// How many records have arrived in this run.
    pub closed spec fn received(&self) -> nat {
        self.arrivals.received@
    }

    /// The records that the newest image on disk holds.
    pub closed spec fn checkpoint(&self) -> Seq<ExportFrameView> {
        self.records().take(self.store.saved as int)
    }

    /// A buffer that starts from the records of an earlier run, which lie on
    /// disk already. There is none for an interval of 0.
    pub fn resume(check_point: usize, loaded: Vec<ExportFrame>) -> (r: Option<CheckpointBuffer>)
        ensures
            r is None <==> check_point == 0,
            r matches Some(b) ==> {
                &&& b.interval() == check_point
                &&& b.received() == 0
                &&& b.records() == record_views(loaded@)
                &&& b.checkpoint() == b.records()
            },
    {
        if check_point == 0 {
            return None;
        }
        let saved = loaded.len();
        proof {
            vstd::arithmetic::div_mod::lemma_small_mod(0, check_point as nat);
        }
        let b = CheckpointBuffer {
            store: Store { records: loaded, saved },
            check_point,
            arrivals: Arrivals { since: 0, received: Ghost(0) },
        };
        Some(b)
    }

    /// An empty buffer.
    pub fn new(check_point: usize) -> (r: Option<CheckpointBuffer>)
        ensures
            r is None <==> check_point == 0,
            r matches Some(b) ==> {
                &&& b.interval() == check_point
                &&& b.received() == 0
                &&& b.records() == Seq::<ExportFrameView>::empty()
                &&& b.checkpoint() == b.records()
            },
    {
        let r = CheckpointBuffer::resume(check_point, Vec::new());
        r
    }

    /// Appends the records of an earlier run to what the buffer holds. They
    /// do not count as arrivals, and what lies on disk stays as it is.
    pub fn extend(&mut self, loaded: Vec<ExportFrame>)
        ensures
            final(self).interval() == old(self).interval(),
            final(self).received() == old(self).received(),
            final(self).records() == old(self).records() + record_views(loaded@),
            final(self).checkpoint() == old(self).checkpoint(),
            final(self).checkpoint().is_prefix_of(final(self).records()),
    {
        proof {
            use_type_invariant(&*self);
        }
        let ghost before = self.records();
        let ghost added = record_views(loaded@);
        let mut loaded = loaded;
        let mut store = Store { records: Vec::new(), saved: 0 };
        std::mem::swap(&mut store, &mut self.store);
        let ghost saved = store.saved;
        store.records.append(&mut loaded);
        self.store = store;
        proof {
            assert(self.records() =~= before + added);
            assert(self.records().take(saved as int) =~= before.take(saved as int));
        }
    }

    /// Appends `record`. The result says whether a checkpoint is due, which
    /// it is after every `interval` arrivals; the caller then writes the
    /// whole buffer out, and the buffer counts it as written. The buffer
    /// only grows, and what lies on disk stays a prefix of it.
    pub fn receive(&mut self, record: ExportFrame) -> (due: bool)
        ensures
            final(self).interval() == old(self).interval(),
            final(self).interval() > 0,
            final(self).received() == old(self).received() + 1,
            final(self).records() == old(self).records().push(record@),
            due == (final(self).received() % final(self).interval() == 0),
            final(self).checkpoint() == if due {
                final(self).records()
            } else {
                old(self).checkpoint()
            },
            old(self).checkpoint().is_prefix_of(final(self).checkpoint()),
            final(self).checkpoint().is_prefix_of(final(self).records()),
    {
        proof {
            use_type_invariant(&*self);
        }
        let due = self.arrivals.since + 1 == self.check_point;
        let mut store = Store { records: Vec::new(), saved: 0 };
        std::mem::swap(&mut store, &mut self.store);
        store.records.push(record);
        if due {
            store.saved = store.records.len();
        }
        self.store = store;
        proof {
            lemma_count_step(self.arrivals.received@, self.check_point as nat);
        }
        self.arrivals = Arrivals {
            since: if due {
                0
            } else {
                self.arrivals.since + 1
            },
            received: Ghost((self.arrivals.received@ + 1) as nat),
        };
        due
    }

    pub fn len(&self) -> (n: usize)
        ensures
            n == self.records().len(),
    {
        self.store.records.len()
    }

    /// The records to write out, for a checkpoint or for the final artifact.
    pub fn snapshot(&self) -> (r: &Vec<ExportFrame>)
        ensures
            record_views(r@) == self.records(),
            self.checkpoint().is_prefix_of(self.records()),
    {
        proof {
            use_type_invariant(self);
        }
        &self.store.records
    }

    /// Ends the run: hands out the records of the final artifact, of which
    /// every checkpoint was a prefix.
    pub fn finish(self) -> (r: Vec<ExportFrame>)
        ensures
            record_views(r@) == self.records(),
            self.checkpoint().is_prefix_of(self.records()),
    {
        proof {
            use_type_invariant(&self);
        }
        self.store.records
    }
}

/// Counting one more arrival: the count modulo the interval goes up by one,
/// or back to zero where it reaches the interval.
pub proof fn lemma_count_step(n: nat, interval: nat)
    requires
        interval > 0,
    ensures
        (n + 1) % interval == if n % interval + 1 == interval {
            0
        } else {
            n % interval + 1
        },
{
    vstd::arithmetic::div_mod::lemma_fundamental_div_mod(n as int, interval as int);
    let q = n as int / interval as int;
    let r = n as int % interval as int;
    if r + 1 == interval {
        assert(n + 1 == (q + 1) * interval + 0) by (nonlinear_arith)
            requires
                n == interval * q + r,
                r + 1 == interval,
        ;
        vstd::arithmetic::div_mod::lemma_fundamental_div_mod_converse(
            n as int + 1,
            interval as int,
            q + 1,
            0,
        );
    } else {
        vstd::arithmetic::div_mod::lemma_mod_bound(n as int, interval as int);
        assert(n + 1 == q * interval + (r + 1)) by (nonlinear_arith)
            requires
                n == interval * q + r,
        ;
        vstd::arithmetic::div_mod::lemma_fundamental_div_mod_converse(
            n as int + 1,
            interval as int,
            q,
            r + 1,
        );
    }
}

} // verus!
