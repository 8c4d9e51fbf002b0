//! The scheduling core: one probe task per address, handed out in input
//! order, each launch coupled with the inter-launch delay that rate-limits
//! the run.
use vstd::prelude::*;

use crate::pipeline::copy_bytes;

verus! {

/// One instruction to the launching loop: which address to probe next, the
/// pause that must follow the launch, and the share of addresses launched
/// so far, in whole percent.
pub struct LaunchCmd {
    /// The proxy address the new task probes.
    pub addr: Vec<u8>,
    /// The pause after this launch, in milliseconds.
    pub delay_ms: u64,
    /// Addresses launched before this one, as a percentage of all of them.
    pub progress_pct: u8,
}

/// Hands out the probe tasks of a run, one per call, in input order. The
/// loop that owns it launches the returned task, then sleeps for the
/// returned delay; the dispatcher itself never blocks and never skips,
/// reorders or repeats an address.
pub struct Dispatcher {
    addrs: Vec<Vec<u8>>,
    next_idx: usize,
    delay_ms: u64,
}

impl Dispatcher {
    /// The addresses of the run, in input order.
    pub closed spec fn addrs(self) -> Seq<Seq<u8>> {
        self.addrs.deep_view()
    }

    /// How many tasks have been handed out so far.
    pub closed spec fn launched(self) -> int {
        self.next_idx as int
    }

    /// The pause that follows every launch, in milliseconds.
    pub closed spec fn delay(self) -> u64 {
        self.delay_ms
    }

    /// No task beyond the input has been handed out.
    pub closed spec fn wf(self) -> bool {
        self.next_idx <= self.addrs@.len()
    }

    /// A fresh dispatcher: nothing launched yet.
    pub fn new(addrs: Vec<Vec<u8>>, delay_ms: u64) -> (d: Dispatcher)
        ensures
            d.wf(),
            d.addrs() == addrs.deep_view(),
            d.launched() == 0,
            d.delay() == delay_ms,
    {
        Dispatcher { addrs, next_idx: 0, delay_ms }
    }

    /// The next task to launch, or `None` once every address has been
    /// handed out. Launch order is input order: the `n`th call yields the
    /// `n`th address, and every command carries the configured delay.
    pub fn next_launch(&mut self) -> (cmd: Option<LaunchCmd>)
        requires
            old(self).wf(),
        ensures
            final(self).wf(),
            final(self).addrs() == old(self).addrs(),
            final(self).delay() == old(self).delay(),
            old(self).launched() < old(self).addrs().len() ==> {
                &&& cmd matches Some(c)
                &&& c.addr@ == old(self).addrs()[old(self).launched()]
                &&& c.delay_ms == old(self).delay()
                &&& c.progress_pct as int == old(self).launched() * 100 / (
                old(self).addrs().len() as int)
                &&& final(self).launched() == old(self).launched() + 1
            },
            old(self).launched() >= old(self).addrs().len() ==> {
                &&& cmd is None
                &&& final(self).launched() == old(self).launched()
            },
    {
        if self.next_idx < self.addrs.len() {
            let addr = copy_bytes(&self.addrs[self.next_idx]);
            proof {
                assert(self.addrs.deep_view()[self.next_idx as int] =~= self.addrs@[
                    self.next_idx as int]@);
                let i: int = self.next_idx as int;
                let l: int = self.addrs@.len() as int;
                assert(i * 100 / l < 100) by (nonlinear_arith)
                    requires
                        0 <= i < l,
                ;
                assert(i * 100 / l >= 0) by (nonlinear_arith)
                    requires
                        0 <= i < l,
                ;
            }
            let pct_wide: u128 = (self.next_idx as u128) * 100 / (self.addrs.len() as u128);
            let pct: u8 = pct_wide as u8;
            let cmd = LaunchCmd { addr, delay_ms: self.delay_ms, progress_pct: pct };
            self.next_idx = self.next_idx + 1;
            Some(cmd)
        } else {
            None
        }
    }
}

} // verus!
