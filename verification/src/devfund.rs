//! The development fund: a fixed share of the block templates is requested for its address.
use vstd::prelude::*;

verus! {

/// The address of the development fund.
pub const DEVFUND_ADDRESS: &'static str =
    "keryx:qpcptntu45n0xtyq60apnwnhpkta0ujzt5sy3uk5v6nrjvxlqhamjyc882jj3";

/// How many of every `DEVFUND_PERIOD` requests pay to the fund.
pub const DEVFUND_PERCENT: u16 = 200;

/// The number of requests in which the fund's share is counted.
pub const DEVFUND_PERIOD: u16 = 10_000;

/// Counts the requests, from 0 up to the period and round again.
pub struct DevfundCounter {
    pub next: u16,
}

impl DevfundCounter {
    /// Whether the counter is within the period.
    pub open spec fn wf(&self) -> bool {
        self.next < DEVFUND_PERIOD
    }

    /// Whether the next request pays to the fund.
    pub open spec fn pays_fund(&self) -> bool {
        self.next < DEVFUND_PERCENT
    }

    /// A counter of no requests.
    pub fn new() -> (c: DevfundCounter)
        ensures
            c.wf(),
            c.next == 0,
    {
        DevfundCounter { next: 0 }
    }
}

/// The address that the next request pays to.
pub fn next_pay_address(counter: &mut DevfundCounter, mining_addr: &str) -> (addr: String)
    requires
        old(counter).wf(),
    ensures
        final(counter).wf(),
        final(counter).next == (old(counter).next + 1) % (DEVFUND_PERIOD as int),
        addr@ == (if old(counter).pays_fund() {
            DEVFUND_ADDRESS@
        } else {
            mining_addr@
        }),
{
    let addr: String = if counter.next < DEVFUND_PERCENT {
        DEVFUND_ADDRESS.to_owned()
    } else {
        mining_addr.to_owned()
    };
    counter.next = (counter.next + 1) % DEVFUND_PERIOD;
    addr
}

/// Where the counter stands behind `k` requests.
pub open spec fn counter_after(start: int, k: nat) -> int
    decreases k,
{
    if k == 0 {
        start
    } else {
        (counter_after(start, (k - 1) as nat) + 1) % (DEVFUND_PERIOD as int)
    }
}

/// How many of `n` requests pay to the fund, when the counter stands at `start` before them.
pub open spec fn fund_payments(start: int, n: nat) -> int
    decreases n,
{
    if n == 0 {
        0
    } else {
        fund_payments(start, (n - 1) as nat) + if counter_after(start, (n - 1) as nat)
            < DEVFUND_PERCENT {
            1int
        } else {
            0int
        }
    }
}

/// The counter stands where a count without end stands in its period.
proof fn lemma_counter_after(start: int, k: nat)
    requires
        0 <= start < DEVFUND_PERIOD,
    ensures
        counter_after(start, k) == (start + k) % (DEVFUND_PERIOD as int),
    decreases k,
{
    if k > 0 {
        lemma_counter_after(start, (k - 1) as nat);
    }
}

/// The payments among the requests in which the counter goes from 0 to `m`, round and round.
spec fn payments_up_to(m: int) -> int {
    m / 10_000 * 200 + if m % 10_000 < 200 {
        m % 10_000
    } else {
        200
    }
}

/// Payments from a start are those up to the end without those up to the start.
proof fn lemma_payments(start: int, n: nat)
    requires
        0 <= start < DEVFUND_PERIOD,
    ensures
        fund_payments(start, n) == payments_up_to(start + n) - payments_up_to(start),
    decreases n,
{
    if n > 0 {
        lemma_payments(start, (n - 1) as nat);
        lemma_counter_after(start, (n - 1) as nat);
    }
}

/// The counter goes up by one with each request and is back at 0 behind 9999; a request pays to the
/// fund exactly while the counter is below 200.
pub proof fn law_fund_counter(c: DevfundCounter, k: nat)
    requires
        c.wf(),
    ensures
        c.next < 10_000,
        c.pays_fund() <==> c.next < 200,
        counter_after(c.next as int, k) == (c.next + k) % 10_000,
{
    lemma_counter_after(c.next as int, k);
}

/// Of any 10_000 requests in a row, exactly 200 pay to the fund.
pub proof fn law_fund_share(start: int)
    requires
        0 <= start < DEVFUND_PERIOD,
    ensures
        fund_payments(start, DEVFUND_PERIOD as nat) == DEVFUND_PERCENT,
        fund_payments(start, 10_000) == 200,
{
    lemma_payments(start, 10_000);
}

} // verus!
