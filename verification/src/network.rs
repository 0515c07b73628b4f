use vstd::prelude::*;

verus! {

/// The counters of one network interface at a refresh.
#[derive(Debug, Clone, Copy)]
pub struct InterfaceTraffic {
    /// Bytes received since the previous refresh.
    pub received: u64,
    /// Bytes sent since the previous refresh.
    pub transmitted: u64,
    /// Bytes received since the interface came up.
    pub total_received: u64,
    /// Bytes sent since the interface came up.
    pub total_transmitted: u64,
}

/// Traffic of one refresh, summed over all interfaces.
#[derive(Debug, Clone, Copy)]
pub struct NetworkStats {
    /// Bytes received per tick.
    pub rx_speed: u64,
    /// Bytes sent per tick.
    pub tx_speed: u64,
}

/// The sum of a sequence of counters.
pub open spec fn sum(s: Seq<u64>) -> nat
    decreases s.len(),
{
    if s.len() == 0 {
        0
    } else {
        sum(s.drop_last()) + (s.last() as nat)
    }
}

pub open spec fn received(s: Seq<InterfaceTraffic>) -> Seq<u64> {
    s.map_values(|t: InterfaceTraffic| t.received)
}

pub open spec fn transmitted(s: Seq<InterfaceTraffic>) -> Seq<u64> {
    s.map_values(|t: InterfaceTraffic| t.transmitted)
}

pub open spec fn total_received(s: Seq<InterfaceTraffic>) -> Seq<u64> {
    s.map_values(|t: InterfaceTraffic| t.total_received)
}

pub open spec fn total_transmitted(s: Seq<InterfaceTraffic>) -> Seq<u64> {
    s.map_values(|t: InterfaceTraffic| t.total_transmitted)
}

/// Every counter adds to the sum: the sum of nothing is zero, appending a
/// counter adds it, and the sum of two runs of counters is the sum of their
/// sums.
pub proof fn lemma_sum_adds_each(s: Seq<u64>, x: u64, t: Seq<u64>)
    ensures
        sum(Seq::<u64>::empty()) == 0,
        sum(s.push(x)) == sum(s) + x,
        sum(s + t) == sum(s) + sum(t),
        forall|i: int| 0 <= i < s.len() ==> #[trigger] s[i] <= sum(s),
    decreases t.len(),
{
    assert(s.push(x).drop_last() =~= s);
    if t.len() > 0 {
        lemma_sum_adds_each(s, x, t.drop_last());
        assert((s + t).drop_last() =~= s + t.drop_last());
    } else {
        assert(s + t =~= s);
    }
    lemma_sum_bounds_each(s);
}

proof fn lemma_sum_bounds_each(s: Seq<u64>)
    ensures
        forall|i: int| 0 <= i < s.len() ==> #[trigger] s[i] <= sum(s),
    decreases s.len(),
{
    if s.len() > 0 {
        lemma_sum_bounds_each(s.drop_last());
        assert forall|i: int| 0 <= i < s.len() implies #[trigger] s[i] <= sum(s) by {
            if i < s.len() - 1 {
                assert(s.drop_last()[i] == s[i]);
            }
        }
    }
}

/// The sum of `values`, which must fit in a `u64`.
fn sum_counters(values: &Vec<u64>) -> (r: u64)
    requires
        sum(values@) <= u64::MAX,
    ensures
        r == sum(values@),
{
    let mut acc: u64 = 0;
    let mut i: usize = 0;
    while i < values.len()
        invariant
            i <= values.len(),
            sum(values@) <= u64::MAX,
            acc == sum(values@.take(i as int)),
        decreases values.len() - i,
    {
        proof {
            lemma_sum_prefix_bounded(values@, i as int + 1);
            assert(values@.take(i + 1).drop_last() =~= values@.take(i as int));
        }
        acc = acc + values[i];
        i = i + 1;
    }
    assert(values@.take(values.len() as int) =~= values@);
    acc
}

/// A prefix never sums to more than the whole sequence.
proof fn lemma_sum_prefix_bounded(s: Seq<u64>, n: int)
    requires
        0 <= n <= s.len(),
    ensures
        sum(s.take(n)) <= sum(s),
    decreases s.len(),
{
    if n < s.len() {
        assert(s.drop_last().take(n) =~= s.take(n));
        lemma_sum_prefix_bounded(s.drop_last(), n);
    } else {
        assert(s.take(n) =~= s);
    }
}

/// One counter of each interface.
fn column(interfaces: &Vec<InterfaceTraffic>, which: u8) -> (r: Vec<u64>)
    requires
        which < 4,
    ensures
        which == 0 ==> r@ == received(interfaces@),
        which == 1 ==> r@ == transmitted(interfaces@),
        which == 2 ==> r@ == total_received(interfaces@),
        which == 3 ==> r@ == total_transmitted(interfaces@),
{
    let mut r: Vec<u64> = Vec::new();
    let mut i: usize = 0;
    while i < interfaces.len()
        invariant
            i <= interfaces.len(),
            which < 4,
            r.len() == i,
            forall|j: int| 0 <= j < i ==> #[trigger] r@[j] == (if which == 0 {
                interfaces@[j].received
            } else if which == 1 {
                interfaces@[j].transmitted
            } else if which == 2 {
                interfaces@[j].total_received
            } else {
                interfaces@[j].total_transmitted
            }),
        decreases interfaces.len() - i,
    {
        let t = interfaces[i];
        let v = if which == 0 {
            t.received
        } else if which == 1 {
            t.transmitted
        } else if which == 2 {
            t.total_received
        } else {
            t.total_transmitted
        };
        r.push(v);
        i = i + 1;
    }
    proof {
        if which == 0 {
            assert(r@ =~= received(interfaces@));
        } else if which == 1 {
            assert(r@ =~= transmitted(interfaces@));
        } else if which == 2 {
            assert(r@ =~= total_received(interfaces@));
        } else {
            assert(r@ =~= total_transmitted(interfaces@));
        }
    }
    r
}

/// Running byte counts over all interfaces.
pub struct NetworkMonitor {
    last_rx: u64,
    last_tx: u64,
}

impl NetworkMonitor {
    /// Bytes received so far.
    pub closed spec fn received_total(&self) -> nat {
        self.last_rx as nat
    }

    /// Bytes sent so far.
    pub closed spec fn transmitted_total(&self) -> nat {
        self.last_tx as nat
    }

    /// Starts from the lifetime counters of `interfaces`.
    pub fn new(interfaces: &Vec<InterfaceTraffic>) -> (r: Self)
        requires
            sum(total_received(interfaces@)) <= u64::MAX,
            sum(total_transmitted(interfaces@)) <= u64::MAX,
        ensures
            r.received_total() == sum(total_received(interfaces@)),
            r.transmitted_total() == sum(total_transmitted(interfaces@)),
    {
        let (last_rx, last_tx) = Self::calculate_totals(interfaces);
        NetworkMonitor { last_rx, last_tx }
    }

    /// Sums this refresh's traffic over `interfaces` and adds it to the
    /// running counts.
    pub fn refresh(&mut self, interfaces: &Vec<InterfaceTraffic>) -> (r: NetworkStats)
        requires
            old(self).received_total() + sum(received(interfaces@)) <= u64::MAX,
            old(self).transmitted_total() + sum(transmitted(interfaces@)) <= u64::MAX,
        ensures
            r.rx_speed == sum(received(interfaces@)),
            r.tx_speed == sum(transmitted(interfaces@)),
            final(self).received_total() == old(self).received_total() + r.rx_speed,
            final(self).transmitted_total() == old(self).transmitted_total() + r.tx_speed,
    {
        let rx_speed = sum_counters(&column(interfaces, 0));
        let tx_speed = sum_counters(&column(interfaces, 1));
        self.last_rx = self.last_rx + rx_speed;
        self.last_tx = self.last_tx + tx_speed;
        NetworkStats { rx_speed, tx_speed }
    }

    /// Bytes received so far.
    pub fn total_rx(&self) -> (r: u64)
        ensures
            r == self.received_total(),
    {
        self.last_rx
    }

    /// Bytes sent so far.
    pub fn total_tx(&self) -> (r: u64)
        ensures
            r == self.transmitted_total(),
    {
        self.last_tx
    }

    /// The lifetime received and sent bytes summed over `interfaces`.
    fn calculate_totals(interfaces: &Vec<InterfaceTraffic>) -> (r: (u64, u64))
        requires
            sum(total_received(interfaces@)) <= u64::MAX,
            sum(total_transmitted(interfaces@)) <= u64::MAX,
        ensures
            r.0 == sum(total_received(interfaces@)),
            r.1 == sum(total_transmitted(interfaces@)),
    {
        let rx = sum_counters(&column(interfaces, 2));
        let tx = sum_counters(&column(interfaces, 3));
        (rx, tx)
    }
}

} // verus!
