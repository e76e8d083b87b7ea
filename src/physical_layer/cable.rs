//! A simulated point-to-point link between two endpoints: it corrupts what it
//! carries and paces it bit by bit after a fixed latency.
use crate::bit::Bit;
use crate::bit_string::BitString;
use crate::corruption_type::Corruption;
use crate::mac_address::MacAddress;
use core::time::Duration;
use vstd::prelude::*;

verus! {

/// One unit on the wire: a bit and the ports it travels between.
#[derive(Debug, PartialEq, Eq, Clone, Copy, Structural)]
pub struct CableContext {
    pub bit: Bit,
    pub source_port: u16,
    pub target_port: u16,
}

/// One of the two ends of a cable.
#[derive(Debug, PartialEq, Eq, Clone, Copy, Structural)]
pub enum CableEnd {
    Node1,
    Node2,
}

/// Why a cable refused to carry data.
#[derive(Debug, PartialEq, Eq, Clone, Copy, Structural)]
pub enum CableError {
    /// The sender is neither end of the cable.
    NotConnected,
}

/// What a send puts on the wire: wait `latency`, then deliver `units` in order to
/// `destination`, waiting `time_between_bits` nanoseconds after each.
pub struct Transmission {
    pub destination: CableEnd,
    pub latency: Duration,
    pub time_between_bits: u64,
    pub units: Vec<CableContext>,
}

/// A link between two endpoints, known by their addresses.
pub struct Cable {
    node1_mac: MacAddress,
    node2_mac: MacAddress,
    latency: Duration,
    corruption_type: Corruption,
    time_between_bits: u64,
}

/// The pause between two bits, in nanoseconds, for a throughput of
/// `throughput_ms` octets per millisecond.
pub open spec fn bit_spacing(throughput_ms: u32) -> u64 {
    ((1_000_000int / (throughput_ms as int)) / 8) as u64
}

/// The units that carry `bits` between two ports.
pub open spec fn units_of(bits: Seq<Bit>, source_port: u16, target_port: u16) -> Seq<
    CableContext,
> {
    Seq::new(
        bits.len(),
        |i: int| CableContext { bit: bits[i], source_port, target_port },
    )
}

impl Cable {
    pub closed spec fn node1(&self) -> Seq<u8> {
        self.node1_mac@
    }

    pub closed spec fn node2(&self) -> Seq<u8> {
        self.node2_mac@
    }

    pub closed spec fn latency_spec(&self) -> Duration {
        self.latency
    }

    pub closed spec fn spacing(&self) -> u64 {
        self.time_between_bits
    }

    pub closed spec fn corruption(&self) -> Corruption {
        self.corruption_type
    }

    /// The cable's strategy has a valid chance.
    pub open spec fn wf(&self) -> bool {
        self.corruption().valid()
    }

    /// A cable between the endpoints with these addresses, carrying `throughput_ms`
    /// octets per millisecond.
    pub fn new(
        node1_mac: MacAddress,
        node2_mac: MacAddress,
        latency: Duration,
        corruption_type: Corruption,
        throughput_ms: u32,
    ) -> (r: Cable)
        requires
            throughput_ms > 0,
            corruption_type.valid(),
        ensures
            r.wf(),
            r.node1() == node1_mac@,
            r.node2() == node2_mac@,
            r.latency_spec() == latency,
            r.corruption() == corruption_type,
            r.spacing() == bit_spacing(throughput_ms),
    {
        let time_between_bytes: u64 = 1_000_000 / throughput_ms as u64;
        let time_between_bits = time_between_bytes / 8;
        Cable { node1_mac, node2_mac, latency, corruption_type, time_between_bits }
    }

    /// The pause between two bits, in nanoseconds.
    pub fn time_between_bits(&self) -> (r: u64)
        ensures
            r == self.spacing(),
    {
        self.time_between_bits
    }

    /// The latency of the cable.
    pub fn latency(&self) -> (r: Duration)
        ensures
            r == self.latency_spec(),
    {
        self.latency
    }

    /// Sends `data` from the endpoint with address `source_mac`: the other end
    /// receives the corrupted data, one unit per bit. A sender that is neither end
    /// is refused, and nothing is corrupted or delivered.
    pub fn send_bits(
        &mut self,
        source_mac: MacAddress,
        source_port: u16,
        target_port: u16,
        data: BitString,
    ) -> (r: Result<Transmission, CableError>)
        requires
            old(self).wf(),
            data@.len() > 0,
        ensures
            final(self).wf(),
            final(self).node1() == old(self).node1(),
            final(self).node2() == old(self).node2(),
            final(self).latency_spec() == old(self).latency_spec(),
            final(self).spacing() == old(self).spacing(),
            r.is_err() == (source_mac@ != old(self).node1() && source_mac@ != old(self).node2()),
            r.is_err() ==> r == Err::<Transmission, CableError>(CableError::NotConnected)
                && final(self).corruption() == old(self).corruption(),
            r.is_ok() ==> {
                let t = r.unwrap();
                &&& t.destination == if source_mac@ == old(self).node1() {
                    CableEnd::Node2
                } else {
                    CableEnd::Node1
                }
                &&& t.latency == old(self).latency_spec()
                &&& t.time_between_bits == old(self).spacing()
                &&& t.units@ == units_of(
                    old(self).corruption().outcome(data@),
                    source_port,
                    target_port,
                )
                &&& final(self).corruption().same_kind(&old(self).corruption())
                &&& final(self).corruption().rng() == old(self).corruption().next_rng(data@)
            },
    {
        let destination = if self.node1_mac == source_mac {
            CableEnd::Node2
        } else if self.node2_mac == source_mac {
            CableEnd::Node1
        } else {
            return Err(CableError::NotConnected);
        };
        let corrupted = self.corruption_type.corrupt_borrow(data);
        let mut units: Vec<CableContext> = Vec::new();
        let mut i: usize = 0;
        while i < corrupted.len()
            invariant
                i <= corrupted@.len(),
                units@ == units_of(corrupted@.subrange(0, i as int), source_port, target_port),
            decreases corrupted@.len() - i,
        {
            units.push(CableContext { bit: *corrupted.get_bit(i), source_port, target_port });
            i += 1;
            assert(units@ =~= units_of(
                corrupted@.subrange(0, i as int),
                source_port,
                target_port,
            ));
        }
        assert(corrupted@.subrange(0, corrupted@.len() as int) =~= corrupted@);
        proof {
            lemma_valid_kept(*old(self), *self);
        }
        Ok(
            Transmission {
                destination,
                latency: self.latency,
                time_between_bits: self.time_between_bits,
                units,
            },
        )
    }
}

proof fn lemma_valid_kept(a: Cable, b: Cable)
    requires
        a.wf(),
        b.corruption().same_kind(&a.corruption()),
    ensures
        b.wf(),
{
}

} // verus!
