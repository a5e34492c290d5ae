//! Which synthesizer engine plays a given port and channel.
//!
//! A pool runs one engine per SoundFont per port; a per-channel routing
//! table picks the SoundFont, so the engine for (port, channel) is
//! `port * soundfonts + routing[channel]`.

use vstd::prelude::*;
use crate::midi::event::MAX_PORTS;

verus! {

/// Why a routing cannot be built.
#[derive(Debug, Clone, Copy, PartialEq, Eq)]
pub enum RoutingError {
    /// No SoundFont to route to.
    NoSoundFont,
    /// The first routing entry that names no SoundFont.
    OutOfRange(usize),
}

/// Index of the first routing entry at or past `from` that is not below `n`
/// (16 when there is none).
pub open spec fn first_bad_route(routing: Seq<usize>, n: usize, from: int) -> int
    decreases 16 - from,
{
    if from >= 16 {
        16
    } else if routing[from] >= n {
        from
    } else {
        first_bad_route(routing, n, from + 1)
    }
}

/// Port count used by a pool asked for `port_count` ports: clamped to `1..=MAX_PORTS`.
pub open spec fn clamped_ports(port_count: u8) -> u8 {
    if port_count < 1 {
        1
    } else if port_count > MAX_PORTS {
        MAX_PORTS
    } else {
        port_count
    }
}

/// Routing of ports and channels to engines.
#[derive(Debug)]
pub struct SynthRouting {
    port_routing: Vec<[usize; 16]>,
    engines_per_port: usize,
    port_count: u8,
}

/// Model of a [`SynthRouting`]: the engine of each (port, channel), the
/// number of SoundFonts per port and the port count.
pub struct RoutingModel {
    pub table: Seq<Seq<usize>>,
    pub engines_per_port: usize,
    pub port_count: u8,
}

impl View for SynthRouting {
    type V = RoutingModel;

    closed spec fn view(&self) -> RoutingModel {
        RoutingModel {
            table: self.port_routing@.map_values(|r: [usize; 16]| r@),
            engines_per_port: self.engines_per_port,
            port_count: self.port_count,
        }
    }
}

/// The routing built for `n` SoundFonts, table `routing` and `ports` ports:
/// port `p`, channel `c` plays on engine `p * n + routing[c]`.
pub open spec fn routing_of(m: RoutingModel, n: usize, routing: Seq<usize>, ports: u8) -> bool {
    &&& m.engines_per_port == n
    &&& m.port_count == ports
    &&& m.table.len() == ports
    &&& forall|p: int, c: int|
        0 <= p < ports && 0 <= c < 16 ==> #[trigger] m.table[p][c] == p * n + routing[c]
}

/// Engine for `port` (ports past the last use the last) and `channel` (low 4 bits).
pub open spec fn engine_for(m: RoutingModel, port: u8, channel: u8) -> usize {
    let p = if port as int >= m.table.len() {
        m.table.len() - 1
    } else {
        port as int
    };
    m.table[p][(channel & 0xF) as int]
}

/// Engines of `row` below 64, each once, in channel order of first use.
pub open spec fn distinct_engines(row: Seq<usize>, upto: int) -> Seq<usize>
    decreases upto,
{
    if upto <= 0 {
        Seq::empty()
    } else {
        let prev = distinct_engines(row, upto - 1);
        let idx = row[upto - 1];
        if idx < 64 && !prev.contains(idx) {
            prev.push(idx)
        } else {
            prev
        }
    }
}

impl SynthRouting {
    #[verifier::type_invariant]
    spec fn inv(self) -> bool {
        &&& 1 <= self.port_count <= MAX_PORTS
        &&& self.port_routing@.len() == self.port_count
        &&& self.engines_per_port >= 1
        &&& self.engines_per_port * 4 <= usize::MAX
        &&& forall|p: int, c: int|
            0 <= p < self.port_count && 0 <= c < 16 ==> #[trigger] self.port_routing@[p]@[c]
                < self.port_count * self.engines_per_port
    }

    /// Routing for `soundfonts` SoundFonts per port, the per-channel table
    /// `routing` and `port_count` ports (clamped to 1..=4). Fails without a
    /// SoundFont, and on the first routing entry that names none.
    pub fn new(soundfonts: usize, routing: [usize; 16], port_count: u8) -> (r: Result<
        SynthRouting,
        RoutingError,
    >)
        requires
            soundfonts * 4 <= usize::MAX,
        ensures
            soundfonts == 0 ==> r == Err::<SynthRouting, RoutingError>(RoutingError::NoSoundFont),
            soundfonts > 0 && first_bad_route(routing@, soundfonts, 0) < 16 ==> r == Err::<
                SynthRouting,
                RoutingError,
            >(RoutingError::OutOfRange(routing@[first_bad_route(routing@, soundfonts, 0)])),
            soundfonts > 0 && first_bad_route(routing@, soundfonts, 0) == 16 ==> (r matches Ok(
                rt,
            ) && routing_of(rt@, soundfonts, routing@, clamped_ports(port_count))),
    {
        if soundfonts == 0 {
            return Err(RoutingError::NoSoundFont);
        }
        let mut k: usize = 0;
        while k < 16
            invariant
                k <= 16,
                soundfonts > 0,
                first_bad_route(routing@, soundfonts, 0) == first_bad_route(
                    routing@,
                    soundfonts,
                    k as int,
                ),
                forall|c: int| 0 <= c < k ==> routing@[c] < soundfonts,
            decreases 16 - k,
        {
            if routing[k] >= soundfonts {
                return Err(RoutingError::OutOfRange(routing[k]));
            }
            k = k + 1;
        }
        let ports: u8 = if port_count < 1 {
            1
        } else if port_count > MAX_PORTS {
            MAX_PORTS
        } else {
            port_count
        };
        let mut port_routing: Vec<[usize; 16]> = Vec::new();
        let mut p: usize = 0;
        while p < ports as usize
            invariant
                1 <= ports <= MAX_PORTS,
                p <= ports,
                soundfonts >= 1,
                soundfonts * 4 <= usize::MAX,
                port_routing@.len() == p,
                forall|c: int| 0 <= c < 16 ==> routing@[c] < soundfonts,
                forall|q: int, c: int|
                    0 <= q < p && 0 <= c < 16 ==> #[trigger] port_routing@[q]@[c] == q * soundfonts
                        + routing@[c],
            decreases ports - p,
        {
            assert(p * soundfonts <= 3 * soundfonts) by (nonlinear_arith)
                requires
                    p <= 3,
            ;
            let base = p * soundfonts;
            let mut row = [0usize; 16];
            let mut c: usize = 0;
            while c < 16
                invariant
                    c <= 16,
                    base == p * soundfonts,
                    base <= 3 * soundfonts,
                    soundfonts * 4 <= usize::MAX,
                    row@.len() == 16,
                    forall|c: int| 0 <= c < 16 ==> routing@[c] < soundfonts,
                    forall|d: int| 0 <= d < c ==> row@[d] == base + routing@[d],
                decreases 16 - c,
            {
                row[c] = base + routing[c];
                c = c + 1;
            }
            port_routing.push(row);
            p = p + 1;
        }
        proof {
            assert forall|q: int, c: int|
                0 <= q < ports && 0 <= c < 16 implies #[trigger] port_routing@[q]@[c] < ports
                * soundfonts by {
                assert(q * soundfonts + routing@[c] < ports * soundfonts) by (nonlinear_arith)
                    requires
                        0 <= q < ports,
                        routing@[c] < soundfonts,
                ;
            }
        }
        let rt = SynthRouting { port_routing, engines_per_port: soundfonts, port_count: ports };
        proof {
            assert forall|q: int, c: int|
                0 <= q < ports && 0 <= c < 16 implies #[trigger] rt@.table[q][c] == q * soundfonts
                + routing@[c] by {
                assert(rt@.table[q] == rt.port_routing@[q]@);
            }
        }
        Ok(rt)
    }

    /// Number of ports.
    pub fn port_count(&self) -> (r: u8)
        ensures
            r == self@.port_count,
            1 <= r <= MAX_PORTS,
    {
        proof {
            use_type_invariant(self);
        }
        self.port_count
    }

    /// Number of engines: one per SoundFont per port.
    pub fn engine_count(&self) -> (r: usize)
        ensures
            r == self@.port_count * self@.engines_per_port,
    {
        proof {
            use_type_invariant(self);
        }
        let n = self.engines_per_port;
        let ports = self.port_count as usize;
        assert(ports * n <= 4 * n) by (nonlinear_arith)
            requires
                ports <= 4,
        ;
        ports * n
    }

    /// Engine that plays `channel` (low 4 bits) of `port`; ports past the
    /// last use the last port's engines.
    pub fn engine_idx(&self, port: u8, channel: u8) -> (r: usize)
        ensures
            r == engine_for(self@, port, channel),
            r < self@.port_count * self@.engines_per_port,
    {
        proof {
            use_type_invariant(self);
        }
        let last = self.port_routing.len() - 1;
        let p = if (port as usize) > last {
            last
        } else {
            port as usize
        };
        let c = (channel & 0xF) as usize;
        assert(channel & 0xF < 16) by (bit_vector);
        proof {
            assert(self@.table[p as int] == self.port_routing@[p as int]@);
        }
        self.port_routing[p][c]
    }

    /// Engines that take the mute mask of `port` (ports past the last use
    /// the last): each engine of the port once, in channel order of first
    /// use, skipping any numbered 64 or above.
    pub fn mute_targets(&self, port: u8) -> (r: Vec<usize>)
        ensures
            r@ == distinct_engines(
                self@.table[if port as int >= self@.table.len() {
                    self@.table.len() - 1
                } else {
                    port as int
                }],
                16,
            ),
            forall|i: int|
                0 <= i < r@.len() ==> #[trigger] r@[i] < self@.port_count * self@.engines_per_port,
    {
        proof {
            use_type_invariant(self);
        }
        let last = self.port_routing.len() - 1;
        let p = if (port as usize) > last {
            last
        } else {
            port as usize
        };
        let row = self.port_routing[p];
        proof {
            assert(self@.table[p as int] == row@);
            assert forall|d: int| 0 <= d < 16 implies #[trigger] row@[d] < self.port_count
                * self.engines_per_port by {
                assert(self.port_routing@[p as int]@[d] < self.port_count * self.engines_per_port);
            }
        }
        let mut seen = [false; 64];
        let mut out: Vec<usize> = Vec::new();
        let mut c: usize = 0;
        while c < 16
            invariant
                c <= 16,
                row@.len() == 16,
                out@ == distinct_engines(row@, c as int),
                seen@.len() == 64,
                forall|i: int| 0 <= i < 64 ==> (#[trigger] seen@[i] <==> out@.contains(i as usize)),
                forall|d: int| 0 <= d < 16 ==> #[trigger] row@[d] < self.port_count * self.engines_per_port,
                forall|i: int| 0 <= i < out@.len() ==> #[trigger] out@[i] < self.port_count
                    * self.engines_per_port,
            decreases 16 - c,
        {
            let idx = row[c];
            if idx < 64 && !seen[idx] {
                seen[idx] = true;
                let ghost before = out@;
                out.push(idx);
                proof {
                    assert forall|i: int| 0 <= i < 64 implies (#[trigger] seen@[i] <==> out@.contains(
                        i as usize,
                    )) by {
                        if i == idx {
                            assert(out@[out@.len() - 1] == idx);
                        } else {
                            if out@.contains(i as usize) {
                                let w = choose|w: int| 0 <= w < out@.len() && out@[w] == i as usize;
                                assert(w < before.len());
                                assert(before.contains(i as usize));
                            }
                            if before.contains(i as usize) {
                                let w = choose|w: int| 0 <= w < before.len() && before[w] == i as usize;
                                assert(out@[w] == i as usize);
                            }
                        }
                    }
                }
            }
            c = c + 1;
        }
        out
    }
}

proof fn lemma_no_bad_route(routing: Seq<usize>, n: usize, from: int)
    requires
        0 <= from <= 16,
        routing.len() == 16,
        first_bad_route(routing, n, from) == 16,
    ensures
        forall|c: int| from <= c < 16 ==> routing[c] < n,
    decreases 16 - from,
{
    if from < 16 {
        lemma_no_bad_route(routing, n, from + 1);
    }
}

/// Ports never share engines: in a routing that was built, every channel of
/// port `p` plays on one of that port's own engines, `p * n .. (p + 1) * n`.
pub proof fn lemma_ports_keep_their_engines(
    m: RoutingModel,
    n: usize,
    routing: Seq<usize>,
    ports: u8,
    p: int,
    c: int,
)
    requires
        routing.len() == 16,
        first_bad_route(routing, n, 0) == 16,
        routing_of(m, n, routing, ports),
        0 <= p < ports,
        0 <= c < 16,
    ensures
        p * n <= m.table[p][c] < (p + 1) * n,
{
    lemma_no_bad_route(routing, n, 0);
    assert(m.table[p][c] == p * n + routing[c]);
    assert((p + 1) * n == p * n + n) by (nonlinear_arith);
}

} // verus!
