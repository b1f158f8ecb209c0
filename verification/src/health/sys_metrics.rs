//! What goes over the network of the machine.

use vstd::prelude::*;

use crate::discovery::naming::has_prefix;
use crate::name_table::NameTable;
use crate::text::{chars_of, same_text, starts_with, text_of};

verus! {

/// Seconds between two samples.
pub const SAMPLE_INTERVAL_SECS: u64 = 15;

/// Seconds that count.
pub const WINDOW_SECS: u64 = 300;

/// Number of samples that count.
pub const WINDOW_BUCKETS: usize = 20;

/// Memory of the machine.
#[derive(Debug, Clone, Copy, PartialEq, Eq, Structural)]
pub struct MemSnapshot {
    pub total_bytes: u64,
    pub free_bytes: u64,
    pub available_bytes: u64,
}

impl Default for MemSnapshot {
    /// Nothing was looked at.
    fn default() -> (r: Self)
        ensures
            r == (MemSnapshot { total_bytes: 0, free_bytes: 0, available_bytes: 0 }),
    {
        MemSnapshot { total_bytes: 0, free_bytes: 0, available_bytes: 0 }
    }
}

/// Throughput of the network.
#[derive(Debug, Clone, Copy, PartialEq, Eq, Structural)]
pub struct NetSnapshot {
    pub bytes_per_sec_in: u64,
    pub bytes_per_sec_out: u64,
    pub samples: usize,
    pub window_seconds: u64,
    pub sample_interval_seconds: u64,
}

impl Default for NetSnapshot {
    /// Nothing was looked at.
    fn default() -> (r: Self)
        ensures
            r == (NetSnapshot {
                bytes_per_sec_in: 0,
                bytes_per_sec_out: 0,
                samples: 0,
                window_seconds: 0,
                sample_interval_seconds: 0,
            }),
    {
        NetSnapshot {
            bytes_per_sec_in: 0,
            bytes_per_sec_out: 0,
            samples: 0,
            window_seconds: 0,
            sample_interval_seconds: 0,
        }
    }
}

/// Throughput before the first sample.
pub fn unsampled() -> (r: NetSnapshot)
    ensures
        r == (NetSnapshot {
            bytes_per_sec_in: 0,
            bytes_per_sec_out: 0,
            samples: 0,
            window_seconds: WINDOW_SECS,
            sample_interval_seconds: SAMPLE_INTERVAL_SECS,
        }),
{
    NetSnapshot {
        bytes_per_sec_in: 0,
        bytes_per_sec_out: 0,
        samples: 0,
        window_seconds: WINDOW_SECS,
        sample_interval_seconds: SAMPLE_INTERVAL_SECS,
    }
}

/// Whether what goes over an interface stays on the machine.
pub open spec fn stays_local(name: Seq<char>) -> bool {
    ||| name == "lo"@
    ||| name == "lo0"@
    ||| has_prefix(name, "docker"@)
    ||| has_prefix(name, "br-"@)
    ||| has_prefix(name, "veth"@)
    ||| has_prefix(name, "vnet"@)
    ||| has_prefix(name, "virbr"@)
}

/// Whether a text starts with another.
fn begins(chars: &[char], prefix: &str) -> (r: bool)
    ensures
        r <==> has_prefix(chars@, prefix@),
{
    starts_with(chars, chars_of(prefix).as_slice())
}

/// Whether what goes over an interface stays on the machine.
pub fn is_loopback_or_virtual(name: &str) -> (r: bool)
    ensures
        r <==> stays_local(name@),
{
    let chars = chars_of(name);
    let s = chars.as_slice();
    same_text(name, "lo") || same_text(name, "lo0") || begins(s, "docker") || begins(s, "br-") || begins(s, "veth")
        || begins(s, "vnet") || begins(s, "virbr")
}

/// The counters of an interface.
#[derive(Debug)]
pub struct Interface {
    pub name: String,
    pub received: u64,
    pub transmitted: u64,
}

/// What is known after some interfaces were looked at: their counters, and the
/// bytes that came in and went out since the last look.
#[verifier::ext_equal]
pub struct NetState {
    pub counters: Map<Seq<char>, (u64, u64)>,
    pub bytes_in: u64,
    pub bytes_out: u64,
}

/// A sum that stays at the largest number.
pub open spec fn capped_sum(a: u64, b: u64) -> u64 {
    if a + b > u64::MAX {
        u64::MAX
    } else {
        (a + b) as u64
    }
}

/// A difference that stays at zero.
pub open spec fn gain(after: u64, before: u64) -> u64 {
    if after > before {
        (after - before) as u64
    } else {
        0
    }
}

impl NetState {
    /// What is known after one more interface. Interfaces of the machine
    /// itself do not count; one that is new only starts to.
    pub open spec fn with(self, i: Interface) -> NetState {
        if stays_local(i.name@) {
            self
        } else {
            let counters = self.counters.insert(i.name@, (i.received, i.transmitted));
            if self.counters.dom().contains(i.name@) {
                let before = self.counters[i.name@];
                NetState {
                    counters,
                    bytes_in: capped_sum(self.bytes_in, gain(i.received, before.0)),
                    bytes_out: capped_sum(self.bytes_out, gain(i.transmitted, before.1)),
                }
            } else {
                NetState { counters, ..self }
            }
        }
    }

    /// What is known after the first `n` interfaces of a list.
    pub open spec fn with_all(self, list: Seq<Interface>, n: nat) -> NetState
        decreases n,
    {
        if n == 0 {
            self
        } else {
            self.with_all(list, (n - 1) as nat).with(list[n - 1])
        }
    }
}

/// The last values of a list that count.
pub open spec fn last_window(s: Seq<(u64, u64)>) -> Seq<(u64, u64)> {
    if s.len() > WINDOW_BUCKETS {
        s.skip(s.len() - WINDOW_BUCKETS)
    } else {
        s
    }
}

/// What went over the network in the last samples.
pub struct NetSampler {
    previous: NameTable<(u64, u64)>,
    ring: Vec<(u64, u64)>,
}

impl NetSampler {
    /// The counters of the interfaces as they were seen last.
    pub closed spec fn counters(&self) -> Map<Seq<char>, (u64, u64)> {
        self.previous@
    }

    /// Bytes in and out of each sample, oldest first.
    pub closed spec fn samples(&self) -> Seq<(u64, u64)> {
        self.ring@
    }

    /// The counters are well formed, and no more samples are kept than count.
    pub closed spec fn wf(&self) -> bool {
        self.previous.wf() && self.ring@.len() <= WINDOW_BUCKETS
    }

    /// No sample was taken.
    pub fn new() -> (r: Self)
        ensures
            r.wf(),
            r.counters() == Map::<Seq<char>, (u64, u64)>::empty(),
            r.samples() == Seq::<(u64, u64)>::empty(),
    {
        NetSampler { previous: NameTable::new(), ring: Vec::new() }
    }

    /// Takes a sample.
    pub fn sample(&mut self, interfaces: &[Interface])
        requires
            old(self).wf(),
        ensures
            final(self).wf(),
            ({
                let start = NetState { counters: old(self).counters(), bytes_in: 0, bytes_out: 0 };
                let end = start.with_all(interfaces@, interfaces@.len());
                &&& final(self).counters() == end.counters
                &&& final(self).samples() == last_window(old(self).samples().push((end.bytes_in, end.bytes_out)))
            }),
    {
        let ghost start = NetState { counters: self.previous@, bytes_in: 0, bytes_out: 0 };
        let ghost before = self.ring@;
        let mut bytes_in: u64 = 0;
        let mut bytes_out: u64 = 0;
        let mut i: usize = 0;
        while i < interfaces.len()
            invariant
                self.previous.wf(),
                self.ring@ == before,
                i <= interfaces@.len(),
                (NetState { counters: self.previous@, bytes_in, bytes_out }) == start.with_all(interfaces@, i as nat),
            decreases interfaces.len() - i,
        {
            let f = &interfaces[i];
            if !is_loopback_or_virtual(f.name.as_str()) {
                let old_entry = self.previous.insert(
                    text_of(chars_of(f.name.as_str()).as_slice()),
                    (f.received, f.transmitted),
                );
                if let Some((r, t)) = old_entry {
                    bytes_in = bytes_in.saturating_add(f.received.saturating_sub(r));
                    bytes_out = bytes_out.saturating_add(f.transmitted.saturating_sub(t));
                }
            }
            i += 1;
        }
        self.ring.push((bytes_in, bytes_out));
        if self.ring.len() > WINDOW_BUCKETS {
            let _ = self.ring.remove(0);
        }
        assert(self.ring@ =~= last_window(before.push((bytes_in, bytes_out))));
    }

    /// Bytes in and out of each sample, oldest first.
    pub fn recent(&self) -> (r: &[(u64, u64)])
        requires
            self.wf(),
        ensures
            r@ == self.samples(),
            r@.len() <= WINDOW_BUCKETS,
    {
        self.ring.as_slice()
    }
}

/// Names of interfaces of the machine itself: the loopback, and those that start
/// as bridges and virtual ones do. Others count.
pub proof fn law_local_interfaces_are_known_by_name(rest: Seq<char>, name: Seq<char>)
    ensures
        stays_local("lo"@),
        stays_local("lo0"@),
        stays_local("docker"@ + rest),
        stays_local("br-"@ + rest),
        stays_local("veth"@ + rest),
        stays_local("vnet"@ + rest),
        stays_local("virbr"@ + rest),
        name.len() > 0 && name[0] != 'l' && name[0] != 'd' && name[0] != 'b' && name[0] != 'v' ==> !stays_local(name),
{
    reveal_strlit("lo");
    reveal_strlit("lo0");
    reveal_strlit("docker");
    reveal_strlit("br-");
    reveal_strlit("veth");
    reveal_strlit("vnet");
    reveal_strlit("virbr");
    assert(("docker"@ + rest).take(6) =~= "docker"@);
    assert(("br-"@ + rest).take(3) =~= "br-"@);
    assert(("veth"@ + rest).take(4) =~= "veth"@);
    assert(("vnet"@ + rest).take(4) =~= "vnet"@);
    assert(("virbr"@ + rest).take(5) =~= "virbr"@);
    if name.len() > 0 {
        assert(has_prefix(name, "docker"@) ==> name.take(6)[0] == 'd');
        assert(has_prefix(name, "br-"@) ==> name.take(3)[0] == 'b');
        assert(has_prefix(name, "veth"@) ==> name.take(4)[0] == 'v');
        assert(has_prefix(name, "vnet"@) ==> name.take(4)[0] == 'v');
        assert(has_prefix(name, "virbr"@) ==> name.take(5)[0] == 'v');
    }
}

/// An interface counts by what its counters gained since the last look: what came
/// in by the one, what went out by the other. One that is new counts nothing yet,
/// and one of the machine itself never counts.
pub proof fn law_traffic_is_what_counters_gain(s: NetState, i: Interface, other: Seq<char>)
    ensures
        ({
            let after = s.with(i);
            let known = s.counters.dom().contains(i.name@);
            let (r, t) = s.counters[i.name@];
            &&& stays_local(i.name@) ==> after == s
            &&& !stays_local(i.name@) ==> after.counters.dom().contains(i.name@) && after.counters[i.name@] == (
                i.received,
                i.transmitted,
            )
            &&& !stays_local(i.name@) && !known ==> after.bytes_in == s.bytes_in && after.bytes_out == s.bytes_out
            &&& !stays_local(i.name@) && known && i.received >= r && s.bytes_in + i.received - r <= u64::MAX
                ==> after.bytes_in == s.bytes_in + i.received - r
            &&& !stays_local(i.name@) && known && i.transmitted >= t && s.bytes_out + i.transmitted - t <= u64::MAX
                ==> after.bytes_out == s.bytes_out + i.transmitted - t
            &&& !stays_local(i.name@) && known && i.received < r ==> after.bytes_in == s.bytes_in
            &&& !stays_local(i.name@) && known && i.transmitted < t ==> after.bytes_out == s.bytes_out
            &&& other != i.name@ ==> (after.counters.dom().contains(other) <==> s.counters.dom().contains(other))
                && after.counters[other] == s.counters[other]
        }),
{
}

/// The last sample is always kept, at most 20 are, and the oldest go first.
pub proof fn law_the_last_samples_are_kept(s: Seq<(u64, u64)>, x: (u64, u64), k: int)
    requires
        s.len() <= WINDOW_BUCKETS,
        0 <= k < s.len(),
    ensures
        ({
            let after = last_window(s.push(x));
            &&& after.last() == x
            &&& after.len() <= 20
            &&& s.len() < 20 ==> after == s.push(x)
            &&& s.len() == 20 && k > 0 ==> after.len() == 20 && after[k - 1] == s[k]
        }),
{
}

} // verus!
