//! The computable side of the multicast socket layer: the shapes of
//! received datagrams, the option block the socket is built with, and the
//! selection of interface addresses whose multicast groups get joined.
//! The system calls themselves live outside the library and hand values
//! of these types in and out.
use vstd::prelude::*;

verus! {

/// An IP address as plain bytes: four for IPv4, sixteen for IPv6.
#[derive(Debug, Clone, Copy, PartialEq, Eq)]
pub enum IfAddr {
    V4([u8; 4]),
    V6([u8; 16]),
}

/// An IPv4 socket address: the address bytes and the port.
#[derive(Debug, Clone, Copy, PartialEq, Eq)]
pub struct SocketAddressV4 {
    pub ip: [u8; 4],
    pub port: u16,
}

/// How a datagram names the interface it arrived or leaves on.
#[derive(Debug, Clone, Copy, PartialEq, Eq)]
pub enum Interface {
    Default,
    Index(i32),
    IpAddr(IfAddr),
}

/// One received datagram: its payload, where it came from if the system
/// could say, and the interface it arrived on.
#[derive(Debug, Clone)]
pub struct Message {
    pub data: Vec<u8>,
    pub origin_address: Option<SocketAddressV4>,
    pub interface: Interface,
}

/// The options a multicast socket is built with.
#[derive(Debug, Clone, Copy, PartialEq, Eq, Structural)]
pub struct MulticastOptions {
    pub read_timeout_ms: u64,
    pub buffer_size: usize,
}

impl Default for MulticastOptions {
    /// One second of read timeout and a 4096-byte receive buffer.
    fn default() -> (r: MulticastOptions)
        ensures
            r == (MulticastOptions { read_timeout_ms: 1000, buffer_size: 4096 }),
    {
        MulticastOptions { read_timeout_ms: 1000, buffer_size: 4096 }
    }
}

/// Whether an IPv4 address is a loopback address.
pub open spec fn spec_is_loopback_v4(a: [u8; 4]) -> bool {
    a@[0] == 127
}

/// The addresses with `name` in an interface listing, in listing order.
pub open spec fn addrs_of(raw: Seq<(String, IfAddr)>, name: Seq<char>) -> Seq<IfAddr>
    decreases raw.len(),
{
    if raw.len() == 0 {
        Seq::empty()
    } else {
        (if raw[0].0@ == name {
            seq![raw[0].1]
        } else {
            Seq::empty()
        }) + addrs_of(raw.drop_first(), name)
    }
}

/// The IPv4 addresses of one interface's address list that a multicast
/// group is joined on: every one that is not loopback, in order.
pub open spec fn v4_targets_row(row: Seq<IfAddr>) -> Seq<[u8; 4]>
    decreases row.len(),
{
    if row.len() == 0 {
        Seq::empty()
    } else {
        (match row[0] {
            IfAddr::V4(a) => if spec_is_loopback_v4(a) {
                Seq::empty()
            } else {
                seq![a]
            },
            IfAddr::V6(_) => Seq::empty(),
        }) + v4_targets_row(row.drop_first())
    }
}

/// The join targets of a whole grouped interface listing, row by row.
pub open spec fn v4_targets(rows: Seq<(String, Vec<IfAddr>)>) -> Seq<[u8; 4]>
    decreases rows.len(),
{
    if rows.len() == 0 {
        Seq::empty()
    } else {
        v4_targets_row(rows[0].1@) + v4_targets(rows.drop_first())
    }
}

/// Collects the addresses carrying `name` from a raw interface listing.
fn collect_addrs(raw: &Vec<(String, IfAddr)>, name: &String) -> (out: Vec<IfAddr>)
    ensures
        out@ == addrs_of(raw@, name@),
{
    let mut out: Vec<IfAddr> = Vec::new();
    let mut k: usize = 0;
    proof {
        assert(raw@.skip(0) =~= raw@);
        assert(Seq::<IfAddr>::empty() + addrs_of(raw@, name@) =~= addrs_of(raw@, name@));
    }
    while k < raw.len()
        invariant
            k <= raw@.len(),
            addrs_of(raw@, name@) == out@ + addrs_of(raw@.skip(k as int), name@),
        decreases raw@.len() - k,
    {
        proof {
            assert(raw@.skip(k as int).drop_first() =~= raw@.skip(k + 1));
            assert(raw@.skip(k as int)[0] == raw@[k as int]);
        }
        let pair = &raw[k];
        let ghost out0 = out@;
        if pair.0.eq(name) {
            out.push(pair.1);
        }
        proof {
            let rest = addrs_of(raw@.skip(k + 1), name@);
            if raw@[k as int].0@ == name@ {
                assert(out0 + (seq![raw@[k as int].1] + rest) =~= out@ + rest);
            } else {
                assert(out0 + (Seq::<IfAddr>::empty() + rest) =~= out@ + rest);
            }
        }
        k = k + 1;
    }
    proof {
        assert(out@ + addrs_of(raw@.skip(raw@.len() as int), name@) =~= out@);
    }
    out
}

/// Whether some entry of `v` reads as `name`.
fn names_contain(v: &Vec<String>, name: &String) -> (b: bool)
    ensures
        b == exists|i: int| 0 <= i < v@.len() && v@[i]@ == name@,
{
    let mut i: usize = 0;
    while i < v.len()
        invariant
            i <= v@.len(),
            forall|j: int| 0 <= j < i ==> v@[j]@ != name@,
        decreases v@.len() - i,
    {
        if v[i].eq(name) {
            return true;
        }
        i = i + 1;
    }
    false
}

/// Groups a raw interface listing, one entry per address, into one row per
/// interface name carrying all that interface's addresses, leaving out the
/// loopback interface "lo". Row order is unspecified; each row's addresses
/// keep listing order.
pub fn group_interfaces(raw: &Vec<(String, IfAddr)>) -> (out: Vec<(String, Vec<IfAddr>)>)
    ensures
        forall|i: int, j: int| 0 <= i < j < out@.len() ==> out@[i].0@ != out@[j].0@,
        forall|i: int| 0 <= i < out@.len() ==> (#[trigger] out@[i].0@) != "lo"@,
        forall|i: int| 0 <= i < out@.len() ==> out@[i].1@ == addrs_of(raw@, out@[i].0@),
        forall|k: int|
            0 <= k < raw@.len() ==> ((#[trigger] raw@[k].0@) == "lo"@ || exists|i: int|
                0 <= i < out@.len() && out@[i].0@ == raw@[k].0@),
{
    let lo: String = "lo".to_owned();
    let mut names: Vec<String> = Vec::new();
    let mut k: usize = 0;
    while k < raw.len()
        invariant
            k <= raw@.len(),
            forall|i: int, j: int| 0 <= i < j < names@.len() ==> names@[i]@ != names@[j]@,
            forall|i: int| 0 <= i < names@.len() ==> (#[trigger] names@[i]@) != "lo"@,
            forall|j: int|
                0 <= j < k ==> ((#[trigger] raw@[j].0@) == "lo"@ || exists|i: int|
                    0 <= i < names@.len() && names@[i]@ == raw@[j].0@),
            lo@ == "lo"@,
        decreases raw@.len() - k,
    {
        let pair = &raw[k];
        let ghost names0 = names@;
        let is_lo = pair.0.eq(&lo);
        let mut known = false;
        if !is_lo {
            known = names_contain(&names, &pair.0);
            if !known {
                names.push(pair.0.clone());
            }
        }
        proof {
            assert(forall|j: int| 0 <= j < names0.len() ==> names@[j] == names0[j]);
            assert forall|j: int|
                0 <= j < k + 1 && (#[trigger] raw@[j].0@) != "lo"@ implies exists|i: int|
                0 <= i < names@.len() && names@[i]@ == raw@[j].0@ by {
                if j < k {
                    let i = choose|i: int| 0 <= i < names0.len() && names0[i]@ == raw@[j].0@;
                    assert(names@[i]@ == raw@[j].0@);
                } else if known {
                    let i = choose|i: int| 0 <= i < names0.len() && names0[i]@ == raw@[k as int].0@;
                    assert(names@[i]@ == raw@[j].0@);
                } else {
                    assert(names@[names@.len() - 1]@ == raw@[j].0@);
                }
            }
        }
        k = k + 1;
    }
    let mut out: Vec<(String, Vec<IfAddr>)> = Vec::new();
    let mut n: usize = 0;
    while n < names.len()
        invariant
            n <= names@.len(),
            out@.len() == n,
            forall|i: int, j: int| 0 <= i < j < names@.len() ==> names@[i]@ != names@[j]@,
            forall|i: int| 0 <= i < names@.len() ==> (#[trigger] names@[i]@) != "lo"@,
            forall|i: int| 0 <= i < n ==> out@[i].0@ == names@[i]@,
            forall|i: int| 0 <= i < n ==> out@[i].1@ == addrs_of(raw@, out@[i].0@),
        decreases names@.len() - n,
    {
        let addrs = collect_addrs(raw, &names[n]);
        out.push((names[n].clone(), addrs));
        n = n + 1;
    }
    proof {
        assert forall|i: int, j: int| 0 <= i < j < out@.len() implies out@[i].0@ != out@[j].0@ by {
            assert(out@[i].0@ == names@[i]@ && out@[j].0@ == names@[j]@);
        }
        assert forall|i: int| 0 <= i < out@.len() implies (#[trigger] out@[i].0@) != "lo"@ by {
            assert(out@[i].0@ == names@[i]@);
        }
        assert forall|k2: int|
            0 <= k2 < raw@.len() && raw@[k2].0@ != "lo"@ implies exists|i: int|
            0 <= i < out@.len() && out@[i].0@ == raw@[k2].0@ by {
            let i = choose|i: int| 0 <= i < names@.len() && names@[i]@ == raw@[k2].0@;
            assert(out@[i].0@ == raw@[k2].0@);
        }
    }
    out
}

/// The IPv4 addresses a freshly built socket joins its multicast group on:
/// every address of every listed interface that is IPv4 and not loopback.
pub fn multicast_join_targets(interfaces: &Vec<(String, Vec<IfAddr>)>) -> (out: Vec<[u8; 4]>)
    ensures
        out@ == v4_targets(interfaces@),
{
    let mut out: Vec<[u8; 4]> = Vec::new();
    let mut r: usize = 0;
    proof {
        assert(interfaces@.skip(0) =~= interfaces@);
        assert(Seq::<[u8; 4]>::empty() + v4_targets(interfaces@) =~= v4_targets(interfaces@));
    }
    while r < interfaces.len()
        invariant
            r <= interfaces@.len(),
            v4_targets(interfaces@) == out@ + v4_targets(interfaces@.skip(r as int)),
        decreases interfaces@.len() - r,
    {
        proof {
            assert(interfaces@.skip(r as int).drop_first() =~= interfaces@.skip(r + 1));
            assert(interfaces@.skip(r as int)[0] == interfaces@[r as int]);
        }
        let row = &interfaces[r].1;
        let ghost tail = v4_targets(interfaces@.skip(r + 1));
        let mut j: usize = 0;
        proof {
            assert(row@.skip(0) =~= row@);
            assert(out@ + (v4_targets_row(row@) + tail) =~= (out@ + v4_targets_row(row@)) + tail);
        }
        while j < row.len()
            invariant
                j <= row@.len(),
                v4_targets(interfaces@) == (out@ + v4_targets_row(row@.skip(j as int))) + tail,
            decreases row@.len() - j,
        {
            proof {
                assert(row@.skip(j as int).drop_first() =~= row@.skip(j + 1));
                assert(row@.skip(j as int)[0] == row@[j as int]);
            }
            let ghost out0 = out@;
            match &row[j] {
                IfAddr::V4(a) => {
                    if !(a[0] == 127) {
                        out.push(*a);
                    }
                },
                IfAddr::V6(_) => {},
            }
            proof {
                let next = v4_targets_row(row@.skip(j + 1));
                match row@[j as int] {
                    IfAddr::V4(a) => {
                        if spec_is_loopback_v4(a) {
                            assert((out0 + (Seq::<[u8; 4]>::empty() + next)) + tail =~= (out@
                                + next) + tail);
                        } else {
                            assert((out0 + (seq![a] + next)) + tail =~= (out@ + next) + tail);
                        }
                    },
                    IfAddr::V6(_) => {
                        assert((out0 + (Seq::<[u8; 4]>::empty() + next)) + tail =~= (out@ + next)
                            + tail);
                    },
                }
            }
            j = j + 1;
        }
        proof {
            assert(row@.skip(row@.len() as int) =~= Seq::<IfAddr>::empty());
            assert((out@ + v4_targets_row(Seq::<IfAddr>::empty())) + tail =~= out@ + tail);
        }
        r = r + 1;
    }
    proof {
        assert(interfaces@.skip(interfaces@.len() as int) =~= Seq::<(String, Vec<IfAddr>)>::empty());
        assert(out@ + v4_targets(Seq::<(String, Vec<IfAddr>)>::empty()) =~= out@);
    }
    out
}

} // verus!
