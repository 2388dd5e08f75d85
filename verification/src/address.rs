//! Socket addresses in text: what the library accepts as the address of a
//! peer.
//!
//! An address is an IPv4 address in dot-decimal notation, a colon and a
//! port (`192.0.2.7:9001`), or an IPv6 address in square brackets, then a
//! colon and a port (`[2001:db8::1]:9001`). An IPv6 address is written as
//! RFC 4291 section 2.2 describes: groups of hexadecimal digits between
//! colons, at most one `::` for a run of zero groups, and optionally a
//! dotted quad in place of the last two groups. It may be followed, inside
//! the brackets, by `%` and a decimal zone number. The octets of a dotted
//! quad carry no leading zeros.
//!
//! Every character of an address is ASCII, so the grammar is stated over
//! bytes. Reading proceeds from left to right and always takes the longest
//! number that stands at a position.

use crate::digits::{number_at, read_number};
use vstd::prelude::*;

verus! {

pub const DOT: u8 = 0x2e;

pub const COLON: u8 = 0x3a;

pub const PERCENT: u8 = 0x25;

pub const OPEN: u8 = 0x5b;

pub const CLOSE: u8 = 0x5d;

/// The address of a peer: where to reach it, and on which port.
#[derive(Clone, Copy, Debug, PartialEq, Eq)]
pub enum SocketAddress {
    V4 { octets: [u8; 4], port: u16 },
    V6 { segments: [u16; 8], scope_id: u32, port: u16 },
}

/// A [`SocketAddress`] as a mathematical value: four octets or eight
/// segments, in network order.
pub enum AddressView {
    V4 { octets: Seq<u8>, port: u16 },
    V6 { segments: Seq<u16>, scope_id: u32, port: u16 },
}

impl AddressView {
    /// An IPv4 address has four octets, an IPv6 address eight segments.
    pub open spec fn well_formed(self) -> bool {
        match self {
            AddressView::V4 { octets, port } => octets.len() == 4,
            AddressView::V6 { segments, scope_id, port } => segments.len() == 8,
        }
    }
}

impl View for SocketAddress {
    type V = AddressView;

    open spec fn view(&self) -> AddressView {
        match *self {
            SocketAddress::V4 { octets, port } => AddressView::V4 { octets: octets@, port },
            SocketAddress::V6 { segments, scope_id, port } => AddressView::V6 {
                segments: segments@,
                scope_id,
                port,
            },
        }
    }
}

/// Whether `byte` stands in `text` at `at`.
pub open spec fn has_byte(text: Seq<u8>, at: int, byte: u8) -> bool {
    0 <= at < text.len() && text[at] == byte
}

/// The octet that stands at `at`: a decimal number of at most three digits,
/// without leading zeros, up to 255.
pub open spec fn octet_at(text: Seq<u8>, at: int) -> Option<(nat, int)> {
    number_at(text, at, false, Some(3nat), false, 255)
}

/// An octet at `at` with a dot behind it, and the position behind the dot.
pub open spec fn octet_dot_at(text: Seq<u8>, at: int) -> Option<(nat, int)> {
    match octet_at(text, at) {
        Some((octet, end)) => if has_byte(text, end, DOT) {
            Some((octet, end + 1))
        } else {
            None
        },
        None => None,
    }
}

/// The dotted quad that stands at `at`: four octets with dots between them.
pub open spec fn ipv4_at(text: Seq<u8>, at: int) -> Option<(Seq<u8>, int)> {
    match octet_dot_at(text, at) {
        None => None,
        Some((a, after_a)) => match octet_dot_at(text, after_a) {
            None => None,
            Some((b, after_b)) => match octet_dot_at(text, after_b) {
                None => None,
                Some((c, after_c)) => match octet_at(text, after_c) {
                    None => None,
                    Some((d, end)) => Some((seq![a as u8, b as u8, c as u8, d as u8], end)),
                },
            },
        },
    }
}

/// The hexadecimal group that stands at `at`: one to four digits.
pub open spec fn group_at(text: Seq<u8>, at: int) -> Option<(nat, int)> {
    number_at(text, at, true, Some(4nat), true, 0xffff)
}

/// The segment whose upper half is `high` and whose lower half is `low`.
pub open spec fn segment_of(high: u8, low: u8) -> u16 {
    (high as int * 256 + low as int) as u16
}

/// A run of groups read from a text: the segments they stand for, the
/// position behind the last of them, and whether the run ended in a dotted
/// quad.
pub struct GroupsRead {
    pub groups: Seq<u16>,
    pub end: int,
    pub dotted: bool,
}

/// The groups that stand in `text` from `at` on, as far as they go, when
/// `read` groups of at most `limit` have been read before them.
///
/// Every group but the first of a run follows a colon. Where two or more
/// groups are still wanted, a dotted quad may stand for two groups and ends
/// the run. A colon that no group follows is not part of the run.
pub open spec fn groups_at(text: Seq<u8>, at: int, limit: nat, read: nat) -> GroupsRead
    decreases limit - read,
{
    let nothing = GroupsRead { groups: Seq::empty(), end: at, dotted: false };
    if read >= limit {
        nothing
    } else if read > 0 && !has_byte(text, at, COLON) {
        nothing
    } else {
        let start = if read > 0 {
            at + 1
        } else {
            at
        };
        let quad = ipv4_at(text, start);
        let group = group_at(text, start);
        if read + 1 < limit && quad is Some {
            let octets = quad.unwrap().0;
            GroupsRead {
                groups: seq![segment_of(octets[0], octets[1]), segment_of(octets[2], octets[3])],
                end: quad.unwrap().1,
                dotted: true,
            }
        } else if group is Some {
            let rest = groups_at(text, group.unwrap().1, limit, read + 1);
            GroupsRead {
                groups: seq![group.unwrap().0 as u16] + rest.groups,
                end: rest.end,
                dotted: rest.dotted,
            }
        } else {
            nothing
        }
    }
}

/// `count` zero segments.
pub open spec fn zero_segments(count: int) -> Seq<u16> {
    Seq::new(
        if count > 0 {
            count as nat
        } else {
            0
        },
        |i: int| 0u16,
    )
}

/// The IPv6 address that stands at `at`: its eight segments and the
/// position behind it.
///
/// Either eight groups stand there, or fewer groups, `::`, and again fewer
/// groups, seven at most in all: the `::` stands for the zero segments that
/// are missing, at least one. A dotted quad is read only where it ends the
/// address.
pub open spec fn ipv6_at(text: Seq<u8>, at: int) -> Option<(Seq<u16>, int)> {
    let head = groups_at(text, at, 8, 0);
    if head.groups.len() == 8 {
        Some((head.groups, head.end))
    } else if head.dotted {
        None
    } else if !(has_byte(text, head.end, COLON) && has_byte(text, head.end + 1, COLON)) {
        None
    } else {
        let tail = groups_at(text, head.end + 2, (7 - head.groups.len()) as nat, 0);
        Some(
            (
                head.groups + zero_segments(8 - head.groups.len() - tail.groups.len())
                    + tail.groups,
                tail.end,
            ),
        )
    }
}

/// The port that stands at `at`: a colon and a decimal number up to 65535,
/// of any number of digits.
pub open spec fn port_at(text: Seq<u8>, at: int) -> Option<(nat, int)> {
    if has_byte(text, at, COLON) {
        number_at(text, at + 1, false, None, true, 0xffff)
    } else {
        None
    }
}

/// The zone that stands at `at`: a percent sign and a decimal number that
/// fits 32 bits. Where none stands there, the zone is 0 and nothing is read.
pub open spec fn zone_at(text: Seq<u8>, at: int) -> (nat, int) {
    let number = number_at(text, at + 1, false, None, true, 0xffff_ffff);
    if has_byte(text, at, PERCENT) && number is Some {
        number.unwrap()
    } else {
        (0, at)
    }
}

/// The address that `text` is as a whole, if it is an IPv4 address and a
/// port.
pub open spec fn v4_address(text: Seq<u8>) -> Option<AddressView> {
    match ipv4_at(text, 0) {
        None => None,
        Some((octets, end)) => match port_at(text, end) {
            None => None,
            Some((port, stop)) => if stop == text.len() {
                Some(AddressView::V4 { octets, port: port as u16 })
            } else {
                None
            },
        },
    }
}

/// The address that `text` is as a whole, if it is an IPv6 address in
/// brackets and a port.
pub open spec fn v6_address(text: Seq<u8>) -> Option<AddressView> {
    if !has_byte(text, 0, OPEN) {
        None
    } else {
        match ipv6_at(text, 1) {
            None => None,
            Some((segments, end)) => {
                let (zone, closing) = zone_at(text, end);
                if !has_byte(text, closing, CLOSE) {
                    None
                } else {
                    match port_at(text, closing + 1) {
                        None => None,
                        Some((port, stop)) => if stop == text.len() {
                            Some(
                                AddressView::V6 {
                                    segments,
                                    scope_id: zone as u32,
                                    port: port as u16,
                                },
                            )
                        } else {
                            None
                        },
                    }
                }
            },
        }
    }
}

/// The address that `text` spells, if it spells one.
pub open spec fn address_of(text: Seq<u8>) -> Option<AddressView> {
    match v4_address(text) {
        Some(address) => Some(address),
        None => v6_address(text),
    }
}

/// Whether `byte` stands in `text` at `at`.
fn byte_is(text: &[u8], at: usize, byte: u8) -> (found: bool)
    ensures
        found == has_byte(text@, at as int, byte),
        found ==> at < usize::MAX,
{
    at < text.len() && text[at] == byte
}

/// Reads the octet at `at`.
fn read_octet(text: &[u8], at: usize) -> (octet: Option<(u8, usize)>)
    requires
        at <= text@.len(),
    ensures
        match octet {
            Some((value, end)) => octet_at(text@, at as int) == Some((value as nat, end as int))
                && at < end <= text@.len(),
            None => octet_at(text@, at as int) is None,
        },
{
    match read_number(text, at, false, Some(3), false, 255) {
        Some((value, end)) => Some((value as u8, end)),
        None => None,
    }
}

/// Reads the octet at `at` and the dot behind it.
fn read_octet_dot(text: &[u8], at: usize) -> (octet: Option<(u8, usize)>)
    requires
        at <= text@.len(),
    ensures
        match octet {
            Some((value, end)) => octet_dot_at(text@, at as int) == Some(
                (value as nat, end as int),
            ) && at < end <= text@.len(),
            None => octet_dot_at(text@, at as int) is None,
        },
{
    match read_octet(text, at) {
        Some((value, end)) => {
            if byte_is(text, end, DOT) {
                Some((value, end + 1))
            } else {
                None
            }
        },
        None => None,
    }
}

/// Reads the dotted quad at `at`.
fn read_ipv4(text: &[u8], at: usize) -> (quad: Option<([u8; 4], usize)>)
    requires
        at <= text@.len(),
    ensures
        match quad {
            Some((octets, end)) => ipv4_at(text@, at as int) == Some((octets@, end as int)) && at
                < end <= text@.len(),
            None => ipv4_at(text@, at as int) is None,
        },
{
    let (a, after_a) = match read_octet_dot(text, at) {
        Some(read) => read,
        None => {
            return None;
        },
    };
    let (b, after_b) = match read_octet_dot(text, after_a) {
        Some(read) => read,
        None => {
            return None;
        },
    };
    let (c, after_c) = match read_octet_dot(text, after_b) {
        Some(read) => read,
        None => {
            return None;
        },
    };
    let (d, end) = match read_octet(text, after_c) {
        Some(read) => read,
        None => {
            return None;
        },
    };
    let octets: [u8; 4] = [a, b, c, d];
    assert(octets@ =~= seq![a, b, c, d]);
    Some((octets, end))
}

/// Reads the groups that stand at `at`, `limit` at most: the segments, the
/// position behind them, and whether they ended in a dotted quad.
fn read_groups(text: &[u8], at: usize, limit: usize) -> (read: (Vec<u16>, usize, bool))
    requires
        at <= text@.len(),
        limit <= 8,
    ensures
        groups_at(text@, at as int, limit as nat, 0) == (GroupsRead {
            groups: read.0@,
            end: read.1 as int,
            dotted: read.2,
        }),
        read.0@.len() <= limit,
        at <= read.1 <= text@.len(),
{
    let ghost whole = groups_at(text@, at as int, limit as nat, 0);
    let mut groups: Vec<u16> = Vec::new();
    let mut end: usize = at;
    let mut count: usize = 0;
    assert(groups@ + whole.groups =~= whole.groups);
    while count < limit
        invariant
            limit <= 8,
            count == groups@.len(),
            count <= limit,
            at <= end <= text@.len(),
            whole == groups_at(text@, at as int, limit as nat, 0),
            whole.groups == groups@ + groups_at(text@, end as int, limit as nat, count as nat).groups,
            whole.end == groups_at(text@, end as int, limit as nat, count as nat).end,
            whole.dotted == groups_at(text@, end as int, limit as nat, count as nat).dotted,
        ensures
            count == groups@.len(),
            count <= limit,
            at <= end <= text@.len(),
            whole.groups == groups@,
            whole.end == end,
            !whole.dotted,
        decreases limit - count,
    {
        let ghost rest = groups_at(text@, end as int, limit as nat, count as nat);
        let mut start: usize = end;
        if count > 0 {
            if !byte_is(text, end, COLON) {
                assert(groups@ + rest.groups =~= groups@);
                break ;
            }
            start = end + 1;
        }
        if count + 1 < limit {
            match read_ipv4(text, start) {
                Some((octets, stop)) => {
                    let ghost before = groups@;
                    let upper: u16 = octets[0] as u16 * 256 + octets[1] as u16;
                    let lower: u16 = octets[2] as u16 * 256 + octets[3] as u16;
                    groups.push(upper);
                    groups.push(lower);
                    assert(groups@ =~= before + rest.groups);
                    return (groups, stop, true);
                },
                None => {},
            }
        }
        match read_number(text, start, true, Some(4), true, 0xffff) {
            Some((value, stop)) => {
                let ghost before = groups@;
                let ghost after = groups_at(text@, stop as int, limit as nat, (count + 1) as nat);
                groups.push(value as u16);
                assert(before + rest.groups =~= groups@ + after.groups);
                end = stop;
                count = count + 1;
            },
            None => {
                assert(groups@ + rest.groups =~= groups@);
                break ;
            },
        }
    }
    proof {
        if count >= limit {
            let rest = groups_at(text@, end as int, limit as nat, count as nat);
            assert(groups@ + rest.groups =~= groups@);
        }
    }
    (groups, end, false)
}

/// Reads the IPv6 address at `at`.
fn read_ipv6(text: &[u8], at: usize) -> (address: Option<([u16; 8], usize)>)
    requires
        at <= text@.len(),
    ensures
        match address {
            Some((segments, end)) => ipv6_at(text@, at as int) == Some((segments@, end as int))
                && at <= end <= text@.len(),
            None => ipv6_at(text@, at as int) is None,
        },
{
    let (head, end, dotted) = read_groups(text, at, 8);
    let mut segments: [u16; 8] = [0u16;8];
    if head.len() < 8 {
        if dotted {
            return None;
        }
        if !(byte_is(text, end, COLON) && byte_is(text, end + 1, COLON)) {
            return None;
        }
    }
    let mut i: usize = 0;
    while i < head.len()
        invariant
            i <= head@.len() <= 8,
            forall|j: int| 0 <= j < i ==> segments@[j] == head@[j],
            forall|j: int| i <= j < 8 ==> segments@[j] == 0,
        decreases head@.len() - i,
    {
        segments[i] = head[i];
        i = i + 1;
    }
    if head.len() == 8 {
        assert(segments@ =~= head@);
        return Some((segments, end));
    }
    let (tail, stop, _) = read_groups(text, end + 2, 7 - head.len());
    let offset: usize = 8 - tail.len();
    let mut k: usize = 0;
    while k < tail.len()
        invariant
            k <= tail@.len(),
            head@.len() + tail@.len() <= 7,
            offset == 8 - tail@.len(),
            forall|j: int| 0 <= j < head@.len() ==> segments@[j] == head@[j],
            forall|j: int| head@.len() <= j < offset + k ==> segments@[j] == if j < offset {
                0
            } else {
                tail@[j - offset]
            },
            forall|j: int| offset + k <= j < 8 ==> segments@[j] == 0,
        decreases tail@.len() - k,
    {
        segments[offset + k] = tail[k];
        k = k + 1;
    }
    assert(segments@ =~= head@ + zero_segments(8 - head@.len() - tail@.len()) + tail@);
    Some((segments, stop))
}

/// Reads the port at `at`.
fn read_port(text: &[u8], at: usize) -> (port: Option<(u16, usize)>)
    requires
        at <= text@.len(),
    ensures
        match port {
            Some((value, end)) => port_at(text@, at as int) == Some((value as nat, end as int))
                && at < end <= text@.len(),
            None => port_at(text@, at as int) is None,
        },
{
    if !byte_is(text, at, COLON) {
        return None;
    }
    match read_number(text, at + 1, false, None, true, 0xffff) {
        Some((value, end)) => Some((value as u16, end)),
        None => None,
    }
}

/// Reads the zone at `at`, if one stands there.
fn read_zone(text: &[u8], at: usize) -> (zone: (u32, usize))
    requires
        at <= text@.len(),
    ensures
        zone_at(text@, at as int) == (zone.0 as nat, zone.1 as int),
        at <= zone.1 <= text@.len(),
{
    if !byte_is(text, at, PERCENT) {
        return (0, at);
    }
    match read_number(text, at + 1, false, None, true, 0xffff_ffff) {
        Some((value, end)) => (value, end),
        None => (0, at),
    }
}

/// Reads `text` as an IPv4 address and a port.
fn read_v4_address(text: &[u8]) -> (address: Option<SocketAddress>)
    ensures
        match address {
            Some(a) => v4_address(text@) == Some(a@),
            None => v4_address(text@) is None,
        },
{
    let (octets, end) = match read_ipv4(text, 0) {
        Some(read) => read,
        None => {
            return None;
        },
    };
    match read_port(text, end) {
        Some((port, stop)) => {
            if stop == text.len() {
                Some(SocketAddress::V4 { octets, port })
            } else {
                None
            }
        },
        None => None,
    }
}

/// Reads `text` as an IPv6 address in brackets and a port.
fn read_v6_address(text: &[u8]) -> (address: Option<SocketAddress>)
    ensures
        match address {
            Some(a) => v6_address(text@) == Some(a@),
            None => v6_address(text@) is None,
        },
{
    if !byte_is(text, 0, OPEN) {
        return None;
    }
    let (segments, end) = match read_ipv6(text, 1) {
        Some(read) => read,
        None => {
            return None;
        },
    };
    let (scope_id, closing) = read_zone(text, end);
    if !byte_is(text, closing, CLOSE) {
        return None;
    }
    match read_port(text, closing + 1) {
        Some((port, stop)) => {
            if stop == text.len() {
                Some(SocketAddress::V6 { segments, scope_id, port })
            } else {
                None
            }
        },
        None => None,
    }
}

impl SocketAddress {
    /// Reads `text` as an address. The whole of `text` must be the address:
    /// nothing may stand before or behind it.
    pub fn parse(text: &[u8]) -> (address: Option<SocketAddress>)
        ensures
            match address {
                Some(a) => address_of(text@) == Some(a@),
                None => address_of(text@) is None,
            },
    {
        match read_v4_address(text) {
            Some(address) => Some(address),
            None => read_v6_address(text),
        }
    }
}

} // verus!
