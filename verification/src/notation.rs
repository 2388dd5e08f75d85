//! The one text under which the library keeps an address.
//!
//! An IPv4 address is written in dot-decimal notation. An IPv6 address is
//! written as RFC 5952 recommends: lower-case hexadecimal groups without
//! leading zeros, with `::` in place of the first of the longest runs of two
//! or more zero groups, and with a dotted quad at the end of an address
//! that maps an IPv4 address (`::ffff:192.0.2.7`). A zone other than 0
//! follows the IPv6 address behind `%`, and the port follows everything
//! else behind a colon.

use crate::address::{AddressView, SocketAddress, CLOSE, COLON, DOT, OPEN, PERCENT};
use crate::digits::{numeral, push_numeral, radix_of};
use vstd::prelude::*;

verus! {

/// Whether every byte of `text` is an ASCII character.
pub open spec fn all_ascii(text: Seq<u8>) -> bool {
    forall|i: int| 0 <= i < text.len() ==> text[i] < 0x80
}

/// Four octets in dot-decimal notation.
pub open spec fn dotted_quad(octets: Seq<u8>) -> Seq<u8> {
    numeral(octets[0] as nat, false) + seq![DOT] + numeral(octets[1] as nat, false) + seq![DOT]
        + numeral(octets[2] as nat, false) + seq![DOT] + numeral(octets[3] as nat, false)
}

/// The numerals of `groups` with colons between them.
pub open spec fn groups_text(groups: Seq<u16>) -> Seq<u8>
    decreases groups.len(),
{
    if groups.len() == 0 {
        Seq::empty()
    } else if groups.len() == 1 {
        numeral(groups[0] as nat, true)
    } else {
        groups_text(groups.drop_last()) + seq![COLON] + numeral(groups.last() as nat, true)
    }
}

/// Whether the `len` segments from `start` on are all zero.
pub open spec fn is_zero_run(segments: Seq<u16>, start: int, len: int) -> bool {
    &&& 0 <= start
    &&& 0 <= len
    &&& start + len <= segments.len()
    &&& forall|i: int| start <= i < start + len ==> segments[i] == 0
}

/// Whether the `len` segments from `start` on are the first of the longest
/// runs of zero segments.
pub open spec fn is_widest_zero_run(segments: Seq<u16>, start: int, len: int) -> bool {
    &&& is_zero_run(segments, start, len)
    &&& forall|s: int, l: int| #[trigger]
        is_zero_run(segments, s, l) ==> l < len || (l == len && start <= s)
}

/// Whether `segments` map an IPv4 address: `::ffff:a.b.c.d`.
pub open spec fn is_mapped(segments: Seq<u16>) -> bool {
    &&& segments[0] == 0
    &&& segments[1] == 0
    &&& segments[2] == 0
    &&& segments[3] == 0
    &&& segments[4] == 0
    &&& segments[5] == 0xffff
}

/// The octets of the last two of eight segments.
pub open spec fn mapped_octets(segments: Seq<u16>) -> Seq<u8> {
    seq![
        (segments[6] / 256) as u8,
        (segments[6] % 256) as u8,
        (segments[7] / 256) as u8,
        (segments[7] % 256) as u8,
    ]
}

/// `::ffff:`
pub open spec fn mapped_prefix() -> Seq<u8> {
    seq![COLON, COLON, 0x66u8, 0x66u8, 0x66u8, 0x66u8, COLON]
}

/// The eight segments of an IPv6 address as text.
pub open spec fn ipv6_text(segments: Seq<u16>) -> Seq<u8> {
    if is_mapped(segments) {
        mapped_prefix() + dotted_quad(mapped_octets(segments))
    } else if exists|start: int, len: int|
        is_widest_zero_run(segments, start, len) && len > 1 {
        let (start, len) = choose|start: int, len: int|
            is_widest_zero_run(segments, start, len) && len > 1;
        groups_text(segments.take(start)) + seq![COLON, COLON] + groups_text(
            segments.skip(start + len),
        )
    } else {
        groups_text(segments)
    }
}

/// The zone as it follows an IPv6 address: nothing for zone 0.
pub open spec fn zone_text(scope_id: u32) -> Seq<u8> {
    if scope_id == 0 {
        Seq::empty()
    } else {
        seq![PERCENT] + numeral(scope_id as nat, false)
    }
}

/// An address as text.
pub open spec fn address_text(address: AddressView) -> Seq<u8> {
    match address {
        AddressView::V4 { octets, port } => dotted_quad(octets) + seq![COLON] + numeral(
            port as nat,
            false,
        ),
        AddressView::V6 { segments, scope_id, port } => seq![OPEN] + ipv6_text(segments)
            + zone_text(scope_id) + seq![CLOSE, COLON] + numeral(port as nat, false),
    }
}

proof fn lemma_numeral_ascii(value: nat, hex: bool)
    ensures
        all_ascii(numeral(value, hex)),
    decreases value,
{
    if value >= radix_of(hex) {
        lemma_numeral_ascii(value / radix_of(hex), hex);
    }
}

proof fn lemma_quad_ascii(octets: Seq<u8>)
    ensures
        all_ascii(dotted_quad(octets)),
{
    lemma_numeral_ascii(octets[0] as nat, false);
    lemma_numeral_ascii(octets[1] as nat, false);
    lemma_numeral_ascii(octets[2] as nat, false);
    lemma_numeral_ascii(octets[3] as nat, false);
}

proof fn lemma_groups_ascii(groups: Seq<u16>)
    ensures
        all_ascii(groups_text(groups)),
    decreases groups.len(),
{
    if groups.len() == 1 {
        lemma_numeral_ascii(groups[0] as nat, true);
    } else if groups.len() > 1 {
        lemma_groups_ascii(groups.drop_last());
        lemma_numeral_ascii(groups.last() as nat, true);
    }
}

proof fn lemma_ipv6_ascii(segments: Seq<u16>)
    ensures
        all_ascii(ipv6_text(segments)),
{
    if is_mapped(segments) {
        lemma_quad_ascii(mapped_octets(segments));
    } else if exists|start: int, len: int| is_widest_zero_run(segments, start, len) && len > 1 {
        let (start, len) = choose|start: int, len: int|
            is_widest_zero_run(segments, start, len) && len > 1;
        lemma_groups_ascii(segments.take(start));
        lemma_groups_ascii(segments.skip(start + len));
    } else {
        lemma_groups_ascii(segments);
    }
}

/// The text of an address is ASCII throughout.
pub proof fn lemma_address_text_ascii(address: AddressView)
    ensures
        all_ascii(address_text(address)),
{
    match address {
        AddressView::V4 { octets, port } => {
            lemma_quad_ascii(octets);
            lemma_numeral_ascii(port as nat, false);
        },
        AddressView::V6 { segments, scope_id, port } => {
            lemma_ipv6_ascii(segments);
            lemma_numeral_ascii(scope_id as nat, false);
            lemma_numeral_ascii(port as nat, false);
        },
    }
}

/// Appends the numeral of `value` to `out`.
fn write_numeral(out: &mut Vec<u8>, value: u32, hex: bool)
    requires
        all_ascii(old(out)@),
    ensures
        final(out)@ == old(out)@ + numeral(value as nat, hex),
        all_ascii(final(out)@),
{
    proof {
        lemma_numeral_ascii(value as nat, hex);
    }
    push_numeral(out, value, hex);
}

/// Appends `byte` to `out`.
fn write_byte(out: &mut Vec<u8>, byte: u8)
    requires
        all_ascii(old(out)@),
        byte < 0x80,
    ensures
        final(out)@ == old(out)@ + seq![byte],
        all_ascii(final(out)@),
{
    out.push(byte);
    assert(out@ =~= old(out)@ + seq![byte]);
}

/// Appends `octets` in dot-decimal notation to `out`.
fn write_dotted_quad(out: &mut Vec<u8>, octets: &[u8; 4])
    requires
        all_ascii(old(out)@),
    ensures
        final(out)@ == old(out)@ + dotted_quad(octets@),
        all_ascii(final(out)@),
{
    write_numeral(out, octets[0] as u32, false);
    write_byte(out, DOT);
    write_numeral(out, octets[1] as u32, false);
    write_byte(out, DOT);
    write_numeral(out, octets[2] as u32, false);
    write_byte(out, DOT);
    write_numeral(out, octets[3] as u32, false);
    assert(out@ =~= old(out)@ + dotted_quad(octets@));
}

/// Appends the groups `segments[from..to]` to `out`, with colons between
/// them.
fn write_groups(out: &mut Vec<u8>, segments: &[u16; 8], from: usize, to: usize)
    requires
        all_ascii(old(out)@),
        from <= to <= 8,
    ensures
        final(out)@ == old(out)@ + groups_text(segments@.subrange(from as int, to as int)),
        all_ascii(final(out)@),
{
    let mut i: usize = from;
    assert(segments@.subrange(from as int, from as int) =~= Seq::<u16>::empty());
    assert(out@ =~= old(out)@ + Seq::<u8>::empty());
    while i < to
        invariant
            from <= i <= to <= 8,
            out@ == old(out)@ + groups_text(segments@.subrange(from as int, i as int)),
            all_ascii(out@),
        decreases to - i,
    {
        let ghost done = segments@.subrange(from as int, i as int);
        let ghost more = segments@.subrange(from as int, i as int + 1);
        let ghost before = out@;
        assert(more.drop_last() =~= done);
        if i > from {
            write_byte(out, COLON);
        }
        write_numeral(out, segments[i] as u32, true);
        assert(out@ =~= old(out)@ + groups_text(more));
        i = i + 1;
    }
}

/// Finds the first of the longest runs of zero segments: its start and its
/// length, which is 0 where no segment is zero.
fn widest_zero_run(segments: &[u16; 8]) -> (run: (usize, usize))
    ensures
        is_widest_zero_run(segments@, run.0 as int, run.1 as int),
        run.0 + run.1 <= 8,
{
    let mut best_start: usize = 0;
    let mut best_len: usize = 0;
    let mut run_len: usize = 0;
    let mut i: usize = 0;
    while i < 8
        invariant
            i <= 8,
            run_len <= i,
            is_zero_run(segments@, best_start as int, best_len as int),
            best_start + best_len <= i,
            best_start <= i - run_len,
            best_len == 0 ==> best_start == 0,
            is_zero_run(segments@, i - run_len, run_len as int),
            i - run_len == 0 || segments@[i - run_len - 1] != 0,
            run_len <= best_len,
            forall|s: int, l: int| #[trigger]
                is_zero_run(segments@, s, l) && s + l <= i ==> l < best_len || (l == best_len
                    && best_start <= s),
        decreases 8 - i,
    {
        let ghost old_best_len = best_len;
        let ghost old_run_start = i - run_len;
        if segments[i] == 0 {
            run_len = run_len + 1;
            if run_len > best_len {
                best_start = i + 1 - run_len;
                best_len = run_len;
            }
        } else {
            run_len = 0;
        }
        i = i + 1;
        assert forall|s: int, l: int| #[trigger]
            is_zero_run(segments@, s, l) && s + l <= i implies l < best_len || (l == best_len
            && best_start <= s) by {
            if s + l <= i - 1 {
                assert(is_zero_run(segments@, s, l) && s + l <= i - 1);
            } else if l > 0 {
                assert(segments@[i - 1] == 0);
                if s < old_run_start {
                    assert(segments@[old_run_start - 1] == 0);
                }
            } else {
                assert(is_zero_run(segments@, 0, 0));
            }
        }
    }
    (best_start, best_len)
}

proof fn lemma_widest_is_unique(segments: Seq<u16>, start: int, len: int, s: int, l: int)
    requires
        is_widest_zero_run(segments, start, len),
        is_widest_zero_run(segments, s, l),
    ensures
        start == s,
        len == l,
{
}

/// Appends the text of the IPv6 address `segments` to `out`.
fn write_ipv6(out: &mut Vec<u8>, segments: &[u16; 8])
    requires
        all_ascii(old(out)@),
    ensures
        final(out)@ == old(out)@ + ipv6_text(segments@),
        all_ascii(final(out)@),
{
    if segments[0] == 0 && segments[1] == 0 && segments[2] == 0 && segments[3] == 0 && segments[4]
        == 0 && segments[5] == 0xffff {
        let octets: [u8; 4] = [
            (segments[6] / 256) as u8,
            (segments[6] % 256) as u8,
            (segments[7] / 256) as u8,
            (segments[7] % 256) as u8,
        ];
        assert(octets@ =~= mapped_octets(segments@));
        write_byte(out, COLON);
        write_byte(out, COLON);
        write_byte(out, 0x66);
        write_byte(out, 0x66);
        write_byte(out, 0x66);
        write_byte(out, 0x66);
        write_byte(out, COLON);
        write_dotted_quad(out, &octets);
        assert(out@ =~= old(out)@ + (mapped_prefix() + dotted_quad(mapped_octets(segments@))));
        return ;
    }
    let (start, len) = widest_zero_run(segments);
    if len > 1 {
        proof {
            let (s, l) = choose|s: int, l: int| is_widest_zero_run(segments@, s, l) && l > 1;
            lemma_widest_is_unique(segments@, start as int, len as int, s, l);
            assert(segments@.take(start as int) =~= segments@.subrange(0, start as int));
            assert(segments@.skip(start + len) =~= segments@.subrange(start + len, 8));
        }
        write_groups(out, segments, 0, start);
        write_byte(out, COLON);
        write_byte(out, COLON);
        write_groups(out, segments, start + len, 8);
        assert(out@ =~= old(out)@ + (groups_text(segments@.take(start as int)) + seq![
            COLON,
            COLON,
        ] + groups_text(segments@.skip(start + len))));
    } else {
        proof {
            assert forall|s: int, l: int| !(is_widest_zero_run(segments@, s, l) && l > 1) by {
                if is_widest_zero_run(segments@, s, l) {
                    lemma_widest_is_unique(segments@, start as int, len as int, s, l);
                }
            }
            assert(segments@.subrange(0, 8) =~= segments@);
        }
        write_groups(out, segments, 0, 8);
    }
}

impl SocketAddress {
    /// The address as text, byte for byte.
    pub fn to_bytes(&self) -> (text: Vec<u8>)
        ensures
            text@ == address_text(self@),
            all_ascii(text@),
    {
        let mut out: Vec<u8> = Vec::new();
        match self {
            SocketAddress::V4 { octets, port } => {
                write_dotted_quad(&mut out, octets);
                write_byte(&mut out, COLON);
                write_numeral(&mut out, *port as u32, false);
                assert(out@ =~= address_text(self@));
            },
            SocketAddress::V6 { segments, scope_id, port } => {
                write_byte(&mut out, OPEN);
                write_ipv6(&mut out, segments);
                if *scope_id != 0 {
                    write_byte(&mut out, PERCENT);
                    write_numeral(&mut out, *scope_id, false);
                }
                let ghost zoned = out@;
                assert(zoned =~= seq![OPEN] + ipv6_text(segments@) + zone_text(*scope_id));
                write_byte(&mut out, CLOSE);
                write_byte(&mut out, COLON);
                write_numeral(&mut out, *port as u32, false);
                assert(out@ =~= address_text(self@));
            },
        }
        out
    }
}

} // verus!
