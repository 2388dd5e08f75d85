//! Reading back what was written: the text under which the library keeps an
//! address is itself an address, and reads as the address it was written
//! for.

use crate::address::{
    address_of, group_at, groups_at, has_byte, ipv4_at, ipv6_at, octet_at, octet_dot_at, port_at,
    segment_of, v4_address, v6_address, zero_segments, zone_at, AddressView, GroupsRead, CLOSE,
    COLON, DOT, OPEN, PERCENT,
};
use crate::join::{ascii_text, joining_address, lemma_ascii_decodes, JoinError};
use crate::digits::{digit_byte, digit_of, digit_run, digits_value, number_at, numeral, radix_of};
use crate::notation::{
    address_text, all_ascii, dotted_quad, groups_text, ipv6_text, is_mapped, is_widest_zero_run,
    lemma_address_text_ascii, mapped_octets, mapped_prefix, zone_text,
};
use vstd::prelude::*;
use vstd::utf8::decode_utf8;

verus! {

/// Whether `part` stands in `text` at `at`.
pub open spec fn stands_at(text: Seq<u8>, at: int, part: Seq<u8>) -> bool {
    &&& 0 <= at
    &&& at + part.len() <= text.len()
    &&& forall|i: int| 0 <= i < part.len() ==> text[at + i] == #[trigger] part[i]
}

/// Whether a number of radix 10 or 16 that stands just before `at` ends
/// there: `text` ends at `at`, or the byte at `at` is no digit.
pub open spec fn ends_number(text: Seq<u8>, at: int, hex: bool) -> bool {
    at >= text.len() || digit_of(text[at], hex) is None
}

proof fn lemma_stands_split(text: Seq<u8>, at: int, first: Seq<u8>, second: Seq<u8>)
    requires
        stands_at(text, at, first + second),
    ensures
        stands_at(text, at, first),
        stands_at(text, at + first.len(), second),
{
    assert forall|i: int| 0 <= i < first.len() implies text[at + i] == #[trigger] first[i] by {
        assert((first + second)[i] == first[i]);
    }
    assert forall|i: int| 0 <= i < second.len() implies text[at + first.len() + i]
        == #[trigger] second[i] by {
        assert((first + second)[first.len() + i] == second[i]);
    }
}

proof fn lemma_stands_whole(text: Seq<u8>)
    ensures
        stands_at(text, 0, text),
{
}

proof fn lemma_numeral_digits(value: nat, hex: bool)
    ensures
        numeral(value, hex).len() >= 1,
        forall|i: int|
            0 <= i < numeral(value, hex).len() ==> digit_of(
                #[trigger] numeral(value, hex)[i],
                hex,
            ) is Some,
        value > 0 ==> numeral(value, hex)[0] != 0x30,
        value == 0 ==> numeral(value, hex).len() == 1,
    decreases value,
{
    if value >= radix_of(hex) {
        lemma_numeral_digits(value / radix_of(hex), hex);
    }
}

proof fn lemma_numeral_length(value: nat, hex: bool)
    ensures
        !hex && value <= 255 ==> numeral(value, hex).len() <= 3,
        hex && value <= 0xffff ==> numeral(value, hex).len() <= 4,
{
    reveal_with_fuel(numeral, 5);
}

proof fn lemma_run_of_digits(text: Seq<u8>, at: int, count: nat, hex: bool)
    requires
        0 <= at,
        at + count <= text.len(),
        forall|i: int| at <= i < at + count ==> digit_of(#[trigger] text[i], hex) is Some,
        ends_number(text, at + count, hex),
    ensures
        digit_run(text, at, hex) == count,
    decreases count,
{
    if count > 0 {
        lemma_run_of_digits(text, at + 1, (count - 1) as nat, hex);
    }
}

proof fn lemma_numeral_value(text: Seq<u8>, at: int, value: nat, hex: bool)
    requires
        stands_at(text, at, numeral(value, hex)),
    ensures
        digits_value(text, at, at + numeral(value, hex).len(), hex) == value,
    decreases value,
{
    let radix = radix_of(hex);
    let whole = numeral(value, hex);
    if value < radix {
        assert(text[at + 0] == whole[0]);
        assert(digits_value(text, at, at, hex) == 0);
    } else {
        let front = numeral(value / radix, hex);
        assert(whole == front.push(digit_byte(value % radix)));
        assert(whole =~= front + seq![digit_byte(value % radix)]);
        lemma_stands_split(text, at, front, seq![digit_byte(value % radix)]);
        lemma_numeral_value(text, at, value / radix, hex);
        assert(text[at + front.len() + 0] == seq![digit_byte(value % radix)][0]);
        assert(value == (value / radix) * radix + value % radix) by (nonlinear_arith)
            requires
                radix > 0,
        ;
    }
}

/// A numeral that stands in `text` and ends there is read as the number it
/// was written for.
proof fn lemma_numeral_read(
    text: Seq<u8>,
    at: int,
    value: nat,
    hex: bool,
    digit_limit: Option<nat>,
    zero_prefix: bool,
    max: nat,
)
    requires
        stands_at(text, at, numeral(value, hex)),
        ends_number(text, at + numeral(value, hex).len(), hex),
        value <= max,
        digit_limit is Some ==> numeral(value, hex).len() <= digit_limit.unwrap(),
    ensures
        number_at(text, at, hex, digit_limit, zero_prefix, max) == Some(
            (value, at + numeral(value, hex).len()),
        ),
{
    let whole = numeral(value, hex);
    lemma_numeral_digits(value, hex);
    assert forall|i: int| at <= i < at + whole.len() implies digit_of(#[trigger] text[i], hex)
        is Some by {
        assert(text[at + (i - at)] == whole[i - at]);
    }
    lemma_run_of_digits(text, at, whole.len(), hex);
    lemma_numeral_value(text, at, value, hex);
    assert(text[at + 0] == whole[0]);
}

/// An octet that stands in `text` and ends there is read as written.
proof fn lemma_octet_read(text: Seq<u8>, at: int, octet: u8)
    requires
        stands_at(text, at, numeral(octet as nat, false)),
        ends_number(text, at + numeral(octet as nat, false).len(), false),
    ensures
        octet_at(text, at) == Some((octet as nat, at + numeral(octet as nat, false).len())),
{
    lemma_numeral_length(octet as nat, false);
    lemma_numeral_read(text, at, octet as nat, false, Some(3nat), false, 255);
}

/// An octet with a dot behind it is read as written.
proof fn lemma_octet_dot_read(text: Seq<u8>, at: int, octet: u8)
    requires
        stands_at(text, at, numeral(octet as nat, false) + seq![DOT]),
    ensures
        octet_dot_at(text, at) == Some(
            (octet as nat, at + numeral(octet as nat, false).len() + 1),
        ),
{
    let digits = numeral(octet as nat, false);
    lemma_stands_split(text, at, digits, seq![DOT]);
    assert(text[at + digits.len() + 0] == seq![DOT][0]);
    lemma_octet_read(text, at, octet);
}

/// A dotted quad that stands in `text` and ends there is read as the four
/// octets it was written for.
#[verifier::rlimit(40)]
proof fn lemma_quad_read(text: Seq<u8>, at: int, octets: Seq<u8>)
    requires
        octets.len() == 4,
        stands_at(text, at, dotted_quad(octets)),
        ends_number(text, at + dotted_quad(octets).len(), false),
    ensures
        ipv4_at(text, at) == Some((octets, at + dotted_quad(octets).len())),
{
    let a = numeral(octets[0] as nat, false) + seq![DOT];
    let b = numeral(octets[1] as nat, false) + seq![DOT];
    let c = numeral(octets[2] as nat, false) + seq![DOT];
    let d = numeral(octets[3] as nat, false);
    assert(dotted_quad(octets) =~= a + (b + (c + d)));
    lemma_stands_split(text, at, a, b + (c + d));
    lemma_stands_split(text, at + a.len(), b, c + d);
    lemma_stands_split(text, at + a.len() + b.len(), c, d);
    lemma_octet_dot_read(text, at, octets[0]);
    lemma_octet_dot_read(text, at + a.len(), octets[1]);
    lemma_octet_dot_read(text, at + a.len() + b.len(), octets[2]);
    lemma_octet_read(text, at + a.len() + b.len() + c.len(), octets[3]);
    assert(seq![
        octets[0] as nat as u8,
        octets[1] as nat as u8,
        octets[2] as nat as u8,
        octets[3] as nat as u8,
    ] =~= octets);
}

/// A port that stands at the end of `text` is read as written.
proof fn lemma_port_read(text: Seq<u8>, at: int, port: u16)
    requires
        stands_at(text, at, seq![COLON] + numeral(port as nat, false)),
        at + 1 + numeral(port as nat, false).len() == text.len(),
    ensures
        port_at(text, at) == Some((port as nat, text.len() as int)),
{
    lemma_stands_split(text, at, seq![COLON], numeral(port as nat, false));
    assert(text[at + 0] == seq![COLON][0]);
    lemma_numeral_read(text, at + 1, port as nat, false, None, true, 0xffff);
}

/// The text of an IPv4 address and a port reads as that address.
proof fn lemma_v4_reads_back(octets: Seq<u8>, port: u16)
    requires
        octets.len() == 4,
    ensures
        v4_address(address_text(AddressView::V4 { octets, port })) == Some(
            AddressView::V4 { octets, port },
        ),
{
    let text = address_text(AddressView::V4 { octets, port });
    let quad = dotted_quad(octets);
    let rest = seq![COLON] + numeral(port as nat, false);
    assert(text =~= quad + rest);
    lemma_stands_whole(text);
    lemma_stands_split(text, 0, quad, rest);
    assert(text[quad.len() as int + 0] == rest[0]);
    lemma_quad_read(text, 0, octets);
    lemma_port_read(text, quad.len() as int, port);
}

/// The numerals of `groups`, each with a colon before it.
pub open spec fn colon_groups(groups: Seq<u16>) -> Seq<u8>
    decreases groups.len(),
{
    if groups.len() == 0 {
        Seq::empty()
    } else {
        seq![COLON] + numeral(groups[0] as nat, true) + colon_groups(groups.drop_first())
    }
}

proof fn lemma_colon_groups_push(groups: Seq<u16>, last: u16)
    ensures
        colon_groups(groups.push(last)) == colon_groups(groups) + seq![COLON] + numeral(
            last as nat,
            true,
        ),
    decreases groups.len(),
{
    let more = groups.push(last);
    if groups.len() == 0 {
        assert(more.drop_first() =~= Seq::<u16>::empty());
        assert(colon_groups(more.drop_first()) =~= Seq::<u8>::empty());
        assert(colon_groups(groups) =~= Seq::<u8>::empty());
        assert(colon_groups(more) =~= colon_groups(groups) + seq![COLON] + numeral(
            last as nat,
            true,
        ));
    } else {
        assert(more.drop_first() =~= groups.drop_first().push(last));
        lemma_colon_groups_push(groups.drop_first(), last);
        assert(colon_groups(more) =~= colon_groups(groups) + seq![COLON] + numeral(
            last as nat,
            true,
        ));
    }
}

/// Groups written with colons between them are the first group and then
/// every other group with a colon before it.
proof fn lemma_groups_text_front(groups: Seq<u16>)
    requires
        groups.len() >= 1,
    ensures
        groups_text(groups) == numeral(groups[0] as nat, true) + colon_groups(
            groups.drop_first(),
        ),
    decreases groups.len(),
{
    if groups.len() == 1 {
        assert(groups_text(groups) =~= numeral(groups[0] as nat, true) + colon_groups(
            groups.drop_first(),
        ));
    } else {
        let front = groups.drop_last();
        lemma_groups_text_front(front);
        lemma_colon_groups_push(front.drop_first(), groups.last());
        assert(front.drop_first().push(groups.last()) =~= groups.drop_first());
        assert(groups_text(groups) =~= numeral(groups[0] as nat, true) + colon_groups(
            groups.drop_first(),
        ));
    }
}

/// Where hexadecimal digits stand, and what follows them is neither a
/// decimal digit nor a dot, no octet with a dot behind it can be read.
proof fn lemma_no_octet_dot(text: Seq<u8>, at: int, count: nat)
    requires
        0 <= at,
        at + count <= text.len(),
        forall|i: int| at <= i < at + count ==> digit_of(#[trigger] text[i], true) is Some,
        at + count == text.len() || (digit_of(text[at + count], false) is None && text[at
            + count] != DOT),
    ensures
        digit_run(text, at, false) <= count,
        !has_byte(text, at + digit_run(text, at, false), DOT),
        octet_dot_at(text, at) is None,
        ipv4_at(text, at) is None,
    decreases count,
{
    if count > 0 {
        lemma_no_octet_dot(text, at + 1, (count - 1) as nat);
    }
}

/// Whether the groups that end just before `at` can go on there.
pub open spec fn groups_go_on(text: Seq<u8>, at: int) -> bool {
    has_byte(text, at, COLON) && !ends_number(text, at + 1, true)
}

/// Whether the byte at `at`, if there is one, closes a hexadecimal group
/// without beginning a dotted quad.
pub open spec fn closes_group(text: Seq<u8>, at: int) -> bool {
    at >= text.len() || (digit_of(text[at], true) is None && text[at] != DOT)
}

/// Groups that stand in `text`, each behind a colon, are read as written
/// when groups have been read before them.
#[verifier::rlimit(40)]
proof fn lemma_more_groups_read(text: Seq<u8>, at: int, groups: Seq<u16>, limit: nat, read: nat)
    requires
        read >= 1,
        read + groups.len() <= limit,
        stands_at(text, at, colon_groups(groups)),
        closes_group(text, at + colon_groups(groups).len()),
        read + groups.len() < limit ==> !groups_go_on(text, at + colon_groups(groups).len()),
    ensures
        groups_at(text, at, limit, read) == (GroupsRead {
            groups,
            end: at + colon_groups(groups).len(),
            dotted: false,
        }),
    decreases groups.len(),
{
    if groups.len() == 0 {
        assert(groups =~= Seq::<u16>::empty());
        if read < limit && has_byte(text, at, COLON) {
            assert(digit_run(text, at + 1, true) == 0);
            assert(digit_run(text, at + 1, false) == 0);
        }
    } else {
        let first = numeral(groups[0] as nat, true);
        let rest = groups.drop_first();
        let after = at + 1 + first.len();
        assert(colon_groups(groups) =~= seq![COLON] + (first + colon_groups(rest)));
        lemma_stands_split(text, at, seq![COLON], first + colon_groups(rest));
        lemma_stands_split(text, at + 1, first, colon_groups(rest));
        assert(text[at + 0] == seq![COLON][0]);
        lemma_numeral_digits(groups[0] as nat, true);
        lemma_numeral_length(groups[0] as nat, true);
        assert forall|i: int| at + 1 <= i < after implies digit_of(#[trigger] text[i], true)
            is Some by {
            assert(text[at + 1 + (i - at - 1)] == first[i - at - 1]);
        }
        if rest.len() > 0 {
            assert(colon_groups(rest) =~= seq![COLON] + (numeral(rest[0] as nat, true)
                + colon_groups(rest.drop_first())));
            assert(text[after + 0] == colon_groups(rest)[0]);
        }
        lemma_no_octet_dot(text, at + 1, first.len());
        lemma_numeral_read(text, at + 1, groups[0] as nat, true, Some(4nat), true, 0xffff);
        lemma_more_groups_read(text, after, rest, limit, read + 1);
        assert(seq![groups[0] as nat as u16] + rest =~= groups);
    }
}

/// Groups that stand in `text` with colons between them are read as
/// written.
#[verifier::rlimit(40)]
proof fn lemma_groups_read(text: Seq<u8>, at: int, groups: Seq<u16>, limit: nat)
    requires
        groups.len() <= limit,
        stands_at(text, at, groups_text(groups)),
        closes_group(text, at + groups_text(groups).len()),
        groups.len() < limit ==> !groups_go_on(text, at + groups_text(groups).len()),
    ensures
        groups_at(text, at, limit, 0) == (GroupsRead {
            groups,
            end: at + groups_text(groups).len(),
            dotted: false,
        }),
{
    if groups.len() == 0 {
        assert(groups =~= Seq::<u16>::empty());
        if limit > 0 {
            assert(digit_run(text, at, true) == 0);
            assert(digit_run(text, at, false) == 0);
        }
    } else {
        let first = numeral(groups[0] as nat, true);
        let rest = groups.drop_first();
        let after = at + first.len();
        lemma_groups_text_front(groups);
        lemma_stands_split(text, at, first, colon_groups(rest));
        lemma_numeral_digits(groups[0] as nat, true);
        lemma_numeral_length(groups[0] as nat, true);
        assert forall|i: int| at <= i < after implies digit_of(#[trigger] text[i], true)
            is Some by {
            assert(text[at + (i - at)] == first[i - at]);
        }
        if rest.len() > 0 {
            assert(colon_groups(rest) =~= seq![COLON] + (numeral(rest[0] as nat, true)
                + colon_groups(rest.drop_first())));
            assert(text[after + 0] == colon_groups(rest)[0]);
        }
        lemma_no_octet_dot(text, at, first.len());
        lemma_numeral_read(text, at, groups[0] as nat, true, Some(4nat), true, 0xffff);
        lemma_more_groups_read(text, after, rest, limit, 1);
        assert(seq![groups[0] as nat as u16] + rest =~= groups);
    }
}

/// Whether the byte at `at` is one of the two that can follow an IPv6
/// address inside its brackets.
pub open spec fn ends_ipv6(text: Seq<u8>, at: int) -> bool {
    has_byte(text, at, CLOSE) || has_byte(text, at, PERCENT)
}

/// `ffff`
spec fn all_ones() -> Seq<u8> {
    seq![0x66u8, 0x66u8, 0x66u8, 0x66u8]
}

/// The group `ffff`, a colon and a dotted quad are read as three segments.
#[verifier::rlimit(40)]
proof fn lemma_mapped_tail_read(text: Seq<u8>, at: int, octets: Seq<u8>)
    requires
        octets.len() == 4,
        stands_at(text, at, all_ones()),
        has_byte(text, at + 4, COLON),
        stands_at(text, at + 5, dotted_quad(octets)),
        ends_number(text, at + 5 + dotted_quad(octets).len(), false),
    ensures
        groups_at(text, at, 7, 0) == (GroupsRead {
            groups: seq![
                0xffffu16,
                segment_of(octets[0], octets[1]),
                segment_of(octets[2], octets[3]),
            ],
            end: at + 5 + dotted_quad(octets).len(),
            dotted: true,
        }),
{
    let end = at + 5 + dotted_quad(octets).len();
    assert(numeral(0xffff, true) =~= all_ones()) by {
        reveal_with_fuel(numeral, 5);
    }
    assert(text[at + 0] == all_ones()[0]);
    lemma_numeral_read(text, at, 0xffff, true, Some(4nat), true, 0xffff);
    assert(digit_run(text, at, false) == 0);
    assert(ipv4_at(text, at) is None);
    lemma_quad_read(text, at + 5, octets);
    let inner = groups_at(text, at + 4, 7, 1);
    assert(inner == GroupsRead {
        groups: seq![segment_of(octets[0], octets[1]), segment_of(octets[2], octets[3])],
        end,
        dotted: true,
    });
    assert(seq![0xffffu16] + inner.groups =~= seq![
        0xffffu16,
        segment_of(octets[0], octets[1]),
        segment_of(octets[2], octets[3]),
    ]);
}

#[verifier::rlimit(40)]
proof fn lemma_mapped_read(text: Seq<u8>, at: int, segments: Seq<u16>)
    requires
        segments.len() == 8,
        is_mapped(segments),
        stands_at(text, at, mapped_prefix() + dotted_quad(mapped_octets(segments))),
        ends_ipv6(text, at + 7 + dotted_quad(mapped_octets(segments)).len()),
    ensures
        ipv6_at(text, at) == Some(
            (segments, at + 7 + dotted_quad(mapped_octets(segments)).len()),
        ),
{
    let octets = mapped_octets(segments);
    let quad = dotted_quad(octets);
    lemma_stands_split(text, at, mapped_prefix(), quad);
    assert(mapped_prefix() =~= seq![COLON, COLON] + (all_ones() + seq![COLON]));
    lemma_stands_split(text, at, seq![COLON, COLON], all_ones() + seq![COLON]);
    lemma_stands_split(text, at + 2, all_ones(), seq![COLON]);
    assert(text[at + 0] == seq![COLON, COLON][0]);
    assert(text[at + 1] == seq![COLON, COLON][1]);
    assert(text[at + 6 + 0] == seq![COLON][0]);
    assert(digit_run(text, at, true) == 0);
    assert(digit_run(text, at, false) == 0);
    let head = groups_at(text, at, 8, 0);
    assert(head == GroupsRead { groups: Seq::<u16>::empty(), end: at, dotted: false });
    lemma_mapped_tail_read(text, at + 2, octets);
    let tail = groups_at(text, at + 2, 7, 0);
    assert(segment_of(octets[0], octets[1]) == segments[6]);
    assert(segment_of(octets[2], octets[3]) == segments[7]);
    assert(head.groups + zero_segments(8 - head.groups.len() - tail.groups.len()) + tail.groups
        =~= segments);
}

#[verifier::rlimit(40)]
proof fn lemma_short_read(text: Seq<u8>, at: int, segments: Seq<u16>, start: int, len: int)
    requires
        segments.len() == 8,
        is_widest_zero_run(segments, start, len),
        len > 1,
        stands_at(
            text,
            at,
            groups_text(segments.take(start)) + seq![COLON, COLON] + groups_text(
                segments.skip(start + len),
            ),
        ),
        ends_ipv6(
            text,
            at + groups_text(segments.take(start)).len() + 2 + groups_text(
                segments.skip(start + len),
            ).len(),
        ),
    ensures
        ipv6_at(text, at) == Some(
            (
                segments,
                at + groups_text(segments.take(start)).len() + 2 + groups_text(
                    segments.skip(start + len),
                ).len(),
            ),
        ),
{
    let front = segments.take(start);
    let back = segments.skip(start + len);
    let colons = seq![COLON, COLON];
    let middle = at + groups_text(front).len();
    let end = middle + 2 + groups_text(back).len();
    assert(groups_text(front) + colons + groups_text(back) =~= groups_text(front) + (colons
        + groups_text(back)));
    lemma_stands_split(text, at, groups_text(front), colons + groups_text(back));
    lemma_stands_split(text, middle, colons, groups_text(back));
    assert(text[middle + 0] == colons[0]);
    assert(text[middle + 1] == colons[1]);
    lemma_groups_read(text, at, front, 8);
    lemma_groups_read(text, middle + 2, back, (7 - front.len()) as nat);
    assert(front + zero_segments(8 - front.len() - back.len()) + back =~= segments);
}

proof fn lemma_plain_read(text: Seq<u8>, at: int, segments: Seq<u16>)
    requires
        segments.len() == 8,
        stands_at(text, at, groups_text(segments)),
        ends_ipv6(text, at + groups_text(segments).len()),
    ensures
        ipv6_at(text, at) == Some((segments, at + groups_text(segments).len())),
{
    lemma_groups_read(text, at, segments, 8);
}

/// The text of an IPv6 address that stands in `text` before `]` or `%` is
/// read as the address it was written for.
proof fn lemma_ipv6_read(text: Seq<u8>, at: int, segments: Seq<u16>)
    requires
        segments.len() == 8,
        stands_at(text, at, ipv6_text(segments)),
        ends_ipv6(text, at + ipv6_text(segments).len()),
    ensures
        ipv6_at(text, at) == Some((segments, at + ipv6_text(segments).len())),
{
    if is_mapped(segments) {
        lemma_mapped_read(text, at, segments);
    } else if exists|start: int, len: int| is_widest_zero_run(segments, start, len) && len > 1 {
        let (start, len) = choose|start: int, len: int|
            is_widest_zero_run(segments, start, len) && len > 1;
        lemma_short_read(text, at, segments, start, len);
    } else {
        lemma_plain_read(text, at, segments);
    }
}

/// A zone that stands in `text` before `]` is read as written.
proof fn lemma_zone_read(text: Seq<u8>, at: int, scope_id: u32)
    requires
        stands_at(text, at, zone_text(scope_id)),
        has_byte(text, at + zone_text(scope_id).len(), CLOSE),
    ensures
        zone_at(text, at) == (scope_id as nat, at + zone_text(scope_id).len()),
        ends_ipv6(text, at),
{
    if scope_id != 0 {
        let digits = numeral(scope_id as nat, false);
        lemma_stands_split(text, at, seq![PERCENT], digits);
        assert(text[at + 0] == seq![PERCENT][0]);
        lemma_numeral_read(text, at + 1, scope_id as nat, false, None, true, 0xffff_ffff);
    }
}

/// Where the parts of a bracketed address stand in a text made of them.
#[verifier::rlimit(40)]
proof fn lemma_bracketed_parts(
    text: Seq<u8>,
    ip: Seq<u8>,
    zone: Seq<u8>,
    port_digits: Seq<u8>,
)
    requires
        text == seq![OPEN] + ip + zone + seq![CLOSE, COLON] + port_digits,
    ensures
        has_byte(text, 0, OPEN),
        stands_at(text, 1, ip),
        stands_at(text, 1 + ip.len() as int, zone),
        has_byte(text, 1 + ip.len() as int + zone.len() as int, CLOSE),
        stands_at(
            text,
            2 + ip.len() as int + zone.len() as int,
            seq![COLON] + port_digits,
        ),
        text.len() == 3 + ip.len() + zone.len() + port_digits.len(),
{
    let close = seq![CLOSE];
    let rest = seq![COLON] + port_digits;
    let after_ip = 1 + ip.len() as int;
    let closing = after_ip + zone.len() as int;
    assert(text =~= seq![OPEN] + (ip + (zone + (close + rest))));
    lemma_stands_whole(text);
    lemma_stands_split(text, 0, seq![OPEN], ip + (zone + (close + rest)));
    lemma_stands_split(text, 1, ip, zone + (close + rest));
    lemma_stands_split(text, after_ip, zone, close + rest);
    lemma_stands_split(text, closing, close, rest);
    assert(text[0int + 0] == seq![OPEN][0]);
    assert(text[closing + 0] == close[0]);
}

/// The text of an IPv6 address and a port reads as that address.
#[verifier::rlimit(40)]
proof fn lemma_v6_reads_back(segments: Seq<u16>, scope_id: u32, port: u16)
    requires
        segments.len() == 8,
    ensures
        v4_address(address_text(AddressView::V6 { segments, scope_id, port })) is None,
        v6_address(address_text(AddressView::V6 { segments, scope_id, port })) == Some(
            AddressView::V6 { segments, scope_id, port },
        ),
{
    let text = address_text(AddressView::V6 { segments, scope_id, port });
    let ip = ipv6_text(segments);
    let zone = zone_text(scope_id);
    let after_ip = 1 + ip.len() as int;
    let closing = after_ip + zone.len() as int;
    lemma_bracketed_parts(text, ip, zone, numeral(port as nat, false));
    assert(digit_run(text, 0, false) == 0);
    assert(v4_address(text) is None);
    lemma_zone_read(text, after_ip, scope_id);
    lemma_ipv6_read(text, 1, segments);
    lemma_port_read(text, closing + 1, port);
}

/// The text under which an address is kept reads as that very address. So
/// the text is itself an address, and writing out what was read from it
/// gives the same text again.
pub proof fn law_normal_text_reads_back(address: AddressView)
    requires
        address.well_formed(),
    ensures
        address_of(address_text(address)) == Some(address),
{
    match address {
        AddressView::V4 { octets, port } => {
            lemma_v4_reads_back(octets, port);
        },
        AddressView::V6 { segments, scope_id, port } => {
            lemma_v6_reads_back(segments, scope_id, port);
        },
    }
}

/// A join request whose payload is the kept text of an address comes to
/// that very text: what the membership holds, sent in again, is enrolled
/// unchanged.
pub proof fn law_kept_text_joins_as_itself(address: AddressView)
    requires
        address.well_formed(),
    ensures
        joining_address(address_text(address)) == Ok::<Seq<char>, JoinError>(
            ascii_text(address_text(address)),
        ),
{
    lemma_address_text_ascii(address);
    lemma_ascii_decodes(address_text(address));
    law_normal_text_reads_back(address);
}

proof fn lemma_groups_within_limit(text: Seq<u8>, at: int, limit: nat, read: nat)
    requires
        read <= limit,
    ensures
        read + groups_at(text, at, limit, read).groups.len() <= limit,
    decreases limit - read,
{
    if read < limit {
        let start = if read > 0 {
            at + 1
        } else {
            at
        };
        let group = group_at(text, start);
        if group is Some {
            lemma_groups_within_limit(text, group.unwrap().1, limit, read + 1);
        }
    }
}

/// Whatever is read from a text is a well-formed address: four octets, or
/// eight segments.
pub proof fn law_read_address_is_well_formed(text: Seq<u8>)
    requires
        address_of(text) is Some,
    ensures
        address_of(text)->Some_0.well_formed(),
{
    if v4_address(text) is None {
        let head = groups_at(text, 1, 8, 0);
        lemma_groups_within_limit(text, 1, 8, 0);
        if head.groups.len() < 8 {
            lemma_groups_within_limit(text, head.end + 2, (7 - head.groups.len()) as nat, 0);
        }
    }
}

/// Whatever a join request enrolls is the kept text of a well-formed
/// address, the one that its payload spells. So every text in a membership
/// that grew by join requests reads back as an address, and would be
/// enrolled again unchanged.
pub proof fn law_joined_text_is_normal(payload: Seq<u8>)
    requires
        joining_address(payload) is Ok,
    ensures
        address_of(payload) is Some,
        address_of(payload)->Some_0.well_formed(),
        joining_address(payload)->Ok_0 == ascii_text(address_text(address_of(payload)->Some_0)),
        joining_address(address_text(address_of(payload)->Some_0)) == joining_address(payload),
{
    law_read_address_is_well_formed(payload);
    law_kept_text_joins_as_itself(address_of(payload)->Some_0);
}

/// Whether the bytes of `text` from `from` up to `to` are all ASCII.
pub open spec fn ascii_between(text: Seq<u8>, from: int, to: int) -> bool {
    forall|i: int| from <= i < to ==> #[trigger] text[i] < 0x80
}

proof fn lemma_run_is_ascii(text: Seq<u8>, at: int, hex: bool)
    requires
        0 <= at <= text.len(),
    ensures
        at + digit_run(text, at, hex) <= text.len(),
        ascii_between(text, at, at + digit_run(text, at, hex)),
    decreases text.len() - at,
{
    if at < text.len() && digit_of(text[at], hex) is Some {
        lemma_run_is_ascii(text, at + 1, hex);
    }
}

proof fn lemma_number_is_ascii(
    text: Seq<u8>,
    at: int,
    hex: bool,
    digit_limit: Option<nat>,
    zero_prefix: bool,
    max: nat,
)
    requires
        0 <= at <= text.len(),
        number_at(text, at, hex, digit_limit, zero_prefix, max) is Some,
    ensures
        at < number_at(text, at, hex, digit_limit, zero_prefix, max)->Some_0.1 <= text.len(),
        ascii_between(
            text,
            at,
            number_at(text, at, hex, digit_limit, zero_prefix, max)->Some_0.1,
        ),
{
    lemma_run_is_ascii(text, at, hex);
}

proof fn lemma_octet_dot_is_ascii(text: Seq<u8>, at: int)
    requires
        0 <= at <= text.len(),
        octet_dot_at(text, at) is Some,
    ensures
        at < octet_dot_at(text, at)->Some_0.1 <= text.len(),
        ascii_between(text, at, octet_dot_at(text, at)->Some_0.1),
{
    lemma_number_is_ascii(text, at, false, Some(3nat), false, 255);
}

proof fn lemma_quad_is_ascii(text: Seq<u8>, at: int)
    requires
        0 <= at <= text.len(),
        ipv4_at(text, at) is Some,
    ensures
        at < ipv4_at(text, at)->Some_0.1 <= text.len(),
        ascii_between(text, at, ipv4_at(text, at)->Some_0.1),
{
    let after_a = octet_dot_at(text, at)->Some_0.1;
    lemma_octet_dot_is_ascii(text, at);
    let after_b = octet_dot_at(text, after_a)->Some_0.1;
    lemma_octet_dot_is_ascii(text, after_a);
    let after_c = octet_dot_at(text, after_b)->Some_0.1;
    lemma_octet_dot_is_ascii(text, after_b);
    lemma_number_is_ascii(text, after_c, false, Some(3nat), false, 255);
}

proof fn lemma_groups_are_ascii(text: Seq<u8>, at: int, limit: nat, read: nat)
    requires
        0 <= at <= text.len(),
    ensures
        at <= groups_at(text, at, limit, read).end <= text.len(),
        ascii_between(text, at, groups_at(text, at, limit, read).end),
    decreases limit - read,
{
    if read < limit && (read == 0 || has_byte(text, at, COLON)) {
        let start = if read > 0 {
            at + 1
        } else {
            at
        };
        let quad = ipv4_at(text, start);
        let group = group_at(text, start);
        if read + 1 < limit && quad is Some {
            lemma_quad_is_ascii(text, start);
        } else if group is Some {
            lemma_number_is_ascii(text, start, true, Some(4nat), true, 0xffff);
            lemma_groups_are_ascii(text, group.unwrap().1, limit, read + 1);
        }
    }
}

proof fn lemma_ipv6_is_ascii(text: Seq<u8>, at: int)
    requires
        0 <= at <= text.len(),
        ipv6_at(text, at) is Some,
    ensures
        at <= ipv6_at(text, at)->Some_0.1 <= text.len(),
        ascii_between(text, at, ipv6_at(text, at)->Some_0.1),
{
    let head = groups_at(text, at, 8, 0);
    lemma_groups_are_ascii(text, at, 8, 0);
    if head.groups.len() != 8 {
        lemma_groups_are_ascii(text, head.end + 2, (7 - head.groups.len()) as nat, 0);
    }
}

proof fn lemma_port_is_ascii(text: Seq<u8>, at: int)
    requires
        0 <= at <= text.len(),
        port_at(text, at) is Some,
    ensures
        at < port_at(text, at)->Some_0.1 <= text.len(),
        ascii_between(text, at, port_at(text, at)->Some_0.1),
{
    lemma_number_is_ascii(text, at + 1, false, None, true, 0xffff);
}

proof fn lemma_zone_is_ascii(text: Seq<u8>, at: int)
    requires
        0 <= at <= text.len(),
    ensures
        at <= zone_at(text, at).1 <= text.len(),
        ascii_between(text, at, zone_at(text, at).1),
{
    if has_byte(text, at, PERCENT) && number_at(text, at + 1, false, None, true, 0xffff_ffff)
        is Some {
        lemma_number_is_ascii(text, at + 1, false, None, true, 0xffff_ffff);
    }
}

/// A text that spells an address is ASCII from end to end. So it is valid
/// UTF-8, its characters are its bytes, and reading the bytes is reading
/// the text.
pub proof fn law_readable_text_is_ascii(text: Seq<u8>)
    requires
        address_of(text) is Some,
    ensures
        all_ascii(text),
        decode_utf8(text) == ascii_text(text),
{
    if v4_address(text) is Some {
        lemma_quad_is_ascii(text, 0);
        lemma_port_is_ascii(text, ipv4_at(text, 0)->Some_0.1);
    } else {
        let after_ip = ipv6_at(text, 1)->Some_0.1;
        lemma_ipv6_is_ascii(text, 1);
        lemma_zone_is_ascii(text, after_ip);
        lemma_port_is_ascii(text, zone_at(text, after_ip).1 + 1);
    }
    assert(all_ascii(text));
    lemma_ascii_decodes(text);
}

} // verus!
