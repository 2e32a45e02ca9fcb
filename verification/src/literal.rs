//! The text forms of addresses.
//!
//! An IPv4 address is written as a dotted quad, `10.0.0.5`. An IPv6 address
//! is written as eight groups of hexadecimal digits between colons, where
//! one run of zero groups may be left out as `::` and the last two groups
//! may be written as a dotted quad. The grammar is stated over the bytes of
//! the text; the readers return the address as a number, the first byte or
//! group being the most significant.

use crate::text::{chunk_views, split, split_bytes};
use vstd::prelude::*;
use vstd::slice::*;

verus! {

/// The byte `.`.
pub const DOT: u8 = 46;

/// The byte `:`.
pub const COLON: u8 = 58;

/// The byte `0`.
pub const ZERO: u8 = 48;

/// Whether a byte is one of `0` to `9`.
pub open spec fn is_decimal_digit(byte: u8) -> bool {
    48 <= byte <= 57
}

/// The number that a run of decimal digits writes.
pub open spec fn decimal_value(digits: Seq<u8>) -> nat
    decreases digits.len(),
{
    if digits.len() == 0 {
        0
    } else {
        decimal_value(digits.drop_last()) * 10 + (digits.last() - 48) as nat
    }
}

/// One part of a dotted quad: one to three decimal digits that write a
/// number up to 255, with no zero in front of another digit.
pub open spec fn octet(part: Seq<u8>) -> Option<u8> {
    if 1 <= part.len() <= 3 && (forall|i: int|
        0 <= i < part.len() ==> is_decimal_digit(#[trigger] part[i])) && (part.len() == 1
        || part[0] != ZERO) && decimal_value(part) <= 255 {
        Some(decimal_value(part) as u8)
    } else {
        None
    }
}

/// The address that a dotted quad writes: four parts between three dots,
/// each an `octet`.
pub open spec fn ipv4_literal(text: Seq<u8>) -> Option<u32> {
    let parts = split(text, DOT);
    if parts.len() == 4 && octet(parts[0]) is Some && octet(parts[1]) is Some && octet(
        parts[2],
    ) is Some && octet(parts[3]) is Some {
        Some(
            (octet(parts[0])->0 * 16777216 + octet(parts[1])->0 * 65536 + octet(parts[2])->0 * 256
                + octet(parts[3])->0) as u32,
        )
    } else {
        None
    }
}

/// The value of a hexadecimal digit, in either case.
pub open spec fn hex_digit(byte: u8) -> Option<nat> {
    if 48 <= byte <= 57 {
        Some((byte - 48) as nat)
    } else if 97 <= byte <= 102 {
        Some((byte - 87) as nat)
    } else if 65 <= byte <= 70 {
        Some((byte - 55) as nat)
    } else {
        None
    }
}

/// The number that a run of hexadecimal digits writes.
pub open spec fn hex_value(digits: Seq<u8>) -> nat
    decreases digits.len(),
{
    if digits.len() == 0 {
        0
    } else {
        hex_value(digits.drop_last()) * 16 + hex_digit(digits.last())->0
    }
}

/// One group of an IPv6 address: one to four hexadecimal digits.
pub open spec fn group(part: Seq<u8>) -> Option<u16> {
    if 1 <= part.len() <= 4 && (forall|i: int|
        0 <= i < part.len() ==> hex_digit(#[trigger] part[i]) is Some) {
        Some(hex_value(part) as u16)
    } else {
        None
    }
}

/// The groups that a list of parts writes, where every part is a `group`.
pub open spec fn plain_groups(parts: Seq<Seq<u8>>) -> Option<Seq<u16>> {
    if forall|k: int| 0 <= k < parts.len() ==> group(#[trigger] parts[k]) is Some {
        Some(parts.map_values(|part: Seq<u8>| group(part)->0))
    } else {
        None
    }
}

/// The groups that a list of parts writes, where the last part may be a
/// dotted quad, which stands for two groups, and every other part is a
/// `group`.
pub open spec fn closing_groups(parts: Seq<Seq<u8>>) -> Option<Seq<u16>> {
    if parts.len() > 0 && ipv4_literal(parts.last()) is Some {
        let quad = ipv4_literal(parts.last())->0;
        match plain_groups(parts.drop_last()) {
            Some(groups) => Some(groups.push((quad / 65536) as u16).push((quad % 65536) as u16)),
            None => None,
        }
    } else {
        plain_groups(parts)
    }
}

/// The parts of a run of groups between colons; an empty text has none.
pub open spec fn chain(text: Seq<u8>) -> Seq<Seq<u8>> {
    if text.len() == 0 {
        Seq::<Seq<u8>>::empty()
    } else {
        split(text, COLON)
    }
}

/// Whether `::` stands at a position of the text.
pub open spec fn gap_at(text: Seq<u8>, at: int) -> bool {
    0 <= at && at + 1 < text.len() && text[at] == COLON && text[at + 1] == COLON
}

/// Whether the first `::` of the text stands at a position.
pub open spec fn is_first_gap(text: Seq<u8>, at: int) -> bool {
    gap_at(text, at) && forall|earlier: int| 0 <= earlier < at ==> !gap_at(text, earlier)
}

/// The position of the first `::` of the text, if it has one.
pub open spec fn first_gap(text: Seq<u8>) -> Option<int> {
    if exists|at: int| is_first_gap(text, at) {
        Some(choose|at: int| is_first_gap(text, at))
    } else {
        None
    }
}

/// A run of zero groups.
pub open spec fn zero_groups(count: int) -> Seq<u16> {
    Seq::new(count as nat, |i: int| 0u16)
}

/// The eight groups that an IPv6 text writes.
///
/// Without `::` the text is a chain of parts that make eight groups, the
/// last two of which may be a dotted quad. With `::`, plain groups stand
/// before it and closing groups after it, at most seven in all, and zero
/// groups fill the gap.
pub open spec fn ipv6_groups(text: Seq<u8>) -> Option<Seq<u16>> {
    match first_gap(text) {
        None => match closing_groups(split(text, COLON)) {
            Some(groups) => if groups.len() == 8 {
                Some(groups)
            } else {
                None
            },
            None => None,
        },
        Some(at) => match (
            plain_groups(chain(text.take(at))),
            closing_groups(chain(text.skip(at + 2))),
        ) {
            (Some(head), Some(tail)) => if head.len() + tail.len() <= 7 {
                Some(head + zero_groups(8 - head.len() - tail.len()) + tail)
            } else {
                None
            },
            _ => None,
        },
    }
}

/// The number that a list of groups makes, the first group being the most
/// significant.
pub open spec fn groups_value(groups: Seq<u16>) -> nat
    decreases groups.len(),
{
    if groups.len() == 0 {
        0
    } else {
        groups_value(groups.drop_last()) * 65536 + groups.last() as nat
    }
}

/// The address that an IPv6 text writes.
pub open spec fn ipv6_literal(text: Seq<u8>) -> Option<u128> {
    match ipv6_groups(text) {
        Some(groups) => Some(groups_value(groups) as u128),
        None => None,
    }
}

/// The largest number that `count` groups can make, plus one.
pub open spec fn groups_bound(count: nat) -> nat
    decreases count,
{
    if count == 0 {
        1
    } else {
        groups_bound((count - 1) as nat) * 65536
    }
}

/// A list of groups makes a number below the bound of its length.
pub proof fn lemma_groups_value_bound(groups: Seq<u16>)
    ensures
        groups_value(groups) < groups_bound(groups.len()),
    decreases groups.len(),
{
    if groups.len() > 0 {
        lemma_groups_value_bound(groups.drop_last());
    }
}

/// Reads one part of a dotted quad.
pub fn read_octet(part: &Vec<u8>) -> (value: Option<u8>)
    ensures
        value == octet(part@),
{
    let length: usize = part.len();
    if length == 0 || length > 3 {
        return None;
    }
    if length > 1 && part[0] == ZERO {
        return None;
    }
    let mut total: u32 = 0;
    let mut at: usize = 0;
    while at < length
        invariant
            at <= length <= 3,
            length == part.len(),
            forall|i: int| 0 <= i < at ==> is_decimal_digit(#[trigger] part@[i]),
            total == decimal_value(part@.take(at as int)),
            at == 0 ==> total == 0,
            at == 1 ==> total <= 9,
            at == 2 ==> total <= 99,
            at == 3 ==> total <= 999,
        decreases length - at,
    {
        let byte: u8 = part[at];
        if byte < 48 || byte > 57 {
            assert(!is_decimal_digit(part@[at as int]));
            return None;
        }
        assert(part@.take(at + 1).drop_last() =~= part@.take(at as int));
        total = total * 10 + (byte - 48) as u32;
        at = at + 1;
    }
    assert(part@.take(at as int) =~= part@);
    if total > 255 {
        None
    } else {
        Some(total as u8)
    }
}

/// Reads a dotted quad.
pub fn parse_ipv4(text: &[u8]) -> (address: Option<u32>)
    ensures
        address == ipv4_literal(text@),
{
    let parts = split_bytes(text, DOT);
    if parts.len() != 4 {
        return None;
    }
    assert(forall|k: int| 0 <= k < 4 ==> chunk_views(parts@)[k] == parts@[k]@);
    let first = read_octet(&parts[0]);
    let second = read_octet(&parts[1]);
    let third = read_octet(&parts[2]);
    let fourth = read_octet(&parts[3]);
    match (first, second, third, fourth) {
        (Some(a), Some(b), Some(c), Some(d)) => Some(
            (a as u32) * 16777216 + (b as u32) * 65536 + (c as u32) * 256 + (d as u32),
        ),
        _ => None,
    }
}

/// Reads a hexadecimal digit.
fn read_hex_digit(byte: u8) -> (value: Option<u16>)
    ensures
        match value {
            Some(digit) => hex_digit(byte) == Some(digit as nat),
            None => hex_digit(byte) is None,
        },
{
    if 48 <= byte && byte <= 57 {
        Some((byte - 48) as u16)
    } else if 97 <= byte && byte <= 102 {
        Some((byte - 87) as u16)
    } else if 65 <= byte && byte <= 70 {
        Some((byte - 55) as u16)
    } else {
        None
    }
}

/// Reads one group of an IPv6 address.
pub fn read_group(part: &Vec<u8>) -> (value: Option<u16>)
    ensures
        value == group(part@),
{
    let length: usize = part.len();
    if length == 0 || length > 4 {
        return None;
    }
    let mut total: u16 = 0;
    let mut at: usize = 0;
    while at < length
        invariant
            at <= length <= 4,
            length == part.len(),
            forall|i: int| 0 <= i < at ==> hex_digit(#[trigger] part@[i]) is Some,
            total == hex_value(part@.take(at as int)),
            at == 0 ==> total == 0,
            at == 1 ==> total <= 0xf,
            at == 2 ==> total <= 0xff,
            at == 3 ==> total <= 0xfff,
        decreases length - at,
    {
        match read_hex_digit(part[at]) {
            Some(digit) => {
                assert(part@.take(at + 1).drop_last() =~= part@.take(at as int));
                total = total * 16 + digit;
                at = at + 1;
            },
            None => {
                assert(hex_digit(part@[at as int]) is None);
                return None;
            },
        }
    }
    assert(part@.take(at as int) =~= part@);
    Some(total)
}

/// Reads the first `count` parts as plain groups.
fn read_plain_groups(parts: &Vec<Vec<u8>>, count: usize) -> (groups: Option<Vec<u16>>)
    requires
        count <= parts.len(),
    ensures
        match groups {
            Some(found) => plain_groups(chunk_views(parts@).take(count as int)) == Some(found@),
            None => plain_groups(chunk_views(parts@).take(count as int)) is None,
        },
{
    let ghost wanted = chunk_views(parts@).take(count as int);
    let mut found: Vec<u16> = Vec::new();
    let mut at: usize = 0;
    while at < count
        invariant
            at <= count <= parts.len(),
            wanted == chunk_views(parts@).take(count as int),
            found@.len() == at,
            forall|k: int| 0 <= k < at ==> group(#[trigger] wanted[k]) == Some(found@[k]),
        decreases count - at,
    {
        assert(wanted[at as int] == parts@[at as int]@);
        match read_group(&parts[at]) {
            Some(value) => {
                found.push(value);
                at = at + 1;
            },
            None => {
                return None;
            },
        }
    }
    assert(found@ =~= wanted.map_values(|part: Seq<u8>| group(part)->0));
    Some(found)
}

/// Reads the parts as closing groups.
fn read_closing_groups(parts: &Vec<Vec<u8>>) -> (groups: Option<Vec<u16>>)
    ensures
        match groups {
            Some(found) => closing_groups(chunk_views(parts@)) == Some(found@),
            None => closing_groups(chunk_views(parts@)) is None,
        },
{
    let count: usize = parts.len();
    let ghost wanted = chunk_views(parts@);
    assert(wanted.take(count as int) =~= wanted);
    if count == 0 {
        return read_plain_groups(parts, 0);
    }
    assert(wanted.last() == parts@[count - 1]@);
    assert(wanted.drop_last() =~= wanted.take(count - 1));
    match parse_ipv4(parts[count - 1].as_slice()) {
        Some(quad) => match read_plain_groups(parts, count - 1) {
            Some(mut found) => {
                found.push((quad / 65536) as u16);
                found.push((quad % 65536) as u16);
                Some(found)
            },
            None => None,
        },
        None => read_plain_groups(parts, count),
    }
}

/// Cuts a run of groups at its colons.
fn chain_parts(text: &[u8]) -> (parts: Vec<Vec<u8>>)
    ensures
        chunk_views(parts@) == chain(text@),
{
    if text.len() == 0 {
        let parts: Vec<Vec<u8>> = Vec::new();
        assert(chunk_views(parts@) =~= chain(text@));
        parts
    } else {
        split_bytes(text, COLON)
    }
}

/// Finds the first `::`.
fn find_gap(text: &[u8]) -> (position: Option<usize>)
    ensures
        match position {
            Some(at) => first_gap(text@) == Some(at as int),
            None => first_gap(text@) is None,
        },
{
    let mut at: usize = 0;
    while at < text.len() && at + 1 < text.len()
        invariant
            at <= text.len(),
            forall|earlier: int| 0 <= earlier < at ==> !gap_at(text@, earlier),
        decreases text.len() - at,
    {
        if text[at] == COLON && text[at + 1] == COLON {
            assert(is_first_gap(text@, at as int));
            return Some(at);
        }
        at = at + 1;
    }
    assert(forall|k: int| !gap_at(text@, k));
    None
}

/// The number that eight groups make.
fn join_groups(groups: &Vec<u16>) -> (value: u128)
    requires
        groups@.len() == 8,
    ensures
        value == groups_value(groups@),
{
    let mut total: u128 = 0;
    let mut at: usize = 0;
    while at < 8
        invariant
            at <= 8,
            groups@.len() == 8,
            total == groups_value(groups@.take(at as int)),
        decreases 8 - at,
    {
        proof {
            assert(groups@.take(at + 1).drop_last() =~= groups@.take(at as int));
            lemma_groups_value_bound(groups@.take(at as int));
            lemma_groups_value_bound(groups@.take(at + 1));
            lemma_bound_grows(at as nat + 1, 8);
            assert(groups_bound(8) == 0x1_0000_0000_0000_0000_0000_0000_0000_0000) by {
                reveal_with_fuel(groups_bound, 9);
            }
        }
        total = total * 65536 + groups[at] as u128;
        at = at + 1;
    }
    assert(groups@.take(8) =~= groups@);
    total
}

/// The bound of a shorter list is no larger.
pub proof fn lemma_bound_grows(shorter: nat, longer: nat)
    requires
        shorter <= longer,
    ensures
        groups_bound(shorter) <= groups_bound(longer),
    decreases longer,
{
    if shorter < longer {
        lemma_bound_grows(shorter, (longer - 1) as nat);
    }
}

/// Reads an IPv6 address.
pub fn parse_ipv6(text: &[u8]) -> (address: Option<u128>)
    ensures
        address == ipv6_literal(text@),
{
    match find_gap(text) {
        None => {
            let parts = split_bytes(text, COLON);
            match read_closing_groups(&parts) {
                Some(groups) => if groups.len() == 8 {
                    Some(join_groups(&groups))
                } else {
                    None
                },
                None => None,
            }
        },
        Some(at) => {
            let length: usize = text.len();
            assert(is_first_gap(text@, at as int));
            assert(text@.take(at as int) =~= text@.subrange(0, at as int));
            assert(text@.skip(at + 2) =~= text@.subrange(at + 2, text@.len() as int));
            let head_parts = chain_parts(slice_subrange(text, 0, at));
            let tail_parts = chain_parts(slice_subrange(text, at + 2, length));
            assert(chunk_views(head_parts@).take(head_parts@.len() as int) =~= chunk_views(
                head_parts@,
            ));
            let head = read_plain_groups(&head_parts, head_parts.len());
            let tail = read_closing_groups(&tail_parts);
            match (head, tail) {
                (Some(mut groups), Some(closing)) => {
                    if groups.len() > 7 || closing.len() > 7 - groups.len() {
                        return None;
                    }
                    let ghost opening = groups@;
                    let fill: usize = 8 - groups.len() - closing.len();
                    let mut filled: usize = 0;
                    while filled < fill
                        invariant
                            filled <= fill,
                            groups@ == opening + zero_groups(filled as int),
                        decreases fill - filled,
                    {
                        groups.push(0);
                        filled = filled + 1;
                        assert(groups@ =~= opening + zero_groups(filled as int));
                    }
                    let mut copied: usize = 0;
                    while copied < closing.len()
                        invariant
                            copied <= closing.len(),
                            groups@ == opening + zero_groups(fill as int) + closing@.take(
                                copied as int,
                            ),
                        decreases closing.len() - copied,
                    {
                        groups.push(closing[copied]);
                        copied = copied + 1;
                        assert(groups@ =~= opening + zero_groups(fill as int) + closing@.take(
                            copied as int,
                        ));
                    }
                    assert(closing@.take(copied as int) =~= closing@);
                    Some(join_groups(&groups))
                },
                _ => None,
            }
        },
    }
}

} // verus!
