//! Numeric text read as an address.
//!
//! The grammar is stated on bytes.  A dotted quad is four decimal octets
//! separated by dots, none with a needless leading zero.  The longer form is
//! made of groups of one to four hexadecimal digits separated by colons; one
//! pair of adjacent colons may stand for a run of zero groups, and the last
//! thirty-two bits may be written as a dotted quad.  Text with anything else
//! in it (a zone suffix, a space, a byte above the ASCII range) is no address.

use vstd::prelude::*;
use vstd::slice::slice_subrange;
use crate::address::{IpAddress, v6_of};

verus! {

/// The byte that separates the octets of a dotted quad.
pub const DOT: u8 = 46u8;

/// The byte that separates groups.
pub const COLON: u8 = 58u8;

/// What a byte is worth as a digit of the given radix (ten or sixteen), if it
/// is one.
pub open spec fn digit_of(byte: u8, radix: int) -> Option<int> {
    if 48 <= byte <= 57 {
        Some(byte - 48)
    } else if radix == 16 && 97 <= byte <= 102 {
        Some(byte - 87)
    } else if radix == 16 && 65 <= byte <= 70 {
        Some(byte - 55)
    } else {
        None
    }
}

/// Whether every byte of the text is a digit of the radix.
pub open spec fn all_digits(text: Seq<u8>, radix: int) -> bool {
    forall|i: int| 0 <= i < text.len() ==> (#[trigger] digit_of(text[i], radix)) is Some
}

/// The number that the digits of the text write in the radix, the first
/// digit weighing most.
pub open spec fn value_of(text: Seq<u8>, radix: int) -> int
    decreases text.len(),
{
    if text.len() == 0 {
        0
    } else {
        value_of(text.drop_last(), radix) * radix + digit_of(text.last(), radix).unwrap_or(0)
    }
}

/// A decimal octet: one to three decimal digits, no leading zero before
/// another digit, at most 255.
pub open spec fn octet(text: Seq<u8>) -> Option<u8> {
    if 1 <= text.len() <= 3 && all_digits(text, 10) && (text.len() == 1 || text[0] != 48)
        && value_of(text, 10) <= 255 {
        Some(value_of(text, 10) as u8)
    } else {
        None
    }
}

/// A group: one to four hexadecimal digits, in either case.
pub open spec fn group(text: Seq<u8>) -> Option<u16> {
    if 1 <= text.len() <= 4 && all_digits(text, 16) {
        Some(value_of(text, 16) as u16)
    } else {
        None
    }
}

/// The fields of a text: the runs between its separators, in order.  A text
/// without a separator is one field; a separator at either end, or two in a
/// row, leave an empty field.
pub open spec fn fields(text: Seq<u8>, sep: u8) -> Seq<Seq<u8>>
    decreases text.len(),
{
    if text.len() == 0 {
        seq![Seq::<u8>::empty()]
    } else {
        let before = fields(text.drop_last(), sep);
        if text.last() == sep {
            before.push(Seq::<u8>::empty())
        } else {
            before.drop_last().push(before.last().push(text.last()))
        }
    }
}

/// A text always has at least one field.
pub proof fn lemma_fields_nonempty(text: Seq<u8>, sep: u8)
    ensures
        fields(text, sep).len() >= 1,
    decreases text.len(),
{
    if text.len() > 0 {
        lemma_fields_nonempty(text.drop_last(), sep);
    }
}

/// The fields of a text written one after another with the separator
/// between them.
pub open spec fn joined(parts: Seq<Seq<u8>>, sep: u8) -> Seq<u8>
    decreases parts.len(),
{
    if parts.len() == 0 {
        Seq::empty()
    } else if parts.len() == 1 {
        parts[0]
    } else {
        joined(parts.drop_last(), sep).push(sep) + parts.last()
    }
}

/// The fields of a text are what stands between its separators: none of
/// them holds a separator, and written one after another with the separator
/// between them they are the text again.
pub proof fn lemma_fields_split(text: Seq<u8>, sep: u8)
    ensures
        forall|k: int|
            0 <= k < fields(text, sep).len() ==> !(#[trigger] fields(text, sep)[k]).contains(sep),
        joined(fields(text, sep), sep) == text,
    decreases text.len(),
{
    let parts = fields(text, sep);
    if text.len() == 0 {
        assert(joined(parts, sep) =~= text);
    } else {
        let front = text.drop_last();
        let before = fields(front, sep);
        lemma_fields_split(front, sep);
        lemma_fields_nonempty(front, sep);
        if text.last() == sep {
            assert(parts.drop_last() =~= before);
            assert(joined(parts, sep) =~= text);
        } else {
            let grown = before.last().push(text.last());
            assert(parts.last() == grown);
            assert forall|k: int| 0 <= k < parts.len() implies !(#[trigger] parts[k]).contains(
                sep,
            ) by {
                if k < parts.len() - 1 {
                    assert(parts[k] == before[k]);
                } else {
                    assert(!before[k].contains(sep));
                    assert forall|j: int| 0 <= j < grown.len() implies grown[j] != sep by {
                        if j < before[k].len() {
                            assert(before[k][j] == grown[j]);
                            assert(before[k].contains(grown[j]));
                        }
                    }
                }
            }
            if before.len() == 1 {
                assert(joined(parts, sep) =~= text);
            } else {
                let head = joined(before.drop_last(), sep).push(sep);
                assert(parts.drop_last() =~= before.drop_last());
                assert(front == head + before.last());
                assert(text =~= front.push(text.last()));
                assert(head + grown =~= (head + before.last()).push(text.last()));
            }
        }
    }
}

proof fn lemma_value_bound(text: Seq<u8>, radix: int)
    requires
        radix == 10 || radix == 16,
        text.len() <= 4,
    ensures
        0 <= value_of(text, radix),
        text.len() == 0 ==> value_of(text, radix) == 0,
        text.len() == 1 ==> value_of(text, radix) < radix,
        text.len() == 2 ==> value_of(text, radix) < radix * radix,
        text.len() == 3 ==> value_of(text, radix) < radix * radix * radix,
        text.len() == 4 ==> value_of(text, radix) < radix * radix * radix * radix,
    decreases text.len(),
{
    if text.len() > 0 {
        lemma_value_bound(text.drop_last(), radix);
    }
}

/// Reads a decimal octet.
pub fn parse_octet(text: &[u8]) -> (result: Option<u8>)
    ensures
        result == octet(text@),
{
    let n = text.len();
    if n == 0 || n > 3 {
        return None;
    }
    if n > 1 && text[0] == 48 {
        proof {
            assert(text@[0] == 48);
        }
        return None;
    }
    let mut acc: u32 = 0;
    let mut i: usize = 0;
    while i < n
        invariant
            n == text@.len(),
            1 <= n <= 3,
            0 <= i <= n,
            all_digits(text@.take(i as int), 10),
            acc == value_of(text@.take(i as int), 10),
        decreases n - i,
    {
        let b = text[i];
        if b < 48 || b > 57 {
            proof {
                assert(digit_of(text@[i as int], 10) is None);
            }
            return None;
        }
        proof {
            let next = text@.take(i + 1);
            assert(next.drop_last() =~= text@.take(i as int));
            assert(next.last() == b);
            lemma_value_bound(text@.take(i as int), 10);
            assert forall|k: int| 0 <= k < next.len() implies (#[trigger] digit_of(next[k], 10))
                is Some by {
                if k < i {
                    assert(next[k] == text@.take(i as int)[k]);
                }
            }
        }
        acc = acc * 10 + (b - 48) as u32;
        i += 1;
    }
    proof {
        assert(text@.take(n as int) =~= text@);
    }
    if acc > 255 {
        None
    } else {
        Some(acc as u8)
    }
}

/// Reads a group of hexadecimal digits.
pub fn parse_group(text: &[u8]) -> (result: Option<u16>)
    ensures
        result == group(text@),
{
    let n = text.len();
    if n == 0 || n > 4 {
        return None;
    }
    let mut acc: u32 = 0;
    let mut i: usize = 0;
    while i < n
        invariant
            n == text@.len(),
            1 <= n <= 4,
            0 <= i <= n,
            all_digits(text@.take(i as int), 16),
            acc == value_of(text@.take(i as int), 16),
        decreases n - i,
    {
        let b = text[i];
        let d: u8 = if 48 <= b && b <= 57 {
            b - 48
        } else if 97 <= b && b <= 102 {
            b - 87
        } else if 65 <= b && b <= 70 {
            b - 55
        } else {
            proof {
                assert(digit_of(text@[i as int], 16) is None);
            }
            return None;
        };
        proof {
            let next = text@.take(i + 1);
            assert(next.drop_last() =~= text@.take(i as int));
            assert(next.last() == b);
            lemma_value_bound(text@.take(i as int), 16);
            assert forall|k: int| 0 <= k < next.len() implies (#[trigger] digit_of(next[k], 16))
                is Some by {
                if k < i {
                    assert(next[k] == text@.take(i as int)[k]);
                }
            }
        }
        acc = acc * 16 + d as u32;
        i += 1;
    }
    proof {
        assert(text@.take(n as int) =~= text@);
        lemma_value_bound(text@, 16);
    }
    Some(acc as u16)
}

/// The fields that the slices of a vector hold.
pub open spec fn texts_of(parts: Seq<&[u8]>) -> Seq<Seq<u8>> {
    Seq::new(parts.len(), |k: int| parts[k]@)
}

/// Cuts a text at each separator.
pub fn split<'a>(text: &'a [u8], sep: u8) -> (parts: Vec<&'a [u8]>)
    ensures
        texts_of(parts@) == fields(text@, sep),
{
    let mut parts: Vec<&'a [u8]> = Vec::new();
    let mut start: usize = 0;
    let mut i: usize = 0;
    proof {
        assert(text@.take(0) =~= Seq::<u8>::empty());
        assert(texts_of(parts@).push(text@.subrange(0, 0)) =~= seq![Seq::<u8>::empty()]);
    }
    while i < text.len()
        invariant
            0 <= start <= i <= text@.len(),
            fields(text@.take(i as int), sep) == texts_of(parts@).push(
                text@.subrange(start as int, i as int),
            ),
        decreases text@.len() - i,
    {
        proof {
            let next = text@.take(i + 1);
            assert(next.drop_last() =~= text@.take(i as int));
            assert(next.last() == text@[i as int]);
            let before = fields(text@.take(i as int), sep);
            assert(before.drop_last() =~= texts_of(parts@));
            assert(before.last().push(text@[i as int]) =~= text@.subrange(
                start as int,
                i + 1,
            ));
        }
        if text[i] == sep {
            let part = slice_subrange(text, start, i);
            proof {
                assert(texts_of(parts@.push(part)) =~= texts_of(parts@).push(part@));
                assert(text@.subrange(i + 1, i + 1) =~= Seq::<u8>::empty());
            }
            parts.push(part);
            start = i + 1;
        }
        i += 1;
    }
    let part = slice_subrange(text, start, i);
    proof {
        assert(text@.take(i as int) =~= text@);
        assert(texts_of(parts@.push(part)) =~= texts_of(parts@).push(part@));
    }
    parts.push(part);
    parts
}

/// A dotted quad: exactly four fields between dots, each a decimal octet.
pub open spec fn dotted_quad(text: Seq<u8>) -> Option<(u8, u8, u8, u8)> {
    let parts = fields(text, DOT);
    if parts.len() == 4 {
        match (octet(parts[0]), octet(parts[1]), octet(parts[2]), octet(parts[3])) {
            (Some(a), Some(b), Some(c), Some(d)) => Some((a, b, c, d)),
            _ => None,
        }
    } else {
        None
    }
}

/// Reads a dotted quad.
pub fn parse_dotted_quad(text: &[u8]) -> (result: Option<(u8, u8, u8, u8)>)
    ensures
        result == dotted_quad(text@),
{
    let parts = split(text, DOT);
    if parts.len() != 4 {
        return None;
    }
    proof {
        let shown = texts_of(parts@);
        assert(shown[0] == parts@[0]@ && shown[1] == parts@[1]@ && shown[2] == parts@[2]@
            && shown[3] == parts@[3]@);
    }
    match (
        parse_octet(parts[0]),
        parse_octet(parts[1]),
        parse_octet(parts[2]),
        parse_octet(parts[3]),
    ) {
        (Some(a), Some(b), Some(c), Some(d)) => Some((a, b, c, d)),
        _ => None,
    }
}

/// The groups that a sequence of fields writes, if each of them is a group.
pub open spec fn groups(parts: Seq<Seq<u8>>) -> Option<Seq<u16>> {
    if forall|k: int| 0 <= k < parts.len() ==> (#[trigger] group(parts[k])) is Some {
        Some(Seq::new(parts.len(), |k: int| group(parts[k]).unwrap()))
    } else {
        None
    }
}

/// The two groups that hold the thirty-two bits of a dotted quad.
pub open spec fn quad_groups(quad: (u8, u8, u8, u8)) -> Seq<u16> {
    seq![(quad.0 * 256 + quad.1) as u16, (quad.2 * 256 + quad.3) as u16]
}

/// A run of groups separated by single colons; where `quad` is set, its last
/// field may be a dotted quad, which counts as two groups.  The empty text is
/// the run of no groups.
pub open spec fn group_run(text: Seq<u8>, quad: bool) -> Option<Seq<u16>> {
    if text.len() == 0 {
        Some(Seq::<u16>::empty())
    } else {
        let parts = fields(text, COLON);
        match groups(parts) {
            Some(all) => Some(all),
            None => if quad {
                match (groups(parts.drop_last()), dotted_quad(parts.last())) {
                    (Some(front), Some(tail)) => Some(front + quad_groups(tail)),
                    _ => None,
                }
            } else {
                None
            },
        }
    }
}

/// The view of a vector that may be missing.
pub open spec fn shown<T>(found: Option<Vec<T>>) -> Option<Seq<T>> {
    match found {
        Some(items) => Some(items@),
        None => None,
    }
}

/// Reads the first `count` fields as groups.
fn read_groups(parts: &Vec<&[u8]>, count: usize) -> (result: Option<Vec<u16>>)
    requires
        count <= parts@.len(),
    ensures
        shown(result) == groups(texts_of(parts@).take(count as int)),
{
    let ghost wanted = texts_of(parts@).take(count as int);
    let mut found: Vec<u16> = Vec::new();
    let mut k: usize = 0;
    while k < count
        invariant
            0 <= k <= count <= parts@.len(),
            wanted == texts_of(parts@).take(count as int),
            found@.len() == k,
            forall|j: int| 0 <= j < k ==> group(wanted[j]) == Some(#[trigger] found@[j]),
        decreases count - k,
    {
        proof {
            assert(wanted[k as int] == parts@[k as int]@);
        }
        match parse_group(parts[k]) {
            Some(g) => {
                found.push(g);
            },
            None => {
                proof {
                    assert(group(wanted[k as int]) is None);
                }
                return None;
            },
        }
        k += 1;
    }
    proof {
        assert forall|j: int| 0 <= j < wanted.len() implies (#[trigger] group(wanted[j]))
            is Some by {
            assert(group(wanted[j]) == Some(found@[j]));
        }
        assert(found@ =~= groups(wanted).unwrap());
    }
    Some(found)
}

/// Reads a run of groups.
pub fn parse_group_run(text: &[u8], quad: bool) -> (result: Option<Vec<u16>>)
    ensures
        shown(result) == group_run(text@, quad),
{
    if text.len() == 0 {
        return Some(Vec::new());
    }
    let parts = split(text, COLON);
    proof {
        lemma_fields_nonempty(text@, COLON);
        assert(texts_of(parts@).take(parts@.len() as int) =~= texts_of(parts@));
    }
    match read_groups(&parts, parts.len()) {
        Some(all) => Some(all),
        None => {
            if !quad {
                return None;
            }
            let n: usize = parts.len() - 1;
            proof {
                assert(texts_of(parts@).take(n as int) =~= texts_of(parts@).drop_last());
                assert(texts_of(parts@).last() == parts@[n as int]@);
            }
            match read_groups(&parts, n) {
                None => None,
                Some(front) => match parse_dotted_quad(parts[n]) {
                    None => None,
                    Some(tail) => {
                        let mut all = front;
                        all.push(tail.0 as u16 * 256 + tail.1 as u16);
                        all.push(tail.2 as u16 * 256 + tail.3 as u16);
                        proof {
                            assert(all@ =~= front@ + quad_groups(tail));
                        }
                        Some(all)
                    },
                },
            }
        },
    }
}

/// Whether two colons stand side by side at a position.
pub open spec fn gap_at(text: Seq<u8>, at: int) -> bool {
    0 <= at && at + 1 < text.len() && text[at] == COLON && text[at + 1] == COLON
}

/// Whether a position is the first at which two colons stand side by side.
pub open spec fn first_gap_at(text: Seq<u8>, at: int) -> bool {
    gap_at(text, at) && forall|before: int| before < at ==> !gap_at(text, before)
}

/// The first position at which two colons stand side by side, if there is
/// one.
pub open spec fn first_gap(text: Seq<u8>) -> Option<int> {
    if exists|at: int| gap_at(text, at) {
        Some(choose|at: int| first_gap_at(text, at))
    } else {
        None
    }
}

/// Finds the first pair of adjacent colons.
pub fn find_gap(text: &[u8]) -> (result: Option<usize>)
    ensures
        match result {
            Some(at) => first_gap(text@) == Some(at as int) && first_gap_at(text@, at as int),
            None => first_gap(text@) is None,
        },
{
    let mut i: usize = 0;
    while i < text.len()
        invariant
            0 <= i <= text@.len(),
            forall|before: int| before < i ==> !gap_at(text@, before),
        decreases text@.len() - i,
    {
        if text[i] == COLON && i + 1 < text.len() && text[i + 1] == COLON {
            proof {
                assert(first_gap_at(text@, i as int));
                let chosen = choose|at: int| first_gap_at(text@, at);
                assert(first_gap_at(text@, chosen));
                assert(chosen == i) by {
                    if chosen < i {
                        assert(!gap_at(text@, chosen));
                    }
                    if i < chosen {
                        assert(!gap_at(text@, i as int));
                    }
                }
            }
            return Some(i);
        }
        i += 1;
    }
    proof {
        assert forall|at: int| !gap_at(text@, at) by {
            if gap_at(text@, at) {
                assert(at < i);
            }
        }
    }
    None
}

/// A run of zero groups.
pub open spec fn zero_groups(count: int) -> Seq<u16> {
    Seq::new(count as nat, |k: int| 0u16)
}

/// The eight groups that a text in the colon form writes.
///
/// Without a pair of adjacent colons the text is a run of exactly eight
/// groups.  With one, the text before the first such pair is a run without a
/// dotted quad, the text after it a run that may end in one; together they
/// hold at most seven groups, and zero groups fill the place between them.
pub open spec fn colon_form(text: Seq<u8>) -> Option<Seq<u16>> {
    match first_gap(text) {
        None => match group_run(text, true) {
            Some(all) => if all.len() == 8 {
                Some(all)
            } else {
                None
            },
            None => None,
        },
        Some(at) => match (group_run(text.take(at), false), group_run(text.skip(at + 2), true)) {
            (Some(head), Some(tail)) => if head.len() + tail.len() <= 7 {
                Some(head + zero_groups(8 - head.len() - tail.len()) + tail)
            } else {
                None
            },
            _ => None,
        },
    }
}

/// The address that a text writes, if it writes one: a dotted quad is an
/// address of the shorter kind, a text in the colon form one of the longer.
pub open spec fn address(text: Seq<u8>) -> Option<IpAddress> {
    match dotted_quad(text) {
        Some(quad) => Some(IpAddress::V4(quad.0, quad.1, quad.2, quad.3)),
        None => match colon_form(text) {
            Some(all) => Some(v6_of(all)),
            None => None,
        },
    }
}

/// One group of a head, a filling of zeros and a tail.
fn group_at(head: &Vec<u16>, tail: &Vec<u16>, at: usize) -> (found: u16)
    requires
        head@.len() + tail@.len() <= 7,
        at < 8,
    ensures
        found == (head@ + zero_groups(8 - head@.len() - tail@.len()) + tail@)[at as int],
{
    if at < head.len() {
        head[at]
    } else if at < 8 - tail.len() {
        0
    } else {
        tail[at - (8 - tail.len())]
    }
}

/// Reads a text in the colon form.
pub fn parse_colon_form(text: &[u8]) -> (result: Option<IpAddress>)
    ensures
        result == match colon_form(text@) {
            Some(all) => Some(v6_of(all)),
            None => None,
        },
{
    match find_gap(text) {
        None => match parse_group_run(text, true) {
            Some(all) => if all.len() == 8 {
                Some(
                    IpAddress::V6(
                        all[0],
                        all[1],
                        all[2],
                        all[3],
                        all[4],
                        all[5],
                        all[6],
                        all[7],
                    ),
                )
            } else {
                None
            },
            None => None,
        },
        Some(at) => {
            assert(gap_at(text@, at as int));
            assert(at + 1 < text.len());
            let before = slice_subrange(text, 0, at);
            let after = slice_subrange(text, at + 2, text.len());
            match (parse_group_run(before, false), parse_group_run(after, true)) {
                (Some(head), Some(tail)) => if head.len() <= 7 && tail.len() <= 7 - head.len() {
                    Some(
                        IpAddress::V6(
                            group_at(&head, &tail, 0),
                            group_at(&head, &tail, 1),
                            group_at(&head, &tail, 2),
                            group_at(&head, &tail, 3),
                            group_at(&head, &tail, 4),
                            group_at(&head, &tail, 5),
                            group_at(&head, &tail, 6),
                            group_at(&head, &tail, 7),
                        ),
                    )
                } else {
                    None
                },
                _ => None,
            }
        },
    }
}

/// Reads numeric text as an address of either kind.
pub fn parse_address(text: &[u8]) -> (result: Option<IpAddress>)
    ensures
        result == address(text@),
{
    match parse_dotted_quad(text) {
        Some(quad) => Some(IpAddress::V4(quad.0, quad.1, quad.2, quad.3)),
        None => parse_colon_form(text),
    }
}

/// The text that a buffer holds: its bytes before the first zero byte, or all
/// of them where it has none.
pub open spec fn text_of(data: Seq<u8>) -> Seq<u8> {
    if exists|at: int| 0 <= at < data.len() && data[at] == 0 {
        data.take(choose|at: int| first_zero_at(data, at))
    } else {
        data
    }
}

/// Whether a position holds the first zero byte of a buffer.
pub open spec fn first_zero_at(data: Seq<u8>, at: int) -> bool {
    &&& 0 <= at < data.len()
    &&& data[at] == 0
    &&& forall|before: int| 0 <= before < at ==> data[before] != 0
}

/// Cuts a buffer at its first zero byte.
pub fn terminated<'a>(data: &'a [u8]) -> (text: &'a [u8])
    ensures
        text@ == text_of(data@),
{
    let mut i: usize = 0;
    while i < data.len()
        invariant
            0 <= i <= data@.len(),
            forall|before: int| 0 <= before < i ==> data@[before] != 0,
        decreases data@.len() - i,
    {
        if data[i] == 0 {
            proof {
                assert(first_zero_at(data@, i as int));
                let chosen = choose|at: int| first_zero_at(data@, at);
                assert(first_zero_at(data@, chosen));
                assert(chosen == i);
            }
            return slice_subrange(data, 0, i);
        }
        i += 1;
    }
    data
}

/// Reads the address that a text buffer holds, if its text is one.
pub fn to_ip(data: &[u8]) -> (result: Option<IpAddress>)
    ensures
        result == address(text_of(data@)),
{
    parse_address(terminated(data))
}

} // verus!
