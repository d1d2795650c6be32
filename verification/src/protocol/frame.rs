//! The octets of units and frames.

use crate::protocol::codec::{
    decode_objects, encode_objects, law_objects_survive_the_wire, objects_octets, objects_of,
};
use crate::protocol::element::{low_octet, octets24, unsigned24, InformationObject, TypeId};
use crate::protocol::iec::{
    asdu_header, compact_octets, consecutive, elements_octets, iec_apdu, iec_asdu_octets,
    iec_type_is_standard, iec_type_size, laid_out, numbered_frame, object_address, parse_apdu,
    serialize_asdu, supervisory_octets, too_many_text, type_is_standard, type_size,
    unnumbered_octets, unreadable, RawAsdu, RawAsduView, RawFrame, RawFrameView,
};
use crate::protocol::message::{
    append_octets, objects_valid, Asdu, AsduView, Frame, FrameView, InformationObjects, ObjectsView,
};
use crate::text::{cat, cat_hex_octet, cat_number, cat_wide, decimal, hex_octet};
use vstd::prelude::*;

verus! {

pub const TELEGRAM_HEADER: u8 = 0x68;

pub const MAX_APDU_PAYLOAD: usize = 253;

pub const SEQUENCE_MODULUS: u16 = 32_768;

// ---------------------------------------------------------------------------
// The octets of a unit.
/// The unit as it is written with individually addressed objects.
pub open spec fn expanded_octets(asdu: AsduView) -> Result<Seq<u8>, Seq<char>> {
    iec_asdu_octets(
        asdu.type_id.number(),
        asdu.cot,
        asdu.originator_address,
        asdu.address_field,
        asdu.test,
        asdu.negative,
        asdu.objects.octets(),
    )
}

/// The octets with the flag of consecutive addressing in the second one.
pub open spec fn flagged(octets: Seq<u8>) -> Seq<u8> {
    if octets.len() > 1 && octets[1] < 128 {
        octets.update(1, (octets[1] + 128) as u8)
    } else {
        octets
    }
}

/// The address of the object at a position among individually addressed ones.
pub open spec fn address_at(octets: Seq<u8>, index: int, size: int) -> int {
    unsigned24(octets.subrange(6 + index * (3 + size), 6 + index * (3 + size) + 3))
}

/// The elements of the first objects among individually addressed ones.
pub open spec fn elements_at(octets: Seq<u8>, count: int, size: int) -> Seq<u8>
    decreases count,
{
    if count <= 0 {
        Seq::empty()
    } else {
        elements_at(octets, count - 1, size) + octets.subrange(
            6 + (count - 1) * (3 + size) + 3,
            6 + (count - 1) * (3 + size) + 3 + size,
        )
    }
}

/// The addresses of the first objects count up by one.
pub open spec fn addresses_count_up(octets: Seq<u8>, count: int, size: int) -> bool {
    forall|i: int|
        0 <= i < count ==> #[trigger] address_at(octets, i, size) == address_at(octets, 0, size) + i
}

/// The octets with one address for all objects.
pub open spec fn shortened(octets: Seq<u8>, count: int, size: int) -> Seq<u8> {
    flagged(octets.take(6)) + octets.subrange(6, 9) + elements_at(octets, count, size)
}

pub open spec fn gap_text(first: int, index: int, address: int) -> Seq<char> {
    "顺序编址要求 IOA 连续：起始 "@ + decimal(first as nat) + "，第 "@ + decimal(index as nat)
        + " 个为 "@ + decimal(address as nat)
}

pub open spec fn encode_failed(text: Seq<char>) -> Seq<char> {
    "编码 ASDU 失败: "@ + text
}

/// The first position whose address does not count up, if there is one.
pub open spec fn first_gap(octets: Seq<u8>, count: int, size: int) -> Option<int>
    decreases count,
{
    if count <= 0 {
        None
    } else {
        match first_gap(octets, count - 1, size) {
            Some(index) => Some(index),
            None => if address_at(octets, count - 1, size) != address_at(octets, 0, size) + (count
                - 1) {
                Some(count - 1)
            } else {
                None
            },
        }
    }
}

/// What becomes of individually addressed objects that are to be written with
/// one address.
pub open spec fn sequence_outcome(octets: Seq<u8>, count: int, size: int) -> Result<
    Seq<u8>,
    Seq<char>,
> {
    match first_gap(octets, count, size) {
        None => Ok(shortened(octets, count, size)),
        Some(index) => Err(
            gap_text(address_at(octets, 0, size), index, address_at(octets, index, size)),
        ),
    }
}

/// What is written of a unit, or why it is refused.
pub open spec fn unit_octets(asdu: AsduView) -> Result<Seq<u8>, Seq<char>> {
    let count = asdu.objects.count() as int;
    let size = iec_type_size(asdu.type_id.number()) as int;
    match expanded_octets(asdu) {
        Err(reason) => Err(encode_failed(reason)),
        Ok(octets) => if count > 127 {
            Err(encode_failed(too_many_text(count as nat)))
        } else if !asdu.sequence {
            Ok(octets)
        } else if count <= 1 {
            Ok(flagged(octets))
        } else if !iec_type_is_standard(asdu.type_id.number()) {
            Err("非标准 TypeID 不支持顺序编址"@)
        } else if octets.len() != 6 + count * (3 + size) {
            Err(
                "顺序编址转换长度不匹配：实际 "@ + decimal(octets.len()) + "，期望 "@ + decimal(
                    (6 + count * (3 + size)) as nat,
                ),
            )
        } else {
            sequence_outcome(octets, count, size)
        },
    }
}

/// The octets of a valid unit of a known type that the station can write: with
/// individual addresses, or with one address for objects that count up.
pub open spec fn known_octets(asdu: AsduView, objects: Seq<InformationObject>) -> Seq<u8> {
    let header = asdu_header(
        asdu.type_id.number(),
        objects.len() as int,
        asdu.sequence,
        asdu.cot,
        asdu.originator_address,
        asdu.address_field,
        asdu.test,
        asdu.negative,
    );
    if asdu.sequence && objects.len() > 1 {
        header + compact_octets(objects)
    } else {
        header + objects_octets(objects)
    }
}

/// A valid unit of a known type can be written.
pub open spec fn writable(asdu: AsduView, objects: Seq<InformationObject>) -> bool {
    &&& asdu.valid()
    &&& asdu.objects == ObjectsView::Known(objects)
    &&& objects.len() <= 127
    &&& asdu.sequence ==> consecutive(objects)
}

pub open spec fn octets_view(result: Result<Vec<u8>, String>) -> Result<Seq<u8>, Seq<char>> {
    match result {
        Ok(octets) => Ok(octets@),
        Err(text) => Err(text@),
    }
}

/// Each object takes the same number of octets, so that the octets of one are
/// found by its position.
proof fn lemma_object_at(type_id: TypeId, objects: Seq<InformationObject>, index: int)
    requires
        objects_valid(type_id, objects),
        0 <= index < objects.len(),
    ensures
        ({
            let width = 3 + type_id.element_size();
            &&& objects_octets(objects).len() == objects.len() * width
            &&& objects_octets(objects).subrange(index * width, index * width + width)
                == objects[index].octets()
            &&& 0 <= index * width
            &&& index * width + width <= objects.len() * width
        }),
    decreases objects.len(),
{
    let width = 3 + type_id.element_size() as int;
    law_objects_survive_the_wire(type_id, objects);
    let before = objects.drop_last();
    assert(objects_valid(type_id, before)) by {
        assert forall|i: int| 0 <= i < before.len() implies (#[trigger] before[i]).valid()
            && before[i].element.kind() == type_id by {
            assert(before[i] == objects[i]);
        }
    }
    law_objects_survive_the_wire(type_id, before);
    assert(objects.last().valid() && objects.last().element.kind() == type_id);
    crate::protocol::codec::law_element_survives_the_wire(objects.last().element);
    assert(0 <= index * width && index * width + width <= objects.len() * width)
        by (nonlinear_arith)
        requires
            0 <= index < objects.len(),
            width > 0,
    ;
    let all = objects_octets(objects);
    if index == objects.len() - 1 {
        assert(before.len() * width == index * width) by (nonlinear_arith)
            requires
                before.len() == index,
        ;
        assert(all.subrange(index * width, index * width + width) =~= objects.last().octets());
    } else {
        lemma_object_at(type_id, before, index);
        assert(all.subrange(index * width, index * width + width) =~= objects_octets(
            before,
        ).subrange(index * width, index * width + width));
    }
}

proof fn lemma_known_objects_in_octets(
    type_id: TypeId,
    objects: Seq<InformationObject>,
    octets: Seq<u8>,
    count: int,
)
    requires
        objects_valid(type_id, objects),
        octets.len() >= 6,
        octets.skip(6) == objects_octets(objects),
        0 <= count <= objects.len(),
    ensures
        forall|i: int|
            0 <= i < count ==> #[trigger] address_at(octets, i, type_id.element_size() as int)
                == objects[i].address,
        elements_at(octets, count, type_id.element_size() as int) == elements_octets(
            objects.take(count),
        ),
    decreases count,
{
    let size = type_id.element_size() as int;
    let width = 3 + size;
    if count > 0 {
        lemma_known_objects_in_octets(type_id, objects, octets, count - 1);
        let index = count - 1;
        lemma_object_at(type_id, objects, index);
        let object = objects[index];
        assert(object.valid() && object.element.kind() == type_id);
        crate::protocol::codec::law_element_survives_the_wire(object.element);
        let slot = octets.skip(6).subrange(index * width, index * width + width);
        assert(slot == object.octets());
        assert(octets.subrange(6 + index * width, 6 + index * width + 3) =~= slot.take(3));
        assert(slot.take(3) =~= octets24(object.address as int));
        assert(unsigned24(octets24(object.address as int)) == object.address) by {
            let value = object.address as int;
            assert(value / 65536 == (value / 256) / 256);
        }
        assert(octets.subrange(6 + index * width + 3, 6 + index * width + 3 + size) =~= slot.skip(
            3,
        ));
        assert(slot.skip(3) =~= object.element.octets());
        assert(objects.take(count).drop_last() =~= objects.take(count - 1));
        assert(objects.take(count).last() == object);
    } else {
        assert(objects.take(count) =~= Seq::<InformationObject>::empty());
    }
}

fn ioa_at(octets: &Vec<u8>, index: usize, object_size: usize) -> (result: u32)
    requires
        index <= 127,
        object_size <= 12,
        6 + index * (3 + object_size) + 3 <= octets@.len(),
    ensures
        result == address_at(octets@, index as int, object_size as int),
        result < 0x100_0000,
{
    proof {
        assert(index * (3 + object_size) <= 127 * 15) by (nonlinear_arith)
            requires
                0 <= index <= 127,
                0 <= object_size <= 12,
        ;
    }
    let offset: usize = 6 + index * (3 + object_size);
    crate::protocol::codec::take_unsigned24(octets.as_slice(), offset)
}

fn flag_sequence(octets: &mut Vec<u8>)
    ensures
        final(octets)@ == flagged(old(octets)@),
{
    if octets.len() > 1 && octets[1] < 128 {
        let flagged_count: u8 = octets[1] + 128;
        octets.set(1, flagged_count);
    }
}

proof fn lemma_flag_of_known(asdu: AsduView, known: Seq<InformationObject>, expanded: Seq<u8>)
    requires
        asdu.sequence,
        known.len() <= 127,
        expanded == asdu_header(
            asdu.type_id.number(),
            known.len() as int,
            false,
            asdu.cot,
            asdu.originator_address,
            asdu.address_field,
            asdu.test,
            asdu.negative,
        ) + objects_octets(known),
    ensures
        flagged(expanded.take(6)) == asdu_header(
            asdu.type_id.number(),
            known.len() as int,
            true,
            asdu.cot,
            asdu.originator_address,
            asdu.address_field,
            asdu.test,
            asdu.negative,
        ),
        flagged(expanded) == asdu_header(
            asdu.type_id.number(),
            known.len() as int,
            true,
            asdu.cot,
            asdu.originator_address,
            asdu.address_field,
            asdu.test,
            asdu.negative,
        ) + objects_octets(known),
{
    let plain = asdu_header(
        asdu.type_id.number(),
        known.len() as int,
        false,
        asdu.cot,
        asdu.originator_address,
        asdu.address_field,
        asdu.test,
        asdu.negative,
    );
    let marked = asdu_header(
        asdu.type_id.number(),
        known.len() as int,
        true,
        asdu.cot,
        asdu.originator_address,
        asdu.address_field,
        asdu.test,
        asdu.negative,
    );
    assert(expanded.take(6) =~= plain);
    assert(flagged(plain) =~= marked);
    assert(flagged(expanded) =~= marked + objects_octets(known));
}

proof fn lemma_first_gap_of_prefix(octets: Seq<u8>, shorter: int, count: int, size: int)
    requires
        0 <= shorter <= count,
        first_gap(octets, shorter, size) is Some,
    ensures
        first_gap(octets, count, size) == first_gap(octets, shorter, size),
    decreases count - shorter,
{
    if shorter < count {
        lemma_first_gap_of_prefix(octets, shorter, count - 1, size);
    }
}

proof fn lemma_first_gap(octets: Seq<u8>, count: int, size: int)
    ensures
        first_gap(octets, count, size) is None == addresses_count_up(octets, count, size),
        first_gap(octets, count, size) matches Some(index) ==> 0 <= index < count
            && addresses_count_up(octets, index, size) && address_at(octets, index, size)
            != address_at(octets, 0, size) + index,
    decreases count,
{
    if count > 0 {
        lemma_first_gap(octets, count - 1, size);
        if addresses_count_up(octets, count, size) {
            assert forall|i: int| 0 <= i < count - 1 implies #[trigger] address_at(octets, i, size)
                == address_at(octets, 0, size) + i by {}
            assert(address_at(octets, count - 1, size) == address_at(octets, 0, size) + (count
                - 1));
        }
    }
}

fn compact_sequence(octets: &Vec<u8>, count: usize, size: usize) -> (result: Result<
    Vec<u8>,
    String,
>)
    requires
        1 < count <= 127,
        size <= 12,
        octets@.len() == 6 + count * (3 + size),
    ensures
        octets_view(result) == sequence_outcome(octets@, count as int, size as int),
{
    proof {
        assert(3 + size <= count * (3 + size)) by (nonlinear_arith)
            requires
                1 <= count,
                0 <= size,
        ;
        assert(0 * (3 + size) == 0);
    }
    let first: u32 = ioa_at(octets, 0, size);
    let mut compact: Vec<u8> = Vec::new();
    append_octets(&mut compact, octets.as_slice(), 0, 6);
    assert(compact@ =~= octets@.take(6));
    flag_sequence(&mut compact);
    append_octets(&mut compact, octets.as_slice(), 6, 9);
    let ghost head = flagged(octets@.take(6)) + octets@.subrange(6, 9);
    assert(compact@ =~= head + elements_at(octets@, 0, size as int));
    let mut index: usize = 0;
    while index < count
        invariant
            index <= count <= 127,
            size <= 12,
            octets@.len() == 6 + count * (3 + size),
            first == address_at(octets@, 0, size as int),
            first < 0x100_0000,
            first_gap(octets@, index as int, size as int) is None,
            compact@ == head + elements_at(octets@, index as int, size as int),
        decreases count - index,
    {
        proof {
            assert(6 + index * (3 + size) + (3 + size) <= 6 + count * (3 + size))
                by (nonlinear_arith)
                requires
                    0 <= index < count,
                    0 <= size,
            ;
            assert(index * (3 + size) <= 127 * 15) by (nonlinear_arith)
                requires
                    0 <= index <= 127,
                    0 <= size <= 12,
            ;
        }
        let offset: usize = 6 + index * (3 + size);
        let address: u32 = ioa_at(octets, index, size);
        if address != first + index as u32 {
            let text = cat_number("顺序编址要求 IOA 连续：起始 ".to_owned(), first as u64);
            let text = cat_number(cat(text, "，第 "), index as u64);
            let text = cat_number(cat(text, " 个为 "), address as u64);
            proof {
                assert(first_gap(octets@, index + 1, size as int) == Some(index as int));
                lemma_first_gap_of_prefix(octets@, index + 1, count as int, size as int);
            }
            return Err(text);
        }
        append_octets(&mut compact, octets.as_slice(), offset + 3, offset + 3 + size);
        assert(compact@ =~= head + elements_at(octets@, index + 1, size as int));
        index += 1;
    }
    assert(compact@ =~= shortened(octets@, count as int, size as int));
    Ok(compact)
}

/// Objects of a known type count up in the octets exactly where their addresses
/// do, and are then shortened to one address and the elements.
proof fn lemma_known_sequence(asdu: AsduView, known: Seq<InformationObject>, expanded: Seq<u8>)
    requires
        asdu.valid(),
        asdu.objects == ObjectsView::Known(known),
        asdu.sequence,
        1 < known.len() <= 127,
        expanded == asdu_header(
            asdu.type_id.number(),
            known.len() as int,
            false,
            asdu.cot,
            asdu.originator_address,
            asdu.address_field,
            asdu.test,
            asdu.negative,
        ) + objects_octets(known),
    ensures
        ({
            let count = known.len() as int;
            let size = asdu.type_id.element_size() as int;
            &&& expanded.len() == 6 + count * (3 + size)
            &&& first_gap(expanded, count, size) is None == consecutive(known)
            &&& shortened(expanded, count, size) == known_octets(asdu, known)
        }),
{
    let count = known.len() as int;
    let size = asdu.type_id.element_size() as int;
    law_objects_survive_the_wire(asdu.type_id, known);
    lemma_flag_of_known(asdu, known, expanded);
    assert(expanded.skip(6) =~= objects_octets(known));
    lemma_known_objects_in_octets(asdu.type_id, known, expanded, count);
    assert(known.take(count) =~= known);
    lemma_first_gap(expanded, count, size);
    assert(address_at(expanded, 0, size) == known[0].address);
    if addresses_count_up(expanded, count, size) {
        assert forall|i: int| 0 <= i < known.len() implies (#[trigger] known[i]).address
            == known[0].address + i by {
            assert(address_at(expanded, i, size) == known[i].address);
        }
    }
    if consecutive(known) {
        assert forall|i: int| 0 <= i < count implies #[trigger] address_at(expanded, i, size)
            == address_at(expanded, 0, size) + i by {
            assert(known[i].address == known[0].address + i);
        }
    }
    lemma_object_at(asdu.type_id, known, 0);
    let width = 3 + size;
    assert(0 * width == 0);
    let objects = objects_octets(known);
    assert(expanded.subrange(6, 9) =~= objects.subrange(0, width).take(3));
    assert(objects.subrange(0, width).take(3) =~= octets24(known[0].address as int));
    assert(shortened(expanded, count, size) =~= known_octets(asdu, known));
}

/// Two or more whole objects of a standard type that have no element here, to be
/// written with one address.
pub open spec fn passed_sequence(asdu: AsduView) -> bool {
    let size = iec_type_size(asdu.type_id.number()) as int;
    &&& asdu.valid()
    &&& asdu.sequence
    &&& iec_type_is_standard(asdu.type_id.number())
    &&& asdu.objects matches ObjectsView::Other { count, octets } && count > 1 && octets.len()
        == count * (3 + size)
}

/// The address of an object of a type that has no element here.
pub open spec fn passed_address(asdu: AsduView, index: int) -> int {
    object_address(
        asdu.objects.octets(),
        index,
        iec_type_size(asdu.type_id.number()) as int,
    )
}

/// The addresses of the objects count up by one.
pub open spec fn passed_counts_up(asdu: AsduView) -> bool {
    forall|i: int|
        0 <= i < asdu.objects.count() ==> #[trigger] passed_address(asdu, i) == passed_address(
            asdu,
            0,
        ) + i
}

/// A unit is written with the header, the length and the addresses of its
/// objects.
pub open spec fn plainly_written(asdu: AsduView, octets: Seq<u8>) -> bool {
    expanded_octets(asdu) == Ok::<Seq<u8>, Seq<char>>(octets) && laid_out(
        asdu.type_id.number(),
        asdu.cot,
        asdu.originator_address,
        asdu.address_field,
        asdu.test,
        asdu.negative,
        asdu.objects.octets(),
        octets,
    )
}

/// What is written with one address for all objects, against what is written
/// with an address for each: refused where the addresses do not count up, else
/// three octets shorter for each object but the first, and flagged.
pub open spec fn passed_encodes(asdu: AsduView, outcome: Result<Seq<u8>, Seq<char>>) -> bool {
    match unit_octets(AsduView { sequence: false, ..asdu }) {
        Err(_) => outcome is Err,
        Ok(plain) => plainly_written(asdu, plain) && if passed_counts_up(asdu) {
            outcome matches Ok(short) && {
                &&& short.len() + 3 * (asdu.objects.count() - 1) == plain.len()
                &&& plain[1] == asdu.objects.count()
                &&& short[1] == plain[1] + 128
                &&& short == shortened(
                    plain,
                    asdu.objects.count() as int,
                    iec_type_size(asdu.type_id.number()) as int,
                )
            }
        } else {
            outcome is Err
        },
    }
}

proof fn lemma_elements_length(octets: Seq<u8>, count: int, size: int)
    requires
        0 <= count,
        0 <= size,
        6 + count * (3 + size) <= octets.len(),
    ensures
        elements_at(octets, count, size).len() == count * size,
    decreases count,
{
    if count > 0 {
        assert((count - 1) * (3 + size) + (3 + size) == count * (3 + size) && 0 <= (count - 1) * (3
            + size) && (count - 1) * size + size == count * size) by (nonlinear_arith)
            requires
                count > 0,
                size >= 0,
        ;
        lemma_elements_length(octets, count - 1, size);
    } else {
        assert(0 * size == 0);
    }
}

/// A unit that was written plainly is shortened exactly where its addresses
/// count up.
proof fn lemma_passed_sequence(asdu: AsduView, plain: Seq<u8>)
    requires
        passed_sequence(asdu),
        plainly_written(asdu, plain),
    ensures
        ({
            let count = asdu.objects.count() as int;
            let size = iec_type_size(asdu.type_id.number()) as int;
            &&& count <= 127
            &&& plain.len() == 6 + count * (3 + size)
            &&& plain[1] == count
            &&& first_gap(plain, count, size) is None == passed_counts_up(asdu)
            &&& shortened(plain, count, size).len() + 3 * (count - 1) == plain.len()
            &&& shortened(plain, count, size)[1] == plain[1] + 128
        }),
{
    let count = asdu.objects.count() as int;
    let size = iec_type_size(asdu.type_id.number()) as int;
    let octets = asdu.objects.octets();
    vstd::arithmetic::div_mod::lemma_div_multiples_vanish(count, 3 + size);
    assert(count * (3 + size) == (3 + size) * count) by (nonlinear_arith);
    assert(octets.len() as int / (3 + size) == count);
    assert(plain[1] == plain.take(6)[1]);
    lemma_first_gap(plain, count, size);
    if passed_counts_up(asdu) {
        assert forall|i: int| 0 <= i < count implies #[trigger] address_at(plain, i, size)
            == address_at(plain, 0, size) + i by {
            assert(passed_address(asdu, i) == passed_address(asdu, 0) + i);
        }
    }
    if addresses_count_up(plain, count, size) {
        assert forall|i: int| 0 <= i < count implies #[trigger] passed_address(asdu, i)
            == passed_address(asdu, 0) + i by {
            assert(address_at(plain, i, size) == address_at(plain, 0, size) + i);
        }
    }
    lemma_elements_length(plain, count, size);
    assert(count * (3 + size) == 3 * count + count * size) by (nonlinear_arith);
    assert(9 <= plain.len()) by {
        assert(count * (3 + size) >= 6) by (nonlinear_arith)
            requires
                count >= 2,
                size >= 0,
        ;
    }
    assert(flagged(plain.take(6)).len() == 6);
}

/// What a unit is written as, or why it is refused: of a valid unit of a known
/// type the octets are known, and of any standard type what one address for all
/// objects changes.
pub open spec fn encodes_as(asdu: AsduView, outcome: Result<Seq<u8>, Seq<char>>) -> bool {
    &&& outcome == unit_octets(asdu)
    &&& asdu.valid() && asdu.objects is Known ==> known_encodes(
        asdu,
        asdu.objects->Known_0,
        outcome,
    )
    &&& passed_sequence(asdu) ==> passed_encodes(asdu, outcome)
}

/// Writes a unit, with one address for all objects where the unit asks for it.
pub fn encode_asdu_bytes(asdu: &Asdu) -> (result: Result<Vec<u8>, String>)
    ensures
        encodes_as(asdu@, octets_view(result)),
{
    let objects = match &asdu.information_objects {
        InformationObjects::Known(objects) => encode_objects(objects),
        InformationObjects::Other { octets, .. } => crate::protocol::message::copy_octets(
            octets.as_slice(),
        ),
    };
    assert(objects@ == asdu@.objects.octets());
    let written = serialize_asdu(
        asdu.type_id.code(),
        asdu.cot,
        asdu.originator_address,
        asdu.address_field,
        asdu.test,
        asdu.negative,
        objects.as_slice(),
    );
    let ghost known = asdu@.objects->Known_0;
    let ghost valid_known = asdu@.valid() && asdu@.objects is Known;
    assert(valid_known ==> objects_octets(known) == objects@);
    let mut octets = match written {
        Ok(octets) => octets,
        Err(text) => {
            let failure = cat("编码 ASDU 失败: ".to_owned(), text.as_str());
            assert(failure@ == encode_failed(text@));
            return Err(failure);
        },
    };
    let count: usize = asdu.information_objects.len();
    proof {
        if passed_sequence(asdu@) {
            assert(expanded_octets(AsduView { sequence: false, ..asdu@ }) == expanded_octets(
                asdu@,
            ));
            lemma_passed_sequence(asdu@, octets@);
        }
    }
    if count > 127 {
        let text = cat_number(
            "Too many objects. Max number of objects is 127, got ".to_owned(),
            count as u64,
        );
        let text = cat(text, " objects.");
        return Err(cat("编码 ASDU 失败: ".to_owned(), text.as_str()));
    }
    if !asdu.sequence {
        return Ok(octets);
    }
    if count <= 1 {
        proof {
            if valid_known {
                lemma_flag_of_known(asdu@, known, octets@);
            }
        }
        flag_sequence(&mut octets);
        return Ok(octets);
    }
    proof {
        if valid_known {
            lemma_known_sequence(asdu@, known, octets@);
        }
    }
    if !type_is_standard(asdu.type_id.code()) {
        return Err("非标准 TypeID 不支持顺序编址".to_owned());
    }
    let size: usize = type_size(asdu.type_id.code());
    proof {
        assert(count * (3 + size) <= 127 * 15) by (nonlinear_arith)
            requires
                0 <= count <= 127,
                0 <= size <= 12,
        ;
    }
    let expected: usize = 6 + count * (3 + size);
    if octets.len() != expected {
        let text = cat_number("顺序编址转换长度不匹配：实际 ".to_owned(), octets.len() as u64);
        return Err(cat_number(cat(text, "，期望 "), expected as u64));
    }
    compact_sequence(&octets, count, size)
}

/// What is written of a valid unit of a known type, or that it is refused.
pub open spec fn known_encodes(
    asdu: AsduView,
    objects: Seq<InformationObject>,
    outcome: Result<Seq<u8>, Seq<char>>,
) -> bool {
    if objects.len() > 127 {
        outcome == Err::<Seq<u8>, Seq<char>>(encode_failed(too_many_text(objects.len())))
    } else if writable(asdu, objects) {
        outcome == Ok::<Seq<u8>, Seq<char>>(known_octets(asdu, objects))
    } else {
        outcome is Err
    }
}

// ---------------------------------------------------------------------------
// The octets of frames.
/// Why the first two octets cannot start a frame, if they cannot.
pub open spec fn header_refusal(start: u8, length: u8) -> Option<Seq<char>> {
    if start != TELEGRAM_HEADER {
        Some("APDU 启动字符非法: 0x"@ + hex_octet(start))
    } else if !(4 <= length <= MAX_APDU_PAYLOAD) {
        Some("APDU 长度非法: "@ + decimal(length as nat))
    } else {
        None
    }
}

/// How many octets follow the first two of a frame.
pub fn apdu_payload_length(start: u8, length: u8) -> (result: Result<usize, String>)
    ensures
        match result {
            Ok(payload) => header_refusal(start, length) is None && payload == length,
            Err(text) => header_refusal(start, length) == Some(text@),
        },
{
    if start != TELEGRAM_HEADER {
        return Err(cat_hex_octet("APDU 启动字符非法: 0x".to_owned(), start));
    }
    let payload: usize = length as usize;
    if payload < 4 || payload > MAX_APDU_PAYLOAD {
        return Err(cat_number("APDU 长度非法: ".to_owned(), payload as u64));
    }
    Ok(payload)
}

/// The six octets in front of a unit.
pub open spec fn numbered_header(payload: int, send: u16, receive: u16) -> Seq<u8> {
    seq![
        TELEGRAM_HEADER,
        payload as u8,
        low_octet(send * 2),
        low_octet(send * 2 / 256),
        low_octet(receive * 2),
        low_octet(receive * 2 / 256),
    ]
}

pub open spec fn too_long_text(payload: nat) -> Seq<char> {
    "APDU 超长: "@ + decimal(payload) + " > "@ + decimal(MAX_APDU_PAYLOAD as nat)
}

/// What a numbered frame becomes of what its unit becomes.
pub open spec fn numbered_outcome(
    send: u16,
    receive: u16,
    unit: Result<Seq<u8>, Seq<char>>,
) -> Result<Seq<u8>, Seq<char>> {
    match unit {
        Ok(octets) => if 4 + octets.len() > MAX_APDU_PAYLOAD {
            Err(too_long_text(4 + octets.len()))
        } else {
            Ok(numbered_header(4 + octets.len() as int, send, receive) + octets)
        },
        Err(text) => Err(text),
    }
}

/// What a numbered frame with a unit is written as.
pub open spec fn frame_octets(send: u16, receive: u16, asdu: AsduView) -> Result<
    Seq<u8>,
    Seq<char>,
> {
    numbered_outcome(send, receive, unit_octets(asdu))
}

pub fn encode_i_frame(send: u16, receive: u16, asdu: &Asdu) -> (result: Result<Vec<u8>, String>)
    requires
        send < SEQUENCE_MODULUS,
        receive < SEQUENCE_MODULUS,
    ensures
        octets_view(result) == frame_octets(send, receive, asdu@),
        asdu@.valid() && asdu@.objects is Known ==> known_encodes(
            asdu@,
            asdu@.objects->Known_0,
            unit_octets(asdu@),
        ),
        passed_sequence(asdu@) ==> passed_encodes(asdu@, unit_octets(asdu@)),
{
    let octets = match encode_asdu_bytes(asdu) {
        Ok(octets) => octets,
        Err(text) => {
            return Err(text);
        },
    };
    if octets.len() > MAX_APDU_PAYLOAD - 4 {
        let shown: u128 = octets.len() as u128 + 4;
        let text = cat(cat_wide("APDU 超长: ".to_owned(), shown), " > ");
        return Err(cat_number(text, MAX_APDU_PAYLOAD as u64));
    }
    let payload: usize = 4 + octets.len();
    let mut frame: Vec<u8> = Vec::new();
    frame.push(TELEGRAM_HEADER);
    frame.push(payload as u8);
    frame.push((send * 2 % 256) as u8);
    frame.push((send * 2 / 256) as u8);
    frame.push((receive * 2 % 256) as u8);
    frame.push((receive * 2 / 256) as u8);
    assert(frame@ =~= numbered_header(payload as int, send, receive));
    append_octets(&mut frame, octets.as_slice(), 0, octets.len());
    assert(octets@.subrange(0, octets@.len() as int) =~= octets@);
    Ok(frame)
}

/// A unit with its objects read.
pub open spec fn unpacked(raw: RawAsduView) -> AsduView {
    let type_id = TypeId::of(raw.type_id);
    AsduView {
        type_id,
        cot: raw.cot,
        originator_address: raw.originator_address,
        address_field: raw.address_field,
        sequence: raw.sequence,
        test: raw.test,
        negative: raw.negative,
        objects: if type_id is Other {
            ObjectsView::Other { count: raw.count, octets: raw.octets }
        } else {
            ObjectsView::Known(objects_of(type_id, raw.sequence, raw.octets))
        },
    }
}

pub open spec fn frame_of(raw: RawFrameView) -> FrameView {
    match raw {
        RawFrameView::I { send, receive, asdu } => FrameView::I {
            send,
            receive,
            asdu: unpacked(asdu),
        },
        RawFrameView::S { receive } => FrameView::S { receive },
        RawFrameView::U(frame) => FrameView::U(frame),
    }
}

pub open spec fn parse_failed(reason: Seq<char>) -> Seq<char> {
    "解析 APDU 失败: "@ + reason
}

pub open spec fn frame_view(result: Result<Frame, String>) -> Option<FrameView> {
    match result {
        Ok(frame) => Some(frame@),
        Err(_) => None,
    }
}

/// The octets of a numbered frame with a unit that can be written.
pub open spec fn written_frame(
    send: u16,
    receive: u16,
    asdu: AsduView,
    objects: Seq<InformationObject>,
) -> Seq<u8> {
    numbered_header(4 + known_octets(asdu, objects).len() as int, send, receive) + known_octets(
        asdu,
        objects,
    )
}

/// A numbered frame that both ends of a link can exchange.
pub open spec fn exchangeable(
    send: u16,
    receive: u16,
    asdu: AsduView,
    objects: Seq<InformationObject>,
) -> bool {
    &&& send < SEQUENCE_MODULUS
    &&& receive < SEQUENCE_MODULUS
    &&& writable(asdu, objects)
    &&& asdu.sequence ==> objects.len() > 0 && asdu.type_id !is C_RD_NA_1
    &&& 4 + known_octets(asdu, objects).len() <= MAX_APDU_PAYLOAD
}

/// Consecutively addressed objects come back with their addresses counted up.
proof fn lemma_sequence_survives(type_id: TypeId, objects: Seq<InformationObject>)
    requires
        objects_valid(type_id, objects),
        consecutive(objects),
    ensures
        objects_of(type_id, true, objects_octets(objects)) == objects,
    decreases objects.len(),
{
    let octets = objects_octets(objects);
    let width = 3 + type_id.element_size() as int;
    law_objects_survive_the_wire(type_id, objects);
    if objects.len() > 0 {
        let before = objects.drop_last();
        let last = objects.last();
        assert(objects_valid(type_id, before)) by {
            assert forall|i: int| 0 <= i < before.len() implies (#[trigger] before[i]).valid()
                && before[i].element.kind() == type_id by {
                assert(before[i] == objects[i]);
            }
        }
        assert(consecutive(before)) by {
            assert forall|i: int| 0 <= i < before.len() implies (#[trigger] before[i]).address
                == before[0].address + i by {
                assert(before[i] == objects[i]);
            }
        }
        lemma_sequence_survives(type_id, before);
        law_objects_survive_the_wire(type_id, before);
        assert(last.valid() && last.element.kind() == type_id);
        crate::protocol::codec::law_element_survives_the_wire(last.element);
        let start = octets.len() - width;
        assert(octets.take(start) =~= objects_octets(before));
        assert(octets.skip(start + 3) =~= last.element.octets());
        lemma_object_at(type_id, objects, 0);
        assert(0 * width == 0);
        assert(octets.take(3) =~= octets.subrange(0, width).take(3));
        assert(octets.take(3) =~= octets24(objects[0].address as int));
        assert(objects[0].valid());
        assert(unsigned24(octets24(objects[0].address as int)) == objects[0].address) by {
            let value = objects[0].address as int;
            assert(value / 65536 == (value / 256) / 256);
        }
        assert(objects[objects.len() - 1].address == objects[0].address + (objects.len() - 1));
        assert(objects =~= before.push(last));
    } else {
        assert(objects_of(type_id, true, octets) =~= objects);
    }
}

/// The octets of an exchangeable frame hold its header fields and objects.
proof fn lemma_written_frame(
    send: u16,
    receive: u16,
    asdu: AsduView,
    objects: Seq<InformationObject>,
)
    requires
        exchangeable(send, receive, asdu, objects),
    ensures
        ({
            let octets = written_frame(send, receive, asdu, objects);
            &&& !unreadable(octets)
            &&& crate::protocol::iec::frame_holds(octets, objects)
            &&& octets.len() >= 12
            &&& octets[0] == 0x68 && octets[1] != 4
            &&& (octets[2] + octets[3] * 256) / 2 == send
            &&& (octets[4] + octets[5] * 256) / 2 == receive
            &&& octets[6] == asdu.type_id.number()
            &&& (octets[7] >= 128) == asdu.sequence
            &&& octets[8] % 64 == asdu.cot
            &&& (octets[8] >= 128) == asdu.test
            &&& (octets[8] / 64 % 2 == 1) == asdu.negative
            &&& octets[9] == asdu.originator_address
            &&& octets[10] + octets[11] * 256 == asdu.address_field
        }),
{
    let octets = written_frame(send, receive, asdu, objects);
    let unit = known_octets(asdu, objects);
    let header = numbered_header(4 + unit.len() as int, send, receive);
    let front = asdu_header(
        asdu.type_id.number(),
        objects.len() as int,
        asdu.sequence,
        asdu.cot,
        asdu.originator_address,
        asdu.address_field,
        asdu.test,
        asdu.negative,
    );
    assert(unit.take(6) =~= front);
    assert(unit.len() >= 6);
    assert(octets.subrange(6, 12) =~= front);
    assert(forall|i: int| 0 <= i < 6 ==> octets[i] == header[i]);
    assert(forall|i: int| 0 <= i < 6 ==> octets[6 + i] == #[trigger] front[i]);
    assert(octets[6] == front[0] && octets[7] == front[1] && octets[8] == front[2] && octets[9]
        == front[3] && octets[10] == front[4] && octets[11] == front[5]);
    assert(octets.skip(12) =~= unit.skip(6));
    if asdu.sequence && objects.len() > 1 {
        assert(unit.skip(6) =~= compact_octets(objects));
    } else {
        assert(unit.skip(6) =~= objects_octets(objects));
        if asdu.sequence {
            assert(objects.drop_last() =~= Seq::<InformationObject>::empty());
            assert(objects_octets(objects) =~= objects[0].octets()) by {
                assert(objects_octets(objects.drop_last()) =~= Seq::<u8>::empty());
            }
            assert(elements_octets(objects) =~= objects[0].element.octets()) by {
                assert(elements_octets(objects.drop_last()) =~= Seq::<u8>::empty());
            }
            assert(objects_octets(objects) =~= compact_octets(objects));
        }
    }
}

fn unpack(raw: RawAsdu) -> (result: Asdu)
    requires
        TypeId::of(raw.type_id) !is Other ==> exists|objects: Seq<InformationObject>|
            objects_valid(TypeId::of(raw.type_id), objects) && objects.len() <= 127 && raw.octets@
                == #[trigger] objects_octets(objects),
    ensures
        result@ == unpacked(raw@),
{
    let type_id = TypeId::from_code(raw.type_id);
    let information_objects = match type_id {
        TypeId::Other(_) => InformationObjects::Other { count: raw.count, octets: raw.octets },
        _ => {
            proof {
                let objects = choose|objects: Seq<InformationObject>|
                    objects_valid(TypeId::of(raw.type_id), objects) && objects.len() <= 127
                        && raw.octets@ == #[trigger] objects_octets(objects);
                law_objects_survive_the_wire(type_id, objects);
                let width = 3 + type_id.element_size() as int;
                vstd::arithmetic::div_mod::lemma_mod_multiples_basic(objects.len() as int, width);
                assert(objects.len() * width <= 127 * 11) by (nonlinear_arith)
                    requires
                        objects.len() <= 127,
                        0 <= width <= 11,
                ;
            }
            InformationObjects::Known(decode_objects(type_id, raw.sequence, &raw.octets))
        },
    };
    Asdu {
        type_id,
        cot: raw.cot,
        originator_address: raw.originator_address,
        address_field: raw.address_field,
        sequence: raw.sequence,
        test: raw.test,
        negative: raw.negative,
        information_objects,
    }
}

/// The frame has numbers and a cause in their ranges, and its unit is a valid
/// one unless consecutive addresses ran over their three octets.
pub open spec fn sound_frame(frame: FrameView) -> bool {
    match frame {
        FrameView::I { send, receive, asdu } => {
            &&& send < SEQUENCE_MODULUS
            &&& receive < SEQUENCE_MODULUS
            &&& asdu.cot < 64
            &&& asdu.type_id.canonical()
            &&& !asdu.sequence ==> asdu.valid()
        },
        FrameView::S { receive } => receive < SEQUENCE_MODULUS,
        FrameView::U(_) => true,
    }
}

/// Numbers and a unit with one address for objects that have no element here, as
/// they are written.
pub open spec fn passes_on(send: u16, receive: u16, asdu: AsduView) -> bool {
    &&& send < SEQUENCE_MODULUS
    &&& receive < SEQUENCE_MODULUS
    &&& passed_sequence(asdu)
    &&& passed_encodes(asdu, unit_octets(asdu))
    &&& frame_octets(send, receive, asdu) is Ok
}

/// The frame has the numbers, the header fields and the addresses of the
/// objects of a unit with one address for them.
pub open spec fn passed_back(
    frame: Option<FrameView>,
    send: u16,
    receive: u16,
    asdu: AsduView,
) -> bool {
    frame matches Some(FrameView::I { send: sent, receive: received, asdu: back }) && {
        &&& sent == send
        &&& received == receive
        &&& back.sequence
        &&& back == AsduView { objects: back.objects, ..asdu }
        &&& back.objects is Other
        &&& back.objects.count() == asdu.objects.count()
        &&& forall|i: int|
            0 <= i < asdu.objects.count() ==> #[trigger] passed_address(back, i)
                == passed_address(asdu, i)
    }
}

/// The numbers and the header fields of a frame are found in its octets.
proof fn lemma_frame_head(send: u16, receive: u16, asdu: AsduView, count: int, rest: Seq<u8>)
    requires
        send < SEQUENCE_MODULUS,
        receive < SEQUENCE_MODULUS,
        asdu.cot < 64,
        0 <= count <= 127,
        10 + rest.len() <= MAX_APDU_PAYLOAD,
    ensures
        ({
            let octets = numbered_header(10 + rest.len() as int, send, receive) + (asdu_header(
                asdu.type_id.number(),
                count,
                true,
                asdu.cot,
                asdu.originator_address,
                asdu.address_field,
                asdu.test,
                asdu.negative,
            ) + rest);
            &&& octets.len() == 12 + rest.len()
            &&& octets[0] == 0x68
            &&& octets[1] == 10 + rest.len()
            &&& octets[2] % 2 == 0
            &&& octets[4] % 2 == 0
            &&& (octets[2] + octets[3] * 256) / 2 == send
            &&& (octets[4] + octets[5] * 256) / 2 == receive
            &&& octets[6] == asdu.type_id.number()
            &&& octets[7] == count + 128
            &&& octets[8] % 64 == asdu.cot
            &&& (octets[8] >= 128) == asdu.test
            &&& (octets[8] / 64 % 2 == 1) == asdu.negative
            &&& octets[9] == asdu.originator_address
            &&& octets[10] + octets[11] * 256 == asdu.address_field
            &&& octets.skip(12) == rest
        }),
{
    let header = numbered_header(10 + rest.len() as int, send, receive);
    let front = asdu_header(
        asdu.type_id.number(),
        count,
        true,
        asdu.cot,
        asdu.originator_address,
        asdu.address_field,
        asdu.test,
        asdu.negative,
    );
    let octets = header + (front + rest);
    assert(forall|i: int| 0 <= i < 6 ==> octets[i] == header[i]);
    assert(octets[6] == front[0] && octets[7] == front[1] && octets[8] == front[2] && octets[9]
        == front[3] && octets[10] == front[4] && octets[11] == front[5]);
    assert(octets.skip(12) =~= rest);
}

/// What is written of a frame with one address for objects that have no element
/// here.
proof fn lemma_passed_octets(send: u16, receive: u16, asdu: AsduView, plain: Seq<u8>)
    requires
        passes_on(send, receive, asdu),
        plainly_written(asdu, plain),
    ensures
        ({
            let count = asdu.objects.count() as int;
            let size = iec_type_size(asdu.type_id.number()) as int;
            let rest = plain.subrange(6, 9) + elements_at(plain, count, size);
            let front = asdu_header(
                asdu.type_id.number(),
                count,
                true,
                asdu.cot,
                asdu.originator_address,
                asdu.address_field,
                asdu.test,
                asdu.negative,
            );
            &&& frame_octets(send, receive, asdu)->Ok_0 == numbered_header(
                10 + rest.len() as int,
                send,
                receive,
            ) + (front + rest)
            &&& shortened(plain, count, size) == front + rest
            &&& 10 + rest.len() <= MAX_APDU_PAYLOAD
            &&& count <= 127
            &&& plain.len() == 6 + count * (3 + size)
            &&& plain.len() >= 9
            &&& plain[1] == count
            &&& passed_counts_up(asdu)
        }),
{
    let count = asdu.objects.count() as int;
    let size = iec_type_size(asdu.type_id.number()) as int;
    lemma_passed_sequence(asdu, plain);
    let rest = plain.subrange(6, 9) + elements_at(plain, count, size);
    let front = asdu_header(
        asdu.type_id.number(),
        count,
        true,
        asdu.cot,
        asdu.originator_address,
        asdu.address_field,
        asdu.test,
        asdu.negative,
    );
    assert(count * (3 + size) >= 6) by (nonlinear_arith)
        requires
            count >= 2,
            size >= 0,
    ;
    vstd::arithmetic::div_mod::lemma_div_multiples_vanish(count, 3 + size);
    assert(count * (3 + size) == (3 + size) * count) by (nonlinear_arith);
    assert(flagged(plain.take(6)) =~= front);
    assert(shortened(plain, count, size) =~= front + rest);
}

/// The octets of a frame with one address for objects that have no element here
/// hold its addresses.
proof fn lemma_passed_addresses(asdu: AsduView, plain: Seq<u8>, octets: Seq<u8>)
    requires
        passed_sequence(asdu),
        plainly_written(asdu, plain),
        passed_counts_up(asdu),
        plain.len() >= 9,
        octets.len() >= 15,
        octets.subrange(12, 15) == plain.subrange(6, 9),
    ensures
        forall|i: int|
            0 <= i < asdu.objects.count() ==> #[trigger] passed_address(asdu, i) == (unsigned24(
                octets.subrange(12, 15),
            ) + i) % 0x100_0000,
{
    let count = asdu.objects.count() as int;
    let size = iec_type_size(asdu.type_id.number()) as int;
    vstd::arithmetic::div_mod::lemma_div_multiples_vanish(count, 3 + size);
    assert(count * (3 + size) == (3 + size) * count) by (nonlinear_arith);
    assert(0 * (3 + size) == 0);
    assert(address_at(plain, 0, size) == unsigned24(octets.subrange(12, 15)));
    assert forall|i: int| 0 <= i < count implies #[trigger] passed_address(asdu, i) == (unsigned24(
        octets.subrange(12, 15),
    ) + i) % 0x100_0000 by {
        assert(passed_address(asdu, i) == passed_address(asdu, 0) + i);
        assert(address_at(plain, i, size) == passed_address(asdu, i));
        assert(address_at(plain, 0, size) == passed_address(asdu, 0));
    }
}

/// A frame with one address for objects that have no element here is read back
/// with its numbers, its header fields and its addresses.
proof fn lemma_passed_back(
    send: u16,
    receive: u16,
    asdu: AsduView,
    octets: Seq<u8>,
    frame: RawFrameView,
)
    requires
        passes_on(send, receive, asdu),
        octets == frame_octets(send, receive, asdu)->Ok_0,
        numbered_frame(frame, octets),
    ensures
        passed_back(Some(frame_of(frame)), send, receive, asdu),
{
    let plain = expanded_octets(asdu)->Ok_0;
    let count = asdu.objects.count() as int;
    let size = iec_type_size(asdu.type_id.number()) as int;
    let rest = plain.subrange(6, 9) + elements_at(plain, count, size);
    lemma_passed_octets(send, receive, asdu, plain);
    lemma_frame_head(send, receive, asdu, count, rest);
    assert(octets.subrange(12, 15) =~= octets.skip(12).take(3));
    assert(rest.take(3) =~= plain.subrange(6, 9));
    lemma_passed_addresses(asdu, plain, octets);
    let back = frame_of(frame)->I_asdu;
    let raw = frame->I_asdu;
    assert forall|i: int| 0 <= i < count implies #[trigger] passed_address(back, i)
        == passed_address(asdu, i) by {
        assert(object_address(raw.octets, i, size) == passed_address(back, i));
    }
}

/// A frame with one address for objects that have no element here is a shortened
/// one.
proof fn lemma_passed_is_shortened(send: u16, receive: u16, asdu: AsduView)
    requires
        passes_on(send, receive, asdu),
    ensures
        crate::protocol::iec::holds_shortened(
            frame_octets(send, receive, asdu)->Ok_0,
            asdu.type_id.number(),
            expanded_octets(asdu),
        ),
        frame_octets(send, receive, asdu)->Ok_0[1] != 4,
{
    let plain = expanded_octets(asdu)->Ok_0;
    let count = asdu.objects.count() as int;
    let size = iec_type_size(asdu.type_id.number()) as int;
    let rest = plain.subrange(6, 9) + elements_at(plain, count, size);
    let octets = frame_octets(send, receive, asdu)->Ok_0;
    lemma_passed_octets(send, receive, asdu, plain);
    lemma_frame_head(send, receive, asdu, count, rest);
    assert(octets.skip(6) =~= shortened(plain, count, size));
}

/// What was written of a unit is read back.
pub open spec fn reads_back(octets: Seq<u8>, frame: Option<FrameView>) -> bool {
    &&& forall|send: u16, receive: u16, asdu: AsduView, objects: Seq<InformationObject>|
        exchangeable(send, receive, asdu, objects) && octets == #[trigger] written_frame(
            send,
            receive,
            asdu,
            objects,
        ) ==> frame == Some(FrameView::I { send, receive, asdu })
    &&& forall|send: u16, receive: u16, asdu: AsduView|
        passes_on(send, receive, asdu) && #[trigger] frame_octets(send, receive, asdu)->Ok_0
            == octets ==> passed_back(frame, send, receive, asdu)
}

/// The address of an object of a unit.
pub open spec fn unit_address(asdu: AsduView, index: int) -> int {
    match asdu.objects {
        ObjectsView::Known(objects) => objects[index].address as int,
        ObjectsView::Other { .. } => passed_address(asdu, index),
    }
}

/// The addresses of the objects of a unit count up by one.
pub open spec fn counts_up(asdu: AsduView) -> bool {
    forall|i: int|
        0 <= i < asdu.objects.count() ==> #[trigger] unit_address(asdu, i) == unit_address(asdu, 0)
            + i
}

/// A unit of a standard type with two or more whole objects and one address for
/// them.
pub open spec fn one_address_unit(asdu: AsduView) -> bool {
    &&& asdu.valid()
    &&& asdu.sequence
    &&& asdu.objects.count() > 1
    &&& asdu.objects is Other ==> passed_sequence(asdu)
}

/// One address for all objects of a standard type, which can be written with an
/// address for each: where the addresses count up, the unit is three octets
/// shorter for each object but the first and has the flag in its second octet;
/// where they do not, it is refused.
proof fn lemma_one_address_is_shorter(
    asdu: AsduView,
    each: Result<Seq<u8>, Seq<char>>,
    one: Result<Seq<u8>, Seq<char>>,
)
    requires
        one_address_unit(asdu),
        encodes_as(AsduView { sequence: false, ..asdu }, each),
        encodes_as(asdu, one),
        each is Ok,
    ensures
        counts_up(asdu) ==> {
            &&& one is Ok
            &&& each->Ok_0.len() - one->Ok_0.len() == 3 * (asdu.objects.count() - 1)
            &&& each->Ok_0[1] == asdu.objects.count()
            &&& one->Ok_0[1] == each->Ok_0[1] | 0x80
        },
        !counts_up(asdu) ==> one is Err,
{
    let count = asdu.objects.count() as int;
    let plain = each->Ok_0;
    match asdu.objects {
        ObjectsView::Known(known) => {
            let apart = AsduView { sequence: false, ..asdu };
            assert(apart.valid());
            assert(known_encodes(apart, known, each));
            if counts_up(asdu) {
                assert forall|i: int| 0 <= i < known.len() implies (#[trigger] known[i]).address
                    == known[0].address + i by {
                    assert(unit_address(asdu, i) == unit_address(asdu, 0) + i);
                }
            }
            if consecutive(known) {
                assert forall|i: int| 0 <= i < count implies #[trigger] unit_address(asdu, i)
                    == unit_address(asdu, 0) + i by {
                    assert(known[i].address == known[0].address + i);
                }
                let size = asdu.type_id.element_size() as int;
                lemma_known_sequence(asdu, known, plain);
                lemma_elements_length(plain, count, size);
                assert(count * (3 + size) == 3 * count + count * size) by (nonlinear_arith);
                assert(count * (3 + size) >= 6) by (nonlinear_arith)
                    requires
                        count >= 2,
                        size >= 0,
                ;
                assert(flagged(plain.take(6)).len() == 6);
                assert(one->Ok_0 == known_octets(asdu, known));
            }
        },
        ObjectsView::Other { .. } => {
            if counts_up(asdu) {
                assert forall|i: int| 0 <= i < count implies #[trigger] passed_address(asdu, i)
                    == passed_address(asdu, 0) + i by {
                    assert(unit_address(asdu, i) == unit_address(asdu, 0) + i);
                }
            }
            if passed_counts_up(asdu) {
                assert forall|i: int| 0 <= i < count implies #[trigger] unit_address(asdu, i)
                    == unit_address(asdu, 0) + i by {
                    assert(passed_address(asdu, i) == passed_address(asdu, 0) + i);
                }
            }
        },
    }
    if counts_up(asdu) {
        let number = plain[1];
        assert(number | 0x80 == number + 128) by (bit_vector)
            requires
                number < 128,
        ;
    }
}

/// What was written with one address for all objects is read back with that
/// flag, and with every object under its own address. A read command, whose
/// elements are empty, cannot be read back so.
proof fn lemma_one_address_is_read_back(
    asdu: AsduView,
    one: Result<Seq<u8>, Seq<char>>,
    send: u16,
    receive: u16,
    frame: Option<FrameView>,
)
    requires
        one_address_unit(asdu),
        asdu.type_id !is C_RD_NA_1,
        encodes_as(asdu, one),
        one is Ok,
        send < SEQUENCE_MODULUS,
        receive < SEQUENCE_MODULUS,
        4 + one->Ok_0.len() <= MAX_APDU_PAYLOAD,
        reads_back(
            numbered_header(4 + one->Ok_0.len() as int, send, receive) + one->Ok_0,
            frame,
        ),
    ensures
        frame matches Some(FrameView::I { send: sent, receive: received, asdu: back }) && {
            &&& sent == send
            &&& received == receive
            &&& back.sequence
            &&& back == AsduView { objects: back.objects, ..asdu }
            &&& back.objects.count() == asdu.objects.count()
            &&& forall|i: int|
                0 <= i < asdu.objects.count() ==> #[trigger] unit_address(back, i) == unit_address(
                    asdu,
                    i,
                )
        },
{
    match asdu.objects {
        ObjectsView::Known(known) => {
            assert(writable(asdu, known));
            assert(exchangeable(send, receive, asdu, known));
            assert(written_frame(send, receive, asdu, known) == numbered_header(
                4 + one->Ok_0.len() as int,
                send,
                receive,
            ) + one->Ok_0);
        },
        ObjectsView::Other { .. } => {
            assert(passes_on(send, receive, asdu));
            let back = frame->0->I_asdu;
            assert forall|i: int| 0 <= i < asdu.objects.count() implies #[trigger] unit_address(
                back,
                i,
            ) == unit_address(asdu, i) by {
                assert(passed_address(back, i) == passed_address(asdu, i));
            }
        },
    }
}

/// The law of one address for all objects of a standard type, as `encode_asdu_bytes`
/// writes and `parse_frame` reads them. Where the addresses of a unit count up, it
/// is written three octets shorter for each object but the first, with the flag in
/// its second octet, and a frame that has room for it is read back with that flag
/// and every object under its own address, in order. Where they do not, it is
/// refused. Only a read command, whose elements are empty, is never read back so.
pub proof fn law_one_address_for_all(
    asdu: AsduView,
    each: Result<Seq<u8>, Seq<char>>,
    one: Result<Seq<u8>, Seq<char>>,
    send: u16,
    receive: u16,
    frame: Option<FrameView>,
)
    requires
        one_address_unit(asdu),
        encodes_as(AsduView { sequence: false, ..asdu }, each),
        encodes_as(asdu, one),
        each is Ok,
        send < SEQUENCE_MODULUS,
        receive < SEQUENCE_MODULUS,
        readable_frame(asdu, one) ==> reads_back(
            numbered_header(4 + one->Ok_0.len() as int, send, receive) + one->Ok_0,
            frame,
        ),
    ensures
        counts_up(asdu) ==> {
            &&& one is Ok
            &&& each->Ok_0.len() - one->Ok_0.len() == 3 * (asdu.objects.count() - 1)
            &&& one->Ok_0[1] == each->Ok_0[1] | 0x80
        },
        counts_up(asdu) && readable_frame(asdu, one) ==> (frame matches Some(
            FrameView::I { send: sent, receive: received, asdu: back },
        ) && {
            &&& sent == send
            &&& received == receive
            &&& back.sequence
            &&& back == AsduView { objects: back.objects, ..asdu }
            &&& back.objects.count() == asdu.objects.count()
            &&& forall|i: int|
                0 <= i < asdu.objects.count() ==> #[trigger] unit_address(back, i) == unit_address(
                    asdu,
                    i,
                )
        }),
        !counts_up(asdu) ==> one is Err,
{
    lemma_one_address_is_shorter(asdu, each, one);
    if counts_up(asdu) && readable_frame(asdu, one) {
        lemma_one_address_is_read_back(asdu, one, send, receive, frame);
    }
}

/// What is written of a unit fits in a frame, and can be read with one address.
pub open spec fn readable_frame(asdu: AsduView, one: Result<Seq<u8>, Seq<char>>) -> bool {
    asdu.type_id !is C_RD_NA_1 && (one matches Ok(octets) && 4 + octets.len() <= MAX_APDU_PAYLOAD)
}

/// Reads a frame. What was written of a valid unit of a known type is read back
/// as that unit, with its numbers; a unit of another standard type that was
/// written with one address is read back with its addresses.
pub fn parse_frame(octets: &[u8]) -> (result: Result<Frame, String>)
    requires
        !unreadable(octets@),
    ensures
        match result {
            Ok(frame) => iec_apdu(octets@) is Some && frame@ == frame_of(iec_apdu(octets@)->0),
            Err(text) => iec_apdu(octets@) is None && exists|reason: Seq<char>|
                text@ == #[trigger] parse_failed(reason),
        },
        result matches Ok(frame) ==> sound_frame(frame@),
        reads_back(octets@, frame_view(result)),
{
    let parsed = parse_apdu(octets);
    proof {
        assert forall|send: u16, receive: u16, asdu: AsduView|
            passes_on(send, receive, asdu) && #[trigger] frame_octets(send, receive, asdu)->Ok_0
                == octets@ implies (parsed matches Ok(frame) && passed_back(
            Some(frame_of(frame@)),
            send,
            receive,
            asdu,
        )) by {
            lemma_passed_is_shortened(send, receive, asdu);
            lemma_passed_back(send, receive, asdu, octets@, parsed->Ok_0@);
        }
        assert forall|send: u16, receive: u16, asdu: AsduView, objects: Seq<InformationObject>|
            exchangeable(send, receive, asdu, objects) && octets@ == #[trigger] written_frame(
                send,
                receive,
                asdu,
                objects,
            ) implies (parsed matches Ok(frame) && frame_of(frame@) == (FrameView::I {
            send,
            receive,
            asdu,
        })) by {
            lemma_written_frame(send, receive, asdu, objects);
            assert(crate::protocol::iec::accepted_objects(parsed) == Some(objects_octets(objects)));
            law_objects_survive_the_wire(asdu.type_id, objects);
            if asdu.sequence {
                lemma_sequence_survives(asdu.type_id, objects);
            }
            let frame = parsed->Ok_0;
            assert(numbered_frame(frame@, octets@));
            assert(frame_of(frame@)->I_asdu.objects == asdu.objects);
        }
    }
    match parsed {
        Ok(RawFrame::I { send, receive, asdu }) => {
            proof {
                let objects = choose|objects: Seq<InformationObject>|
                    objects_valid(TypeId::of(asdu.type_id), objects) && objects.len() == asdu.count
                        && asdu.octets@ == #[trigger] objects_octets(objects);
                if TypeId::of(asdu.type_id) !is Other && !asdu.sequence {
                    law_objects_survive_the_wire(TypeId::of(asdu.type_id), objects);
                }
            }
            Ok(Frame::I { send, receive, asdu: unpack(asdu) })
        },
        Ok(RawFrame::S { receive }) => Ok(Frame::S { receive }),
        Ok(RawFrame::U(frame)) => Ok(Frame::U(frame)),
        Err(text) => {
            let failure = cat("解析 APDU 失败: ".to_owned(), text.as_str());
            assert(failure@ == parse_failed(text@));
            Err(failure)
        },
    }
}

// ---------------------------------------------------------------------------
// Laws of where things stand in a frame.
/// A frame begins with the one start octet and a length that leaves room for the
/// control octets and is no more than a frame may have; no other two octets begin
/// one.
pub proof fn law_frames_begin_with_their_length(start: u8, length: u8)
    ensures
        header_refusal(start, length) is None <==> start == 0x68 && 4 <= length <= 253,
{
}

/// A numbered frame says how many octets follow, and then the two numbers, each
/// twice over and the lower octet first, in front of its unit. A unit that is
/// longer than a frame can hold is not framed.
pub proof fn law_units_are_framed(send: u16, receive: u16, octets: Seq<u8>)
    requires
        send < 32768,
        receive < 32768,
    ensures
        octets.len() > 249 ==> numbered_outcome(send, receive, Ok(octets)) is Err,
        octets.len() <= 249 ==> {
            let framed = numbered_outcome(send, receive, Ok(octets))->Ok_0;
            &&& numbered_outcome(send, receive, Ok(octets)) is Ok
            &&& framed.len() == octets.len() + 6
            &&& framed[0] == 0x68
            &&& framed[1] == octets.len() + 4
            &&& framed[2] as int + 256 * framed[3] as int == 2 * send
            &&& framed[4] as int + 256 * framed[5] as int == 2 * receive
            &&& framed.skip(6) == octets
        },
{
    if octets.len() <= 249 {
        let framed = numbered_outcome(send, receive, Ok(octets))->Ok_0;
        assert(framed.skip(6) =~= octets);
    }
}

/// The octets in front of the objects of a unit: its type, how many objects
/// follow and whether they share an address, the cause with the marks of a test
/// and of a refusal, who asked, and the station, the lower octet first.
pub proof fn law_units_begin_with_their_header(
    asdu: AsduView,
    objects: Seq<InformationObject>,
)
    requires
        objects.len() <= 127,
        asdu.cot < 64,
    ensures
        ({
            let octets = known_octets(asdu, objects);
            &&& octets.len() >= 6
            &&& octets[0] == asdu.type_id.number()
            &&& octets[1] as int % 128 == objects.len()
            &&& octets[1] >= 128 <==> asdu.sequence
            &&& octets[2] as int % 64 == asdu.cot
            &&& octets[2] >= 128 <==> asdu.test
            &&& (octets[2] as int / 64) % 2 == 1 <==> asdu.negative
            &&& octets[3] == asdu.originator_address
            &&& octets[4] as int + 256 * octets[5] as int == asdu.address_field
            &&& !asdu.sequence || objects.len() <= 1 ==> octets.skip(6)
                == objects_octets(objects)
            &&& asdu.sequence && objects.len() > 1 ==> octets.skip(9) == elements_octets(objects)
        }),
{
    let octets = known_octets(asdu, objects);
    if asdu.sequence && objects.len() > 1 {
        assert(octets.skip(9) =~= elements_octets(objects));
    } else {
        assert(octets.skip(6) =~= objects_octets(objects));
    }
}

/// A function has one bit for each thing that it says, from the start of the
/// transfer up to the confirmation of a test; an acknowledgement holds the number
/// of the next unit, twice over.
pub proof fn law_control_frames_are_laid_out(frame: crate::protocol::message::UFrame, receive: u16)
    requires
        receive < 32768,
    ensures
        ({
            let octets = unnumbered_octets(frame);
            let code = octets[2] as int;
            &&& octets.len() == 6 && octets[0] == 0x68 && octets[1] == 4
            &&& octets[3] == 0 && octets[4] == 0 && octets[5] == 0
            &&& code % 4 == 3
            &&& (code / 4) % 2 == 1 <==> frame.start_dt_activation
            &&& (code / 8) % 2 == 1 <==> frame.start_dt_confirmation
            &&& (code / 16) % 2 == 1 <==> frame.stop_dt_activation
            &&& (code / 32) % 2 == 1 <==> frame.stop_dt_confirmation
            &&& (code / 64) % 2 == 1 <==> frame.test_fr_activation
            &&& (code / 128) % 2 == 1 <==> frame.test_fr_confirmation
        }),
        ({
            let octets = supervisory_octets(receive);
            &&& octets.len() == 6 && octets[0] == 0x68 && octets[1] == 4
            &&& octets[2] == 1 && octets[3] == 0
            &&& octets[4] as int + 256 * octets[5] as int == 2 * receive
        }),
{
}

/// A type is known by its number, and a number that is none of a known type
/// stands for itself.
pub proof fn law_types_are_known_by_their_numbers(number: u8, type_id: TypeId)
    ensures
        TypeId::of(number).number() == number,
        type_id !is Other ==> TypeId::of(type_id.number()) == type_id,
        TypeId::of(number) is Other <==> {
            &&& number != 1 && number != 3 && number != 9 && number != 13 && number != 15
            &&& number != 21 && number != 30 && number != 31 && number != 70
            &&& !(45 <= number <= 50) && !(100 <= number <= 103)
        },
{
}

} // verus!
