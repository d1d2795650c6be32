//! The calls into the `iec104` crate. Each takes and gives plain values; what
//! is claimed of the crate stands in the contracts here.

use crate::protocol::codec::objects_octets;
use crate::protocol::element::{low_octet, octets24, unsigned24, InformationObject, TypeId};
use crate::protocol::frame::{address_at, shortened};
use crate::protocol::message::{objects_valid, UFrame};
use crate::text::decimal;
use iec104::apdu::{Apdu, Frame as IecFrame, IFrame, SFrame, UFrame as IecUFrame};
use iec104::asdu::Asdu as IecUnit;
use iec104::config::ProtocolConfig;
use iec104::cot::Cot as IecCot;
use iec104::types::InformationObjects as IecObjects;
use iec104::types_id::TypeId as IecTypeId;
use vstd::prelude::*;

verus! {

/// The octets of consecutively addressed objects: the first address, then the
/// elements alone.
pub open spec fn compact_octets(objects: Seq<InformationObject>) -> Seq<u8> {
    octets24(objects[0].address as int) + elements_octets(objects)
}

pub open spec fn elements_octets(objects: Seq<InformationObject>) -> Seq<u8>
    decreases objects.len(),
{
    if objects.len() == 0 {
        Seq::empty()
    } else {
        elements_octets(objects.drop_last()) + objects.last().element.octets()
    }
}

/// The addresses count up by one.
pub open spec fn consecutive(objects: Seq<InformationObject>) -> bool {
    forall|i: int|
        0 <= i < objects.len() ==> (#[trigger] objects[i]).address == objects[0].address + i
}

/// The six octets in front of the objects of a unit.
pub open spec fn asdu_header(
    type_id: u8,
    count: int,
    sequence: bool,
    cot: u8,
    originator_address: u8,
    address_field: u16,
    test: bool,
    negative: bool,
) -> Seq<u8> {
    seq![
        type_id,
        (count + if sequence {
            128int
        } else {
            0
        }) as u8,
        (cot + if test {
            128int
        } else {
            0
        } + if negative {
            64int
        } else {
            0
        }) as u8,
        originator_address,
        low_octet(address_field as int),
        low_octet(address_field as int / 256),
    ]
}

/// A unit as plain values, its objects in octets that each hold an address of
/// their own.
#[derive(Debug)]
pub struct RawAsdu {
    pub type_id: u8,
    pub cot: u8,
    pub originator_address: u8,
    pub address_field: u16,
    pub sequence: bool,
    pub test: bool,
    pub negative: bool,
    pub count: usize,
    pub octets: Vec<u8>,
}

#[verifier::ext_equal]
pub struct RawAsduView {
    pub type_id: u8,
    pub cot: u8,
    pub originator_address: u8,
    pub address_field: u16,
    pub sequence: bool,
    pub test: bool,
    pub negative: bool,
    pub count: nat,
    pub octets: Seq<u8>,
}

impl View for RawAsdu {
    type V = RawAsduView;

    open spec fn view(&self) -> RawAsduView {
        RawAsduView {
            type_id: self.type_id,
            cot: self.cot,
            originator_address: self.originator_address,
            address_field: self.address_field,
            sequence: self.sequence,
            test: self.test,
            negative: self.negative,
            count: self.count as nat,
            octets: self.octets@,
        }
    }
}

/// A frame as plain values.
#[derive(Debug)]
pub enum RawFrame {
    I { send: u16, receive: u16, asdu: RawAsdu },
    S { receive: u16 },
    U(UFrame),
}

#[verifier::ext_equal]
pub enum RawFrameView {
    I { send: u16, receive: u16, asdu: RawAsduView },
    S { receive: u16 },
    U(UFrame),
}

impl View for RawFrame {
    type V = RawFrameView;

    open spec fn view(&self) -> RawFrameView {
        match self {
            RawFrame::I { send, receive, asdu } => RawFrameView::I {
                send: *send,
                receive: *receive,
                asdu: asdu@,
            },
            RawFrame::S { receive } => RawFrameView::S { receive: *receive },
            RawFrame::U(frame) => RawFrameView::U(*frame),
        }
    }
}

/// The octets that a supervisory or unnumbered frame consists of.
pub open spec fn supervisory_octets(receive: u16) -> Seq<u8> {
    seq![0x68, 4, 1, 0, low_octet(receive * 2), low_octet(receive * 2 / 256)]
}

pub open spec fn unnumbered_octet(frame: UFrame) -> u8 {
    (3 + if frame.start_dt_activation {
        4int
    } else {
        0
    } + if frame.start_dt_confirmation {
        8int
    } else {
        0
    } + if frame.stop_dt_activation {
        16int
    } else {
        0
    } + if frame.stop_dt_confirmation {
        32int
    } else {
        0
    } + if frame.test_fr_activation {
        64int
    } else {
        0
    } + if frame.test_fr_confirmation {
        128int
    } else {
        0
    }) as u8
}

pub open spec fn unnumbered_octets(frame: UFrame) -> Seq<u8> {
    seq![0x68, 4, unnumbered_octet(frame), 0, 0, 0]
}

/// What `Apdu::from_bytes` makes of octets, where it accepts them.
pub uninterp spec fn iec_apdu(octets: Seq<u8>) -> Option<RawFrameView>;

/// What `Asdu::to_bytes` writes of a unit with individually addressed objects,
/// or the text with which it refuses the unit.
pub uninterp spec fn iec_asdu_octets(
    type_id: u8,
    cot: u8,
    originator_address: u8,
    address_field: u16,
    test: bool,
    negative: bool,
    objects: Seq<u8>,
) -> Result<Seq<u8>, Seq<char>>;

/// What `TypeId::size` gives.
pub uninterp spec fn iec_type_size(type_id: u8) -> nat;

/// What `TypeId::is_standard` gives.
pub uninterp spec fn iec_type_is_standard(type_id: u8) -> bool;

/// The name of a type identification in the crate.
pub uninterp spec fn iec_type_name(type_id: u8) -> Seq<char>;

/// The name of a cause of transmission in the crate.
pub open spec fn iec_cot_name(cot: u8) -> Seq<char> {
    if cot == 20 {
        "InterrogationGeneral"@
    } else if 21 <= cot <= 36 {
        "InterrogationGroup"@ + decimal((cot - 20) as nat)
    } else if cot == 37 {
        "CounterInterrogationGeneral"@
    } else if 38 <= cot <= 41 {
        "CounterInterrogationGroup"@ + decimal((cot - 37) as nat)
    } else {
        match cot {
            0 => "Unused"@,
            1 => "Cyclic"@,
            2 => "Background"@,
            3 => "SpontaneousData"@,
            4 => "Initiated"@,
            5 => "Request"@,
            6 => "Activation"@,
            7 => "ActivationConfirmation"@,
            8 => "Deactivation"@,
            9 => "DeactivationConfirmation"@,
            10 => "ActivationTermination"@,
            11 => "ReturnRemote"@,
            12 => "ReturnLocal"@,
            13 => "File"@,
            44 => "UnknownType"@,
            45 => "UnknownCause"@,
            46 => "UnknownAsduAddress"@,
            47 => "UnknownObjectAddress"@,
            _ => "Reserved"@ + decimal(cot as nat),
        }
    }
}

/// How the crate prints the objects of a unit.
pub uninterp spec fn iec_objects_text(type_id: u8, sequence: bool, objects: Seq<u8>) -> Seq<char>;

/// Octets that make `Apdu::from_bytes` panic: a read command with consecutive
/// addressing, whose elements have no octets to be told apart by.
pub open spec fn unreadable(octets: Seq<u8>) -> bool {
    &&& octets.len() == 15
    &&& octets[0] == 0x68
    &&& octets[1] <= 253
    &&& octets[1] != 4
    &&& octets[2] % 2 == 0
    &&& octets[4] % 2 == 0
    &&& octets[6] == 102
    &&& octets[7] >= 128
}

/// Whether octets must not be read.
pub fn is_unreadable(octets: &[u8]) -> (result: bool)
    ensures
        result == unreadable(octets@),
{
    octets.len() == 15 && octets[0] == 0x68 && octets[1] <= 253 && octets[1] != 4 && octets[2] % 2
        == 0 && octets[4] % 2 == 0 && octets[6] == 102 && octets[7] >= 128
}

/// Octets of a numbered frame with the given objects.
pub open spec fn frame_holds(octets: Seq<u8>, objects: Seq<InformationObject>) -> bool {
    let count = octets[7] as int % 128;
    &&& octets.len() >= 12
    &&& octets[0] == 0x68
    &&& octets[1] != 4
    &&& octets[1] <= 253
    &&& octets[2] % 2 == 0
    &&& octets[4] % 2 == 0
    &&& TypeId::of(octets[6]) !is Other
    &&& objects_valid(TypeId::of(octets[6]), objects)
    &&& objects.len() == count
    &&& if octets[7] >= 128 {
        &&& count > 0
        &&& consecutive(objects)
        &&& octets.skip(12) == compact_octets(objects)
    } else {
        octets.skip(12) == objects_octets(objects)
    }
}

/// What octets with a length of four stand for: a supervisory or an unnumbered
/// frame.
pub open spec fn control_frame(octets: Seq<u8>) -> Option<RawFrameView> {
    if octets[2] % 4 == 1 {
        if octets[2] == 1 && octets[3] == 0 {
            Some(RawFrameView::S { receive: ((octets[4] + octets[5] * 256) / 2) as u16 })
        } else {
            None
        }
    } else if octets[2] % 4 == 3 {
        if octets[3] == 0 && octets[4] == 0 && octets[5] == 0 {
            Some(RawFrameView::U(unnumbered_of(octets[2])))
        } else {
            None
        }
    } else {
        None
    }
}

pub open spec fn unnumbered_of(octet: u8) -> UFrame {
    UFrame {
        start_dt_activation: octet / 4 % 2 == 1,
        start_dt_confirmation: octet / 8 % 2 == 1,
        stop_dt_activation: octet / 16 % 2 == 1,
        stop_dt_confirmation: octet / 32 % 2 == 1,
        test_fr_activation: octet / 64 % 2 == 1,
        test_fr_confirmation: octet / 128 % 2 == 1,
    }
}

/// The address of the object at a position, where each object has its own.
pub open spec fn object_address(objects: Seq<u8>, index: int, size: int) -> int {
    unsigned24(objects.subrange(index * (3 + size), index * (3 + size) + 3))
}

/// The objects of a frame of a standard type: as many as the count says, each
/// with its address, which counts up from the first where that is the only one.
pub open spec fn standard_objects(asdu: RawAsduView, octets: Seq<u8>) -> bool {
    let size = iec_type_size(asdu.type_id) as int;
    &&& asdu.count == octets[7] % 128
    &&& asdu.octets.len() == asdu.count * (3 + size)
    &&& forall|i: int|
        0 <= i < asdu.count ==> #[trigger] object_address(asdu.octets, i, size) == (if octets[7]
            >= 128 {
            (unsigned24(octets.subrange(12, 15)) + i) % 0x100_0000
        } else {
            object_address(octets.skip(12), i, size)
        })
}

/// Octets of a numbered frame with a unit that was written with individual
/// addresses and then shortened to one.
pub open spec fn holds_shortened(
    octets: Seq<u8>,
    type_id: u8,
    unit: Result<Seq<u8>, Seq<char>>,
) -> bool {
    let size = iec_type_size(type_id) as int;
    unit matches Ok(plain) && {
        &&& iec_type_is_standard(type_id)
        &&& plain.len() > 6
        &&& plain.len() == 6 + plain[1] * (3 + size)
        &&& plain[1] < 128
        &&& octets.len() >= 12
        &&& octets[0] == 0x68
        &&& octets[1] != 4
        &&& octets[1] <= 253
        &&& octets[2] % 2 == 0
        &&& octets[4] % 2 == 0
        &&& octets.skip(6) == shortened(plain, plain[1] as int, size)
    }
}

/// A numbered frame has the header fields that its octets hold, and objects of
/// a known type are whole valid ones, as many as the count says.
pub open spec fn numbered_frame(frame: RawFrameView, octets: Seq<u8>) -> bool {
    frame matches RawFrameView::I { send, receive, asdu } && {
        &&& octets.len() >= 12
        &&& octets[2] % 2 == 0 && octets[4] % 2 == 0
        &&& send == (octets[2] + octets[3] * 256) / 2
        &&& receive == (octets[4] + octets[5] * 256) / 2
        &&& asdu.type_id == octets[6]
        &&& asdu.sequence == (octets[7] >= 128)
        &&& asdu.cot == octets[8] % 64
        &&& asdu.test == (octets[8] >= 128)
        &&& asdu.negative == (octets[8] / 64 % 2 == 1)
        &&& asdu.originator_address == octets[9]
        &&& asdu.address_field == octets[10] + octets[11] * 256
        &&& iec_type_is_standard(asdu.type_id) ==> standard_objects(asdu, octets)
        &&& TypeId::of(asdu.type_id) !is Other ==> {
            &&& asdu.count == octets[7] % 128
            &&& exists|objects: Seq<InformationObject>|
                objects_valid(TypeId::of(asdu.type_id), objects) && objects.len() == asdu.count
                    && asdu.octets == #[trigger] objects_octets(objects)
        }
    }
}

/// The frame that was accepted, if one was.
pub open spec fn accepted(result: Result<RawFrame, String>) -> Option<RawFrameView> {
    match result {
        Ok(frame) => Some(frame@),
        Err(_) => None,
    }
}

/// The objects of a numbered frame that was accepted, if one was.
pub open spec fn accepted_objects(result: Result<RawFrame, String>) -> Option<Seq<u8>> {
    match result {
        Ok(RawFrame::I { asdu, .. }) => Some(asdu.octets@),
        _ => None,
    }
}

/// Calls `iec104::apdu::Apdu::from_bytes`, and takes the result apart with the
/// objects written back by `InformationObjects::to_bytes`, so that each has an
/// address of its own. Claimed: the result depends on the octets alone; the
/// fields of a supervisory and an unnumbered frame; the header fields of a
/// numbered frame; that the objects of a known type come back as whole valid
/// ones, as many as the count says; that a well-formed frame is accepted with
/// the objects it holds; the count and the addresses of the objects of a
/// standard type; and that a unit which `Asdu::to_bytes` wrote is accepted when
/// it is shortened to one address. What becomes of the elements of the types
/// that are not known here is left unsaid, and so is the text of a refusal.
#[verifier::external_body]
pub(crate) fn parse_apdu(octets: &[u8]) -> (result: Result<RawFrame, String>)
    requires
        !unreadable(octets@),
    ensures
        accepted(result) == iec_apdu(octets@),
        octets@.len() < 6 || octets@[0] != 0x68 || octets@[1] > 253 ==> result is Err,
        octets@.len() >= 6 && octets@[0] == 0x68 && octets@[1] == 4 ==> accepted(result)
            == control_frame(octets@),
        result is Ok && octets@[1] != 4 ==> numbered_frame(result->Ok_0@, octets@),
        forall|objects: Seq<InformationObject>| #[trigger]
            frame_holds(octets@, objects) ==> accepted_objects(result) == Some(
                objects_octets(objects),
            ),
        forall|
            type_id: u8,
            cot: u8,
            originator_address: u8,
            address_field: u16,
            test: bool,
            negative: bool,
            objects: Seq<u8>,
        |
            holds_shortened(
                octets@,
                type_id,
                #[trigger] iec_asdu_octets(
                    type_id,
                    cot,
                    originator_address,
                    address_field,
                    test,
                    negative,
                    objects,
                ),
            ) ==> result is Ok,
{
    Ok(match Apdu::from_bytes(octets).map_err(|error| error.to_string())?.frame {
        IecFrame::I(IFrame { send_sequence_number: send, receive_sequence_number: receive, asdu }) => {
            let IecUnit { type_id, cot, originator_address, address_field, sequence, test, negative, information_objects } = asdu;
            let mut octets = Vec::new();
            let _ = information_objects.to_bytes(&mut octets);
            RawFrame::I { send, receive, asdu: RawAsdu { type_id: type_id as u8, cot: cot as u8, originator_address, address_field, sequence, test, negative, count: information_objects.len(), octets } }
        },
        IecFrame::S(SFrame { receive_sequence_number: receive }) => RawFrame::S { receive },
        IecFrame::U(IecUFrame { start_dt_activation, start_dt_confirmation, stop_dt_activation, stop_dt_confirmation, test_fr_activation, test_fr_confirmation }) => {
            RawFrame::U(UFrame { start_dt_activation, start_dt_confirmation, stop_dt_activation, stop_dt_confirmation, test_fr_activation, test_fr_confirmation })
        },
    })
}

/// The octets that were written, or the text of a refusal.
pub open spec fn written(result: Result<Vec<u8>, String>) -> Result<Seq<u8>, Seq<char>> {
    match result {
        Ok(octets) => Ok(octets@),
        Err(text) => Err(text@),
    }
}

pub open spec fn wrote(octets: Seq<u8>) -> Result<Seq<u8>, Seq<char>> {
    Ok(octets)
}

pub open spec fn refused(text: Seq<char>) -> Result<Seq<u8>, Seq<char>> {
    Err(text)
}

/// What is written of objects of a standard type: the header, and as many octets
/// as were given, with the addresses where they were.
pub open spec fn laid_out(
    type_id: u8,
    cot: u8,
    originator_address: u8,
    address_field: u16,
    test: bool,
    negative: bool,
    objects: Seq<u8>,
    octets: Seq<u8>,
) -> bool {
    let size = iec_type_size(type_id) as int;
    let count = objects.len() as int / (3 + size);
    &&& count <= 127
    &&& objects.len() == count * (3 + size)
    &&& octets.len() == 6 + objects.len()
    &&& octets.take(6) == asdu_header(
        type_id,
        count,
        false,
        cot,
        originator_address,
        address_field,
        test,
        negative,
    )
    &&& forall|i: int|
        0 <= i < count ==> #[trigger] address_at(octets, i, size) == object_address(
            objects,
            i,
            size,
        )
}

/// Calls `iec104::asdu::Asdu::to_bytes` on a unit whose objects
/// `InformationObjects::from_bytes` makes of octets that each hold an address.
/// Claimed: the result depends on the arguments alone; valid objects of a known
/// type are written behind the header as they stand, where there are at most
/// 127 of them; with more the unit is refused with the given text; and what is
/// written of any standard type has the header, the length and the addresses of
/// the objects. What becomes of the elements of the types that are not known
/// here is left unsaid.
#[verifier::external_body]
pub(crate) fn serialize_asdu(
    type_id: u8,
    cot: u8,
    originator_address: u8,
    address_field: u16,
    test: bool,
    negative: bool,
    objects: &[u8],
) -> (result: Result<Vec<u8>, String>)
    ensures
        written(result) == iec_asdu_octets(
            type_id,
            cot,
            originator_address,
            address_field,
            test,
            negative,
            objects@,
        ),
        forall|known: Seq<InformationObject>| #[trigger]
            objects_octets(known) == objects@ && objects_valid(TypeId::of(type_id), known) && (
            TypeId::of(type_id) !is Other) && cot < 64 ==> if known.len() <= 127 {
                written(result) == wrote(
                    asdu_header(
                        type_id,
                        known.len() as int,
                        false,
                        cot,
                        originator_address,
                        address_field,
                        test,
                        negative,
                    ) + objects@,
                )
            } else {
                written(result) == refused(too_many_text(known.len()))
            },
        iec_type_is_standard(type_id) && result is Ok ==> laid_out(
            type_id,
            cot,
            originator_address,
            address_field,
            test,
            negative,
            objects@,
            result->Ok_0@,
        ),
{
    let type_id = IecTypeId::from(type_id);
    let information_objects =
        IecObjects::from_bytes(type_id, false, 1, objects).map_err(|error| error.to_string())?;
    let cot = IecCot::try_from(cot).map_err(|error| error.to_string())?;
    let sequence = false;
    let unit = IecUnit { type_id, cot, originator_address, address_field, sequence, test, negative, information_objects };
    let mut octets = Vec::new();
    unit.to_bytes(&mut octets).map_err(|error| error.to_string())?;
    Ok(octets)
}

pub open spec fn too_many_text(count: nat) -> Seq<char> {
    "Too many objects. Max number of objects is 127, got "@ + decimal(count) + " objects."@
}

/// Calls `iec104::apdu::Frame::to_apdu_bytes` on a supervisory frame or an
/// unnumbered one. Claimed: the six octets of either.
#[verifier::external_body]
pub(crate) fn serialize_control(frame: ControlFrame) -> (result: Result<Vec<u8>, String>)
    ensures
        written(result) == wrote(frame.octets()),
{
    let frame = match frame {
        ControlFrame::S { receive } => IecFrame::S(SFrame { receive_sequence_number: receive }),
        ControlFrame::U(u) => IecFrame::U(IecUFrame {
            start_dt_activation: u.start_dt_activation,
            start_dt_confirmation: u.start_dt_confirmation,
            stop_dt_activation: u.stop_dt_activation,
            stop_dt_confirmation: u.stop_dt_confirmation,
            test_fr_activation: u.test_fr_activation,
            test_fr_confirmation: u.test_fr_confirmation,
        }),
    };
    frame.to_apdu_bytes().map_err(|error| error.to_string())
}

/// A frame without application data.
#[derive(Debug, Clone, Copy, PartialEq, Eq, Structural)]
pub enum ControlFrame {
    S { receive: u16 },
    U(UFrame),
}

impl ControlFrame {
    pub open spec fn octets(self) -> Seq<u8> {
        match self {
            ControlFrame::S { receive } => supervisory_octets(receive),
            ControlFrame::U(frame) => unnumbered_octets(frame),
        }
    }
}

/// Calls `iec104::types_id::TypeId::size`. Claimed: the result depends on the
/// number alone, and is the size of the elements of every known type.
#[verifier::external_body]
pub(crate) fn type_size(type_id: u8) -> (result: usize)
    ensures
        result == iec_type_size(type_id),
        result <= 12,
        TypeId::of(type_id) !is Other ==> result == TypeId::of(type_id).element_size(),
{
    IecTypeId::from(type_id).size()
}

/// Calls `iec104::types_id::TypeId::is_standard`. Claimed: the result depends
/// on the number alone, and is true of every known type.
#[verifier::external_body]
pub(crate) fn type_is_standard(type_id: u8) -> (result: bool)
    ensures
        result == iec_type_is_standard(type_id),
        TypeId::of(type_id) !is Other ==> result,
{
    IecTypeId::from(type_id).is_standard()
}

/// Prints an `iec104::types_id::TypeId`. Claimed: the text depends on the
/// number alone, and is the mnemonic of every known type.
#[verifier::external_body]
pub(crate) fn type_mnemonic(type_id: u8) -> (result: String)
    ensures
        result@ == iec_type_name(type_id),
        TypeId::of(type_id) !is Other ==> result@ == TypeId::of(type_id).mnemonic(),
{
    format!("{:?}", IecTypeId::from(type_id))
}

/// Prints an `iec104::cot::Cot`. Claimed: the name of each cause.
#[verifier::external_body]
pub(crate) fn cot_name(cot: u8) -> (result: String)
    requires
        cot < 64,
    ensures
        result@ == iec_cot_name(cot),
{
    IecCot::try_from(cot).map_or_else(|error| error.to_string(), |cot| format!("{cot:?}"))
}

/// Prints the `iec104::types::InformationObjects` that octets stand for, each
/// with its address or all behind the first one. Claimed: the text depends on
/// the type, the form and the octets alone.
#[verifier::external_body]
pub(crate) fn objects_text(type_id: u8, sequence: bool, objects: &[u8]) -> (result: String)
    requires
        sequence ==> iec_type_size(type_id) > 0,
    ensures
        result@ == iec_objects_text(type_id, sequence, objects@),
{
    IecObjects::from_bytes(IecTypeId::from(type_id), sequence, 1, objects)
        .map_or_else(|error| error.to_string(), |objects| format!("{objects:?}"))
}

/// Why a send window and an acknowledgement window are refused.
pub open spec fn window_refusal(k: u16, w: u16) -> Option<Seq<char>> {
    if k == 0 {
        Some("Protocol k must be > 0"@)
    } else if w == 0 {
        Some("Protocol w must be > 0"@)
    } else if w > k * 2 / 3 {
        Some(
            "Protocol w ("@ + decimal(w as nat)
                + ") exceeds spec-mandated upper bound ⌊2k/3⌋ = "@ + decimal((k * 2 / 3) as nat)
                + " for k = "@ + decimal(k as nat),
        )
    } else {
        None
    }
}

/// Calls `iec104::config::ProtocolConfig::validate` on the two windows. Claimed:
/// which windows it refuses, and with what text.
#[verifier::external_body]
pub(crate) fn validate_windows(k: u16, w: u16) -> (result: Result<(), String>)
    ensures
        match result {
            Ok(_) => window_refusal(k, w) is None,
            Err(text) => window_refusal(k, w) == Some(text@),
        },
{
    let config = ProtocolConfig { k, w, ..ProtocolConfig::default() };
    config.validate().map_err(|error| error.to_string())
}

} // verus!
