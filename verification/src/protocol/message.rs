//! Application service data units and the frames that carry them.

use crate::protocol::codec::objects_octets;
use crate::protocol::element::{InformationObject, TypeId};
use vstd::prelude::*;

verus! {

// Causes of transmission, by their numbers.
pub const COT_SPONTANEOUS: u8 = 3;

pub const COT_INITIATED: u8 = 4;

pub const COT_REQUEST: u8 = 5;

pub const COT_ACTIVATION: u8 = 6;

pub const COT_ACTIVATION_CONFIRMATION: u8 = 7;

pub const COT_ACTIVATION_TERMINATION: u8 = 10;

pub const COT_INTERROGATION_GENERAL: u8 = 20;

pub const COT_COUNTER_INTERROGATION_GENERAL: u8 = 37;

pub const COT_UNKNOWN_TYPE: u8 = 44;

pub const COT_UNKNOWN_CAUSE: u8 = 45;

pub const COT_UNKNOWN_ASDU_ADDRESS: u8 = 46;

pub const COT_UNKNOWN_OBJECT_ADDRESS: u8 = 47;

/// The information objects of a unit. Objects of a type that the station only
/// passes through stay in the octets that carry them.
#[derive(Debug, Clone)]
pub enum InformationObjects {
    Known(Vec<InformationObject>),
    Other { count: usize, octets: Vec<u8> },
}

#[verifier::ext_equal]
pub enum ObjectsView {
    Known(Seq<InformationObject>),
    Other { count: nat, octets: Seq<u8> },
}

impl View for InformationObjects {
    type V = ObjectsView;

    open spec fn view(&self) -> ObjectsView {
        match self {
            InformationObjects::Known(objects) => ObjectsView::Known(objects@),
            InformationObjects::Other { count, octets } => ObjectsView::Other {
                count: *count as nat,
                octets: octets@,
            },
        }
    }
}

impl ObjectsView {
    pub open spec fn count(self) -> nat {
        match self {
            ObjectsView::Known(objects) => objects.len(),
            ObjectsView::Other { count, .. } => count,
        }
    }

    /// The octets of the objects, each with its own address.
    pub open spec fn octets(self) -> Seq<u8> {
        match self {
            ObjectsView::Known(objects) => objects_octets(objects),
            ObjectsView::Other { octets, .. } => octets,
        }
    }
}

impl InformationObjects {
    pub fn copy(&self) -> (result: InformationObjects)
        ensures
            result@ == self@,
    {
        match self {
            InformationObjects::Known(objects) => InformationObjects::Known(copy_objects(objects)),
            InformationObjects::Other { count, octets } => InformationObjects::Other {
                count: *count,
                octets: copy_octets(octets.as_slice()),
            },
        }
    }

    pub fn len(&self) -> (result: usize)
        ensures
            result == self@.count(),
    {
        match self {
            InformationObjects::Known(objects) => objects.len(),
            InformationObjects::Other { count, .. } => *count,
        }
    }
}

pub fn copy_objects(objects: &Vec<InformationObject>) -> (result: Vec<InformationObject>)
    ensures
        result@ == objects@,
{
    let mut result: Vec<InformationObject> = Vec::new();
    let mut index: usize = 0;
    while index < objects.len()
        invariant
            index <= objects.len(),
            result@ == objects@.take(index as int),
        decreases objects.len() - index,
    {
        result.push(objects[index]);
        assert(result@ =~= objects@.take(index + 1));
        index += 1;
    }
    assert(objects@.take(index as int) =~= objects@);
    result
}

pub fn copy_octets(octets: &[u8]) -> (result: Vec<u8>)
    ensures
        result@ == octets@,
{
    let mut result: Vec<u8> = Vec::new();
    append_octets(&mut result, octets, 0, octets.len());
    assert(result@ =~= octets@);
    result
}

/// Appends the octets `from..to`.
pub fn append_octets(out: &mut Vec<u8>, octets: &[u8], from: usize, to: usize)
    requires
        from <= to <= octets@.len(),
    ensures
        final(out)@ == old(out)@ + octets@.subrange(from as int, to as int),
{
    let ghost before = out@;
    let mut index: usize = from;
    assert(octets@.subrange(from as int, from as int) =~= Seq::<u8>::empty());
    assert(out@ =~= before + octets@.subrange(from as int, from as int));
    while index < to
        invariant
            from <= index <= to <= octets@.len(),
            out@ == before + octets@.subrange(from as int, index as int),
        decreases to - index,
    {
        out.push(octets[index]);
        assert(out@ =~= before + octets@.subrange(from as int, index + 1));
        index += 1;
    }
}

/// An application service data unit.
#[derive(Debug, Clone)]
pub struct Asdu {
    pub type_id: TypeId,
    pub cot: u8,
    pub originator_address: u8,
    pub address_field: u16,
    pub sequence: bool,
    pub test: bool,
    pub negative: bool,
    pub information_objects: InformationObjects,
}

#[verifier::ext_equal]
pub struct AsduView {
    pub type_id: TypeId,
    pub cot: u8,
    pub originator_address: u8,
    pub address_field: u16,
    pub sequence: bool,
    pub test: bool,
    pub negative: bool,
    pub objects: ObjectsView,
}

impl View for Asdu {
    type V = AsduView;

    open spec fn view(&self) -> AsduView {
        AsduView {
            type_id: self.type_id,
            cot: self.cot,
            originator_address: self.originator_address,
            address_field: self.address_field,
            sequence: self.sequence,
            test: self.test,
            negative: self.negative,
            objects: self.information_objects@,
        }
    }
}

impl Asdu {
    pub fn copy(&self) -> (result: Asdu)
        ensures
            result@ == self@,
    {
        Asdu {
            type_id: self.type_id,
            cot: self.cot,
            originator_address: self.originator_address,
            address_field: self.address_field,
            sequence: self.sequence,
            test: self.test,
            negative: self.negative,
            information_objects: self.information_objects.copy(),
        }
    }
}

impl AsduView {
    /// The objects fit the type, and every field fits in its bits.
    pub open spec fn valid(self) -> bool {
        &&& self.type_id.canonical()
        &&& self.cot < 64
        &&& match self.objects {
            ObjectsView::Known(objects) => {
                &&& !(self.type_id is Other)
                &&& objects_valid(self.type_id, objects)
            },
            ObjectsView::Other { .. } => self.type_id is Other,
        }
    }
}

/// Objects of one type whose fields all fit in their bits.
pub open spec fn objects_valid(type_id: TypeId, objects: Seq<InformationObject>) -> bool {
    forall|i: int|
        0 <= i < objects.len() ==> (#[trigger] objects[i]).valid() && objects[i].element.kind()
            == type_id
}

/// The control functions of an unnumbered frame.
#[derive(Debug, Clone, Copy, PartialEq, Eq, Structural)]
pub struct UFrame {
    pub start_dt_activation: bool,
    pub start_dt_confirmation: bool,
    pub stop_dt_activation: bool,
    pub stop_dt_confirmation: bool,
    pub test_fr_activation: bool,
    pub test_fr_confirmation: bool,
}

/// A control function that the station sends.
#[derive(Debug, Clone, Copy, PartialEq, Eq, Structural)]
pub enum LinkFunction {
    StartActivation,
    StartConfirmation,
    StopActivation,
    StopConfirmation,
    TestActivation,
    TestConfirmation,
}

impl LinkFunction {
    /// The frame that carries this function alone.
    pub open spec fn unnumbered(self) -> UFrame {
        UFrame {
            start_dt_activation: self is StartActivation,
            start_dt_confirmation: self is StartConfirmation,
            stop_dt_activation: self is StopActivation,
            stop_dt_confirmation: self is StopConfirmation,
            test_fr_activation: self is TestActivation,
            test_fr_confirmation: self is TestConfirmation,
        }
    }

    pub fn frame(self) -> (result: UFrame)
        ensures
            result == self.unnumbered(),
    {
        UFrame {
            start_dt_activation: matches!(self, LinkFunction::StartActivation),
            start_dt_confirmation: matches!(self, LinkFunction::StartConfirmation),
            stop_dt_activation: matches!(self, LinkFunction::StopActivation),
            stop_dt_confirmation: matches!(self, LinkFunction::StopConfirmation),
            test_fr_activation: matches!(self, LinkFunction::TestActivation),
            test_fr_confirmation: matches!(self, LinkFunction::TestConfirmation),
        }
    }
}

/// A frame of the link layer.
#[derive(Debug, Clone)]
pub enum Frame {
    /// Numbered, with application data.
    I { send: u16, receive: u16, asdu: Asdu },
    /// Supervisory: an acknowledgement alone.
    S { receive: u16 },
    /// Unnumbered: link control.
    U(UFrame),
}

#[verifier::ext_equal]
pub enum FrameView {
    I { send: u16, receive: u16, asdu: AsduView },
    S { receive: u16 },
    U(UFrame),
}

impl View for Frame {
    type V = FrameView;

    open spec fn view(&self) -> FrameView {
        match self {
            Frame::I { send, receive, asdu } => FrameView::I {
                send: *send,
                receive: *receive,
                asdu: asdu@,
            },
            Frame::S { receive } => FrameView::S { receive: *receive },
            Frame::U(frame) => FrameView::U(*frame),
        }
    }
}

} // verus!
