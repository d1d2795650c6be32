//! Encoding of information elements into octets and back.

use crate::protocol::element::{
    dpi_of, flag, has_flag, low_octet, octets16, octets24, octets32, rcs_of, signed16, signed32,
    step_of, unsigned24, unsigned32, Cp56Time2a, Diq, Dpi, Element, InformationObject, Qds,
    Qualifier, Rcs, SelectExecute, SeqQd, Siq, Spi, TypeId,
};
use vstd::prelude::*;

verus! {

impl Element {
    /// The type identification that an element belongs to.
    pub open spec fn kind(self) -> TypeId {
        match self {
            Element::SinglePoint { .. } => TypeId::M_SP_NA_1,
            Element::DoublePoint { .. } => TypeId::M_DP_NA_1,
            Element::Normalized { .. } => TypeId::M_ME_NA_1,
            Element::NormalizedNoQuality { .. } => TypeId::M_ME_ND_1,
            Element::ShortFloat { .. } => TypeId::M_ME_NC_1,
            Element::Counter { .. } => TypeId::M_IT_NA_1,
            Element::SinglePointTime { .. } => TypeId::M_SP_TB_1,
            Element::DoublePointTime { .. } => TypeId::M_DP_TB_1,
            Element::InitializationEnd { .. } => TypeId::M_EI_NA_1,
            Element::SingleCommand { .. } => TypeId::C_SC_NA_1,
            Element::DoubleCommand { .. } => TypeId::C_DC_NA_1,
            Element::RegulatingCommand { .. } => TypeId::C_RC_NA_1,
            Element::NormalizedSetpoint { .. } => TypeId::C_SE_NA_1,
            Element::ScaledSetpoint { .. } => TypeId::C_SE_NB_1,
            Element::FloatSetpoint { .. } => TypeId::C_SE_NC_1,
            Element::Interrogation { .. } => TypeId::C_IC_NA_1,
            Element::CounterInterrogation { .. } => TypeId::C_CI_NA_1,
            Element::Read => TypeId::C_RD_NA_1,
            Element::ClockSync { .. } => TypeId::C_CS_NA_1,
        }
    }

    /// Every field fits in the bits that the wire has for it.
    pub open spec fn valid(self) -> bool {
        match self {
            Element::Counter { sqd, .. } => sqd.seq < 32,
            Element::SinglePointTime { time, .. } => time.valid(),
            Element::DoublePointTime { time, .. } => time.valid(),
            Element::InitializationEnd { cause, .. } => cause < 128,
            Element::SingleCommand { qu, .. } => qu.value < 32,
            Element::DoubleCommand { qu, .. } => qu.value < 32,
            Element::RegulatingCommand { qu, .. } => qu.value < 32,
            Element::NormalizedSetpoint { qos, .. } => qos.value < 128,
            Element::ScaledSetpoint { qos, .. } => qos.value < 128,
            Element::FloatSetpoint { qos, .. } => qos.value < 128,
            Element::CounterInterrogation { rqt, frz } => rqt < 64 && frz < 4,
            Element::ClockSync { time } => time.valid(),
            _ => true,
        }
    }

    /// The octets of an element on the wire.
    pub open spec fn octets(self) -> Seq<u8> {
        match self {
            Element::SinglePoint { siq } => seq![siq.octet()],
            Element::DoublePoint { diq } => seq![diq.octet()],
            Element::Normalized { nva, qds } => octets16(nva as int).push(qds.octet()),
            Element::NormalizedNoQuality { nva } => octets16(nva as int),
            Element::ShortFloat { bits, qds } => octets32(bits as int).push(qds.octet()),
            Element::Counter { bcr, sqd } => octets32(bcr as int).push(sqd.octet()),
            Element::SinglePointTime { siq, time } => seq![siq.octet()] + time.octets(),
            Element::DoublePointTime { diq, time } => seq![diq.octet()] + time.octets(),
            Element::InitializationEnd { changed, cause } => seq![
                (flag(changed, 128) + cause as int % 128) as u8,
            ],
            Element::SingleCommand { scs, qu } => seq![qu.command_octet(scs.number())],
            Element::DoubleCommand { dcs, qu } => seq![qu.command_octet(dcs.number())],
            Element::RegulatingCommand { rcs, qu } => seq![qu.command_octet(rcs.number())],
            Element::NormalizedSetpoint { nva, qos } => octets16(nva as int).push(
                qos.setpoint_octet(),
            ),
            Element::ScaledSetpoint { sva, qos } => octets16(sva as int).push(
                qos.setpoint_octet(),
            ),
            Element::FloatSetpoint { bits, qos } => octets32(bits as int).push(
                qos.setpoint_octet(),
            ),
            Element::Interrogation { qoi } => seq![qoi],
            Element::CounterInterrogation { rqt, frz } => seq![
                ((frz as int % 4) * 64 + rqt as int % 64) as u8,
            ],
            Element::Read => Seq::empty(),
            Element::ClockSync { time } => time.octets(),
        }
    }

    /// The element of a type that octets stand for.
    pub open spec fn of(type_id: TypeId, octets: Seq<u8>) -> Element {
        match type_id {
            TypeId::M_SP_NA_1 => Element::SinglePoint { siq: Siq::of(octets[0]) },
            TypeId::M_DP_NA_1 => Element::DoublePoint { diq: Diq::of(octets[0]) },
            TypeId::M_ME_NA_1 => Element::Normalized {
                nva: signed16(octets) as i16,
                qds: Qds::of(octets[2]),
            },
            TypeId::M_ME_ND_1 => Element::NormalizedNoQuality { nva: signed16(octets) as i16 },
            TypeId::M_ME_NC_1 => Element::ShortFloat {
                bits: unsigned32(octets) as u32,
                qds: Qds::of(octets[4]),
            },
            TypeId::M_IT_NA_1 => Element::Counter {
                bcr: signed32(octets) as i32,
                sqd: SeqQd::of(octets[4]),
            },
            TypeId::M_SP_TB_1 => Element::SinglePointTime {
                siq: Siq::of(octets[0]),
                time: Cp56Time2a::of(octets.skip(1)),
            },
            TypeId::M_DP_TB_1 => Element::DoublePointTime {
                diq: Diq::of(octets[0]),
                time: Cp56Time2a::of(octets.skip(1)),
            },
            TypeId::M_EI_NA_1 => Element::InitializationEnd {
                changed: has_flag(octets[0], 128),
                cause: (octets[0] as int % 128) as u8,
            },
            TypeId::C_SC_NA_1 => Element::SingleCommand {
                scs: if has_flag(octets[0], 1) {
                    Spi::On
                } else {
                    Spi::Off
                },
                qu: Qualifier::command_of(octets[0]),
            },
            TypeId::C_DC_NA_1 => Element::DoubleCommand {
                dcs: dpi_of(octets[0] as int % 4),
                qu: Qualifier::command_of(octets[0]),
            },
            TypeId::C_RC_NA_1 => Element::RegulatingCommand {
                rcs: rcs_of(octets[0] as int % 4),
                qu: Qualifier::command_of(octets[0]),
            },
            TypeId::C_SE_NA_1 => Element::NormalizedSetpoint {
                nva: signed16(octets) as i16,
                qos: Qualifier::setpoint_of(octets[2]),
            },
            TypeId::C_SE_NB_1 => Element::ScaledSetpoint {
                sva: signed16(octets) as i16,
                qos: Qualifier::setpoint_of(octets[2]),
            },
            TypeId::C_SE_NC_1 => Element::FloatSetpoint {
                bits: unsigned32(octets) as u32,
                qos: Qualifier::setpoint_of(octets[4]),
            },
            TypeId::C_IC_NA_1 => Element::Interrogation { qoi: octets[0] },
            TypeId::C_CI_NA_1 => Element::CounterInterrogation {
                rqt: (octets[0] as int % 64) as u8,
                frz: (octets[0] as int / 64) as u8,
            },
            TypeId::C_CS_NA_1 => Element::ClockSync { time: Cp56Time2a::of(octets) },
            _ => Element::Read,
        }
    }
}

proof fn lemma_time_survives(time: Cp56Time2a)
    requires
        time.valid(),
    ensures
        Cp56Time2a::of(time.octets()) == time,
        time.octets().len() == 7,
{
    reveal(Cp56Time2a::octets);
    reveal(Cp56Time2a::of);
}

proof fn lemma_siq_survives(siq: Siq)
    ensures
        Siq::of(siq.octet()) == siq,
{
    reveal(Siq::octet);
    reveal(Siq::of);
}

proof fn lemma_diq_survives(diq: Diq)
    ensures
        Diq::of(diq.octet()) == diq,
{
    reveal(Diq::octet);
    reveal(Diq::of);
}

proof fn lemma_qds_survives(qds: Qds)
    ensures
        Qds::of(qds.octet()) == qds,
{
    reveal(Qds::octet);
    reveal(Qds::of);
}

proof fn lemma_sqd_survives(sqd: SeqQd)
    requires
        sqd.seq < 32,
    ensures
        SeqQd::of(sqd.octet()) == sqd,
{
    reveal(SeqQd::octet);
    reveal(SeqQd::of);
}

proof fn lemma_setpoint_qualifier_survives(qos: Qualifier)
    requires
        qos.value < 128,
    ensures
        Qualifier::setpoint_of(qos.setpoint_octet()) == qos,
{
    reveal(Qualifier::setpoint_octet);
    reveal(Qualifier::setpoint_of);
}

proof fn lemma_command_survives(qu: Qualifier, state: int)
    requires
        qu.value < 32,
        0 <= state < 4,
    ensures
        Qualifier::command_of(qu.command_octet(state)) == qu,
        qu.command_octet(state) as int % 4 == state,
        has_flag(qu.command_octet(state), 1) == (state % 2 == 1),
{
    reveal(Qualifier::command_octet);
    reveal(Qualifier::command_of);
}

proof fn lemma_number16_survives(value: int, tail: Seq<u8>)
    requires
        -32768 <= value < 32768,
    ensures
        signed16(octets16(value) + tail) == value,
{
    reveal(signed16);
    let all = octets16(value) + tail;
    assert(all[0] == low_octet(value) && all[1] == low_octet(value / 256));
}

proof fn lemma_number32_survives(value: int, tail: Seq<u8>)
    requires
        -2147483648 <= value < 4294967296,
    ensures
        value >= 0 ==> unsigned32(octets32(value) + tail) == value,
        value < 2147483648 ==> signed32(octets32(value) + tail) == value,
{
    reveal(signed32);
    reveal(unsigned32);
    let all = octets32(value) + tail;
    assert(all[0] == low_octet(value) && all[1] == low_octet(value / 256) && all[2] == low_octet(
        value / 65536,
    ) && all[3] == low_octet(value / 16777216));
    assert(value / 65536 == (value / 256) / 256);
    assert(value / 16777216 == (value / 65536) / 256);
}

/// What is written of a valid element is read back as the same element, and
/// it takes the octets that its type has.
pub proof fn law_element_survives_the_wire(element: Element)
    requires
        element.valid(),
    ensures
        Element::of(element.kind(), element.octets()) == element,
        element.octets().len() == element.kind().element_size(),
{
    match element {
        Element::SinglePoint { siq } => {
            lemma_siq_survives(siq);
        },
        Element::DoublePoint { diq } => {
            lemma_diq_survives(diq);
        },
        Element::Normalized { nva, qds } => {
            lemma_qds_survives(qds);
            lemma_number16_survives(nva as int, seq![qds.octet()]);
            assert(element.octets() =~= octets16(nva as int) + seq![qds.octet()]);
        },
        Element::NormalizedNoQuality { nva } => {
            lemma_number16_survives(nva as int, Seq::empty());
            assert(element.octets() =~= octets16(nva as int) + Seq::<u8>::empty());
        },
        Element::ShortFloat { bits, qds } => {
            lemma_qds_survives(qds);
            lemma_number32_survives(bits as int, seq![qds.octet()]);
            assert(element.octets() =~= octets32(bits as int) + seq![qds.octet()]);
        },
        Element::Counter { bcr, sqd } => {
            lemma_sqd_survives(sqd);
            lemma_number32_survives(bcr as int, seq![sqd.octet()]);
            assert(element.octets() =~= octets32(bcr as int) + seq![sqd.octet()]);
        },
        Element::SinglePointTime { siq, time } => {
            lemma_siq_survives(siq);
            lemma_time_survives(time);
            assert(element.octets().skip(1) =~= time.octets());
        },
        Element::DoublePointTime { diq, time } => {
            lemma_diq_survives(diq);
            lemma_time_survives(time);
            assert(element.octets().skip(1) =~= time.octets());
        },
        Element::InitializationEnd { changed, cause } => {},
        Element::SingleCommand { scs, qu } => {
            lemma_command_survives(qu, scs.number());
        },
        Element::DoubleCommand { dcs, qu } => {
            lemma_command_survives(qu, dcs.number());
        },
        Element::RegulatingCommand { rcs, qu } => {
            lemma_command_survives(qu, rcs.number());
        },
        Element::NormalizedSetpoint { nva, qos } => {
            lemma_setpoint_qualifier_survives(qos);
            lemma_number16_survives(nva as int, seq![qos.setpoint_octet()]);
            assert(element.octets() =~= octets16(nva as int) + seq![qos.setpoint_octet()]);
        },
        Element::ScaledSetpoint { sva, qos } => {
            lemma_setpoint_qualifier_survives(qos);
            lemma_number16_survives(sva as int, seq![qos.setpoint_octet()]);
            assert(element.octets() =~= octets16(sva as int) + seq![qos.setpoint_octet()]);
        },
        Element::FloatSetpoint { bits, qos } => {
            lemma_setpoint_qualifier_survives(qos);
            lemma_number32_survives(bits as int, seq![qos.setpoint_octet()]);
            assert(element.octets() =~= octets32(bits as int) + seq![qos.setpoint_octet()]);
        },
        Element::Interrogation { qoi } => {},
        Element::CounterInterrogation { rqt, frz } => {},
        Element::Read => {},
        Element::ClockSync { time } => {
            lemma_time_survives(time);
        },
    }
}

// ---------------------------------------------------------------------------
// Writing elements.
fn bit(set: bool, weight: u8) -> (result: u8)
    ensures
        result == flag(set, weight as int),
{
    if set {
        weight
    } else {
        0
    }
}

fn test_bit(octet: u8, weight: u8) -> (result: bool)
    requires
        weight > 0,
    ensures
        result == has_flag(octet, weight as int),
{
    (octet / weight) % 2 == 1
}

pub fn spi_number(spi: Spi) -> (result: u8)
    ensures
        result == spi.number(),
        result < 2,
{
    match spi {
        Spi::Off => 0,
        Spi::On => 1,
    }
}

pub fn dpi_number(dpi: Dpi) -> (result: u8)
    ensures
        result == dpi.number(),
        result < 4,
{
    match dpi {
        Dpi::Indeterminate => 0,
        Dpi::Off => 1,
        Dpi::On => 2,
        Dpi::Invalid => 3,
    }
}

fn rcs_number(rcs: Rcs) -> (result: u8)
    ensures
        result == rcs.number(),
        result < 4,
{
    match rcs {
        Rcs::Unset => 0,
        Rcs::Decrement => 1,
        Rcs::Increment => 2,
        Rcs::Invalid => 3,
    }
}

fn siq_octet(siq: Siq) -> (result: u8)
    ensures
        result == siq.octet(),
{
    proof {
        reveal(Siq::octet);
    }
    bit(siq.iv, 128) + bit(siq.nt, 64) + bit(siq.sb, 32) + bit(siq.bl, 16) + spi_number(siq.spi)
}

fn diq_octet(diq: Diq) -> (result: u8)
    ensures
        result == diq.octet(),
{
    proof {
        reveal(Diq::octet);
    }
    bit(diq.iv, 128) + bit(diq.nt, 64) + bit(diq.sb, 32) + bit(diq.bl, 16) + dpi_number(diq.dpi)
}

fn qds_octet(qds: Qds) -> (result: u8)
    ensures
        result == qds.octet(),
{
    proof {
        reveal(Qds::octet);
    }
    bit(qds.iv, 128) + bit(qds.nt, 64) + bit(qds.sb, 32) + bit(qds.bl, 16) + bit(qds.ov, 1)
}

fn sqd_octet(sqd: SeqQd) -> (result: u8)
    ensures
        result == sqd.octet(),
{
    proof {
        reveal(SeqQd::octet);
    }
    bit(sqd.iv, 128) + bit(sqd.ca, 64) + bit(sqd.cy, 32) + sqd.seq % 32
}

fn is_select(se: SelectExecute) -> (result: bool)
    ensures
        result == (se is Select),
{
    matches!(se, SelectExecute::Select)
}

fn setpoint_octet(qos: Qualifier) -> (result: u8)
    ensures
        result == qos.setpoint_octet(),
{
    proof {
        reveal(Qualifier::setpoint_octet);
    }
    bit(is_select(qos.se), 128) + qos.value % 128
}

fn command_octet(qu: Qualifier, state: u8) -> (result: u8)
    requires
        state < 4,
    ensures
        result == qu.command_octet(state as int),
{
    proof {
        reveal(Qualifier::command_octet);
    }
    bit(is_select(qu.se), 128) + (qu.value % 32) * 4 + state
}

pub fn put_octets16(out: &mut Vec<u8>, value: i16)
    ensures
        final(out)@ == old(out)@ + octets16(value as int),
{
    let raw: u16 = if value < 0 {
        (value as i32 + 65536) as u16
    } else {
        value as u16
    };
    out.push((raw % 256) as u8);
    out.push((raw / 256) as u8);
    assert(out@ =~= old(out)@ + octets16(value as int));
}

pub fn put_octets24(out: &mut Vec<u8>, value: u32)
    ensures
        final(out)@ == old(out)@ + octets24(value as int),
{
    out.push((value % 256) as u8);
    out.push((value / 256 % 256) as u8);
    out.push((value / 65536 % 256) as u8);
    assert(out@ =~= old(out)@ + octets24(value as int));
}

proof fn lemma_wrapped_octet(value: int, divisor: int, extra: int)
    requires
        divisor > 0,
        extra >= 0,
    ensures
        low_octet((value + extra * 256 * divisor) / divisor) == low_octet(value / divisor),
{
    vstd::arithmetic::div_mod::lemma_hoist_over_denominator(
        value,
        extra * 256,
        divisor as nat,
    );
    vstd::arithmetic::div_mod::lemma_mod_multiples_vanish(extra, value / divisor, 256);
}

proof fn lemma_wrapped32(value: int)
    ensures
        octets32(value + 4294967296) == octets32(value),
{
    lemma_wrapped_octet(value, 1, 16777216);
    lemma_wrapped_octet(value, 256, 65536);
    lemma_wrapped_octet(value, 65536, 256);
    lemma_wrapped_octet(value, 16777216, 1);
    assert(octets32(value + 4294967296) =~= octets32(value));
}

fn put_octets32(out: &mut Vec<u8>, value: i64)
    requires
        -2147483648 <= value < 4294967296,
    ensures
        final(out)@ == old(out)@ + octets32(value as int),
{
    let raw: u64 = if value < 0 {
        proof {
            lemma_wrapped32(value as int);
        }
        (value + 4294967296) as u64
    } else {
        value as u64
    };
    out.push((raw % 256) as u8);
    out.push((raw / 256 % 256) as u8);
    out.push((raw / 65536 % 256) as u8);
    out.push((raw / 16777216 % 256) as u8);
    assert(out@ =~= old(out)@ + octets32(raw as int));
}

fn put_time(out: &mut Vec<u8>, time: Cp56Time2a)
    ensures
        final(out)@ == old(out)@ + time.octets(),
{
    out.push((time.ms % 256) as u8);
    out.push((time.ms / 256) as u8);
    out.push(bit(time.iv, 128) + time.min % 64);
    out.push(bit(time.summer_time, 128) + time.hour % 32);
    out.push((time.weekday % 8) * 32 + time.day % 32);
    out.push(time.month % 16);
    out.push(time.year % 128);
    proof {
        reveal(Cp56Time2a::octets);
        assert(out@ =~= old(out)@ + time.octets());
    }
}

pub fn put_element(out: &mut Vec<u8>, element: Element)
    ensures
        final(out)@ == old(out)@ + element.octets(),
{
    let ghost before = out@;
    match element {
        Element::SinglePoint { siq } => {
            out.push(siq_octet(siq));
        },
        Element::DoublePoint { diq } => {
            out.push(diq_octet(diq));
        },
        Element::Normalized { nva, qds } => {
            put_octets16(out, nva);
            out.push(qds_octet(qds));
        },
        Element::NormalizedNoQuality { nva } => {
            put_octets16(out, nva);
        },
        Element::ShortFloat { bits, qds } => {
            put_octets32(out, bits as i64);
            out.push(qds_octet(qds));
        },
        Element::Counter { bcr, sqd } => {
            put_octets32(out, bcr as i64);
            out.push(sqd_octet(sqd));
        },
        Element::SinglePointTime { siq, time } => {
            out.push(siq_octet(siq));
            put_time(out, time);
        },
        Element::DoublePointTime { diq, time } => {
            out.push(diq_octet(diq));
            put_time(out, time);
        },
        Element::InitializationEnd { changed, cause } => {
            out.push(bit(changed, 128) + cause % 128);
        },
        Element::SingleCommand { scs, qu } => {
            out.push(command_octet(qu, spi_number(scs)));
        },
        Element::DoubleCommand { dcs, qu } => {
            out.push(command_octet(qu, dpi_number(dcs)));
        },
        Element::RegulatingCommand { rcs, qu } => {
            out.push(command_octet(qu, rcs_number(rcs)));
        },
        Element::NormalizedSetpoint { nva, qos } => {
            put_octets16(out, nva);
            out.push(setpoint_octet(qos));
        },
        Element::ScaledSetpoint { sva, qos } => {
            put_octets16(out, sva);
            out.push(setpoint_octet(qos));
        },
        Element::FloatSetpoint { bits, qos } => {
            put_octets32(out, bits as i64);
            out.push(setpoint_octet(qos));
        },
        Element::Interrogation { qoi } => {
            out.push(qoi);
        },
        Element::CounterInterrogation { rqt, frz } => {
            out.push((frz % 4) * 64 + rqt % 64);
        },
        Element::Read => {},
        Element::ClockSync { time } => {
            put_time(out, time);
        },
    }
    assert(out@ =~= before + element.octets());
}

// ---------------------------------------------------------------------------
// Reading elements.
fn take_siq(octet: u8) -> (result: Siq)
    ensures
        result == Siq::of(octet),
{
    proof {
        reveal(Siq::of);
    }
    Siq {
        iv: test_bit(octet, 128),
        nt: test_bit(octet, 64),
        sb: test_bit(octet, 32),
        bl: test_bit(octet, 16),
        spi: take_spi(octet),
    }
}

fn take_spi(octet: u8) -> (result: Spi)
    ensures
        result == if has_flag(octet, 1) {
            Spi::On
        } else {
            Spi::Off
        },
{
    if test_bit(octet, 1) {
        Spi::On
    } else {
        Spi::Off
    }
}

fn take_dpi(octet: u8) -> (result: Dpi)
    ensures
        result == dpi_of(octet as int % 4),
{
    match octet % 4 {
        0 => Dpi::Indeterminate,
        1 => Dpi::Off,
        2 => Dpi::On,
        _ => Dpi::Invalid,
    }
}

fn take_rcs(octet: u8) -> (result: Rcs)
    ensures
        result == rcs_of(octet as int % 4),
{
    match octet % 4 {
        0 => Rcs::Unset,
        1 => Rcs::Decrement,
        2 => Rcs::Increment,
        _ => Rcs::Invalid,
    }
}

fn take_diq(octet: u8) -> (result: Diq)
    ensures
        result == Diq::of(octet),
{
    proof {
        reveal(Diq::of);
    }
    Diq {
        iv: test_bit(octet, 128),
        nt: test_bit(octet, 64),
        sb: test_bit(octet, 32),
        bl: test_bit(octet, 16),
        dpi: take_dpi(octet),
    }
}

fn take_qds(octet: u8) -> (result: Qds)
    ensures
        result == Qds::of(octet),
{
    proof {
        reveal(Qds::of);
    }
    Qds {
        iv: test_bit(octet, 128),
        nt: test_bit(octet, 64),
        sb: test_bit(octet, 32),
        bl: test_bit(octet, 16),
        ov: test_bit(octet, 1),
    }
}

fn take_sqd(octet: u8) -> (result: SeqQd)
    ensures
        result == SeqQd::of(octet),
{
    proof {
        reveal(SeqQd::of);
    }
    SeqQd {
        iv: test_bit(octet, 128),
        ca: test_bit(octet, 64),
        cy: test_bit(octet, 32),
        seq: octet % 32,
    }
}

fn take_step(octet: u8) -> (result: SelectExecute)
    ensures
        result == step_of(octet),
{
    if test_bit(octet, 128) {
        SelectExecute::Select
    } else {
        SelectExecute::Execute
    }
}

fn take_setpoint_qualifier(octet: u8) -> (result: Qualifier)
    ensures
        result == Qualifier::setpoint_of(octet),
{
    proof {
        reveal(Qualifier::setpoint_of);
    }
    Qualifier { se: take_step(octet), value: octet % 128 }
}

fn take_command_qualifier(octet: u8) -> (result: Qualifier)
    ensures
        result == Qualifier::command_of(octet),
{
    proof {
        reveal(Qualifier::command_of);
    }
    Qualifier { se: take_step(octet), value: (octet / 4) % 32 }
}

fn take_signed16(octets: &[u8], at: usize, Ghost(size): Ghost<int>) -> (result: i16)
    requires
        2 <= size,
        at + size <= octets@.len(),
    ensures
        result == signed16(octets@.subrange(at as int, at + size)),
{
    proof {
        reveal(signed16);
    }
    let raw: i32 = octets[at] as i32 + octets[at + 1] as i32 * 256;
    if raw >= 32768 {
        (raw - 65536) as i16
    } else {
        raw as i16
    }
}

fn take_unsigned32(octets: &[u8], at: usize, Ghost(size): Ghost<int>) -> (result: u32)
    requires
        4 <= size,
        at + size <= octets@.len(),
    ensures
        result == unsigned32(octets@.subrange(at as int, at + size)),
{
    proof {
        reveal(unsigned32);
    }
    octets[at] as u32 + octets[at + 1] as u32 * 256 + octets[at + 2] as u32 * 65536
        + octets[at + 3] as u32 * 16777216
}

fn take_signed32(octets: &[u8], at: usize, Ghost(size): Ghost<int>) -> (result: i32)
    requires
        4 <= size,
        at + size <= octets@.len(),
    ensures
        result == signed32(octets@.subrange(at as int, at + size)),
{
    proof {
        reveal(signed32);
    }
    let raw: u32 = take_unsigned32(octets, at, Ghost(size));
    if raw >= 2147483648 {
        (raw as i64 - 4294967296) as i32
    } else {
        raw as i32
    }
}

pub fn take_unsigned24(octets: &[u8], at: usize) -> (result: u32)
    requires
        at + 3 <= octets@.len(),
    ensures
        result == unsigned24(octets@.subrange(at as int, at + 3)),
        result < 0x100_0000,
{
    octets[at] as u32 + octets[at + 1] as u32 * 256 + octets[at + 2] as u32 * 65536
}

fn take_time(octets: &[u8], at: usize) -> (result: Cp56Time2a)
    requires
        at + 7 <= octets@.len(),
    ensures
        result == Cp56Time2a::of(octets@.subrange(at as int, at + 7)),
{
    proof {
        reveal(Cp56Time2a::of);
    }
    Cp56Time2a {
        ms: octets[at] as u16 + octets[at + 1] as u16 * 256,
        iv: test_bit(octets[at + 2], 128),
        min: octets[at + 2] % 64,
        summer_time: test_bit(octets[at + 3], 128),
        hour: octets[at + 3] % 32,
        weekday: octets[at + 4] / 32,
        day: octets[at + 4] % 32,
        month: octets[at + 5] % 16,
        year: octets[at + 6] % 128,
    }
}

pub fn take_element(type_id: TypeId, octets: &[u8], at: usize) -> (result: Element)
    requires
        at + type_id.element_size() <= octets@.len(),
    ensures
        result == Element::of(
            type_id,
            octets@.subrange(at as int, at + type_id.element_size()),
        ),
{
    let ghost size = type_id.element_size() as int;
    let ghost part = octets@.subrange(at as int, at + size);
    assert(octets@.len() == octets.len());
    match type_id {
        TypeId::M_SP_NA_1 => Element::SinglePoint { siq: take_siq(octets[at]) },
        TypeId::M_DP_NA_1 => Element::DoublePoint { diq: take_diq(octets[at]) },
        TypeId::M_ME_NA_1 => Element::Normalized {
            nva: take_signed16(octets, at, Ghost(size)),
            qds: take_qds(octets[at + 2]),
        },
        TypeId::M_ME_ND_1 => Element::NormalizedNoQuality {
            nva: take_signed16(octets, at, Ghost(size)),
        },
        TypeId::M_ME_NC_1 => Element::ShortFloat {
            bits: take_unsigned32(octets, at, Ghost(size)),
            qds: take_qds(octets[at + 4]),
        },
        TypeId::M_IT_NA_1 => Element::Counter {
            bcr: take_signed32(octets, at, Ghost(size)),
            sqd: take_sqd(octets[at + 4]),
        },
        TypeId::M_SP_TB_1 => {
            assert(part.skip(1) =~= octets@.subrange(at + 1, at + 8));
            Element::SinglePointTime { siq: take_siq(octets[at]), time: take_time(octets, at + 1) }
        },
        TypeId::M_DP_TB_1 => {
            assert(part.skip(1) =~= octets@.subrange(at + 1, at + 8));
            Element::DoublePointTime { diq: take_diq(octets[at]), time: take_time(octets, at + 1) }
        },
        TypeId::M_EI_NA_1 => Element::InitializationEnd {
            changed: test_bit(octets[at], 128),
            cause: octets[at] % 128,
        },
        TypeId::C_SC_NA_1 => Element::SingleCommand {
            scs: take_spi(octets[at]),
            qu: take_command_qualifier(octets[at]),
        },
        TypeId::C_DC_NA_1 => Element::DoubleCommand {
            dcs: take_dpi(octets[at]),
            qu: take_command_qualifier(octets[at]),
        },
        TypeId::C_RC_NA_1 => Element::RegulatingCommand {
            rcs: take_rcs(octets[at]),
            qu: take_command_qualifier(octets[at]),
        },
        TypeId::C_SE_NA_1 => Element::NormalizedSetpoint {
            nva: take_signed16(octets, at, Ghost(size)),
            qos: take_setpoint_qualifier(octets[at + 2]),
        },
        TypeId::C_SE_NB_1 => Element::ScaledSetpoint {
            sva: take_signed16(octets, at, Ghost(size)),
            qos: take_setpoint_qualifier(octets[at + 2]),
        },
        TypeId::C_SE_NC_1 => Element::FloatSetpoint {
            bits: take_unsigned32(octets, at, Ghost(size)),
            qos: take_setpoint_qualifier(octets[at + 4]),
        },
        TypeId::C_IC_NA_1 => Element::Interrogation { qoi: octets[at] },
        TypeId::C_CI_NA_1 => Element::CounterInterrogation {
            rqt: octets[at] % 64,
            frz: octets[at] / 64,
        },
        TypeId::C_CS_NA_1 => Element::ClockSync { time: take_time(octets, at) },
        _ => Element::Read,
    }
}

// ---------------------------------------------------------------------------
// Objects: elements with their addresses.
impl InformationObject {
    pub open spec fn octets(self) -> Seq<u8> {
        octets24(self.address as int) + self.element.octets()
    }

    pub open spec fn valid(self) -> bool {
        self.address < 0x100_0000 && self.element.valid()
    }
}

/// The octets of objects that each carry their own address.
pub open spec fn objects_octets(objects: Seq<InformationObject>) -> Seq<u8>
    decreases objects.len(),
{
    if objects.len() == 0 {
        Seq::empty()
    } else {
        objects_octets(objects.drop_last()) + objects.last().octets()
    }
}

/// The objects that octets of one type stand for, each with its own address.
/// With consecutive addressing the addresses count up from the first one.
pub open spec fn objects_of(type_id: TypeId, sequence: bool, octets: Seq<u8>) -> Seq<
    InformationObject,
>
    decreases octets.len(),
{
    let width = 3 + type_id.element_size() as int;
    if octets.len() < width {
        Seq::empty()
    } else {
        let start = octets.len() - width;
        let before = objects_of(type_id, sequence, octets.take(start));
        let address = if sequence {
            (unsigned24(octets.take(3)) + before.len()) as u32
        } else {
            unsigned24(octets.skip(start).take(3)) as u32
        };
        before.push(
            InformationObject { address, element: Element::of(type_id, octets.skip(start + 3)) },
        )
    }
}

/// Objects of one type that are written are read back as they were.
pub proof fn law_objects_survive_the_wire(type_id: TypeId, objects: Seq<InformationObject>)
    requires
        forall|i: int|
            0 <= i < objects.len() ==> (#[trigger] objects[i]).valid() && objects[i].element.kind()
                == type_id,
    ensures
        objects_of(type_id, false, objects_octets(objects)) == objects,
        objects_octets(objects).len() == objects.len() * (3 + type_id.element_size()),
    decreases objects.len(),
{
    let octets = objects_octets(objects);
    let width = 3 + type_id.element_size() as int;
    if objects.len() > 0 {
        let before = objects.drop_last();
        let last = objects.last();
        assert(last.valid() && last.element.kind() == type_id);
        assert forall|i: int| 0 <= i < before.len() implies (#[trigger] before[i]).valid()
            && before[i].element.kind() == type_id by {
            assert(before[i] == objects[i]);
        }
        law_objects_survive_the_wire(type_id, before);
        law_element_survives_the_wire(last.element);
        let start = octets.len() - width;
        assert(octets.take(start) =~= objects_octets(before));
        assert(octets.skip(start).take(3) =~= octets24(last.address as int));
        assert(octets.skip(start + 3) =~= last.element.octets());
        assert(unsigned24(octets24(last.address as int)) == last.address as int) by {
            let value = last.address as int;
            assert(value / 65536 == (value / 256) / 256);
        }
        assert(objects =~= before.push(last));
        assert(objects.len() * width == before.len() * width + width) by (nonlinear_arith)
            requires
                objects.len() == before.len() + 1,
        ;
    } else {
        assert(objects_of(type_id, false, octets) =~= objects);
        assert(objects.len() * width == 0) by (nonlinear_arith)
            requires
                objects.len() == 0,
        ;
    }
}

pub fn encode_objects(objects: &Vec<InformationObject>) -> (result: Vec<u8>)
    ensures
        result@ == objects_octets(objects@),
{
    let mut out: Vec<u8> = Vec::new();
    let mut index: usize = 0;
    assert(objects@.take(0) =~= Seq::<InformationObject>::empty());
    while index < objects.len()
        invariant
            index <= objects.len(),
            out@ == objects_octets(objects@.take(index as int)),
        decreases objects.len() - index,
    {
        let object = objects[index];
        let ghost before = out@;
        put_octets24(&mut out, object.address);
        put_element(&mut out, object.element);
        proof {
            let longer = objects@.take(index + 1);
            assert(longer.drop_last() =~= objects@.take(index as int));
            assert(out@ =~= before + object.octets());
        }
        index += 1;
    }
    assert(objects@.take(index as int) =~= objects@);
    out
}

pub fn element_size(type_id: TypeId) -> (result: usize)
    ensures
        result == type_id.element_size(),
        result <= 8,
{
    match type_id {
        TypeId::M_SP_NA_1 => 1,
        TypeId::M_DP_NA_1 => 1,
        TypeId::M_ME_NA_1 => 3,
        TypeId::M_ME_ND_1 => 2,
        TypeId::M_ME_NC_1 => 5,
        TypeId::M_IT_NA_1 => 5,
        TypeId::M_SP_TB_1 => 8,
        TypeId::M_DP_TB_1 => 8,
        TypeId::M_EI_NA_1 => 1,
        TypeId::C_SC_NA_1 => 1,
        TypeId::C_DC_NA_1 => 1,
        TypeId::C_RC_NA_1 => 1,
        TypeId::C_SE_NA_1 => 3,
        TypeId::C_SE_NB_1 => 3,
        TypeId::C_SE_NC_1 => 5,
        TypeId::C_IC_NA_1 => 1,
        TypeId::C_CI_NA_1 => 1,
        TypeId::C_RD_NA_1 => 0,
        TypeId::C_CS_NA_1 => 7,
        TypeId::Other(_) => 0,
    }
}

/// Reads the objects of a whole number of object slots.
pub fn decode_objects(type_id: TypeId, sequence: bool, octets: &Vec<u8>) -> (result: Vec<
    InformationObject,
>)
    requires
        octets@.len() % (3 + type_id.element_size()) == 0,
        octets@.len() <= 0xFFFF,
    ensures
        result@ == objects_of(type_id, sequence, octets@),
{
    let size: usize = element_size(type_id);
    let mut result: Vec<InformationObject> = Vec::new();
    let mut at: usize = 0;
    let ghost width = 3 + size as int;
    assert(objects_of(type_id, sequence, octets@.take(0)) =~= Seq::<InformationObject>::empty());
    while octets.len() - at >= 3 + size
        invariant
            at <= octets@.len() <= 0xFFFF,
            size == type_id.element_size(),
            size <= 8,
            width == 3 + size,
            at as int % width == 0,
            result@.len() <= at,
            result@ == objects_of(type_id, sequence, octets@.take(at as int)),
        decreases octets@.len() - at,
    {
        let address: u32 = if sequence {
            take_unsigned24(octets.as_slice(), 0) + result.len() as u32
        } else {
            take_unsigned24(octets.as_slice(), at)
        };
        let element = take_element(type_id, octets.as_slice(), at + 3);
        proof {
            let longer = octets@.take(at + width);
            assert(longer.take(at as int) =~= octets@.take(at as int));
            assert(longer.take(3) =~= octets@.subrange(0, 3));
            assert(longer.skip(at as int).take(3) =~= octets@.subrange(at as int, at + 3));
            assert(longer.skip(at + 3) =~= octets@.subrange(at + 3, at + width));
            vstd::arithmetic::div_mod::lemma_mod_add_multiples_vanish(at as int, width);
        }
        result.push(InformationObject { address, element });
        at = at + 3 + size;
    }
    proof {
        let rest = octets@.len() - at;
        vstd::arithmetic::div_mod::lemma_sub_mod_noop(octets@.len() as int, at as int, width);
        vstd::arithmetic::div_mod::lemma_small_mod(rest as nat, width as nat);
        assert(rest == 0);
        assert(octets@.take(at as int) =~= octets@);
    }
    result
}

// ---------------------------------------------------------------------------
// Laws of where things stand on the wire.
/// The bit of a weight is set in an octet.
pub open spec fn bit_set(octet: u8, weight: int) -> bool {
    (octet as int / weight) % 2 == 1
}

/// Four flags in the upper half of an octet and a number in the lower one.
proof fn lemma_flags_stand(a: bool, b: bool, c: bool, d: bool, low: int)
    requires
        0 <= low < 16,
    ensures
        ({
            let octet = (flag(a, 128) + flag(b, 64) + flag(c, 32) + flag(d, 16) + low) as u8;
            &&& bit_set(octet, 128) == a
            &&& bit_set(octet, 64) == b
            &&& bit_set(octet, 32) == c
            &&& bit_set(octet, 16) == d
            &&& octet as int % 16 == low
        }),
{
    let value = flag(a, 128) + flag(b, 64) + flag(c, 32) + flag(d, 16) + low;
    assert(0 <= value < 256);
    assert(value / 16 == flag(a, 8) + flag(b, 4) + flag(c, 2) + flag(d, 1));
    assert(value / 32 == flag(a, 4) + flag(b, 2) + flag(c, 1));
    assert(value / 64 == flag(a, 2) + flag(b, 1));
    assert(value / 128 == flag(a, 1));
}

proof fn lemma_siq_stands(siq: Siq)
    ensures
        bit_set(siq.octet(), 128) == siq.iv,
        bit_set(siq.octet(), 64) == siq.nt,
        bit_set(siq.octet(), 32) == siq.sb,
        bit_set(siq.octet(), 16) == siq.bl,
        siq.octet() as int % 16 == siq.spi.number(),
{
    reveal(Siq::octet);
    lemma_flags_stand(siq.iv, siq.nt, siq.sb, siq.bl, siq.spi.number());
}

proof fn lemma_diq_stands(diq: Diq)
    ensures
        bit_set(diq.octet(), 128) == diq.iv,
        bit_set(diq.octet(), 64) == diq.nt,
        bit_set(diq.octet(), 32) == diq.sb,
        bit_set(diq.octet(), 16) == diq.bl,
        diq.octet() as int % 16 == diq.dpi.number(),
{
    reveal(Diq::octet);
    lemma_flags_stand(diq.iv, diq.nt, diq.sb, diq.bl, diq.dpi.number());
}

proof fn lemma_qds_stands(qds: Qds)
    ensures
        bit_set(qds.octet(), 128) == qds.iv,
        bit_set(qds.octet(), 64) == qds.nt,
        bit_set(qds.octet(), 32) == qds.sb,
        bit_set(qds.octet(), 16) == qds.bl,
        qds.octet() as int % 16 == flag(qds.ov, 1),
{
    reveal(Qds::octet);
    lemma_flags_stand(qds.iv, qds.nt, qds.sb, qds.bl, flag(qds.ov, 1));
}

proof fn lemma_sqd_stands(sqd: SeqQd)
    requires
        sqd.seq < 32,
    ensures
        bit_set(sqd.octet(), 128) == sqd.iv,
        bit_set(sqd.octet(), 64) == sqd.ca,
        bit_set(sqd.octet(), 32) == sqd.cy,
        sqd.octet() as int % 32 == sqd.seq,
{
    reveal(SeqQd::octet);
    let fifth = sqd.seq >= 16;
    let low = sqd.seq as int % 16;
    lemma_flags_stand(sqd.iv, sqd.ca, sqd.cy, fifth, low);
    assert(flag(fifth, 16) + low == sqd.seq as int % 32);
}

/// Each flag has a bit of its own, from the highest down: invalid, not topical,
/// substituted and blocked. A state stands in the lowest bits: on is one for a
/// single point; off is one and on is two for a double point. An overflow is the
/// lowest bit. A counter has its number in the lowest five bits, below carry,
/// adjustment and validity.
pub proof fn law_qualities_stand_in_their_bits(siq: Siq, diq: Diq, qds: Qds, sqd: SeqQd)
    requires
        sqd.seq < 32,
    ensures
        bit_set(siq.octet(), 128) == siq.iv,
        bit_set(siq.octet(), 64) == siq.nt,
        bit_set(siq.octet(), 32) == siq.sb,
        bit_set(siq.octet(), 16) == siq.bl,
        siq.octet() as int % 16 == (if siq.spi is On {
            1int
        } else {
            0
        }),
        bit_set(diq.octet(), 128) == diq.iv,
        bit_set(diq.octet(), 64) == diq.nt,
        bit_set(diq.octet(), 32) == diq.sb,
        bit_set(diq.octet(), 16) == diq.bl,
        diq.dpi is Indeterminate ==> diq.octet() as int % 16 == 0,
        diq.dpi is Off ==> diq.octet() as int % 16 == 1,
        diq.dpi is On ==> diq.octet() as int % 16 == 2,
        diq.dpi is Invalid ==> diq.octet() as int % 16 == 3,
        bit_set(qds.octet(), 128) == qds.iv,
        bit_set(qds.octet(), 64) == qds.nt,
        bit_set(qds.octet(), 32) == qds.sb,
        bit_set(qds.octet(), 16) == qds.bl,
        qds.octet() as int % 16 == (if qds.ov {
            1int
        } else {
            0
        }),
        bit_set(sqd.octet(), 128) == sqd.iv,
        bit_set(sqd.octet(), 64) == sqd.ca,
        bit_set(sqd.octet(), 32) == sqd.cy,
        sqd.octet() as int % 32 == sqd.seq,
{
    lemma_siq_stands(siq);
    lemma_diq_stands(diq);
    lemma_qds_stands(qds);
    lemma_sqd_stands(sqd);
}

/// A command has its state in the lowest two bits, its qualifier above them and
/// the selection in the highest bit; a set point has its qualifier in the lower
/// seven bits.
pub proof fn law_commands_stand_in_their_bits(qu: Qualifier, state: int)
    requires
        0 <= state < 4,
    ensures
        bit_set(qu.command_octet(state), 128) == (qu.se is Select),
        qu.command_octet(state) as int % 4 == state,
        qu.value < 32 ==> (qu.command_octet(state) as int / 4) % 32 == qu.value,
        bit_set(qu.setpoint_octet(), 128) == (qu.se is Select),
        qu.value < 128 ==> qu.setpoint_octet() as int % 128 == qu.value,
{
    reveal(Qualifier::command_octet);
    reveal(Qualifier::setpoint_octet);
}

/// A time has its milliseconds first, the lower octet before the higher, and then
/// the minute, the hour, the day of the month below the day of the week, the
/// month and the year; the highest bits of minute and hour say that the time is
/// invalid and that it is summer.
pub proof fn law_times_stand_in_their_octets(time: Cp56Time2a)
    requires
        time.valid(),
    ensures
        ({
            let octets = time.octets();
            &&& octets.len() == 7
            &&& octets[0] as int + 256 * octets[1] as int == time.ms
            &&& octets[2] as int % 64 == time.min && bit_set(octets[2], 128) == time.iv
            &&& octets[3] as int % 32 == time.hour && bit_set(octets[3], 128) == time.summer_time
            &&& octets[4] as int % 32 == time.day && octets[4] as int / 32 == time.weekday
            &&& octets[5] == time.month
            &&& octets[6] == time.year
        }),
{
    reveal(Cp56Time2a::octets);
}

/// Two octets stand for the number, the lower one first; a negative one counts
/// down from the top.
pub open spec fn stand_for_16(low: u8, high: u8, number: int) -> bool {
    low as int + 256 * high as int == (if number < 0 {
        number + 0x1_0000
    } else {
        number
    })
}

/// Four octets stand for the number, the lowest one first.
pub open spec fn stand_for_32(octets: Seq<u8>, number: int) -> bool {
    octets[0] as int + 256 * octets[1] as int + 65536 * octets[2] as int + 16777216
        * octets[3] as int == (if number < 0 {
        number + 0x1_0000_0000
    } else {
        number
    })
}

proof fn lemma_stand_for_16(number: int, tail: Seq<u8>)
    requires
        -0x8000 <= number < 0x8000,
    ensures
        ({
            let octets = octets16(number) + tail;
            stand_for_16(octets[0], octets[1], number)
        }),
{
    assert(number == 256 * (number / 256) + number % 256);
    assert(-128 <= number / 256 < 128);
}

proof fn lemma_stand_for_32(number: int, tail: Seq<u8>)
    requires
        -0x8000_0000 <= number < 0x1_0000_0000,
    ensures
        stand_for_32(octets32(number) + tail, number),
{
    let first = number / 256;
    let second = number / 65536;
    let third = number / 16777216;
    assert(number == 256 * first + number % 256);
    assert(first / 256 == second && second / 256 == third);
    assert(first == 256 * second + first % 256);
    assert(second == 256 * third + second % 256);
    assert(-128 <= third < 256);
}

/// Every element is of its own type on the wire: its number, its length, and its
/// parts in their order, the value before its quality and the state before its
/// time.
pub proof fn law_elements_stand_in_their_octets(element: Element)
    requires
        element.valid(),
    ensures
        ({
            let octets = element.octets();
            let number = element.kind().number();
            match element {
                Element::SinglePoint { siq } => number == 1 && octets == seq![siq.octet()],
                Element::DoublePoint { diq } => number == 3 && octets == seq![diq.octet()],
                Element::Normalized { nva, qds } => number == 9 && octets.len() == 3
                    && stand_for_16(octets[0], octets[1], nva as int) && octets[2] == qds.octet(),
                Element::ShortFloat { bits, qds } => number == 13 && octets.len() == 5
                    && stand_for_32(octets, bits as int) && octets[4] == qds.octet(),
                Element::Counter { bcr, sqd } => number == 15 && octets.len() == 5 && stand_for_32(
                    octets,
                    bcr as int,
                ) && octets[4] == sqd.octet(),
                Element::NormalizedNoQuality { nva } => number == 21 && octets.len() == 2
                    && stand_for_16(octets[0], octets[1], nva as int),
                Element::SinglePointTime { siq, time } => number == 30 && octets
                    == seq![siq.octet()] + time.octets(),
                Element::DoublePointTime { diq, time } => number == 31 && octets
                    == seq![diq.octet()] + time.octets(),
                Element::SingleCommand { scs, qu } => number == 45 && octets
                    == seq![qu.command_octet(
                    if scs is On {
                        1
                    } else {
                        0
                    },
                )],
                Element::DoubleCommand { dcs, qu } => number == 46 && octets.len() == 1 && (dcs
                    is Off ==> octets[0] == qu.command_octet(1)) && (dcs is On ==> octets[0]
                    == qu.command_octet(2)),
                Element::RegulatingCommand { rcs, qu } => number == 47 && octets.len() == 1 && (rcs
                    is Decrement ==> octets[0] == qu.command_octet(1)) && (rcs is Increment
                    ==> octets[0] == qu.command_octet(2)),
                Element::NormalizedSetpoint { nva, qos } => number == 48 && octets.len() == 3
                    && stand_for_16(octets[0], octets[1], nva as int) && octets[2]
                    == qos.setpoint_octet(),
                Element::ScaledSetpoint { sva, qos } => number == 49 && octets.len() == 3
                    && stand_for_16(octets[0], octets[1], sva as int) && octets[2]
                    == qos.setpoint_octet(),
                Element::FloatSetpoint { bits, qos } => number == 50 && octets.len() == 5
                    && stand_for_32(octets, bits as int) && octets[4] == qos.setpoint_octet(),
                Element::InitializationEnd { changed, cause } => number == 70 && octets.len() == 1
                    && octets[0] as int % 128 == cause && bit_set(octets[0], 128) == changed,
                Element::Interrogation { qoi } => number == 100 && octets == seq![qoi],
                Element::CounterInterrogation { rqt, frz } => number == 101 && octets.len() == 1
                    && octets[0] as int % 64 == rqt && octets[0] as int / 64 == frz,
                Element::Read => number == 102 && octets.len() == 0,
                Element::ClockSync { time } => number == 103 && octets == time.octets(),
            }
        }),
{
    match element {
        Element::Normalized { nva, qds } => {
            lemma_stand_for_16(nva as int, seq![qds.octet()]);
            assert(element.octets() =~= octets16(nva as int) + seq![qds.octet()]);
        },
        Element::NormalizedNoQuality { nva } => {
            lemma_stand_for_16(nva as int, Seq::empty());
            assert(element.octets() =~= octets16(nva as int) + Seq::<u8>::empty());
        },
        Element::NormalizedSetpoint { nva, qos } => {
            lemma_stand_for_16(nva as int, seq![qos.setpoint_octet()]);
            assert(element.octets() =~= octets16(nva as int) + seq![qos.setpoint_octet()]);
        },
        Element::ScaledSetpoint { sva, qos } => {
            lemma_stand_for_16(sva as int, seq![qos.setpoint_octet()]);
            assert(element.octets() =~= octets16(sva as int) + seq![qos.setpoint_octet()]);
        },
        Element::ShortFloat { bits, qds } => {
            lemma_stand_for_32(bits as int, seq![qds.octet()]);
            assert(element.octets() =~= octets32(bits as int) + seq![qds.octet()]);
        },
        Element::Counter { bcr, sqd } => {
            lemma_stand_for_32(bcr as int, seq![sqd.octet()]);
            assert(element.octets() =~= octets32(bcr as int) + seq![sqd.octet()]);
        },
        Element::FloatSetpoint { bits, qos } => {
            lemma_stand_for_32(bits as int, seq![qos.setpoint_octet()]);
            assert(element.octets() =~= octets32(bits as int) + seq![qos.setpoint_octet()]);
        },
        _ => {},
    }
}

/// An object stands with its address of three octets in front, the lowest one
/// first.
pub proof fn law_objects_begin_with_their_address(object: InformationObject)
    requires
        object.address < 0x100_0000,
    ensures
        object.octets().len() == 3 + object.element.octets().len(),
        object.octets()[0] as int + 256 * object.octets()[1] as int + 65536
            * object.octets()[2] as int == object.address,
        object.octets().skip(3) == object.element.octets(),
{
    assert(object.octets().skip(3) =~= object.element.octets());
}

} // verus!
