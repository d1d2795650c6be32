//! Information elements and their octets on the wire.

use vstd::prelude::*;

verus! {

/// The type identifications that the station works with.
#[allow(non_camel_case_types)]
#[derive(Debug, Clone, Copy, PartialEq, Eq, Structural)]
pub enum TypeId {
    M_SP_NA_1,
    M_DP_NA_1,
    M_ME_NA_1,
    M_ME_ND_1,
    M_ME_NC_1,
    M_IT_NA_1,
    M_SP_TB_1,
    M_DP_TB_1,
    M_EI_NA_1,
    C_SC_NA_1,
    C_DC_NA_1,
    C_RC_NA_1,
    C_SE_NA_1,
    C_SE_NB_1,
    C_SE_NC_1,
    C_IC_NA_1,
    C_CI_NA_1,
    C_RD_NA_1,
    C_CS_NA_1,
    /// A type that is only passed through, by its number.
    Other(u8),
}

impl TypeId {
    pub open spec fn number(self) -> u8 {
        match self {
            TypeId::M_SP_NA_1 => 1,
            TypeId::M_DP_NA_1 => 3,
            TypeId::M_ME_NA_1 => 9,
            TypeId::M_ME_ND_1 => 21,
            TypeId::M_ME_NC_1 => 13,
            TypeId::M_IT_NA_1 => 15,
            TypeId::M_SP_TB_1 => 30,
            TypeId::M_DP_TB_1 => 31,
            TypeId::M_EI_NA_1 => 70,
            TypeId::C_SC_NA_1 => 45,
            TypeId::C_DC_NA_1 => 46,
            TypeId::C_RC_NA_1 => 47,
            TypeId::C_SE_NA_1 => 48,
            TypeId::C_SE_NB_1 => 49,
            TypeId::C_SE_NC_1 => 50,
            TypeId::C_IC_NA_1 => 100,
            TypeId::C_CI_NA_1 => 101,
            TypeId::C_RD_NA_1 => 102,
            TypeId::C_CS_NA_1 => 103,
            TypeId::Other(code) => code,
        }
    }

    /// The octets of one element of this type; zero for a type that is only
    /// passed through.
    pub open spec fn element_size(self) -> nat {
        match self {
            TypeId::M_SP_NA_1 => 1,
            TypeId::M_DP_NA_1 => 1,
            TypeId::M_ME_NA_1 => 3,
            TypeId::M_ME_ND_1 => 2,
            TypeId::M_ME_NC_1 => 5,
            TypeId::M_IT_NA_1 => 5,
            TypeId::M_SP_TB_1 => 8,
            TypeId::M_DP_TB_1 => 8,
            TypeId::M_EI_NA_1 => 1,
            TypeId::C_SC_NA_1 => 1,
            TypeId::C_DC_NA_1 => 1,
            TypeId::C_RC_NA_1 => 1,
            TypeId::C_SE_NA_1 => 3,
            TypeId::C_SE_NB_1 => 3,
            TypeId::C_SE_NC_1 => 5,
            TypeId::C_IC_NA_1 => 1,
            TypeId::C_CI_NA_1 => 1,
            TypeId::C_RD_NA_1 => 0,
            TypeId::C_CS_NA_1 => 7,
            TypeId::Other(_) => 0,
        }
    }

    /// The name of a known type.
    pub open spec fn mnemonic(self) -> Seq<char> {
        match self {
            TypeId::M_SP_NA_1 => "M_SP_NA_1"@,
            TypeId::M_DP_NA_1 => "M_DP_NA_1"@,
            TypeId::M_ME_NA_1 => "M_ME_NA_1"@,
            TypeId::M_ME_ND_1 => "M_ME_ND_1"@,
            TypeId::M_ME_NC_1 => "M_ME_NC_1"@,
            TypeId::M_IT_NA_1 => "M_IT_NA_1"@,
            TypeId::M_SP_TB_1 => "M_SP_TB_1"@,
            TypeId::M_DP_TB_1 => "M_DP_TB_1"@,
            TypeId::M_EI_NA_1 => "M_EI_NA_1"@,
            TypeId::C_SC_NA_1 => "C_SC_NA_1"@,
            TypeId::C_DC_NA_1 => "C_DC_NA_1"@,
            TypeId::C_RC_NA_1 => "C_RC_NA_1"@,
            TypeId::C_SE_NA_1 => "C_SE_NA_1"@,
            TypeId::C_SE_NB_1 => "C_SE_NB_1"@,
            TypeId::C_SE_NC_1 => "C_SE_NC_1"@,
            TypeId::C_IC_NA_1 => "C_IC_NA_1"@,
            TypeId::C_CI_NA_1 => "C_CI_NA_1"@,
            TypeId::C_RD_NA_1 => "C_RD_NA_1"@,
            TypeId::C_CS_NA_1 => "C_CS_NA_1"@,
            TypeId::Other(_) => Seq::empty(),
        }
    }

    /// The type of a number, in its only form.
    pub open spec fn of(number: u8) -> TypeId {
        match number {
            1 => TypeId::M_SP_NA_1,
            3 => TypeId::M_DP_NA_1,
            9 => TypeId::M_ME_NA_1,
            21 => TypeId::M_ME_ND_1,
            13 => TypeId::M_ME_NC_1,
            15 => TypeId::M_IT_NA_1,
            30 => TypeId::M_SP_TB_1,
            31 => TypeId::M_DP_TB_1,
            70 => TypeId::M_EI_NA_1,
            45 => TypeId::C_SC_NA_1,
            46 => TypeId::C_DC_NA_1,
            47 => TypeId::C_RC_NA_1,
            48 => TypeId::C_SE_NA_1,
            49 => TypeId::C_SE_NB_1,
            50 => TypeId::C_SE_NC_1,
            100 => TypeId::C_IC_NA_1,
            101 => TypeId::C_CI_NA_1,
            102 => TypeId::C_RD_NA_1,
            103 => TypeId::C_CS_NA_1,
            _ => TypeId::Other(number),
        }
    }

    /// The type is in the form that `of` gives.
    pub open spec fn canonical(self) -> bool {
        self == TypeId::of(self.number())
    }

    pub fn code(self) -> (result: u8)
        ensures
            result == self.number(),
    {
        match self {
            TypeId::M_SP_NA_1 => 1,
            TypeId::M_DP_NA_1 => 3,
            TypeId::M_ME_NA_1 => 9,
            TypeId::M_ME_ND_1 => 21,
            TypeId::M_ME_NC_1 => 13,
            TypeId::M_IT_NA_1 => 15,
            TypeId::M_SP_TB_1 => 30,
            TypeId::M_DP_TB_1 => 31,
            TypeId::M_EI_NA_1 => 70,
            TypeId::C_SC_NA_1 => 45,
            TypeId::C_DC_NA_1 => 46,
            TypeId::C_RC_NA_1 => 47,
            TypeId::C_SE_NA_1 => 48,
            TypeId::C_SE_NB_1 => 49,
            TypeId::C_SE_NC_1 => 50,
            TypeId::C_IC_NA_1 => 100,
            TypeId::C_CI_NA_1 => 101,
            TypeId::C_RD_NA_1 => 102,
            TypeId::C_CS_NA_1 => 103,
            TypeId::Other(code) => code,
        }
    }

    pub fn from_code(number: u8) -> (result: TypeId)
        ensures
            result == TypeId::of(number),
            result.number() == number,
            result.canonical(),
    {
        match number {
            1 => TypeId::M_SP_NA_1,
            3 => TypeId::M_DP_NA_1,
            9 => TypeId::M_ME_NA_1,
            21 => TypeId::M_ME_ND_1,
            13 => TypeId::M_ME_NC_1,
            15 => TypeId::M_IT_NA_1,
            30 => TypeId::M_SP_TB_1,
            31 => TypeId::M_DP_TB_1,
            70 => TypeId::M_EI_NA_1,
            45 => TypeId::C_SC_NA_1,
            46 => TypeId::C_DC_NA_1,
            47 => TypeId::C_RC_NA_1,
            48 => TypeId::C_SE_NA_1,
            49 => TypeId::C_SE_NB_1,
            50 => TypeId::C_SE_NC_1,
            100 => TypeId::C_IC_NA_1,
            101 => TypeId::C_CI_NA_1,
            102 => TypeId::C_RD_NA_1,
            103 => TypeId::C_CS_NA_1,
            _ => TypeId::Other(number),
        }
    }
}

/// Single-point information.
#[derive(Debug, Clone, Copy, PartialEq, Eq, Structural)]
pub enum Spi {
    Off,
    On,
}

/// Double-point information.
#[derive(Debug, Clone, Copy, PartialEq, Eq, Structural)]
pub enum Dpi {
    Indeterminate,
    Off,
    On,
    Invalid,
}

/// The two steps of a command.
#[derive(Debug, Clone, Copy, PartialEq, Eq, Structural)]
pub enum SelectExecute {
    Execute,
    Select,
}

/// The step of a regulating command.
#[derive(Debug, Clone, Copy, PartialEq, Eq, Structural)]
pub enum Rcs {
    Unset,
    Decrement,
    Increment,
    Invalid,
}

/// Single-point information with its quality.
#[derive(Debug, Clone, Copy, PartialEq, Eq, Structural)]
pub struct Siq {
    pub iv: bool,
    pub nt: bool,
    pub sb: bool,
    pub bl: bool,
    pub spi: Spi,
}

/// Double-point information with its quality.
#[derive(Debug, Clone, Copy, PartialEq, Eq, Structural)]
pub struct Diq {
    pub iv: bool,
    pub nt: bool,
    pub sb: bool,
    pub bl: bool,
    pub dpi: Dpi,
}

/// The quality of a measured value.
#[derive(Debug, Clone, Copy, PartialEq, Eq, Structural)]
pub struct Qds {
    pub iv: bool,
    pub nt: bool,
    pub sb: bool,
    pub bl: bool,
    pub ov: bool,
}

/// The quality and sequence number of a counter reading.
#[derive(Debug, Clone, Copy, PartialEq, Eq, Structural)]
pub struct SeqQd {
    pub iv: bool,
    pub ca: bool,
    pub cy: bool,
    pub seq: u8,
}

/// The qualifier of a command, with the step it belongs to.
#[derive(Debug, Clone, Copy, PartialEq, Eq, Structural)]
pub struct Qualifier {
    pub se: SelectExecute,
    pub value: u8,
}

/// A time of day and date with milliseconds, without a time zone.
#[derive(Debug, Clone, Copy, PartialEq, Eq, Structural)]
pub struct Cp56Time2a {
    pub ms: u16,
    pub iv: bool,
    pub min: u8,
    pub summer_time: bool,
    pub hour: u8,
    pub weekday: u8,
    pub day: u8,
    pub month: u8,
    pub year: u8,
}

/// One information element. A short float is held as its bit pattern.
#[derive(Debug, Clone, Copy, PartialEq, Eq, Structural)]
pub enum Element {
    SinglePoint { siq: Siq },
    DoublePoint { diq: Diq },
    Normalized { nva: i16, qds: Qds },
    NormalizedNoQuality { nva: i16 },
    ShortFloat { bits: u32, qds: Qds },
    Counter { bcr: i32, sqd: SeqQd },
    SinglePointTime { siq: Siq, time: Cp56Time2a },
    DoublePointTime { diq: Diq, time: Cp56Time2a },
    InitializationEnd { changed: bool, cause: u8 },
    SingleCommand { scs: Spi, qu: Qualifier },
    DoubleCommand { dcs: Dpi, qu: Qualifier },
    RegulatingCommand { rcs: Rcs, qu: Qualifier },
    NormalizedSetpoint { nva: i16, qos: Qualifier },
    ScaledSetpoint { sva: i16, qos: Qualifier },
    FloatSetpoint { bits: u32, qos: Qualifier },
    Interrogation { qoi: u8 },
    CounterInterrogation { rqt: u8, frz: u8 },
    Read,
    ClockSync { time: Cp56Time2a },
}

/// An element with the address of the object it belongs to.
#[derive(Debug, Clone, Copy, PartialEq, Eq, Structural)]
pub struct InformationObject {
    pub address: u32,
    pub element: Element,
}

// ---------------------------------------------------------------------------
// The octets of the parts.
pub open spec fn flag(set: bool, weight: int) -> int {
    if set {
        weight
    } else {
        0
    }
}

pub open spec fn has_flag(octet: u8, weight: int) -> bool {
    (octet as int / weight) % 2 == 1
}

impl Spi {
    pub open spec fn number(self) -> int {
        match self {
            Spi::Off => 0,
            Spi::On => 1,
        }
    }
}

impl Dpi {
    pub open spec fn number(self) -> int {
        match self {
            Dpi::Indeterminate => 0,
            Dpi::Off => 1,
            Dpi::On => 2,
            Dpi::Invalid => 3,
        }
    }
}

impl Rcs {
    pub open spec fn number(self) -> int {
        match self {
            Rcs::Unset => 0,
            Rcs::Decrement => 1,
            Rcs::Increment => 2,
            Rcs::Invalid => 3,
        }
    }
}

impl Siq {
    #[verifier::opaque]
    pub open spec fn octet(self) -> u8 {
        (flag(self.iv, 128) + flag(self.nt, 64) + flag(self.sb, 32) + flag(self.bl, 16)
            + self.spi.number()) as u8
    }

    #[verifier::opaque]
    pub open spec fn of(octet: u8) -> Siq {
        Siq {
            iv: has_flag(octet, 128),
            nt: has_flag(octet, 64),
            sb: has_flag(octet, 32),
            bl: has_flag(octet, 16),
            spi: if has_flag(octet, 1) {
                Spi::On
            } else {
                Spi::Off
            },
        }
    }
}

pub open spec fn dpi_of(number: int) -> Dpi {
    if number == 0 {
        Dpi::Indeterminate
    } else if number == 1 {
        Dpi::Off
    } else if number == 2 {
        Dpi::On
    } else {
        Dpi::Invalid
    }
}

pub open spec fn rcs_of(number: int) -> Rcs {
    if number == 0 {
        Rcs::Unset
    } else if number == 1 {
        Rcs::Decrement
    } else if number == 2 {
        Rcs::Increment
    } else {
        Rcs::Invalid
    }
}

impl Diq {
    #[verifier::opaque]
    pub open spec fn octet(self) -> u8 {
        (flag(self.iv, 128) + flag(self.nt, 64) + flag(self.sb, 32) + flag(self.bl, 16)
            + self.dpi.number()) as u8
    }

    #[verifier::opaque]
    pub open spec fn of(octet: u8) -> Diq {
        Diq {
            iv: has_flag(octet, 128),
            nt: has_flag(octet, 64),
            sb: has_flag(octet, 32),
            bl: has_flag(octet, 16),
            dpi: dpi_of(octet as int % 4),
        }
    }
}

impl Qds {
    #[verifier::opaque]
    pub open spec fn octet(self) -> u8 {
        (flag(self.iv, 128) + flag(self.nt, 64) + flag(self.sb, 32) + flag(self.bl, 16) + flag(
            self.ov,
            1,
        )) as u8
    }

    #[verifier::opaque]
    pub open spec fn of(octet: u8) -> Qds {
        Qds {
            iv: has_flag(octet, 128),
            nt: has_flag(octet, 64),
            sb: has_flag(octet, 32),
            bl: has_flag(octet, 16),
            ov: has_flag(octet, 1),
        }
    }
}

impl SeqQd {
    #[verifier::opaque]
    pub open spec fn octet(self) -> u8 {
        (flag(self.iv, 128) + flag(self.ca, 64) + flag(self.cy, 32) + self.seq as int % 32) as u8
    }

    #[verifier::opaque]
    pub open spec fn of(octet: u8) -> SeqQd {
        SeqQd {
            iv: has_flag(octet, 128),
            ca: has_flag(octet, 64),
            cy: has_flag(octet, 32),
            seq: (octet as int % 32) as u8,
        }
    }
}

impl Qualifier {
    /// The octet of a set-point qualifier.
    #[verifier::opaque]
    pub open spec fn setpoint_octet(self) -> u8 {
        (flag(self.se is Select, 128) + self.value as int % 128) as u8
    }

    #[verifier::opaque]
    pub open spec fn setpoint_of(octet: u8) -> Qualifier {
        Qualifier { se: step_of(octet), value: (octet as int % 128) as u8 }
    }

    /// The octet of a command with the given state.
    #[verifier::opaque]
    pub open spec fn command_octet(self, state: int) -> u8 {
        (flag(self.se is Select, 128) + (self.value as int % 32) * 4 + state) as u8
    }

    #[verifier::opaque]
    pub open spec fn command_of(octet: u8) -> Qualifier {
        Qualifier { se: step_of(octet), value: ((octet as int / 4) % 32) as u8 }
    }
}

pub open spec fn step_of(octet: u8) -> SelectExecute {
    if has_flag(octet, 128) {
        SelectExecute::Select
    } else {
        SelectExecute::Execute
    }
}

pub open spec fn low_octet(value: int) -> u8 {
    (value % 256) as u8
}

/// The two octets of a number, the lower one first, in two's complement.
pub open spec fn octets16(value: int) -> Seq<u8> {
    seq![low_octet(value), low_octet(value / 256)]
}

/// The three octets of a number, the lowest first.
pub open spec fn octets24(value: int) -> Seq<u8> {
    seq![low_octet(value), low_octet(value / 256), low_octet(value / 65536)]
}

/// The four octets of a number, the lowest first, in two's complement.
pub open spec fn octets32(value: int) -> Seq<u8> {
    seq![
        low_octet(value),
        low_octet(value / 256),
        low_octet(value / 65536),
        low_octet(value / 16777216),
    ]
}

pub open spec fn unsigned16(octets: Seq<u8>) -> int {
    octets[0] as int + octets[1] as int * 256
}

#[verifier::opaque]
pub open spec fn signed16(octets: Seq<u8>) -> int {
    if unsigned16(octets) >= 32768 {
        unsigned16(octets) - 65536
    } else {
        unsigned16(octets)
    }
}

pub open spec fn unsigned24(octets: Seq<u8>) -> int {
    octets[0] as int + octets[1] as int * 256 + octets[2] as int * 65536
}

#[verifier::opaque]
pub open spec fn unsigned32(octets: Seq<u8>) -> int {
    octets[0] as int + octets[1] as int * 256 + octets[2] as int * 65536 + octets[3] as int
        * 16777216
}

#[verifier::opaque]
pub open spec fn signed32(octets: Seq<u8>) -> int {
    if unsigned32(octets) >= 2147483648 {
        unsigned32(octets) - 4294967296
    } else {
        unsigned32(octets)
    }
}

impl Cp56Time2a {
    /// The fields are in the ranges that a time on the wire may have.
    pub open spec fn valid(self) -> bool {
        self.ms <= 59999 && self.min <= 59 && self.hour <= 23 && self.weekday <= 7 && self.day
            <= 31 && self.month <= 12 && self.year <= 99
    }

    #[verifier::opaque]
    pub open spec fn octets(self) -> Seq<u8> {
        seq![
            low_octet(self.ms as int),
            low_octet(self.ms as int / 256),
            (flag(self.iv, 128) + self.min as int % 64) as u8,
            (flag(self.summer_time, 128) + self.hour as int % 32) as u8,
            ((self.weekday as int % 8) * 32 + self.day as int % 32) as u8,
            (self.month as int % 16) as u8,
            (self.year as int % 128) as u8,
        ]
    }

    #[verifier::opaque]
    pub open spec fn of(octets: Seq<u8>) -> Cp56Time2a {
        Cp56Time2a {
            ms: unsigned16(octets) as u16,
            iv: has_flag(octets[2], 128),
            min: (octets[2] as int % 64) as u8,
            summer_time: has_flag(octets[3], 128),
            hour: (octets[3] as int % 32) as u8,
            weekday: (octets[4] as int / 32) as u8,
            day: (octets[4] as int % 32) as u8,
            month: (octets[5] as int % 16) as u8,
            year: (octets[6] as int % 128) as u8,
        }
    }
}

} // verus!
