//! Command and telemetry schema: the records exchanged with the host and
//! their exact wire layout through the encoding engine.
//!
//! Ordinals are part of the wire contract and must not change. Each type
//! carries its wire image as a spec function, an encoder into a
//! [`Serializer`], a decoder mirroring the layout, and a proof that
//! decoding an encoded value gives the value back.

use vstd::prelude::*;

use crate::deser::le_bytes;
use crate::deser::le_val;
use crate::deser::lemma_le_bytes_len;
use crate::deser::lemma_le_val_bound;
use crate::deser::lemma_le_val_of_le_bytes;
use crate::deser::lemma_pow256_values;
use crate::deser::lemma_prefix_extend;
use crate::deser::read_u16_le;
use crate::deser::read_u32_le;
use crate::deser::read_u8;
use crate::deser::record_write_result;
use crate::deser::write_result;
use crate::deser::Buffer;
use crate::deser::Error;
use crate::deser::Serializer;

verus! {

/// Motion axis selector.
#[derive(Clone, Copy, Debug, PartialEq, Eq, Structural)]
pub enum Axis {
    X,
    Y,
    Z,
    E0,
}

impl Axis {
    /// The small integer this variant stands for, both in the 8-bit host
    /// representation and as the wire ordinal.
    pub open spec fn ordinal(self) -> u8 {
        match self {
            Axis::X => 0,
            Axis::Y => 1,
            Axis::Z => 2,
            Axis::E0 => 3,
        }
    }

    pub fn as_u8(self) -> (r: u8)
        ensures
            r == self.ordinal(),
    {
        match self {
            Axis::X => 0,
            Axis::Y => 1,
            Axis::Z => 2,
            Axis::E0 => 3,
        }
    }

    pub open spec fn spec_from_u8(v: u8) -> Option<Axis> {
        if v == 0 {
            Some(Axis::X)
        } else if v == 1 {
            Some(Axis::Y)
        } else if v == 2 {
            Some(Axis::Z)
        } else if v == 3 {
            Some(Axis::E0)
        } else {
            None
        }
    }

    pub fn from_u8(v: u8) -> (r: Option<Axis>)
        ensures
            r == Axis::spec_from_u8(v),
    {
        if v == 0 {
            Some(Axis::X)
        } else if v == 1 {
            Some(Axis::Y)
        } else if v == 2 {
            Some(Axis::Z)
        } else if v == 3 {
            Some(Axis::E0)
        } else {
            None
        }
    }

    /// On the wire an axis is its 32-bit little-endian ordinal.
    pub open spec fn wire_bytes(self) -> Seq<u8> {
        le_bytes(self.ordinal() as nat, 4)
    }

    pub fn encode<OUT: Buffer>(&self, ser: &mut Serializer<OUT>) -> (r: Result<(), Error>)
        requires
            old(ser).inv(),
        ensures
            write_result(*old(ser), *final(ser), self.wire_bytes(), r),
    {
        let variant: &'static str = match self {
            Axis::X => "X",
            Axis::Y => "Y",
            Axis::Z => "Z",
            Axis::E0 => "E0",
        };
        ser.serialize_unit_variant("Axis", self.as_u8() as u32, variant)
    }

    /// The axis a 4-byte wire image stands for, if any.
    pub open spec fn spec_decode(s: Seq<u8>) -> Option<Axis> {
        if s.len() == 4 && le_val(s) <= 0xff {
            Axis::spec_from_u8(le_val(s) as u8)
        } else {
            None
        }
    }

    pub fn decode(data: &[u8], pos: usize) -> (r: Option<(Axis, usize)>)
        ensures
            match r {
                Some(ap) => pos + 4 <= data@.len() && ap.1 == pos + 4 && Axis::spec_decode(
                    data@.subrange(pos as int, pos as int + 4),
                ) == Some(ap.0),
                None => pos + 4 > data@.len() || (pos + 4 <= data@.len() && Axis::spec_decode(
                    data@.subrange(pos as int, pos as int + 4),
                ) is None),
            },
    {
        match read_u32_le(data, pos) {
            None => None,
            Some((v, p)) => if v <= 0xff {
                match Axis::from_u8(v as u8) {
                    Some(a) => Some((a, p)),
                    None => None,
                }
            } else {
                None
            },
        }
    }

    /// Decoding the wire image of any axis yields that axis back.
    pub proof fn lemma_round_trip(a: Axis)
        ensures
            Axis::spec_decode(a.wire_bytes()) == Some(a),
    {
        lemma_le_bytes_len(a.ordinal() as nat, 4);
        lemma_pow256_values();
        lemma_le_val_of_le_bytes(a.ordinal() as nat, 4);
        match a {
            Axis::X => {},
            Axis::Y => {},
            Axis::Z => {},
            Axis::E0 => {},
        }
    }
}

/// Stepper travel direction.
#[derive(Clone, Copy, Debug, PartialEq, Eq, Structural)]
pub enum Direction {
    Left,
    Right,
}

impl Direction {
    /// The small integer this variant stands for.
    pub open spec fn ordinal(self) -> u8 {
        match self {
            Direction::Left => 0,
            Direction::Right => 1,
        }
    }

    pub fn as_u8(self) -> (r: u8)
        ensures
            r == self.ordinal(),
    {
        match self {
            Direction::Left => 0,
            Direction::Right => 1,
        }
    }

    pub open spec fn spec_from_u8(v: u8) -> Option<Direction> {
        if v == 0 {
            Some(Direction::Left)
        } else if v == 1 {
            Some(Direction::Right)
        } else {
            None
        }
    }

    pub fn from_u8(v: u8) -> (r: Option<Direction>)
        ensures
            r == Direction::spec_from_u8(v),
    {
        if v == 0 {
            Some(Direction::Left)
        } else if v == 1 {
            Some(Direction::Right)
        } else {
            None
        }
    }

    /// On the wire a direction is its 32-bit little-endian ordinal.
    pub open spec fn wire_bytes(self) -> Seq<u8> {
        le_bytes(self.ordinal() as nat, 4)
    }

    pub fn encode<OUT: Buffer>(&self, ser: &mut Serializer<OUT>) -> (r: Result<(), Error>)
        requires
            old(ser).inv(),
        ensures
            write_result(*old(ser), *final(ser), self.wire_bytes(), r),
    {
        let variant: &'static str = match self {
            Direction::Left => "Left",
            Direction::Right => "Right",
        };
        ser.serialize_unit_variant("Direction", self.as_u8() as u32, variant)
    }

    /// The direction a 4-byte wire image stands for, if any.
    pub open spec fn spec_decode(s: Seq<u8>) -> Option<Direction> {
        if s.len() == 4 && le_val(s) <= 0xff {
            Direction::spec_from_u8(le_val(s) as u8)
        } else {
            None
        }
    }

    pub fn decode(data: &[u8], pos: usize) -> (r: Option<(Direction, usize)>)
        ensures
            match r {
                Some(dp) => pos + 4 <= data@.len() && dp.1 == pos + 4 && Direction::spec_decode(
                    data@.subrange(pos as int, pos as int + 4),
                ) == Some(dp.0),
                None => pos + 4 > data@.len() || (pos + 4 <= data@.len() && Direction::spec_decode(
                    data@.subrange(pos as int, pos as int + 4),
                ) is None),
            },
    {
        match read_u32_le(data, pos) {
            None => None,
            Some((v, p)) => if v <= 0xff {
                match Direction::from_u8(v as u8) {
                    Some(d) => Some((d, p)),
                    None => None,
                }
            } else {
                None
            },
        }
    }

    /// Decoding the wire image of any direction yields that direction back.
    pub proof fn lemma_round_trip(d: Direction)
        ensures
            Direction::spec_decode(d.wire_bytes()) == Some(d),
    {
        lemma_le_bytes_len(d.ordinal() as nat, 4);
        lemma_pow256_values();
        lemma_le_val_of_le_bytes(d.ordinal() as nat, 4);
        match d {
            Direction::Left => {},
            Direction::Right => {},
        }
    }
}

/// The command kind carried by an envelope, telling which record follows.
#[derive(Clone, Copy, Debug, PartialEq, Eq, Structural)]
pub enum CommandId {
    GetFirmwareInfo,
    GetFanInfo,
    SetFanPWM,
    GetADCReading,
    SpinStepper,
    GetStepperInfo,
}

impl CommandId {
    /// The small integer this variant stands for.
    pub open spec fn ordinal(self) -> u8 {
        match self {
            CommandId::GetFirmwareInfo => 0,
            CommandId::GetFanInfo => 1,
            CommandId::SetFanPWM => 2,
            CommandId::GetADCReading => 3,
            CommandId::SpinStepper => 4,
            CommandId::GetStepperInfo => 5,
        }
    }

    pub fn as_u8(self) -> (r: u8)
        ensures
            r == self.ordinal(),
    {
        match self {
            CommandId::GetFirmwareInfo => 0,
            CommandId::GetFanInfo => 1,
            CommandId::SetFanPWM => 2,
            CommandId::GetADCReading => 3,
            CommandId::SpinStepper => 4,
            CommandId::GetStepperInfo => 5,
        }
    }

    pub open spec fn spec_from_u8(v: u8) -> Option<CommandId> {
        if v == 0 {
            Some(CommandId::GetFirmwareInfo)
        } else if v == 1 {
            Some(CommandId::GetFanInfo)
        } else if v == 2 {
            Some(CommandId::SetFanPWM)
        } else if v == 3 {
            Some(CommandId::GetADCReading)
        } else if v == 4 {
            Some(CommandId::SpinStepper)
        } else if v == 5 {
            Some(CommandId::GetStepperInfo)
        } else {
            None
        }
    }

    pub fn from_u8(v: u8) -> (r: Option<CommandId>)
        ensures
            r == CommandId::spec_from_u8(v),
    {
        if v == 0 {
            Some(CommandId::GetFirmwareInfo)
        } else if v == 1 {
            Some(CommandId::GetFanInfo)
        } else if v == 2 {
            Some(CommandId::SetFanPWM)
        } else if v == 3 {
            Some(CommandId::GetADCReading)
        } else if v == 4 {
            Some(CommandId::SpinStepper)
        } else if v == 5 {
            Some(CommandId::GetStepperInfo)
        } else {
            None
        }
    }

    /// On the wire a command kind is its 32-bit little-endian ordinal.
    pub open spec fn wire_bytes(self) -> Seq<u8> {
        le_bytes(self.ordinal() as nat, 4)
    }

    pub fn encode<OUT: Buffer>(&self, ser: &mut Serializer<OUT>) -> (r: Result<(), Error>)
        requires
            old(ser).inv(),
        ensures
            write_result(*old(ser), *final(ser), self.wire_bytes(), r),
    {
        let variant: &'static str = match self {
            CommandId::GetFirmwareInfo => "GetFirmwareInfo",
            CommandId::GetFanInfo => "GetFanInfo",
            CommandId::SetFanPWM => "SetFanPWM",
            CommandId::GetADCReading => "GetADCReading",
            CommandId::SpinStepper => "SpinStepper",
            CommandId::GetStepperInfo => "GetStepperInfo",
        };
        ser.serialize_unit_variant("CommandId", self.as_u8() as u32, variant)
    }

    /// The command kind a 4-byte wire image stands for, if any.
    pub open spec fn spec_decode(s: Seq<u8>) -> Option<CommandId> {
        if s.len() == 4 && le_val(s) <= 0xff {
            CommandId::spec_from_u8(le_val(s) as u8)
        } else {
            None
        }
    }

    pub fn decode(data: &[u8], pos: usize) -> (r: Option<(CommandId, usize)>)
        ensures
            match r {
                Some(cp) => pos + 4 <= data@.len() && cp.1 == pos + 4 && CommandId::spec_decode(
                    data@.subrange(pos as int, pos as int + 4),
                ) == Some(cp.0),
                None => pos + 4 > data@.len() || (pos + 4 <= data@.len() && CommandId::spec_decode(
                    data@.subrange(pos as int, pos as int + 4),
                ) is None),
            },
    {
        match read_u32_le(data, pos) {
            None => None,
            Some((v, p)) => if v <= 0xff {
                match CommandId::from_u8(v as u8) {
                    Some(c) => Some((c, p)),
                    None => None,
                }
            } else {
                None
            },
        }
    }

    /// Decoding the wire image of any command kind yields that kind back.
    pub proof fn lemma_round_trip(c: CommandId)
        ensures
            CommandId::spec_decode(c.wire_bytes()) == Some(c),
    {
        lemma_le_bytes_len(c.ordinal() as nat, 4);
        lemma_pow256_values();
        lemma_le_val_of_le_bytes(c.ordinal() as nat, 4);
        match c {
            CommandId::GetFirmwareInfo => {},
            CommandId::GetFanInfo => {},
            CommandId::SetFanPWM => {},
            CommandId::GetADCReading => {},
            CommandId::SpinStepper => {},
            CommandId::GetStepperInfo => {},
        }
    }
}

/// How a command was received: accepted, or refused for an unknown kind.
#[derive(Clone, Copy, Debug, PartialEq, Eq, Structural)]
pub enum CommandResult {
    Success,
    InvalidId,
}

impl CommandResult {
    /// The small integer this variant stands for, 16 bits wide in the host
    /// representation.
    pub open spec fn ordinal(self) -> u16 {
        match self {
            CommandResult::Success => 0,
            CommandResult::InvalidId => 1,
        }
    }

    pub fn as_u16(self) -> (r: u16)
        ensures
            r == self.ordinal(),
    {
        match self {
            CommandResult::Success => 0,
            CommandResult::InvalidId => 1,
        }
    }

    pub open spec fn spec_from_u16(v: u16) -> Option<CommandResult> {
        if v == 0 {
            Some(CommandResult::Success)
        } else if v == 1 {
            Some(CommandResult::InvalidId)
        } else {
            None
        }
    }

    pub fn from_u16(v: u16) -> (r: Option<CommandResult>)
        ensures
            r == CommandResult::spec_from_u16(v),
    {
        if v == 0 {
            Some(CommandResult::Success)
        } else if v == 1 {
            Some(CommandResult::InvalidId)
        } else {
            None
        }
    }

    /// On the wire a result is its 32-bit little-endian ordinal.
    pub open spec fn wire_bytes(self) -> Seq<u8> {
        le_bytes(self.ordinal() as nat, 4)
    }

    pub fn encode<OUT: Buffer>(&self, ser: &mut Serializer<OUT>) -> (r: Result<(), Error>)
        requires
            old(ser).inv(),
        ensures
            write_result(*old(ser), *final(ser), self.wire_bytes(), r),
    {
        let variant: &'static str = match self {
            CommandResult::Success => "Success",
            CommandResult::InvalidId => "InvalidId",
        };
        ser.serialize_unit_variant("CommandResult", self.as_u16() as u32, variant)
    }

    /// The result a 4-byte wire image stands for, if any.
    pub open spec fn spec_decode(s: Seq<u8>) -> Option<CommandResult> {
        if s.len() == 4 && le_val(s) <= 0xffff {
            CommandResult::spec_from_u16(le_val(s) as u16)
        } else {
            None
        }
    }

    pub fn decode(data: &[u8], pos: usize) -> (r: Option<(CommandResult, usize)>)
        ensures
            match r {
                Some(cp) => pos + 4 <= data@.len() && cp.1 == pos + 4 && CommandResult::spec_decode(
                    data@.subrange(pos as int, pos as int + 4),
                ) == Some(cp.0),
                None => pos + 4 > data@.len() || (pos + 4 <= data@.len()
                    && CommandResult::spec_decode(data@.subrange(pos as int, pos as int + 4))
                    is None),
            },
    {
        match read_u32_le(data, pos) {
            None => None,
            Some((v, p)) => if v <= 0xffff {
                match CommandResult::from_u16(v as u16) {
                    Some(c) => Some((c, p)),
                    None => None,
                }
            } else {
                None
            },
        }
    }

    /// Decoding the wire image of any result yields that result back.
    pub proof fn lemma_round_trip(c: CommandResult)
        ensures
            CommandResult::spec_decode(c.wire_bytes()) == Some(c),
    {
        lemma_le_bytes_len(c.ordinal() as nat, 4);
        lemma_pow256_values();
        lemma_le_val_of_le_bytes(c.ordinal() as nat, 4);
        match c {
            CommandResult::Success => {},
            CommandResult::InvalidId => {},
        }
    }
}

/// Command asking a fan to run at a duty cycle.
#[derive(Clone, Copy, Debug, PartialEq, Eq, Structural)]
pub struct SetFanPWM {
    pub fan: u8,
    pub pwm: u16,
}

impl SetFanPWM {
    /// On the wire: the fan index byte, then the requested PWM as 16-bit
    /// little-endian; three bytes in all, no framing.
    pub open spec fn wire_bytes(self) -> Seq<u8> {
        le_bytes(self.fan as nat, 1) + le_bytes(self.pwm as nat, 2)
    }

    pub fn encode<OUT: Buffer>(&self, ser: &mut Serializer<OUT>) -> (r: Result<(), Error>)
        requires
            old(ser).inv(),
        ensures
            record_write_result(*old(ser), *final(ser), self.wire_bytes(), r),
    {
        let ghost pre = *ser;
        proof {
            lemma_le_bytes_len(self.fan as nat, 1);
            lemma_le_bytes_len(self.pwm as nat, 2);
        }
        match ser.serialize_struct("SetFanPWM", 2) {
            Ok(_) => {}
            Err(e) => {
                return Err(e);
            }
        }
        match ser.serialize_u8(self.fan) {
            Ok(_) => {}
            Err(e) => {
                proof {
                    lemma_prefix_extend(pre.written(), Seq::<u8>::empty());
                }
                return Err(e);
            }
        }
        match ser.serialize_u16(self.pwm) {
            Ok(_) => {}
            Err(e) => {
                proof {
                    lemma_prefix_extend(pre.written(), le_bytes(self.fan as nat, 1));
                }
                return Err(e);
            }
        }
        proof {
            assert(pre.written() + le_bytes(self.fan as nat, 1) + le_bytes(self.pwm as nat, 2)
                =~= pre.written() + self.wire_bytes());
        }
        ser.end()
    }

    /// The record a 3-byte wire image stands for.
    pub open spec fn spec_decode(s: Seq<u8>) -> Option<SetFanPWM> {
        if s.len() == 3 {
            Some(SetFanPWM { fan: s[0], pwm: le_val(s.subrange(1, 3)) as u16 })
        } else {
            None
        }
    }

    pub fn decode(data: &[u8], pos: usize) -> (r: Option<(SetFanPWM, usize)>)
        ensures
            match r {
                Some(vp) => pos + 3 <= data@.len() && vp.1 == pos + 3 && SetFanPWM::spec_decode(
                    data@.subrange(pos as int, pos as int + 3),
                ) == Some(vp.0),
                None => pos + 3 > data@.len(),
            },
    {
        match read_u8(data, pos) {
            None => None,
            Some((fan, p1)) => match read_u16_le(data, p1) {
                None => None,
                Some((pwm, p2)) => {
                    proof {
                        let s = data@.subrange(pos as int, pos as int + 3);
                        assert(s[0] == data@[pos as int]);
                        assert(s.subrange(1, 3) =~= data@.subrange(
                            pos as int + 1,
                            pos as int + 3,
                        ));
                        lemma_pow256_values();
                        lemma_le_val_bound(data@.subrange(pos as int + 1, pos as int + 3));
                    }
                    Some((SetFanPWM { fan, pwm }, p2))
                },
            },
        }
    }

    /// Decoding the wire image of any fan-PWM command yields it back.
    pub proof fn lemma_round_trip(v: SetFanPWM)
        ensures
            SetFanPWM::spec_decode(v.wire_bytes()) == Some(v),
    {
        let a = le_bytes(v.fan as nat, 1);
        let b = le_bytes(v.pwm as nat, 2);
        lemma_le_bytes_len(v.fan as nat, 1);
        lemma_le_bytes_len(v.pwm as nat, 2);
        lemma_pow256_values();
        lemma_le_val_of_le_bytes(v.fan as nat, 1);
        lemma_le_val_of_le_bytes(v.pwm as nat, 2);
        assert(a.drop_first() =~= Seq::<u8>::empty());
        assert(a[0] == v.fan);
        assert((a + b)[0] == a[0]);
        assert((a + b).subrange(1, 3) =~= b);
    }
}

/// Command asking a stepper to emit a pulse train: pulse rate in hertz,
/// pulse count, axis and direction.
#[derive(Clone, Copy, Debug, PartialEq, Eq, Structural)]
pub struct SpinStepper {
    pub frequency: u32,
    pub countt: u16,
    pub axis: Axis,
    pub direction: Direction,
}

impl SpinStepper {
    /// On the wire: 32-bit frequency, 16-bit count, then the axis and
    /// direction ordinals, each 32-bit; fourteen bytes in all.
    pub open spec fn wire_bytes(self) -> Seq<u8> {
        le_bytes(self.frequency as nat, 4) + le_bytes(self.countt as nat, 2)
            + self.axis.wire_bytes() + self.direction.wire_bytes()
    }

    pub fn encode<OUT: Buffer>(&self, ser: &mut Serializer<OUT>) -> (r: Result<(), Error>)
        requires
            old(ser).inv(),
        ensures
            record_write_result(*old(ser), *final(ser), self.wire_bytes(), r),
    {
        let ghost pre = *ser;
        let ghost f = le_bytes(self.frequency as nat, 4);
        let ghost c = le_bytes(self.countt as nat, 2);
        let ghost ax = self.axis.wire_bytes();
        let ghost di = self.direction.wire_bytes();
        proof {
            lemma_le_bytes_len(self.frequency as nat, 4);
            lemma_le_bytes_len(self.countt as nat, 2);
            lemma_le_bytes_len(self.axis.ordinal() as nat, 4);
            lemma_le_bytes_len(self.direction.ordinal() as nat, 4);
        }
        match ser.serialize_struct("SpinStepper", 4) {
            Ok(_) => {}
            Err(e) => {
                return Err(e);
            }
        }
        match ser.serialize_u32(self.frequency) {
            Ok(_) => {}
            Err(e) => {
                proof {
                    lemma_prefix_extend(pre.written(), Seq::<u8>::empty());
                }
                return Err(e);
            }
        }
        match ser.serialize_u16(self.countt) {
            Ok(_) => {}
            Err(e) => {
                proof {
                    lemma_prefix_extend(pre.written(), f);
                }
                return Err(e);
            }
        }
        match self.axis.encode(ser) {
            Ok(_) => {}
            Err(e) => {
                proof {
                    assert(pre.written() + f + c =~= pre.written() + (f + c));
                    lemma_prefix_extend(pre.written(), f + c);
                }
                return Err(e);
            }
        }
        match self.direction.encode(ser) {
            Ok(_) => {}
            Err(e) => {
                proof {
                    assert(pre.written() + f + c + ax =~= pre.written() + (f + c + ax));
                    lemma_prefix_extend(pre.written(), f + c + ax);
                }
                return Err(e);
            }
        }
        proof {
            assert(pre.written() + f + c + ax + di =~= pre.written() + self.wire_bytes());
        }
        ser.end()
    }

    /// The record a 14-byte wire image stands for, if its ordinals are valid.
    pub open spec fn spec_decode(s: Seq<u8>) -> Option<SpinStepper> {
        if s.len() == 14 {
            match (Axis::spec_decode(s.subrange(6, 10)), Direction::spec_decode(
                s.subrange(10, 14),
            )) {
                (Some(axis), Some(direction)) => Some(
                    SpinStepper {
                        frequency: le_val(s.subrange(0, 4)) as u32,
                        countt: le_val(s.subrange(4, 6)) as u16,
                        axis,
                        direction,
                    },
                ),
                _ => None,
            }
        } else {
            None
        }
    }

    pub fn decode(data: &[u8], pos: usize) -> (r: Option<(SpinStepper, usize)>)
        ensures
            match r {
                Some(vp) => pos + 14 <= data@.len() && vp.1 == pos + 14 && SpinStepper::spec_decode(
                    data@.subrange(pos as int, pos as int + 14),
                ) == Some(vp.0),
                None => pos + 14 > data@.len() || (pos + 14 <= data@.len()
                    && SpinStepper::spec_decode(data@.subrange(pos as int, pos as int + 14))
                    is None),
            },
    {
        let r_freq = read_u32_le(data, pos);
        match r_freq {
            None => None,
            Some((frequency, p1)) => match read_u16_le(data, p1) {
                None => None,
                Some((countt, p2)) => match Axis::decode(data, p2) {
                    None => {
                        proof {
                            if pos + 14 <= data@.len() {
                                assert(data@.subrange(pos as int, pos as int + 14).subrange(6, 10)
                                    =~= data@.subrange(pos as int + 6, pos as int + 10));
                            }
                        }
                        None
                    },
                    Some((axis, p3)) => match Direction::decode(data, p3) {
                        None => {
                            proof {
                                if pos + 14 <= data@.len() {
                                    assert(data@.subrange(pos as int, pos as int + 14).subrange(
                                        10,
                                        14,
                                    ) =~= data@.subrange(pos as int + 10, pos as int + 14));
                                }
                            }
                            None
                        },
                        Some((direction, p4)) => {
                            proof {
                                let s = data@.subrange(pos as int, pos as int + 14);
                                assert(s.subrange(0, 4) =~= data@.subrange(
                                    pos as int,
                                    pos as int + 4,
                                ));
                                assert(s.subrange(4, 6) =~= data@.subrange(
                                    pos as int + 4,
                                    pos as int + 6,
                                ));
                                assert(s.subrange(6, 10) =~= data@.subrange(
                                    pos as int + 6,
                                    pos as int + 10,
                                ));
                                assert(s.subrange(10, 14) =~= data@.subrange(
                                    pos as int + 10,
                                    pos as int + 14,
                                ));
                                lemma_pow256_values();
                                lemma_le_val_bound(data@.subrange(pos as int, pos as int + 4));
                                lemma_le_val_bound(data@.subrange(pos as int + 4, pos as int + 6));
                            }
                            Some((SpinStepper { frequency, countt, axis, direction }, p4))
                        },
                    },
                },
            },
        }
    }

    /// Decoding the wire image of any stepper command yields it back.
    pub proof fn lemma_round_trip(v: SpinStepper)
        ensures
            SpinStepper::spec_decode(v.wire_bytes()) == Some(v),
    {
        let f = le_bytes(v.frequency as nat, 4);
        let c = le_bytes(v.countt as nat, 2);
        let ax = v.axis.wire_bytes();
        let di = v.direction.wire_bytes();
        let s = v.wire_bytes();
        lemma_le_bytes_len(v.frequency as nat, 4);
        lemma_le_bytes_len(v.countt as nat, 2);
        lemma_le_bytes_len(v.axis.ordinal() as nat, 4);
        lemma_le_bytes_len(v.direction.ordinal() as nat, 4);
        lemma_pow256_values();
        lemma_le_val_of_le_bytes(v.frequency as nat, 4);
        lemma_le_val_of_le_bytes(v.countt as nat, 2);
        assert(s.subrange(0, 4) =~= f);
        assert(s.subrange(4, 6) =~= c);
        assert(s.subrange(6, 10) =~= ax);
        assert(s.subrange(10, 14) =~= di);
        Axis::lemma_round_trip(v.axis);
        Direction::lemma_round_trip(v.direction);
    }
}

} // verus!
