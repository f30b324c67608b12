use wirecodec::commands::Axis;
use wirecodec::commands::CommandId;
use wirecodec::commands::CommandResult;
use wirecodec::commands::Direction;
use wirecodec::commands::SetFanPWM;
use wirecodec::commands::SpinStepper;
use wirecodec::deser::Buffer;
use wirecodec::deser::Error;
use wirecodec::deser::LenWidth;
use wirecodec::deser::Serializer;
use wirecodec::deser::Slice;

fn serializer(capacity: usize, width: LenWidth) -> Serializer<Slice> {
    Serializer::new(Slice::new(vec![0u8; capacity]), width)
}

#[test]
fn fan_pwm_scenario() {
    // Fan 2 at PWM 512 into an 8-byte buffer with a 16-bit prefix policy:
    // exactly three bytes come out, independent of the buffer size.
    let cmd = SetFanPWM { fan: 2, pwm: 512 };
    let mut ser = serializer(8, LenWidth::Two);
    assert_eq!(cmd.encode(&mut ser), Ok(()));
    assert_eq!(ser.output.finalize().unwrap(), vec![0x02, 0x00, 0x02]);

    let mut ser = serializer(2, LenWidth::Two);
    assert_eq!(cmd.encode(&mut ser), Err(Error::NoSpaceLeft));
}

#[test]
fn fan_pwm_round_trip() {
    let cmd = SetFanPWM { fan: 7, pwm: 0xBEEF };
    let mut ser = serializer(8, LenWidth::Four);
    assert_eq!(cmd.encode(&mut ser), Ok(()));
    let bytes = ser.output.finalize().unwrap();
    assert_eq!(SetFanPWM::decode(&bytes, 0), Some((cmd, 3)));
}

#[test]
fn spin_stepper_wire_layout() {
    let cmd = SpinStepper {
        frequency: 1000,
        countt: 5,
        axis: Axis::Z,
        direction: Direction::Right,
    };
    let mut ser = serializer(16, LenWidth::Four);
    assert_eq!(cmd.encode(&mut ser), Ok(()));
    assert_eq!(
        ser.output.finalize().unwrap(),
        vec![0xE8, 0x03, 0, 0, 5, 0, 2, 0, 0, 0, 1, 0, 0, 0]
    );
}

#[test]
fn spin_stepper_round_trip() {
    let cmd = SpinStepper {
        frequency: 48_000_000,
        countt: 4096,
        axis: Axis::E0,
        direction: Direction::Left,
    };
    let mut ser = serializer(14, LenWidth::Four);
    assert_eq!(cmd.encode(&mut ser), Ok(()));
    let bytes = ser.output.finalize().unwrap();
    assert_eq!(bytes.len(), 14);
    assert_eq!(SpinStepper::decode(&bytes, 0), Some((cmd, 14)));
}

#[test]
fn spin_stepper_needs_fourteen_bytes() {
    let cmd = SpinStepper {
        frequency: 1,
        countt: 1,
        axis: Axis::X,
        direction: Direction::Left,
    };
    let mut ser = serializer(13, LenWidth::Four);
    assert_eq!(cmd.encode(&mut ser), Err(Error::NoSpaceLeft));
}

#[test]
fn axis_ordinals() {
    assert_eq!(Axis::X.as_u8(), 0);
    assert_eq!(Axis::Y.as_u8(), 1);
    assert_eq!(Axis::Z.as_u8(), 2);
    assert_eq!(Axis::E0.as_u8(), 3);
    assert_eq!(Axis::from_u8(2), Some(Axis::Z));
    assert_eq!(Axis::from_u8(4), None);
}

#[test]
fn direction_ordinals() {
    assert_eq!(Direction::Left.as_u8(), 0);
    assert_eq!(Direction::Right.as_u8(), 1);
    assert_eq!(Direction::from_u8(1), Some(Direction::Right));
    assert_eq!(Direction::from_u8(2), None);
}

#[test]
fn command_id_ordinals() {
    assert_eq!(CommandId::GetFirmwareInfo.as_u8(), 0);
    assert_eq!(CommandId::GetFanInfo.as_u8(), 1);
    assert_eq!(CommandId::SetFanPWM.as_u8(), 2);
    assert_eq!(CommandId::GetADCReading.as_u8(), 3);
    assert_eq!(CommandId::SpinStepper.as_u8(), 4);
    assert_eq!(CommandId::GetStepperInfo.as_u8(), 5);
    assert_eq!(CommandId::from_u8(5), Some(CommandId::GetStepperInfo));
    assert_eq!(CommandId::from_u8(6), None);
}

#[test]
fn command_result_ordinals() {
    assert_eq!(CommandResult::Success.as_u16(), 0);
    assert_eq!(CommandResult::InvalidId.as_u16(), 1);
    assert_eq!(CommandResult::from_u16(0), Some(CommandResult::Success));
    assert_eq!(CommandResult::from_u16(9), None);
}

#[test]
fn enum_round_trips() {
    for axis in [Axis::X, Axis::Y, Axis::Z, Axis::E0] {
        let mut ser = serializer(4, LenWidth::Four);
        assert_eq!(axis.encode(&mut ser), Ok(()));
        let bytes = ser.output.finalize().unwrap();
        assert_eq!(Axis::decode(&bytes, 0), Some((axis, 4)));
    }
    for dir in [Direction::Left, Direction::Right] {
        let mut ser = serializer(4, LenWidth::Four);
        assert_eq!(dir.encode(&mut ser), Ok(()));
        let bytes = ser.output.finalize().unwrap();
        assert_eq!(Direction::decode(&bytes, 0), Some((dir, 4)));
    }
    for id in [
        CommandId::GetFirmwareInfo,
        CommandId::GetFanInfo,
        CommandId::SetFanPWM,
        CommandId::GetADCReading,
        CommandId::SpinStepper,
        CommandId::GetStepperInfo,
    ] {
        let mut ser = serializer(4, LenWidth::Four);
        assert_eq!(id.encode(&mut ser), Ok(()));
        let bytes = ser.output.finalize().unwrap();
        assert_eq!(CommandId::decode(&bytes, 0), Some((id, 4)));
    }
    for res in [CommandResult::Success, CommandResult::InvalidId] {
        let mut ser = serializer(4, LenWidth::Four);
        assert_eq!(res.encode(&mut ser), Ok(()));
        let bytes = ser.output.finalize().unwrap();
        assert_eq!(CommandResult::decode(&bytes, 0), Some((res, 4)));
    }
}

#[test]
fn decode_rejects_unknown_ordinals() {
    assert_eq!(Axis::decode(&[7, 0, 0, 0], 0), None);
    assert_eq!(Direction::decode(&[2, 0, 0, 0], 0), None);
    assert_eq!(CommandId::decode(&[6, 0, 0, 0], 0), None);
    assert_eq!(CommandResult::decode(&[0xFF, 0xFF, 0, 0], 0), None);
    // A huge ordinal whose low byte would be valid must still be refused.
    assert_eq!(Axis::decode(&[1, 1, 0, 0], 0), None);
    // An invalid axis inside a stepper command poisons the whole record.
    let mut bytes = vec![0u8; 14];
    bytes[6] = 9;
    assert_eq!(SpinStepper::decode(&bytes, 0), None);
}

#[test]
fn decode_rejects_short_input() {
    assert_eq!(Axis::decode(&[0, 0, 0], 0), None);
    assert_eq!(SetFanPWM::decode(&[1, 2], 0), None);
    assert_eq!(SpinStepper::decode(&[0u8; 13], 0), None);
}

#[test]
fn command_envelope_bytes() {
    // A command envelope: the kind ordinal, then the record it announces.
    let mut ser = serializer(16, LenWidth::Two);
    assert_eq!(CommandId::SetFanPWM.encode(&mut ser), Ok(()));
    let cmd = SetFanPWM { fan: 1, pwm: 0x0100 };
    assert_eq!(cmd.encode(&mut ser), Ok(()));
    let bytes = ser.output.finalize().unwrap();
    assert_eq!(bytes, vec![2, 0, 0, 0, 1, 0x00, 0x01]);
    assert_eq!(CommandId::decode(&bytes, 0), Some((CommandId::SetFanPWM, 4)));
    assert_eq!(SetFanPWM::decode(&bytes, 4), Some((cmd, 7)));
}
