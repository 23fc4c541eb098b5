use micronuts::qr::protocol::{
    calculate_crc, commands, BaudRate, Gm65CommandBuilder, Gm65Response, Register, CMD_GET_PARAM,
    CMD_SET_PARAM, FOOTER, HEADER,
};

#[test]
fn test_crc_calculation() {
    let data = [0x08, 0x01, 0x00, 0x00, 0x01];
    let crc = calculate_crc(&data);
    assert_eq!(crc, 0x08 ^ 0x01 ^ 0x00 ^ 0x00 ^ 0x01);
}

#[test]
fn test_register_address() {
    assert_eq!(Register::SerialOutput.address_bytes(), [0x00, 0x00]);
    assert_eq!(Register::BaudRate.address_bytes(), [0x00, 0x2A]);
    assert_eq!(Register::RawMode.address_bytes(), [0x00, 0xBC]);
}

#[test]
fn test_baud_rate_values() {
    assert_eq!(BaudRate::Bps9600.as_u32(), 9600);
    assert_eq!(BaudRate::Bps115200.as_u32(), 115200);
    assert_eq!(BaudRate::Bps115200.value(), 0x1A);
}

#[test]
fn test_enable_serial_output_command() {
    let cmd = commands::enable_serial_output();
    assert_eq!(&cmd[..2], &HEADER);
    assert_eq!(cmd[cmd.len() - 1], FOOTER);
    assert_eq!(cmd[2], CMD_SET_PARAM);
}

#[test]
fn test_set_baud_rate_command() {
    let cmd = commands::set_baud_rate(BaudRate::Bps115200);
    assert_eq!(&cmd[..2], &HEADER);
    assert_eq!(cmd[2], CMD_SET_PARAM);
}

#[test]
fn test_response_parse_ack() {
    let response = [0x7E, 0x00, 0x00, 0x00, 0x00, 0x55];
    let parsed = Gm65Response::parse(&response);
    assert_eq!(parsed, Gm65Response::Ack);
}

#[test]
fn test_response_parse_invalid() {
    let response = [0x7E, 0x00];
    let parsed = Gm65Response::parse(&response);
    assert_eq!(parsed, Gm65Response::Invalid);

    let response = [0x7F, 0x00, 0x00, 0x00, 0x00, 0x55];
    let parsed = Gm65Response::parse(&response);
    assert_eq!(parsed, Gm65Response::Invalid);
}

#[test]
fn built_command_layout_and_crc() {
    let cmd = commands::set_baud_rate(BaudRate::Bps115200);
    assert_eq!(cmd, vec![0x7E, 0x00, 0x08, 0x03, 0x00, 0x2A, 0x1A, 0x08 ^ 0x03 ^ 0x2A ^ 0x1A, 0x55]);
    let get = Gm65CommandBuilder::get(Register::QrOnly).with_values(&[1, 2]).build();
    assert_eq!(get, vec![0x7E, 0x00, CMD_GET_PARAM, 0x04, 0x00, 0x02, 1, 2, 0x07 ^ 0x04 ^ 0x02 ^ 1 ^ 2, 0x55]);
}

#[test]
fn built_commands_parse_as_valid_frames() {
    // status byte is the length field (3): a parameter-value reply
    let cmd = commands::factory_reset();
    assert_eq!(
        Gm65Response::parse(&cmd),
        Gm65Response::ParamValue(vec![0x00, 0xD9, 0x00])
    );
}

#[test]
fn response_parse_nack_and_bad_crc() {
    let nack = [0x7E, 0x00, 0x00, 0xEE, 0x05, 0x00 ^ 0xEE ^ 0x05, 0x55];
    assert_eq!(Gm65Response::parse(&nack), Gm65Response::Nack(0x05));
    let bad_crc = [0x7E, 0x00, 0x00, 0x00, 0x01, 0x55];
    assert_eq!(Gm65Response::parse(&bad_crc), Gm65Response::Invalid);
    let bad_footer = [0x7E, 0x00, 0x00, 0x00, 0x00, 0x54];
    assert_eq!(Gm65Response::parse(&bad_footer), Gm65Response::Invalid);
}

#[test]
fn fixed_commands() {
    assert_eq!(commands::query_version(), vec![0x7E, 0x00, 0x01, 0x00, 0x01, 0x00, 0x55]);
    assert_ne!(Gm65Response::parse(&commands::query_version()), Gm65Response::Invalid);
    assert_eq!(commands::trigger_scan(), vec![0x7E, 0x00, 0x04, 0x00, 0x04, 0x00, 0x55]);
    assert_eq!(commands::enable_raw_mode()[6], 0x08);
    assert_eq!(commands::set_qr_only()[5], 0x02);
}
