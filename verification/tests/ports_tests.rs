use serial_tool::ports::{
    get_baud_rate_vec, open_request, parse_baud, port_title, selected_port_index, OpenRequest,
    PortKind,
};
use serial_tool::timefmt::{cut_nanosecond, timestamp_string};

#[test]
fn the_baud_rate_list_is_complete_and_ordered() {
    let rates = get_baud_rate_vec();
    assert_eq!(rates.len(), 20);
    assert_eq!(rates[0], "300");
    assert_eq!(rates[11], "115200");
    assert_eq!(rates[19], "2000000");
}

#[test]
fn parse_baud_accepts_plain_decimal() {
    assert_eq!(parse_baud("115200"), Some(115200));
    assert_eq!(parse_baud("0"), Some(0));
    assert_eq!(parse_baud("4294967295"), Some(u32::MAX));
}

#[test]
fn parse_baud_rejects_junk_and_overflow() {
    assert_eq!(parse_baud(""), None);
    assert_eq!(parse_baud("96k"), None);
    assert_eq!(parse_baud("-9600"), None);
    assert_eq!(parse_baud("4294967296"), None);
    assert_eq!(parse_baud("99999999999999999999999"), None);
}

#[test]
fn open_request_reports_the_first_missing_piece() {
    assert_eq!(open_request("", ""), OpenRequest::NoPort);
    assert_eq!(open_request("", "9600"), OpenRequest::NoPort);
    assert_eq!(open_request("COM3", ""), OpenRequest::NoBaudRate);
    assert_eq!(open_request("COM3", "fast"), OpenRequest::BadBaudRate);
    assert_eq!(open_request("COM3", "9600"), OpenRequest::Open(9600));
}

#[test]
fn port_titles_show_name_and_kind() {
    assert_eq!(port_title("ttyUSB0", "USB"), "ttyUSB0 (USB)");
    assert_eq!(PortKind::Usb.label(), "USB");
    assert_eq!(PortKind::Pci.label(), "PCI");
    assert_eq!(PortKind::Bluetooth.label(), "Bluetooth");
    assert_eq!(PortKind::Unknown.label(), "Unknown");
}

#[test]
fn the_selected_port_is_found_again_by_name() {
    let ports = vec![
        String::from("ttyS0"),
        String::from("ttyUSB0"),
        String::from("ttyUSB1"),
    ];
    assert_eq!(selected_port_index(&ports, "ttyUSB0"), Some(1));
    assert_eq!(selected_port_index(&ports, "ttyACM0"), None);
    assert_eq!(selected_port_index(&Vec::new(), "ttyS0"), None);
}

#[test]
fn timestamps_are_zero_padded_with_three_fraction_digits() {
    assert_eq!(timestamp_string(9, 5, 7, 123456789), "09:05:07.123");
    assert_eq!(timestamp_string(23, 59, 59, 999999999), "23:59:59.999");
}

#[test]
fn cut_nanosecond_keeps_the_first_three_digits() {
    assert_eq!(cut_nanosecond(123456789), "123");
    assert_eq!(cut_nanosecond(100), "100");
    assert_eq!(cut_nanosecond(12345), "123");
}
