use co2_monitor::fmt::format_padded4;
use co2_monitor::fmt::format_tenths;
use co2_monitor::log::get_log_level;
use co2_monitor::log::init;
use co2_monitor::log::init_debug;
use co2_monitor::log::init_error;
use co2_monitor::log::init_info;
use co2_monitor::log::init_warn;
use co2_monitor::log::set_log_level;
use co2_monitor::log::LogLevel;
use co2_monitor::net::parse_ip;
use co2_monitor::scd41::crc;
use co2_monitor::utils::DebugPrinter;

#[test]
fn crc_matches_the_sensor_checksum() {
    // the sensor vendor's documented example word
    assert_eq!(crc(&[0xbe, 0xef]), 0x92);
    assert_eq!(crc(&[]), 0xff);
    assert_eq!(crc(&[0x00]), 0xac);
}

#[test]
fn crc_distinguishes_byte_order() {
    assert_ne!(crc(&[0x01, 0x02]), crc(&[0x02, 0x01]));
}

#[test]
fn parse_ip_reads_dotted_quads() {
    assert_eq!(parse_ip("192.168.1.7"), [192, 168, 1, 7]);
    assert_eq!(parse_ip("10.0.0.255"), [10, 0, 0, 255]);
    assert_eq!(parse_ip("0.0.0.0"), [0, 0, 0, 0]);
}

#[test]
fn parse_ip_pads_missing_octets() {
    assert_eq!(parse_ip("172.16"), [172, 16, 0, 0]);
    assert_eq!(parse_ip("9"), [9, 0, 0, 0]);
}

#[test]
fn parse_ip_accepts_a_leading_plus() {
    // the standard unsigned decimal parser accepts one leading plus sign
    assert_eq!(parse_ip("+5.4.3.2"), [5, 4, 3, 2]);
    assert_eq!(parse_ip("007.08.9.10"), [7, 8, 9, 10]);
}

#[test]
fn log_levels_order_by_severity() {
    let logger = init_info();
    assert!(!logger.enabled(LogLevel::Debug));
    assert!(logger.enabled(LogLevel::Info));
    assert!(logger.enabled(LogLevel::Warn));
    assert!(logger.enabled(LogLevel::Error));
    let strict = init_error();
    assert!(!strict.enabled(LogLevel::Warn));
    assert!(strict.enabled(LogLevel::Error));
    let verbose = init_debug();
    assert!(verbose.enabled(LogLevel::Debug));
    let warn = init_warn();
    assert!(!warn.enabled(LogLevel::Info));
    assert!(warn.enabled(LogLevel::Warn));
}

#[test]
fn log_level_can_be_replaced() {
    let mut logger = init(LogLevel::Info);
    assert_eq!(get_log_level(&logger), LogLevel::Info);
    set_log_level(&mut logger, LogLevel::Error);
    assert_eq!(get_log_level(&logger), LogLevel::Error);
    assert!(!logger.enabled(LogLevel::Info));
}

#[test]
fn debug_printer_frames_a_phase() {
    let marker = DebugPrinter::new(String::from("render"));
    assert_eq!(marker.enter_message(), "enter render");
    assert_eq!(marker.exit_message(), "exit render");
}

#[test]
fn tenths_format_with_one_decimal() {
    assert_eq!(format_tenths(234), "23.4");
    assert_eq!(format_tenths(-45), "-4.5");
    assert_eq!(format_tenths(0), "0.0");
    assert_eq!(format_tenths(9), "0.9");
    assert_eq!(format_tenths(-2147483648), "-214748364.8");
    assert_eq!(format_tenths(1000), "100.0");
}

#[test]
fn concentrations_pad_to_four_places() {
    assert_eq!(format_padded4(7), "   7");
    assert_eq!(format_padded4(42), "  42");
    assert_eq!(format_padded4(400), " 400");
    assert_eq!(format_padded4(1024), "1024");
    assert_eq!(format_padded4(65535), "65535");
}
