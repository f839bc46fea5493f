use dumbarp::mac::{format_mac, parse_mac, MacError};
use dumbarp::net::Ipv4Addr;

#[test]
fn addresses_are_written_in_dotted_decimal() {
    assert_eq!(Ipv4Addr::new(192, 168, 1, 104).to_text(), "192.168.1.104");
    assert_eq!(Ipv4Addr::new(0, 0, 0, 0).to_text(), "0.0.0.0");
    assert_eq!(Ipv4Addr::new(255, 10, 100, 9).to_text_with('-'), "255-10-100-9");
    assert_eq!(Ipv4Addr::new(1, 2, 3, 4).bits, 0x0102_0304);
    assert_eq!(Ipv4Addr::from_octets([9, 8, 7, 6]).octets(), [9, 8, 7, 6]);
}

#[test]
fn only_canonical_addresses_are_read() {
    for text in ["0.0.0.0", "255.255.255.255", "10.0.0.5", "100.20.3.250"] {
        assert_eq!(Ipv4Addr::parse(text).unwrap().to_text(), text);
    }
    for text in [
        "", "1", "1.2.3", "1.2.3.4.5", "01.2.3.4", "1.2.3.256", "1.2.3.1000", "1.2.3.4 ", " 1.2.3.4", "+1.2.3.4",
        "1..3.4", "a.b.c.d", "1.2.3.", ".1.2.3", "not-an-ip", "00.0.0.0", "1.2.3.4\n",
    ] {
        assert!(Ipv4Addr::parse(text).is_none(), "{text}");
    }
}

#[test]
fn hardware_addresses_read_back() {
    let mac = [0x02, 0x42, 0xac, 0x11, 0x00, 0xff];
    assert_eq!(format_mac(&mac), "02:42:ac:11:00:ff");
    assert_eq!(parse_mac("02:42:ac:11:00:ff"), Ok(mac));
    assert_eq!(parse_mac("2:42:AC:11:0:fF"), Ok(mac));
    assert_eq!(parse_mac("+2:42:ac:011:00:ff"), Ok(mac));
}

#[test]
fn bad_hardware_addresses_are_told() {
    assert_eq!(parse_mac(""), Err(MacError::WrongFormat));
    assert_eq!(parse_mac("02:42:ac:11:00"), Err(MacError::WrongFormat));
    assert_eq!(parse_mac("02:42:ac:11:00:ff:01"), Err(MacError::WrongFormat));
    assert_eq!(parse_mac("02:42:ac:11:00:"), Err(MacError::BadOctet(5)));
    assert_eq!(parse_mac("02:4g:ac:11:00:ff"), Err(MacError::BadOctet(1)));
    assert_eq!(parse_mac("02:42:ac:100:00:ff"), Err(MacError::BadOctet(3)));
    assert_eq!(parse_mac("+:42:ac:10:00:ff"), Err(MacError::BadOctet(0)));
    assert_eq!(parse_mac("-2:42:ac:10:00:ff"), Err(MacError::BadOctet(0)));
}
