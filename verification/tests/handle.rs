use dxf::handle::handle_from_hex;
use dxf::Handle;

fn chars(s: &str) -> Vec<char> {
    s.chars().collect()
}

#[test]
fn empty_handle_is_empty() {
    assert_eq!(Handle(0), Handle::empty());
    assert!(Handle::empty().is_empty());
    assert!(!Handle(1).is_empty());
}

#[test]
fn next_handle_skips_reserved_range() {
    assert_eq!(Handle(11), Handle(0).next_handle_value());
    assert_eq!(Handle(11), Handle(1).next_handle_value());
    assert_eq!(Handle(11), Handle(5).next_handle_value());
    assert_eq!(Handle(11), Handle(9).next_handle_value());
    assert_eq!(Handle(11), Handle(10).next_handle_value());
    assert_eq!(Handle(12), Handle(11).next_handle_value());
    assert_eq!(Handle(0x1E), Handle(0x1D).next_handle_value());
}

#[test]
fn handle_as_upper_hex() {
    assert_eq!("0", Handle(0).as_string());
    assert_eq!("A", Handle(10).as_string());
    assert_eq!("1E", Handle(30).as_string());
    assert_eq!("FF", Handle(255).as_string());
    assert_eq!("ABC", Handle(0xABC).as_string());
    assert_eq!("FFFFFFFFFFFFFFFF", Handle(u64::MAX).as_string());
}

#[test]
fn handle_text_round_trip() {
    for v in [0u64, 1, 11, 30, 255, 4096, 0xDEAD_BEEF, u64::MAX] {
        let h = Handle(v);
        assert_eq!(Some(h), handle_from_hex(&chars(&h.as_string())));
    }
    assert_eq!(Some(Handle(30)), handle_from_hex(&chars("1e")));
    assert_eq!(Some(Handle(30)), handle_from_hex(&chars("001E")));
}

#[test]
fn handle_from_bad_hex() {
    assert_eq!(None, handle_from_hex(&chars("")));
    assert_eq!(None, handle_from_hex(&chars("1G")));
    assert_eq!(None, handle_from_hex(&chars(" 1")));
    assert_eq!(None, handle_from_hex(&chars("10000000000000000")));
}
