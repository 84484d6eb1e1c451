use pcode_parser::{parse_line, CodeListing, Value};

#[test]
fn listing_keeps_order_per_address() {
    let mut l = CodeListing::new();
    assert_eq!(l.len(), 0);
    let a = parse_line("(unique,0x1,4) = COPY (register,0x0,4)").unwrap();
    let b = parse_line("STORE (const,0x1,8) (register,0x10,8) (unique,0x1,4)").unwrap();
    let c = parse_line("RETURN (register,0x8,8)").unwrap();
    l.insert(0x1000, a.clone());
    l.insert(0x1000, b.clone());
    l.insert(0x1004, c.clone());
    assert_eq!(l.len(), 2);
    assert_eq!(l.get(0x1000).unwrap(), &vec![a, b]);
    assert_eq!(l.get(0x1004).unwrap(), &vec![c]);
    assert!(l.get(0x2000).is_none());
}

#[test]
fn listing_walks_addresses_in_order() {
    let mut l = CodeListing::new();
    let r = parse_line("RETURN (register,0x8,8)").unwrap();
    for a in [0x30u32, 0x10, 0x20, 0x10] {
        l.insert(a, r.clone());
    }
    assert_eq!(l.addresses(), vec![0x10, 0x20, 0x30]);
    assert_eq!(l.get(0x10).unwrap().len(), 2);
}

#[test]
fn value_from_quad_keeps_low_word() {
    assert_eq!(Value::from_quad(0x1_0000_0005).data, 5);
    assert_eq!(Value::from_quad(0xFFFF_FFFF_FFFF_FFFF).data, -1);
    assert_eq!(Value::from_quad(0x0000_0000_8000_0000).data, i32::MIN);
}

#[test]
fn value_from_word_reinterprets() {
    assert_eq!(Value::from_word(7).data, 7);
    assert_eq!(Value::from_word(0x8000_0000).data, i32::MIN);
    assert_eq!(Value::from_word(0xFFFF_FFFE).data, -2);
}

#[test]
fn value_from_half_sign_extends() {
    assert_eq!(Value::from_half(0x7FFF).data, 32767);
    assert_eq!(Value::from_half(0xFFFF).data, -1);
    assert_eq!(Value::from_half(0x8000).data, -32768);
}

#[test]
fn value_from_byte_sign_extends() {
    assert_eq!(Value::from_byte(5).data, 5);
    assert_eq!(Value::from_byte(0x80).data, -128);
    assert_eq!(Value::from_byte(0xFF).data, -1);
}
