use json_array_stream::octets::{dest_octets, key_octets, xor_octets};

#[test]
fn dest_adds_octet_by_octet() {
    assert_eq!(dest_octets([10, 0, 0, 0], [1, 2, 3, 4]), [11, 2, 3, 4]);
    assert_eq!(dest_octets([128, 128, 33, 0], [255, 0, 255, 33]), [127, 128, 32, 33]);
    assert_eq!(dest_octets([255, 255, 255, 255], [1, 1, 1, 1]), [0, 0, 0, 0]);
}

#[test]
fn key_subtracts_octet_by_octet() {
    assert_eq!(key_octets([10, 0, 0, 0], [11, 2, 3, 4]), [1, 2, 3, 4]);
    assert_eq!(key_octets([128, 128, 33, 0], [127, 128, 32, 33]), [255, 0, 255, 33]);
    assert_eq!(key_octets([1, 1, 1, 1], [0, 0, 0, 0]), [255, 255, 255, 255]);
}

#[test]
fn key_leads_back_to_dest() {
    let from = [192, 168, 250, 7];
    let key = [100, 200, 9, 250];
    assert_eq!(key_octets(from, dest_octets(from, key)), key);
}

#[test]
fn xor_combines_octet_by_octet() {
    let a = [0xfe, 0x80, 0, 0, 0, 0, 0, 0, 0, 0, 0, 0, 0, 0, 0, 1];
    let b = [0x5, 0x0, 0xc, 0xa, 0xf, 0xe, 0, 0, 0, 0, 0, 0, 0, 0, 0xff, 0xff];
    let c = xor_octets(a, b);
    assert_eq!(c, [0xfb, 0x80, 0xc, 0xa, 0xf, 0xe, 0, 0, 0, 0, 0, 0, 0, 0, 0xff, 0xfe]);
    assert_eq!(xor_octets(a, c), b);
    assert_eq!(xor_octets(a, a), [0; 16]);
}
