use hg_stdio::wire::{decimal_bytes, encode_command, find_byte, goodbye_request, Param};

fn param(name: &[u8], value: &[u8]) -> Param {
    Param { name: name.to_vec(), value: value.to_vec() }
}

#[test]
fn command_without_parameters() {
    assert_eq!(encode_command(b"heads", &[], None), b"heads\n".to_vec());
}

#[test]
fn command_with_parameters() {
    let params = vec![param(b"key", b"tip"), param(b"nodes", b"")];
    assert_eq!(
        encode_command(b"lookup", &params, None),
        b"lookup\nkey 3\ntipnodes 0\n".to_vec()
    );
}

#[test]
fn command_with_variadic_group() {
    let params = vec![param(b"key", b"ab")];
    let extra = vec![param(b"heads", b"x"), param(b"common", b"yz")];
    assert_eq!(
        encode_command(b"getbundle", &params, Some(&extra)),
        b"getbundle\nkey 2\nab* 2\nheads 1\nxcommon 2\nyz".to_vec()
    );
}

#[test]
fn empty_variadic_group() {
    let extra: Vec<Param> = Vec::new();
    assert_eq!(encode_command(b"cmd", &[], Some(&extra)), b"cmd\n* 0\n".to_vec());
}

#[test]
fn value_with_framing_bytes_round_trips_by_length() {
    let value = b"a 1\nb\n\n".to_vec();
    let params = vec![param(b"data", &value)];
    let bytes = encode_command(b"unbundle", &params, None);
    assert_eq!(bytes, b"unbundle\ndata 7\na 1\nb\n\n".to_vec());
    // read it back by hand: the name up to the space, the length up to the line feed
    let body = &bytes[b"unbundle\n".len()..];
    let space = body.iter().position(|&b| b == b' ').unwrap();
    assert_eq!(&body[..space], b"data");
    let nl = body.iter().position(|&b| b == b'\n').unwrap();
    let n: usize = std::str::from_utf8(&body[space + 1..nl]).unwrap().parse().unwrap();
    assert_eq!(&body[nl + 1..nl + 1 + n], &value[..]);
    assert_eq!(nl + 1 + n, body.len());
}

#[test]
fn long_value_length_in_decimal() {
    let value = vec![7u8; 1234];
    let bytes = encode_command(b"c", &[param(b"v", &value)], None);
    assert_eq!(&bytes[..9], b"c\nv 1234\n");
    assert_eq!(bytes.len(), 9 + 1234);
}

#[test]
fn goodbye_is_a_bare_line_feed() {
    assert_eq!(goodbye_request(), b"\n".to_vec());
}

#[test]
fn decimal_digits() {
    assert_eq!(decimal_bytes(0), b"0".to_vec());
    assert_eq!(decimal_bytes(9), b"9".to_vec());
    assert_eq!(decimal_bytes(10), b"10".to_vec());
    assert_eq!(decimal_bytes(12345), b"12345".to_vec());
    assert_eq!(decimal_bytes(u64::MAX), b"18446744073709551615".to_vec());
}

#[test]
fn first_byte_found() {
    assert_eq!(find_byte(b"ab\ncd\n", b'\n'), Some(2));
    assert_eq!(find_byte(b"abc", b'\n'), None);
    assert_eq!(find_byte(b"", b'\n'), None);
}
