use ffremote::codec::{encode_args, try_encode_args};

fn le(x: u32) -> Vec<u8> {
    x.to_le_bytes().to_vec()
}

fn read_u32(b: &[u8], at: usize) -> u32 {
    u32::from_le_bytes([b[at], b[at + 1], b[at + 2], b[at + 3]])
}

#[test]
fn encode_empty_list() {
    let r = encode_args(&Vec::new());
    assert_eq!(r.len(), 4 + 6);
    assert_eq!(read_u32(&r, 0), 0);
    assert_eq!(&r[4..], b"/tmp/\0");
}

#[test]
fn encode_two_args() {
    let args = vec!["a".to_string(), "bb".to_string()];
    let r = encode_args(&args);
    let mut expected = Vec::new();
    expected.extend(le(2));
    expected.extend(le(4 + 8 + 6));
    expected.extend(le(4 + 8 + 6 + 2));
    expected.extend_from_slice(b"/tmp/\0");
    expected.extend_from_slice(b"a\0");
    expected.extend_from_slice(b"bb\0");
    assert_eq!(r, expected);
}

#[test]
fn encode_round_trip_by_offsets() {
    let args: Vec<String> = vec![
        "--new-tab".to_string(),
        "https://example.org/".to_string(),
        "".to_string(),
        "héllo wörld".to_string(),
    ];
    let r = encode_args(&args);
    let n = read_u32(&r, 0) as usize;
    assert_eq!(n, args.len());
    let path_at = 4 + 4 * n;
    assert_eq!(&r[path_at..path_at + 6], b"/tmp/\0");
    let mut expected_len = 4 + 4 * n + 6;
    for (i, a) in args.iter().enumerate() {
        let off = read_u32(&r, 4 + 4 * i) as usize;
        let end = off + r[off..].iter().position(|&c| c == 0).unwrap();
        assert_eq!(std::str::from_utf8(&r[off..end]).unwrap(), a);
        expected_len += a.len() + 1;
    }
    assert_eq!(r.len(), expected_len);
}

#[test]
fn encode_single_arg_offsets() {
    let r = encode_args(&vec!["xyz".to_string()]);
    assert_eq!(read_u32(&r, 0), 1);
    assert_eq!(read_u32(&r, 4), 14);
    assert_eq!(&r[14..], b"xyz\0");
    assert_eq!(r.len(), 18);
}

#[test]
fn try_encode_matches_encode() {
    let args = vec!["a".to_string(), "bb".to_string()];
    assert_eq!(try_encode_args(&args), Some(encode_args(&args)));
    assert_eq!(try_encode_args(&Vec::new()), Some(b"\0\0\0\0/tmp/\0".to_vec()));
}
