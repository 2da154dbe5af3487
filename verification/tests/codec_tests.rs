use daisy::codec::{decode_printf_lines, encode_printf_lines, BYTES_PER_LINE, MAX_LINE_LEN};
use daisy::worm::{build_upload_script, path_query_line};

fn roundtrip(bytes: Vec<u8>) {
    let lines = encode_printf_lines(&bytes);
    let back = decode_printf_lines(&lines).expect("the emitted lines must decode");
    assert_eq!(back, bytes);
}

#[test]
fn roundtrip_empty() {
    roundtrip(vec![]);
}

#[test]
fn roundtrip_extreme_byte_values() {
    roundtrip(vec![0x00, 0xff, 0x00, 0x7f, 0x80, 0x0a, 0x27, 0x5c]);
}

#[test]
fn roundtrip_length_not_a_multiple_of_the_chunk() {
    let bytes: Vec<u8> = (0..(2 * BYTES_PER_LINE + 3)).map(|i| (i % 256) as u8).collect();
    assert_ne!(bytes.len() % BYTES_PER_LINE, 0);
    roundtrip(bytes);
}

#[test]
fn roundtrip_exact_chunk_multiple() {
    let bytes: Vec<u8> = (0..(2 * BYTES_PER_LINE)).map(|i| (i % 251) as u8).collect();
    roundtrip(bytes);
}

#[test]
fn encoded_line_is_exact() {
    let lines = encode_printf_lines(&vec![0x00, 0xff]);
    assert_eq!(lines.len(), 1);
    assert_eq!(lines[0], "printf '\\x00\\xff'");
}

#[test]
fn encoded_lines_respect_the_length_limit() {
    let bytes: Vec<u8> = (0..(3 * BYTES_PER_LINE + 17)).map(|i| (i % 256) as u8).collect();
    let lines = encode_printf_lines(&bytes);
    assert_eq!(lines.len(), 4);
    for line in &lines {
        assert!(line.len() <= MAX_LINE_LEN);
    }
    assert_eq!(lines[0].len(), 9 + 4 * BYTES_PER_LINE);
}

#[test]
fn decode_rejects_tampered_lines() {
    assert!(decode_printf_lines(&vec![String::from("printf '\\x0g'")]).is_none());
    assert!(decode_printf_lines(&vec![String::from("echo '\\x00'")]).is_none());
    assert!(decode_printf_lines(&vec![String::from("printf '\\x00")]).is_none());
    assert!(decode_printf_lines(&vec![String::from("printf '\\x0'")]).is_none());
}

#[test]
fn decode_is_not_the_identity() {
    let lines = encode_printf_lines(&vec![0x41]);
    let back = decode_printf_lines(&lines).unwrap();
    assert_eq!(back, vec![0x41]);
    assert_ne!(lines[0].as_bytes(), &back[..]);
}

#[test]
fn upload_script_wraps_the_encoded_payload() {
    let bytes = vec![0x01, 0x02, 0x03];
    let script = build_upload_script(&bytes);
    let expected_preamble = [
        "#!/bin/sh",
        "set -e",
        "set -o pipefail",
        "umask 077",
        "file=\"$(mktemp || echo /tmp/daisy)\"",
        "exec 3>&1",
        "exec 1>\"$file\"",
    ];
    let expected_postamble = ["exec 1>&3", "exec 3>&-", "chmod u+x \"$file\""];
    assert_eq!(script.len(), expected_preamble.len() + 1 + expected_postamble.len());
    for (i, want) in expected_preamble.iter().enumerate() {
        assert_eq!(&script[i], want);
    }
    assert_eq!(script[expected_preamble.len()], "printf '\\x01\\x02\\x03'");
    for (i, want) in expected_postamble.iter().enumerate() {
        assert_eq!(&script[expected_preamble.len() + 1 + i], want);
    }
}

#[test]
fn path_query_prints_the_saved_file() {
    assert_eq!(path_query_line(), "printf '%s' \"$file\"");
}
