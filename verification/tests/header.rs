use dvr_client::frames::{
    encode_heartbeat_ack, encode_login, encode_start_stream, is_login_accept, login_payload,
    CredentialError, LOGIN_ACCEPT,
};
use dvr_client::header::{bytes_to_header, DecodeError};

#[test]
fn decode_rejects_short_buffers() {
    for n in 0..8usize {
        let buf = vec![0xABu8; n];
        let r = bytes_to_header(&buf);
        assert_eq!(r.err(), Some(DecodeError { actual: n, expected: 8 }));
    }
}

#[test]
fn decode_of_exactly_eight_bytes_has_no_extension() {
    let h = bytes_to_header(&[0xAB, 0xCD, 0x00, 0x81, 0x00, 0x00, 0x01, 0x11]).unwrap();
    assert_eq!(h.magic, (0xAB, 0xCD));
    assert_eq!(h.len, (0x00, 0x81));
    assert_eq!(h.reserved, (0x00, 0x00));
    assert_eq!(h.msg, (0x01, 0x11));
    assert_eq!(h.other, None);
}

#[test]
fn decode_keeps_the_remainder_as_extension() {
    let h = bytes_to_header(&[1, 2, 3, 4, 5, 6, 7, 8, 9]).unwrap();
    assert_eq!(h.magic, (1, 2));
    assert_eq!(h.len, (3, 4));
    assert_eq!(h.reserved, (5, 6));
    assert_eq!(h.msg, (7, 8));
    assert_eq!(h.other, Some(vec![9]));
    let long: Vec<u8> = (0..200u8).collect();
    let h = bytes_to_header(&long).unwrap();
    assert_eq!(h.other, Some(long[8..].to_vec()));
}

#[test]
fn extension_is_present_exactly_above_eight_bytes() {
    for n in 8..40usize {
        let buf = vec![0x5Au8; n];
        let h = bytes_to_header(&buf).unwrap();
        assert_eq!(h.other.is_some(), n > 8);
    }
}

#[test]
fn header_text_shows_fields_in_hex() {
    let h = bytes_to_header(&[0xAB, 0xCD, 0x00, 0x81, 0x00, 0x00, 0x01, 0x11]).unwrap();
    assert_eq!(
        h.string(),
        "<PHeader MAGIC=(AB, CD) LEN=(0, 81) MSG=(1, 11) HAS_EXT=(false)>"
    );
    let h = bytes_to_header(&[0x0A, 0xFF, 0x10, 0x0F, 0x77, 0x77, 0x9C, 0x00, 0x01]).unwrap();
    assert_eq!(
        h.string(),
        "<PHeader MAGIC=(A, FF) LEN=(10, F) MSG=(9C, 0) HAS_EXT=(true)>"
    );
}

#[test]
fn header_text_matches_std_formatting_for_every_byte() {
    for b in 0..=255u8 {
        let h = bytes_to_header(&[b, b, b, b, 0, 0, b, b]).unwrap();
        let expected = format!(
            "<PHeader MAGIC={:X?} LEN={:X?} MSG={:X?} HAS_EXT=({})>",
            (b, b),
            (b, b),
            (b, b),
            false
        );
        assert_eq!(h.string(), expected);
    }
}

#[test]
fn login_for_admin_has_the_documented_layout() {
    let frame = encode_login("admin", "12345").unwrap();
    assert_eq!(frame.len(), 136);
    assert_eq!(&frame[0..8], &[0xAB, 0xCD, 0x00, 0x80, 0x00, 0x00, 0x01, 0x10]);
    assert_eq!(&frame[8..13], "admin".as_bytes());
    assert!(frame[13..72].iter().all(|b| *b == 0));
    assert_eq!(&frame[72..77], "12345".as_bytes());
    assert!(frame[77..136].iter().all(|b| *b == 0));
}

#[test]
fn login_payload_is_the_login_for_the_default_credentials() {
    assert_eq!(login_payload(), encode_login("admin", "12345").unwrap());
}

#[test]
fn login_accepts_credentials_that_fill_their_field() {
    let user = "u".repeat(64);
    let pass = "p".repeat(64);
    let frame = encode_login(&user, &pass).unwrap();
    assert_eq!(frame.len(), 136);
    assert_eq!(&frame[8..72], user.as_bytes());
    assert_eq!(&frame[72..136], pass.as_bytes());
    let empty = encode_login("", "").unwrap();
    assert_eq!(empty.len(), 136);
    assert!(empty[8..].iter().all(|b| *b == 0));
}

#[test]
fn login_refuses_credentials_that_do_not_fit() {
    let long = "x".repeat(65);
    assert_eq!(
        encode_login(&long, "12345"),
        Err(CredentialError::UsernameTooLong { len: 65 })
    );
    assert_eq!(
        encode_login("admin", &long),
        Err(CredentialError::PasswordTooLong { len: 65 })
    );
    assert_eq!(
        encode_login(&long, &"y".repeat(100)),
        Err(CredentialError::UsernameTooLong { len: 65 })
    );
}

#[test]
fn login_counts_bytes_not_characters() {
    // 33 two-byte characters take 66 bytes.
    let wide = "\u{e9}".repeat(33);
    assert_eq!(
        encode_login(&wide, ""),
        Err(CredentialError::UsernameTooLong { len: 66 })
    );
    let fits = "\u{e9}".repeat(32);
    let frame = encode_login(&fits, "").unwrap();
    assert_eq!(&frame[8..72], fits.as_bytes());
}

#[test]
fn fixed_frames_are_byte_exact() {
    assert_eq!(
        encode_heartbeat_ack(),
        vec![0xAB, 0xCD, 0x00, 0x00, 0x00, 0x00, 0x01, 0x13]
    );
    assert_eq!(
        encode_start_stream(),
        vec![0xAB, 0xCD, 0x00, 0x08, 0x00, 0x00, 0x01, 0xFF, 0, 0, 0, 0, 0, 0, 0, 0]
    );
    assert_eq!(LOGIN_ACCEPT, [0xAB, 0xCD, 0x00, 0x81, 0x00, 0x00, 0x01, 0x11]);
}

#[test]
fn login_accept_is_matched_byte_for_byte() {
    assert!(is_login_accept(&LOGIN_ACCEPT));
    for i in 0..8 {
        let mut other = LOGIN_ACCEPT;
        other[i] ^= 0x01;
        assert!(!is_login_accept(&other));
    }
    assert!(!is_login_accept(&LOGIN_ACCEPT[..7]));
    let mut longer = LOGIN_ACCEPT.to_vec();
    longer.push(0);
    assert!(!is_login_accept(&longer));
    assert!(!is_login_accept(&[]));
}

#[test]
fn fixed_frames_decode_as_headers() {
    let h = bytes_to_header(&encode_start_stream()).unwrap();
    assert_eq!(h.magic, (0xAB, 0xCD));
    assert_eq!(h.msg, (0x01, 0xFF));
    assert_eq!(h.other, Some(vec![0u8; 8]));
    let h = bytes_to_header(&login_payload()).unwrap();
    assert_eq!(h.len, (0x00, 0x80));
    assert_eq!(h.msg, (0x01, 0x10));
    assert_eq!(h.other.map(|v| v.len()), Some(128));
    let h = bytes_to_header(&encode_heartbeat_ack()).unwrap();
    assert_eq!(h.msg, (0x01, 0x13));
    assert_eq!(h.other, None);
}
