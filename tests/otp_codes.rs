use otpc::error::OtpError;
use otpc::hmac::hmac_sha1;
use otpc::otp::{format_padded, Otp, OtpType};
use otpc::sha1::{left_rotate, sha1};

fn hex(bytes: &[u8]) -> String {
    bytes.iter().map(|b| format!("{:02x}", b)).collect()
}

#[test]
fn test_base32_decode() {
    let decoded = Otp::decode_base32("JBSWY3DPEHPK3PXP");
    assert_eq!(decoded, vec![72, 101, 108, 108, 111, 33, 222, 173, 190, 239]);
}

#[test]
fn test_hmac_sha1() {
    let otp = Otp::new("JBSWY3DPEHPK3PXP", 6, 30, OtpType::Totp);
    let result = otp.hmac_sha1(&[0, 0, 0, 0, 0, 0, 0, 1]);
    assert_eq!(result.len(), 20);
}

#[test]
fn test_generate_hotp() {
    let otp = Otp::new("JBSWY3DPEHPK3PXP", 6, 30, OtpType::Totp);
    let code = otp.generate_hotp(2);
    println!("code: {}", code);
    assert_eq!(code.len(), 6);
}

#[test]
fn base32_is_case_and_space_insensitive() {
    let expected = vec![72, 101, 108, 108, 111, 33, 222, 173, 190, 239];
    assert_eq!(Otp::decode_base32("jbswy3dpehpk3pxp"), expected);
    assert_eq!(Otp::decode_base32("JBSW Y3DP EHPK 3PXP"), expected);
}

#[test]
fn base32_skips_invalid_characters_and_drops_trailing_bits() {
    assert_eq!(Otp::decode_base32("JB-SW!Y3DP"), Otp::decode_base32("JBSWY3DP"));
    assert_eq!(Otp::decode_base32("A"), Vec::<u8>::new());
    assert_eq!(Otp::decode_base32(""), Vec::<u8>::new());
    assert_eq!(Otp::decode_base32("MY"), vec![0x66]);
}

#[test]
fn sha1_known_digests() {
    assert_eq!(hex(&sha1(b"")), "da39a3ee5e6b4b0d3255bfef95601890afd80709");
    assert_eq!(hex(&sha1(b"abc")), "a9993e364706816aba3e25717850c26c9cd0d89d");
    assert_eq!(
        hex(&sha1(b"abcdbcdecdefdefgefghfghighijhijkijkljklmklmnlmnomnopnopq")),
        "84983e441c3bd26ebaae4aa1f95129e5e54670f1"
    );
}

#[test]
fn sha1_block_boundary_lengths() {
    let m55 = vec![b'a'; 55];
    let m56 = vec![b'a'; 56];
    let m64 = vec![b'a'; 64];
    assert_eq!(hex(&sha1(&m55)), "c1c8bbdc22796e28c0e15163d20899b65621d65a");
    assert_eq!(hex(&sha1(&m56)), "c2db330f6083854c99d4b5bfb6e8f29f201be699");
    assert_eq!(hex(&sha1(&m64)), "0098ba824b5c16427bd7a1122a5a442a25ec644d");
}

#[test]
fn left_rotate_wraps_bits() {
    assert_eq!(left_rotate(0x8000_0001, 1), 0x0000_0003);
    assert_eq!(left_rotate(0x1234_5678, 8), 0x3456_7812);
}

#[test]
fn hmac_reference_vectors() {
    let key = vec![0x0bu8; 20];
    assert_eq!(hex(&hmac_sha1(&key, b"Hi There")), "b617318655057264e28bc0b6fb378c8ef146be00");
    assert_eq!(
        hex(&hmac_sha1(b"Jefe", b"what do ya want for nothing?")),
        "effcdf6ae5eb2fa2d27416d5f184df9c259a7c79"
    );
    let long_key = vec![0xaau8; 80];
    assert_eq!(
        hex(&hmac_sha1(&long_key, b"Test Using Larger Than Block-Size Key - Hash Key First")),
        "aa4ae5e15272d00e95705637ce8a3b55ed402112"
    );
}

#[test]
fn hotp_reference_vectors() {
    // base-32 of the ASCII secret "12345678901234567890"
    let otp = Otp::new("GEZDGNBVGY3TQOJQGEZDGNBVGY3TQOJQ", 6, 30, OtpType::Hotp);
    assert_eq!(otp.generate_hotp(0), "755224");
    assert_eq!(otp.generate_hotp(1), "287082");
    assert_eq!(otp.generate_hotp(2), "359152");
    assert_eq!(otp.generate_hotp(3), "969429");
    assert_eq!(otp.generate_hotp(9), "520489");
}

#[test]
fn hotp_is_deterministic() {
    let a = Otp::new("JBSWY3DPEHPK3PXP", 6, 30, OtpType::Totp);
    let b = Otp::new("jbswy3dpehpk3pxp", 6, 30, OtpType::Hotp);
    assert_eq!(a.generate_hotp(77), a.generate_hotp(77));
    assert_eq!(a.generate_hotp(77), b.generate_hotp(77));
}

#[test]
fn totp_reference_vectors() {
    let otp = Otp::new("GEZDGNBVGY3TQOJQGEZDGNBVGY3TQOJQ", 8, 30, OtpType::Totp);
    assert_eq!(otp.code_at(59), Ok("94287082".to_string()));
    assert_eq!(otp.code_at(1111111109), Ok("07081804".to_string()));
    assert_eq!(otp.code_at(1234567890), Ok("89005924".to_string()));
    assert_eq!(otp.code_at(2000000000), Ok("69279037".to_string()));
    assert_eq!(otp.code_at(20000000000), Ok("65353130".to_string()));
}

#[test]
fn totp_same_window_same_code() {
    let otp = Otp::new_totp("JBSWY3DPEHPK3PXP");
    assert_eq!(otp.code_at(60), otp.code_at(89));
    assert_eq!(otp.code_at(90), Ok(otp.generate_hotp(3)));
}

#[test]
fn generate_code_errors() {
    let hotp = Otp::new("JBSWY3DPEHPK3PXP", 6, 30, OtpType::Hotp);
    assert_eq!(hotp.generate_code(), Err(OtpError::MissingCounterForHotp));
    let empty = Otp::new_totp("!!");
    assert_eq!(empty.code_at(100), Err(OtpError::InvalidSecretEncoding));
    assert_eq!(empty.generate_code(), Err(OtpError::InvalidSecretEncoding));
}

#[test]
fn generate_code_gives_six_digits() {
    let otp = Otp::new_totp("JBSWY3DPEHPK3PXP");
    let code = otp.generate_code().unwrap();
    assert_eq!(code.len(), 6);
    assert!(code.chars().all(|c| c.is_ascii_digit()));
}

#[test]
fn format_padded_fills_with_zeros() {
    assert_eq!(format_padded(42, 6), "000042");
    assert_eq!(format_padded(0, 1), "0");
    assert_eq!(format_padded(123456789, 9), "123456789");
    assert_eq!(format_padded(1234567, 6), "234567");
}
