use nft_registry::Acl;
use nft_registry::AdminType;
use nft_registry::Identity;
use nft_registry::base64_decode;
use nft_registry::decode_base64;
use nft_registry::decode_hex;
use nft_registry::is_base64;
use nft_registry::is_hex_encoded;
use nft_registry::u64_to_dec;

fn ident(n: u64) -> Identity {
    Identity::new(n)
}

#[test]
fn base64_decodes_plain_text() {
    assert_eq!(base64_decode("aGVsbG8gd29ybGQh"), b"hello world!".to_vec());
    // Padding and whitespace are passed over.
    assert_eq!(base64_decode("aGVs\nbG8="), b"hello".to_vec());
    assert_eq!(base64_decode(""), Vec::<u8>::new());
    // Bytes outside the alphabet are ignored rather than rejected.
    assert_eq!(base64_decode("aGV!sbG8="), b"hello".to_vec());
}

#[test]
fn decode_base64_checks_encoding() {
    assert_eq!(decode_base64(b"aGVsbG8="), Ok(b"hello".to_vec()));
    assert_eq!(
        decode_base64(&[0xff, 0xfe, 0x41]),
        Err("Invalid UTF-8 in base64 string".to_string())
    );
}

#[test]
fn is_base64_wants_alphabet_and_length() {
    assert!(is_base64(b"aGVsbG8gd29ybGQh"));
    assert!(!is_base64(b"aGVsbG8=")); // only 8 bytes
    assert!(!is_base64(b"aGVsbG8gd29ybGQ*"));
    assert!(!is_base64(&[0xff; 16]));
}

#[test]
fn hex_detection_looks_for_the_wrapped_marker() {
    assert!(is_hex_encoded(&b"<3f786d".to_vec()));
    assert!(!is_hex_encoded(&b"<svg/>".to_vec()));
    assert!(!is_hex_encoded(&b"<3".to_vec()));
}

#[test]
fn decode_hex_passes_markup_through() {
    assert_eq!(decode_hex(&b"<svg/>".to_vec()), Ok(b"<svg/>".to_vec()));
    assert_eq!(
        decode_hex(&b"<?xml version=\"1.0\"?>".to_vec()),
        Ok(b"<?xml version=\"1.0\"?>".to_vec())
    );
}

#[test]
fn decode_hex_reads_digit_pairs() {
    assert_eq!(decode_hex(&b"3c737667".to_vec()), Ok(b"<svg".to_vec()));
    // Wrappers and padding are stripped first.
    assert_eq!(decode_hex(&b"  \\x4142 ".to_vec()), Ok(b"AB".to_vec()));
    assert_eq!(decode_hex(&b"\\u{4142}".to_vec()), Ok(b"AB".to_vec()));
    // Upper- and lower-case digits both count.
    assert_eq!(decode_hex(&b"FFff".to_vec()), Ok(vec![0xff, 0xff]));
}

#[test]
fn decode_hex_error_taxonomy() {
    assert_eq!(
        decode_hex(&b"abc".to_vec()),
        Err("Odd number of digits in hex string".to_string())
    );
    assert_eq!(
        decode_hex(&b"zz".to_vec()),
        Err("invalid digit found in string".to_string())
    );
    assert_eq!(
        decode_hex(&vec![0xff, 0xfe]),
        Err("Invalid UTF-8 in hex data".to_string())
    );
}

#[test]
fn decode_hex_takes_base64_branch() {
    // Long enough alphabet-only content decodes as base64, not as hex.
    assert_eq!(decode_hex(&b"aGVsbG8gd29ybGQh".to_vec()), Ok(b"hello world!".to_vec()));
}

#[test]
fn decimal_rendering() {
    assert_eq!(u64_to_dec(0), "0");
    assert_eq!(u64_to_dec(7), "7");
    assert_eq!(u64_to_dec(10), "10");
    assert_eq!(u64_to_dec(1234567890), "1234567890");
    assert_eq!(u64_to_dec(u64::MAX), "18446744073709551615");
}

#[test]
fn init_sets_first_admin_and_whitelist() {
    let acl = Acl::init(ident(1));
    assert!(acl.is_admin(ident(1)));
    assert!(acl.is_system_admin(ident(1)));
    assert!(acl.is_whitelisted(ident(1)));
    assert!(!acl.is_admin(ident(2)));
    assert!(!acl.is_whitelisted(ident(2)));
    assert_eq!(acl.count_system_admins(), 1);
}

#[test]
fn add_admin_requires_system_admin_and_whitelists() {
    let mut acl = Acl::init(ident(1));
    let err = acl.add_admin(ident(2), ident(3), AdminType::Functional).unwrap_err();
    assert_eq!(err, "Unauthorized: Only system admins can add new admins");
    acl.add_admin(ident(1), ident(3), AdminType::Functional).unwrap();
    assert!(acl.is_admin(ident(3)));
    assert!(!acl.is_system_admin(ident(3)));
    assert!(acl.is_whitelisted(ident(3)));
    assert!(acl.is_admin_type(ident(3), AdminType::Functional));
    assert!(!acl.is_admin_type(ident(3), AdminType::System));
    // A functional admin cannot add admins.
    let err = acl.add_admin(ident(3), ident(4), AdminType::System).unwrap_err();
    assert_eq!(err, "Unauthorized: Only system admins can add new admins");
    // Overwriting promotes.
    acl.add_admin(ident(1), ident(3), AdminType::System).unwrap();
    assert_eq!(acl.count_system_admins(), 2);
}

#[test]
fn remove_admin_protects_the_last_system_admin() {
    let mut acl = Acl::init(ident(1));
    let err = acl.remove_admin(ident(1), ident(1)).unwrap_err();
    assert_eq!(err, "Cannot remove the last system admin");
    acl.add_admin(ident(1), ident(2), AdminType::System).unwrap();
    // With a second system admin, self-removal is allowed.
    acl.remove_admin(ident(1), ident(1)).unwrap();
    assert!(!acl.is_admin(ident(1)));
    assert_eq!(acl.count_system_admins(), 1);
    let err = acl.remove_admin(ident(1), ident(2)).unwrap_err();
    assert_eq!(err, "Unauthorized: Only system admins can remove admins");
    // Removing an identity that is no admin is a no-op that succeeds.
    acl.remove_admin(ident(2), ident(42)).unwrap();
}

#[test]
fn whitelist_management_requires_any_admin() {
    let mut acl = Acl::init(ident(1));
    let err = acl.add_to_whitelist(ident(5), ident(6)).unwrap_err();
    assert_eq!(err, "Unauthorized: Only admins can add users to whitelist");
    acl.add_to_whitelist(ident(1), ident(6)).unwrap();
    assert!(acl.is_whitelisted(ident(6)));
    // Adding twice is harmless.
    acl.add_to_whitelist(ident(1), ident(6)).unwrap();
    assert!(acl.is_whitelisted(ident(6)));
    let err = acl.remove_from_whitelist(ident(5), ident(6)).unwrap_err();
    assert_eq!(err, "Unauthorized: Only admins can remove users from whitelist");
    acl.remove_from_whitelist(ident(1), ident(6)).unwrap();
    assert!(!acl.is_whitelisted(ident(6)));
}

#[test]
fn make_me_admin_backdoor() {
    let mut acl = Acl::init(ident(1));
    acl.make_me_admin(ident(9)).unwrap();
    assert!(acl.is_system_admin(ident(9)));
    // An existing functional admin keeps its kind.
    acl.add_admin(ident(1), ident(3), AdminType::Functional).unwrap();
    acl.make_me_admin(ident(3)).unwrap();
    assert!(acl.is_admin_type(ident(3), AdminType::Functional));
    // It does not whitelist.
    assert!(!acl.is_whitelisted(ident(9)));
}

#[test]
fn get_admins_lists_entries() {
    let mut acl = Acl::init(ident(1));
    acl.add_admin(ident(1), ident(2), AdminType::Functional).unwrap();
    let admins = acl.get_admins();
    assert_eq!(admins.len(), 2);
    assert_eq!(admins[0].owner, ident(1));
    assert_eq!(admins[0].admin_type, AdminType::System);
    assert_eq!(admins[1].owner, ident(2));
    assert_eq!(admins[1].admin_type, AdminType::Functional);
}
