use argon2::password_hash::SaltString;
use passwords::{create_password_argon2, verify_password_argon2};
use rand_core::OsRng;

#[test]
fn verifiy_password_default() {
    let salt = SaltString::generate(&mut OsRng);
    let mut buffer = [0u8; 64];
    let salt_bytes = salt.decode_b64(&mut buffer).unwrap();
    let hash = match create_password_argon2(&"bad_password_1", salt_bytes, &None) {
        Ok(h) => h,
        Err(_) => return assert!(false),
    };

    let is_not_verified = verify_password_argon2(&"bas_password", &hash, &None);
    assert_eq!(is_not_verified.is_err(), true);

    let is_verified = verify_password_argon2(&"bad_password_1", &hash, &None);
    assert_eq!(is_verified.is_ok(), true);
}
