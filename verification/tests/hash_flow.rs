use argon2::password_hash::{PasswordHasher, PasswordVerifier, SaltString};
use argon2::{Algorithm, Argon2, Params, Version};
use passwords::{
    constant_time_eq, create, create_password_argon2, finish_hash, judge_digest,
    resolve_parameters, verify_password_argon2, HashError, ParameterError, Parameters,
    PasswordHash, VerifyError,
};

fn light() -> Parameters {
    Parameters { memory_cost: 16, time_cost: 1, parallelism: 2, output_length: 24 }
}

const SALT: &[u8] = b"0123456789abcdef";

#[test]
fn resolve_gives_the_defaults_without_an_override() {
    let expected =
        Parameters { memory_cost: 19456, time_cost: 2, parallelism: 1, output_length: 32 };
    assert_eq!(resolve_parameters(&None), Ok(expected));
    assert_eq!(Parameters::recommended(), expected);
}

#[test]
fn resolve_keeps_a_valid_override() {
    assert_eq!(resolve_parameters(&Some(light())), Ok(light()));
    let least = Parameters { memory_cost: 8, time_cost: 1, parallelism: 1, output_length: 10 };
    assert_eq!(resolve_parameters(&Some(least)), Ok(least));
    let most = Parameters {
        memory_cost: u32::MAX,
        time_cost: u32::MAX,
        parallelism: 0xFF_FFFF,
        output_length: 64,
    };
    assert_eq!(resolve_parameters(&Some(most)), Ok(most));
}

#[test]
fn resolve_refuses_each_field_out_of_range() {
    let cases = [
        Parameters { memory_cost: 0, ..light() },
        Parameters { memory_cost: 7, parallelism: 1, ..light() },
        Parameters { memory_cost: 15, ..light() },
        Parameters { time_cost: 0, ..light() },
        Parameters { parallelism: 0, ..light() },
        Parameters { memory_cost: u32::MAX, parallelism: 0x100_0000, ..light() },
        Parameters { output_length: 9, ..light() },
        Parameters { output_length: 65, ..light() },
    ];
    for p in cases {
        assert_eq!(resolve_parameters(&Some(p)), Err(ParameterError));
        assert!(!p.is_valid());
    }
}

#[test]
fn created_hash_verifies_with_its_password() {
    let hash = create_password_argon2("hunter2", SALT, &Some(light())).unwrap();
    assert_eq!(verify_password_argon2("hunter2", &hash, &None), Ok(()));
    assert_eq!(verify_password_argon2("hunter2", &hash, &Some(light())), Ok(()));
}

#[test]
fn created_hash_rejects_another_password() {
    let hash = create_password_argon2("hunter2", SALT, &Some(light())).unwrap();
    assert_eq!(verify_password_argon2("hunter3", &hash, &None), Err(VerifyError::Mismatch));
    assert_eq!(verify_password_argon2("", &hash, &None), Err(VerifyError::Mismatch));
}

#[test]
fn fresh_salts_give_different_hashes() {
    let first = create("hunter2", &Some(light())).unwrap();
    let second = create("hunter2", &Some(light())).unwrap();
    assert_ne!(first, second);
    let a = PasswordHash::decode(&first).unwrap();
    let b = PasswordHash::decode(&second).unwrap();
    assert_eq!(a.salt.len(), 16);
    assert_eq!(b.salt.len(), 16);
    assert_ne!(a.salt, b.salt);
    assert_eq!(verify_password_argon2("hunter2", &first, &None), Ok(()));
    assert_eq!(verify_password_argon2("hunter2", &second, &None), Ok(()));
}

#[test]
fn created_hash_carries_its_parameters() {
    let hash = create_password_argon2("hunter2", SALT, &Some(light())).unwrap();
    assert!(hash.starts_with("$argon2id$v=19$m=16,t=1,p=2$MDEyMzQ1Njc4OWFiY2RlZg$"));
    let stored = PasswordHash::decode(&hash).unwrap();
    assert_eq!(stored.params, light());
    assert_eq!(stored.salt, SALT.to_vec());
    assert_eq!(stored.digest.len(), 24);
}

#[test]
fn malformed_hash_is_not_a_mismatch() {
    assert_eq!(
        verify_password_argon2("hunter2", "not-a-valid-hash", &None),
        Err(VerifyError::Malformed)
    );
    assert_eq!(verify_password_argon2("hunter2", "", &None), Err(VerifyError::Malformed));
    let hash = create_password_argon2("hunter2", SALT, &Some(light())).unwrap();
    let truncated = &hash[..hash.len() - 1];
    assert_eq!(verify_password_argon2("hunter2", truncated, &None), Err(VerifyError::Malformed));
    let other = hash.replace("argon2id", "argon2i");
    assert_eq!(verify_password_argon2("hunter2", &other, &None), Err(VerifyError::Malformed));
}

#[test]
fn default_path_scenario() {
    let hash = create("correct horse battery staple", &None).unwrap();
    assert!(hash.starts_with("$argon2id$v=19$"));
    assert!(hash.starts_with("$argon2id$v=19$m=19456,t=2,p=1$"));
    assert_eq!(verify_password_argon2("correct horse battery staple", &hash, &None), Ok(()));
    assert_eq!(verify_password_argon2("wrong", &hash, &None), Err(VerifyError::Mismatch));
}

#[test]
fn invalid_parameters_are_refused() {
    let zero = Parameters { memory_cost: 0, ..Parameters::recommended() };
    assert_eq!(create("hunter2", &Some(zero)), Err(HashError::Parameter));
    assert_eq!(create_password_argon2("hunter2", SALT, &Some(zero)), Err(HashError::Parameter));
    let hash = create_password_argon2("hunter2", SALT, &Some(light())).unwrap();
    assert_eq!(verify_password_argon2("hunter2", &hash, &Some(zero)), Err(VerifyError::Parameter));
    assert_eq!(
        verify_password_argon2("hunter2", "not-a-valid-hash", &Some(zero)),
        Err(VerifyError::Parameter)
    );
}

#[test]
fn salt_length_out_of_range_is_refused() {
    assert_eq!(
        create_password_argon2("hunter2", b"1234567", &Some(light())),
        Err(HashError::Parameter)
    );
    assert_eq!(
        create_password_argon2("hunter2", &[7u8; 49], &Some(light())),
        Err(HashError::Parameter)
    );
    assert!(create_password_argon2("hunter2", b"12345678", &Some(light())).is_ok());
    assert!(create_password_argon2("hunter2", &[7u8; 48], &Some(light())).is_ok());
}

#[test]
fn hash_string_is_the_standard_one() {
    let salt = SaltString::encode_b64(SALT).unwrap();
    let params = Params::new(16, 1, 2, Some(24)).unwrap();
    let hasher = Argon2::new(Algorithm::Argon2id, Version::V0x13, params);
    let expected = hasher.hash_password(b"hunter2", &salt).unwrap().to_string();
    let hash = create_password_argon2("hunter2", SALT, &Some(light())).unwrap();
    assert_eq!(hash, expected);

    let by_default = Argon2::default().hash_password(b"hunter2", &salt).unwrap().to_string();
    assert_eq!(create_password_argon2("hunter2", SALT, &None), Ok(by_default));
}

#[test]
fn standard_verifier_accepts_the_hash() {
    let hash = create_password_argon2("hunter2", SALT, &Some(light())).unwrap();
    let parsed = argon2::PasswordHash::new(&hash).unwrap();
    assert!(Argon2::default().verify_password(b"hunter2", &parsed).is_ok());
    assert!(Argon2::default().verify_password(b"hunter3", &parsed).is_err());
}

#[test]
fn verdict_does_not_depend_on_a_valid_override() {
    let hash = create_password_argon2("hunter2", SALT, &Some(light())).unwrap();
    let other = Parameters { memory_cost: 64, time_cost: 2, parallelism: 1, output_length: 32 };
    assert_eq!(verify_password_argon2("hunter2", &hash, &Some(other)), Ok(()));
    assert_eq!(verify_password_argon2("hunter3", &hash, &Some(other)), Err(VerifyError::Mismatch));
}

#[test]
fn finish_hash_maps_each_outcome() {
    let digest: Vec<u8> = (0u8..24).collect();
    let hash = finish_hash(&light(), SALT, Some(digest.clone())).unwrap();
    assert_eq!(
        hash,
        "$argon2id$v=19$m=16,t=1,p=2$MDEyMzQ1Njc4OWFiY2RlZg$AAECAwQFBgcICQoLDA0ODxAREhMUFRYX"
    );
    assert_eq!(finish_hash(&light(), SALT, None), Err(HashError::Crypto));
    assert_eq!(finish_hash(&light(), SALT, Some(digest[..23].to_vec())), Err(HashError::Crypto));
}

#[test]
fn judge_digest_maps_each_outcome() {
    let stored = [1u8, 2, 3, 4];
    assert_eq!(judge_digest(&stored, Some(vec![1, 2, 3, 4])), Ok(()));
    assert_eq!(judge_digest(&stored, Some(vec![1, 2, 3, 5])), Err(VerifyError::Mismatch));
    assert_eq!(judge_digest(&stored, Some(vec![1, 2, 3])), Err(VerifyError::Mismatch));
    assert_eq!(judge_digest(&stored, None), Err(VerifyError::Crypto));
}

#[test]
fn constant_time_eq_is_equality() {
    assert!(constant_time_eq(b"", b""));
    assert!(constant_time_eq(b"abc", b"abc"));
    assert!(!constant_time_eq(b"abc", b"abd"));
    assert!(!constant_time_eq(b"abc", b"bbc"));
    assert!(!constant_time_eq(b"abc", b"ab"));
    assert!(!constant_time_eq(&[0x80], &[0x00]));
}

#[test]
fn created_hash_has_the_length_its_parameters_give() {
    let short = create("a", &Some(light())).unwrap();
    let long = create("a much longer password than the other one", &Some(light())).unwrap();
    assert_eq!(short.len(), long.len());
    // 25 bytes of fixed text, "16", "1", "2", 22 for the salt and 32 for the digest
    assert_eq!(short.len(), 25 + 2 + 1 + 1 + 22 + 32);
    let parts: Vec<&str> = short.split('$').collect();
    assert_eq!(parts.len(), 6);
    assert_eq!(parts[0], "");
    assert_eq!(parts[1], "argon2id");
    assert_eq!(parts[2], "v=19");
    assert_eq!(parts[3], "m=16,t=1,p=2");
    assert_eq!(parts[4].len(), 22);
    assert_eq!(parts[5].len(), 32);
}

#[test]
fn no_override_is_the_default_set() {
    let by_default = create_password_argon2("hunter2", SALT, &None);
    let spelled = create_password_argon2("hunter2", SALT, &Some(Parameters::recommended()));
    assert!(by_default.is_ok());
    assert_eq!(by_default, spelled);
}

#[test]
fn empty_password_is_hashed_and_verified() {
    let hash = create_password_argon2("", SALT, &Some(light())).unwrap();
    assert_eq!(verify_password_argon2("", &hash, &None), Ok(()));
    assert_eq!(verify_password_argon2(" ", &hash, &None), Err(VerifyError::Mismatch));
}
