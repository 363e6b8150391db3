use passwords::decimal::{push_decimal, read_number};
use passwords::phc::is_base64;
use passwords::{decode_hash, encode_hash, PasswordHash, Parameters, PhcFields};

fn sample_fields() -> PhcFields {
    PhcFields {
        memory_cost: 19456,
        time_cost: 2,
        parallelism: 1,
        salt: b"c2FsdHNhbHQ".to_vec(),
        digest: b"AAECAwQFBgcICQ".to_vec(),
    }
}

#[test]
fn encode_writes_the_exact_text() {
    let text = encode_hash(&sample_fields());
    assert_eq!(
        text,
        b"$argon2id$v=19$m=19456,t=2,p=1$c2FsdHNhbHQ$AAECAwQFBgcICQ".to_vec()
    );
}

#[test]
fn decode_reads_the_exact_fields() {
    let fields = decode_hash(b"$argon2id$v=19$m=19456,t=2,p=1$c2FsdHNhbHQ$AAECAwQFBgcICQ");
    assert_eq!(fields, Some(sample_fields()));
}

#[test]
fn decode_inverts_encode_at_the_limits() {
    let fields = PhcFields {
        memory_cost: u32::MAX,
        time_cost: 0,
        parallelism: 10,
        salt: Vec::new(),
        digest: b"+/".to_vec(),
    };
    let text = encode_hash(&fields);
    assert_eq!(text, b"$argon2id$v=19$m=4294967295,t=0,p=10$$+/".to_vec());
    assert_eq!(decode_hash(&text), Some(fields));
}

#[test]
fn decode_refuses_what_encode_never_writes() {
    let refused: [&[u8]; 16] = [
        b"",
        b"not-a-valid-hash",
        b"$argon2i$v=19$m=19456,t=2,p=1$c2FsdHNhbHQ$AAECAwQFBgcICQ",
        b"$argon2id$v=16$m=19456,t=2,p=1$c2FsdHNhbHQ$AAECAwQFBgcICQ",
        b"$argon2id$m=19456,t=2,p=1$c2FsdHNhbHQ$AAECAwQFBgcICQ",
        b"$argon2id$v=19$t=2,m=19456,p=1$c2FsdHNhbHQ$AAECAwQFBgcICQ",
        b"$argon2id$v=19$m=019456,t=2,p=1$c2FsdHNhbHQ$AAECAwQFBgcICQ",
        b"$argon2id$v=19$m=4294967296,t=2,p=1$c2FsdHNhbHQ$AAECAwQFBgcICQ",
        b"$argon2id$v=19$m=,t=2,p=1$c2FsdHNhbHQ$AAECAwQFBgcICQ",
        b"$argon2id$v=19$m=19456,t=2$c2FsdHNhbHQ$AAECAwQFBgcICQ",
        b"$argon2id$v=19$m=19456,t=2,p=1$c2FsdHNhbHQ",
        b"$argon2id$v=19$m=19456,t=2,p=1$c2FsdHNhbHQ$AAECAwQF=gcICQ",
        b"$argon2id$v=19$m=19456,t=2,p=1$c2FsdHNhbHQ$AAECAwQFBgcICQ$",
        b"$argon2id$v=19$m=19456,t=2,p=1$c2Fs dHNhbHQ$AAECAwQFBgcICQ",
        b"$argon2id$v=19$m=19456,t=2,p=1",
        b" $argon2id$v=19$m=19456,t=2,p=1$c2FsdHNhbHQ$AAECAwQFBgcICQ",
    ];
    for text in refused {
        assert_eq!(decode_hash(text), None);
    }
}

#[test]
fn push_decimal_appends_the_numeral() {
    let mut out = b"m=".to_vec();
    push_decimal(&mut out, 0);
    out.push(b',');
    push_decimal(&mut out, 7);
    out.push(b',');
    push_decimal(&mut out, 19456);
    out.push(b',');
    push_decimal(&mut out, u32::MAX);
    assert_eq!(out, b"m=0,7,19456,4294967295".to_vec());
}

#[test]
fn read_number_reads_the_longest_canonical_run() {
    assert_eq!(read_number(b"m=19456,t", 2), Some((19456, 7)));
    assert_eq!(read_number(b"0", 0), Some((0, 1)));
    assert_eq!(read_number(b"4294967295", 0), Some((u32::MAX, 10)));
    assert_eq!(read_number(b"4294967296", 0), None);
    assert_eq!(read_number(b"99999999999999999999999", 0), None);
    assert_eq!(read_number(b"00", 0), None);
    assert_eq!(read_number(b"012", 0), None);
    assert_eq!(read_number(b"x12", 0), None);
    assert_eq!(read_number(b"12", 2), None);
    assert_eq!(read_number(b"a12b", 1), Some((12, 3)));
}

#[test]
fn base64_alphabet_is_the_standard_one() {
    let mut count = 0;
    for b in 0u8..=255 {
        let expected = b.is_ascii_alphanumeric() || b == b'+' || b == b'/';
        assert_eq!(is_base64(b), expected);
        if expected {
            count += 1;
        }
    }
    assert_eq!(count, 64);
}

#[test]
fn password_hash_encodes_salt_and_digest_in_base64() {
    let hash = PasswordHash {
        params: Parameters { memory_cost: 64, time_cost: 3, parallelism: 2, output_length: 10 },
        salt: b"saltsalt".to_vec(),
        digest: vec![0, 1, 2, 3, 4, 5, 6, 7, 8, 9],
    };
    let text = hash.encode();
    assert_eq!(text, "$argon2id$v=19$m=64,t=3,p=2$c2FsdHNhbHQ$AAECAwQFBgcICQ");
    assert_eq!(PasswordHash::decode(&text), Some(hash));
}

#[test]
fn password_hash_decode_refuses_bad_fields() {
    // salt that is no canonical base64
    assert_eq!(PasswordHash::decode("$argon2id$v=19$m=64,t=3,p=2$c2FsdHNhbHR$AAECAwQFBgcICQ"), None);
    // a single base64 character cannot be decoded
    assert_eq!(PasswordHash::decode("$argon2id$v=19$m=64,t=3,p=2$c2FsdHNhbHQ$A"), None);
    // salt of 4 bytes
    assert_eq!(PasswordHash::decode("$argon2id$v=19$m=64,t=3,p=2$c2FsdA$AAECAwQFBgcICQ"), None);
    // digest of 9 bytes
    assert_eq!(PasswordHash::decode("$argon2id$v=19$m=64,t=3,p=2$c2FsdHNhbHQ$AAECAwQFBgcI"), None);
    // memory below 8 blocks per lane
    assert_eq!(PasswordHash::decode("$argon2id$v=19$m=15,t=3,p=2$c2FsdHNhbHQ$AAECAwQFBgcICQ"), None);
    // no pass
    assert_eq!(PasswordHash::decode("$argon2id$v=19$m=64,t=0,p=2$c2FsdHNhbHQ$AAECAwQFBgcICQ"), None);
    // no lane
    assert_eq!(PasswordHash::decode("$argon2id$v=19$m=64,t=3,p=0$c2FsdHNhbHQ$AAECAwQFBgcICQ"), None);
    // text that is not ASCII
    assert_eq!(PasswordHash::decode("$argon2id$v=19$m=64,t=3,p=2$c2FsdHNhbHQ$AAECAwQFBgcICQ\u{e9}"), None);
}

#[test]
fn well_formed_hash_has_matching_lengths() {
    let good = PasswordHash {
        params: Parameters { memory_cost: 64, time_cost: 3, parallelism: 2, output_length: 10 },
        salt: b"saltsalt".to_vec(),
        digest: vec![0; 10],
    };
    assert!(good.is_well_formed());
    assert!(!PasswordHash { digest: vec![0; 11], ..good.clone() }.is_well_formed());
    assert!(!PasswordHash { salt: b"salt".to_vec(), ..good.clone() }.is_well_formed());
    assert!(!PasswordHash { salt: vec![1; 49], ..good.clone() }.is_well_formed());
    let starved = Parameters { memory_cost: 8, time_cost: 3, parallelism: 2, output_length: 10 };
    assert!(!PasswordHash { params: starved, ..good }.is_well_formed());
}
