//! Password hashing with Argon2id: parameter resolution, the PHC text form of
//! a hash, hash creation and verification.

pub mod decimal;
pub mod hashing;
pub mod params;
pub mod phc;
pub mod primitives;

pub use hashing::{
    constant_time_eq, create, create_password_argon2, finish_hash, judge_digest,
    verify_password_argon2, HashError, PasswordHash, VerifyError,
};
pub use params::{resolve_parameters, ParameterError, Parameters};
pub use phc::{decode_hash, encode_hash, PhcFields};
