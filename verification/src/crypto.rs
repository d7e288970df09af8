//! Password hashing and one-time codes. The hashing primitives are outside
//! calls with named results; the code formatting around them is verified.
use vstd::prelude::*;
use vstd::string::StringExecFns;
use vstd::string::StringSliceAdditionalSpecFns;

verus! {

/// The PHC hash string that Argon2 with its default parameters derives
/// from a password and a salt: a function of the two arguments alone.
pub uninterp spec fn hash_of(pw: Seq<char>, salt: Seq<char>) -> Seq<char>;

/// The salt strings under which Argon2's default hashing succeeds: within
/// the PHC salt length bounds and character set, strictly B64-decodable,
/// and at least eight bytes once decoded. The condition spans two layers
/// of validation, so it is named rather than written out; a function of
/// the salt alone.
pub uninterp spec fn hashable_salt(salt: Seq<char>) -> bool;

/// Whether Argon2 verification accepts this password against this PHC hash
/// string: a function of the two arguments alone.
pub uninterp spec fn verifies(pw: Seq<char>, hash: Seq<char>) -> bool;

/// Relies on argon2::Argon2::hash_password (default parameters) and
/// password_hash::SaltString::from_b64: the derived PHC string depends on
/// the password and the salt alone. It comes back exactly when the salt
/// is one hashing accepts and the password is at most 2^32 - 1 bytes (the
/// one password-side input check).
#[verifier::external_body]
pub fn get_password_hash(pw: &str, salt: &str) -> (r: Option<String>)
    ensures
        r is Some ==> r.unwrap()@ == hash_of(pw@, salt@),
        r is Some ==> hashable_salt(salt@),
        hashable_salt(salt@) && pw.spec_bytes().len() <= 0xFFFFFFFF ==> r is Some,
{
    let saltstr = match argon2::password_hash::SaltString::from_b64(salt) {
        Ok(s) => s,
        Err(_) => {
            return None;
        },
    };
    match argon2::password_hash::PasswordHasher::hash_password(
        &argon2::Argon2::default(),
        pw.as_bytes(),
        saltstr.as_salt(),
    ) {
        Ok(h) => Some(h.serialize().as_str().to_string()),
        Err(_) => None,
    }
}

/// Relies on password_hash::PasswordHash::new and
/// argon2::Argon2::verify_password: whether the password matches the PHC
/// hash string depends on the two arguments alone; a malformed hash string
/// matches nothing.
#[verifier::external_body]
pub fn verify_password(pw: &str, pw_hash: &str) -> (r: bool)
    ensures
        r == verifies(pw@, pw_hash@),
{
    match argon2::password_hash::PasswordHash::new(pw_hash) {
        Ok(parsed) => argon2::password_hash::PasswordVerifier::verify_password(
            &argon2::Argon2::default(),
            pw.as_bytes(),
            &parsed,
        ).is_ok(),
        Err(_) => false,
    }
}

/// Relies on password_hash::SaltString::generate over the operating
/// system's randomness: sixteen random bytes in B64 form. Its value
/// depends on chance; what holds of every outcome is that hashing accepts
/// it — twenty-two strict-B64 characters decoding to sixteen bytes.
#[verifier::external_body]
pub fn get_new_salt() -> (r: String)
    ensures
        hashable_salt(r@),
{
    argon2::password_hash::SaltString::generate(
        &mut argon2::password_hash::rand_core::OsRng,
    ).as_str().to_string()
}

/// Relies on rand::Rng::gen_range on the thread-local generator: a number
/// drawn from the given nine-digit range. Its value depends on chance, so
/// only the bounds are assumed.
#[verifier::external_body]
fn random_nine_digit() -> (r: u64)
    ensures
        100000000 <= r < 1000000000,
{
    rand::Rng::gen_range(&mut rand::thread_rng(), 100000000..999999999)
}

pub open spec fn pow10(k: nat) -> nat
    decreases k,
{
    if k == 0 {
        1
    } else {
        10 * pow10((k - 1) as nat)
    }
}

/// The character of one decimal digit.
pub open spec fn digit_char(d: nat) -> char {
    if d == 0 {
        '0'
    } else if d == 1 {
        '1'
    } else if d == 2 {
        '2'
    } else if d == 3 {
        '3'
    } else if d == 4 {
        '4'
    } else if d == 5 {
        '5'
    } else if d == 6 {
        '6'
    } else if d == 7 {
        '7'
    } else if d == 8 {
        '8'
    } else {
        '9'
    }
}

/// The nine decimal digits of `n`, most significant first; the leading
/// digit is nonzero, since `n` has nine digits.
pub fn nine_digit_code(n: u64) -> (r: String)
    requires
        100000000 <= n < 1000000000,
    ensures
        r@.len() == 9,
        forall|i: int|
            0 <= i < 9 ==> r@[i] == digit_char(
                ((n as nat) / pow10((8 - i) as nat)) % 10,
            ),
        '1' <= r@[0] <= '9',
{
    let mut s = String::new();
    let mut div: u64 = 100000000;
    proof {
        reveal_with_fuel(pow10, 10);
        assert(pow10(8) == 100000000);
        assert(1 <= (n as nat) / pow10(8) % 10 <= 9) by {
            assert(1 <= (n as nat) / 100000000 <= 9);
        }
    }
    let mut i: usize = 0;
    while i < 9
        invariant
            100000000 <= n < 1000000000,
            0 <= i <= 9,
            i < 9 ==> div as nat == pow10((8 - i) as nat),
            s@.len() == i,
            forall|j: int|
                0 <= j < i ==> s@[j] == digit_char(((n as nat) / pow10((8 - j) as nat)) % 10),
        decreases 9 - i,
    {
        proof {
            assert(pow10((8 - i) as nat) > 0) by {
                lemma_pow10_pos((8 - i) as nat);
            }
        }
        let d = (n / div) % 10;
        let ghost s0 = s@;
        match d {
            0 => {
                s.append("0");
                proof {
                    reveal_strlit("0");
                }
            },
            1 => {
                s.append("1");
                proof {
                    reveal_strlit("1");
                }
            },
            2 => {
                s.append("2");
                proof {
                    reveal_strlit("2");
                }
            },
            3 => {
                s.append("3");
                proof {
                    reveal_strlit("3");
                }
            },
            4 => {
                s.append("4");
                proof {
                    reveal_strlit("4");
                }
            },
            5 => {
                s.append("5");
                proof {
                    reveal_strlit("5");
                }
            },
            6 => {
                s.append("6");
                proof {
                    reveal_strlit("6");
                }
            },
            7 => {
                s.append("7");
                proof {
                    reveal_strlit("7");
                }
            },
            _ => {
                if d == 8 {
                    s.append("8");
                    proof {
                        reveal_strlit("8");
                    }
                } else {
                    s.append("9");
                    proof {
                        reveal_strlit("9");
                    }
                }
            },
        }
        proof {
            assert(s@ =~= s0.push(digit_char(d as nat)));
        }
        if i < 8 {
            proof {
                assert(pow10((8 - i) as nat) == 10 * pow10((7 - i) as nat));
            }
            div = div / 10;
        }
        i += 1;
    }
    s
}

proof fn lemma_pow10_pos(k: nat)
    ensures
        pow10(k) >= 1,
    decreases k,
{
    if k > 0 {
        lemma_pow10_pos((k - 1) as nat);
    }
}

/// A fresh one-time password: nine decimal digits, the first nonzero,
/// drawn from chance.
pub fn get_otp_code() -> (r: String)
    ensures
        r@.len() == 9,
        forall|i: int| 0 <= i < 9 ==> '0' <= #[trigger] r@[i] <= '9',
        '1' <= r@[0] <= '9',
{
    let n = random_nine_digit();
    let r = nine_digit_code(n);
    proof {
        assert forall|i: int| 0 <= i < 9 implies '0' <= #[trigger] r@[i] <= '9' by {
            assert(r@[i] == digit_char(((n as nat) / pow10((8 - i) as nat)) % 10));
        }
    }
    r
}

} // verus!
