//! The account-check logic of the authentication service: the salted
//! challenge hash both sides compute, and the decision taken over a fetched
//! account row.  Only the digest itself comes from outside; everything
//! around it is verified.

use crate::edges::{chars_equal, chars_of, string_of_chars};
use vstd::prelude::*;
use vstd::string::StringExecFns;

verus! {

/// What the sha1 crate returns for a string's bytes.  The digest is a pure
/// function of the characters, so it gets a name and nothing more.
pub uninterp spec fn sha1_of_str(s: Seq<char>) -> Seq<u8>;

/// Relies on the sha1 crate's `Sha1` through the `Digest` trait: hashes the
/// string's bytes into a 20-byte digest, a function of the input alone.
#[verifier::external_body]
fn sha1_digest(data: &str) -> (r: [u8; 20])
    ensures
        r@ == sha1_of_str(data@),
{
    let mut h = <sha1::Sha1 as sha1::Digest>::new();
    sha1::Digest::update(&mut h, data.as_bytes());
    let out = sha1::Digest::finalize(h);
    out.as_slice().try_into().unwrap()
}

/// A 20-byte digest.
pub struct Sha1Digest {
    pub bytes: [u8; 20],
}

impl Sha1Digest {
    pub fn new(bytes: [u8; 20]) -> (r: Self)
        ensures
            r.bytes == bytes,
    {
        Self { bytes }
    }
}

/// The decimal digit character of a value below ten.
pub open spec fn decimal_char(d: int) -> char {
    ((48 + d) as u8) as char
}

/// The decimal digits of a nonnegative number, most significant first.
pub open spec fn decimal_digits(n: int) -> Seq<char>
    decreases n,
{
    if n <= 9 {
        seq![decimal_char(n)]
    } else {
        decimal_digits(n / 10).push(decimal_char(n % 10))
    }
}

/// Formats a number in decimal.
pub fn to_decimal(n: u16) -> (r: String)
    ensures
        r@ == decimal_digits(n as int),
{
    let mut digits: Vec<char> = Vec::new();
    let mut m: u16 = n;
    loop
        invariant_except_break
            decimal_digits(n as int) == decimal_digits(m as int) + digits@,
        ensures
            decimal_digits(n as int) == decimal_digits(m as int) + digits@,
            m <= 9,
        decreases m,
    {
        if m <= 9 {
            break ;
        }
        let ghost pre_digits = digits@;
        let d: u16 = m % 10;
        let c: char = ((48 + d) as u8) as char;
        digits.insert(0, c);
        proof {
            assert(c == decimal_char(m as int % 10));
            assert(digits@ =~= seq![decimal_char(m as int % 10)] + pre_digits);
            assert(decimal_digits(m as int) == decimal_digits(m as int / 10).push(
                decimal_char(m as int % 10),
            ));
            assert(decimal_digits(m as int / 10).push(decimal_char(m as int % 10)) + pre_digits
                =~= decimal_digits(m as int / 10) + (seq![decimal_char(m as int % 10)]
                + pre_digits));
        }
        m = m / 10;
    }
    let c: char = ((48 + m) as u8) as char;
    let mut out: Vec<char> = Vec::new();
    out.push(c);
    let mut i: usize = 0;
    let k = digits.len();
    while i < k
        invariant
            i <= k,
            k == digits@.len(),
            out@ == seq![decimal_char(m as int)] + digits@.take(i as int),
        decreases k - i,
    {
        out.push(digits[i]);
        proof {
            assert(out@ =~= seq![decimal_char(m as int)] + digits@.take(i + 1));
        }
        i = i + 1;
    }
    proof {
        assert(out@ =~= seq![decimal_char(m as int)] + digits@);
        assert(decimal_digits(m as int) == seq![decimal_char(m as int)]);
    }
    string_of_chars(&out)
}

/// The string both sides feed to the digest: the two salts, the account's
/// stored password, the protocol number in decimal, and a fixed suffix.
pub open spec fn hash_input(
    protocol_number: u16,
    web_password: Seq<char>,
    salt1: Seq<char>,
    salt2: Seq<char>,
) -> Seq<char> {
    salt1 + salt2 + web_password + decimal_digits(protocol_number as int) + "!hedgewars"@
}

/// Computes the salted challenge digest of an account password.
pub fn get_hash(protocol_number: u16, web_password: &str, salt1: &str, salt2: &str) -> (r:
    Sha1Digest)
    ensures
        r.bytes@ == sha1_of_str(hash_input(protocol_number, web_password@, salt1@, salt2@)),
{
    let mut data = salt1.to_owned();
    data.append(salt2);
    data.append(web_password);
    let dec = to_decimal(protocol_number);
    data.append(dec.as_str());
    data.append("!hedgewars");
    Sha1Digest::new(sha1_digest(data.as_str()))
}

/// The lowercase hexadecimal character of a value below sixteen.
pub open spec fn hex_char(d: int) -> char {
    if d < 10 {
        ((48 + d) as u8) as char
    } else {
        ((87 + d) as u8) as char
    }
}

/// The lowercase hexadecimal rendering of a byte string, two characters per
/// byte.
pub open spec fn hex_of(s: Seq<u8>) -> Seq<char>
    decreases s.len(),
{
    if s.len() == 0 {
        Seq::empty()
    } else {
        hex_of(s.drop_last()) + seq![
            hex_char(s.last() as int / 16),
            hex_char(s.last() as int % 16),
        ]
    }
}

/// Renders a digest as lowercase hexadecimal.
pub fn digest_hex(d: &Sha1Digest) -> (r: String)
    ensures
        r@ == hex_of(d.bytes@),
{
    let mut out: Vec<char> = Vec::new();
    let mut i: usize = 0;
    while i < 20
        invariant
            i <= 20,
            d.bytes@.len() == 20,
            out@ == hex_of(d.bytes@.take(i as int)),
        decreases 20 - i,
    {
        let b = d.bytes[i];
        let hi: u8 = b / 16;
        let lo: u8 = b % 16;
        let hc: char = if hi < 10 {
            ((48 + hi) as u8) as char
        } else {
            ((87 + hi) as u8) as char
        };
        let lc: char = if lo < 10 {
            ((48 + lo) as u8) as char
        } else {
            ((87 + lo) as u8) as char
        };
        out.push(hc);
        out.push(lc);
        proof {
            assert(d.bytes@.take(i + 1).drop_last() =~= d.bytes@.take(i as int));
            assert(d.bytes@.take(i + 1).last() == d.bytes@[i as int]);
            assert(out@ =~= hex_of(d.bytes@.take(i as int)) + seq![
                hex_char(d.bytes@[i as int] as int / 16),
                hex_char(d.bytes@[i as int] as int % 16),
            ]);
        }
        i = i + 1;
    }
    proof {
        assert(d.bytes@.take(20) =~= d.bytes@);
    }
    string_of_chars(&out)
}

/// What a fetched account row decides about a client.
pub struct AccountInfo {
    pub is_registered: bool,
    pub is_admin: bool,
    pub is_contributor: bool,
    pub server_hash: Sha1Digest,
}

/// The decision over a fetched account row: the client is accepted exactly
/// when the hash it presented is the lowercase-hexadecimal challenge digest
/// of the stored password under the client-first salt order; the accepted
/// client gets back the server's own digest, salted the opposite way.
pub fn check_account(
    stored_password: &str,
    is_admin_count: i32,
    is_contributor_count: i32,
    protocol_number: u16,
    password_hash: &str,
    client_salt: &str,
    server_salt: &str,
) -> (r: Option<AccountInfo>)
    ensures
        r is Some <==> password_hash@ == hex_of(
            sha1_of_str(
                hash_input(protocol_number, stored_password@, client_salt@, server_salt@),
            ),
        ),
        r matches Some(a) ==> {
            &&& a.is_registered
            &&& a.is_admin == (is_admin_count == 1)
            &&& a.is_contributor == (is_contributor_count == 1)
            &&& a.server_hash.bytes@ == sha1_of_str(
                hash_input(protocol_number, stored_password@, server_salt@, client_salt@),
            )
        },
{
    let client_hash = get_hash(protocol_number, stored_password, client_salt, server_salt);
    let server_hash = get_hash(protocol_number, stored_password, server_salt, client_salt);
    let client_hex = digest_hex(&client_hash);
    let a = chars_of(client_hex.as_str());
    let b = chars_of(password_hash);
    if chars_equal(&a, &b) {
        Some(
            AccountInfo {
                is_registered: true,
                is_admin: is_admin_count == 1,
                is_contributor: is_contributor_count == 1,
                server_hash,
            },
        )
    } else {
        None
    }
}

} // verus!
