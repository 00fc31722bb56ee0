use vstd::prelude::*;
use vstd::slice::slice_subrange;
use vstd::string::StringSliceAdditionalSpecFns;
use base64::Engine;
use sha2::Digest;
use russh_keys::PublicKeyBase64;

verus! {

/// The result of `base64`'s standard engine decoding `text` (with padding),
/// or `None` where `text` is not valid base64.
pub uninterp spec fn base64_decoded(text: Seq<u8>) -> Option<Seq<u8>>;

/// The SHA-256 digest of `data`.
pub uninterp spec fn sha256_of(data: Seq<u8>) -> Seq<u8>;

/// `data` in base64 without padding.
pub uninterp spec fn base64_unpadded(data: Seq<u8>) -> Seq<char>;

/// The key blob, as `russh_keys` writes it, of the public key that
/// `russh_keys` reads from the wire-format blob `blob`; `None` where it
/// reads none.
pub uninterp spec fn reencoded_key_blob(blob: Seq<u8>) -> Option<Seq<u8>>;

/// Relies on `base64::engine::general_purpose::STANDARD.decode`: the bytes
/// that `text` encodes, or an error where it is not valid base64.
#[verifier::external_body]
fn decode_base64(text: &[u8]) -> (r: Option<Vec<u8>>)
    ensures
        match r {
            Some(v) => base64_decoded(text@) == Some(v@),
            None => base64_decoded(text@) is None,
        },
{
    base64::engine::general_purpose::STANDARD.decode(text).ok()
}

/// Relies on `sha2::Sha256::digest`: the 32-byte SHA-256 digest of `data`.
#[verifier::external_body]
fn sha256(data: &[u8]) -> (r: Vec<u8>)
    ensures
        r@ == sha256_of(data@),
        r@.len() == 32,
{
    sha2::Sha256::digest(data).to_vec()
}

/// Relies on `base64::engine::general_purpose::STANDARD_NO_PAD.encode`:
/// base64 text of `data` without padding.
#[verifier::external_body]
fn encode_base64_unpadded(data: &[u8]) -> (r: String)
    ensures
        r@ == base64_unpadded(data@),
{
    base64::engine::general_purpose::STANDARD_NO_PAD.encode(data)
}

/// Relies on `russh_keys::key::parse_public_key` to read a public key from
/// its wire-format blob, and on `PublicKeyBase64::public_key_bytes` to
/// write that key's blob back out; `None` where the blob is not a key.
#[verifier::external_body]
fn reencode_key_blob(blob: &[u8]) -> (r: Option<Vec<u8>>)
    ensures
        match r {
            Some(v) => reencoded_key_blob(blob@) == Some(v@),
            None => reencoded_key_blob(blob@) is None,
        },
{
    match russh_keys::key::parse_public_key(blob, None) {
        Ok(key) => Some(key.public_key_bytes()),
        Err(_) => None,
    }
}

/// Why an authorized-key entry could not be turned into a key.
#[derive(Debug, Clone, Copy, PartialEq, Eq, Structural)]
pub enum KeyError {
    InvalidBase64,
    UnsupportedKeyType,
    InvalidKey,
}

/// The fingerprint of a key blob: its SHA-256 digest in unpadded base64.
pub open spec fn fingerprint(blob: Seq<u8>) -> Seq<char> {
    base64_unpadded(sha256_of(blob))
}

/// The key types accepted in an authorized-keys entry.
pub open spec fn supported_key_type(t: Seq<u8>) -> bool {
    t == "ssh-rsa".spec_bytes() || t == "ssh-ed25519".spec_bytes() || t == "ecdsa-sha2-nistp256".spec_bytes()
}

/// The blob of the key that an entry of type `key_type` with base64 data
/// `key_data` names.
pub open spec fn decoded_key(key_type: Seq<u8>, key_data: Seq<u8>) -> Result<Seq<u8>, KeyError> {
    match base64_decoded(key_data) {
        None => Err(KeyError::InvalidBase64),
        Some(raw) => if !supported_key_type(key_type) {
            Err(KeyError::UnsupportedKeyType)
        } else {
            match reencoded_key_blob(raw) {
                Some(k) => Ok(k),
                None => Err(KeyError::InvalidKey),
            }
        },
    }
}

/// The one user and password that password authentication accepts.
pub open spec fn password_accepted(username: Seq<char>, password: Seq<char>) -> bool {
    username == "demo"@ && password == "demo123"@
}

/// Whitespace that separates the fields of an authorized-keys line.
pub open spec fn is_space(b: u8) -> bool {
    b == 32 || (9 <= b && b <= 13)
}

/// The first position at or after `i` that does not hold whitespace.
pub open spec fn skip_space(s: Seq<u8>, i: int) -> int
    decreases s.len() - i,
{
    if 0 <= i < s.len() && is_space(s[i]) {
        skip_space(s, i + 1)
    } else {
        i
    }
}

/// The first position at or after `i` that holds whitespace, or the end.
pub open spec fn skip_word(s: Seq<u8>, i: int) -> int
    decreases s.len() - i,
{
    if 0 <= i < s.len() && !is_space(s[i]) {
        skip_word(s, i + 1)
    } else {
        i
    }
}

/// The first two fields of an authorized-keys line (key type and base64
/// key data), or `None` for a blank line, a comment, or a line with fewer
/// than two fields.
pub open spec fn key_entry(line: Seq<u8>) -> Option<(Seq<u8>, Seq<u8>)> {
    let a = skip_space(line, 0);
    let b = skip_word(line, a);
    let c = skip_space(line, b);
    let d = skip_word(line, c);
    if a >= line.len() || line[a] == 35 || c >= line.len() {
        None
    } else {
        Some((line.subrange(a, b), line.subrange(c, d)))
    }
}

/// Whether an authorized-keys line names the key with blob `offered`.
pub open spec fn line_authorizes(line: Seq<u8>, offered: Seq<u8>) -> bool {
    match key_entry(line) {
        Some((t, d)) => match decoded_key(t, d) {
            Ok(k) => fingerprint(k) == fingerprint(offered),
            Err(_) => false,
        },
        None => false,
    }
}

/// The position of the first newline at or after `i`, or the end.
pub open spec fn line_end(s: Seq<u8>, i: int) -> int
    decreases s.len() - i,
{
    if 0 <= i < s.len() && s[i] != 10 {
        line_end(s, i + 1)
    } else {
        i
    }
}

/// Whether a line of `s` that starts at `a` or later authorizes `offered`.
pub open spec fn authorized_from(s: Seq<u8>, a: int, offered: Seq<u8>) -> bool
    decreases s.len() - a,
{
    if a < 0 || a > s.len() {
        false
    } else {
        let e = line_end(s, a);
        if line_authorizes(s.subrange(a, e), offered) {
            true
        } else if a <= e && e < s.len() {
            authorized_from(s, e + 1, offered)
        } else {
            false
        }
    }
}

proof fn lemma_skip_space_bounds(s: Seq<u8>, i: int)
    requires
        0 <= i <= s.len(),
    ensures
        i <= skip_space(s, i) <= s.len(),
    decreases s.len() - i,
{
    if i < s.len() && is_space(s[i]) {
        lemma_skip_space_bounds(s, i + 1);
    }
}

proof fn lemma_skip_word_bounds(s: Seq<u8>, i: int)
    requires
        0 <= i <= s.len(),
    ensures
        i <= skip_word(s, i) <= s.len(),
    decreases s.len() - i,
{
    if i < s.len() && !is_space(s[i]) {
        lemma_skip_word_bounds(s, i + 1);
    }
}

proof fn lemma_line_end_bounds(s: Seq<u8>, i: int)
    requires
        0 <= i <= s.len(),
    ensures
        i <= line_end(s, i) <= s.len(),
    decreases s.len() - i,
{
    if i < s.len() && s[i] != 10 {
        lemma_line_end_bounds(s, i + 1);
    }
}

fn exec_is_space(b: u8) -> (r: bool)
    ensures
        r == is_space(b),
{
    b == 32 || (9 <= b && b <= 13)
}

fn exec_skip_space(s: &[u8], i: usize) -> (r: usize)
    requires
        i <= s@.len(),
    ensures
        r == skip_space(s@, i as int),
{
    let mut j = i;
    while j < s.len() && exec_is_space(s[j])
        invariant
            i <= j <= s@.len(),
            skip_space(s@, j as int) == skip_space(s@, i as int),
        decreases s@.len() - j,
    {
        j = j + 1;
    }
    j
}

fn exec_skip_word(s: &[u8], i: usize) -> (r: usize)
    requires
        i <= s@.len(),
    ensures
        r == skip_word(s@, i as int),
{
    let mut j = i;
    while j < s.len() && !exec_is_space(s[j])
        invariant
            i <= j <= s@.len(),
            skip_word(s@, j as int) == skip_word(s@, i as int),
        decreases s@.len() - j,
    {
        j = j + 1;
    }
    j
}

fn exec_line_end(s: &[u8], i: usize) -> (r: usize)
    requires
        i <= s@.len(),
    ensures
        r == line_end(s@, i as int),
{
    let mut j = i;
    while j < s.len() && s[j] != 10
        invariant
            i <= j <= s@.len(),
            line_end(s@, j as int) == line_end(s@, i as int),
        decreases s@.len() - j,
    {
        j = j + 1;
    }
    j
}

/// The bytes of `s` from `a` up to `b`.
fn copy_range(s: &[u8], a: usize, b: usize) -> (r: Vec<u8>)
    requires
        a <= b <= s@.len(),
    ensures
        r@ == s@.subrange(a as int, b as int),
{
    let mut r: Vec<u8> = Vec::new();
    let mut i = a;
    while i < b
        invariant
            a <= i <= b,
            b <= s@.len(),
            r@ == s@.subrange(a as int, i as int),
        decreases b - i,
    {
        r.push(s[i]);
        assert(s@.subrange(a as int, i + 1) =~= s@.subrange(a as int, i as int).push(s@[i as int]));
        i = i + 1;
    }
    r
}

/// Whether `a` and `b` hold the same bytes.
fn bytes_equal(a: &[u8], b: &[u8]) -> (r: bool)
    ensures
        r == (a@ == b@),
{
    if a.len() != b.len() {
        return false;
    }
    let mut i: usize = 0;
    while i < a.len()
        invariant
            a@.len() == b@.len(),
            i <= a@.len(),
            forall|j: int| 0 <= j < i ==> a@[j] == b@[j],
        decreases a@.len() - i,
    {
        if a[i] != b[i] {
            return false;
        }
        i = i + 1;
    }
    assert(a@ =~= b@);
    true
}

/// Password authentication: only the demonstration account is accepted.
pub fn authenticate_password(username: &String, password: &String) -> (r: bool)
    ensures
        r == password_accepted(username@, password@),
{
    let user = "demo".to_owned();
    let pass = "demo123".to_owned();
    *username == user && *password == pass
}

/// The key type and key data of an authorized-keys line.
pub fn authorized_key_entry(line: &[u8]) -> (r: Option<(Vec<u8>, Vec<u8>)>)
    ensures
        match r {
            Some((t, d)) => key_entry(line@) == Some((t@, d@)),
            None => key_entry(line@) is None,
        },
{
    let a = exec_skip_space(line, 0);
    proof {
        lemma_skip_space_bounds(line@, 0);
    }
    let b = exec_skip_word(line, a);
    proof {
        lemma_skip_word_bounds(line@, a as int);
    }
    let c = exec_skip_space(line, b);
    proof {
        lemma_skip_space_bounds(line@, b as int);
    }
    let d = exec_skip_word(line, c);
    proof {
        lemma_skip_word_bounds(line@, c as int);
    }
    if a >= line.len() || line[a] == 35 || c >= line.len() {
        return None;
    }
    let t = copy_range(line, a, b);
    let v = copy_range(line, c, d);
    Some((t, v))
}

/// Whether `key_type` is one of the accepted key types.
pub fn is_supported_key_type(key_type: &[u8]) -> (r: bool)
    ensures
        r == supported_key_type(key_type@),
{
    bytes_equal(key_type, "ssh-rsa".as_bytes()) || bytes_equal(key_type, "ssh-ed25519".as_bytes())
        || bytes_equal(key_type, "ecdsa-sha2-nistp256".as_bytes())
}

/// The key blob that an authorized-keys entry names.
pub fn decode_public_key(key_type: &[u8], key_data: &[u8]) -> (r: Result<Vec<u8>, KeyError>)
    ensures
        match r {
            Ok(k) => decoded_key(key_type@, key_data@) == Ok::<Seq<u8>, KeyError>(k@),
            Err(e) => decoded_key(key_type@, key_data@) == Err::<Seq<u8>, KeyError>(e),
        },
{
    let raw = match decode_base64(key_data) {
        Some(raw) => raw,
        None => {
            return Err(KeyError::InvalidBase64);
        },
    };
    if !is_supported_key_type(key_type) {
        return Err(KeyError::UnsupportedKeyType);
    }
    match reencode_key_blob(raw.as_slice()) {
        Some(k) => Ok(k),
        None => Err(KeyError::InvalidKey),
    }
}

/// The fingerprint of a key blob.
pub fn key_fingerprint(blob: &[u8]) -> (r: String)
    ensures
        r@ == fingerprint(blob@),
{
    let digest = sha256(blob);
    encode_base64_unpadded(digest.as_slice())
}

/// Whether two key blobs have the same fingerprint.
pub fn keys_equal(a: &[u8], b: &[u8]) -> (r: bool)
    ensures
        r == (fingerprint(a@) == fingerprint(b@)),
{
    let fa = key_fingerprint(a);
    let fb = key_fingerprint(b);
    fa == fb
}

/// Whether one line of the authorized-keys text `authorized` names the key
/// with blob `offered`. Lines end at a newline; blank lines, comments and
/// malformed entries name no key.
pub fn authenticate_public_key(offered: &[u8], authorized: &[u8]) -> (r: bool)
    ensures
        r == authorized_from(authorized@, 0, offered@),
{
    let mut a: usize = 0;
    loop
        invariant
            a <= authorized@.len(),
            authorized_from(authorized@, a as int, offered@) == authorized_from(authorized@, 0, offered@),
        decreases authorized@.len() - a,
    {
        let e = exec_line_end(authorized, a);
        proof {
            lemma_line_end_bounds(authorized@, a as int);
        }
        let line = slice_subrange(authorized, a, e);
        let found = match authorized_key_entry(line) {
            Some((t, d)) => match decode_public_key(t.as_slice(), d.as_slice()) {
                Ok(k) => keys_equal(k.as_slice(), offered),
                Err(_) => false,
            },
            None => false,
        };
        if found {
            return true;
        }
        if e >= authorized.len() {
            return false;
        }
        a = e + 1;
    }
}

/// The credential check: a public key is looked up in the user's
/// authorized-keys text (absent where the user has none), otherwise a
/// password is checked; with neither nothing is accepted.
pub fn authenticate_user(
    username: &String,
    public_key: Option<&[u8]>,
    password: Option<&String>,
    authorized_keys: Option<&[u8]>,
) -> (r: bool)
    ensures
        r == match public_key {
            Some(k) => match authorized_keys {
                Some(text) => authorized_from(text@, 0, k@),
                None => false,
            },
            None => match password {
                Some(p) => password_accepted(username@, p@),
                None => false,
            },
        },
{
    match public_key {
        Some(k) => match authorized_keys {
            Some(text) => authenticate_public_key(k, text),
            None => false,
        },
        None => match password {
            Some(p) => authenticate_password(username, p),
            None => false,
        },
    }
}

} // verus!
