//! The aibang field cipher: an RC4 stream keyed by the lowercase hex MD5
//! digest of the text `"aibang"` followed by a per-document key, applied to
//! base64-decoded field values.
use crypto::digest::Digest;
use crypto::md5::Md5;
use rustc_serialize::base64::FromBase64;
use vstd::prelude::*;
use vstd::string::StringExecFns;
use vstd::utf8::{decode_utf8, encode_utf8, valid_utf8};

use crate::text::{decimal, usize_to_decimal};

verus! {

// ---------------------------------------------------------------------------
// The RC4 model
// ---------------------------------------------------------------------------

/// `t` with the entries at `a` and `b` exchanged.
pub open spec fn swap_entries(t: Seq<u8>, a: int, b: int) -> Seq<u8> {
    t.update(a, t[b]).update(b, t[a])
}

/// The table `0, 1, ..., 255` that the key schedule starts from.
pub open spec fn identity_table() -> Seq<u8> {
    Seq::new(256, |i: int| i as u8)
}

/// A table of 256 pairwise distinct bytes: a permutation of `0..=255`.
pub open spec fn is_permutation(t: Seq<u8>) -> bool {
    &&& t.len() == 256
    &&& forall|a: int, b: int| 0 <= a < b < 256 ==> t[a] != t[b]
}

/// The table and the running index `k` after the first `n` rounds of the
/// key schedule driven by `key`; round `i` mixes in `key[i % key.len()]`.
pub open spec fn ksa_state(key: Seq<u8>, n: nat) -> (Seq<u8>, nat)
    decreases n,
{
    if n == 0 {
        (identity_table(), 0)
    } else {
        let (t, k) = ksa_state(key, (n - 1) as nat);
        let i = n - 1;
        let k2 = ((key[i % (key.len() as int)] + t[i] + k) % 256) as nat;
        (swap_entries(t, i, k2 as int), k2)
    }
}

/// The translation table that the key schedule derives from `key`.
pub open spec fn key_schedule_table(key: Seq<u8>) -> Seq<u8> {
    ksa_state(key, 256).0
}

/// The table and the indices `j`, `k` after `n` steps of the keystream
/// generator started on `t0`.
pub open spec fn prga_state(t0: Seq<u8>, n: nat) -> (Seq<u8>, nat, nat)
    decreases n,
{
    if n == 0 {
        (t0, 0, 0)
    } else {
        let (t, j, k) = prga_state(t0, (n - 1) as nat);
        let k2 = (k + 1) % 256;
        let j2 = ((j + t[k2 as int]) % 256) as nat;
        (swap_entries(t, j2 as int, k2 as int), j2, k2)
    }
}

/// The keystream byte that is combined with input byte `i`.
pub open spec fn keystream_byte(t0: Seq<u8>, i: nat) -> u8 {
    let (t, j, k) = prga_state(t0, i + 1);
    t[((t[k as int] + t[j as int]) % 256) as int]
}

/// `data` combined byte by byte, by exclusive or, with the keystream of `t0`.
pub open spec fn rc4_apply(t0: Seq<u8>, data: Seq<u8>) -> Seq<u8> {
    Seq::new(data.len(), |i: int| data[i] ^ keystream_byte(t0, i as nat))
}

// ---------------------------------------------------------------------------
// Facts about the model
// ---------------------------------------------------------------------------

proof fn lemma_identity_is_permutation()
    ensures
        is_permutation(identity_table()),
{
    assert forall|a: int, b: int| 0 <= a < b < 256 implies identity_table()[a]
        != identity_table()[b] by {
        let x = a as u8;
        let y = b as u8;
        assert(x as int == a);
        assert(y as int == b);
    }
}

proof fn lemma_swap_keeps_permutation(t: Seq<u8>, a: int, b: int)
    requires
        is_permutation(t),
        0 <= a < 256,
        0 <= b < 256,
    ensures
        is_permutation(swap_entries(t, a, b)),
{
    let s = swap_entries(t, a, b);
    assert forall|x: int, y: int| 0 <= x < y < 256 implies s[x] != s[y] by {
        let ox = if x == b { a } else if x == a { b } else { x };
        let oy = if y == b { a } else if y == a { b } else { y };
        assert(s[x] == t[ox]);
        assert(s[y] == t[oy]);
        assert(ox != oy);
        if ox < oy {
            assert(t[ox] != t[oy]);
        } else {
            assert(t[oy] != t[ox]);
        }
    }
}

/// Every state of the key schedule holds a permutation and an index below 256.
proof fn lemma_ksa_state_shape(key: Seq<u8>, n: nat)
    requires
        key.len() > 0,
        n <= 256,
    ensures
        is_permutation(ksa_state(key, n).0),
        ksa_state(key, n).1 < 256,
    decreases n,
{
    if n == 0 {
        lemma_identity_is_permutation();
    } else {
        lemma_ksa_state_shape(key, (n - 1) as nat);
        let (t, k) = ksa_state(key, (n - 1) as nat);
        let i = n - 1;
        let k2 = ((key[i % (key.len() as int)] + t[i] + k) % 256) as nat;
        lemma_swap_keeps_permutation(t, i, k2 as int);
    }
}

/// Every state of the keystream generator keeps the table's length and
/// indices below 256.
proof fn lemma_prga_state_shape(t0: Seq<u8>, n: nat)
    requires
        t0.len() == 256,
    ensures
        prga_state(t0, n).0.len() == 256,
        prga_state(t0, n).1 < 256,
        prga_state(t0, n).2 < 256,
    decreases n,
{
    if n > 0 {
        lemma_prga_state_shape(t0, (n - 1) as nat);
    }
}

/// The keystream generator keeps a permutation a permutation.
pub proof fn lemma_prga_keeps_permutation(t0: Seq<u8>, n: nat)
    requires
        is_permutation(t0),
    ensures
        is_permutation(prga_state(t0, n).0),
    decreases n,
{
    if n > 0 {
        lemma_prga_keeps_permutation(t0, (n - 1) as nat);
        lemma_prga_state_shape(t0, (n - 1) as nat);
        let (t, j, k) = prga_state(t0, (n - 1) as nat);
        let k2 = (k + 1) % 256;
        let j2 = ((j + t[k2 as int]) % 256) as nat;
        lemma_swap_keeps_permutation(t, j2 as int, k2 as int);
    }
}

/// Translating twice with one table gives the input back: the cipher
/// decrypts what it encrypts, and encrypts what it decrypts.
pub proof fn lemma_translate_is_involution(table: Seq<u8>, data: Seq<u8>)
    ensures
        rc4_apply(table, rc4_apply(table, data)) == data,
{
    let once = rc4_apply(table, data);
    let twice = rc4_apply(table, once);
    assert forall|i: int| 0 <= i < data.len() implies twice[i] == data[i] by {
        let x = data[i];
        let s = keystream_byte(table, i as nat);
        assert((x ^ s) ^ s == x) by (bit_vector);
    }
    assert(twice =~= data);
}

/// Translation keeps the length of its input.
pub proof fn lemma_translate_keeps_length(table: Seq<u8>, data: Seq<u8>)
    ensures
        rc4_apply(table, data).len() == data.len(),
{
}

/// Masking with 255 keeps the low byte: the remainder modulo 256.
proof fn lemma_low_byte(x: usize)
    requires
        x < 1024,
    ensures
        x & 255 == x % 256,
{
    assert(x & 255 == x % 256) by (bit_vector)
        requires
            x < 1024,
    ;
}

// ---------------------------------------------------------------------------
// Key schedule and keystream
// ---------------------------------------------------------------------------

/// Builds the translation table from a key: 256 rounds of the RC4 key
/// schedule over `key`, cycled.
pub fn key_schedule(key: &[u8]) -> (table: Vec<u8>)
    requires
        key@.len() > 0,
    ensures
        table@ == key_schedule_table(key@),
        is_permutation(table@),
{
    let mut t: Vec<u8> = Vec::new();
    let mut i: usize = 0;
    while i < 256
        invariant
            i <= 256,
            t@.len() == i,
            forall|x: int| 0 <= x < i ==> t@[x] == x as u8,
        decreases 256 - i,
    {
        t.push(i as u8);
        i = i + 1;
    }
    assert(t@ =~= identity_table());
    let len = key.len();
    let mut k: usize = 0;
    let mut m: usize = 0;
    let mut i: usize = 0;
    while i < 256
        invariant
            i <= 256,
            len == key@.len(),
            len > 0,
            m == i % len,
            k < 256,
            t@.len() == 256,
            (t@, k as nat) == ksa_state(key@, i as nat),
        decreases 256 - i,
    {
        proof {
            lemma_ksa_state_shape(key@, i as nat);
        }
        let sum: usize = key[m] as usize + t[i] as usize + k;
        proof { lemma_low_byte(sum); }
        let k2: usize = sum & 255;
        let a = t[i];
        let b = t[k2];
        t[i] = b;
        t[k2] = a;
        k = k2;
        m = (1 + m) % len;
        proof {
            vstd::arithmetic::div_mod::lemma_add_mod_noop_right(1, i as int, len as int);
            assert(t@ =~= swap_entries(ksa_state(key@, i as nat).0, i as int, k2 as int));
        }
        i = i + 1;
        proof {
            assert(((i - 1) as nat) as int == i - 1);
        }
    }
    proof {
        lemma_ksa_state_shape(key@, 256);
    }
    t
}

/// Combines `raw` with the keystream that `table` generates, writing the
/// result over the first `raw.len()` bytes of `out`.
pub fn apply_keystream(table: Vec<u8>, raw: &[u8], out: &mut Vec<u8>)
    requires
        table@.len() == 256,
        old(out)@.len() >= raw@.len(),
    ensures
        final(out)@ == rc4_apply(table@, raw@) + old(out)@.skip(raw@.len() as int),
{
    let ghost t0 = table@;
    let mut t = table;
    let mut j: usize = 0;
    let mut k: usize = 0;
    let n = raw.len();
    let mut i: usize = 0;
    while i < n
        invariant
            n == raw@.len(),
            n <= old(out)@.len(),
            i <= n,
            out@.len() == old(out)@.len(),
            j < 256,
            k < 256,
            t@.len() == 256,
            (t@, j as nat, k as nat) == prga_state(t0, i as nat),
            forall|x: int| 0 <= x < i ==> out@[x] == raw@[x] ^ keystream_byte(t0, x as nat),
            forall|x: int| n <= x < out@.len() ==> out@[x] == old(out)@[x],
        decreases n - i,
    {
        let ghost prev = t@;
        let next_k: usize = k + 1;
        proof { lemma_low_byte(next_k); }
        let k2: usize = next_k & 255;
        let next_j: usize = j + t[k2] as usize;
        proof { lemma_low_byte(next_j); }
        let j2: usize = next_j & 255;
        let a = t[j2];
        let b = t[k2];
        t[j2] = b;
        t[k2] = a;
        proof {
            assert(t@ =~= swap_entries(prev, j2 as int, k2 as int));
            assert(prga_state(t0, (i + 1) as nat) == (t@, j2 as nat, k2 as nat));
        }
        let pair_sum: usize = t[k2] as usize + t[j2] as usize;
        proof { lemma_low_byte(pair_sum); }
        let idx: usize = pair_sum & 255;
        let byte = raw[i] ^ t[idx];
        out[i] = byte;
        j = j2;
        k = k2;
        i = i + 1;
    }
    assert(out@ =~= rc4_apply(t0, raw@) + old(out)@.skip(raw@.len() as int));
}


// ---------------------------------------------------------------------------
// Outside calls: MD5 (rust-crypto), base64 (rustc-serialize), UTF-8 (std)
// ---------------------------------------------------------------------------

/// The 16-byte MD5 digest of `input`, as rust-crypto's `Md5` computes it.
pub uninterp spec fn md5_digest(input: Seq<u8>) -> Seq<u8>;

/// What rustc-serialize's `FromBase64::from_base64` makes of `input`:
/// the decoded bytes, or `None` where it reports an error.
pub uninterp spec fn base64_decoding(input: Seq<u8>) -> Option<Seq<u8>>;

/// The lowercase hexadecimal digit (an ASCII byte) for `v < 16`.
pub open spec fn hex_digit(v: u8) -> u8 {
    if v < 10 { (48 + v) as u8 } else { (87 + v) as u8 }
}

/// `bytes` written as lowercase hexadecimal text, two ASCII digits per
/// byte, high nibble first.
pub open spec fn hex_lower(bytes: Seq<u8>) -> Seq<u8> {
    Seq::new(
        2 * bytes.len(),
        |i: int|
            if i % 2 == 0 {
                hex_digit(bytes[i / 2] >> 4u8)
            } else {
                hex_digit(bytes[i / 2] & 15u8)
            },
    )
}

/// rust-crypto's `Md5` fed with `input` through `Digest::input`, read back
/// with `Digest::result_str`, whose text is taken as its bytes. The result
/// is rustc-serialize's `to_hex` of the 128-bit digest: 32 lowercase hex
/// digits. The digest itself is not stated; it is named `md5_digest`.
#[verifier::external_body]
fn md5_hex(input: &[u8]) -> (hex: Vec<u8>)
    ensures
        hex@ == hex_lower(md5_digest(input@)),
        hex@.len() == 32,
{
    let mut digest = Md5::new();
    digest.input(input);
    digest.result_str().into_bytes()
}

/// rustc-serialize's `FromBase64::from_base64` on `input`; `None` stands
/// for its `FromBase64Error`. The decoding is named `base64_decoding`, not
/// stated.
#[verifier::external_body]
fn decode_base64(input: &[u8]) -> (decoded: Option<Vec<u8>>)
    ensures
        match decoded {
            Some(v) => base64_decoding(input@) == Some(v@),
            None => base64_decoding(input@) is None,
        },
{
    match input.from_base64() {
        Ok(v) => Some(v),
        Err(_) => None,
    }
}

/// std's `String::from_utf8`: a string exactly when `bytes` are valid
/// UTF-8, holding the characters they encode.
#[verifier::external_body]
fn string_from_utf8(bytes: Vec<u8>) -> (s: Option<String>)
    ensures
        s is Some <==> valid_utf8(bytes@),
        s matches Some(text) ==> text@ == decode_utf8(bytes@),
{
    String::from_utf8(bytes).ok()
}

// ---------------------------------------------------------------------------
// The cipher
// ---------------------------------------------------------------------------

/// Why a field could not be decrypted.
#[derive(Debug, Clone, Copy, PartialEq, Eq, Structural)]
pub enum CipherError {
    /// The field is not base64 text.
    InvalidBase64,
    /// The decrypted bytes are not UTF-8 text.
    InvalidUtf8,
}

/// The text that every aibang key starts with.
pub open spec fn aibang_prefix() -> Seq<char> {
    seq!['a', 'i', 'b', 'a', 'n', 'g']
}

/// The translation table of the cipher keyed with `key`: the key schedule
/// run over the lowercase hex MD5 digest of the key's UTF-8 bytes.
pub open spec fn translate_table(key: Seq<char>) -> Seq<u8> {
    key_schedule_table(hex_lower(md5_digest(encode_utf8(key))))
}

/// What decrypting the base64 field `input` with key `key` gives.
pub open spec fn decrypt_result(key: Seq<char>, input: Seq<u8>) -> Result<Seq<u8>, CipherError> {
    match base64_decoding(input) {
        None => Err(CipherError::InvalidBase64),
        Some(data) => Ok(rc4_apply(translate_table(key), data)),
    }
}

/// What decrypting the base64 field `input` to text with key `key` gives.
pub open spec fn decrypt_text_result(key: Seq<char>, input: Seq<char>) -> Result<
    Seq<char>,
    CipherError,
> {
    match decrypt_result(key, encode_utf8(input)) {
        Err(e) => Err(e),
        Ok(bytes) => if valid_utf8(bytes) {
            Ok(decode_utf8(bytes))
        } else {
            Err(CipherError::InvalidUtf8)
        },
    }
}

/// A field that decodes to the encryption of a text decrypts to that text:
/// translating the bytes of `text` with the key's table, and encoding them
/// as base64 that decodes back, gives a field that `decrypt_str` turns into
/// `text`.
pub proof fn lemma_decrypt_text_of_encrypted(key: Seq<char>, field: Seq<char>, text: Seq<char>)
    requires
        base64_decoding(encode_utf8(field)) == Some(
            rc4_apply(translate_table(key), encode_utf8(text)),
        ),
    ensures
        decrypt_text_result(key, field) == Ok::<Seq<char>, CipherError>(text),
{
    lemma_translate_is_involution(translate_table(key), encode_utf8(text));
    vstd::utf8::encode_utf8_valid_utf8(text);
    vstd::utf8::encode_utf8_decode_utf8(text);
}

/// The field cipher of the aibang service.
#[derive(Debug)]
pub struct Cipher {
    pub key: String,
}

impl Cipher {
    /// A cipher with the empty key.
    pub fn new() -> (c: Cipher)
        ensures
            c.key@ == Seq::<char>::empty(),
    {
        Cipher { key: String::new() }
    }

    /// Keys the cipher with `"aibang"` followed by `key`.
    pub fn set_aibang_key(&mut self, key: &str)
        ensures
            final(self).key@ == aibang_prefix() + key@,
    {
        let prefix: &str = "aibang";
        proof {
            reveal_strlit("aibang");
            assert(prefix@ =~= aibang_prefix());
        }
        self.key = prefix.to_owned().concat(key);
    }

    /// A cipher keyed with `"aibang"` followed by `key` in decimal.
    pub fn new_with_aibang_key(key: usize) -> (c: Cipher)
        ensures
            c.key@ == aibang_prefix() + decimal(key as nat),
    {
        let digits = usize_to_decimal(key);
        let mut c = Cipher::new();
        c.set_aibang_key(digits.as_str());
        c
    }

    /// The translation table for the current key.
    pub fn make_translate_table(&self) -> (table: Vec<u8>)
        ensures
            table@ == translate_table(self.key@),
            is_permutation(table@),
    {
        let hex = md5_hex(self.key.as_str().as_bytes());
        key_schedule(hex.as_slice())
    }

    /// Translates `raw` with the current key into the first `raw.len()`
    /// bytes of `out`, and returns how many bytes it wrote.
    pub fn translate(&self, raw: &[u8], out: &mut Vec<u8>) -> (written: usize)
        requires
            old(out)@.len() >= raw@.len(),
        ensures
            written == raw@.len(),
            final(out)@ == rc4_apply(translate_table(self.key@), raw@) + old(out)@.skip(
                raw@.len() as int,
            ),
    {
        let table = self.make_translate_table();
        apply_keystream(table, raw, out);
        raw.len()
    }

    /// Decodes the base64 field `input` and translates it with the current key.
    pub fn decrypt(&mut self, input: &[u8]) -> (plain: Result<Vec<u8>, CipherError>)
        ensures
            final(self).key@ == old(self).key@,
            match plain {
                Ok(v) => decrypt_result(old(self).key@, input@) == Ok::<Seq<u8>, CipherError>(v@),
                Err(e) => decrypt_result(old(self).key@, input@) == Err::<Seq<u8>, CipherError>(e),
            },
    {
        let data = match decode_base64(input) {
            Some(d) => d,
            None => return Err(CipherError::InvalidBase64),
        };
        let mut output: Vec<u8> = Vec::with_capacity(data.len());
        let mut i: usize = 0;
        while i < data.len()
            invariant
                i <= data@.len(),
                output@.len() == i,
            decreases data@.len() - i,
        {
            output.push(0u8);
            i = i + 1;
        }
        self.translate(data.as_slice(), &mut output);
        assert(output@ =~= rc4_apply(translate_table(self.key@), data@));
        Ok(output)
    }

    /// Decrypts the base64 field `input` to text with the current key.
    pub fn decrypt_str(&mut self, input: &str) -> (plain: Result<String, CipherError>)
        ensures
            final(self).key@ == old(self).key@,
            match plain {
                Ok(s) => decrypt_text_result(old(self).key@, input@) == Ok::<Seq<char>, CipherError>(s@),
                Err(e) => decrypt_text_result(old(self).key@, input@) == Err::<Seq<char>, CipherError>(e),
            },
    {
        match self.decrypt(input.as_bytes()) {
            Err(e) => Err(e),
            Ok(bytes) => match string_from_utf8(bytes) {
                Some(s) => Ok(s),
                None => Err(CipherError::InvalidUtf8),
            },
        }
    }
}

} // verus!
