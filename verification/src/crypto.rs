//! Segment decryption: IV derivation (explicit hex attribute or media
//! sequence number fallback) and AES-128-CBC with PKCS7 padding, the
//! cipher itself behind a trusted wrapper.

use vstd::prelude::*;

verus! {

use vstd::string::StrSliceExecFns;
use crate::playlist::{Key, KeyMethod, KeyView};

use aes::cipher::BlockModeDecrypt;
use aes::cipher::KeyIvInit;

/// Whether `c` is a hexadecimal digit.
pub open spec fn spec_is_hex_digit(c: char) -> bool {
    ('0' <= c && c <= '9') || ('a' <= c && c <= 'f') || ('A' <= c && c <= 'F')
}

/// The numeric value of a hexadecimal digit.
pub open spec fn spec_hex_digit_val(c: char) -> int {
    if '0' <= c && c <= '9' {
        c as int - '0' as int
    } else if 'a' <= c && c <= 'f' {
        c as int - 'a' as int + 10
    } else {
        c as int - 'A' as int + 10
    }
}

/// Whether every character of `s` is a hexadecimal digit, and there is at
/// least one.
pub open spec fn spec_all_hex(s: Seq<char>) -> bool {
    s.len() > 0 && forall|i: int| 0 <= i < s.len() ==> spec_is_hex_digit(#[trigger] s[i])
}

/// The value of a sequence of hexadecimal digits, most significant first.
pub open spec fn spec_hex_val(s: Seq<char>) -> int
    decreases s.len(),
{
    if s.len() == 0 {
        0
    } else {
        spec_hex_val(s.drop_last()) * 16 + spec_hex_digit_val(s.last())
    }
}

/// The value of a hex digit string is nonnegative.
pub proof fn lemma_hex_val_nonneg(s: Seq<char>)
    requires
        forall|j: int| 0 <= j < s.len() ==> spec_is_hex_digit(#[trigger] s[j]),
    ensures
        spec_hex_val(s) >= 0,
    decreases s.len(),
{
    if s.len() > 0 {
        assert forall|j: int| 0 <= j < s.drop_last().len() implies spec_is_hex_digit(
            #[trigger] s.drop_last()[j],
        ) by {
            assert(s.drop_last()[j] == s[j]);
        }
        lemma_hex_val_nonneg(s.drop_last());
    }
}

/// The value of a hex digit prefix never exceeds the value of the whole
/// string.
pub proof fn lemma_hex_val_monotone(s: Seq<char>, i: int)
    requires
        0 <= i <= s.len(),
        forall|j: int| 0 <= j < s.len() ==> spec_is_hex_digit(#[trigger] s[j]),
    ensures
        spec_hex_val(s.take(i)) <= spec_hex_val(s),
    decreases s.len() - i,
{
    if i == s.len() {
        assert(s.take(i) =~= s);
    } else {
        lemma_hex_val_monotone(s, i + 1);
        assert(s.take(i + 1).drop_last() =~= s.take(i));
        assert(s.take(i + 1).last() == s[i]);
        assert forall|j: int| 0 <= j < s.take(i).len() implies spec_is_hex_digit(
            #[trigger] s.take(i)[j],
        ) by {
            assert(s.take(i)[j] == s[j]);
        }
        lemma_hex_val_nonneg(s.take(i));
        assert(spec_hex_val(s.take(i)) <= spec_hex_val(s.take(i)) * 16 + spec_hex_digit_val(
            s[i],
        ));
    }
}

/// The 128-bit value named by an IV attribute: a `0x`- or `0X`-prefixed
/// string of hexadecimal digits whose value fits in 128 bits.
pub open spec fn spec_iv_of(s: Seq<char>) -> Option<u128> {
    if s.len() >= 3 && s[0] == '0' && (s[1] == 'x' || s[1] == 'X') && spec_all_hex(s.skip(2))
        && spec_hex_val(s.skip(2)) <= u128::MAX {
        Option::Some(spec_hex_val(s.skip(2)) as u128)
    } else {
        Option::None
    }
}

/// Parse an IV attribute value, per [`spec_iv_of`].
pub fn parse_iv(s: &str) -> (r: Option<u128>)
    ensures
        r == spec_iv_of(s@),
{
    let n = s.unicode_len();
    if n < 3 {
        return None;
    }
    if s.get_char(0) != '0' {
        return None;
    }
    let x = s.get_char(1);
    if x != 'x' && x != 'X' {
        return None;
    }
    let ghost d = s@.skip(2);
    let mut v: u128 = 0;
    let mut i: usize = 2;
    proof {
        assert(d.take(0) =~= Seq::<char>::empty());
    }
    while i < n
        invariant
            2 <= i <= n,
            n == s@.len(),
            n >= 3,
            d == s@.skip(2),
            forall|j: int| 0 <= j < i - 2 ==> spec_is_hex_digit(#[trigger] d[j]),
            v == spec_hex_val(d.take(i - 2)),
        decreases n - i,
    {
        let c = s.get_char(i);
        let dv: u128 = if c >= '0' && c <= '9' {
            (c as u32 as u128) - ('0' as u32 as u128)
        } else if c >= 'a' && c <= 'f' {
            (c as u32 as u128) - ('a' as u32 as u128) + 10
        } else if c >= 'A' && c <= 'F' {
            (c as u32 as u128) - ('A' as u32 as u128) + 10
        } else {
            return None;
        };
        proof {
            assert(d[i - 2] == s@[i as int]);
            assert(spec_is_hex_digit(d[i - 2]));
            assert(dv == spec_hex_digit_val(d[i - 2]));
            assert(d.take(i - 2 + 1).drop_last() =~= d.take(i - 2));
            assert(d.take(i - 2 + 1).last() == d[i - 2]);
        }
        if v > (u128::MAX - dv) / 16 {
            proof {
                assert(spec_hex_val(d.take(i - 2 + 1)) > u128::MAX) by (nonlinear_arith)
                    requires
                        spec_hex_val(d.take(i - 2 + 1)) == v * 16 + dv,
                        v > (u128::MAX - dv) / 16,
                        0 <= dv <= 15,
                {}
                if spec_all_hex(d) {
                    lemma_hex_val_monotone(d, i - 2 + 1);
                }
            }
            return None;
        }
        v = v * 16 + dv;
        i += 1;
    }
    proof {
        assert(d.take(n - 2) =~= d);
        assert(spec_all_hex(d));
    }
    Some(v)
}

/// The big-endian `n`-byte encoding of `x`, most significant byte first.
pub open spec fn spec_be_bytes(x: int, n: nat) -> Seq<u8>
    decreases n,
{
    if n == 0 {
        Seq::empty()
    } else {
        spec_be_bytes(x / 256, (n - 1) as nat).push((x % 256) as u8)
    }
}

/// The big-endian 16-byte encoding of a 128-bit value.
pub fn u128_to_be_bytes(x: u128) -> (r: Vec<u8>)
    ensures
        r@ == spec_be_bytes(x as int, 16),
        r@.len() == 16,
{
    be_bytes_rec(x, 16)
}

/// The big-endian `n`-byte encoding of `x`.
fn be_bytes_rec(x: u128, n: usize) -> (r: Vec<u8>)
    ensures
        r@ == spec_be_bytes(x as int, n as nat),
        r@.len() == n,
    decreases n,
{
    if n == 0 {
        Vec::new()
    } else {
        let mut v = be_bytes_rec(x / 256, n - 1);
        v.push((x % 256) as u8);
        v
    }
}

/// The plaintext that AES-128-CBC decryption with PKCS7 unpadding yields
/// for a key, an IV and a ciphertext, or `None` when the ciphertext is not
/// a whole number of blocks or the padding is malformed.  Named, not
/// written out: the cipher is the outside crate's work.
pub uninterp spec fn aes128_cbc_pkcs7_plaintext(
    key: Seq<u8>,
    iv: Seq<u8>,
    ct: Seq<u8>,
) -> Option<Seq<u8>>;

/// Relies on `cbc::Decryptor::<aes::Aes128>` with `Pkcs7` unpadding from
/// the `cipher` crate: the plaintext (or the padding failure) is a
/// function of key, IV and ciphertext alone.
#[verifier::external_body]
fn aes128_cbc_decrypt(key: &[u8], iv: &[u8], ct: &[u8]) -> (r: Option<Vec<u8>>)
    requires
        key@.len() == 16,
        iv@.len() == 16,
    ensures
        match r {
            Option::Some(pt) => aes128_cbc_pkcs7_plaintext(key@, iv@, ct@) == Option::Some(pt@),
            Option::None => aes128_cbc_pkcs7_plaintext(key@, iv@, ct@) is None,
        },
{
    let de = match cbc::Decryptor::<aes::Aes128>::new_from_slices(key, iv) {
        Ok(d) => d,
        Err(_) => return None,
    };
    match de.decrypt_padded_vec::<aes::cipher::block_padding::Pkcs7>(ct) {
        Ok(pt) => Some(pt),
        Err(_) => None,
    }
}

/// Why a segment could not be decrypted.
#[derive(Clone, Copy, Debug, PartialEq, Eq, Structural)]
pub enum MediaError {
    /// The key method is not AES-128.
    UnsupportedKeyMethod,
    /// An AES-128 key declaration carries no URI.
    MissingKeyUri,
    /// The key's IV attribute is not a `0x`-prefixed 128-bit hex value.
    BadIv,
    /// The fetched key material is not exactly 16 bytes.
    KeyLength,
    /// The ciphertext is not whole blocks or its padding is malformed.
    Decrypt,
    /// The segment URI could not be resolved against the playlist URL.
    BadSegmentUrl,
}

/// The IV for a key declaration: its parsed `IV` attribute, or the
/// big-endian encoding of the segment's sequence number when it has none.
pub open spec fn spec_key_iv(key: KeyView, seq: int) -> Option<Seq<u8>> {
    match key.iv {
        Option::Some(ivs) => match spec_iv_of(ivs) {
            Option::Some(n) => Option::Some(spec_be_bytes(n as int, 16)),
            Option::None => Option::None,
        },
        Option::None => Option::Some(spec_be_bytes(seq, 16)),
    }
}

/// The outcome of decrypting one segment: the fetched bytes unchanged
/// when no key is active; otherwise AES-128-CBC with the derived IV, with
/// each failure mapped to its error.
pub open spec fn spec_decrypt_outcome(
    key: Option<KeyView>,
    material: Seq<u8>,
    data: Seq<u8>,
    seq: int,
) -> Result<Seq<u8>, MediaError> {
    match key {
        Option::None => Result::Ok(data),
        Option::Some(k) => if k.method != KeyMethod::Aes128 {
            Result::Err(MediaError::UnsupportedKeyMethod)
        } else if k.uri is None {
            Result::Err(MediaError::MissingKeyUri)
        } else {
            match spec_key_iv(k, seq) {
                Option::None => Result::Err(MediaError::BadIv),
                Option::Some(iv) => if material.len() != 16 {
                    Result::Err(MediaError::KeyLength)
                } else {
                    match aes128_cbc_pkcs7_plaintext(material, iv, data) {
                        Option::Some(pt) => Result::Ok(pt),
                        Option::None => Result::Err(MediaError::Decrypt),
                    }
                },
            }
        },
    }
}

/// Decrypt one segment, per [`spec_decrypt_outcome`]: `key` is the active
/// key declaration (none for a plaintext segment), `material` the fetched
/// key bytes, `data` the fetched segment bytes and `seq` the segment's
/// sequence number (media sequence plus index).
pub fn decrypt_segment_data(
    key: Option<&Key>,
    material: &Vec<u8>,
    data: Vec<u8>,
    seq: u128,
) -> (r: Result<Vec<u8>, MediaError>)
    ensures
        match r {
            Result::Ok(pt) => spec_decrypt_outcome(
                crate::playlist::key_ref_opt_view(key),
                material@,
                data@,
                seq as int,
            ) == Result::<Seq<u8>, MediaError>::Ok(pt@),
            Result::Err(e) => spec_decrypt_outcome(
                crate::playlist::key_ref_opt_view(key),
                material@,
                data@,
                seq as int,
            ) == Result::<Seq<u8>, MediaError>::Err(e),
        },
{
    let k = match key {
        None => {
            return Ok(data);
        },
        Some(k) => k,
    };
    match k.method {
        KeyMethod::Aes128 => {},
        _ => {
            return Err(MediaError::UnsupportedKeyMethod);
        },
    }
    match &k.uri {
        Some(_) => {},
        None => {
            return Err(MediaError::MissingKeyUri);
        },
    }
    let iv: Vec<u8> = match &k.iv {
        Some(ivs) => match parse_iv(ivs.as_str()) {
            Some(n) => u128_to_be_bytes(n),
            None => {
                return Err(MediaError::BadIv);
            },
        },
        None => u128_to_be_bytes(seq),
    };
    if material.len() != 16 {
        return Err(MediaError::KeyLength);
    }
    match aes128_cbc_decrypt(material.as_slice(), iv.as_slice(), data.as_slice()) {
        Some(pt) => Ok(pt),
        None => Err(MediaError::Decrypt),
    }
}

} // verus!
