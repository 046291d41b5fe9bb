//! Byte-to-text decoding with an ordered legacy-encoding fallback.
//!
//! Received bytes are first decoded strictly as UTF-8; on failure each
//! configured legacy encoding is tried in order, and only when every attempt
//! fails is a decode error produced, carrying the detail of the original
//! UTF-8 failure.

use vstd::prelude::*;
use vstd::utf8::{decode_utf8, partial_valid_utf8, valid_utf8};

use crate::error::TelnetError;

verus! {

/// What the GBK decoder returns on the given bytes in strict mode: the
/// decoded characters, or nothing when the bytes are not valid GBK.
pub uninterp spec fn gbk_decode(bytes: Seq<u8>) -> Option<Seq<char>>;

/// What the GB18030 decoder returns on the given bytes in strict mode.
pub uninterp spec fn gb18030_decode(bytes: Seq<u8>) -> Option<Seq<char>>;

/// A legacy encoding that may be tried once strict UTF-8 decoding fails.
#[derive(Clone, Copy, Debug, PartialEq, Eq, Structural)]
pub enum LegacyEncoding {
    Gbk,
    Gb18030,
}

/// What decoding the bytes under one legacy encoding yields.
pub open spec fn legacy_decode(enc: LegacyEncoding, bytes: Seq<u8>) -> Option<Seq<char>> {
    match enc {
        LegacyEncoding::Gbk => gbk_decode(bytes),
        LegacyEncoding::Gb18030 => gb18030_decode(bytes),
    }
}

/// The result of trying each legacy encoding in order: the first that
/// succeeds wins; `None` when every attempt fails.
pub open spec fn fallback_decode(encs: Seq<LegacyEncoding>, bytes: Seq<u8>) -> Option<Seq<char>>
    decreases encs.len(),
{
    if encs.len() == 0 {
        None
    } else if legacy_decode(encs[0], bytes) is Some {
        legacy_decode(encs[0], bytes)
    } else {
        fallback_decode(encs.drop_first(), bytes)
    }
}

/// The full decoding discipline: strict UTF-8 first, then the legacy
/// encodings in order.
pub open spec fn spec_decode(encs: Seq<LegacyEncoding>, bytes: Seq<u8>) -> Option<Seq<char>> {
    if valid_utf8(bytes) {
        Some(decode_utf8(bytes))
    } else {
        fallback_decode(encs, bytes)
    }
}

/// The legacy encodings tried by default, in order.
pub open spec fn default_encodings() -> Seq<LegacyEncoding> {
    seq![LegacyEncoding::Gbk, LegacyEncoding::Gb18030]
}

/// The default fallback list as a vector.
pub fn default_encoding_list() -> (r: Vec<LegacyEncoding>)
    ensures
        r@ == default_encodings(),
{
    let mut r: Vec<LegacyEncoding> = Vec::new();
    r.push(LegacyEncoding::Gbk);
    r.push(LegacyEncoding::Gb18030);
    proof {
        assert(r@ =~= default_encodings());
    }
    r
}

/// Relies on `String::from_utf8`: it succeeds exactly on valid UTF-8 and
/// returns the decoded characters; on failure, `Utf8Error::valid_up_to`
/// says how many leading bytes were valid UTF-8.
#[verifier::external_body]
fn utf8_decode_exec(bytes: &[u8]) -> (r: Result<String, usize>)
    ensures
        r is Ok <==> valid_utf8(bytes@),
        r matches Ok(s) ==> s@ == decode_utf8(bytes@),
        r matches Err(n) ==> partial_valid_utf8(bytes@, n as int),
{
    match String::from_utf8(bytes.to_vec()) {
        Ok(s) => Ok(s),
        Err(e) => Err(e.utf8_error().valid_up_to()),
    }
}

/// Relies on `encoding::all::GBK`'s `decode` with `DecoderTrap::Strict`:
/// the result is a function of the bytes alone, named by [`gbk_decode`].
#[verifier::external_body]
fn gbk_decode_exec(bytes: &[u8]) -> (r: Option<String>)
    ensures
        r is Some <==> gbk_decode(bytes@) is Some,
        r matches Some(s) ==> gbk_decode(bytes@) == Some(s@),
{
    encoding::Encoding::decode(encoding::all::GBK, bytes, encoding::DecoderTrap::Strict).ok()
}

/// Relies on `encoding::all::GB18030`'s `decode` with `DecoderTrap::Strict`:
/// the result is a function of the bytes alone, named by [`gb18030_decode`].
#[verifier::external_body]
fn gb18030_decode_exec(bytes: &[u8]) -> (r: Option<String>)
    ensures
        r is Some <==> gb18030_decode(bytes@) is Some,
        r matches Some(s) ==> gb18030_decode(bytes@) == Some(s@),
{
    encoding::Encoding::decode(encoding::all::GB18030, bytes, encoding::DecoderTrap::Strict).ok()
}

/// Decode one legacy encoding.
fn legacy_decode_exec(enc: LegacyEncoding, bytes: &[u8]) -> (r: Option<String>)
    ensures
        r is Some <==> legacy_decode(enc, bytes@) is Some,
        r matches Some(s) ==> legacy_decode(enc, bytes@) == Some(s@),
{
    match enc {
        LegacyEncoding::Gbk => gbk_decode_exec(bytes),
        LegacyEncoding::Gb18030 => gb18030_decode_exec(bytes),
    }
}

/// Decode bytes as text: strict UTF-8 first, then each of `encs` in order.
/// Fails, carrying the original UTF-8 failure detail, only when every
/// attempt fails.
pub fn decode_with(encs: &[LegacyEncoding], bytes: &[u8]) -> (r: Result<String, TelnetError>)
    ensures
        r is Ok <==> spec_decode(encs@, bytes@) is Some,
        r matches Ok(s) ==> spec_decode(encs@, bytes@) == Some(s@),
        r matches Err(e) ==> (e matches TelnetError::ParseError(n) && partial_valid_utf8(
            bytes@,
            n as int,
        )),
{
    let valid_up_to: usize;
    match utf8_decode_exec(bytes) {
        Ok(s) => {
            return Ok(s);
        },
        Err(n) => {
            valid_up_to = n;
        },
    }
    let mut i: usize = 0;
    proof {
        assert(encs@.skip(0) =~= encs@);
    }
    while i < encs.len()
        invariant
            0 <= i <= encs@.len(),
            !valid_utf8(bytes@),
            partial_valid_utf8(bytes@, valid_up_to as int),
            fallback_decode(encs@, bytes@) == fallback_decode(encs@.skip(i as int), bytes@),
        decreases encs@.len() - i,
    {
        proof {
            assert(encs@.skip(i as int)[0] == encs@[i as int]);
        }
        match legacy_decode_exec(encs[i], bytes) {
            Some(s) => {
                return Ok(s);
            },
            None => {},
        }
        proof {
            assert(encs@.skip(i as int).drop_first() =~= encs@.skip(i as int + 1));
        }
        i = i + 1;
    }
    proof {
        assert(encs@.skip(i as int).len() == 0);
    }
    Err(TelnetError::ParseError(valid_up_to))
}

/// Decode bytes with the default fallback list: UTF-8, then GBK, then
/// GB18030.
pub fn decode(bytes: &[u8]) -> (r: Result<String, TelnetError>)
    ensures
        r is Ok <==> spec_decode(default_encodings(), bytes@) is Some,
        r matches Ok(s) ==> spec_decode(default_encodings(), bytes@) == Some(s@),
        r matches Err(e) ==> (e matches TelnetError::ParseError(n) && partial_valid_utf8(
            bytes@,
            n as int,
        )),
{
    let encs = default_encoding_list();
    decode_with(encs.as_slice(), bytes)
}

/// Round trip: text encoded as UTF-8 always decodes back to itself,
/// whatever legacy fallbacks are configured.
pub proof fn lemma_decode_round_trip(encs: Seq<LegacyEncoding>, text: Seq<char>)
    ensures
        spec_decode(encs, vstd::utf8::encode_utf8(text)) == Some(text),
{
    broadcast use vstd::utf8::encode_utf8_valid_utf8;
    broadcast use vstd::utf8::encode_utf8_decode_utf8;

}

/// Fallback ordering under the default list: bytes that are not valid UTF-8
/// decode to the GBK reading whenever GBK succeeds, and a decode failure
/// arises exactly when GBK and GB18030 both fail.
pub proof fn lemma_fallback_ordering(bytes: Seq<u8>)
    requires
        !valid_utf8(bytes),
    ensures
        gbk_decode(bytes) is Some ==> spec_decode(default_encodings(), bytes) == gbk_decode(bytes),
        spec_decode(default_encodings(), bytes) is None <==> (gbk_decode(bytes) is None
            && gb18030_decode(bytes) is None),
{
    reveal_with_fuel(fallback_decode, 3);
    assert(default_encodings().drop_first() =~= seq![LegacyEncoding::Gb18030]);
    assert(default_encodings().drop_first().drop_first() =~= Seq::<LegacyEncoding>::empty());
}

} // verus!
