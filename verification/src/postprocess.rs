//! The decoding half of the unquote protocol. After a template has been
//! rendered, one pass scans the text for `"{WHISKERS:UNQUOTE:<payload>}"`
//! — quote, marker, quote — and replaces each match, surrounding quotes
//! included, with the base64-decoded payload text. A payload that does
//! not decode leaves its match untouched and is handed back as a warning
//! value: a corrupt marker never aborts the render. Because a payload is
//! opaque base64, a replacement can never introduce a new match, and the
//! pass runs exactly once.

use vstd::prelude::*;

use vstd::utf8::decode_utf8;
use vstd::utf8::valid_utf8;
use vstd::utf8::encode_utf8;
use vstd::utf8::encode_utf8_valid_utf8;
use vstd::utf8::encode_utf8_decode_utf8;

use crate::parse::chars_of;

verus! {

/// What base64's unpadded standard-alphabet engine encodes a byte string
/// to; it depends on the bytes alone.
pub uninterp spec fn b64_of(bytes: Seq<u8>) -> Seq<char>;

/// What `String::from_utf8_lossy` makes of a byte string; it depends on
/// the bytes alone.
pub uninterp spec fn lossy_of(bytes: Seq<u8>) -> Seq<char>;

/// A character of the standard base64 alphabet.
pub open spec fn is_b64_char(c: char) -> bool {
    (65 <= c as int && c as int <= 90) || (97 <= c as int && c as int <= 122) || (48 <= c as int
        && c as int <= 57) || c == '+' || c == '/'
}

/// Relies on base64's `STANDARD_NO_PAD` engine: encoding is a pure
/// function of the bytes, produces only standard-alphabet characters (no
/// padding), and is injective, since decoding inverts it.
#[verifier::external_body]
pub(crate) fn b64_encode(bytes: &Vec<u8>) -> (out: String)
    ensures
        out@ == b64_of(bytes@),
        forall|i: int| 0 <= i < out@.len() ==> is_b64_char(out@[i]),
        forall|other: Seq<u8>| b64_of(other) == out@ ==> other == bytes@,
{
    base64::Engine::encode(&base64::engine::general_purpose::STANDARD_NO_PAD, bytes.as_slice())
}

/// Relies on base64's `STANDARD_NO_PAD` engine: decoding accepts exactly
/// the strings this engine encodes to — unpadded, no stray trailing bits
/// — and returns the unique byte string that encodes to the input.
#[verifier::external_body]
fn b64_decode(s: &str) -> (out: Option<Vec<u8>>)
    ensures
        match out {
            Some(bytes) => b64_of(bytes@) == s@ && (forall|other: Seq<u8>|
                b64_of(other) == s@ ==> other == bytes@),
            None => forall|b: Seq<u8>| b64_of(b) != s@,
        },
{
    match base64::Engine::decode(&base64::engine::general_purpose::STANDARD_NO_PAD, s) {
        Ok(v) => Some(v),
        Err(_) => None,
    }
}

/// Relies on `String::from_utf8_lossy`: a pure function of the bytes that
/// returns the decoded text whenever the bytes are valid UTF-8.
#[verifier::external_body]
fn from_utf8_lossy_outside(bytes: &Vec<u8>) -> (out: String)
    ensures
        out@ == lossy_of(bytes@),
        valid_utf8(bytes@) ==> out@ == decode_utf8(bytes@),
{
    String::from_utf8_lossy(bytes.as_slice()).into_owned()
}

/// Relies on `String::push`: appends exactly the one character.
pub assume_specification[ String::push ](s: &mut String, ch: char)
    ensures
        final(s)@ == old(s)@.push(ch),
;

/// The marker text that opens an unquote envelope, after its quote.
pub open spec fn marker_chars() -> Seq<char> {
    "{WHISKERS:UNQUOTE:"@
}

/// A quote followed by the marker starts at position `i`.
pub open spec fn envelope_open(s: Seq<char>, i: int) -> bool {
    i + 19 <= s.len() && s[i] == '"' && s.subrange(i + 1, i + 19) == marker_chars()
}

/// The first position at or after `k` holding `}` immediately followed by
/// `"`, or the length of the text if there is none.
pub open spec fn find_close_quote(s: Seq<char>, k: int) -> int
    decreases s.len() - k,
{
    if 0 <= k && k + 2 <= s.len() {
        if s[k] == '}' && s[k + 1] == '"' {
            k
        } else {
            find_close_quote(s, k + 1)
        }
    } else {
        s.len() as int
    }
}

pub proof fn lemma_find_close_quote(s: Seq<char>, k: int)
    requires
        0 <= k <= s.len(),
    ensures
        k <= find_close_quote(s, k) <= s.len(),
        forall|p: int|
            #![trigger s[p]]
            k <= p < find_close_quote(s, k) && p + 2 <= s.len() ==> !(s[p] == '}' && s[p + 1]
                == '"'),
        find_close_quote(s, k) + 2 <= s.len() ==> (s[find_close_quote(s, k)] == '}'
            && s[find_close_quote(s, k) + 1] == '"'),
    decreases s.len() - k,
{
    if k + 2 <= s.len() && !(s[k] == '}' && s[k + 1] == '"') {
        lemma_find_close_quote(s, k + 1);
    }
}

/// The postprocessed text from position `i` on: ordinary characters are
/// copied; at each envelope whose payload has a base64 preimage, the
/// match and its quotes are replaced by that preimage's text; an envelope
/// whose payload has none is copied untouched.
pub open spec fn spec_pp_from(s: Seq<char>, i: int) -> Seq<char>
    decreases s.len() - i, 1int,
{
    if i < 0 || i >= s.len() {
        Seq::empty()
    } else if envelope_open(s, i) {
        let e = find_close_quote(s, i + 19);
        if i + 19 <= e && e + 2 <= s.len() {
            spec_pp_replacement(s, i, e) + spec_pp_from(s, e + 2)
        } else {
            seq![s[i]] + spec_pp_from(s, i + 1)
        }
    } else {
        seq![s[i]] + spec_pp_from(s, i + 1)
    }
}

/// What one matched envelope `s[i..e + 2)` becomes.
pub open spec fn spec_pp_replacement(s: Seq<char>, i: int, e: int) -> Seq<char> {
    let payload = s.subrange(i + 19, e);
    if exists|b: Seq<u8>| b64_of(b) == payload {
        let b = choose|b: Seq<u8>| b64_of(b) == payload;
        if valid_utf8(b) {
            decode_utf8(b)
        } else {
            lossy_of(b)
        }
    } else {
        s.subrange(i, e + 2)
    }
}

/// The whole postprocessing pass.
pub open spec fn spec_postprocess(s: Seq<char>) -> Seq<char> {
    spec_pp_from(s, 0)
}

/// The payloads of the matched envelopes that fail to decode, in order:
/// one warning each, while the envelopes themselves stay in the text.
pub open spec fn spec_pp_skipped(s: Seq<char>, i: int) -> Seq<Seq<char>>
    decreases s.len() - i, 1int,
{
    if i < 0 || i >= s.len() {
        Seq::empty()
    } else if envelope_open(s, i) {
        let e = find_close_quote(s, i + 19);
        if i + 19 <= e && e + 2 <= s.len() {
            let payload = s.subrange(i + 19, e);
            (if exists|b: Seq<u8>| b64_of(b) == payload {
                Seq::empty()
            } else {
                seq![payload]
            }) + spec_pp_skipped(s, e + 2)
        } else {
            spec_pp_skipped(s, i + 1)
        }
    } else {
        spec_pp_skipped(s, i + 1)
    }
}

/// What the postprocessing pass returns: the rewritten text, and the
/// payload of each matched envelope that failed to decode — one warning
/// each, owed to the caller's diagnostic stream, never mixed into the
/// text.
pub struct PostprocessOutput {
    pub text: String,
    pub skipped: Vec<String>,
}

/// Does a quote followed by the marker start at `i`?
fn is_marker_at(v: &Vec<char>, i: usize) -> (out: bool)
    requires
        i <= v@.len(),
    ensures
        out == envelope_open(v@, i as int),
{
    proof {
        reveal_strlit("{WHISKERS:UNQUOTE:");
    }
    if v.len() - i < 19 {
        return false;
    }
    let ok = v[i] == '"' && v[i + 1] == '{' && v[i + 2] == 'W' && v[i + 3] == 'H' && v[i + 4] == 'I'
        && v[i + 5] == 'S' && v[i + 6] == 'K' && v[i + 7] == 'E' && v[i + 8] == 'R' && v[i + 9]
        == 'S' && v[i + 10] == ':' && v[i + 11] == 'U' && v[i + 12] == 'N' && v[i + 13] == 'Q' && v[i
        + 14] == 'U' && v[i + 15] == 'O' && v[i + 16] == 'T' && v[i + 17] == 'E' && v[i + 18] == ':';
    proof {
        if ok {
            assert(v@.subrange(i as int + 1, i as int + 19) =~= marker_chars());
        } else {
            assert(!envelope_open(v@, i as int)) by {
                if envelope_open(v@, i as int) {
                    assert(v@.subrange(i as int + 1, i as int + 19)[0] == v@[i as int + 1]);
                    assert(v@.subrange(i as int + 1, i as int + 19)[1] == v@[i as int + 2]);
                    assert(v@.subrange(i as int + 1, i as int + 19)[2] == v@[i as int + 3]);
                    assert(v@.subrange(i as int + 1, i as int + 19)[3] == v@[i as int + 4]);
                    assert(v@.subrange(i as int + 1, i as int + 19)[4] == v@[i as int + 5]);
                    assert(v@.subrange(i as int + 1, i as int + 19)[5] == v@[i as int + 6]);
                    assert(v@.subrange(i as int + 1, i as int + 19)[6] == v@[i as int + 7]);
                    assert(v@.subrange(i as int + 1, i as int + 19)[7] == v@[i as int + 8]);
                    assert(v@.subrange(i as int + 1, i as int + 19)[8] == v@[i as int + 9]);
                    assert(v@.subrange(i as int + 1, i as int + 19)[9] == v@[i as int + 10]);
                    assert(v@.subrange(i as int + 1, i as int + 19)[10] == v@[i as int + 11]);
                    assert(v@.subrange(i as int + 1, i as int + 19)[11] == v@[i as int + 12]);
                    assert(v@.subrange(i as int + 1, i as int + 19)[12] == v@[i as int + 13]);
                    assert(v@.subrange(i as int + 1, i as int + 19)[13] == v@[i as int + 14]);
                    assert(v@.subrange(i as int + 1, i as int + 19)[14] == v@[i as int + 15]);
                    assert(v@.subrange(i as int + 1, i as int + 19)[15] == v@[i as int + 16]);
                    assert(v@.subrange(i as int + 1, i as int + 19)[16] == v@[i as int + 17]);
                    assert(v@.subrange(i as int + 1, i as int + 19)[17] == v@[i as int + 18]);
                }
            }
        }
    }
    ok
}

/// The first `}` followed by `"` at or after `from`.
fn find_close_exec(v: &Vec<char>, from: usize) -> (out: usize)
    requires
        from <= v@.len(),
    ensures
        out as int == find_close_quote(v@, from as int),
        from <= out <= v@.len(),
{
    proof {
        lemma_find_close_quote(v@, from as int);
    }
    let vlen = v.len();
    let mut p: usize = from;
    loop
        invariant
            from <= p <= vlen,
            vlen == v@.len(),
            find_close_quote(v@, from as int) == find_close_quote(v@, p as int),
        decreases vlen - p,
    {
        if vlen - p < 2 {
            return vlen;
        }
        if v[p] == '}' && v[p + 1] == '"' {
            return p;
        }
        p = p + 1;
    }
}

/// Copies the characters `v[a..b)` into a string.
fn string_from_range(v: &Vec<char>, a: usize, b: usize) -> (out: String)
    requires
        a <= b <= v@.len(),
    ensures
        out@ == v@.subrange(a as int, b as int),
{
    let mut out = String::new();
    let mut i: usize = a;
    while i < b
        invariant
            a <= i <= b <= v@.len(),
            out@ == v@.subrange(a as int, i as int),
        decreases b - i,
    {
        out.push(v[i]);
        proof {
            assert(out@ =~= v@.subrange(a as int, i as int + 1));
        }
        i = i + 1;
    }
    out
}

/// Runs the single postprocessing pass over rendered text, collecting a
/// warning for every envelope whose payload would not decode.
pub fn postprocess_with_warnings(input: &str) -> (out: PostprocessOutput)
    ensures
        out.text@ == spec_postprocess(input@),
        out.skipped.deep_view() == spec_pp_skipped(input@, 0),
{
    let v = chars_of(input);
    let vlen = v.len();
    let mut out = String::new();
    let mut skipped: Vec<String> = Vec::new();
    let mut i: usize = 0;
    while i < vlen
        invariant
            vlen == v@.len(),
            v@ == input@,
            i <= vlen,
            spec_postprocess(input@) == out@ + spec_pp_from(v@, i as int),
            spec_pp_skipped(input@, 0) == skipped.deep_view() + spec_pp_skipped(v@, i as int),
        decreases vlen - i,
    {
        let ghost out_before = out@;
        let ghost skipped_before = skipped.deep_view();
        let mut step_one = true;
        if is_marker_at(&v, i) {
            let e = find_close_exec(&v, i + 19);
            if e < vlen && vlen - e >= 2 {
                proof {
                    lemma_find_close_quote(v@, i as int + 19);
                }
                let payload = string_from_range(&v, i + 19, e);
                match b64_decode(payload.as_str()) {
                    Some(bytes) => {
                        let txt = from_utf8_lossy_outside(&bytes);
                        out.append(txt.as_str());
                        proof {
                            let ghost pl = v@.subrange(i as int + 19, e as int);
                            assert(b64_of(bytes@) == pl);
                            assert((choose|b: Seq<u8>| b64_of(b) == pl) == bytes@);
                            assert(out@ == out_before + spec_pp_replacement(v@, i as int, e as int));
                            assert(spec_pp_skipped(v@, i as int) =~= Seq::<Seq<char>>::empty()
                                + spec_pp_skipped(v@, e as int + 2));
                            assert(Seq::<Seq<char>>::empty() + spec_pp_skipped(v@, e as int + 2)
                                =~= spec_pp_skipped(v@, e as int + 2));
                        }
                    },
                    None => {
                        let kept = string_from_range(&v, i, e + 2);
                        out.append(kept.as_str());
                        skipped.push(payload);
                        proof {
                            let ghost pl = v@.subrange(i as int + 19, e as int);
                            assert(!(exists|b: Seq<u8>| b64_of(b) == pl));
                            assert(out@ == out_before + spec_pp_replacement(v@, i as int, e as int));
                            assert(skipped.deep_view() =~= skipped_before + seq![pl]);
                            assert(spec_pp_skipped(v@, i as int) == seq![pl] + spec_pp_skipped(
                                v@,
                                e as int + 2,
                            ));
                            assert(skipped_before + (seq![pl] + spec_pp_skipped(v@, e as int + 2))
                                =~= (skipped_before + seq![pl]) + spec_pp_skipped(v@, e as int + 2));
                        }
                    },
                }
                proof {
                    assert(out_before + spec_pp_from(v@, i as int) == (out_before
                        + spec_pp_replacement(v@, i as int, e as int)) + spec_pp_from(
                        v@,
                        e as int + 2,
                    )) by {
                        assert(spec_pp_from(v@, i as int) == spec_pp_replacement(
                            v@,
                            i as int,
                            e as int,
                        ) + spec_pp_from(v@, e as int + 2));
                        assert(out_before + (spec_pp_replacement(v@, i as int, e as int)
                            + spec_pp_from(v@, e as int + 2)) =~= (out_before + spec_pp_replacement(
                            v@,
                            i as int,
                            e as int,
                        )) + spec_pp_from(v@, e as int + 2));
                    }
                }
                i = e + 2;
                step_one = false;
            }
        }
        if step_one {
            out.push(v[i]);
            proof {
                assert(spec_pp_from(v@, i as int) == seq![v@[i as int]] + spec_pp_from(
                    v@,
                    i as int + 1,
                ));
                assert(spec_pp_skipped(v@, i as int) == spec_pp_skipped(v@, i as int + 1));
                assert(out@ =~= out_before + seq![v@[i as int]]);
                assert(out_before + (seq![v@[i as int]] + spec_pp_from(v@, i as int + 1)) =~= (
                out_before + seq![v@[i as int]]) + spec_pp_from(v@, i as int + 1));
            }
            i = i + 1;
        }
    }
    proof {
        assert(spec_pp_from(v@, i as int) =~= Seq::<char>::empty());
        assert(out@ =~= out@ + Seq::<char>::empty());
        assert(spec_pp_skipped(v@, i as int) =~= Seq::<Seq<char>>::empty());
        assert(skipped.deep_view() =~= skipped.deep_view() + Seq::<Seq<char>>::empty());
    }
    PostprocessOutput { text: out, skipped }
}

/// Runs the single postprocessing pass and returns the rewritten text
/// alone, for callers with no diagnostic stream of their own.
pub fn postprocess(input: &str) -> (out: String)
    ensures
        out@ == spec_postprocess(input@),
{
    let full = postprocess_with_warnings(input);
    full.text
}


/// The unquote envelope text around a base64 payload.
pub open spec fn envelope_chars(payload: Seq<char>) -> Seq<char> {
    marker_chars() + payload + "}"@
}

/// `find_close_quote` lands exactly on a known first match.
proof fn lemma_find_close_at(s: Seq<char>, k: int, t: int)
    requires
        0 <= k <= t,
        t + 2 <= s.len(),
        forall|p: int| #![trigger s[p]] k <= p < t ==> s[p] != '}',
        s[t] == '}',
        s[t + 1] == '"',
    ensures
        find_close_quote(s, k) == t,
    decreases t - k,
{
    if k < t {
        lemma_find_close_at(s, k + 1, t);
    }
}

/// Unquote single-pass law: one envelope rendered inside quotes and then
/// postprocessed yields exactly the encoded text — quotes and envelope
/// gone, nothing decoded twice. The premises are what the base64 encoder
/// guarantees of the payload it produced for the text's UTF-8 bytes.
pub proof fn lemma_envelope_roundtrip(j: Seq<char>, payload: Seq<char>)
    requires
        payload == b64_of(encode_utf8(j)),
        forall|i: int| 0 <= i < payload.len() ==> is_b64_char(payload[i]),
        forall|b: Seq<u8>| b64_of(b) == payload ==> b == encode_utf8(j),
    ensures
        spec_postprocess(seq!['"'] + envelope_chars(payload) + seq!['"']) == j,
{
    let s = seq!['"'] + envelope_chars(payload) + seq!['"'];
    reveal_strlit("{WHISKERS:UNQUOTE:");
    reveal_strlit("}");
    assert(marker_chars().len() == 18);
    let plen = payload.len() as int;
    assert(s.len() == 21 + plen);
    assert(s[0] == '"');
    assert(s.subrange(1, 19) =~= marker_chars());
    assert(envelope_open(s, 0));
    assert(s[19 + plen] == '}');
    assert(s[20 + plen] == '"');
    assert forall|p: int| #![trigger s[p]] 19 <= p < 19 + plen implies s[p] != '}' by {
        assert(s[p] == payload[p - 19]);
        assert(is_b64_char(payload[p - 19]));
    }
    lemma_find_close_at(s, 19, 19 + plen);
    let e = find_close_quote(s, 19);
    assert(e == 19 + plen);
    let pl = s.subrange(19, e);
    assert(pl =~= payload);
    assert(b64_of(encode_utf8(j)) == pl);
    assert(exists|b: Seq<u8>| b64_of(b) == pl);
    let b = choose|b: Seq<u8>| b64_of(b) == pl;
    assert(b == encode_utf8(j));
    encode_utf8_valid_utf8(j);
    encode_utf8_decode_utf8(j);
    assert(spec_pp_replacement(s, 0, e) == j);
    assert(spec_pp_from(s, e + 2) =~= Seq::<char>::empty());
    assert(spec_pp_from(s, 0) == spec_pp_replacement(s, 0, e) + spec_pp_from(s, e + 2));
    assert(spec_pp_replacement(s, 0, e) + Seq::<char>::empty() =~= j);
}


} // verus!
