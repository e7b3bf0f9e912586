//! The payload model: a token's metadata encoded to and decoded from a flat
//! textual object carried as UTF-8 bytes.
//!
//! The decoder accepts members in any order, with optional whitespace between
//! structural characters, and recognizes exactly the keys `origin` (string),
//! `feature` (string), `expiry` (non-negative integer fitting 64 bits),
//! `isSubdomain` (boolean), `isThirdParty` (boolean) and `usage` (string;
//! only the value `subset` selects a restriction). A duplicated or unknown
//! key, a missing required key, a wrongly typed value, or any other parse
//! failure is `Error::MalformedInput`.
//!
//! The encoder produces one canonical form: no whitespace, a fixed key
//! order, flags only when set. The canonical form round-trips through the
//! decoder, so signed payload bytes never have to be re-derived.

use vstd::prelude::*;
use vstd::utf8::decode_utf8;
use vstd::utf8::encode_utf8;
use vstd::utf8::valid_utf8;

use crate::token::Error;
use crate::token::Token;
use crate::token::TokenView;
use crate::token::Usage;

verus! {

// Byte values of the structural characters of the textual form.
pub const QUOTE: u8 = 34;
pub const BACKSLASH: u8 = 92;
pub const LBRACE: u8 = 123;
pub const RBRACE: u8 = 125;
pub const COLON: u8 = 58;
pub const COMMA: u8 = 44;

pub open spec fn is_ws_byte(b: u8) -> bool {
    b == 32 || b == 9 || b == 10 || b == 13
}

pub open spec fn is_digit_byte(b: u8) -> bool {
    48 <= b <= 57
}

// The member keys and the fixed words of the textual form, as byte
// sequences ("origin", "feature", "expiry", "isSubdomain", "isThirdParty",
// "usage", "subset", "true", "false").
pub open spec fn key_origin() -> Seq<u8> {
    seq![111u8, 114, 105, 103, 105, 110]
}

pub open spec fn key_feature() -> Seq<u8> {
    seq![102u8, 101, 97, 116, 117, 114, 101]
}

pub open spec fn key_expiry() -> Seq<u8> {
    seq![101u8, 120, 112, 105, 114, 121]
}

pub open spec fn key_is_subdomain() -> Seq<u8> {
    seq![105u8, 115, 83, 117, 98, 100, 111, 109, 97, 105, 110]
}

pub open spec fn key_is_third_party() -> Seq<u8> {
    seq![105u8, 115, 84, 104, 105, 114, 100, 80, 97, 114, 116, 121]
}

pub open spec fn key_usage() -> Seq<u8> {
    seq![117u8, 115, 97, 103, 101]
}

pub open spec fn word_subset() -> Seq<u8> {
    seq![115u8, 117, 98, 115, 101, 116]
}

pub open spec fn word_true() -> Seq<u8> {
    seq![116u8, 114, 117, 101]
}

pub open spec fn word_false() -> Seq<u8> {
    seq![102u8, 97, 108, 115, 101]
}

// ---------------------------------------------------------------------------
// Canonical encoding.
// ---------------------------------------------------------------------------

/// String content with the two characters that would end or escape a string
/// (the quote and the backslash) each preceded by a backslash.
pub open spec fn esc_bytes(s: Seq<u8>) -> Seq<u8>
    decreases s.len(),
{
    if s.len() == 0 {
        Seq::empty()
    } else {
        (if s[0] == QUOTE || s[0] == BACKSLASH {
            seq![BACKSLASH, s[0]]
        } else {
            seq![s[0]]
        }) + esc_bytes(s.drop_first())
    }
}

/// A quoted, escaped string value.
pub open spec fn quoted(s: Seq<u8>) -> Seq<u8> {
    seq![QUOTE] + esc_bytes(s) + seq![QUOTE]
}

/// Decimal digits of `n`, most significant first, no sign, no leading zero
/// (a single `0` for zero).
pub open spec fn dec_digits(n: int) -> Seq<u8>
    decreases n,
{
    if n < 10 {
        seq![(48 + if n >= 0 { n } else { 0 }) as u8]
    } else {
        dec_digits(n / 10) + seq![(48 + n % 10) as u8]
    }
}

/// `,"<key>":` — the lead-in of every member after the first.
pub open spec fn member_prefix(key: Seq<u8>) -> Seq<u8> {
    seq![COMMA, QUOTE] + key + seq![QUOTE, COLON]
}

/// The canonical payload bytes of a token: fixed key order (`origin`,
/// `isSubdomain` only when set, `feature`, `expiry`, `isThirdParty` only
/// when set, `usage` only when restricted), no whitespace.
pub open spec fn spec_payload_bytes(t: TokenView) -> Seq<u8> {
    seq![LBRACE, QUOTE] + key_origin() + seq![QUOTE, COLON] + quoted(encode_utf8(t.origin)) + (
    if t.is_subdomain {
        member_prefix(key_is_subdomain()) + word_true()
    } else {
        Seq::empty()
    }) + member_prefix(key_feature()) + quoted(encode_utf8(t.feature)) + member_prefix(key_expiry())
        + dec_digits(t.expiry as int) + (if t.is_third_party {
        member_prefix(key_is_third_party()) + word_true()
    } else {
        Seq::empty()
    }) + (if t.usage == Usage::Subset {
        member_prefix(key_usage()) + quoted(word_subset())
    } else {
        Seq::empty()
    }) + seq![RBRACE]
}

// ---------------------------------------------------------------------------
// Decoding, specified.
// ---------------------------------------------------------------------------

/// First position at or after `i` holding no whitespace byte.
pub open spec fn skip_ws(s: Seq<u8>, i: int) -> int
    decreases s.len() - i,
{
    if 0 <= i < s.len() && is_ws_byte(s[i]) {
        skip_ws(s, i + 1)
    } else {
        i
    }
}

/// String content read from position `i` (just after an opening quote) up to
/// the closing quote: `\"` and `\\` stand for the quote and the backslash,
/// a backslash before anything else is an error, every other byte stands
/// for itself. Yields the content and the position after the closing quote.
pub open spec fn parse_string_body(s: Seq<u8>, i: int) -> Option<(Seq<u8>, int)>
    decreases s.len() - i,
{
    if !(0 <= i < s.len()) {
        None
    } else if s[i] == QUOTE {
        Some((Seq::empty(), i + 1))
    } else if s[i] == BACKSLASH {
        if i + 1 < s.len() && (s[i + 1] == QUOTE || s[i + 1] == BACKSLASH) {
            match parse_string_body(s, i + 2) {
                Some(r) => Some((seq![s[i + 1]] + r.0, r.1)),
                None => None,
            }
        } else {
            None
        }
    } else {
        match parse_string_body(s, i + 1) {
            Some(r) => Some((seq![s[i]] + r.0, r.1)),
            None => None,
        }
    }
}

/// First position at or after `i` holding no decimal digit.
pub open spec fn digits_end(s: Seq<u8>, i: int) -> int
    decreases s.len() - i,
{
    if 0 <= i < s.len() && is_digit_byte(s[i]) {
        digits_end(s, i + 1)
    } else {
        i
    }
}

/// Value of the decimal digits `s[i..j)`.
pub open spec fn digits_value(s: Seq<u8>, i: int, j: int) -> int
    decreases j - i,
{
    if j <= i {
        0
    } else {
        digits_value(s, i, j - 1) * 10 + (s[j - 1] - 48)
    }
}

/// An unsigned decimal number at position `i`: at least one digit, value
/// fitting 64 bits. Yields the value and the position after the digits.
pub open spec fn parse_u64_at(s: Seq<u8>, i: int) -> Option<(u64, int)> {
    let j = digits_end(s, i);
    if j == i || digits_value(s, i, j) > u64::MAX {
        None
    } else {
        Some((digits_value(s, i, j) as u64, j))
    }
}

/// Does `lit` stand at position `i`? Yields the position after it.
pub open spec fn parse_lit_at(s: Seq<u8>, i: int, lit: Seq<u8>) -> Option<int> {
    if 0 <= i && i + lit.len() <= s.len() && s.subrange(i, i + lit.len() as int) == lit {
        Some(i + lit.len() as int)
    } else {
        None
    }
}

/// The members read so far: nothing may be read twice.
#[verifier::ext_equal]
pub ghost struct PartialFields {
    pub origin: Option<Seq<u8>>,
    pub feature: Option<Seq<u8>>,
    pub expiry: Option<u64>,
    pub is_subdomain: Option<bool>,
    pub is_third_party: Option<bool>,
    pub usage: Option<Usage>,
}

impl PartialFields {
    pub open spec fn empty() -> PartialFields {
        PartialFields {
            origin: None,
            feature: None,
            expiry: None,
            is_subdomain: None,
            is_third_party: None,
            usage: None,
        }
    }
}

/// One member's value, read at position `i` for the member named `key`, and
/// folded into `acc`. An unknown or duplicated key, or a value of the wrong
/// shape, fails. A `usage` value other than `subset` means no restriction.
pub open spec fn apply_member(
    acc: PartialFields,
    key: Seq<u8>,
    s: Seq<u8>,
    i: int,
) -> Option<(PartialFields, int)> {
    if key == key_origin() {
        if acc.origin is Some || !(0 <= i < s.len() && s[i] == QUOTE) {
            None
        } else {
            match parse_string_body(s, i + 1) {
                Some(r) => Some((PartialFields { origin: Some(r.0), ..acc }, r.1)),
                None => None,
            }
        }
    } else if key == key_feature() {
        if acc.feature is Some || !(0 <= i < s.len() && s[i] == QUOTE) {
            None
        } else {
            match parse_string_body(s, i + 1) {
                Some(r) => Some((PartialFields { feature: Some(r.0), ..acc }, r.1)),
                None => None,
            }
        }
    } else if key == key_expiry() {
        if acc.expiry is Some {
            None
        } else {
            match parse_u64_at(s, i) {
                Some(r) => Some((PartialFields { expiry: Some(r.0), ..acc }, r.1)),
                None => None,
            }
        }
    } else if key == key_is_subdomain() {
        if acc.is_subdomain is Some {
            None
        } else {
            match parse_lit_at(s, i, word_true()) {
                Some(j) => Some((PartialFields { is_subdomain: Some(true), ..acc }, j)),
                None => match parse_lit_at(s, i, word_false()) {
                    Some(j) => Some((PartialFields { is_subdomain: Some(false), ..acc }, j)),
                    None => None,
                },
            }
        }
    } else if key == key_is_third_party() {
        if acc.is_third_party is Some {
            None
        } else {
            match parse_lit_at(s, i, word_true()) {
                Some(j) => Some((PartialFields { is_third_party: Some(true), ..acc }, j)),
                None => match parse_lit_at(s, i, word_false()) {
                    Some(j) => Some((PartialFields { is_third_party: Some(false), ..acc }, j)),
                    None => None,
                },
            }
        }
    } else if key == key_usage() {
        if acc.usage is Some || !(0 <= i < s.len() && s[i] == QUOTE) {
            None
        } else {
            match parse_string_body(s, i + 1) {
                Some(r) => Some(
                    (
                        PartialFields {
                            usage: Some(
                                if r.0 == word_subset() {
                                    Usage::Subset
                                } else {
                                    Usage::Unrestricted
                                },
                            ),
                            ..acc
                        },
                        r.1,
                    ),
                ),
                None => None,
            }
        }
    } else {
        None
    }
}

/// The member list from position `i` (just after `{` or after a `,`) to the
/// closing `}`: whitespace, a quoted key, whitespace, `:`, whitespace, the
/// value, whitespace, then either `,` and further members or `}`. Yields
/// the accumulated fields and the position after the `}`.
pub open spec fn parse_members(s: Seq<u8>, i: int, acc: PartialFields) -> Option<
    (PartialFields, int),
>
    decreases s.len() - i via parse_members_decreases
{
    let i1 = skip_ws(s, i);
    if !(0 <= i && i1 < s.len() && s[i1] == QUOTE) {
        None
    } else {
        match parse_string_body(s, i1 + 1) {
            None => None,
            Some(kr) => {
                let i3 = skip_ws(s, kr.1);
                if !(i3 < s.len() && s[i3] == COLON) {
                    None
                } else {
                    match apply_member(acc, kr.0, s, skip_ws(s, i3 + 1)) {
                        None => None,
                        Some(ar) => {
                            let i6 = skip_ws(s, ar.1);
                            if i6 < s.len() && s[i6] == COMMA {
                                parse_members(s, i6 + 1, ar.0)
                            } else if i6 < s.len() && s[i6] == RBRACE {
                                Some((ar.0, i6 + 1))
                            } else {
                                None
                            }
                        },
                    }
                }
            },
        }
    }
}

#[via_fn]
proof fn parse_members_decreases(s: Seq<u8>, i: int, acc: PartialFields) {
    let i1 = skip_ws(s, i);
    if 0 <= i && i1 < s.len() && s[i1] == QUOTE {
        lemma_skip_ws_bounds(s, i);
        if parse_string_body(s, i1 + 1) is Some {
            let kr = parse_string_body(s, i1 + 1)->Some_0;
            lemma_parse_string_body_bounds(s, i1 + 1);
            let i3 = skip_ws(s, kr.1);
            lemma_skip_ws_bounds(s, kr.1);
            if i3 < s.len() && s[i3] == COLON {
                lemma_skip_ws_bounds(s, i3 + 1);
                if apply_member(acc, kr.0, s, skip_ws(s, i3 + 1)) is Some {
                    let ar = apply_member(acc, kr.0, s, skip_ws(s, i3 + 1))->Some_0;
                    lemma_apply_member_bounds(acc, kr.0, s, skip_ws(s, i3 + 1));
                    lemma_skip_ws_bounds(s, ar.1);
                }
            }
        }
    }
}

/// All fields assembled: `origin`, `feature` and `expiry` are owed, the two
/// flags default to false and the usage to unrestricted, and the two string
/// contents must be UTF-8.
pub open spec fn assemble_fields(acc: PartialFields) -> Result<TokenView, Error> {
    if acc.origin is Some && acc.feature is Some && acc.expiry is Some && valid_utf8(
        acc.origin->Some_0,
    ) && valid_utf8(acc.feature->Some_0) {
        Ok(
            TokenView {
                origin: decode_utf8(acc.origin->Some_0),
                feature: decode_utf8(acc.feature->Some_0),
                expiry: acc.expiry->Some_0,
                is_subdomain: if acc.is_subdomain is Some {
                    acc.is_subdomain->Some_0
                } else {
                    false
                },
                is_third_party: if acc.is_third_party is Some {
                    acc.is_third_party->Some_0
                } else {
                    false
                },
                usage: if acc.usage is Some {
                    acc.usage->Some_0
                } else {
                    Usage::Unrestricted
                },
            },
        )
    } else {
        Err(Error::MalformedInput)
    }
}

/// What decoding payload bytes yields: the whole input must be one flat
/// object, with nothing but whitespace around it. The version tag is
/// reserved for future payload-shape evolution and does not influence the
/// result yet.
pub open spec fn spec_token_from_payload(version: u8, s: Seq<u8>) -> Result<TokenView, Error> {
    let i0 = skip_ws(s, 0);
    if !(i0 < s.len() && s[i0] == LBRACE) {
        Err(Error::MalformedInput)
    } else {
        match parse_members(s, i0 + 1, PartialFields::empty()) {
            None => Err(Error::MalformedInput),
            Some(r) => {
                if skip_ws(s, r.1) == s.len() {
                    assemble_fields(r.0)
                } else {
                    Err(Error::MalformedInput)
                }
            },
        }
    }
}

/// An executable decode result models a specified one: same error, or a
/// token whose view is the specified one.
pub open spec fn token_result_models(r: Result<Token, Error>, m: Result<TokenView, Error>) -> bool {
    match r {
        Ok(tok) => m is Ok && tok@ == m->Ok_0,
        Err(e) => m is Err && e == m->Err_0,
    }
}

// ---------------------------------------------------------------------------
// Bounds lemmas on the parsing functions.
// ---------------------------------------------------------------------------

pub proof fn lemma_skip_ws_bounds(s: Seq<u8>, i: int)
    ensures
        i <= skip_ws(s, i),
        i <= s.len() ==> skip_ws(s, i) <= s.len(),
        0 <= i && skip_ws(s, i) < s.len() ==> !is_ws_byte(s[skip_ws(s, i)]),
    decreases s.len() - i,
{
    if 0 <= i < s.len() && is_ws_byte(s[i]) {
        lemma_skip_ws_bounds(s, i + 1);
    }
}

pub proof fn lemma_parse_string_body_bounds(s: Seq<u8>, i: int)
    ensures
        parse_string_body(s, i) matches Some(r) ==> i < r.1 <= s.len(),
    decreases s.len() - i,
{
    if 0 <= i < s.len() {
        if s[i] == QUOTE {
        } else if s[i] == BACKSLASH {
            if i + 1 < s.len() && (s[i + 1] == QUOTE || s[i + 1] == BACKSLASH) {
                lemma_parse_string_body_bounds(s, i + 2);
            }
        } else {
            lemma_parse_string_body_bounds(s, i + 1);
        }
    }
}

pub proof fn lemma_digits_end_bounds(s: Seq<u8>, i: int)
    ensures
        i <= digits_end(s, i),
        i <= s.len() ==> digits_end(s, i) <= s.len(),
        0 <= i && digits_end(s, i) < s.len() ==> !is_digit_byte(s[digits_end(s, i)]),
    decreases s.len() - i,
{
    if 0 <= i < s.len() && is_digit_byte(s[i]) {
        lemma_digits_end_bounds(s, i + 1);
    }
}

pub proof fn lemma_apply_member_bounds(acc: PartialFields, key: Seq<u8>, s: Seq<u8>, i: int)
    requires
        0 <= i,
    ensures
        apply_member(acc, key, s, i) matches Some(r) ==> i < r.1 <= s.len(),
{
    lemma_parse_string_body_bounds(s, i + 1);
    lemma_digits_end_bounds(s, i);
}

pub proof fn lemma_esc_bytes_app(a: Seq<u8>, b: Seq<u8>)
    ensures
        esc_bytes(a + b) == esc_bytes(a) + esc_bytes(b),
    decreases a.len(),
{
    if a.len() == 0 {
        assert(a + b =~= b);
        assert(esc_bytes(a) + esc_bytes(b) =~= esc_bytes(b));
    } else {
        lemma_esc_bytes_app(a.drop_first(), b);
        assert((a + b).drop_first() =~= a.drop_first() + b);
        assert(esc_bytes(a) + esc_bytes(b) =~= (if a[0] == QUOTE || a[0] == BACKSLASH {
            seq![BACKSLASH, a[0]]
        } else {
            seq![a[0]]
        }) + (esc_bytes(a.drop_first()) + esc_bytes(b)));
    }
}

pub proof fn lemma_digits_value_nonneg(s: Seq<u8>, i: int, j: int)
    requires
        forall|k: int| i <= k < j ==> is_digit_byte(#[trigger] s[k]),
    ensures
        digits_value(s, i, j) >= 0,
    decreases j - i,
{
    if j > i {
        lemma_digits_value_nonneg(s, i, j - 1);
    }
}

// ---------------------------------------------------------------------------
// The canonical form round-trips: decoding what the encoder produced gives
// the token back, for every token.
// ---------------------------------------------------------------------------

/// Escaping changes nothing in content free of quotes and backslashes —
/// every key and fixed word of the format is such content.
pub proof fn lemma_esc_bytes_plain(s: Seq<u8>)
    requires
        forall|k: int| 0 <= k < s.len() ==> s[k] != QUOTE && #[trigger] s[k] != BACKSLASH,
    ensures
        esc_bytes(s) == s,
    decreases s.len(),
{
    if s.len() == 0 {
        assert(esc_bytes(s) =~= s);
    } else {
        lemma_esc_bytes_plain(s.drop_first());
        assert(esc_bytes(s) =~= seq![s[0]] + s.drop_first());
        assert(seq![s[0]] + s.drop_first() =~= s);
    }
}

/// Reading a string whose region holds escaped content followed by the
/// closing quote yields exactly that content.
pub proof fn lemma_parse_string_of_esc(x: Seq<u8>, s: Seq<u8>, i: int)
    requires
        0 <= i,
        i + esc_bytes(x).len() < s.len(),
        s.subrange(i, i + esc_bytes(x).len() as int) == esc_bytes(x),
        s[i + esc_bytes(x).len()] == QUOTE,
    ensures
        parse_string_body(s, i) == Some((x, i + esc_bytes(x).len() + 1)),
    decreases x.len(),
{
    let e = esc_bytes(x);
    assert(forall|k: int| 0 <= k < e.len() ==> s[i + k] == #[trigger] e[k]) by {
        assert(forall|k: int|
            0 <= k < e.len() ==> s.subrange(i, i + e.len() as int)[k] == #[trigger] e[k]);
    }
    if x.len() == 0 {
        assert(s[i] == QUOTE);
        assert(x =~= Seq::<u8>::empty());
    } else {
        let x0 = x[0];
        let xr = x.drop_first();
        let er = esc_bytes(xr);
        let e0: Seq<u8> = if x0 == QUOTE || x0 == BACKSLASH {
            seq![BACKSLASH, x0]
        } else {
            seq![x0]
        };
        assert(e == e0 + er);
        let inner = i + e0.len();
        assert(forall|k: int| 0 <= k < er.len() ==> (e0 + er)[e0.len() + k] == #[trigger] er[k]);
        assert(s.subrange(inner, inner + er.len() as int) =~= er);
        assert(s[inner + er.len()] == QUOTE);
        lemma_parse_string_of_esc(xr, s, inner);
        if x0 == QUOTE || x0 == BACKSLASH {
            assert(e[0] == BACKSLASH && e[1] == x0);
            assert(s[i + 0] == e[0] && s[i + 1] == e[1]);
            assert(s[i] == BACKSLASH);
            assert(s[i + 1] == x0);
            assert(seq![s[i + 1]] + xr =~= x);
        } else {
            assert(e[0] == x0);
            assert(s[i + 0] == e[0]);
            assert(s[i] == x0);
            assert(seq![s[i]] + xr =~= x);
        }
    }
}

/// A quoted value region parses to its content: the quote opens, the
/// escaped content follows, the quote closes.
pub proof fn lemma_parse_quoted(x: Seq<u8>, s: Seq<u8>, p: int)
    requires
        0 <= p,
        p + quoted(x).len() <= s.len(),
        s.subrange(p, p + quoted(x).len() as int) == quoted(x),
    ensures
        s[p] == QUOTE,
        parse_string_body(s, p + 1) == Some((x, p + quoted(x).len())),
{
    let q = quoted(x);
    let e = esc_bytes(x);
    assert(forall|k: int| 0 <= k < q.len() ==> s[p + k] == #[trigger] q[k]) by {
        assert(forall|k: int|
            0 <= k < q.len() ==> s.subrange(p, p + q.len() as int)[k] == #[trigger] q[k]);
    }
    assert(q[0] == QUOTE);
    assert(s[p + 0] == q[0]);
    assert(s[p] == QUOTE);
    assert(forall|k: int| 0 <= k < e.len() ==> (seq![QUOTE] + e + seq![QUOTE])[1 + k] == #[trigger] e[k]);
    assert(s.subrange(p + 1, p + 1 + e.len() as int) =~= e);
    assert(q[1 + e.len() as int] == QUOTE);
    assert(s[p + (1 + e.len() as int)] == q[1 + e.len() as int]);
    assert(s[p + 1 + e.len()] == QUOTE);
    lemma_parse_string_of_esc(x, s, p + 1);
}

/// Every decimal digit sequence the encoder writes is at least one byte of
/// digits.
pub proof fn lemma_dec_digits_digits(n: int)
    requires
        n >= 0,
    ensures
        dec_digits(n).len() >= 1,
        forall|k: int| 0 <= k < dec_digits(n).len() ==> is_digit_byte(#[trigger] dec_digits(n)[k]),
    decreases n,
{
    if n >= 10 {
        lemma_dec_digits_digits(n / 10);
    }
}

/// The digit span starting at digits ends at the first non-digit.
pub proof fn lemma_digits_span(s: Seq<u8>, i: int, j: int)
    requires
        0 <= i <= j <= s.len(),
        forall|k: int| i <= k < j ==> is_digit_byte(#[trigger] s[k]),
        j == s.len() || !is_digit_byte(s[j]),
    ensures
        digits_end(s, i) == j,
    decreases j - i,
{
    if i < j {
        lemma_digits_span(s, i + 1, j);
    }
}

/// The digits the encoder wrote for `n` evaluate back to `n`.
pub proof fn lemma_digits_value_of_dec(n: int, s: Seq<u8>, i: int)
    requires
        n >= 0,
        0 <= i,
        i + dec_digits(n).len() <= s.len(),
        s.subrange(i, i + dec_digits(n).len() as int) == dec_digits(n),
    ensures
        digits_value(s, i, i + dec_digits(n).len()) == n,
    decreases n,
{
    let d = dec_digits(n);
    assert(forall|k: int| 0 <= k < d.len() ==> s[i + k] == #[trigger] d[k]) by {
        assert(forall|k: int|
            0 <= k < d.len() ==> s.subrange(i, i + d.len() as int)[k] == #[trigger] d[k]);
    }
    if n < 10 {
        assert(digits_value(s, i, i) == 0);
        assert(d[0] == (48 + n) as u8);
        assert(s[i + 0] == d[0]);
        assert(s[i] == (48 + n) as u8);
    } else {
        let dp = dec_digits(n / 10);
        assert(d == dp + seq![(48 + n % 10) as u8]);
        assert(forall|k: int| 0 <= k < dp.len() ==> (dp + seq![(48 + n % 10) as u8])[k] == #[trigger] dp[k]);
        assert(s.subrange(i, i + dp.len() as int) =~= dp);
        lemma_digits_value_of_dec(n / 10, s, i);
        assert(s[i + d.len() - 1] == d[d.len() - 1]);
        assert(d[d.len() - 1] == (48 + n % 10) as u8);
        vstd::arithmetic::div_mod::lemma_fundamental_div_mod(n, 10);
        assert(digits_value(s, i, i + d.len()) == digits_value(s, i, i + d.len() - 1) * 10 + (s[i
            + d.len() - 1] - 48));
    }
}

/// The number region the encoder wrote for `n` parses back to `n`.
pub proof fn lemma_parse_u64_of_dec(n: u64, s: Seq<u8>, i: int)
    requires
        0 <= i,
        i + dec_digits(n as int).len() <= s.len(),
        s.subrange(i, i + dec_digits(n as int).len() as int) == dec_digits(n as int),
        i + dec_digits(n as int).len() == s.len() || !is_digit_byte(
            s[i + dec_digits(n as int).len()],
        ),
    ensures
        parse_u64_at(s, i) == Some((n, i + dec_digits(n as int).len())),
{
    let d = dec_digits(n as int);
    lemma_dec_digits_digits(n as int);
    assert(forall|k: int| 0 <= k < d.len() ==> s[i + k] == #[trigger] d[k]) by {
        assert(forall|k: int|
            0 <= k < d.len() ==> s.subrange(i, i + d.len() as int)[k] == #[trigger] d[k]);
    }
    assert(forall|k: int| i <= k < i + d.len() ==> is_digit_byte(#[trigger] s[k])) by {
        assert(forall|k: int| i <= k < i + d.len() ==> s[k] == d[k - i]);
    }
    lemma_digits_span(s, i, i + d.len());
    lemma_digits_value_of_dec(n as int, s, i);
}

/// One canonical member consumed: a quoted key free of escapes, a colon, a
/// value already known to fold into the fields, then the comma before the
/// next member or the closing brace.
pub proof fn lemma_member_step(
    s: Seq<u8>,
    i: int,
    key: Seq<u8>,
    vbytes: Seq<u8>,
    acc: PartialFields,
    acc2: PartialFields,
)
    requires
        0 <= i,
        esc_bytes(key) == key,
        vbytes.len() > 0,
        !is_ws_byte(vbytes[0]),
        i + quoted(key).len() + 1 + vbytes.len() < s.len(),
        s.subrange(i, i + quoted(key).len() + 1 + vbytes.len() as int) == quoted(key)
            + seq![COLON] + vbytes,
        apply_member(acc, key, s, i + quoted(key).len() + 1) == Some(
            (acc2, i + quoted(key).len() + 1 + vbytes.len() as int),
        ),
        s[i + quoted(key).len() + 1 + vbytes.len()] == COMMA || s[i + quoted(key).len() + 1
            + vbytes.len()] == RBRACE,
    ensures
        s[i + quoted(key).len() + 1 + vbytes.len()] == COMMA ==> parse_members(s, i, acc)
            == parse_members(s, i + quoted(key).len() + 1 + vbytes.len() + 1, acc2),
        s[i + quoted(key).len() + 1 + vbytes.len()] == RBRACE ==> parse_members(s, i, acc) == Some(
            (acc2, i + quoted(key).len() + 1 + vbytes.len() + 1),
        ),
{
    let q = quoted(key);
    let m = q + seq![COLON] + vbytes;
    let e = i + m.len();
    assert(forall|k: int| 0 <= k < m.len() ==> s[i + k] == #[trigger] m[k]) by {
        assert(forall|k: int|
            0 <= k < m.len() ==> s.subrange(i, i + m.len() as int)[k] == #[trigger] m[k]);
    }
    assert(forall|k: int| 0 <= k < q.len() ==> m[k] == #[trigger] q[k]);
    assert(s.subrange(i, i + q.len() as int) =~= q);
    lemma_parse_quoted(key, s, i);
    assert(skip_ws(s, i) == i);
    assert(m[q.len() as int] == COLON);
    assert(s[i + q.len() as int] == COLON);
    assert(skip_ws(s, i + q.len() as int) == i + q.len());
    assert(m[q.len() + 1 as int] == vbytes[0]);
    assert(s[i + q.len() + 1 as int] == vbytes[0]);
    assert(skip_ws(s, i + q.len() + 1 as int) == i + q.len() + 1);
    assert(skip_ws(s, e) == e);
    if s[e] == COMMA {
        assert(parse_members(s, i, acc) == parse_members(s, e + 1, acc2));
    } else {
        assert(parse_members(s, i, acc) == Some((acc2, e + 1)));
    }
}

/// None of the fixed keys and words needs escaping.
pub proof fn lemma_keys_plain()
    ensures
        esc_bytes(key_origin()) == key_origin(),
        esc_bytes(key_feature()) == key_feature(),
        esc_bytes(key_expiry()) == key_expiry(),
        esc_bytes(key_is_subdomain()) == key_is_subdomain(),
        esc_bytes(key_is_third_party()) == key_is_third_party(),
        esc_bytes(key_usage()) == key_usage(),
        esc_bytes(word_subset()) == word_subset(),
{
    lemma_esc_bytes_plain(key_origin());
    lemma_esc_bytes_plain(key_feature());
    lemma_esc_bytes_plain(key_expiry());
    lemma_esc_bytes_plain(key_is_subdomain());
    lemma_esc_bytes_plain(key_is_third_party());
    lemma_esc_bytes_plain(key_usage());
    lemma_esc_bytes_plain(word_subset());
}

// The canonical payload, cut into its member chunks, with the positions
// and partially read fields after each member. These exist to let the
// round-trip proof walk one member at a time.
pub open spec fn rt_m1(t: TokenView) -> Seq<u8> {
    quoted(key_origin()) + seq![COLON] + quoted(encode_utf8(t.origin))
}

pub open spec fn rt_m2() -> Seq<u8> {
    quoted(key_is_subdomain()) + seq![COLON] + word_true()
}

pub open spec fn rt_m3(t: TokenView) -> Seq<u8> {
    quoted(key_feature()) + seq![COLON] + quoted(encode_utf8(t.feature))
}

pub open spec fn rt_m4(t: TokenView) -> Seq<u8> {
    quoted(key_expiry()) + seq![COLON] + dec_digits(t.expiry as int)
}

pub open spec fn rt_m5() -> Seq<u8> {
    quoted(key_is_third_party()) + seq![COLON] + word_true()
}

pub open spec fn rt_m6() -> Seq<u8> {
    quoted(key_usage()) + seq![COLON] + quoted(word_subset())
}

pub open spec fn rt_sub(t: TokenView) -> Seq<u8> {
    if t.is_subdomain {
        seq![COMMA] + rt_m2()
    } else {
        Seq::empty()
    }
}

pub open spec fn rt_third(t: TokenView) -> Seq<u8> {
    if t.is_third_party {
        seq![COMMA] + rt_m5()
    } else {
        Seq::empty()
    }
}

pub open spec fn rt_usage(t: TokenView) -> Seq<u8> {
    if t.usage == Usage::Subset {
        seq![COMMA] + rt_m6()
    } else {
        Seq::empty()
    }
}

pub open spec fn rt_chunks(t: TokenView) -> Seq<u8> {
    seq![LBRACE] + rt_m1(t) + rt_sub(t) + seq![COMMA] + rt_m3(t) + seq![COMMA] + rt_m4(t)
        + rt_third(t) + rt_usage(t) + seq![RBRACE]
}

pub open spec fn rt_e1(t: TokenView) -> int {
    1 + rt_m1(t).len() as int
}

pub open spec fn rt_p3(t: TokenView) -> int {
    rt_e1(t) + 1 + rt_sub(t).len() as int
}

pub open spec fn rt_p4(t: TokenView) -> int {
    rt_p3(t) + rt_m3(t).len() as int + 1
}

pub open spec fn rt_e4(t: TokenView) -> int {
    rt_p4(t) + rt_m4(t).len() as int
}

pub open spec fn rt_p6(t: TokenView) -> int {
    rt_e4(t) + 1 + rt_third(t).len() as int
}

pub open spec fn rt_acc1(t: TokenView) -> PartialFields {
    PartialFields { origin: Some(encode_utf8(t.origin)), ..PartialFields::empty() }
}

pub open spec fn rt_acc2(t: TokenView) -> PartialFields {
    if t.is_subdomain {
        PartialFields { is_subdomain: Some(true), ..rt_acc1(t) }
    } else {
        rt_acc1(t)
    }
}

pub open spec fn rt_acc3(t: TokenView) -> PartialFields {
    PartialFields { feature: Some(encode_utf8(t.feature)), ..rt_acc2(t) }
}

pub open spec fn rt_acc4(t: TokenView) -> PartialFields {
    PartialFields { expiry: Some(t.expiry), ..rt_acc3(t) }
}

pub open spec fn rt_acc5(t: TokenView) -> PartialFields {
    if t.is_third_party {
        PartialFields { is_third_party: Some(true), ..rt_acc4(t) }
    } else {
        rt_acc4(t)
    }
}

pub open spec fn rt_acc6(t: TokenView) -> PartialFields {
    if t.usage == Usage::Subset {
        PartialFields { usage: Some(Usage::Subset), ..rt_acc5(t) }
    } else {
        rt_acc5(t)
    }
}

/// The canonical payload is its chunks.
#[verifier::rlimit(100)]
#[verifier::spinoff_prover]
proof fn lemma_rt_structure(t: TokenView)
    ensures
        spec_payload_bytes(t) == rt_chunks(t),
        rt_chunks(t)[0] == LBRACE,
        rt_chunks(t)[rt_e1(t)] == COMMA,
    decreases 0int,
{
    lemma_keys_plain();
    assert(spec_payload_bytes(t) =~= rt_chunks(t));
    assert(rt_chunks(t)[0] == LBRACE);
    assert(rt_chunks(t)[rt_e1(t)] == COMMA);
}

/// The subrange a three-part split pins down, and the byte after it.
proof fn lemma_concat_mid(s: Seq<u8>, pre: Seq<u8>, mid: Seq<u8>, post: Seq<u8>)
    requires
        s == pre + mid + post,
    ensures
        s.subrange(pre.len() as int, pre.len() + mid.len() as int) == mid,
        post.len() > 0 ==> s[pre.len() + mid.len() as int] == post[0],
        s.len() == pre.len() + mid.len() + post.len(),
{
    assert(s.subrange(pre.len() as int, pre.len() + mid.len() as int) =~= mid);
    if post.len() > 0 {
        assert(s[pre.len() + mid.len() as int] == post[0]);
    }
}

/// The origin member consumed.
#[verifier::rlimit(100)]
#[verifier::spinoff_prover]
proof fn lemma_rt_step1(t: TokenView)
    ensures
        parse_members(rt_chunks(t), 1, PartialFields::empty()) == parse_members(
            rt_chunks(t),
            rt_e1(t) + 1,
            rt_acc1(t),
        ),
{
    let s = rt_chunks(t);
    let ox = encode_utf8(t.origin);
    lemma_keys_plain();
    let post = rt_sub(t) + seq![COMMA] + rt_m3(t) + seq![COMMA] + rt_m4(t) + rt_third(t)
        + rt_usage(t) + seq![RBRACE];
    assert(s =~= seq![LBRACE] + rt_m1(t) + post);
    lemma_concat_mid(s, seq![LBRACE], rt_m1(t), post);
    assert(s[rt_e1(t)] == post[0]);
    assert(post[0] == COMMA);
    let pre2 = seq![LBRACE] + quoted(key_origin()) + seq![COLON];
    let post2 = post;
    assert(s =~= pre2 + quoted(ox) + post2);
    lemma_concat_mid(s, pre2, quoted(ox), post2);
    let pv = pre2.len() as int;
    lemma_parse_quoted(ox, s, pv);
    assert(apply_member(PartialFields::empty(), key_origin(), s, pv) == Some(
        (rt_acc1(t), rt_e1(t)),
    ));
    lemma_member_step(s, 1, key_origin(), quoted(ox), PartialFields::empty(), rt_acc1(t));
}

/// The subdomain flag consumed where it is set; nothing to do where not.
#[verifier::rlimit(100)]
#[verifier::spinoff_prover]
proof fn lemma_rt_step2(t: TokenView)
    ensures
        parse_members(rt_chunks(t), rt_e1(t) + 1, rt_acc1(t)) == parse_members(
            rt_chunks(t),
            rt_p3(t),
            rt_acc2(t),
        ),
{
    let s = rt_chunks(t);
    lemma_keys_plain();
    if t.is_subdomain {
        let pre = seq![LBRACE] + rt_m1(t) + seq![COMMA];
        let post = seq![COMMA] + rt_m3(t) + seq![COMMA] + rt_m4(t) + rt_third(t) + rt_usage(t)
            + seq![RBRACE];
        assert(s =~= pre + rt_m2() + post);
        lemma_concat_mid(s, pre, rt_m2(), post);
        let p2 = pre.len() as int;
        let e2 = p2 + rt_m2().len() as int;
        assert(s[e2] == COMMA);
        let pre2 = pre + quoted(key_is_subdomain()) + seq![COLON];
        assert(s =~= pre2 + word_true() + post);
        lemma_concat_mid(s, pre2, word_true(), post);
        let pv = pre2.len() as int;
        assert(parse_lit_at(s, pv, word_true()) == Some(pv + word_true().len() as int));
        assert(apply_member(rt_acc1(t), key_is_subdomain(), s, pv) == Some((rt_acc2(t), e2)));
        lemma_member_step(s, p2, key_is_subdomain(), word_true(), rt_acc1(t), rt_acc2(t));
    }
}

/// The feature member consumed.
#[verifier::rlimit(100)]
#[verifier::spinoff_prover]
proof fn lemma_rt_step3(t: TokenView)
    ensures
        parse_members(rt_chunks(t), rt_p3(t), rt_acc2(t)) == parse_members(
            rt_chunks(t),
            rt_p4(t),
            rt_acc3(t),
        ),
{
    let s = rt_chunks(t);
    let fx = encode_utf8(t.feature);
    lemma_keys_plain();
    let pre = seq![LBRACE] + rt_m1(t) + rt_sub(t) + seq![COMMA];
    let post = seq![COMMA] + rt_m4(t) + rt_third(t) + rt_usage(t) + seq![RBRACE];
    assert(s =~= pre + rt_m3(t) + post);
    lemma_concat_mid(s, pre, rt_m3(t), post);
    let p3 = pre.len() as int;
    assert(p3 == rt_p3(t));
    let e3 = p3 + rt_m3(t).len() as int;
    assert(s[e3] == COMMA);
    let pre2 = pre + quoted(key_feature()) + seq![COLON];
    assert(s =~= pre2 + quoted(fx) + post);
    lemma_concat_mid(s, pre2, quoted(fx), post);
    let pv = pre2.len() as int;
    lemma_parse_quoted(fx, s, pv);
    assert(apply_member(rt_acc2(t), key_feature(), s, pv) == Some((rt_acc3(t), e3)));
    lemma_member_step(s, p3, key_feature(), quoted(fx), rt_acc2(t), rt_acc3(t));
}

/// The expiry member consumed; where nothing follows it, the object
/// closes here.
#[verifier::rlimit(100)]
#[verifier::spinoff_prover]
proof fn lemma_rt_step4(t: TokenView)
    ensures
        t.is_third_party || t.usage == Usage::Subset ==> parse_members(
            rt_chunks(t),
            rt_p4(t),
            rt_acc3(t),
        ) == parse_members(rt_chunks(t), rt_e4(t) + 1, rt_acc4(t)),
        !t.is_third_party && t.usage != Usage::Subset ==> parse_members(
            rt_chunks(t),
            rt_p4(t),
            rt_acc3(t),
        ) == Some((rt_acc4(t), rt_chunks(t).len() as int)),
{
    let s = rt_chunks(t);
    lemma_keys_plain();
    let d = dec_digits(t.expiry as int);
    let pre = seq![LBRACE] + rt_m1(t) + rt_sub(t) + seq![COMMA] + rt_m3(t) + seq![COMMA];
    let post = rt_third(t) + rt_usage(t) + seq![RBRACE];
    assert(s =~= pre + rt_m4(t) + post);
    lemma_concat_mid(s, pre, rt_m4(t), post);
    let p4 = pre.len() as int;
    assert(p4 == rt_p4(t));
    let e4 = p4 + rt_m4(t).len() as int;
    assert(e4 == rt_e4(t));
    if t.is_third_party || t.usage == Usage::Subset {
        assert(s[e4] == COMMA);
    } else {
        assert(s[e4] == RBRACE);
        assert(e4 + 1 == s.len());
    }
    let pre2 = pre + quoted(key_expiry()) + seq![COLON];
    assert(s =~= pre2 + d + post);
    lemma_concat_mid(s, pre2, d, post);
    let pv = pre2.len() as int;
    assert(s.subrange(pv, pv + d.len() as int) == d);
    lemma_parse_u64_of_dec(t.expiry, s, pv);
    assert(apply_member(rt_acc3(t), key_expiry(), s, pv) == Some((rt_acc4(t), e4)));
    lemma_member_step(s, p4, key_expiry(), d, rt_acc3(t), rt_acc4(t));
}

/// The third-party flag consumed where it is set; where the usage does not
/// follow, the object closes here.
#[verifier::rlimit(100)]
#[verifier::spinoff_prover]
proof fn lemma_rt_step5(t: TokenView)
    requires
        t.is_third_party,
    ensures
        t.usage == Usage::Subset ==> parse_members(rt_chunks(t), rt_e4(t) + 1, rt_acc4(t))
            == parse_members(rt_chunks(t), rt_p6(t), rt_acc5(t)),
        t.usage != Usage::Subset ==> parse_members(rt_chunks(t), rt_e4(t) + 1, rt_acc4(t)) == Some(
            (rt_acc5(t), rt_chunks(t).len() as int),
        ),
{
    let s = rt_chunks(t);
    lemma_keys_plain();
    let pre = seq![LBRACE] + rt_m1(t) + rt_sub(t) + seq![COMMA] + rt_m3(t) + seq![COMMA] + rt_m4(t)
        + seq![COMMA];
    let post = rt_usage(t) + seq![RBRACE];
    assert(s =~= pre + rt_m5() + post);
    lemma_concat_mid(s, pre, rt_m5(), post);
    let p5 = pre.len() as int;
    assert(p5 == rt_e4(t) + 1);
    let e5 = p5 + rt_m5().len() as int;
    if t.usage == Usage::Subset {
        assert(s[e5] == COMMA);
        assert(e5 + 1 == rt_p6(t));
    } else {
        assert(s[e5] == RBRACE);
        assert(e5 + 1 == s.len());
    }
    let pre2 = pre + quoted(key_is_third_party()) + seq![COLON];
    assert(s =~= pre2 + word_true() + post);
    lemma_concat_mid(s, pre2, word_true(), post);
    let pv = pre2.len() as int;
    assert(parse_lit_at(s, pv, word_true()) == Some(pv + word_true().len() as int));
    assert(apply_member(rt_acc4(t), key_is_third_party(), s, pv) == Some((rt_acc5(t), e5)));
    lemma_member_step(s, p5, key_is_third_party(), word_true(), rt_acc4(t), rt_acc5(t));
}

/// The usage member consumed where it is restricted; the object always
/// closes right after it.
#[verifier::rlimit(100)]
#[verifier::spinoff_prover]
proof fn lemma_rt_step6(t: TokenView)
    requires
        t.usage == Usage::Subset,
    ensures
        parse_members(rt_chunks(t), rt_p6(t), rt_acc5(t)) == Some(
            (rt_acc6(t), rt_chunks(t).len() as int),
        ),
{
    let s = rt_chunks(t);
    lemma_keys_plain();
    let pre = seq![LBRACE] + rt_m1(t) + rt_sub(t) + seq![COMMA] + rt_m3(t) + seq![COMMA] + rt_m4(t)
        + rt_third(t) + seq![COMMA];
    let post = seq![RBRACE];
    assert(s =~= pre + rt_m6() + post);
    lemma_concat_mid(s, pre, rt_m6(), post);
    let p6 = pre.len() as int;
    assert(p6 == rt_p6(t));
    let e6 = p6 + rt_m6().len() as int;
    assert(s[e6] == RBRACE);
    assert(e6 + 1 == s.len());
    let pre2 = pre + quoted(key_usage()) + seq![COLON];
    assert(s =~= pre2 + quoted(word_subset()) + post);
    lemma_concat_mid(s, pre2, quoted(word_subset()), post);
    let pv = pre2.len() as int;
    lemma_parse_quoted(word_subset(), s, pv);
    assert(apply_member(rt_acc5(t), key_usage(), s, pv) == Some((rt_acc6(t), e6)));
    lemma_member_step(s, p6, key_usage(), quoted(word_subset()), rt_acc5(t), rt_acc6(t));
}

/// Members never read while decoding fall back to their defaults: no
/// subdomain grant, no third-party grant, no usage restriction. A payload
/// in which those keys do not occur leaves exactly these fields unread.
pub proof fn lemma_unread_fields_default(acc: PartialFields)
    requires
        acc.is_subdomain is None,
        acc.is_third_party is None,
        acc.usage is None,
        assemble_fields(acc) is Ok,
    ensures
        assemble_fields(acc)->Ok_0.is_subdomain == false,
        assemble_fields(acc)->Ok_0.is_third_party == false,
        assemble_fields(acc)->Ok_0.usage == Usage::Unrestricted,
{
}

/// Decoding inverts encoding: the canonical payload bytes of any token,
/// decoded under any version tag, yield exactly that token. Nothing a
/// token says is lost on the wire.
pub proof fn lemma_payload_round_trip(t: TokenView, version: u8)
    ensures
        spec_token_from_payload(version, spec_payload_bytes(t)) == Ok::<TokenView, Error>(t),
{
    let s = spec_payload_bytes(t);
    vstd::utf8::encode_utf8_valid_utf8(t.origin);
    vstd::utf8::encode_utf8_valid_utf8(t.feature);
    vstd::utf8::encode_utf8_decode_utf8(t.origin);
    vstd::utf8::encode_utf8_decode_utf8(t.feature);
    lemma_rt_structure(t);
    assert(s[0] == LBRACE);
    assert(skip_ws(s, 0) == 0);
    lemma_rt_step1(t);
    lemma_rt_step2(t);
    lemma_rt_step3(t);
    lemma_rt_step4(t);
    if t.is_third_party {
        lemma_rt_step5(t);
    }
    if t.usage == Usage::Subset {
        lemma_rt_step6(t);
    }
    if !t.is_third_party && t.usage != Usage::Subset {
        assert(rt_acc6(t) == rt_acc4(t));
    }
    assert(parse_members(s, 1, PartialFields::empty()) == Some((rt_acc6(t), s.len() as int)));
    assert(skip_ws(s, s.len() as int) == s.len());
    assert(assemble_fields(rt_acc6(t)) is Ok);
    assert(assemble_fields(rt_acc6(t))->Ok_0 =~= t);
    assert(spec_token_from_payload(version, s) == Ok::<TokenView, Error>(t));
}

// ---------------------------------------------------------------------------
// Encoding, executed.
// ---------------------------------------------------------------------------

fn key_origin_vec() -> (r: Vec<u8>)
    ensures
        r@ == key_origin(),
{
    vec![111u8, 114, 105, 103, 105, 110]
}

fn key_feature_vec() -> (r: Vec<u8>)
    ensures
        r@ == key_feature(),
{
    vec![102u8, 101, 97, 116, 117, 114, 101]
}

fn key_expiry_vec() -> (r: Vec<u8>)
    ensures
        r@ == key_expiry(),
{
    vec![101u8, 120, 112, 105, 114, 121]
}

fn key_is_subdomain_vec() -> (r: Vec<u8>)
    ensures
        r@ == key_is_subdomain(),
{
    vec![105u8, 115, 83, 117, 98, 100, 111, 109, 97, 105, 110]
}

fn key_is_third_party_vec() -> (r: Vec<u8>)
    ensures
        r@ == key_is_third_party(),
{
    vec![105u8, 115, 84, 104, 105, 114, 100, 80, 97, 114, 116, 121]
}

fn key_usage_vec() -> (r: Vec<u8>)
    ensures
        r@ == key_usage(),
{
    vec![117u8, 115, 97, 103, 101]
}

fn word_subset_vec() -> (r: Vec<u8>)
    ensures
        r@ == word_subset(),
{
    vec![115u8, 117, 98, 115, 101, 116]
}

fn word_true_vec() -> (r: Vec<u8>)
    ensures
        r@ == word_true(),
{
    vec![116u8, 114, 117, 101]
}

fn word_false_vec() -> (r: Vec<u8>)
    ensures
        r@ == word_false(),
{
    vec![102u8, 97, 108, 115, 101]
}

fn push_lit(out: &mut Vec<u8>, lit: &Vec<u8>)
    ensures
        final(out)@ == old(out)@ + lit@,
{
    let mut k: usize = 0;
    while k < lit.len()
        invariant
            k <= lit@.len(),
            out@ == old(out)@ + lit@.take(k as int),
        decreases lit@.len() - k,
    {
        out.push(lit[k]);
        assert(old(out)@ + lit@.take(k + 1) =~= (old(out)@ + lit@.take(k as int)).push(
            lit@[k as int],
        ));
        k = k + 1;
    }
    assert(lit@.take(lit@.len() as int) =~= lit@);
}

/// `,"<key>":` pushed onto `out`.
fn push_member_prefix(out: &mut Vec<u8>, key: &Vec<u8>)
    ensures
        final(out)@ == old(out)@ + member_prefix(key@),
{
    out.push(COMMA);
    out.push(QUOTE);
    push_lit(out, key);
    out.push(QUOTE);
    out.push(COLON);
    assert(final(out)@ =~= old(out)@ + member_prefix(key@));
}

fn push_escaped(out: &mut Vec<u8>, s: &[u8])
    ensures
        final(out)@ == old(out)@ + esc_bytes(s@),
{
    let mut k: usize = 0;
    while k < s.len()
        invariant
            k <= s@.len(),
            out@ == old(out)@ + esc_bytes(s@.take(k as int)),
        decreases s@.len() - k,
    {
        let b = s[k];
        proof {
            let x = s@[k as int];
            lemma_esc_bytes_app(s@.take(k as int), seq![x]);
            assert(s@.take(k + 1) =~= s@.take(k as int) + seq![x]);
            assert(seq![x].drop_first() =~= Seq::<u8>::empty());
            assert(esc_bytes(Seq::<u8>::empty()) == Seq::<u8>::empty());
            assert(esc_bytes(seq![x]) =~= if x == QUOTE || x == BACKSLASH {
                seq![BACKSLASH, x]
            } else {
                seq![x]
            });
        }
        if b == QUOTE || b == BACKSLASH {
            out.push(BACKSLASH);
            out.push(b);
            assert(out@ =~= old(out)@ + esc_bytes(s@.take(k + 1)));
        } else {
            out.push(b);
            assert(out@ =~= old(out)@ + esc_bytes(s@.take(k + 1)));
        }
        k = k + 1;
    }
    assert(s@.take(s@.len() as int) =~= s@);
}

/// `"<content>"` pushed onto `out`, with the content escaped.
fn push_quoted(out: &mut Vec<u8>, s: &[u8])
    ensures
        final(out)@ == old(out)@ + quoted(s@),
{
    out.push(QUOTE);
    push_escaped(out, s);
    out.push(QUOTE);
    assert(final(out)@ =~= old(out)@ + quoted(s@));
}

/// The decimal digits of `n` pushed onto `out`.
fn push_dec(out: &mut Vec<u8>, n: u64)
    ensures
        final(out)@ == old(out)@ + dec_digits(n as int),
    decreases n,
{
    if n < 10 {
        out.push(48 + n as u8);
        assert(final(out)@ =~= old(out)@ + dec_digits(n as int));
    } else {
        push_dec(out, n / 10);
        out.push(48 + (n % 10) as u8);
        assert(final(out)@ =~= old(out)@ + dec_digits(n as int));
    }
}

// ---------------------------------------------------------------------------
// Decoding, executed.
// ---------------------------------------------------------------------------

#[verifier::external_type_specification]
#[verifier::external_body]
pub struct ExFromUtf8Error(std::string::FromUtf8Error);

/// Relies on String::from_utf8: succeeds exactly on valid UTF-8 and keeps
/// the bytes as they are.
pub assume_specification[ String::from_utf8 ](v: Vec<u8>) -> (r: Result<
    String,
    std::string::FromUtf8Error,
>)
    ensures
        r matches Ok(s) ==> valid_utf8(v@) && s@ == decode_utf8(v@) && encode_utf8(s@) == v@,
        r is Err ==> !valid_utf8(v@),
;

fn skip_ws_exec(s: &[u8], i: usize) -> (r: usize)
    requires
        i <= s@.len(),
    ensures
        r == skip_ws(s@, i as int),
        i <= r <= s@.len(),
{
    let mut j: usize = i;
    while j < s.len() && is_ws_byte_exec(s[j])
        invariant
            i <= j <= s@.len(),
            skip_ws(s@, i as int) == skip_ws(s@, j as int),
        decreases s@.len() - j,
    {
        assert(skip_ws(s@, j as int) == skip_ws(s@, j + 1));
        j = j + 1;
    }
    proof {
        lemma_skip_ws_bounds(s@, j as int);
    }
    j
}

#[verifier::when_used_as_spec(is_ws_byte)]
fn is_ws_byte_exec(b: u8) -> (r: bool)
    ensures
        r == is_ws_byte(b),
{
    b == 32 || b == 9 || b == 10 || b == 13
}

#[verifier::when_used_as_spec(is_digit_byte)]
fn is_digit_byte_exec(b: u8) -> (r: bool)
    ensures
        r == is_digit_byte(b),
{
    48 <= b && b <= 57
}

/// String content read from just after an opening quote; see
/// [`parse_string_body`].
fn parse_string_exec(s: &[u8], i: usize) -> (r: Option<(Vec<u8>, usize)>)
    requires
        i <= s@.len(),
    ensures
        r matches Some(p) ==> parse_string_body(s@, i as int) == Some((p.0@, p.1 as int)) && i
            < p.1 <= s@.len(),
        r is None ==> parse_string_body(s@, i as int) is None,
{
    let mut out: Vec<u8> = Vec::new();
    let mut j: usize = i;
    loop
        invariant
            i <= j <= s@.len(),
            parse_string_body(s@, i as int) == (match parse_string_body(s@, j as int) {
                Some(r) => Some((out@ + r.0, r.1)),
                None => None::<(Seq<u8>, int)>,
            }),
        decreases s@.len() - j,
    {
        if j >= s.len() {
            return None;
        }
        let b = s[j];
        if b == QUOTE {
            assert(parse_string_body(s@, j as int) == Some((Seq::<u8>::empty(), j + 1)));
            assert(out@ + Seq::<u8>::empty() =~= out@);
            proof {
                lemma_parse_string_body_bounds(s@, i as int);
            }
            return Some((out, j + 1));
        }
        if b == BACKSLASH {
            if j + 1 < s.len() && (s[j + 1] == QUOTE || s[j + 1] == BACKSLASH) {
                let c = s[j + 1];
                proof {
                    let tail = parse_string_body(s@, j + 2);
                    if tail is Some {
                        let tr = tail->Some_0;
                        assert(out@ + (seq![c] + tr.0) =~= out@.push(c) + tr.0);
                    }
                }
                out.push(c);
                j = j + 2;
            } else {
                return None;
            }
        } else {
            proof {
                let tail = parse_string_body(s@, j + 1);
                if tail is Some {
                    let tr = tail->Some_0;
                    assert(out@ + (seq![b] + tr.0) =~= out@.push(b) + tr.0);
                }
            }
            out.push(b);
            j = j + 1;
        }
    }
}

/// An unsigned decimal number; see [`parse_u64_at`]. Rejects a value that
/// does not fit 64 bits.
fn parse_u64_exec(s: &[u8], i: usize) -> (r: Option<(u64, usize)>)
    requires
        i <= s@.len(),
    ensures
        r matches Some(p) ==> parse_u64_at(s@, i as int) == Some((p.0, p.1 as int)) && i < p.1
            <= s@.len(),
        r is None ==> parse_u64_at(s@, i as int) is None,
{
    let mut j: usize = i;
    let mut val: u64 = 0;
    let mut over: bool = false;
    while j < s.len() && is_digit_byte_exec(s[j])
        invariant
            i <= j <= s@.len(),
            digits_end(s@, i as int) == digits_end(s@, j as int),
            forall|k: int| i <= k < j ==> is_digit_byte(#[trigger] s@[k]),
            !over ==> val == digits_value(s@, i as int, j as int),
            over ==> digits_value(s@, i as int, j as int) > u64::MAX,
        decreases s@.len() - j,
    {
        let d = s[j] - 48;
        assert(digits_end(s@, j as int) == digits_end(s@, j + 1));
        assert(digits_value(s@, i as int, j + 1) == digits_value(s@, i as int, j as int) * 10 + d);
        proof {
            lemma_digits_value_nonneg(s@, i as int, j as int);
            vstd::arithmetic::div_mod::lemma_fundamental_div_mod((u64::MAX - d) as int, 10);
        }
        if over {
        } else if val > (u64::MAX - d as u64) / 10 {
            over = true;
        } else {
            val = val * 10 + d as u64;
        }
        j = j + 1;
    }
    proof {
        lemma_digits_end_bounds(s@, j as int);
    }
    assert(digits_end(s@, j as int) == j as int);
    if j == i || over {
        None
    } else {
        Some((val, j))
    }
}

/// Does `lit` stand at position `i`? See [`parse_lit_at`].
fn parse_lit_exec(s: &[u8], i: usize, lit: &Vec<u8>) -> (r: Option<usize>)
    requires
        i <= s@.len(),
    ensures
        r matches Some(j) ==> parse_lit_at(s@, i as int, lit@) == Some(j as int) && i <= j
            <= s@.len() && j == i + lit@.len(),
        r is None ==> parse_lit_at(s@, i as int, lit@) is None,
{
    if s.len() - i < lit.len() {
        return None;
    }
    let end: usize = i + lit.len();
    let mut idx: usize = i;
    while idx < end
        invariant
            i <= idx <= end,
            end == i + lit@.len(),
            end <= s@.len(),
            forall|m: int| 0 <= m < idx - i ==> s@[i + m] == #[trigger] lit@[m],
        decreases end - idx,
    {
        if s[idx] != lit[idx - i] {
            assert(s@.subrange(i as int, i + lit@.len()) != lit@) by {
                assert(s@.subrange(i as int, i + lit@.len())[idx - i] != lit@[idx - i]);
            }
            return None;
        }
        idx = idx + 1;
    }
    assert(s@.subrange(i as int, i + lit@.len()) =~= lit@);
    Some(end)
}

pub(crate) fn eq_bytes(a: &Vec<u8>, b: &Vec<u8>) -> (r: bool)
    ensures
        r == (a@ == b@),
{
    if a.len() != b.len() {
        return false;
    }
    let mut k: usize = 0;
    while k < a.len()
        invariant
            k <= a@.len(),
            a@.len() == b@.len(),
            forall|m: int| 0 <= m < k ==> a@[m] == #[trigger] b@[m],
        decreases a@.len() - k,
    {
        if a[k] != b[k] {
            return false;
        }
        k = k + 1;
    }
    assert(a@ =~= b@);
    true
}

/// The members read so far, executably.
struct FieldsAcc {
    origin: Option<Vec<u8>>,
    feature: Option<Vec<u8>>,
    expiry: Option<u64>,
    is_subdomain: Option<bool>,
    is_third_party: Option<bool>,
    usage: Option<Usage>,
}

impl View for FieldsAcc {
    type V = PartialFields;

    closed spec fn view(&self) -> PartialFields {
        PartialFields {
            origin: match self.origin {
                Some(v) => Some(v@),
                None => None,
            },
            feature: match self.feature {
                Some(v) => Some(v@),
                None => None,
            },
            expiry: self.expiry,
            is_subdomain: self.is_subdomain,
            is_third_party: self.is_third_party,
            usage: self.usage,
        }
    }
}

/// One member's value folded into `acc`; see [`apply_member`].
fn apply_member_exec(acc: &mut FieldsAcc, key: &Vec<u8>, s: &[u8], i: usize) -> (r: Option<usize>)
    requires
        i <= s@.len(),
    ensures
        r matches Some(j) ==> apply_member(old(acc)@, key@, s@, i as int) == Some(
            (final(acc)@, j as int),
        ) && i < j <= s@.len(),
        r is None ==> apply_member(old(acc)@, key@, s@, i as int) is None,
{
    if eq_bytes(key, &key_origin_vec()) {
        if acc.origin.is_some() || !(i < s.len() && s[i] == QUOTE) {
            return None;
        }
        match parse_string_exec(s, i + 1) {
            Some(p) => {
                acc.origin = Some(p.0);
                Some(p.1)
            },
            None => None,
        }
    } else if eq_bytes(key, &key_feature_vec()) {
        if acc.feature.is_some() || !(i < s.len() && s[i] == QUOTE) {
            return None;
        }
        match parse_string_exec(s, i + 1) {
            Some(p) => {
                acc.feature = Some(p.0);
                Some(p.1)
            },
            None => None,
        }
    } else if eq_bytes(key, &key_expiry_vec()) {
        if acc.expiry.is_some() {
            return None;
        }
        match parse_u64_exec(s, i) {
            Some(p) => {
                acc.expiry = Some(p.0);
                Some(p.1)
            },
            None => None,
        }
    } else if eq_bytes(key, &key_is_subdomain_vec()) {
        if acc.is_subdomain.is_some() {
            return None;
        }
        match parse_lit_exec(s, i, &word_true_vec()) {
            Some(j) => {
                acc.is_subdomain = Some(true);
                Some(j)
            },
            None => match parse_lit_exec(s, i, &word_false_vec()) {
                Some(j) => {
                    acc.is_subdomain = Some(false);
                    Some(j)
                },
                None => None,
            },
        }
    } else if eq_bytes(key, &key_is_third_party_vec()) {
        if acc.is_third_party.is_some() {
            return None;
        }
        match parse_lit_exec(s, i, &word_true_vec()) {
            Some(j) => {
                acc.is_third_party = Some(true);
                Some(j)
            },
            None => match parse_lit_exec(s, i, &word_false_vec()) {
                Some(j) => {
                    acc.is_third_party = Some(false);
                    Some(j)
                },
                None => None,
            },
        }
    } else if eq_bytes(key, &key_usage_vec()) {
        if acc.usage.is_some() || !(i < s.len() && s[i] == QUOTE) {
            return None;
        }
        match parse_string_exec(s, i + 1) {
            Some(p) => {
                acc.usage = Some(
                    if eq_bytes(&p.0, &word_subset_vec()) {
                        Usage::Subset
                    } else {
                        Usage::Unrestricted
                    },
                );
                Some(p.1)
            },
            None => None,
        }
    } else {
        None
    }
}

/// The fields assembled into a token; see [`assemble_fields`].
fn assemble_exec(acc: FieldsAcc, version: u8) -> (r: Result<Token, Error>)
    ensures
        token_result_models(r, assemble_fields(acc@)),
{
    let FieldsAcc { origin, feature, expiry, is_subdomain, is_third_party, usage } = acc;
    let (origin_bytes, feature_bytes, expiry_val) = match (origin, feature, expiry) {
        (Some(o), Some(f), Some(e)) => (o, f, e),
        _ => {
            return Err(Error::MalformedInput);
        },
    };
    let origin_s = match String::from_utf8(origin_bytes) {
        Ok(s) => s,
        Err(_) => {
            return Err(Error::MalformedInput);
        },
    };
    let feature_s = match String::from_utf8(feature_bytes) {
        Ok(s) => s,
        Err(_) => {
            return Err(Error::MalformedInput);
        },
    };
    Ok(
        Token {
            origin: origin_s,
            feature: feature_s,
            expiry: expiry_val,
            is_subdomain: match is_subdomain {
                Some(b) => b,
                None => false,
            },
            is_third_party: match is_third_party {
                Some(b) => b,
                None => false,
            },
            usage: match usage {
                Some(u) => u,
                None => Usage::Unrestricted,
            },
        },
    )
}

impl Token {
    /// A token decoded from payload bytes: the whole input must be one flat
    /// textual object. Yields `Error::MalformedInput` on any shortfall, and
    /// exactly when the specified decoding does. The version tag is
    /// reserved for future payload-shape evolution.
    pub fn from_payload(version: u8, payload: &[u8]) -> (r: Result<Token, Error>)
        ensures
            token_result_models(r, spec_token_from_payload(version, payload@)),
    {
        let i0 = skip_ws_exec(payload, 0);
        if !(i0 < payload.len() && payload[i0] == LBRACE) {
            return Err(Error::MalformedInput);
        }
        let mut acc = FieldsAcc {
            origin: None,
            feature: None,
            expiry: None,
            is_subdomain: None,
            is_third_party: None,
            usage: None,
        };
        let mut j: usize = i0 + 1;
        assert(acc@ == PartialFields::empty());
        loop
            invariant
                j <= payload@.len(),
                i0 < payload@.len(),
                payload@[i0 as int] == LBRACE,
                i0 == skip_ws(payload@, 0),
                parse_members(payload@, i0 + 1, PartialFields::empty()) == parse_members(
                    payload@,
                    j as int,
                    acc@,
                ),
            decreases payload@.len() - j,
        {
            let ghost s = payload@;
            let ghost acc0 = acc@;
            let ghost j0 = j as int;
            let i1 = skip_ws_exec(payload, j);
            if !(i1 < payload.len() && payload[i1] == QUOTE) {
                assert(parse_members(s, j0, acc0) is None);
                return Err(Error::MalformedInput);
            }
            let (key, i2) = match parse_string_exec(payload, i1 + 1) {
                Some(p) => p,
                None => {
                    assert(parse_members(s, j0, acc0) is None);
                    return Err(Error::MalformedInput);
                },
            };
            let i3 = skip_ws_exec(payload, i2);
            if !(i3 < payload.len() && payload[i3] == COLON) {
                assert(parse_members(s, j0, acc0) is None);
                return Err(Error::MalformedInput);
            }
            let i4 = skip_ws_exec(payload, i3 + 1);
            let i5 = match apply_member_exec(&mut acc, &key, payload, i4) {
                Some(j2) => j2,
                None => {
                    assert(parse_members(s, j0, acc0) is None);
                    return Err(Error::MalformedInput);
                },
            };
            let i6 = skip_ws_exec(payload, i5);
            if i6 < payload.len() && payload[i6] == COMMA {
                assert(parse_members(s, j0, acc0) == parse_members(s, i6 + 1, acc@));
                j = i6 + 1;
            } else if i6 < payload.len() && payload[i6] == RBRACE {
                assert(parse_members(s, j0, acc0) == Some((acc@, i6 + 1)));
                let after = skip_ws_exec(payload, i6 + 1);
                if after != payload.len() {
                    return Err(Error::MalformedInput);
                }
                return assemble_exec(acc, version);
            } else {
                assert(parse_members(s, j0, acc0) is None);
                return Err(Error::MalformedInput);
            }
        }
    }
}

impl Token {
    /// The canonical payload bytes of this token: fixed key order, flags
    /// only when set, no whitespace. These bytes are what gets signed; the
    /// verifying side always carries them as they are and never re-derives
    /// them.
    pub fn to_payload(&self) -> (r: Vec<u8>)
        ensures
            r@ == spec_payload_bytes(self@),
    {
        let mut out: Vec<u8> = Vec::new();
        out.push(LBRACE);
        out.push(QUOTE);
        push_lit(&mut out, &key_origin_vec());
        out.push(QUOTE);
        out.push(COLON);
        push_quoted(&mut out, self.origin.as_str().as_bytes());
        let ghost part_origin = seq![LBRACE, QUOTE] + key_origin() + seq![QUOTE, COLON] + quoted(
            encode_utf8(self@.origin),
        );
        assert(out@ =~= part_origin);
        if self.is_subdomain {
            push_member_prefix(&mut out, &key_is_subdomain_vec());
            push_lit(&mut out, &word_true_vec());
        }
        let ghost part_sub = part_origin + (if self@.is_subdomain {
            member_prefix(key_is_subdomain()) + word_true()
        } else {
            Seq::<u8>::empty()
        });
        assert(out@ =~= part_sub);
        push_member_prefix(&mut out, &key_feature_vec());
        push_quoted(&mut out, self.feature.as_str().as_bytes());
        push_member_prefix(&mut out, &key_expiry_vec());
        push_dec(&mut out, self.expiry);
        let ghost part_expiry = part_sub + member_prefix(key_feature()) + quoted(
            encode_utf8(self@.feature),
        ) + member_prefix(key_expiry()) + dec_digits(self@.expiry as int);
        assert(out@ =~= part_expiry);
        if self.is_third_party {
            push_member_prefix(&mut out, &key_is_third_party_vec());
            push_lit(&mut out, &word_true_vec());
        }
        let ghost part_third = part_expiry + (if self@.is_third_party {
            member_prefix(key_is_third_party()) + word_true()
        } else {
            Seq::<u8>::empty()
        });
        assert(out@ =~= part_third);
        match self.usage {
            Usage::Subset => {
                push_member_prefix(&mut out, &key_usage_vec());
                push_quoted(&mut out, word_subset_vec().as_slice());
            },
            Usage::Unrestricted => {},
        }
        out.push(RBRACE);
        assert(out@ =~= spec_payload_bytes(self@));
        out
    }
}

} // verus!
