//! Opaque pagination tokens: the natural key framed as
//! `<RADIO>:<mcc>:<net>:<area>:<cell>` in ASCII, then base64url without padding.
use vstd::prelude::*;

use base64::Engine;

use crate::cell::CellCursor;
use crate::radio::{radio_from_upper, radio_upper, Radio};
use crate::text::{
    dec_text, is_digit, lemma_dec_text, lemma_parse_dec_text, parse_decimal, parse_unsigned,
    part_views, push_decimal, split_on, split_sep,
};

verus! {

/// ASCII `:`, the field separator of a cursor.
pub const COLON: u8 = 58;

/// Name for the text that base64's URL-safe engine without padding makes of
/// `b`.
pub uninterp spec fn b64url_encode(b: Seq<u8>) -> Seq<char>;

/// Relies on `base64::engine::general_purpose::URL_SAFE_NO_PAD.encode`; it
/// panics only when the output length overflows `usize`.
#[verifier::external_body]
fn base64url_encode(b: &[u8]) -> (r: String)
    requires
        b@.len() <= usize::MAX / 2,
    ensures
        r@ == b64url_encode(b@),
{
    base64::engine::general_purpose::URL_SAFE_NO_PAD.encode(b)
}

/// A character of the URL-safe base64 alphabet: `A-Z`, `a-z`, `0-9`, `-`, `_`.
pub open spec fn is_b64url_char(c: char) -> bool {
    ('A' <= c && c <= 'Z') || ('a' <= c && c <= 'z') || ('0' <= c && c <= '9') || c == '-' || c
        == '_'
}

/// Relies on `base64::engine::general_purpose::URL_SAFE_NO_PAD.decode`: with
/// padding refused and trailing bits refused it accepts exactly the texts that
/// `encode` produces, and gives back the bytes they were made from; a
/// character outside the URL-safe alphabet (padding included) is an error.
#[verifier::external_body]
fn base64url_decode(s: &str) -> (r: Option<Vec<u8>>)
    ensures
        r is Some ==> b64url_encode(r.unwrap()@) == s@,
        forall|b: Seq<u8>| #[trigger] b64url_encode(b) == s@ ==> r is Some && r.unwrap()@ == b,
        (exists|i: int| 0 <= i < s@.len() && !is_b64url_char(#[trigger] s@[i])) ==> r is None,
{
    base64::engine::general_purpose::URL_SAFE_NO_PAD.decode(s).ok()
}

/// The ASCII frame of a key, before base64.
pub open spec fn cursor_raw(k: CellCursor) -> Seq<u8> {
    radio_upper(k.radio) + seq![COLON] + dec_text(k.mcc as nat) + seq![COLON] + dec_text(
        k.net as nat,
    ) + seq![COLON] + dec_text(k.area as nat) + seq![COLON] + dec_text(k.cell as nat)
}

/// The pieces of `b` between colons; `n` colons give `n + 1` pieces.
pub open spec fn split_colon(b: Seq<u8>) -> Seq<Seq<u8>> {
    split_sep(b, COLON)
}

/// The key an ASCII frame stands for: exactly five pieces, a known uppercase
/// radio name, and four unsigned numbers within their types.
pub open spec fn parse_cursor(b: Seq<u8>) -> Option<CellCursor> {
    let parts = split_colon(b);
    if parts.len() != 5 {
        None
    } else {
        match (
            radio_from_upper(parts[0]),
            parse_unsigned(parts[1], u16::MAX as nat),
            parse_unsigned(parts[2], u16::MAX as nat),
            parse_unsigned(parts[3], u32::MAX as nat),
            parse_unsigned(parts[4], u64::MAX as nat),
        ) {
            (Some(radio), Some(mcc), Some(net), Some(area), Some(cell)) => Some(
                CellCursor { radio, mcc: mcc as u16, net: net as u16, area: area as u32, cell: cell as u64 },
            ),
            _ => None,
        }
    }
}

pub open spec fn no_colon(s: Seq<u8>) -> bool {
    forall|i: int| 0 <= i < s.len() ==> s[i] != COLON
}

proof fn lemma_split_no_colon(y: Seq<u8>)
    requires
        no_colon(y),
    ensures
        split_colon(y) == seq![y],
    decreases y.len(),
{
    if y.len() > 0 {
        let t = y.drop_last();
        assert(no_colon(t)) by {
            assert forall|i: int| 0 <= i < t.len() implies t[i] != COLON by {
                assert(t[i] == y[i]);
            }
        }
        lemma_split_no_colon(t);
        assert(y[y.len() - 1] != COLON);
        assert(t.push(y.last()) =~= y);
        assert(split_colon(y) =~= seq![y]);
    } else {
        assert(y =~= Seq::<u8>::empty());
    }
}

proof fn lemma_split_append(x: Seq<u8>, y: Seq<u8>)
    requires
        no_colon(y),
    ensures
        split_colon(x + seq![COLON] + y) == split_colon(x).push(y),
    decreases y.len(),
{
    let xc = x + seq![COLON];
    if y.len() == 0 {
        assert(xc + y =~= xc);
        assert(xc.drop_last() =~= x);
        assert(xc.last() == COLON);
        assert(y =~= Seq::<u8>::empty());
        assert(split_colon(xc) == split_colon(x).push(Seq::<u8>::empty()));
    } else {
        let t = y.drop_last();
        assert(no_colon(t)) by {
            assert forall|i: int| 0 <= i < t.len() implies t[i] != COLON by {
                assert(t[i] == y[i]);
            }
        }
        lemma_split_append(x, t);
        assert((xc + y).drop_last() =~= xc + t);
        assert(y[y.len() - 1] != COLON);
        assert((xc + y).last() == y.last());
        assert(t.push(y.last()) =~= y);
        assert(split_colon(xc + y) =~= split_colon(x).push(y));
    }
}

proof fn lemma_digits_no_colon(s: Seq<u8>)
    requires
        forall|i: int| 0 <= i < s.len() ==> is_digit(#[trigger] s[i]),
    ensures
        no_colon(s),
{
    assert forall|i: int| 0 <= i < s.len() implies s[i] != COLON by {
        assert(is_digit(s[i]));
    }
}

proof fn lemma_radio_names(r: Radio)
    ensures
        radio_from_upper(radio_upper(r)) == Some(r),
        no_colon(radio_upper(r)),
        radio_upper(r).len() > 0,
{
    let s = radio_upper(r);
    assert(s.len() > 0 && s[0] != COLON);
    match r {
        Radio::Gsm => {},
        Radio::Umts => {
            assert(s[0] != radio_upper(Radio::Gsm)[0]);
        },
        Radio::Cdma => {
            assert(s[0] != radio_upper(Radio::Gsm)[0]);
            assert(s[0] != radio_upper(Radio::Umts)[0]);
        },
        Radio::Lte => {
            assert(s[0] != radio_upper(Radio::Gsm)[0]);
            assert(s[0] != radio_upper(Radio::Umts)[0]);
            assert(s[0] != radio_upper(Radio::Cdma)[0]);
        },
        Radio::Nr => {
            assert(s.len() != radio_upper(Radio::Gsm).len());
            assert(s.len() != radio_upper(Radio::Umts).len());
            assert(s.len() != radio_upper(Radio::Cdma).len());
            assert(s.len() != radio_upper(Radio::Lte).len());
        },
    }
    assert(no_colon(s)) by {
        assert forall|i: int| 0 <= i < s.len() implies s[i] != COLON by {}
    }
}

/// Decoding what `encode` produces gives the key back: the frame of any key
/// reads back as that key.
pub proof fn lemma_cursor_round_trip(k: CellCursor)
    ensures
        parse_cursor(cursor_raw(k)) == Some(k),
{
    let r = radio_upper(k.radio);
    let d1 = dec_text(k.mcc as nat);
    let d2 = dec_text(k.net as nat);
    let d3 = dec_text(k.area as nat);
    let d4 = dec_text(k.cell as nat);
    lemma_radio_names(k.radio);
    lemma_dec_text(k.mcc as nat);
    lemma_dec_text(k.net as nat);
    lemma_dec_text(k.area as nat);
    lemma_dec_text(k.cell as nat);
    lemma_digits_no_colon(d1);
    lemma_digits_no_colon(d2);
    lemma_digits_no_colon(d3);
    lemma_digits_no_colon(d4);
    lemma_split_no_colon(r);
    lemma_split_append(r, d1);
    lemma_split_append(r + seq![COLON] + d1, d2);
    lemma_split_append(r + seq![COLON] + d1 + seq![COLON] + d2, d3);
    lemma_split_append(r + seq![COLON] + d1 + seq![COLON] + d2 + seq![COLON] + d3, d4);
    let parts = split_colon(cursor_raw(k));
    assert(parts =~= seq![r, d1, d2, d3, d4]);
    lemma_parse_dec_text(k.mcc as nat, u16::MAX as nat);
    lemma_parse_dec_text(k.net as nat, u16::MAX as nat);
    lemma_parse_dec_text(k.area as nat, u32::MAX as nat);
    lemma_parse_dec_text(k.cell as nat, u64::MAX as nat);
}

/// A frame is invalid when it has other than five pieces, when its first piece
/// is not an uppercase radio name, or when a numeric piece is not an unsigned
/// number within its type.
pub proof fn lemma_cursor_invalid(b: Seq<u8>)
    ensures
        split_colon(b).len() != 5 ==> parse_cursor(b) is None,
        split_colon(b).len() == 5 && radio_from_upper(split_colon(b)[0]) is None ==> parse_cursor(
            b,
        ) is None,
        split_colon(b).len() == 5 && parse_unsigned(split_colon(b)[1], u16::MAX as nat) is None
            ==> parse_cursor(b) is None,
        split_colon(b).len() == 5 && parse_unsigned(split_colon(b)[2], u16::MAX as nat) is None
            ==> parse_cursor(b) is None,
        split_colon(b).len() == 5 && parse_unsigned(split_colon(b)[3], u32::MAX as nat) is None
            ==> parse_cursor(b) is None,
        split_colon(b).len() == 5 && parse_unsigned(split_colon(b)[4], u64::MAX as nat) is None
            ==> parse_cursor(b) is None,
{
}

impl CellCursor {
    /// The ASCII frame of this key.
    pub fn to_raw(&self) -> (r: Vec<u8>)
        ensures
            r@ == cursor_raw(*self),
    {
        let mut out = self.radio.upper_name();
        out.push(COLON);
        push_decimal(&mut out, self.mcc as u128);
        out.push(COLON);
        push_decimal(&mut out, self.net as u128);
        out.push(COLON);
        push_decimal(&mut out, self.area as u128);
        out.push(COLON);
        push_decimal(&mut out, self.cell as u128);
        proof {
            assert(out@ =~= cursor_raw(*self));
        }
        out
    }

    /// The key an ASCII frame stands for, or `None` when it is malformed.
    pub fn from_raw(raw: &[u8]) -> (r: Option<CellCursor>)
        ensures
            r == parse_cursor(raw@),
    {
        let parts = split_on(raw, COLON);
        let ghost pv = part_views(parts@);
        if parts.len() != 5 {
            return None;
        }
        assert(parts[0]@ == pv[0] && parts[1]@ == pv[1] && parts[2]@ == pv[2]);
        assert(parts[3]@ == pv[3] && parts[4]@ == pv[4]);
        let radio = match Radio::from_upper_name(parts[0].as_slice()) {
            Some(r) => r,
            None => return None,
        };
        let mcc = match parse_decimal(parts[1].as_slice(), 0xffff) {
            Some(v) => v as u16,
            None => return None,
        };
        let net = match parse_decimal(parts[2].as_slice(), 0xffff) {
            Some(v) => v as u16,
            None => return None,
        };
        let area = match parse_decimal(parts[3].as_slice(), 0xffff_ffff) {
            Some(v) => v as u32,
            None => return None,
        };
        let cell = match parse_decimal(parts[4].as_slice(), u64::MAX) {
            Some(v) => v,
            None => return None,
        };
        Some(CellCursor { radio, mcc, net, area, cell })
    }

    /// The opaque token for this key: base64url (no padding) of its frame.
    pub fn encode(&self) -> (r: String)
        ensures
            r@ == b64url_encode(cursor_raw(*self)),
    {
        let raw = self.to_raw();
        proof {
            lemma_radio_names(self.radio);
            lemma_dec_text(self.mcc as nat);
            lemma_dec_text(self.net as nat);
            lemma_dec_text(self.area as nat);
            lemma_dec_text(self.cell as nat);
            lemma_frame_short(*self);
        }
        base64url_encode(raw.as_slice())
    }

    /// The key a token stands for. A token that is not base64url, or whose
    /// frame is malformed, gives `None`.
    pub fn decode(encoded: &str) -> (r: Option<CellCursor>)
        ensures
            forall|b: Seq<u8>| #[trigger] b64url_encode(b) == encoded@ ==> r == parse_cursor(b),
            (forall|b: Seq<u8>| #[trigger] b64url_encode(b) != encoded@) ==> r is None,
            (exists|i: int| 0 <= i < encoded@.len() && !is_b64url_char(#[trigger] encoded@[i]))
                ==> r is None,
    {
        match base64url_decode(encoded) {
            Some(bytes) => CellCursor::from_raw(bytes.as_slice()),
            None => None,
        }
    }
}

/// A frame is at most 48 bytes long.
proof fn lemma_frame_short(k: CellCursor)
    ensures
        cursor_raw(k).len() <= 48,
{
    reveal_with_fuel(pow10, 21);
    assert(pow10(5) == 100000);
    assert(pow10(10) == 10000000000);
    assert(pow10(20) == 100000000000000000000);
    lemma_dec_text_len(k.mcc as nat, 5, 100000);
    lemma_dec_text_len(k.net as nat, 5, 100000);
    lemma_dec_text_len(k.area as nat, 10, 10000000000);
    lemma_dec_text_len(k.cell as nat, 20, 100000000000000000000);
}

proof fn lemma_dec_text_len(n: nat, w: nat, bound: nat)
    requires
        n < bound,
        w >= 1,
        bound == pow10(w),
    ensures
        dec_text(n).len() <= w,
    decreases w,
{
    if n >= 10 {
        lemma_dec_text_len(n / 10, (w - 1) as nat, pow10((w - 1) as nat));
    }
}

spec fn pow10(w: nat) -> nat
    decreases w,
{
    if w == 0 {
        1
    } else {
        10 * pow10((w - 1) as nat)
    }
}

} // verus!
