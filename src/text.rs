//! Unsigned integers as ASCII text: decimal and hexadecimal digits, and the
//! decimal reading that accepts what `str::parse` accepts for unsigned types.
use vstd::prelude::*;

verus! {

/// ASCII `0`.
pub const DIGIT_ZERO: u8 = 48;

/// ASCII `+`.
pub const PLUS_SIGN: u8 = 43;

/// Decimal digits of `n`, most significant first, without leading zeros.
pub open spec fn dec_text(n: nat) -> Seq<u8>
    decreases n,
{
    if n < 10 {
        seq![(DIGIT_ZERO + n) as u8]
    } else {
        dec_text(n / 10).push((DIGIT_ZERO + n % 10) as u8)
    }
}

/// ASCII `a` less ten: the hexadecimal digit of `d >= 10` is this plus `d`.
pub const HEX_LETTER_BASE: u8 = 87;

/// Lowercase hexadecimal digit for `d < 16`.
pub open spec fn hex_digit(d: nat) -> u8 {
    if d < 10 {
        (DIGIT_ZERO + d) as u8
    } else {
        (HEX_LETTER_BASE + d) as u8
    }
}

/// Lowercase hexadecimal digits of `n`, most significant first, without
/// leading zeros.
pub open spec fn hex_text(n: nat) -> Seq<u8>
    decreases n,
{
    if n < 16 {
        seq![hex_digit(n)]
    } else {
        hex_text(n / 16).push(hex_digit(n % 16))
    }
}

pub open spec fn is_digit(c: u8) -> bool {
    DIGIT_ZERO <= c <= DIGIT_ZERO + 9
}

pub open spec fn all_digits(s: Seq<u8>) -> bool {
    forall|i: int| 0 <= i < s.len() ==> is_digit(#[trigger] s[i])
}

/// Value of a string of decimal digits.
pub open spec fn digits_value(s: Seq<u8>) -> nat
    decreases s.len(),
{
    if s.len() == 0 {
        0
    } else {
        digits_value(s.drop_last()) * 10 + (s.last() - DIGIT_ZERO) as nat
    }
}

/// Reading of an unsigned integer no larger than `max`: an optional `+`, then
/// one or more decimal digits. Anything else, or a larger value, is `None`.
pub open spec fn parse_unsigned(s: Seq<u8>, max: nat) -> Option<nat> {
    let d = if s.len() > 0 && s[0] == PLUS_SIGN {
        s.drop_first()
    } else {
        s
    };
    if d.len() > 0 && all_digits(d) && digits_value(d) <= max {
        Some(digits_value(d))
    } else {
        None
    }
}

/// The decimal text of `n` is digits only and reads back as `n`.
pub proof fn lemma_dec_text(n: nat)
    ensures
        dec_text(n).len() > 0,
        all_digits(dec_text(n)),
        digits_value(dec_text(n)) == n,
    decreases n,
{
    if n >= 10 {
        lemma_dec_text(n / 10);
        let t = dec_text(n);
        let c = (DIGIT_ZERO + n % 10) as u8;
        assert(t == dec_text(n / 10).push(c));
        assert(t.drop_last() =~= dec_text(n / 10));
        assert(t.last() == c);
        assert(digits_value(t) == digits_value(dec_text(n / 10)) * 10 + (c - DIGIT_ZERO));
        assert forall|i: int| 0 <= i < t.len() implies is_digit(#[trigger] t[i]) by {
            if i < t.len() - 1 {
                assert(t[i] == dec_text(n / 10)[i]);
            }
        }
    } else {
        assert(dec_text(n).drop_last() =~= Seq::<u8>::empty());
        assert(digits_value(Seq::<u8>::empty()) == 0);
        assert(digits_value(dec_text(n)) == digits_value(dec_text(n).drop_last()) * 10 + (
        dec_text(n).last() - DIGIT_ZERO));
    }
}

/// Every value `n <= max` reads back from its decimal text.
pub proof fn lemma_parse_dec_text(n: nat, max: nat)
    requires
        n <= max,
    ensures
        parse_unsigned(dec_text(n), max) == Some(n),
{
    lemma_dec_text(n);
    assert(is_digit(dec_text(n)[0]));
}

/// Appends the decimal digits of `n`.
pub fn push_decimal(out: &mut Vec<u8>, n: u128)
    ensures
        final(out)@ == old(out)@ + dec_text(n as nat),
    decreases n,
{
    if n >= 10 {
        push_decimal(out, n / 10);
    }
    out.push(DIGIT_ZERO + (n % 10) as u8);
    proof {
        assert(old(out)@ + dec_text(n as nat) =~= final(out)@) by {
            if n >= 10 {
                assert(dec_text(n as nat) == dec_text((n / 10) as nat).push(
                    (DIGIT_ZERO + n % 10) as u8,
                ));
            }
        }
    }
}

/// Appends the lowercase hexadecimal digits of `n`.
pub fn push_hex(out: &mut Vec<u8>, n: u128)
    ensures
        final(out)@ == old(out)@ + hex_text(n as nat),
    decreases n,
{
    if n >= 16 {
        push_hex(out, n / 16);
    }
    let d = (n % 16) as u8;
    let c = if d < 10 {
        DIGIT_ZERO + d
    } else {
        HEX_LETTER_BASE + d
    };
    out.push(c);
    proof {
        assert(old(out)@ + hex_text(n as nat) =~= final(out)@) by {
            if n >= 16 {
                assert(hex_text(n as nat) == hex_text((n / 16) as nat).push(
                    hex_digit((n % 16) as nat),
                ));
            }
        }
    }
}

/// Reads an unsigned decimal no larger than `max`, as `str::parse` does for
/// unsigned integer types.
pub fn parse_decimal(s: &[u8], max: u64) -> (r: Option<u64>)
    ensures
        r == (match parse_unsigned(s@, max as nat) {
            Some(v) => Some(v as u64),
            None => None,
        }),
{
    let start: usize = if s.len() > 0 && s[0] == PLUS_SIGN {
        1
    } else {
        0
    };
    let ghost d = if s@.len() > 0 && s@[0] == PLUS_SIGN {
        s@.drop_first()
    } else {
        s@
    };
    assert(d =~= s@.subrange(start as int, s@.len() as int));
    if start == s.len() {
        return None;
    }
    let mut value: u128 = 0;
    let mut i: usize = start;
    while i < s.len()
        invariant
            start <= i <= s@.len(),
            d == s@.subrange(start as int, s@.len() as int),
            d == (if s@.len() > 0 && s@[0] == PLUS_SIGN {
                s@.drop_first()
            } else {
                s@
            }),
            all_digits(s@.subrange(start as int, i as int)),
            value as nat == digits_value(s@.subrange(start as int, i as int)),
            value <= max,
        decreases s@.len() - i,
    {
        let c = s[i];
        if c < DIGIT_ZERO || c > DIGIT_ZERO + 9 {
            proof {
                assert(d[i - start] == c);
                assert(!is_digit(d[i - start]));
                assert(!all_digits(d));
            }
            return None;
        }
        let ghost prev = s@.subrange(start as int, i as int);
        let ghost next = s@.subrange(start as int, i + 1);
        assert(next.drop_last() =~= prev);
        value = value * 10 + (c - DIGIT_ZERO) as u128;
        i = i + 1;
        assert(all_digits(next)) by {
            assert forall|j: int| 0 <= j < next.len() implies is_digit(#[trigger] next[j]) by {
                if j < prev.len() {
                    assert(next[j] == prev[j]);
                }
            }
        }
        if value > max as u128 {
            proof {
                if all_digits(d) {
                    lemma_digits_value_prefix(d, (i - start) as int);
                    assert(d.subrange(0, (i - start) as int) =~= next);
                }
            }
            return None;
        }
    }
    assert(s@.subrange(start as int, i as int) =~= d);
    Some(value as u64)
}

/// A prefix of a digit string is worth no more than the whole.
pub proof fn lemma_digits_value_prefix(s: Seq<u8>, k: int)
    requires
        0 <= k <= s.len(),
        all_digits(s),
    ensures
        digits_value(s.subrange(0, k)) <= digits_value(s),
    decreases s.len(),
{
    if k < s.len() {
        let t = s.drop_last();
        assert(all_digits(t)) by {
            assert forall|j: int| 0 <= j < t.len() implies is_digit(#[trigger] t[j]) by {
                assert(t[j] == s[j]);
            }
        }
        lemma_digits_value_prefix(t, k);
        assert(t.subrange(0, k) =~= s.subrange(0, k));
        assert(is_digit(s[s.len() - 1]));
    } else {
        assert(s.subrange(0, k) =~= s);
    }
}

/// ASCII `-`.
pub const MINUS_SIGN: u8 = 45;

/// Decimal digits of `n`, left-padded with zeros to at least `width`.
pub open spec fn padded_dec(n: nat, width: nat) -> Seq<u8> {
    let t = dec_text(n);
    if t.len() < width {
        Seq::new((width - t.len()) as nat, |i: int| DIGIT_ZERO) + t
    } else {
        t
    }
}

/// The text that `{:0w$}` gives for a signed value: a minus sign counts toward
/// the width and the zeros follow it.
pub open spec fn padded_signed(v: int, width: nat) -> Seq<u8> {
    if v >= 0 {
        padded_dec(v as nat, width)
    } else {
        seq![MINUS_SIGN] + padded_dec((-v) as nat, if width > 0 { (width - 1) as nat } else { 0 })
    }
}

/// Appends the decimal digits of `n`, left-padded with zeros to `width`.
pub fn push_padded(out: &mut Vec<u8>, n: u128, width: usize)
    ensures
        final(out)@ == old(out)@ + padded_dec(n as nat, width as nat),
{
    let mut digits: Vec<u8> = Vec::new();
    push_decimal(&mut digits, n);
    assert(digits@ =~= dec_text(n as nat));
    if digits.len() < width {
        let pad = width - digits.len();
        let mut i: usize = 0;
        let ghost start = out@;
        while i < pad
            invariant
                i <= pad,
                out@ == start + Seq::new(i as nat, |j: int| DIGIT_ZERO),
            decreases pad - i,
        {
            out.push(DIGIT_ZERO);
            i = i + 1;
            assert(out@ =~= start + Seq::new(i as nat, |j: int| DIGIT_ZERO));
        }
    }
    let ghost mid = out@;
    let mut k: usize = 0;
    while k < digits.len()
        invariant
            k <= digits@.len(),
            out@ == mid + digits@.take(k as int),
        decreases digits@.len() - k,
    {
        out.push(digits[k]);
        k = k + 1;
        assert(out@ =~= mid + digits@.take(k as int));
    }
    assert(digits@.take(digits@.len() as int) =~= digits@);
    assert(final(out)@ =~= old(out)@ + padded_dec(n as nat, width as nat));
}

/// Appends what `{:0w$}` gives for `v`.
pub fn push_padded_signed(out: &mut Vec<u8>, v: i64, width: usize)
    requires
        v > i64::MIN,
    ensures
        final(out)@ == old(out)@ + padded_signed(v as int, width as nat),
{
    if v >= 0 {
        push_padded(out, v as u128, width);
    } else {
        let ghost start = out@;
        out.push(MINUS_SIGN);
        let w = if width > 0 {
            width - 1
        } else {
            0
        };
        push_padded(out, (-v) as u128, w);
        assert(out@ =~= start + padded_signed(v as int, width as nat));
    }
}

/// Zero-padded decimal text is digits only.
pub proof fn lemma_padded_digits(n: nat, width: nat)
    ensures
        all_digits(padded_dec(n, width)),
{
    lemma_dec_text(n);
    let t = dec_text(n);
    let p = padded_dec(n, width);
    if t.len() < width {
        let z = Seq::new((width - t.len()) as nat, |i: int| DIGIT_ZERO);
        assert forall|i: int| 0 <= i < p.len() implies is_digit(#[trigger] p[i]) by {
            if i < z.len() {
                assert(p[i] == z[i]);
            } else {
                assert(p[i] == t[i - z.len()]);
            }
        }
    }
}

/// The pieces of `b` between occurrences of `sep`; `n` separators give
/// `n + 1` pieces.
pub open spec fn split_sep(b: Seq<u8>, sep: u8) -> Seq<Seq<u8>>
    decreases b.len(),
{
    if b.len() == 0 {
        seq![Seq::<u8>::empty()]
    } else {
        let prev = split_sep(b.drop_last(), sep);
        if b.last() == sep {
            prev.push(Seq::<u8>::empty())
        } else {
            prev.update(prev.len() - 1, prev.last().push(b.last()))
        }
    }
}

/// Splitting always gives at least one piece.
pub proof fn lemma_split_nonempty(b: Seq<u8>, sep: u8)
    ensures
        split_sep(b, sep).len() >= 1,
    decreases b.len(),
{
    if b.len() > 0 {
        lemma_split_nonempty(b.drop_last(), sep);
    }
}

pub open spec fn part_views(v: Seq<Vec<u8>>) -> Seq<Seq<u8>> {
    v.map_values(|p: Vec<u8>| p@)
}

/// Splits `b` at every `sep`.
pub fn split_on(b: &[u8], sep: u8) -> (r: Vec<Vec<u8>>)
    ensures
        part_views(r@) == split_sep(b@, sep),
{
    let mut parts: Vec<Vec<u8>> = Vec::new();
    let mut cur: Vec<u8> = Vec::new();
    let mut i: usize = 0;
    assert(b@.take(0) =~= Seq::<u8>::empty());
    assert(part_views(parts@).push(cur@) =~= split_sep(b@.take(0), sep));
    while i < b.len()
        invariant
            i <= b@.len(),
            part_views(parts@).push(cur@) == split_sep(b@.take(i as int), sep),
        decreases b@.len() - i,
    {
        let c = b[i];
        let ghost prev = split_sep(b@.take(i as int), sep);
        assert(b@.take(i + 1).drop_last() =~= b@.take(i as int));
        assert(b@.take(i + 1).last() == c);
        if c == sep {
            let done = cur;
            parts.push(done);
            cur = Vec::new();
            assert(part_views(parts@) =~= prev);
            assert(part_views(parts@).push(cur@) =~= split_sep(b@.take(i + 1), sep));
        } else {
            cur.push(c);
            assert(part_views(parts@).push(cur@) =~= split_sep(b@.take(i + 1), sep));
        }
        i = i + 1;
    }
    parts.push(cur);
    assert(b@.take(b@.len() as int) =~= b@);
    assert(part_views(parts@) =~= split_sep(b@, sep));
    parts
}

/// Reading of a signed integer in `-neg_bound ..= max`, as `str::parse`
/// reads signed types: a `-` followed by digits, or what `parse_unsigned`
/// accepts.
pub open spec fn parse_signed(s: Seq<u8>, neg_bound: nat, max: nat) -> Option<int> {
    if s.len() > 0 && s[0] == MINUS_SIGN {
        let d = s.drop_first();
        if d.len() > 0 && all_digits(d) && digits_value(d) <= neg_bound {
            Some(-(digits_value(d) as int))
        } else {
            None
        }
    } else {
        match parse_unsigned(s, max) {
            Some(v) => Some(v as int),
            None => None,
        }
    }
}

/// Reads an `i16` as `str::parse::<i16>` does.
pub fn parse_i16(s: &[u8]) -> (r: Option<i16>)
    ensures
        r == (match parse_signed(s@, 32768, 32767) {
            Some(v) => Some(v as i16),
            None => None,
        }),
{
    if s.len() > 0 && s[0] == MINUS_SIGN {
        let rest = vstd::slice::slice_subrange(s, 1, s.len());
        assert(rest@ =~= s@.drop_first());
        if rest.len() > 0 && rest[0] == PLUS_SIGN {
            assert(!is_digit(rest@[0]));
            return None;
        }
        match parse_decimal(rest, 32768) {
            Some(v) => Some((0 - (v as i32)) as i16),
            None => None,
        }
    } else {
        match parse_decimal(s, 32767) {
            Some(v) => Some(v as i16),
            None => None,
        }
    }
}

/// `true` when the two byte strings are equal.
pub fn bytes_equal(a: &[u8], b: &[u8]) -> (r: bool)
    ensures
        r == (a@ == b@),
{
    if a.len() != b.len() {
        return false;
    }
    let mut i: usize = 0;
    while i < a.len()
        invariant
            a@.len() == b@.len(),
            i <= a@.len(),
            forall|j: int| 0 <= j < i ==> a@[j] == b@[j],
        decreases a@.len() - i,
    {
        if a[i] != b[i] {
            return false;
        }
        i = i + 1;
    }
    proof {
        assert(a@ =~= b@);
    }
    true
}

/// ASCII bytes read as characters.
pub open spec fn ascii_chars(b: Seq<u8>) -> Seq<char> {
    b.map_values(|x: u8| x as char)
}

/// Relies on `String::from_utf8`: ASCII bytes are valid UTF-8 and become one
/// character each.
#[verifier::external_body]
pub(crate) fn ascii_string(b: Vec<u8>) -> (r: String)
    requires
        forall|i: int| 0 <= i < b@.len() ==> b@[i] < 128,
    ensures
        r@ == ascii_chars(b@),
{
    String::from_utf8(b).unwrap()
}

} // verus!
