//! Download locations of the provider's snapshots.
use vstd::prelude::*;

use crate::config::Config;
use crate::schedule::UtcDateTime;
use crate::text::{
    ascii_chars, ascii_string, lemma_padded_digits, padded_dec, padded_signed, push_padded,
    push_padded_signed, is_digit, MINUS_SIGN,
};

verus! {

/// The date part of a diff snapshot's file name: `YYYY-MM-DD`.
pub open spec fn date_text(d: UtcDateTime) -> Seq<u8> {
    padded_signed(d.year as int, 4) + seq![MINUS_SIGN] + padded_dec(d.month as nat, 2) + seq![
        MINUS_SIGN,
    ] + padded_dec(d.day as nat, 2)
}

pub open spec fn full_package_url(base_url: Seq<char>, token: Seq<char>) -> Seq<char> {
    base_url + "?token="@ + token + "&type=full&file=cell_towers.csv.gz"@
}

pub open spec fn diff_package_url(base_url: Seq<char>, token: Seq<char>, date: UtcDateTime) -> Seq<
    char,
> {
    base_url + "?token="@ + token + "&type=diff&file=OCID-diff-cell-export-"@ + ascii_chars(
        date_text(date),
    ) + "-T000000.csv.gz"@
}

/// `<base>?token=<token>&type=full&file=cell_towers.csv.gz`.
pub fn build_full_package_url(base_url: &str, token: &str) -> (r: String)
    ensures
        r@ == full_package_url(base_url@, token@),
{
    let mut r = String::from_str(base_url);
    r.append("?token=");
    r.append(token);
    r.append("&type=full&file=cell_towers.csv.gz");
    r
}

fn date_bytes(date: &UtcDateTime) -> (r: Vec<u8>)
    ensures
        r@ == date_text(*date),
        forall|i: int| 0 <= i < r@.len() ==> r@[i] < 128,
{
    let mut out: Vec<u8> = Vec::new();
    push_padded_signed(&mut out, date.year as i64, 4);
    out.push(MINUS_SIGN);
    push_padded(&mut out, date.month as u128, 2);
    out.push(MINUS_SIGN);
    push_padded(&mut out, date.day as u128, 2);
    proof {
        assert(out@ =~= date_text(*date));
        let y = padded_signed(date.year as int, 4);
        lemma_padded_digits((if date.year >= 0 { date.year as int } else { -date.year }) as nat, if date.year >= 0 { 4 } else { 3 });
        lemma_padded_digits(date.month as nat, 2);
        lemma_padded_digits(date.day as nat, 2);
        assert forall|i: int| 0 <= i < out@.len() implies out@[i] < 128 by {
            let m = padded_dec(date.month as nat, 2);
            let d = padded_dec(date.day as nat, 2);
            if i < y.len() {
                assert(out@[i] == y[i]);
                if date.year < 0 && i > 0 {
                    assert(y[i] == padded_dec((-date.year) as nat, 3)[i - 1]);
                }
            } else if i == y.len() {
            } else if i < y.len() + 1 + m.len() {
                assert(out@[i] == m[i - y.len() - 1]);
                assert(is_digit(m[i - y.len() - 1]));
            } else if i == y.len() + 1 + m.len() {
            } else {
                assert(out@[i] == d[i - y.len() - 2 - m.len()]);
                assert(is_digit(d[i - y.len() - 2 - m.len()]));
            }
        }
    }
    out
}

/// `<base>?token=<token>&type=diff&file=OCID-diff-cell-export-YYYY-MM-DD-T000000.csv.gz`,
/// month and day zero-padded to two digits, the year to four.
pub fn build_diff_package_url(base_url: &str, token: &str, date: &UtcDateTime) -> (r: String)
    ensures
        r@ == diff_package_url(base_url@, token@, *date),
{
    let mut r = String::from_str(base_url);
    r.append("?token=");
    r.append(token);
    r.append("&type=diff&file=OCID-diff-cell-export-");
    let d = ascii_string(date_bytes(date));
    r.append(d.as_str());
    r.append("-T000000.csv.gz");
    r
}

/// The full snapshot's URL for the configured source and token.
pub fn get_url_of_full_package(config: Config) -> (r: String)
    ensures
        r@ == full_package_url(config.download_source_url@, config.download_source_token@),
{
    build_full_package_url(config.download_source_url.as_str(), config.download_source_token.as_str())
}

/// The URL of the diff snapshot for `date`, for the configured source and token.
pub fn get_url_of_diff_package(date: UtcDateTime, config: Config) -> (r: String)
    ensures
        r@ == diff_package_url(config.download_source_url@, config.download_source_token@, date),
{
    build_diff_package_url(
        config.download_source_url.as_str(),
        config.download_source_token.as_str(),
        &date,
    )
}

} // verus!
