//! Names of throwaway databases for integration tests.
use vstd::prelude::*;

use crate::text::{ascii_chars, ascii_string, hex_text, push_hex};

verus! {

/// ASCII `-`.
pub const DASH: u8 = 45;

/// Relies on `SystemTime::now().duration_since(UNIX_EPOCH)` and
/// `Duration::as_nanos`; `None` when the clock is set before the epoch.
#[verifier::external_body]
fn nanos_since_epoch() -> (r: Option<u128>) {
    match std::time::SystemTime::now().duration_since(std::time::UNIX_EPOCH) {
        Ok(d) => Some(d.as_nanos()),
        Err(_) => None,
    }
}

pub open spec fn db_name_text(nanos: nat, counter: nat) -> Seq<char> {
    "test-"@ + ascii_chars(hex_text(nanos) + seq![DASH] + hex_text(counter))
}

proof fn lemma_hex_ascii(n: nat)
    ensures
        forall|i: int| 0 <= i < hex_text(n).len() ==> #[trigger] hex_text(n)[i] < 128,
    decreases n,
{
    if n >= 16 {
        lemma_hex_ascii(n / 16);
        let t = hex_text(n);
        assert forall|i: int| 0 <= i < t.len() implies #[trigger] t[i] < 128 by {
            if i < t.len() - 1 {
                assert(t[i] == hex_text(n / 16)[i]);
            }
        }
    }
}

/// `test-<nanoseconds since the epoch>-<counter>`, both in lowercase hex, so
/// that concurrent tests get distinct databases; a clock before the epoch
/// counts as zero nanoseconds.
pub fn random_db_name(counter: u64) -> (r: String)
    ensures
        exists|n: nat| r@ == db_name_text(n, counter as nat),
{
    let now = match nanos_since_epoch() {
        Some(n) => n,
        None => 0,
    };
    let mut tail: Vec<u8> = Vec::new();
    push_hex(&mut tail, now);
    tail.push(DASH);
    push_hex(&mut tail, counter as u128);
    proof {
        lemma_hex_ascii(now as nat);
        lemma_hex_ascii(counter as nat);
        let a = hex_text(now as nat);
        let b = hex_text(counter as nat);
        assert(tail@ =~= a + seq![DASH] + b);
        assert forall|i: int| 0 <= i < tail@.len() implies tail@[i] < 128 by {
            if i < a.len() {
                assert(tail@[i] == a[i]);
            } else if i > a.len() {
                assert(tail@[i] == b[i - a.len() - 1]);
            }
        }
    }
    let mut r = String::from_str("test-");
    let t = ascii_string(tail);
    r.append(t.as_str());
    assert(r@ == db_name_text(now as nat, counter as nat));
    r
}

} // verus!
