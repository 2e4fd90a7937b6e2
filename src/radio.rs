//! Radio technologies and the update kinds, with their wire names.
use vstd::prelude::*;

use crate::text::bytes_equal;

verus! {

/// Air-interface generation of a cell. Declaration order is the sort order of
/// the store's collation.
#[derive(Clone, Copy, Debug, PartialEq, Eq, Structural, Hash)]
pub enum Radio {
    Gsm,
    Umts,
    Cdma,
    Lte,
    Nr,
}

/// Uppercase name of a radio, as used by the API and by cursors.
pub open spec fn radio_upper(r: Radio) -> Seq<u8> {
    match r {
        Radio::Gsm => seq![71, 83, 77],  // "GSM"
        Radio::Umts => seq![85, 77, 84, 83],  // "UMTS"
        Radio::Cdma => seq![67, 68, 77, 65],  // "CDMA"
        Radio::Lte => seq![76, 84, 69],  // "LTE"
        Radio::Nr => seq![78, 82],  // "NR"
    }
}

/// Lowercase name of a radio, as stored in the table.
pub open spec fn radio_lower(r: Radio) -> Seq<u8> {
    match r {
        Radio::Gsm => seq![103, 115, 109],  // "gsm"
        Radio::Umts => seq![117, 109, 116, 115],  // "umts"
        Radio::Cdma => seq![99, 100, 109, 97],  // "cdma"
        Radio::Lte => seq![108, 116, 101],  // "lte"
        Radio::Nr => seq![110, 114],  // "nr"
    }
}

/// The radio whose uppercase name is `s`, if any.
pub open spec fn radio_from_upper(s: Seq<u8>) -> Option<Radio> {
    if s == radio_upper(Radio::Gsm) {
        Some(Radio::Gsm)
    } else if s == radio_upper(Radio::Umts) {
        Some(Radio::Umts)
    } else if s == radio_upper(Radio::Cdma) {
        Some(Radio::Cdma)
    } else if s == radio_upper(Radio::Lte) {
        Some(Radio::Lte)
    } else if s == radio_upper(Radio::Nr) {
        Some(Radio::Nr)
    } else {
        None
    }
}

/// The radio whose lowercase name is `s`, if any.
pub open spec fn radio_from_lower(s: Seq<u8>) -> Option<Radio> {
    if s == radio_lower(Radio::Gsm) {
        Some(Radio::Gsm)
    } else if s == radio_lower(Radio::Umts) {
        Some(Radio::Umts)
    } else if s == radio_lower(Radio::Cdma) {
        Some(Radio::Cdma)
    } else if s == radio_lower(Radio::Lte) {
        Some(Radio::Lte)
    } else if s == radio_lower(Radio::Nr) {
        Some(Radio::Nr)
    } else {
        None
    }
}

impl Radio {
    /// Position in declaration order: `Gsm < Umts < Cdma < Lte < Nr`.
    pub open spec fn order(self) -> int {
        match self {
            Radio::Gsm => 0,
            Radio::Umts => 1,
            Radio::Cdma => 2,
            Radio::Lte => 3,
            Radio::Nr => 4,
        }
    }

    /// Preference among radios when rows share a lookup key:
    /// `Nr > Lte > Umts > Gsm > Cdma`.
    pub open spec fn rank_spec(self) -> int {
        match self {
            Radio::Nr => 5,
            Radio::Lte => 4,
            Radio::Umts => 3,
            Radio::Gsm => 2,
            Radio::Cdma => 1,
        }
    }

    /// Position in declaration order.
    pub fn order_index(&self) -> (r: u8)
        ensures
            r as int == self.order(),
    {
        match self {
            Radio::Gsm => 0,
            Radio::Umts => 1,
            Radio::Cdma => 2,
            Radio::Lte => 3,
            Radio::Nr => 4,
        }
    }

    /// Preference when rows share a lookup key; higher is preferred.
    pub fn rank(&self) -> (r: u8)
        ensures
            r as int == self.rank_spec(),
    {
        match self {
            Radio::Nr => 5,
            Radio::Lte => 4,
            Radio::Umts => 3,
            Radio::Gsm => 2,
            Radio::Cdma => 1,
        }
    }

    /// The uppercase name as bytes (`GSM`, `UMTS`, `CDMA`, `LTE`, `NR`).
    pub fn upper_name(&self) -> (r: Vec<u8>)
        ensures
            r@ == radio_upper(*self),
    {
        let r = match self {
            Radio::Gsm => vec![71, 83, 77],  // "GSM"
            Radio::Umts => vec![85, 77, 84, 83],  // "UMTS"
            Radio::Cdma => vec![67, 68, 77, 65],  // "CDMA"
            Radio::Lte => vec![76, 84, 69],  // "LTE"
            Radio::Nr => vec![78, 82],  // "NR"
        };
        proof {
            assert(r@ =~= radio_upper(*self));
        }
        r
    }

    /// The lowercase name used by the store (`gsm`, `umts`, `cdma`, `lte`, `nr`).
    pub fn storage_name(&self) -> (r: Vec<u8>)
        ensures
            r@ == radio_lower(*self),
    {
        let r = match self {
            Radio::Gsm => vec![103, 115, 109],  // "gsm"
            Radio::Umts => vec![117, 109, 116, 115],  // "umts"
            Radio::Cdma => vec![99, 100, 109, 97],  // "cdma"
            Radio::Lte => vec![108, 116, 101],  // "lte"
            Radio::Nr => vec![110, 114],  // "nr"
        };
        proof {
            assert(r@ =~= radio_lower(*self));
        }
        r
    }

    /// Reads an uppercase name; anything else, lowercase included, is `None`.
    pub fn from_upper_name(s: &[u8]) -> (r: Option<Radio>)
        ensures
            r == radio_from_upper(s@),
    {
        if bytes_equal(s, Radio::Gsm.upper_name().as_slice()) {
            Some(Radio::Gsm)
        } else if bytes_equal(s, Radio::Umts.upper_name().as_slice()) {
            Some(Radio::Umts)
        } else if bytes_equal(s, Radio::Cdma.upper_name().as_slice()) {
            Some(Radio::Cdma)
        } else if bytes_equal(s, Radio::Lte.upper_name().as_slice()) {
            Some(Radio::Lte)
        } else if bytes_equal(s, Radio::Nr.upper_name().as_slice()) {
            Some(Radio::Nr)
        } else {
            None
        }
    }

    /// Reads a stored lowercase name; an unknown name is `None`.
    pub fn from_storage_name(s: &[u8]) -> (r: Option<Radio>)
        ensures
            r == radio_from_lower(s@),
    {
        if bytes_equal(s, Radio::Gsm.storage_name().as_slice()) {
            Some(Radio::Gsm)
        } else if bytes_equal(s, Radio::Umts.storage_name().as_slice()) {
            Some(Radio::Umts)
        } else if bytes_equal(s, Radio::Cdma.storage_name().as_slice()) {
            Some(Radio::Cdma)
        } else if bytes_equal(s, Radio::Lte.storage_name().as_slice()) {
            Some(Radio::Lte)
        } else if bytes_equal(s, Radio::Nr.storage_name().as_slice()) {
            Some(Radio::Nr)
        } else {
            None
        }
    }
}

/// The two kinds of snapshot the provider publishes.
#[derive(Clone, Copy, Debug, PartialEq, Eq, Structural, Hash)]
pub enum LastUpdatesType {
    Full,
    Diff,
}

/// Lowercase name of an update kind, as stored in the freshness table.
pub open spec fn update_type_name(t: LastUpdatesType) -> Seq<u8> {
    match t {
        LastUpdatesType::Full => seq![102, 117, 108, 108],  // "full"
        LastUpdatesType::Diff => seq![100, 105, 102, 102],  // "diff"
    }
}

impl LastUpdatesType {
    /// The stored name, `full` or `diff`.
    pub fn storage_name(&self) -> (r: Vec<u8>)
        ensures
            r@ == update_type_name(*self),
    {
        let r = match self {
            LastUpdatesType::Full => vec![102, 117, 108, 108],  // "full"
            LastUpdatesType::Diff => vec![100, 105, 102, 102],  // "diff"
        };
        proof {
            assert(r@ =~= update_type_name(*self));
        }
        r
    }

    /// Reads a stored name; an unknown name is `None`.
    pub fn from_storage_name(s: &[u8]) -> (r: Option<LastUpdatesType>)
        ensures
            r == (if s@ == update_type_name(LastUpdatesType::Full) {
                Some(LastUpdatesType::Full)
            } else if s@ == update_type_name(LastUpdatesType::Diff) {
                Some(LastUpdatesType::Diff)
            } else {
                None
            }),
    {
        if bytes_equal(s, LastUpdatesType::Full.storage_name().as_slice()) {
            Some(LastUpdatesType::Full)
        } else if bytes_equal(s, LastUpdatesType::Diff.storage_name().as_slice()) {
            Some(LastUpdatesType::Diff)
        } else {
            None
        }
    }
}

} // verus!
