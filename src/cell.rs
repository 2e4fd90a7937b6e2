//! The tower record, its natural key and the key order of the store.
use vstd::prelude::*;

use crate::radio::Radio;

verus! {

/// A coordinate in degrees, held as the bit pattern of an IEEE-754 single.
#[derive(Clone, Copy, Debug, PartialEq, Eq, Structural)]
pub struct Coord {
    pub bits: u32,
}

/// Sign bit of a single.
pub const SIGN_BIT: u32 = 0x8000_0000;

/// Bit pattern of positive infinity; larger magnitudes are NaN.
pub const INFINITY_BITS: u32 = 0x7f80_0000;

impl Coord {
    /// The bits without the sign.
    pub open spec fn magnitude(self) -> int {
        (self.bits % SIGN_BIT) as int
    }

    pub open spec fn is_nan(self) -> bool {
        self.magnitude() > INFINITY_BITS
    }

    /// An integer that orders non-NaN values as the floats they encode;
    /// both zeros map to `0`.
    pub open spec fn order_key(self) -> int {
        if self.bits >= SIGN_BIT {
            -self.magnitude()
        } else {
            self.magnitude()
        }
    }

    /// Float comparison `self <= other`: false when either side is NaN.
    pub open spec fn le_spec(self, other: Coord) -> bool {
        !self.is_nan() && !other.is_nan() && self.order_key() <= other.order_key()
    }

    pub fn le(&self, other: &Coord) -> (r: bool)
        ensures
            r == self.le_spec(*other),
    {
        let a = self.bits % SIGN_BIT;
        let b = other.bits % SIGN_BIT;
        if a > INFINITY_BITS || b > INFINITY_BITS {
            return false;
        }
        let a_neg = self.bits >= SIGN_BIT;
        let b_neg = other.bits >= SIGN_BIT;
        if a_neg && b_neg {
            b <= a
        } else if a_neg {
            true
        } else if b_neg {
            a == 0 && b == 0
        } else {
            a <= b
        }
    }
}

/// Natural key of a cell: `(radio, mcc, net, area, cell)`. It also serves as
/// the pagination watermark.
#[derive(Clone, Copy, Debug, PartialEq, Eq, Structural)]
pub struct CellCursor {
    pub radio: Radio,
    pub mcc: u16,
    pub net: u16,
    pub area: u32,
    pub cell: u64,
}

/// Strict key order: by radio in declaration order, then mcc, net, area, cell.
pub open spec fn key_lt(a: CellCursor, b: CellCursor) -> bool {
    ||| a.radio.order() < b.radio.order()
    ||| (a.radio == b.radio && a.mcc < b.mcc)
    ||| (a.radio == b.radio && a.mcc == b.mcc && a.net < b.net)
    ||| (a.radio == b.radio && a.mcc == b.mcc && a.net == b.net && a.area < b.area)
    ||| (a.radio == b.radio && a.mcc == b.mcc && a.net == b.net && a.area == b.area && a.cell
        < b.cell)
}

/// Exactly one of `a < b`, `a == b`, `b < a` holds, and `<` is transitive.
pub proof fn lemma_key_order(a: CellCursor, b: CellCursor, c: CellCursor)
    ensures
        !key_lt(a, a),
        a != b ==> (key_lt(a, b) || key_lt(b, a)),
        !(key_lt(a, b) && key_lt(b, a)),
        (key_lt(a, b) && key_lt(b, c)) ==> key_lt(a, c),
{
}

pub fn key_less(a: &CellCursor, b: &CellCursor) -> (r: bool)
    ensures
        r == key_lt(*a, *b),
{
    let ra = a.radio.order_index();
    let rb = b.radio.order_index();
    if ra != rb {
        return ra < rb;
    }
    if a.mcc != b.mcc {
        return a.mcc < b.mcc;
    }
    if a.net != b.net {
        return a.net < b.net;
    }
    if a.area != b.area {
        return a.area < b.area;
    }
    a.cell < b.cell
}

/// One tower fix. Timestamps are Unix seconds (UTC).
#[derive(Clone, Copy, Debug, PartialEq, Eq, Structural)]
pub struct Cell {
    pub radio: Radio,
    pub mcc: u16,
    pub net: u16,
    pub area: u32,
    pub cell: u64,
    pub unit: Option<u16>,
    pub lon: Coord,
    pub lat: Coord,
    pub cell_range: u32,
    pub samples: u32,
    pub changeable: bool,
    pub created: i64,
    pub updated: i64,
    pub average_signal: Option<i16>,
}

impl Cell {
    pub open spec fn key(self) -> CellCursor {
        CellCursor {
            radio: self.radio,
            mcc: self.mcc,
            net: self.net,
            area: self.area,
            cell: self.cell,
        }
    }
}

impl CellCursor {
    /// The natural key of `cell`.
    pub fn from_cell(cell: &Cell) -> (r: CellCursor)
        ensures
            r == cell.key(),
    {
        CellCursor {
            radio: cell.radio,
            mcc: cell.mcc,
            net: cell.net,
            area: cell.area,
            cell: cell.cell,
        }
    }
}

/// Legacy lookup key: the natural key without the radio.
#[derive(Clone, Copy, Debug, PartialEq, Eq, Structural, Hash)]
pub struct CellLookupKey {
    pub mcc: u16,
    pub mnc: u16,
    pub lac: u32,
    pub cid: u64,
}

impl Cell {
    pub open spec fn lookup_key(self) -> CellLookupKey {
        CellLookupKey { mcc: self.mcc, mnc: self.net, lac: self.area, cid: self.cell }
    }
}

} // verus!
