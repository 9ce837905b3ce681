use vstd::prelude::*;

use crate::life::CellCoord;

verus! {

/// The list of `[row, column]` pairs that a JSON text holds, or `None` where
/// the bytes are not such a text.
pub uninterp spec fn parsed_cells(b: Seq<u8>) -> Option<Seq<CellCoord>>;

/// The decimal digits of `n`, most significant first, in ASCII.
pub open spec fn decimal(n: nat) -> Seq<u8>
    decreases n,
{
    if n < 10 {
        seq![(48 + n) as u8]
    } else {
        decimal(n / 10).push((48 + n % 10) as u8)
    }
}

/// An integer as a JSON number: a minus sign for negatives, then its digits.
pub open spec fn int_json(i: int) -> Seq<u8> {
    if i < 0 {
        seq![45u8] + decimal((-i) as nat)
    } else {
        decimal(i as nat)
    }
}

/// A cell as a JSON array of two numbers, `[row,column]`.
pub open spec fn pair_json(c: CellCoord) -> Seq<u8> {
    seq![91u8] + int_json(c[0] as int) + seq![44u8] + int_json(c[1] as int) + seq![93u8]
}

/// The cells as JSON arrays, separated by commas.
pub open spec fn items_json(cells: Seq<CellCoord>) -> Seq<u8>
    decreases cells.len(),
{
    if cells.len() == 0 {
        Seq::empty()
    } else if cells.len() == 1 {
        pair_json(cells[0])
    } else {
        items_json(cells.drop_last()) + seq![44u8] + pair_json(cells.last())
    }
}

/// The compact JSON text of a list of `[row, column]` pairs, without
/// whitespace: `[[r,c],[r,c],...]`.
pub open spec fn cells_json(cells: Seq<CellCoord>) -> Seq<u8> {
    seq![91u8] + items_json(cells) + seq![93u8]
}

/// Relies on `serde_json::from_slice` for `Vec<[i32; 2]>`: whether the bytes
/// decode, and to which pairs, depends on the bytes alone; empty input is
/// no JSON text.
#[verifier::external_body]
pub(crate) fn decode_cells(data: &[u8]) -> (r: Option<Vec<CellCoord>>)
    ensures
        r is Some <==> parsed_cells(data@) is Some,
        r is Some ==> parsed_cells(data@) == Some(r->0@),
        data@.len() == 0 ==> r is None,
{
    serde_json::from_slice::<Vec<CellCoord>>(data).ok()
}

/// Relies on `serde_json::to_vec` for `Vec<[i32; 2]>`: the compact JSON text
/// of the list. Integers always serialize and writing into a `Vec` cannot
/// fail, so the result is always `Some`.
#[verifier::external_body]
pub(crate) fn encode_cells(cells: &Vec<CellCoord>) -> (r: Option<Vec<u8>>)
    ensures
        r is Some,
        r->0@ == cells_json(cells@),
{
    serde_json::to_vec(cells).ok()
}

} // verus!
