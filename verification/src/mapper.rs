//! Type mapper: engine value variants to wire cells, each a type OID and
//! the canonical textual encoding of the value.

use vstd::prelude::*;

use crate::interface::{Data, Row, Table};

verus! {

/// Mapping failure: an engine value with no wire representation.
#[derive(Clone, Copy, Debug, PartialEq, Eq, Structural)]
pub enum MapError {
    /// Timestamp and time-of-day values are unsupported; the failure is
    /// recoverable at the per-query level.
    UnsupportedValueType,
}

/// The closed set of value variants an engine row can yield.
///
/// Float, double and decimal values are carried as their textual rendering,
/// produced by the caller: this crate holds no floating-point values, and
/// the wire format wants text for them anyway.
pub enum Value {
    Null,
    Boolean(bool),
    TinyInt(i8),
    SmallInt(i16),
    Int(i32),
    BigInt(i64),
    HugeInt(i128),
    UTinyInt(u8),
    USmallInt(u16),
    UInt(u32),
    UBigInt(u64),
    Float(Vec<u8>),
    Double(Vec<u8>),
    Decimal(Vec<u8>),
    Text(Vec<u8>),
    Blob(Vec<u8>),
    Date32(i32),
    Timestamp,
    Time64,
}

/// Decimal digits of a natural number, most significant first.
pub open spec fn dec_of(n: nat) -> Seq<u8>
    decreases n,
{
    if n < 10 {
        seq![(48 + n) as u8]
    } else {
        dec_of(n / 10).push((48 + n % 10) as u8)
    }
}

/// Decimal rendering of an integer: digits, with a leading `-` when
/// negative.
pub open spec fn dec_int_of(i: int) -> Seq<u8> {
    if i >= 0 {
        dec_of(i as nat)
    } else {
        seq![45u8] + dec_of((-i) as nat)
    }
}

/// The bytes of `"true"` or `"false"`.
pub open spec fn bool_text(b: bool) -> Seq<u8> {
    if b {
        seq![116u8, 114u8, 117u8, 101u8]
    } else {
        seq![102u8, 97u8, 108u8, 115u8, 101u8]
    }
}

/// The wire type identifier of one engine value variant.
pub open spec fn cell_oid(v: Value) -> i32 {
    match v {
        Value::Null => 0,
        Value::Boolean(_) => 16,
        Value::TinyInt(_) => 21,
        Value::SmallInt(_) => 21,
        Value::Int(_) => 23,
        Value::BigInt(_) => 20,
        Value::HugeInt(_) => 20,
        Value::UTinyInt(_) => 21,
        Value::USmallInt(_) => 21,
        Value::UInt(_) => 23,
        Value::UBigInt(_) => 20,
        Value::Float(_) => 700,
        Value::Double(_) => 701,
        Value::Decimal(_) => 701,
        Value::Text(_) => 25,
        Value::Blob(_) => 17,
        Value::Date32(_) => 1083,
        Value::Timestamp => 0,
        Value::Time64 => 0,
    }
}

/// The textual payload of one engine value variant; `None` is SQL NULL.
pub open spec fn cell_bytes(v: Value) -> Option<Seq<u8>> {
    match v {
        Value::Null => None,
        Value::Boolean(b) => Some(bool_text(b)),
        Value::TinyInt(x) => Some(dec_int_of(x as int)),
        Value::SmallInt(x) => Some(dec_int_of(x as int)),
        Value::Int(x) => Some(dec_int_of(x as int)),
        Value::BigInt(x) => Some(dec_int_of(x as int)),
        Value::HugeInt(x) => Some(dec_int_of(x as int)),
        Value::UTinyInt(x) => Some(dec_int_of(x as int)),
        Value::USmallInt(x) => Some(dec_int_of(x as int)),
        Value::UInt(x) => Some(dec_int_of(x as int)),
        Value::UBigInt(x) => Some(dec_int_of(x as int)),
        Value::Float(t) => Some(t@),
        Value::Double(t) => Some(t@),
        Value::Decimal(t) => Some(t@),
        Value::Text(t) => Some(t@),
        Value::Blob(t) => Some(t@),
        Value::Date32(x) => Some(dec_int_of(x as int)),
        Value::Timestamp => None,
        Value::Time64 => None,
    }
}

/// Every variant has a wire mapping except timestamp and time-of-day.
pub open spec fn is_supported(v: Value) -> bool {
    !(v is Timestamp || v is Time64)
}

/// The wire cell `d` is exactly the mapping of engine value `v`.
pub open spec fn data_matches(d: Data, v: Value) -> bool {
    &&& d.typ == cell_oid(v)
    &&& match d.data {
        Some(b) => cell_bytes(v) == Some(b@),
        None => cell_bytes(v) is None,
    }
}

/// A row sequence with a wire mapping for every value of every row.
pub open spec fn all_supported(rows: Seq<Seq<Value>>) -> bool {
    forall|i: int, j: int|
        0 <= i < rows.len() && 0 <= j < rows[i].len() ==> is_supported(#[trigger] rows[i][j])
}

/// The rows of a materialized argument, each as a sequence.
pub open spec fn rows_view(rows: Seq<Vec<Value>>) -> Seq<Seq<Value>> {
    rows.map_values(|r: Vec<Value>| r@)
}

/// Powers of ten.
pub open spec fn pow10(k: nat) -> nat
    decreases k,
{
    if k == 0 {
        1
    } else {
        10 * pow10((k - 1) as nat)
    }
}

/// A value below the `k`-th power of ten has at most `k` decimal digits.
pub proof fn lemma_dec_of_len_le(n: nat, k: nat)
    requires
        k >= 1,
        n < pow10(k),
    ensures
        dec_of(n).len() <= k,
    decreases k,
{
    if n >= 10 {
        assert(pow10(k) == 10 * pow10((k - 1) as nat));
        assert(n / 10 < pow10((k - 1) as nat));
        lemma_dec_of_len_le(n / 10, (k - 1) as nat);
    }
}

/// Any unsigned 128-bit value renders to at most 39 decimal digits.
pub proof fn lemma_u128_dec_len(n: u128)
    ensures
        dec_of(n as nat).len() <= 39,
{
    reveal_with_fuel(pow10, 41);
    assert(n < pow10(39));
    lemma_dec_of_len_le(n as nat, 39);
}

/// Decimal digits of an unsigned value.
pub fn u128_to_dec(n: u128) -> (r: Vec<u8>)
    ensures
        r@ == dec_of(n as nat),
{
    let mut rev: Vec<u8> = Vec::new();
    let mut m: u128 = n;
    while m >= 10
        invariant
            dec_of(n as nat) == dec_of(m as nat) + rev@.reverse(),
        decreases m,
    {
        let ghost m_pre: u128 = m;
        let ghost rev_pre: Seq<u8> = rev@;
        let d: u8 = 48 + ((m % 10) as u8);
        rev.push(d);
        m = m / 10;
        proof {
            assert(m < m_pre) by (nonlinear_arith)
                requires
                    m_pre >= 10,
                    m == m_pre / 10,
            ;
            assert(dec_of(m_pre as nat) == dec_of((m_pre as nat) / 10).push(d));
            assert((m_pre as nat) / 10 == m as nat);
            assert(rev@.reverse() =~= seq![d] + rev_pre.reverse());
            assert(dec_of(m as nat) + (seq![d] + rev_pre.reverse()) =~= (dec_of(m as nat)
                + seq![d]) + rev_pre.reverse());
            assert(dec_of(m as nat) + seq![d] =~= dec_of(m as nat).push(d));
            assert(dec_of(n as nat) == dec_of(m as nat) + rev@.reverse());
        }
    }
    let ghost rev_pre: Seq<u8> = rev@;
    let d: u8 = 48 + ((m % 10) as u8);
    rev.push(d);
    proof {
        assert(m % 10 == m as nat);
        assert(dec_of(m as nat) == seq![d]);
        assert(rev@.reverse() =~= seq![d] + rev_pre.reverse());
        assert(dec_of(n as nat) == rev@.reverse());
    }
    let mut out: Vec<u8> = Vec::new();
    let mut k: usize = rev.len();
    while k > 0
        invariant
            k <= rev@.len(),
            out@ == rev@.subrange(k as int, rev@.len() as int).reverse(),
            dec_of(n as nat) == rev@.reverse(),
        decreases k,
    {
        k = k - 1;
        out.push(rev[k]);
        proof {
            assert(rev@.subrange(k as int, rev@.len() as int).reverse() =~= rev@.subrange(
                k + 1,
                rev@.len() as int,
            ).reverse().push(rev@[k as int]));
        }
    }
    proof {
        assert(rev@.subrange(0, rev@.len() as int) =~= rev@);
        assert(out@ == dec_of(n as nat));
    }
    out
}

/// Decimal rendering of a signed value, possibly with a leading `-`.
pub fn i128_to_dec(i: i128) -> (r: Vec<u8>)
    ensures
        r@ == dec_int_of(i as int),
{
    if i >= 0 {
        u128_to_dec(i as u128)
    } else {
        let j: i128 = i + 1;
        let mag: u128 = ((-j) as u128) + 1;
        proof {
            assert(mag as int == -(i as int));
        }
        let mut r: Vec<u8> = Vec::new();
        r.push(45);
        let mut d = u128_to_dec(mag);
        r.append(&mut d);
        proof {
            assert(r@ =~= dec_int_of(i as int));
        }
        r
    }
}

/// The bytes of `"true"` or `"false"`.
fn bool_text_vec(b: bool) -> (r: Vec<u8>)
    ensures
        r@ == bool_text(b),
{
    let mut r: Vec<u8> = Vec::new();
    if b {
        r.push(116);
        r.push(114);
        r.push(117);
        r.push(101);
        proof {
            assert(r@ =~= bool_text(b));
        }
    } else {
        r.push(102);
        r.push(97);
        r.push(108);
        r.push(115);
        r.push(101);
        proof {
            assert(r@ =~= bool_text(b));
        }
    }
    r
}

/// Map one engine value to its wire cell.  Timestamp and time-of-day
/// values have no mapping and fail, recoverably, with
/// `UnsupportedValueType`.
pub fn to_cell(v: Value) -> (r: Result<Data, MapError>)
    ensures
        r is Ok <==> is_supported(v),
        match r {
            Ok(d) => data_matches(d, v),
            Err(e) => e is UnsupportedValueType,
        },
{
    match v {
        Value::Null => Ok(Data { typ: 0, data: None }),
        Value::Boolean(b) => Ok(Data { typ: 16, data: Some(bool_text_vec(b)) }),
        Value::TinyInt(x) => Ok(Data { typ: 21, data: Some(i128_to_dec(x as i128)) }),
        Value::SmallInt(x) => Ok(Data { typ: 21, data: Some(i128_to_dec(x as i128)) }),
        Value::Int(x) => Ok(Data { typ: 23, data: Some(i128_to_dec(x as i128)) }),
        Value::BigInt(x) => Ok(Data { typ: 20, data: Some(i128_to_dec(x as i128)) }),
        Value::HugeInt(x) => Ok(Data { typ: 20, data: Some(i128_to_dec(x)) }),
        Value::UTinyInt(x) => Ok(Data { typ: 21, data: Some(u128_to_dec(x as u128)) }),
        Value::USmallInt(x) => Ok(Data { typ: 21, data: Some(u128_to_dec(x as u128)) }),
        Value::UInt(x) => Ok(Data { typ: 23, data: Some(u128_to_dec(x as u128)) }),
        Value::UBigInt(x) => Ok(Data { typ: 20, data: Some(u128_to_dec(x as u128)) }),
        Value::Float(t) => Ok(Data { typ: 700, data: Some(t) }),
        Value::Double(t) => Ok(Data { typ: 701, data: Some(t) }),
        Value::Decimal(t) => Ok(Data { typ: 701, data: Some(t) }),
        Value::Text(t) => Ok(Data { typ: 25, data: Some(t) }),
        Value::Blob(t) => Ok(Data { typ: 17, data: Some(t) }),
        Value::Date32(x) => Ok(Data { typ: 1083, data: Some(i128_to_dec(x as i128)) }),
        Value::Timestamp => Err(MapError::UnsupportedValueType),
        Value::Time64 => Err(MapError::UnsupportedValueType),
    }
}

/// Map every value of one row.
#[verifier::loop_isolation(false)]
pub fn map_row(row: Vec<Value>) -> (r: Result<Row, MapError>)
    ensures
        r is Ok <==> (forall|j: int| 0 <= j < row@.len() ==> is_supported(#[trigger] row@[j])),
        match r {
            Ok(cells) => cells@.len() == row@.len() && (forall|j: int|
                0 <= j < row@.len() ==> data_matches(#[trigger] cells@[j], row@[j])),
            Err(e) => e is UnsupportedValueType,
        },
{
    let ghost row0: Seq<Value> = row@;
    let mut rest = row;
    let mut cells: Vec<Data> = Vec::new();
    while rest.len() > 0
        invariant
            cells@.len() + rest@.len() == row0.len(),
            rest@ =~= row0.subrange(cells@.len() as int, row0.len() as int),
            forall|j: int|
                0 <= j < cells@.len() ==> is_supported(#[trigger] row0[j]) && data_matches(
                    cells@[j],
                    row0[j],
                ),
        decreases rest@.len(),
    {
        let ghost k: int = cells@.len() as int;
        let v = rest.remove(0);
        proof {
            assert(v == row0[k]);
        }
        match to_cell(v) {
            Ok(d) => {
                cells.push(d);
            },
            Err(_) => {
                proof {
                    assert(!is_supported(row0[k]));
                }
                return Err(MapError::UnsupportedValueType);
            },
        }
    }
    Ok(cells)
}

/// Fully materialize an engine result into a wire table: every value of
/// every row is mapped before any response byte exists.  One unsupported
/// value fails the whole query, recoverably.
#[verifier::loop_isolation(false)]
pub fn materialize(names: Vec<Vec<u8>>, rows: Vec<Vec<Value>>) -> (r: Result<Table, MapError>)
    ensures
        r is Ok <==> all_supported(rows_view(rows@)),
        match r {
            Ok(t) => t.names == names && t.rows@.len() == rows@.len() && (forall|i: int|
                0 <= i < rows@.len() ==> (#[trigger] t.rows@[i])@.len() == rows@[i]@.len()) && (
            forall|i: int, j: int|
                0 <= i < rows@.len() && 0 <= j < rows@[i]@.len() ==> data_matches(
                    #[trigger] t.rows@[i]@[j],
                    rows@[i]@[j],
                )),
            Err(e) => e is UnsupportedValueType,
        },
{
    let ghost rows0: Seq<Vec<Value>> = rows@;
    let mut rest = rows;
    let mut out: Vec<Row> = Vec::new();
    while rest.len() > 0
        invariant
            out@.len() + rest@.len() == rows0.len(),
            rest@ =~= rows0.subrange(out@.len() as int, rows0.len() as int),
            forall|i: int, j: int|
                0 <= i < out@.len() && 0 <= j < rows0[i]@.len() ==> is_supported(
                    #[trigger] rows0[i]@[j],
                ),
            forall|i: int| 0 <= i < out@.len() ==> (#[trigger] out@[i])@.len() == rows0[i]@.len(),
            forall|i: int, j: int|
                0 <= i < out@.len() && 0 <= j < rows0[i]@.len() ==> data_matches(
                    #[trigger] out@[i]@[j],
                    rows0[i]@[j],
                ),
        decreases rest@.len(),
    {
        let ghost k: int = out@.len() as int;
        let row = rest.remove(0);
        proof {
            assert(row == rows0[k]);
            assert(rest@ =~= rows0.subrange(k + 1, rows0.len() as int));
        }
        match map_row(row) {
            Ok(cells) => {
                out.push(cells);
            },
            Err(_) => {
                proof {
                    assert(exists|j: int|
                        0 <= j < rows0[k]@.len() && !is_supported(#[trigger] rows0[k]@[j]));
                    let j = choose|j: int|
                        0 <= j < rows0[k]@.len() && !is_supported(#[trigger] rows0[k]@[j]);
                    assert(rows_view(rows0)[k] == rows0[k]@);
                    assert(!is_supported(rows_view(rows0)[k][j]));
                    assert(!all_supported(rows_view(rows0)));
                }
                return Err(MapError::UnsupportedValueType);
            },
        }
    }
    proof {
        assert forall|i: int, j: int|
            0 <= i < rows_view(rows0).len() && 0 <= j < rows_view(rows0)[i].len() implies is_supported(
            rows_view(rows0)[i][j],
        ) by {
            assert(rows_view(rows0)[i] == rows0[i]@);
            assert(is_supported(rows0[i]@[j]));
        };
        assert(all_supported(rows_view(rows0)));
    }
    Ok(Table { names, rows: out })
}

} // verus!
