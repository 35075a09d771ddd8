//! Stateless builders for each outbound message kind, one function per
//! message, each composing the frame builder and returning the complete
//! frame bytes.

use vstd::prelude::*;

use crate::interface::{Data, Row, Table};
use crate::packet::PacketBuilder;
use crate::wire::{frame_bytes, i16_be_bytes, i32_be_bytes};

verus! {

/// `R`: authentication success, payload one int32 zero.
pub open spec fn authentication_ok_bytes() -> Seq<u8> {
    frame_bytes(82u8, i32_be_bytes(0))
}

/// `K`: two opaque 32-bit session identifiers.  Fixed placeholder values,
/// since query cancellation is out of scope.
pub open spec fn backend_key_data_bytes() -> Seq<u8> {
    frame_bytes(75u8, i32_be_bytes(1234) + i32_be_bytes(5678))
}

/// `Z`: ready for query, status byte `I` for idle.
pub open spec fn ready_for_query_bytes() -> Seq<u8> {
    frame_bytes(90u8, seq![73u8])
}

/// `I`: empty query response, empty payload.
pub open spec fn empty_query_response_bytes() -> Seq<u8> {
    frame_bytes(73u8, Seq::empty())
}

/// `E` payload: severity field `S` `"ERROR"`, code field `C`, message
/// field `D`, each null-terminated, then a closing zero byte.
pub open spec fn error_response_payload(code: Seq<u8>, msg: Seq<u8>) -> Seq<u8> {
    seq![83u8] + seq![69u8, 82u8, 82u8, 79u8, 82u8] + seq![0u8] + seq![67u8] + code + seq![0u8]
        + seq![68u8] + msg + seq![0u8] + seq![0u8]
}

/// One RowDescription column entry: name, table oid 0, attribute number 0,
/// the type OID, fixed size 4, type modifier -1, text format code 0.
pub open spec fn rd_entry(name: Seq<u8>, oid: i32) -> Seq<u8> {
    name + seq![0u8] + i32_be_bytes(0) + i16_be_bytes(0) + i32_be_bytes(oid) + i16_be_bytes(4)
        + i32_be_bytes(-1i32) + i16_be_bytes(0)
}

/// The first `k` column entries, in order.
pub open spec fn rd_entries(names: Seq<Seq<u8>>, oids: Seq<i32>, k: int) -> Seq<u8>
    decreases k,
{
    if k <= 0 {
        Seq::empty()
    } else {
        rd_entries(names, oids, k - 1) + rd_entry(names[k - 1], oids[k - 1])
    }
}

/// `T` payload: column count, then one entry per column.
pub open spec fn row_description_payload(names: Seq<Seq<u8>>, oids: Seq<i32>) -> Seq<u8> {
    i16_be_bytes(names.len() as i16) + rd_entries(names, oids, names.len() as int)
}

/// The names of a table's columns, each as a byte sequence.
pub open spec fn names_seq(names: Seq<Vec<u8>>) -> Seq<Seq<u8>> {
    names.map_values(|n: Vec<u8>| n@)
}

/// The type OIDs carried by the first row's cells.
pub open spec fn first_row_oids(t: Table) -> Seq<i32> {
    Seq::new(t.names@.len(), |i: int| t.rows@[0]@[i].typ)
}

/// One DataRow cell chunk: NULL is the dedicated length marker `-1` with
/// no payload bytes; any other value is its byte length then its bytes.
pub open spec fn cell_chunk(d: Data) -> Seq<u8> {
    match d.data {
        None => i32_be_bytes(-1i32),
        Some(bv) => i32_be_bytes(bv@.len() as i32) + bv@,
    }
}

/// The first `k` cell chunks of a row, in order.
pub open spec fn row_chunks(row: Seq<Data>, k: int) -> Seq<u8>
    decreases k,
{
    if k <= 0 {
        Seq::empty()
    } else {
        row_chunks(row, k - 1) + cell_chunk(row[k - 1])
    }
}

/// `D` payload: cell count, then one chunk per cell.
pub open spec fn data_row_payload(row: Seq<Data>) -> Seq<u8> {
    i16_be_bytes(row.len() as i16) + row_chunks(row, row.len() as int)
}

/// A cell whose payload leaves room for its length field inside the frame
/// length budget.
pub open spec fn cell_wf(d: Data) -> bool {
    match d.data {
        Some(bv) => bv@.len() + 8 <= 0x7fff_ffff,
        None => true,
    }
}

pub proof fn lemma_rd_entries_len_mono(names: Seq<Seq<u8>>, oids: Seq<i32>, i: int, j: int)
    requires
        i <= j,
    ensures
        rd_entries(names, oids, i).len() <= rd_entries(names, oids, j).len(),
    decreases j - i,
{
    if i < j {
        lemma_rd_entries_len_mono(names, oids, i, j - 1);
    }
}

pub proof fn lemma_row_chunks_len_mono(row: Seq<Data>, i: int, j: int)
    requires
        i <= j,
    ensures
        row_chunks(row, i).len() <= row_chunks(row, j).len(),
    decreases j - i,
{
    if i < j {
        lemma_row_chunks_len_mono(row, i, j - 1);
    }
}

/// A NULL cell's chunk differs from the chunk of every non-null cell, the
/// empty string included: NULL is sent as length `-1`, a non-null value as
/// its nonnegative length.
pub proof fn lemma_null_cell_distinct(null_cell: Data, other: Data)
    requires
        null_cell.data is None,
        other.data is Some,
        cell_wf(other),
    ensures
        cell_chunk(null_cell) != cell_chunk(other),
{
    assert(((0xffff_ffffu32 >> 24) & 0xff) == 255) by (bit_vector);
    assert(cell_chunk(null_cell)[0] == 255);
    let n: i32 = (other.data->Some_0@.len() as i32);
    assert(0 <= n <= 0x7fff_ffff);
    let u: u32 = crate::wire::u32_of_i32(n);
    assert(u <= 0x7fff_ffff);
    assert(((u >> 24) & 0xff) < 255) by (bit_vector)
        requires
            u <= 0x7fff_ffff,
    ;
    assert(cell_chunk(other)[0] < 255);
}

pub fn authentication_ok() -> (r: Vec<u8>)
    ensures
        r@ == authentication_ok_bytes(),
{
    let mut b = PacketBuilder::new(82);
    b.add_i32(0);
    b.build()
}

pub fn backend_key_data() -> (r: Vec<u8>)
    ensures
        r@ == backend_key_data_bytes(),
{
    let mut b = PacketBuilder::new(75);
    b.add_i32(1234);
    b.add_i32(5678);
    b.build()
}

pub fn ready_for_query() -> (r: Vec<u8>)
    ensures
        r@ == ready_for_query_bytes(),
{
    let mut b = PacketBuilder::new(90);
    b.add_i1(73);
    proof {
        assert(Seq::<u8>::empty().push(73u8) =~= seq![73u8]);
    }
    b.build()
}

pub fn empty_query_response() -> (r: Vec<u8>)
    ensures
        r@ == empty_query_response_bytes(),
{
    let mut b = PacketBuilder::new(73);
    b.build()
}

/// The field bytes of `"ERROR"`.
fn error_word() -> (r: Vec<u8>)
    ensures
        r@ == seq![69u8, 82u8, 82u8, 79u8, 82u8],
{
    let mut r: Vec<u8> = Vec::new();
    r.push(69);
    r.push(82);
    r.push(82);
    r.push(79);
    r.push(82);
    proof {
        assert(r@ =~= seq![69u8, 82u8, 82u8, 79u8, 82u8]);
    }
    r
}

/// `E`: severity `"ERROR"`, a code field, a human-readable message field.
pub fn error_response(code: &[u8], msg: &[u8]) -> (r: Vec<u8>)
    requires
        code@.len() + msg@.len() + 32 <= 0x7fff_ffff,
    ensures
        r@ == frame_bytes(69u8, error_response_payload(code@, msg@)),
{
    let mut b = PacketBuilder::new(69);
    b.add_i1(83);
    let word = error_word();
    b.add_string_zero(word.as_slice());
    b.add_i1(67);
    b.add_string_zero(code);
    b.add_i1(68);
    b.add_string_zero(msg);
    b.add_i1(0);
    proof {
        assert(b.payload() =~= error_response_payload(code@, msg@));
    }
    b.build()
}

/// `T`: one entry per column, from explicit names and type OIDs.
#[verifier::loop_isolation(false)]
pub fn row_description_cols(names: &Vec<Vec<u8>>, oids: &Vec<i32>) -> (r: Vec<u8>)
    requires
        names@.len() == oids@.len(),
        names@.len() <= 0x7fff,
        row_description_payload(names_seq(names@), oids@).len() + 4 <= 0x7fff_ffff,
    ensures
        r@ == frame_bytes(84u8, row_description_payload(names_seq(names@), oids@)),
{
    let ghost nv: Seq<Seq<u8>> = names_seq(names@);
    let ghost ov: Seq<i32> = oids@;
    let ncols: usize = names.len();
    let mut b = PacketBuilder::new(84);
    b.add_i16(ncols as i16);
    let mut i: usize = 0;
    while i < ncols
        invariant
            i <= ncols,
            b.tag() == 84,
            b.payload() == i16_be_bytes(ncols as i16) + rd_entries(nv, ov, i as int),
        decreases ncols - i,
    {
        proof {
            lemma_rd_entries_len_mono(nv, ov, i + 1, ncols as int);
            assert(rd_entries(nv, ov, i + 1) == rd_entries(nv, ov, i as int) + rd_entry(
                nv[i as int],
                ov[i as int],
            ));
        }
        let name: &Vec<u8> = &names[i];
        b.add_string_zero(name.as_slice());
        b.add_i32(0);
        b.add_i16(0);
        b.add_i32(oids[i]);
        b.add_i16(4);
        b.add_i32(-1);
        b.add_i16(0);
        proof {
            assert(b.payload() =~= i16_be_bytes(ncols as i16) + rd_entries(nv, ov, i + 1));
        }
        i = i + 1;
    }
    b.build()
}

/// `T`: one entry per column, its type OID derived from the first row.
pub fn row_description(table: &Table) -> (r: Vec<u8>)
    requires
        table.rows@.len() > 0,
        table.rows@[0]@.len() == table.names@.len(),
        table.names@.len() <= 0x7fff,
        row_description_payload(names_seq(table.names@), first_row_oids(*table)).len() + 4
            <= 0x7fff_ffff,
    ensures
        r@ == frame_bytes(
            84u8,
            row_description_payload(names_seq(table.names@), first_row_oids(*table)),
        ),
{
    let ncols: usize = table.names.len();
    let mut oids: Vec<i32> = Vec::new();
    let mut i: usize = 0;
    while i < ncols
        invariant
            i <= ncols,
            table.rows@.len() > 0,
            table.rows@[0]@.len() == table.names@.len(),
            ncols == table.names@.len(),
            oids@.len() == i,
            forall|j: int| 0 <= j < i ==> oids@[j] == first_row_oids(*table)[j],
        decreases ncols - i,
    {
        let row0: &Row = &table.rows[0];
        oids.push(row0[i].typ);
        i = i + 1;
    }
    proof {
        assert(oids@ =~= first_row_oids(*table));
    }
    row_description_cols(&table.names, &oids)
}

/// `D`: cell count, then per cell a length-prefixed payload; NULL is the
/// length marker `-1`.
#[verifier::loop_isolation(false)]
pub fn data_row(row: &Row) -> (r: Vec<u8>)
    requires
        row@.len() <= 0x7fff,
        forall|j: int| 0 <= j < row@.len() ==> cell_wf(#[trigger] row@[j]),
        data_row_payload(row@).len() + 4 <= 0x7fff_ffff,
    ensures
        r@ == frame_bytes(68u8, data_row_payload(row@)),
{
    let n: usize = row.len();
    let mut b = PacketBuilder::new(68);
    b.add_i16(n as i16);
    let mut i: usize = 0;
    while i < n
        invariant
            i <= n,
            b.tag() == 68,
            b.payload() == i16_be_bytes(n as i16) + row_chunks(row@, i as int),
        decreases n - i,
    {
        proof {
            lemma_row_chunks_len_mono(row@, i + 1, n as int);
            assert(row_chunks(row@, i + 1) == row_chunks(row@, i as int) + cell_chunk(
                row@[i as int],
            ));
        }
        let cell: &Data = &row[i];
        match &cell.data {
            None => {
                b.add_i32(-1);
            },
            Some(bytes) => {
                b.add_i32(bytes.len() as i32);
                b.add_string(bytes.as_slice());
            },
        }
        proof {
            assert(b.payload() =~= i16_be_bytes(n as i16) + row_chunks(row@, i + 1));
        }
        i = i + 1;
    }
    b.build()
}

/// `C`: the completion tag, null-terminated.
pub fn command_complete(msg: &[u8]) -> (r: Vec<u8>)
    requires
        msg@.len() + 16 <= 0x7fff_ffff,
    ensures
        r@ == frame_bytes(67u8, msg@ + seq![0u8]),
{
    let mut b = PacketBuilder::new(67);
    b.add_string_zero(msg);
    b.build()
}

} // verus!
