//! Connection state machine: one value per connection, driven by the bytes
//! of each inbound read.  The caller owns the socket and the engine; this
//! module decides, for every inbound buffer, exactly which bytes go back
//! out and when the connection must close.

use vstd::prelude::*;

use crate::crafter::{authentication_ok, authentication_ok_bytes, backend_key_data,
    backend_key_data_bytes, cell_chunk, cell_wf, command_complete, data_row, data_row_payload,
    empty_query_response, empty_query_response_bytes, error_response, error_response_payload,
    first_row_oids, names_seq, ready_for_query, ready_for_query_bytes, row_chunks, row_description,
    row_description_cols, row_description_payload};
use crate::interface::{Data, Row};
use crate::mapper::{all_supported, cell_bytes, cell_oid, data_matches, dec_of, lemma_u128_dec_len,
    materialize, rows_view, u128_to_dec, Value};
use crate::packet::{push_bytes, PacketReader, WireError, query_bytes, query_read_ok, read_header,
    read_query, read_start_up_packet, startup_accepts, startup_len_ok, startup_version_ok};
use crate::wire::{frame_bytes, i16_be_bytes, i32_be_bytes};

verus! {

/// ASCII whitespace: tab through carriage return, and space.
pub open spec fn is_ws(b: u8) -> bool {
    b == 32 || b == 9 || b == 10 || b == 11 || b == 12 || b == 13
}

fn is_ws_byte(b: u8) -> (r: bool)
    ensures
        r == is_ws(b),
{
    b == 32 || (b >= 9 && b <= 13)
}

/// The sequence without its leading whitespace.
pub open spec fn trim_start(s: Seq<u8>) -> Seq<u8>
    decreases s.len(),
{
    if s.len() > 0 && is_ws(s[0]) {
        trim_start(s.drop_first())
    } else {
        s
    }
}

/// The sequence without its trailing whitespace.
pub open spec fn trim_end(s: Seq<u8>) -> Seq<u8>
    decreases s.len(),
{
    if s.len() > 0 && is_ws(s[s.len() - 1]) {
        trim_end(s.drop_last())
    } else {
        s
    }
}

/// The sequence without leading and trailing whitespace.
pub open spec fn trim_ws(s: Seq<u8>) -> Seq<u8> {
    trim_end(trim_start(s))
}

/// Index of the first statement separator `;`, or the length if none.
pub open spec fn semi_split(s: Seq<u8>) -> int
    decreases s.len(),
{
    if s.len() == 0 {
        0
    } else if s[0] == 59 {
        0
    } else {
        1 + semi_split(s.drop_first())
    }
}

/// Length of the leading run of non-whitespace bytes.
pub open spec fn token_end(s: Seq<u8>) -> int
    decreases s.len(),
{
    if s.len() == 0 {
        0
    } else if is_ws(s[0]) {
        0
    } else {
        1 + token_end(s.drop_first())
    }
}

/// The first statement of a query: the text before the first `;`, trimmed.
/// Anything after the separator is discarded, never executed.
pub open spec fn first_statement(q: Seq<u8>) -> Seq<u8> {
    trim_ws(q.subrange(0, semi_split(q)))
}

/// The leading verb token of a statement: its bytes up to the first
/// whitespace, used purely as a label for the completion message.
pub open spec fn verb_of(stmt: Seq<u8>) -> Seq<u8> {
    stmt.subrange(0, token_end(stmt))
}

proof fn lemma_semi_split_at(s: Seq<u8>, i: int)
    requires
        0 <= i <= s.len(),
        forall|j: int| 0 <= j < i ==> s[j] != 59,
        i == s.len() || s[i] == 59,
    ensures
        semi_split(s) == i,
    decreases i,
{
    if i > 0 {
        lemma_semi_split_at(s.drop_first(), i - 1);
    }
}

proof fn lemma_token_end_at(s: Seq<u8>, i: int)
    requires
        0 <= i <= s.len(),
        forall|j: int| 0 <= j < i ==> !is_ws(s[j]),
        i == s.len() || is_ws(s[i]),
    ensures
        token_end(s) == i,
    decreases i,
{
    if i > 0 {
        lemma_token_end_at(s.drop_first(), i - 1);
    }
}

/// Strip leading and trailing whitespace.
#[verifier::loop_isolation(false)]
pub fn trim_bytes(s: &[u8]) -> (r: Vec<u8>)
    ensures
        r@ == trim_ws(s@),
{
    let n: usize = s.len();
    proof {
        assert(s@.subrange(0, n as int) =~= s@);
    }
    let mut lo: usize = 0;
    while lo < n && is_ws_byte(s[lo])
        invariant
            lo <= n,
            trim_start(s@) == trim_start(s@.subrange(lo as int, n as int)),
        decreases n - lo,
    {
        proof {
            assert(s@.subrange(lo as int, n as int).drop_first() =~= s@.subrange(
                lo + 1,
                n as int,
            ));
        }
        lo = lo + 1;
    }
    proof {
        assert(trim_start(s@) == s@.subrange(lo as int, n as int));
    }
    let mut hi: usize = n;
    while hi > lo && is_ws_byte(s[hi - 1])
        invariant
            lo <= hi <= n,
            trim_end(s@.subrange(lo as int, n as int)) == trim_end(
                s@.subrange(lo as int, hi as int),
            ),
        decreases hi,
    {
        proof {
            assert(s@.subrange(lo as int, hi as int).drop_last() =~= s@.subrange(
                lo as int,
                hi - 1,
            ));
        }
        hi = hi - 1;
    }
    proof {
        assert(trim_ws(s@) == s@.subrange(lo as int, hi as int));
    }
    let mut out: Vec<u8> = Vec::new();
    let mut j: usize = lo;
    while j < hi
        invariant
            lo <= j <= hi <= n,
            out@ == s@.subrange(lo as int, j as int),
        decreases hi - j,
    {
        out.push(s[j]);
        proof {
            assert(s@.subrange(lo as int, j + 1) =~= s@.subrange(lo as int, j as int).push(
                s@[j as int],
            ));
        }
        j = j + 1;
    }
    out
}

/// The first statement of the query text.
#[verifier::loop_isolation(false)]
pub fn first_statement_bytes(q: &[u8]) -> (r: Vec<u8>)
    ensures
        r@ == first_statement(q@),
{
    let n: usize = q.len();
    let mut i: usize = 0;
    while i < n && q[i] != 59
        invariant
            i <= n,
            forall|j: int| 0 <= j < i ==> (#[trigger] q@[j]) != 59,
        decreases n - i,
    {
        i = i + 1;
    }
    proof {
        lemma_semi_split_at(q@, i as int);
    }
    let mut head: Vec<u8> = Vec::new();
    let mut j: usize = 0;
    while j < i
        invariant
            j <= i <= n,
            head@ == q@.subrange(0, j as int),
        decreases i - j,
    {
        head.push(q[j]);
        proof {
            assert(q@.subrange(0, j + 1) =~= q@.subrange(0, j as int).push(q@[j as int]));
        }
        j = j + 1;
    }
    trim_bytes(head.as_slice())
}

/// The leading verb token of a statement.
#[verifier::loop_isolation(false)]
pub fn verb_bytes(stmt: &[u8]) -> (r: Vec<u8>)
    ensures
        r@ == verb_of(stmt@),
{
    let n: usize = stmt.len();
    let mut i: usize = 0;
    while i < n && !is_ws_byte(stmt[i])
        invariant
            i <= n,
            forall|j: int| 0 <= j < i ==> !is_ws(#[trigger] stmt@[j]),
        decreases n - i,
    {
        i = i + 1;
    }
    proof {
        lemma_token_end_at(stmt@, i as int);
    }
    let mut out: Vec<u8> = Vec::new();
    let mut j: usize = 0;
    while j < i
        invariant
            j <= i <= n,
            out@ == stmt@.subrange(0, j as int),
        decreases i - j,
    {
        out.push(stmt[j]);
        proof {
            assert(stmt@.subrange(0, j + 1) =~= stmt@.subrange(0, j as int).push(stmt@[j as int]));
        }
        j = j + 1;
    }
    out
}

/// Connection lifecycle: the handshake has not happened yet, or the
/// connection answers query cycles.
#[derive(Clone, Copy, Debug, PartialEq, Eq, Structural)]
pub enum Phase {
    AwaitingStartup,
    Ready,
}

/// Per-connection state.  The engine handle stays with the caller; no
/// state is shared across connections.
pub struct Session {
    pub phase: Phase,
}

/// The three frames answering a successful handshake, in order.
pub open spec fn startup_reply_bytes() -> Seq<u8> {
    authentication_ok_bytes() + backend_key_data_bytes() + ready_for_query_bytes()
}

/// The two frames answering an all-whitespace query.
pub open spec fn empty_query_reply_bytes() -> Seq<u8> {
    empty_query_response_bytes() + ready_for_query_bytes()
}

/// What one inbound message in the ready phase asks the caller to do.
pub enum MessageOutcome {
    /// Send these bytes; no engine work.
    Reply(Vec<u8>),
    /// Dispatch the statement to the engine, then hand the outcome to
    /// [`Session::on_engine_result`].
    RunQuery(QueryJob),
    /// An unknown tag: consume the message silently.
    Ignored,
    /// A framing failure: close the connection cleanly.
    Disconnect(WireError),
}

/// One query to dispatch: the raw text, the first statement, its verb.
pub struct QueryJob {
    pub query: Vec<u8>,
    pub statement: Vec<u8>,
    pub verb: Vec<u8>,
}

impl Session {
    /// A fresh connection, before its handshake.
    pub fn new() -> (r: Session)
        ensures
            r.phase is AwaitingStartup,
    {
        Session { phase: Phase::AwaitingStartup }
    }

    /// Handle the untagged startup packet.  A valid protocol-version-3
    /// packet is answered by AuthenticationOk, BackendKeyData and
    /// ReadyForQuery, in that order, and the session becomes ready.  An
    /// invalid one produces no outbound bytes at all: the error is fatal
    /// and the caller closes the connection.
    pub fn on_startup(&mut self, data: &[u8]) -> (r: Result<Vec<u8>, WireError>)
        requires
            old(self).phase is AwaitingStartup,
            data@.len() <= 0x7fff_ffff,
        ensures
            r is Ok <==> startup_accepts(data@),
            match r {
                Ok(reply) => final(self).phase is Ready && reply@ == startup_reply_bytes(),
                Err(_) => final(self).phase is AwaitingStartup,
            },
            !startup_len_ok(data@) ==> r == Err::<Vec<u8>, WireError>(
                WireError::ProtocolViolation,
            ),
            startup_len_ok(data@) && !startup_version_ok(data@) ==> r == Err::<Vec<u8>, WireError>(
                WireError::UnsupportedProtocolVersion,
            ),
    {
        let mut reader = PacketReader::new(data);
        match read_start_up_packet(&mut reader) {
            Ok(_) => {
                let mut reply = authentication_ok();
                let mut kd = backend_key_data();
                let mut rfq = ready_for_query();
                reply.append(&mut kd);
                reply.append(&mut rfq);
                self.phase = Phase::Ready;
                Ok(reply)
            },
            Err(e) => Err(e),
        }
    }

    /// Interpret one inbound read in the ready phase as exactly one
    /// message.  A query message either gets its reply at once (when the
    /// query text is all whitespace) or becomes a [`QueryJob`] for the
    /// engine, carrying only the first statement of the text.  Any other
    /// tag is consumed silently; a framing failure closes the connection.
    pub fn on_message(&self, data: &[u8]) -> (r: MessageOutcome)
        requires
            self.phase is Ready,
            data@.len() <= 0x7fff_ffff,
        ensures
            data@.len() == 0 ==> r == MessageOutcome::Disconnect(WireError::FrameTooShort),
            data@.len() > 0 && data@[0] != 81 ==> r == MessageOutcome::Ignored,
            data@.len() > 0 && data@[0] == 81 && !query_read_ok(data@, 1) ==> r
                == MessageOutcome::Disconnect(WireError::FrameTooShort),
            data@.len() > 0 && data@[0] == 81 && query_read_ok(data@, 1) && trim_ws(
                query_bytes(data@, 1),
            ).len() == 0 ==> (r matches MessageOutcome::Reply(reply) && reply@
                == empty_query_reply_bytes()),
            data@.len() > 0 && data@[0] == 81 && query_read_ok(data@, 1) && trim_ws(
                query_bytes(data@, 1),
            ).len() > 0 ==> (r matches MessageOutcome::RunQuery(job) && job.query@ == query_bytes(
                data@,
                1,
            ) && job.statement@ == first_statement(query_bytes(data@, 1)) && job.verb@ == verb_of(
                first_statement(query_bytes(data@, 1)),
            )),
    {
        let mut reader = PacketReader::new(data);
        let tag: u8 = match read_header(&mut reader) {
            Ok(t) => t,
            Err(_) => {
                return MessageOutcome::Disconnect(WireError::FrameTooShort);
            },
        };
        if tag != 81 {
            return MessageOutcome::Ignored;
        }
        let q: Vec<u8> = match read_query(&mut reader) {
            Ok(q) => q,
            Err(_) => {
                return MessageOutcome::Disconnect(WireError::FrameTooShort);
            },
        };
        let trimmed = trim_bytes(q.as_slice());
        if trimmed.len() == 0 {
            let mut reply = empty_query_response();
            let mut rfq = ready_for_query();
            reply.append(&mut rfq);
            return MessageOutcome::Reply(reply);
        }
        let statement = first_statement_bytes(q.as_slice());
        let verb = verb_bytes(statement.as_slice());
        proof {
            assert(trim_ws(q@).len() > 0);
        }
        MessageOutcome::RunQuery(QueryJob { query: q, statement, verb })
    }

    /// Turn the engine's outcome for one dispatched statement into the
    /// response bytes of the whole query cycle.
    ///
    /// Success: RowDescription (column types derived from the first row;
    /// a zero-row result falls back to the text type OID 25 for every
    /// column), one DataRow per row, CommandComplete labelled with the
    /// verb and the row count, ReadyForQuery.  A result value without a
    /// wire mapping turns the whole cycle into an error response instead.
    ///
    /// Failure: exactly one ErrorResponse, then ReadyForQuery; no
    /// RowDescription or DataRow.  The code field carries the query text
    /// and the message field the engine's error text, as the wire peers
    /// of this gateway expect.
    #[verifier::loop_isolation(false)]
    #[verifier::rlimit(60)]
    pub fn on_engine_result(&self, job: &QueryJob, reply: EngineReply) -> (r: Vec<u8>)
        requires
            self.phase is Ready,
            job.query@.len() + 64 <= 0x7fff_ffff,
            job.verb@.len() + 64 <= 0x7fff_ffff,
            match reply {
                EngineReply::Failure(e) => job.query@.len() + e@.len() + 64 <= 0x7fff_ffff,
                EngineReply::Rows(names, rows) => {
                    &&& names@.len() <= 0x7fff
                    &&& (forall|i: int|
                        0 <= i < rows@.len() ==> (#[trigger] rows@[i])@.len() == names@.len())
                    &&& row_description_payload(
                        names_seq(names@),
                        result_oids(rows_view(rows@), names@.len()),
                    ).len() + 4 <= 0x7fff_ffff
                    &&& (forall|i: int|
                        0 <= i < rows@.len() ==> value_row_payload((#[trigger] rows@[i])@).len() + 4
                            <= 0x7fff_ffff)
                    &&& (forall|i: int, j: int|
                        0 <= i < rows@.len() && 0 <= j < rows@[i]@.len() ==> value_wf(
                            #[trigger] rows@[i]@[j],
                        ))
                },
            },
        ensures
            match reply {
                EngineReply::Failure(e) => r@ == error_cycle_bytes(job.query@, e@),
                EngineReply::Rows(names, rows) => if all_supported(rows_view(rows@)) {
                    r@ == success_cycle_bytes(job.verb@, names_seq(names@), rows_view(rows@))
                } else {
                    r@ == error_cycle_bytes(job.query@, unsupported_msg())
                },
            },
    {
        match reply {
            EngineReply::Failure(e) => {
                let mut out = error_response(job.query.as_slice(), e.as_slice());
                let mut rfq = ready_for_query();
                out.append(&mut rfq);
                out
            },
            EngineReply::Rows(names, rows) => {
                let ghost names0: Seq<Vec<u8>> = names@;
                let ghost rows0: Seq<Vec<Value>> = rows@;
                let nrows: usize = rows.len();
                let ncols: usize = names.len();
                match materialize(names, rows) {
                    Err(_) => {
                        let msg = unsupported_msg_vec();
                        let mut out = error_response(job.query.as_slice(), msg.as_slice());
                        let mut rfq = ready_for_query();
                        out.append(&mut rfq);
                        out
                    },
                    Ok(table) => {
                        let ghost rv: Seq<Seq<Value>> = rows_view(rows0);
                        let ghost oids_spec: Seq<i32> = result_oids(rv, names0.len());
                        let mut out: Vec<u8>;
                        if nrows > 0 {
                            proof {
                                assert forall|ii: int| 0 <= ii < names0.len() implies first_row_oids(
                                    table,
                                )[ii] == oids_spec[ii] by {
                                    assert(data_matches(table.rows@[0]@[ii], rows0[0]@[ii]));
                                    assert(rv[0] == rows0[0]@);
                                };
                                assert(first_row_oids(table) =~= oids_spec);
                            }
                            out = row_description(&table);
                        } else {
                            let mut oids: Vec<i32> = Vec::new();
                            let mut i: usize = 0;
                            while i < ncols
                                invariant
                                    i <= ncols,
                                    oids@.len() == i,
                                    forall|j: int| 0 <= j < i ==> oids@[j] == 25i32,
                                decreases ncols - i,
                            {
                                oids.push(25);
                                i = i + 1;
                            }
                            proof {
                                assert(oids@ =~= oids_spec);
                            }
                            out = row_description_cols(&table.names, &oids);
                        }
                        let ghost rd_frame: Seq<u8> = frame_bytes(
                            84u8,
                            row_description_payload(names_seq(names0), oids_spec),
                        );
                        proof {
                            assert(out@ == rd_frame);
                        }
                        let mut i: usize = 0;
                        while i < nrows
                            invariant
                                i <= nrows,
                                out@ == rd_frame + data_row_frames(rv, i as int),
                            decreases nrows - i,
                        {
                            let rowref: &Row = &table.rows[i];
                            proof {
                                assert(rv[i as int] == rows0[i as int]@);
                                assert forall|j: int| 0 <= j < rowref@.len() implies cell_wf(
                                    #[trigger] rowref@[j],
                                ) by {
                                    assert(data_matches(rowref@[j], rows0[i as int]@[j]));
                                    assert(value_wf(rows0[i as int]@[j]));
                                };
                                lemma_row_payload_match(rowref@, rv[i as int]);
                                assert(data_row_frames(rv, i + 1) == data_row_frames(rv, i as int)
                                    + frame_bytes(68u8, value_row_payload(rv[i as int])));
                            }
                            let mut frame = data_row(rowref);
                            out.append(&mut frame);
                            proof {
                                assert(out@ =~= rd_frame + data_row_frames(rv, i + 1));
                            }
                            i = i + 1;
                        }
                        let digits = u128_to_dec(nrows as u128);
                        let mut tagv: Vec<u8> = Vec::new();
                        push_bytes(&mut tagv, job.verb.as_slice());
                        tagv.push(32);
                        push_bytes(&mut tagv, digits.as_slice());
                        proof {
                            lemma_u128_dec_len(nrows as u128);
                            assert(tagv@ =~= completion_tag(job.verb@, nrows as nat));
                        }
                        let mut cc = command_complete(tagv.as_slice());
                        out.append(&mut cc);
                        let mut rfq = ready_for_query();
                        out.append(&mut rfq);
                        proof {
                            assert(rv.len() == nrows);
                            assert(out@ =~= success_cycle_bytes(job.verb@, names_seq(names0), rv));
                        }
                        out
                    },
                }
            },
        }
    }
}

/// The engine's answer for one dispatched statement.
pub enum EngineReply {
    /// Column names and the value rows of a successful execution, fully
    /// materialized.
    Rows(Vec<Vec<u8>>, Vec<Vec<Value>>),
    /// The engine's error text for a statement that failed to prepare or
    /// execute.
    Failure(Vec<u8>),
}

/// A value whose wire payload leaves room for its length field inside the
/// frame length budget.
pub open spec fn value_wf(v: Value) -> bool {
    match cell_bytes(v) {
        Some(b) => b.len() + 8 <= 0x7fff_ffff,
        None => true,
    }
}

/// The DataRow chunk of one engine value: NULL is the length marker `-1`,
/// any other value its byte length then its bytes.
pub open spec fn value_chunk(v: Value) -> Seq<u8> {
    match cell_bytes(v) {
        None => i32_be_bytes(-1i32),
        Some(b) => i32_be_bytes(b.len() as i32) + b,
    }
}

/// The first `k` chunks of a row of engine values.
pub open spec fn value_chunks(row: Seq<Value>, k: int) -> Seq<u8>
    decreases k,
{
    if k <= 0 {
        Seq::empty()
    } else {
        value_chunks(row, k - 1) + value_chunk(row[k - 1])
    }
}

/// The DataRow payload of one row of engine values.
pub open spec fn value_row_payload(row: Seq<Value>) -> Seq<u8> {
    i16_be_bytes(row.len() as i16) + value_chunks(row, row.len() as int)
}

/// The column type OIDs of a result: derived from the first row, or the
/// text type OID 25 for every column of a zero-row result.
pub open spec fn result_oids(rows: Seq<Seq<Value>>, ncols: nat) -> Seq<i32> {
    if rows.len() > 0 {
        Seq::new(ncols, |i: int| cell_oid(rows[0][i]))
    } else {
        Seq::new(ncols, |i: int| 25i32)
    }
}

/// The first `k` DataRow frames of a result, in row order.
pub open spec fn data_row_frames(rows: Seq<Seq<Value>>, k: int) -> Seq<u8>
    decreases k,
{
    if k <= 0 {
        Seq::empty()
    } else {
        data_row_frames(rows, k - 1) + frame_bytes(68u8, value_row_payload(rows[k - 1]))
    }
}

/// The CommandComplete tag: the verb, a space, the row count in decimal.
pub open spec fn completion_tag(verb: Seq<u8>, n: nat) -> Seq<u8> {
    verb + seq![32u8] + dec_of(n)
}

/// The whole response of a successful query cycle, in order:
/// RowDescription, one DataRow per row, CommandComplete, ReadyForQuery.
pub open spec fn success_cycle_bytes(verb: Seq<u8>, names: Seq<Seq<u8>>, rows: Seq<Seq<Value>>) -> Seq<
    u8,
> {
    frame_bytes(84u8, row_description_payload(names, result_oids(rows, names.len())))
        + data_row_frames(rows, rows.len() as int) + frame_bytes(
        67u8,
        completion_tag(verb, rows.len()) + seq![0u8],
    ) + ready_for_query_bytes()
}

/// The whole response of a failed query cycle: exactly one ErrorResponse,
/// then ReadyForQuery.
pub open spec fn error_cycle_bytes(code: Seq<u8>, msg: Seq<u8>) -> Seq<u8> {
    frame_bytes(69u8, error_response_payload(code, msg)) + ready_for_query_bytes()
}

/// The message reported when a result value has no wire mapping: the
/// bytes of `"unsupported value type"`.
pub open spec fn unsupported_msg() -> Seq<u8> {
    seq![
        117u8,
        110u8,
        115u8,
        117u8,
        112u8,
        112u8,
        111u8,
        114u8,
        116u8,
        101u8,
        100u8,
        32u8,
        118u8,
        97u8,
        108u8,
        117u8,
        101u8,
        32u8,
        116u8,
        121u8,
        112u8,
        101u8,
    ]
}

fn unsupported_msg_vec() -> (r: Vec<u8>)
    ensures
        r@ == unsupported_msg(),
{
    let mut r: Vec<u8> = Vec::new();
    r.push(117);
    r.push(110);
    r.push(115);
    r.push(117);
    r.push(112);
    r.push(112);
    r.push(111);
    r.push(114);
    r.push(116);
    r.push(101);
    r.push(100);
    r.push(32);
    r.push(118);
    r.push(97);
    r.push(108);
    r.push(117);
    r.push(101);
    r.push(32);
    r.push(116);
    r.push(121);
    r.push(112);
    r.push(101);
    proof {
        assert(r@ =~= unsupported_msg());
    }
    r
}

/// The chunks of mapped cells are exactly the chunks of the values they
/// were mapped from.
proof fn lemma_chunks_match(cells: Seq<Data>, vals: Seq<Value>, k: int)
    requires
        k <= vals.len(),
        cells.len() == vals.len(),
        forall|j: int| 0 <= j < vals.len() ==> data_matches(#[trigger] cells[j], vals[j]),
    ensures
        row_chunks(cells, k) == value_chunks(vals, k),
    decreases k,
{
    if k > 0 {
        lemma_chunks_match(cells, vals, k - 1);
        assert(data_matches(cells[k - 1], vals[k - 1]));
        assert(cell_chunk(cells[k - 1]) == value_chunk(vals[k - 1]));
    }
}

/// The DataRow payload of mapped cells is exactly that of the values they
/// were mapped from.
proof fn lemma_row_payload_match(cells: Seq<Data>, vals: Seq<Value>)
    requires
        cells.len() == vals.len(),
        forall|j: int| 0 <= j < vals.len() ==> data_matches(#[trigger] cells[j], vals[j]),
    ensures
        data_row_payload(cells) == value_row_payload(vals),
{
    lemma_chunks_match(cells, vals, vals.len() as int);
}

} // verus!
