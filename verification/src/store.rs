//! The encrypted store: opening the database read-only, unlocking it with
//! the key-setup directive, streaming the joined row set, and turning raw
//! rows into the finished conversation aggregates.

use vstd::prelude::*;
use rusqlite::Connection;
use crate::aggregate::extract_raw_messages_to_formatted_messages;
use crate::keys::{build_key_pragma, strip_quotes, strip_quotes_exec};
use crate::json::{digit_of, digits_value, lemma_digits_big, lemma_digits_leading_zero, lemma_digits_value_all, pow10, lemma_pow10_mono};
use crate::json::spec_parse_doc;
use crate::payload::{
    derive_display_name, derive_sender_label, e164_value, extract_useful_fields_from_json,
    merge_row_fields, msg_shape_ok, payload_fields_match, payload_wellformed,
};
use crate::records::{ConversationOutput, ExportError, FullMessage, RawRow};
use crate::text::chars_of;

verus! {

#[verifier::external_type_specification]
#[verifier::external_body]
pub struct ExConnection(Connection);

#[verifier::external_type_specification]
#[verifier::external_body]
pub struct ExRusqliteError(rusqlite::Error);

/// Relies on rusqlite's `Connection::open_with_flags`: opens the database
/// file read-only; which result comes back depends on the file system.
#[verifier::external_body]
fn open_readonly(path: &str) -> (r: Result<Connection, rusqlite::Error>) {
    Connection::open_with_flags(path, rusqlite::OpenFlags::SQLITE_OPEN_READ_ONLY)
}

/// Relies on rusqlite's error type: tells the driver's cannot-open failure
/// (a missing or unopenable file) apart from its other failures.
#[verifier::external_body]
fn is_cannot_open(e: &rusqlite::Error) -> (r: bool) {
    match e {
        rusqlite::Error::SqliteFailure(f, _) => f.code == rusqlite::ErrorCode::CannotOpen,
        _ => false,
    }
}

/// Relies on rusqlite's `Error`'s `Display` impl through `format!`: renders
/// the driver error as text for diagnostics.
#[verifier::external_body]
fn describe_sqlite_error(e: &rusqlite::Error) -> (r: String) {
    format!("{}", e)
}

/// Relies on rusqlite's `Connection::prepare` and `Statement::query`: runs
/// one statement and drains its rows; the outcome depends on the database
/// file behind the connection.
#[verifier::external_body]
fn exec_sql(conn: &Connection, sql: &str) -> (r: Result<(), rusqlite::Error>) {
    let mut stmt = conn.prepare(sql)?;
    let mut rows = stmt.query(())?;
    while let Some(_row) = rows.next()? {}
    Ok(())
}

/// Relies on rusqlite's `Statement::query_map`: runs the join query and
/// copies each row's seven columns out as plain values; a failing row
/// surfaces as the error. What comes back depends on the database file.
#[verifier::external_body]
fn run_row_query(conn: &Connection, sql: &str) -> (r: Result<Vec<RawRow>, rusqlite::Error>) {
    let mut stmt = conn.prepare(sql)?;
    let rows = stmt.query_map((), |row| {
        Ok(RawRow {
            payload: row.get(0)?, conversation_id: row.get(1)?, conv_type: row.get(2)?,
            e164_text: row.get(3)?, profile_name: row.get(4)?,
            profile_full_name: row.get(5)?, msg_type: row.get(6)?,
        })
    })?;
    let mut out = Vec::new();
    for r in rows {
        out.push(r?);
    }
    Ok(out)
}

/// Reads a phone-style identifier: an optional `+`, then decimal digits.
/// Succeeds exactly on the values that fit the signed 64-bit range.
#[verifier::loop_isolation(false)]
#[verifier::rlimit(100)]
#[verifier::spinoff_prover]
pub fn parse_e164(s: &str) -> (r: Result<i64, ()>)
    ensures
        match r {
            Result::Ok(v) => e164_value(s@) == Option::Some(v as int) && 0 <= v,
            Result::Err(_) => e164_value(s@) is None || (e164_value(s@) matches Option::Some(x)
                && x > i64::MAX),
        },
{
    let cs = chars_of(s);
    let start: usize = if cs.len() > 0 && cs[0] == '+' {
        1
    } else {
        0
    };
    let ghost digs = if s@.len() > 0 && s@[0] == '+' {
        s@.subrange(1, s@.len() as int)
    } else {
        s@
    };
    proof {
        assert(e164_value(s@) == digits_value(digs));
        assert(digs =~= s@.subrange(start as int, s@.len() as int));
    }
    if start == cs.len() {
        proof {
            assert(digs.len() == 0);
        }
        return Result::Err(());
    }
    let mut z: usize = start;
    while z + 1 < cs.len() && cs[z] == '0'
        invariant
            start <= z < cs@.len(),
            digits_value(digs) == digits_value(s@.subrange(z as int, s@.len() as int)),
        decreases cs.len() - z,
    {
        proof {
            let cur = s@.subrange(z as int, s@.len() as int);
            lemma_digits_leading_zero(cur);
            assert(cur.subrange(1, cur.len() as int) =~= s@.subrange(
                z as int + 1,
                s@.len() as int,
            ));
        }
        z = z + 1;
    }
    if cs.len() - z >= 20 {
        let d0 = digit_value_of(cs[z]);
        proof {
            let cur = s@.subrange(z as int, s@.len() as int);
            assert(cur[0] == s@[z as int]);
            match d0 {
                Option::Some(_) => {
                    assert(s@[z as int] != '0');
                    lemma_digits_big(cur);
                },
                Option::None => {
                    lemma_digits_value_all(cur, 0);
                },
            }
        }
        return Result::Err(());
    }
    let mut acc: u64 = 0;
    let mut i: usize = z;
    while i < cs.len()
        invariant
            z <= i <= cs@.len(),
            cs@.len() - z < 20,
            acc < pow10((i - z) as nat),
            i > z ==> digits_value(s@.subrange(z as int, i as int)) == Option::Some(acc as int),
            i == z ==> acc == 0,
        decreases cs.len() - i,
    {
        let ghost pre = s@.subrange(z as int, i as int);
        let d = digit_value_of(cs[i]);
        let dv: u64 = match d {
            Option::Some(v) => v,
            Option::None => {
                proof {
                    let cur = s@.subrange(z as int, s@.len() as int);
                    assert(cur[i - z] == s@[i as int]);
                    lemma_digits_value_all(cur, i - z);
                }
                return Result::Err(());
            },
        };
        proof {
            lemma_pow10_mono((i - z) as nat, 18);
            assert(pow10(18) == 1000000000000000000) by {
                reveal_with_fuel(pow10, 20);
            }
            assert(s@.subrange(z as int, i as int + 1).drop_last() =~= pre);
            assert(s@.subrange(z as int, i as int + 1).last() == s@[i as int]);
        }
        acc = acc * 10 + dv;
        i = i + 1;
        proof {
            assert(pow10((i - z) as nat) == 10 * pow10((i - 1 - z) as nat));
        }
    }
    proof {
        assert(s@.subrange(z as int, s@.len() as int) =~= s@.subrange(z as int, s@.len() as int));
    }
    if acc > 9223372036854775807 {
        return Result::Err(());
    }
    Result::Ok(acc as i64)
}

/// One decimal digit character's value.
fn digit_value_of(c: char) -> (r: Option<u64>)
    ensures
        match r {
            Option::Some(v) => digit_of(c) == Option::Some(v as int),
            Option::None => digit_of(c) is None,
        },
{
    match c {
        '0' => Option::Some(0),
        '1' => Option::Some(1),
        '2' => Option::Some(2),
        '3' => Option::Some(3),
        '4' => Option::Some(4),
        '5' => Option::Some(5),
        '6' => Option::Some(6),
        '7' => Option::Some(7),
        '8' => Option::Some(8),
        '9' => Option::Some(9),
        _ => Option::None,
    }
}

/// Unlocks an opened store: strips every double-quote character from the
/// key, rejects a key with no content left, issues the key-setup directive,
/// and probes one read. Every failure is `UnlockFailed`.
pub fn unlock_sqlite_database_with_pragma(conn: &Connection, key: &str) -> (r: Result<
    (),
    ExportError,
>)
    ensures
        strip_quotes(key@).len() == 0 ==> (r matches Result::Err(e) && e is UnlockFailed),
        r matches Result::Err(e) ==> e is UnlockFailed,
{
    let stripped = strip_quotes_exec(key);
    if stripped.len() == 0 {
        return Result::Err(ExportError::UnlockFailed);
    }
    let pragma = build_key_pragma(key);
    match exec_sql(conn, pragma.as_str()) {
        Result::Ok(_) => {},
        Result::Err(_) => {
            return Result::Err(ExportError::UnlockFailed);
        },
    }
    match exec_sql(conn, "SELECT count(*) FROM sqlite_master;") {
        Result::Ok(_) => Result::Ok(()),
        Result::Err(_) => Result::Err(ExportError::UnlockFailed),
    }
}

/// What a merged record carries: every payload-decoded field exactly as the
/// row's blob reads, and the row-derived conversation type, numeric
/// identifier, display name and sender label written over the rest.
pub open spec fn merged_from_row(m: FullMessage, row: RawRow) -> bool {
    &&& spec_parse_doc(row.payload@) matches Option::Some(pv) && msg_shape_ok(pv)
        && payload_fields_match(pv, m)
    &&& m.msg_type == row.conv_type
    &&& match (row.e164_text, m.e164) {
        (Option::None, Option::None) => true,
        (Option::Some(t), Option::Some(v)) => e164_value(t@) == Option::Some(v as int),
        _ => false,
    }
    &&& m.profile_name matches Option::Some(p) && p@ == match row.profile_name {
        Option::Some(n) => n@,
        Option::None => row.conversation_id@,
    }
    &&& m.message_name matches Option::Some(l) && l@ == crate::payload::sender_label_spec(
        match row.msg_type {
            Option::Some(t) => Option::Some(t@),
            Option::None => Option::None,
        },
        match row.profile_full_name {
            Option::Some(n) => Option::Some(n@),
            Option::None => Option::None,
        },
    )
}

/// Whether a raw row decodes: its payload reads as a well-shaped message
/// object, and its phone-style identifier, if present, has an in-range
/// reading.
pub open spec fn row_decodes(row: RawRow) -> bool {
    &&& payload_wellformed(row.payload@)
    &&& match row.e164_text {
        Option::None => true,
        Option::Some(t) => e164_value(t@) matches Option::Some(x) && x <= i64::MAX,
    }
}

/// Decodes one raw row into a merged message record: the payload decoded,
/// then the row-derived conversation type, numeric identifier, display name
/// and sender label written over it. Errs exactly when the row does not
/// decode, naming its conversation.
pub fn row_to_message(row: &RawRow) -> (r: Result<FullMessage, ExportError>)
    ensures
        match r {
            Result::Ok(m) => merged_from_row(m, *row) && row_decodes(*row),
            Result::Err(e) => e is PayloadDecodeError && !row_decodes(*row),
        },
{
    let decoded = match extract_useful_fields_from_json(row.payload.as_str(), &row.conversation_id)
        {
        Result::Ok(m) => m,
        Result::Err(e) => {
            return Result::Err(e);
        },
    };
    proof {
        let pv = spec_parse_doc(row.payload@)->0;
        crate::payload::lemma_msg_matches_payload_fields(pv, decoded);
    }
    let e164 = match &row.e164_text {
        Option::None => Option::None,
        Option::Some(t) => match parse_e164(t.as_str()) {
            Result::Ok(v) => Option::Some(v),
            Result::Err(_) => {
                return Result::Err(ExportError::PayloadDecodeError(row.conversation_id.clone()));
            },
        },
    };
    let display = derive_display_name(&row.profile_name, &row.conversation_id);
    let label = derive_sender_label(&row.msg_type, &row.profile_full_name);
    let conv_type = match &row.conv_type {
        Option::Some(t) => Option::Some(t.clone()),
        Option::None => Option::None,
    };
    Result::Ok(merge_row_fields(decoded, conv_type, e164, Option::Some(display), label))
}

/// Decodes and merges the whole row stream, in input order: one merged
/// record per row exactly when every row decodes; otherwise the first
/// failing row's error, naming its conversation.
#[verifier::loop_isolation(false)]
pub fn rows_to_messages(rows: Vec<RawRow>) -> (r: Result<Vec<FullMessage>, ExportError>)
    ensures
        match r {
            Result::Ok(v) => v@.len() == rows@.len() && forall|k: int|
                0 <= k < v@.len() ==> merged_from_row(#[trigger] v@[k], rows@[k]),
            Result::Err(e) => e is PayloadDecodeError && exists|k: int|
                {
                    &&& 0 <= k < rows@.len()
                    &&& !row_decodes(#[trigger] rows@[k])
                    &&& forall|t: int| 0 <= t < k ==> row_decodes(rows@[t])
                },
        },
{
    let ghost orig = rows@;
    let mut rest = rows;
    let n: usize = rest.len();
    proof {
        assert(orig.len() == n);
    }
    let mut taken: usize = 0;
    let mut msgs: Vec<FullMessage> = Vec::new();
    while rest.len() > 0
        invariant
            taken + rest.len() == orig.len(),
            orig.len() <= usize::MAX,
            rest@ == orig.subrange(taken as int, orig.len() as int),
            msgs@.len() == taken,
            forall|k: int| 0 <= k < taken ==> merged_from_row(#[trigger] msgs@[k], orig[k]),
            forall|k: int| 0 <= k < taken ==> row_decodes(#[trigger] orig[k]),
        decreases rest.len(),
    {
        let row = rest.remove(0);
        proof {
            assert(orig.subrange(taken as int, orig.len() as int)[0] == orig[taken as int]);
            assert(rest@ =~= orig.subrange(taken as int + 1, orig.len() as int));
        }
        match row_to_message(&row) {
            Result::Ok(m) => msgs.push(m),
            Result::Err(e) => {
                proof {
                    assert(!row_decodes(orig[taken as int]));
                }
                return Result::Err(e);
            },
        }
        taken = taken + 1;
    }
    Result::Ok(msgs)
}

/// Opens the encrypted store read-only, unlocks it with the resolved key,
/// streams the joined row set, decodes and merges every row, and groups the
/// records into sorted conversation aggregates. A row whose payload cannot
/// be decoded fails the run with its error, never silently. A key with no
/// content left after quote stripping never yields a success. Whatever the
/// store held, a success is a well-formed aggregate set of some merged
/// record sequence: one aggregate per conversation, headers frozen from its
/// first record, messages filtered and stably sorted.
pub fn get_signal_data_from_sqlite(database_file_path: &str, signal_key: &str) -> (r: Result<
    Vec<ConversationOutput>,
    ExportError,
>)
    ensures
        strip_quotes(signal_key@).len() == 0 ==> !(r is Ok),
        r matches Result::Err(e) ==> (e is StoreNotFound || e is StoreOpenError
            || e is UnlockFailed || e is PayloadDecodeError || e is QueryError
            || e is MissingConversationType),
        r matches Result::Ok(out) ==> exists|msgs: Seq<FullMessage>|
            {
                &&& #[trigger] crate::aggregate::no_missing_type(msgs)
                &&& out@.len() == crate::aggregate::seen_ids(msgs).len()
                &&& forall|k: int|
                    0 <= k < out@.len() ==> crate::aggregate::agg_ok(
                        #[trigger] out@[k],
                        msgs,
                        crate::aggregate::seen_ids(msgs)[k],
                    )
            },
{
    let conn = match open_readonly(database_file_path) {
        Result::Ok(c) => c,
        Result::Err(e) => {
            if is_cannot_open(&e) {
                return Result::Err(ExportError::StoreNotFound);
            }
            return Result::Err(ExportError::StoreOpenError(describe_sqlite_error(&e)));
        },
    };
    match unlock_sqlite_database_with_pragma(&conn, signal_key) {
        Result::Ok(_) => {},
        Result::Err(_) => {
            return Result::Err(ExportError::UnlockFailed);
        },
    }
    let sql =
        "SELECT m.json, m.conversationId, c.type, c.e164, c.profileName, c.profileFullName, m.type FROM messages as m JOIN conversations as c ON c.id = m.conversationId ORDER BY m.sent_at;";
    let rows = match run_row_query(&conn, sql) {
        Result::Ok(rs) => rs,
        Result::Err(e) => {
            return Result::Err(ExportError::QueryError(describe_sqlite_error(&e)));
        },
    };
    let msgs = match rows_to_messages(rows) {
        Result::Ok(v) => v,
        Result::Err(e) => {
            return Result::Err(e);
        },
    };
    let ghost mseq = msgs@;
    match extract_raw_messages_to_formatted_messages(msgs) {
        Result::Ok(out) => {
            proof {
                assert(crate::aggregate::no_missing_type(mseq) && out@.len()
                    == crate::aggregate::seen_ids(mseq).len() && forall|k: int|
                    0 <= k < out@.len() ==> crate::aggregate::agg_ok(
                        #[trigger] out@[k],
                        mseq,
                        crate::aggregate::seen_ids(mseq)[k],
                    ));
            }
            Result::Ok(out)
        },
        Result::Err(e) => Result::Err(e),
    }
}

} // verus!
