//! The conversation aggregator: groups parsed message records by
//! conversation id, skips records with an absent timestamp or an absent or
//! `"null"` sender label, and sorts each conversation's records by timestamp
//! with a stable order.

use vstd::prelude::*;
use crate::records::{ConversationOutput, ExportError, FullMessage};
use crate::text::str_eq;

verus! {

/// Timestamp order: an absent timestamp sorts before every present one.
pub open spec fn ts_le(a: Option<i64>, b: Option<i64>) -> bool {
    match (a, b) {
        (Option::None, _) => true,
        (Option::Some(_), Option::None) => false,
        (Option::Some(x), Option::Some(y)) => x <= y,
    }
}

/// A record is kept in its conversation's message list exactly when its
/// timestamp is present and its sender label is present and not `"null"`.
pub open spec fn keeps(m: FullMessage) -> bool {
    &&& m.timestamp is Some
    &&& match m.message_name {
        Option::Some(n) => n@ != "null"@,
        Option::None => false,
    }
}

/// The distinct conversation ids of a record sequence, in order of first
/// sight.
pub open spec fn seen_ids(s: Seq<FullMessage>) -> Seq<Seq<char>>
    decreases s.len(),
{
    if s.len() == 0 {
        Seq::empty()
    } else {
        let p = seen_ids(s.drop_last());
        if p.contains(s.last().conversation_id@) {
            p
        } else {
            p.push(s.last().conversation_id@)
        }
    }
}

/// Whether some record of the sequence belongs to the given conversation.
pub open spec fn has_id(s: Seq<FullMessage>, id: Seq<char>) -> bool {
    exists|i: int| 0 <= i < s.len() && s[i].conversation_id@ == id
}

/// The first record of the sequence with the given conversation id.
pub open spec fn first_with_id(s: Seq<FullMessage>, id: Seq<char>) -> FullMessage
    decreases s.len(),
{
    if s.len() == 0 {
        arbitrary()
    } else if has_id(s.drop_last(), id) {
        first_with_id(s.drop_last(), id)
    } else {
        s.last()
    }
}

/// The kept records of one conversation, in input order.
pub open spec fn kept_with_id(s: Seq<FullMessage>, id: Seq<char>) -> Seq<FullMessage>
    decreases s.len(),
{
    if s.len() == 0 {
        Seq::empty()
    } else {
        let p = kept_with_id(s.drop_last(), id);
        if s.last().conversation_id@ == id && keeps(s.last()) {
            p.push(s.last())
        } else {
            p
        }
    }
}

/// Inserts a record into a sequence directly after every record whose
/// timestamp is not greater: the insertion step of a stable sort.
pub open spec fn insert_by_ts(s: Seq<FullMessage>, m: FullMessage) -> Seq<FullMessage>
    decreases s.len(),
{
    if s.len() == 0 {
        seq![m]
    } else if ts_le(s.last().timestamp, m.timestamp) {
        s.push(m)
    } else {
        insert_by_ts(s.drop_last(), m).push(s.last())
    }
}

/// Stable sort by timestamp: records are inserted left to right, each after
/// all earlier records with an equal or smaller timestamp.
pub open spec fn sort_by_ts(s: Seq<FullMessage>) -> Seq<FullMessage>
    decreases s.len(),
{
    if s.len() == 0 {
        Seq::empty()
    } else {
        insert_by_ts(sort_by_ts(s.drop_last()), s.last())
    }
}

/// Non-decreasing timestamp order.
pub open spec fn sorted_by_ts(s: Seq<FullMessage>) -> bool {
    forall|i: int, j: int| 0 <= i < j < s.len() ==> ts_le(s[i].timestamp, s[j].timestamp)
}

/// The subsequence of records carrying one fixed timestamp, in order.
pub open spec fn with_ts(s: Seq<FullMessage>, t: Option<i64>) -> Seq<FullMessage>
    decreases s.len(),
{
    if s.len() == 0 {
        Seq::empty()
    } else {
        let p = with_ts(s.drop_last(), t);
        if s.last().timestamp == t {
            p.push(s.last())
        } else {
            p
        }
    }
}

/// Every first-seen record brings a conversation type tag.
pub open spec fn no_missing_type(s: Seq<FullMessage>) -> bool {
    forall|id: Seq<char>| #[trigger] seen_ids(s).contains(id) ==> first_with_id(s, id).msg_type is Some
}

/// What one finished aggregate says about the records it came from: header
/// fields frozen from the conversation's first record, and the message list
/// equal to the stable timestamp sort of the conversation's kept records.
pub open spec fn agg_ok(c: ConversationOutput, s: Seq<FullMessage>, id: Seq<char>) -> bool {
    &&& c.conversation_id@ == id
    &&& c.profile_name == first_with_id(s, id).profile_name
    &&& first_with_id(s, id).msg_type == Option::Some(c.conv_type)
    &&& c.e164 == first_with_id(s, id).e164
    &&& c.messages@ == sort_by_ts(kept_with_id(s, id))
    &&& sorted_by_ts(c.messages@)
}

proof fn lemma_ts_le_total(a: Option<i64>, b: Option<i64>)
    ensures
        ts_le(a, b) || ts_le(b, a),
{
}

/// The ids a sequence has seen are exactly the ids its records carry.
pub proof fn lemma_seen_has(s: Seq<FullMessage>, id: Seq<char>)
    ensures
        seen_ids(s).contains(id) <==> has_id(s, id),
    decreases s.len(),
{
    if s.len() > 0 {
        let d = s.drop_last();
        lemma_seen_has(d, id);
        let p = seen_ids(d);
        if s.last().conversation_id@ == id {
            assert(has_id(s, id)) by {
                assert(s[s.len() - 1].conversation_id@ == id);
            }
            if p.contains(id) {
                assert(seen_ids(s) == p);
            } else {
                assert(seen_ids(s) == p.push(id));
                assert(seen_ids(s)[p.len() as int] == id);
            }
            assert(seen_ids(s).contains(id));
        } else {
            if has_id(s, id) {
                let i = choose|i: int| 0 <= i < s.len() && s[i].conversation_id@ == id;
                assert(i < s.len() - 1);
                assert(d[i] == s[i]);
                assert(has_id(d, id));
            }
            if has_id(d, id) {
                let i = choose|i: int| 0 <= i < d.len() && d[i].conversation_id@ == id;
                assert(s[i] == d[i]);
                assert(has_id(s, id));
            }
            if seen_ids(s).contains(id) {
                let k = choose|k: int|
                    0 <= k < seen_ids(s).len() && seen_ids(s)[k] == id;
                if k < p.len() {
                    assert(p[k] == id);
                    assert(p.contains(id));
                } else {
                    assert(seen_ids(s)[k] == s.last().conversation_id@);
                }
            }
            if p.contains(id) {
                let k = choose|k: int| 0 <= k < p.len() && p[k] == id;
                assert(seen_ids(s)[k] == id);
                assert(seen_ids(s).contains(id));
            }
        }
    }
}

/// No conversation id occurs twice in the seen-id list.
pub proof fn lemma_seen_distinct(s: Seq<FullMessage>)
    ensures
        forall|i: int, j: int|
            0 <= i < j < seen_ids(s).len() ==> seen_ids(s)[i] != seen_ids(s)[j],
    decreases s.len(),
{
    if s.len() > 0 {
        lemma_seen_distinct(s.drop_last());
        let p = seen_ids(s.drop_last());
        if !p.contains(s.last().conversation_id@) {
            assert forall|i: int, j: int|
                0 <= i < j < seen_ids(s).len() implies seen_ids(s)[i] != seen_ids(s)[j] by {
                assert(seen_ids(s) == p.push(s.last().conversation_id@));
                if j < p.len() {
                    assert(seen_ids(s)[i] == p[i] && seen_ids(s)[j] == p[j]);
                } else {
                    assert(seen_ids(s)[i] == p[i]);
                    assert(p[i] != s.last().conversation_id@);
                }
            }
        }
    }
}

/// A conversation no record belongs to keeps nothing.
proof fn lemma_kept_empty(s: Seq<FullMessage>, id: Seq<char>)
    requires
        !has_id(s, id),
    ensures
        kept_with_id(s, id) == Seq::<FullMessage>::empty(),
    decreases s.len(),
{
    if s.len() > 0 {
        assert forall|i: int| 0 <= i < s.drop_last().len() implies s.drop_last()[
            i
        ].conversation_id@ != id by {
            assert(s[i] == s.drop_last()[i]);
        }
        lemma_kept_empty(s.drop_last(), id);
    }
}

/// The first record of a conversation is fixed by any prefix that already
/// contains the conversation.
proof fn lemma_first_prefix(s: Seq<FullMessage>, id: Seq<char>, n: int)
    requires
        0 <= n <= s.len(),
        has_id(s.subrange(0, n), id),
    ensures
        first_with_id(s, id) == first_with_id(s.subrange(0, n), id),
    decreases s.len(),
{
    if n == s.len() {
        assert(s.subrange(0, n) =~= s);
    } else {
        let p = s.subrange(0, n);
        let i = choose|i: int| 0 <= i < p.len() && p[i].conversation_id@ == id;
        assert(s.drop_last()[i] == p[i]);
        assert(has_id(s.drop_last(), id));
        assert(s.drop_last().subrange(0, n) =~= p);
        lemma_first_prefix(s.drop_last(), id, n);
    }
}

/// Where the insertion point lands: a record inserted at position `j` splits
/// the sequence there when everything from `j` on is strictly later.
proof fn lemma_insert_at(s: Seq<FullMessage>, m: FullMessage, j: int)
    requires
        0 <= j <= s.len(),
        forall|k: int| j <= k < s.len() ==> !ts_le(#[trigger] s[k].timestamp, m.timestamp),
        j > 0 ==> ts_le(s[j - 1].timestamp, m.timestamp),
    ensures
        insert_by_ts(s, m) == s.subrange(0, j) + seq![m] + s.subrange(j, s.len() as int),
    decreases s.len(),
{
    if s.len() == 0 {
        assert(insert_by_ts(s, m) =~= s.subrange(0, j) + seq![m] + s.subrange(j, s.len() as int));
    } else if j == s.len() {
        assert(ts_le(s.last().timestamp, m.timestamp));
        assert(insert_by_ts(s, m) =~= s.subrange(0, j) + seq![m] + s.subrange(j, s.len() as int));
    } else {
        assert(!ts_le(s.last().timestamp, m.timestamp));
        let d = s.drop_last();
        assert forall|k: int| j <= k < d.len() implies !ts_le(
            #[trigger] d[k].timestamp,
            m.timestamp,
        ) by {
            assert(d[k] == s[k]);
        }
        if j > 0 {
            assert(d[j - 1] == s[j - 1]);
        }
        lemma_insert_at(d, m, j);
        assert(insert_by_ts(s, m) =~= s.subrange(0, j) + seq![m] + s.subrange(j, s.len() as int));
    }
}

/// Everything below a bound stays below it after an insertion below it.
proof fn lemma_insert_bound(s: Seq<FullMessage>, m: FullMessage, b: Option<i64>)
    requires
        forall|i: int| 0 <= i < s.len() ==> ts_le(#[trigger] s[i].timestamp, b),
        ts_le(m.timestamp, b),
    ensures
        forall|i: int|
            0 <= i < insert_by_ts(s, m).len() ==> ts_le(
                #[trigger] insert_by_ts(s, m)[i].timestamp,
                b,
            ),
    decreases s.len(),
{
    if s.len() > 0 && !ts_le(s.last().timestamp, m.timestamp) {
        assert forall|i: int| 0 <= i < s.drop_last().len() implies ts_le(
            #[trigger] s.drop_last()[i].timestamp,
            b,
        ) by {
            assert(s.drop_last()[i] == s[i]);
        }
        lemma_insert_bound(s.drop_last(), m, b);
    }
}

/// Inserting into a sorted sequence keeps it sorted.
proof fn lemma_insert_sorted(s: Seq<FullMessage>, m: FullMessage)
    requires
        sorted_by_ts(s),
    ensures
        sorted_by_ts(insert_by_ts(s, m)),
        insert_by_ts(s, m).len() == s.len() + 1,
    decreases s.len(),
{
    if s.len() == 0 {
    } else if ts_le(s.last().timestamp, m.timestamp) {
        let r = s.push(m);
        assert forall|i: int, j: int| 0 <= i < j < r.len() implies ts_le(
            r[i].timestamp,
            r[j].timestamp,
        ) by {
            if j == r.len() - 1 {
                assert(ts_le(s[i].timestamp, s.last().timestamp));
            }
        }
    } else {
        let d = s.drop_last();
        assert forall|i: int, j: int| 0 <= i < j < d.len() implies ts_le(
            d[i].timestamp,
            d[j].timestamp,
        ) by {
            assert(d[i] == s[i] && d[j] == s[j]);
        }
        lemma_insert_sorted(d, m);
        lemma_ts_le_total(s.last().timestamp, m.timestamp);
        assert forall|i: int| 0 <= i < d.len() implies ts_le(
            #[trigger] d[i].timestamp,
            s.last().timestamp,
        ) by {
            assert(d[i] == s[i]);
        }
        lemma_insert_bound(d, m, s.last().timestamp);
        let r = insert_by_ts(d, m).push(s.last());
        assert(sorted_by_ts(insert_by_ts(d, m)));
        assert forall|i: int, j: int| 0 <= i < j < r.len() implies ts_le(
            r[i].timestamp,
            r[j].timestamp,
        ) by {
            if j < r.len() - 1 {
                assert(ts_le(insert_by_ts(d, m)[i].timestamp, insert_by_ts(d, m)[j].timestamp));
            } else {
                assert(ts_le(insert_by_ts(d, m)[i].timestamp, s.last().timestamp));
            }
        }
    }
}

/// The stable sort of any record sequence is sorted by timestamp.
pub proof fn lemma_sort_by_ts_sorted(s: Seq<FullMessage>)
    ensures
        sorted_by_ts(sort_by_ts(s)),
        sort_by_ts(s).len() == s.len(),
    decreases s.len(),
{
    if s.len() > 0 {
        lemma_sort_by_ts_sorted(s.drop_last());
        lemma_insert_sorted(sort_by_ts(s.drop_last()), s.last());
    }
}

/// Insertion leaves the records of every fixed timestamp in their old order,
/// with the new record appended to its own timestamp's run.
proof fn lemma_insert_with_ts(s: Seq<FullMessage>, m: FullMessage, t: Option<i64>)
    ensures
        with_ts(insert_by_ts(s, m), t) == if m.timestamp == t {
            with_ts(s, t).push(m)
        } else {
            with_ts(s, t)
        },
    decreases s.len(),
{
    if s.len() == 0 {
        assert(seq![m].drop_last() =~= Seq::<FullMessage>::empty());
        assert(seq![m].last() == m);
        assert(with_ts(Seq::<FullMessage>::empty(), t) == Seq::<FullMessage>::empty());
        assert(with_ts(s, t) == Seq::<FullMessage>::empty());
        assert(with_ts(seq![m], t) == if m.timestamp == t {
            with_ts(s, t).push(m)
        } else {
            with_ts(s, t)
        });
    } else if ts_le(s.last().timestamp, m.timestamp) {
        assert(insert_by_ts(s, m) == s.push(m));
        assert(s.push(m).drop_last() =~= s);
        assert(s.push(m).last() == m);
        assert(with_ts(s.push(m), t) == if m.timestamp == t {
            with_ts(s, t).push(m)
        } else {
            with_ts(s, t)
        });
    } else {
        lemma_insert_with_ts(s.drop_last(), m, t);
        let r = insert_by_ts(s.drop_last(), m).push(s.last());
        assert(insert_by_ts(s, m) == r);
        assert(r.drop_last() =~= insert_by_ts(s.drop_last(), m));
        assert(r.last() == s.last());
        if m.timestamp == t && s.last().timestamp == t {
            assert(ts_le(s.last().timestamp, m.timestamp));
        }
        assert(with_ts(r, t) == if s.last().timestamp == t {
            with_ts(insert_by_ts(s.drop_last(), m), t).push(s.last())
        } else {
            with_ts(insert_by_ts(s.drop_last(), m), t)
        });
        assert(with_ts(s, t) == if s.last().timestamp == t {
            with_ts(s.drop_last(), t).push(s.last())
        } else {
            with_ts(s.drop_last(), t)
        });
        assert(with_ts(insert_by_ts(s, m), t) == if m.timestamp == t {
            with_ts(s, t).push(m)
        } else {
            with_ts(s, t)
        });
    }
}

/// Stability: sorting keeps the relative order of records that share a
/// timestamp — for every timestamp, the run of records carrying it comes out
/// of the sort exactly as it went in.
pub proof fn lemma_sort_by_ts_stable(s: Seq<FullMessage>, t: Option<i64>)
    ensures
        with_ts(sort_by_ts(s), t) == with_ts(s, t),
    decreases s.len(),
{
    if s.len() > 0 {
        lemma_sort_by_ts_stable(s.drop_last(), t);
        lemma_insert_with_ts(sort_by_ts(s.drop_last()), s.last(), t);
    }
}

/// Every record a conversation keeps passes the keep test.
proof fn lemma_kept_all(s: Seq<FullMessage>, id: Seq<char>)
    ensures
        forall|k: int|
            0 <= k < kept_with_id(s, id).len() ==> keeps(#[trigger] kept_with_id(s, id)[k]),
    decreases s.len(),
{
    if s.len() > 0 {
        lemma_kept_all(s.drop_last(), id);
        let p = kept_with_id(s.drop_last(), id);
        if s.last().conversation_id@ == id && keeps(s.last()) {
            assert forall|k: int| 0 <= k < kept_with_id(s, id).len() implies keeps(
                #[trigger] kept_with_id(s, id)[k],
            ) by {
                if k < p.len() {
                    assert(kept_with_id(s, id)[k] == p[k]);
                } else {
                    assert(kept_with_id(s, id)[k] == s.last());
                }
            }
        }
    }
}

/// Insertion keeps a record-wise property.
proof fn lemma_insert_keeps(s: Seq<FullMessage>, m: FullMessage)
    requires
        forall|k: int| 0 <= k < s.len() ==> keeps(#[trigger] s[k]),
        keeps(m),
    ensures
        forall|k: int|
            0 <= k < insert_by_ts(s, m).len() ==> keeps(#[trigger] insert_by_ts(s, m)[k]),
    decreases s.len(),
{
    if s.len() == 0 {
        assert forall|k: int| 0 <= k < insert_by_ts(s, m).len() implies keeps(
            #[trigger] insert_by_ts(s, m)[k],
        ) by {
            assert(insert_by_ts(s, m)[k] == m);
        }
    } else if ts_le(s.last().timestamp, m.timestamp) {
        assert forall|k: int| 0 <= k < insert_by_ts(s, m).len() implies keeps(
            #[trigger] insert_by_ts(s, m)[k],
        ) by {
            if k < s.len() {
                assert(insert_by_ts(s, m)[k] == s[k]);
            } else {
                assert(insert_by_ts(s, m)[k] == m);
            }
        }
    } else {
        assert forall|k: int| 0 <= k < s.drop_last().len() implies keeps(
            #[trigger] s.drop_last()[k],
        ) by {
            assert(s.drop_last()[k] == s[k]);
        }
        lemma_insert_keeps(s.drop_last(), m);
        let r = insert_by_ts(s.drop_last(), m);
        assert(keeps(s.last())) by {
            assert(s[s.len() - 1] == s.last());
        }
        assert forall|k: int| 0 <= k < insert_by_ts(s, m).len() implies keeps(
            #[trigger] insert_by_ts(s, m)[k],
        ) by {
            assert(insert_by_ts(s, m) == r.push(s.last()));
            if k < r.len() {
                assert(insert_by_ts(s, m)[k] == r[k]);
            } else {
                assert(insert_by_ts(s, m)[k] == s.last());
            }
        }
    }
}

/// Sorting keeps a record-wise property.
proof fn lemma_sort_keeps(s: Seq<FullMessage>)
    requires
        forall|k: int| 0 <= k < s.len() ==> keeps(#[trigger] s[k]),
    ensures
        forall|k: int| 0 <= k < sort_by_ts(s).len() ==> keeps(#[trigger] sort_by_ts(s)[k]),
    decreases s.len(),
{
    if s.len() > 0 {
        assert forall|k: int| 0 <= k < s.drop_last().len() implies keeps(
            #[trigger] s.drop_last()[k],
        ) by {
            assert(s.drop_last()[k] == s[k]);
        }
        lemma_sort_keeps(s.drop_last());
        lemma_insert_keeps(sort_by_ts(s.drop_last()), s.last());
    }
}

/// Every record in a finished aggregate's message list is a kept one: its
/// timestamp is present and its sender label is present and not `"null"`.
/// A record with an absent timestamp, or an absent or `"null"` sender label,
/// appears in no aggregate.
pub proof fn lemma_aggregate_keeps_only(s: Seq<FullMessage>, id: Seq<char>)
    ensures
        forall|k: int|
            0 <= k < sort_by_ts(kept_with_id(s, id)).len() ==> keeps(
                #[trigger] sort_by_ts(kept_with_id(s, id))[k],
            ),
{
    lemma_kept_all(s, id);
    lemma_sort_keeps(kept_with_id(s, id));
}

/// Timestamp comparison, with an absent timestamp first.
fn ts_le_exec(a: &FullMessage, b: &FullMessage) -> (res: bool)
    ensures
        res == ts_le(a.timestamp, b.timestamp),
{
    match (&a.timestamp, &b.timestamp) {
        (Option::None, _) => true,
        (Option::Some(_), Option::None) => false,
        (Option::Some(x), Option::Some(y)) => *x <= *y,
    }
}

/// Whether the aggregator keeps this record.
fn is_kept(m: &FullMessage) -> (res: bool)
    ensures
        res == keeps(*m),
{
    match (&m.timestamp, &m.message_name) {
        (Option::Some(_), Option::Some(n)) => !str_eq(n.as_str(), "null"),
        _ => false,
    }
}

/// Stable insertion sort of one conversation's records by timestamp.
fn sort_messages(msgs: Vec<FullMessage>) -> (r: Vec<FullMessage>)
    ensures
        r@ == sort_by_ts(msgs@),
        sorted_by_ts(r@),
{
    let ghost orig = msgs@;
    let mut v = msgs;
    let n: usize = v.len();
    proof {
        assert(orig.len() == n);
    }
    let mut taken: usize = 0;
    let mut r: Vec<FullMessage> = Vec::new();
    while v.len() > 0
        invariant
            taken + v.len() == orig.len(),
            orig.len() <= usize::MAX,
            v@ == orig.subrange(taken as int, orig.len() as int),
            r@ == sort_by_ts(orig.subrange(0, taken as int)),
            sorted_by_ts(r@),
        decreases v.len(),
    {
        let m = v.remove(0);
        proof {
            assert(orig.subrange(taken as int, orig.len() as int)[0] == orig[taken as int]);
            assert(v@ =~= orig.subrange(taken as int + 1, orig.len() as int));
        }
        let mut j: usize = r.len();
        while j > 0 && !ts_le_exec(&r[j - 1], &m)
            invariant
                j <= r.len(),
                forall|k: int|
                    j <= k < r@.len() ==> !ts_le(#[trigger] r@[k].timestamp, m.timestamp),
            decreases j,
        {
            j = j - 1;
        }
        proof {
            lemma_insert_at(r@, m, j as int);
            lemma_insert_sorted(r@, m);
            assert(orig.subrange(0, taken as int + 1).drop_last() =~= orig.subrange(
                0,
                taken as int,
            ));
            assert(orig.subrange(0, taken as int + 1).last() == m);
        }
        r.insert(j, m);
        proof {
            assert(r@ =~= sort_by_ts(orig.subrange(0, taken as int)).subrange(0, j as int) + seq![m]
                + sort_by_ts(orig.subrange(0, taken as int)).subrange(
                j as int,
                sort_by_ts(orig.subrange(0, taken as int)).len() as int,
            ));
        }
        taken = taken + 1;
    }
    proof {
        assert(orig.subrange(0, orig.len() as int) =~= orig);
    }
    r
}

/// Finds the group already opened for a conversation id, if any.
fn find_group(groups: &Vec<ConversationOutput>, id: &String) -> (res: Option<usize>)
    ensures
        match res {
            Option::Some(k) => k < groups.len() && groups@[k as int].conversation_id@ == id@,
            Option::None => forall|j: int|
                0 <= j < groups.len() ==> groups@[j].conversation_id@ != id@,
        },
{
    let mut k: usize = 0;
    while k < groups.len()
        invariant
            k <= groups.len(),
            forall|j: int| 0 <= j < k ==> groups@[j].conversation_id@ != id@,
        decreases groups.len() - k,
    {
        if str_eq(groups[k].conversation_id.as_str(), id.as_str()) {
            return Option::Some(k);
        }
        k = k + 1;
    }
    Option::None
}

/// Clones an optional string.
fn clone_opt_string(s: &Option<String>) -> (r: Option<String>)
    ensures
        r == *s,
{
    match s {
        Option::Some(x) => Option::Some(x.clone()),
        Option::None => Option::None,
    }
}

/// Groups parsed message records into one aggregate per conversation.
///
/// Groups are opened lazily on first sight of a conversation id, with the
/// header fields frozen from that first record. A record with an absent
/// timestamp, or an absent or `"null"` sender label, is skipped; every other
/// record joins its conversation's message list, which is finally sorted by
/// timestamp with a stable order. Fails exactly when some conversation's
/// first record carries no type tag.
#[verifier::loop_isolation(false)]
pub fn extract_raw_messages_to_formatted_messages(msgs: Vec<FullMessage>) -> (res: Result<
    Vec<ConversationOutput>,
    ExportError,
>)
    ensures
        match res {
            Result::Ok(out) => {
                &&& no_missing_type(msgs@)
                &&& out@.len() == seen_ids(msgs@).len()
                &&& forall|k: int|
                    0 <= k < out@.len() ==> agg_ok(#[trigger] out@[k], msgs@, seen_ids(msgs@)[k])
            },
            Result::Err(e) => e is MissingConversationType && !no_missing_type(msgs@),
        },
{
    let ghost orig = msgs@;
    let mut input = msgs;
    let n: usize = input.len();
    proof {
        assert(orig.len() == n);
    }
    let mut taken: usize = 0;
    let mut groups: Vec<ConversationOutput> = Vec::new();
    while input.len() > 0
        invariant
            taken + input.len() == orig.len(),
            orig.len() <= usize::MAX,
            input@ == orig.subrange(taken as int, orig.len() as int),
            groups@.len() == seen_ids(orig.subrange(0, taken as int)).len(),
            no_missing_type(orig.subrange(0, taken as int)),
            forall|k: int|
                0 <= k < groups@.len() ==> {
                    let p = orig.subrange(0, taken as int);
                    let id = seen_ids(p)[k];
                    let f = first_with_id(p, id);
                    &&& (#[trigger] groups@[k]).conversation_id@ == id
                    &&& groups@[k].profile_name == f.profile_name
                    &&& f.msg_type == Option::Some(groups@[k].conv_type)
                    &&& groups@[k].e164 == f.e164
                    &&& groups@[k].messages@ == kept_with_id(p, id)
                },
        decreases input.len(),
    {
        let ghost p = orig.subrange(0, taken as int);
        let m = input.remove(0);
        proof {
            assert(orig.subrange(taken as int, orig.len() as int)[0] == orig[taken as int]);
            assert(input@ =~= orig.subrange(taken as int + 1, orig.len() as int));
            assert(orig.subrange(0, taken as int + 1).drop_last() =~= p);
            assert(orig.subrange(0, taken as int + 1).last() == m);
            lemma_seen_distinct(orig.subrange(0, taken as int));
        }
        let ghost pn = orig.subrange(0, taken as int + 1);
        let id = m.conversation_id.clone();
        match find_group(&groups, &id) {
            Option::Some(k) => {
                proof {
                    assert(seen_ids(p).contains(m.conversation_id@)) by {
                        assert(seen_ids(p)[k as int] == id@);
                    }
                    assert(seen_ids(pn) =~= seen_ids(p));
                    assert forall|k2: int| 0 <= k2 < seen_ids(p).len() implies first_with_id(
                        pn,
                        seen_ids(p)[k2],
                    ) == first_with_id(p, seen_ids(p)[k2]) && seen_ids(pn).contains(
                        seen_ids(p)[k2],
                    ) by {
                        lemma_seen_has(p, seen_ids(p)[k2]);
                        assert(has_id(pn.drop_last(), seen_ids(p)[k2]));
                    }
                    assert(no_missing_type(pn)) by {
                        assert forall|id2: Seq<char>| seen_ids(pn).contains(id2) implies
                            first_with_id(pn, id2).msg_type is Some by {
                            assert(seen_ids(p).contains(id2));
                        }
                    }
                }
                let mut g = groups.remove(k);
                let kept = is_kept(&m);
                proof {
                    assert(kept_with_id(pn, seen_ids(p)[k as int]) == if keeps(m) {
                        kept_with_id(p, seen_ids(p)[k as int]).push(m)
                    } else {
                        kept_with_id(p, seen_ids(p)[k as int])
                    });
                    assert forall|k2: int|
                        0 <= k2 < seen_ids(p).len() && k2 != k implies kept_with_id(
                        pn,
                        seen_ids(p)[k2],
                    ) == kept_with_id(p, seen_ids(p)[k2]) by {
                        assert(seen_ids(p)[k as int] == m.conversation_id@);
                    }
                }
                if kept {
                    g.messages.push(m);
                }
                groups.insert(k, g);
                proof {
                    assert(groups@ =~= groups@);
                }
            },
            Option::None => {
                proof {
                    assert(!seen_ids(p).contains(m.conversation_id@)) by {
                        if seen_ids(p).contains(m.conversation_id@) {
                            let k2 = choose|k2: int|
                                0 <= k2 < seen_ids(p).len() && seen_ids(p)[k2]
                                    == m.conversation_id@;
                            assert(groups@[k2].conversation_id@ == id@);
                        }
                    }
                    lemma_seen_has(p, m.conversation_id@);
                    assert(seen_ids(pn) =~= seen_ids(p).push(m.conversation_id@));
                    assert(first_with_id(pn, m.conversation_id@) == m);
                    lemma_kept_empty(p, m.conversation_id@);
                    assert(kept_with_id(pn, m.conversation_id@) == if keeps(m) {
                        Seq::<FullMessage>::empty().push(m)
                    } else {
                        Seq::<FullMessage>::empty()
                    });
                    assert forall|k2: int| 0 <= k2 < seen_ids(p).len() implies first_with_id(
                        pn,
                        seen_ids(p)[k2],
                    ) == first_with_id(p, seen_ids(p)[k2]) && kept_with_id(pn, seen_ids(p)[k2])
                        == kept_with_id(p, seen_ids(p)[k2]) by {
                        lemma_seen_has(p, seen_ids(p)[k2]);
                        assert(has_id(pn.drop_last(), seen_ids(p)[k2]));
                    }
                }
                let conv_type = match &m.msg_type {
                    Option::Some(t) => t.clone(),
                    Option::None => {
                        proof {
                            lemma_first_prefix(orig, m.conversation_id@, taken as int + 1);
                            lemma_seen_has(orig, m.conversation_id@);
                            assert(orig[taken as int].conversation_id@ == m.conversation_id@);
                            assert(!no_missing_type(orig)) by {
                                assert(seen_ids(orig).contains(m.conversation_id@));
                                assert(first_with_id(orig, m.conversation_id@).msg_type
                                    is None);
                            }
                        }
                        return Result::Err(ExportError::MissingConversationType);
                    },
                };
                let profile_name = clone_opt_string(&m.profile_name);
                let e164 = m.e164;
                let kept = is_kept(&m);
                let mut messages: Vec<FullMessage> = Vec::new();
                proof {
                    assert(Option::Some(conv_type) == m.msg_type);
                }
                if kept {
                    messages.push(m);
                }
                let g = ConversationOutput {
                    profile_name,
                    conversation_id: id,
                    conv_type,
                    e164,
                    messages,
                };
                groups.push(g);
                proof {
                    assert(no_missing_type(pn)) by {
                        assert forall|id2: Seq<char>| seen_ids(pn).contains(id2) implies
                            first_with_id(pn, id2).msg_type is Some by {
                            if id2 != pn.last().conversation_id@ {
                                assert(seen_ids(p).contains(id2));
                            }
                        }
                    }
                }
            },
        }
        taken = taken + 1;
    }
    proof {
        assert(orig.subrange(0, taken as int) =~= orig);
        assert(orig.subrange(0, orig.len() as int) =~= orig);
    }
    let ghost n_groups = groups@.len();
    let ghost pre = groups@;
    let mut g = groups;
    let mut out: Vec<ConversationOutput> = Vec::new();
    proof {
        assert(pre.subrange(0, n_groups as int) =~= pre);
    }
    while g.len() > 0
        invariant
            out@.len() + g@.len() == n_groups,
            n_groups == seen_ids(orig).len(),
            g@ == pre.subrange(out@.len() as int, n_groups as int),
            forall|k: int|
                0 <= k < pre.len() ==> {
                    let id = seen_ids(orig)[k];
                    let f = first_with_id(orig, id);
                    &&& (#[trigger] pre[k]).conversation_id@ == id
                    &&& pre[k].profile_name == f.profile_name
                    &&& f.msg_type == Option::Some(pre[k].conv_type)
                    &&& pre[k].e164 == f.e164
                    &&& pre[k].messages@ == kept_with_id(orig, id)
                },
            forall|k: int|
                0 <= k < out@.len() ==> agg_ok(#[trigger] out@[k], orig, seen_ids(orig)[k]),
        decreases g.len(),
    {
        let ghost done = out@.len();
        let ghost gpre = g@;
        let c = g.remove(0);
        proof {
            assert(gpre.len() > 0);
            assert(done < n_groups);
            assert(gpre[0] == pre.subrange(done as int, n_groups as int)[0]);
            assert(pre.subrange(done as int, n_groups as int)[0] == pre[done as int]);
            assert(c == pre[done as int]);
            assert(g@ =~= pre.subrange(done as int + 1, n_groups as int));
        }
        let ConversationOutput { profile_name, conversation_id, conv_type, e164, messages } = c;
        let sorted = sort_messages(messages);
        let c2 = ConversationOutput { profile_name, conversation_id, conv_type, e164, messages:
            sorted };
        out.push(c2);
    }
    proof {
        assert(no_missing_type(orig));
    }
    Result::Ok(out)
}

} // verus!
