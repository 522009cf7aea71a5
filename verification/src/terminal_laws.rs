//! Laws of the session registry, stated over the abstract registry view
//! and the transition functions of [`crate::terminal`] and proved once
//! and for all.  Each executable method of the manager ties its result
//! to those transitions in its own contract, so these laws carry over
//! to any sequence of calls.

use vstd::prelude::*;

use crate::strutil::dec_chars;
use crate::terminal::LookupStatus;
use crate::terminal::ReadEventModel;
use crate::terminal::RegistryView;
use crate::terminal::SessionEventModel;
use crate::terminal::lookup_status;
use crate::terminal::reg_close;
use crate::terminal::reg_reader_step;
use crate::terminal::reg_register;
use crate::terminal::reg_remove;
use crate::terminal::session_id_chars;
use crate::terminal::view_wf;

verus! {

/// One operation of the command surface or of a reader loop, as it acts
/// on the registry.  Input forwarding and resizing never change the
/// registry, so they carry no payload here.
pub enum RegistryOp {
    Register,
    Write(u64),
    Resize(u64),
    Close(u64),
    Reader(u64, ReadEventModel),
}

/// The registry after one operation.
pub open spec fn apply_op(v: RegistryView, op: RegistryOp) -> RegistryView {
    match op {
        RegistryOp::Register => reg_register(v).0,
        RegistryOp::Write(_) => v,
        RegistryOp::Resize(_) => v,
        RegistryOp::Close(id) => reg_close(v, id),
        RegistryOp::Reader(id, ev) => reg_reader_step(v, id, ev).0,
    }
}

/// The registry after a sequence of operations.
pub open spec fn apply_ops(v: RegistryView, ops: Seq<RegistryOp>) -> RegistryView
    decreases ops.len(),
{
    if ops.len() == 0 {
        v
    } else {
        apply_ops(apply_op(v, ops[0]), ops.drop_first())
    }
}

/// How many of the operations register a session.
pub open spec fn count_registers(ops: Seq<RegistryOp>) -> nat
    decreases ops.len(),
{
    if ops.len() == 0 {
        0nat
    } else {
        (if ops[0] is Register {
            1nat
        } else {
            0nat
        }) + count_registers(ops.drop_first())
    }
}

/// Whether one operation completes a removal: only a finishing reader
/// step of a session that is still present removes an entry.
pub open spec fn removes_entry(v: RegistryView, op: RegistryOp) -> bool {
    match op {
        RegistryOp::Reader(id, ev) => reg_reader_step(v, id, ev).2 && v.sessions.dom().contains(
            id,
        ),
        _ => false,
    }
}

/// How many removals a sequence of operations completes, along its own
/// trajectory.
pub open spec fn count_removals(v: RegistryView, ops: Seq<RegistryOp>) -> nat
    decreases ops.len(),
{
    if ops.len() == 0 {
        0nat
    } else {
        (if removes_entry(v, ops[0]) {
            1nat
        } else {
            0nat
        }) + count_removals(apply_op(v, ops[0]), ops.drop_first())
    }
}

/// One operation preserves well-formedness, and bumps the id counter
/// exactly when it registers a session.
pub proof fn lemma_op_preserves_wf(v: RegistryView, op: RegistryOp)
    requires
        view_wf(v),
        op is Register ==> v.next_id < u64::MAX,
    ensures
        view_wf(apply_op(v, op)),
        apply_op(v, op).next_id == v.next_id + (if op is Register {
            1int
        } else {
            0int
        }),
{
    match op {
        RegistryOp::Register => {},
        RegistryOp::Write(_) => {},
        RegistryOp::Resize(_) => {},
        RegistryOp::Close(id) => {},
        RegistryOp::Reader(id, ev) => {},
    }
}

/// Every operation preserves well-formedness of the registry, and the
/// id counter advances by exactly the number of registrations.
pub proof fn lemma_ops_preserve_wf(v: RegistryView, ops: Seq<RegistryOp>)
    requires
        view_wf(v),
        v.next_id + count_registers(ops) <= u64::MAX,
    ensures
        view_wf(apply_ops(v, ops)),
        apply_ops(v, ops).next_id == v.next_id + count_registers(ops),
    decreases ops.len(),
{
    if ops.len() > 0 {
        let v1 = apply_op(v, ops[0]);
        lemma_op_preserves_wf(v, ops[0]);
        lemma_ops_preserve_wf(v1, ops.drop_first());
    }
}

/// The count of live sessions balances exactly: registrations add one
/// entry each, completed removals take one entry each, and nothing else
/// changes the count.  With `count()` returning the number of live
/// entries, the count always equals the number of sessions whose reader
/// loop has not yet completed removal.
pub proof fn lemma_count_balance(v: RegistryView, ops: Seq<RegistryOp>)
    requires
        view_wf(v),
        v.next_id + count_registers(ops) <= u64::MAX,
    ensures
        apply_ops(v, ops).sessions.dom().len() + count_removals(v, ops) == v.sessions.dom().len()
            + count_registers(ops),
        apply_ops(v, ops).sessions.dom().finite(),
    decreases ops.len(),
{
    if ops.len() > 0 {
        let v1 = apply_op(v, ops[0]);
        lemma_op_preserves_wf(v, ops[0]);
        assert(v1.sessions.dom().len() + (if removes_entry(v, ops[0]) {
            1int
        } else {
            0int
        }) == v.sessions.dom().len() + (if ops[0] is Register {
            1int
        } else {
            0int
        })) by {
            match ops[0] {
                RegistryOp::Register => {
                    assert(!v.sessions.dom().contains(v.next_id));
                },
                RegistryOp::Write(_) => {},
                RegistryOp::Resize(_) => {},
                RegistryOp::Close(id) => {
                    if v.sessions.dom().contains(id) {
                        assert(v.sessions.insert(id, true).dom() =~= v.sessions.dom());
                    }
                },
                RegistryOp::Reader(id, ev) => {
                    let st = reg_reader_step(v, id, ev);
                    if st.2 {
                        assert(st.0.sessions == v.sessions.remove(id));
                    } else {
                        assert(st.0 == v);
                    }
                },
            }
        }
        lemma_count_balance(v1, ops.drop_first());
    }
}

/// The ids issued by the registrations in `ops`, in order.
pub open spec fn issued_ids(v: RegistryView, ops: Seq<RegistryOp>) -> Seq<u64>
    decreases ops.len(),
{
    if ops.len() == 0 {
        Seq::empty()
    } else {
        (if ops[0] is Register {
            seq![reg_register(v).1]
        } else {
            Seq::<u64>::empty()
        }) + issued_ids(apply_op(v, ops[0]), ops.drop_first())
    }
}

/// Every id issued along `ops` is at least the current counter value.
proof fn lemma_issued_ids_lower_bound(v: RegistryView, ops: Seq<RegistryOp>)
    requires
        view_wf(v),
        v.next_id + count_registers(ops) <= u64::MAX,
    ensures
        forall|j: int|
            0 <= j < issued_ids(v, ops).len() ==> #[trigger] issued_ids(v, ops)[j] >= v.next_id,
    decreases ops.len(),
{
    if ops.len() > 0 {
        let v1 = apply_op(v, ops[0]);
        lemma_op_preserves_wf(v, ops[0]);
        lemma_issued_ids_lower_bound(v1, ops.drop_first());
        let whole = issued_ids(v, ops);
        let rest = issued_ids(v1, ops.drop_first());
        assert forall|j: int| 0 <= j < whole.len() implies whole[j] >= v.next_id by {
            if ops[0] is Register {
                assert(whole == seq![reg_register(v).1] + rest);
                if j == 0 {
                    assert(whole[0] == v.next_id);
                } else {
                    assert(whole[j] == rest[j - 1]);
                }
            } else {
                assert(whole =~= rest);
            }
        }
    }
}

/// Session ids are strictly increasing in the order they are issued,
/// and therefore never reused, whatever operations happen in between.
pub proof fn lemma_issued_ids_strictly_increase(v: RegistryView, ops: Seq<RegistryOp>)
    requires
        view_wf(v),
        v.next_id + count_registers(ops) <= u64::MAX,
    ensures
        forall|a: int, b: int|
            0 <= a < b < issued_ids(v, ops).len() ==> #[trigger] issued_ids(v, ops)[a]
                < #[trigger] issued_ids(v, ops)[b],
    decreases ops.len(),
{
    if ops.len() > 0 {
        let v1 = apply_op(v, ops[0]);
        lemma_op_preserves_wf(v, ops[0]);
        lemma_issued_ids_strictly_increase(v1, ops.drop_first());
        lemma_issued_ids_lower_bound(v1, ops.drop_first());
        let whole = issued_ids(v, ops);
        let rest = issued_ids(v1, ops.drop_first());
        assert forall|a: int, b: int| 0 <= a < b < whole.len() implies whole[a] < whole[b] by {
            if ops[0] is Register {
                assert(whole == seq![v.next_id] + rest);
                assert(whole[0] == v.next_id);
                if a == 0 {
                    assert(whole[b] == rest[b - 1]);
                    assert(rest[b - 1] >= v1.next_id);
                } else {
                    assert(whole[a] == rest[a - 1]);
                    assert(whole[b] == rest[b - 1]);
                }
            } else {
                assert(whole == rest) by {
                    assert(Seq::<u64>::empty() + rest =~= rest);
                }
            }
        }
    }
}

/// The textual forms of distinct numeric ids differ: an id string is
/// never reused either.
pub proof fn lemma_session_id_strings_distinct(n1: u64, n2: u64)
    requires
        n1 != n2,
    ensures
        session_id_chars(n1) != session_id_chars(n2),
{
    lemma_dec_chars_injective(n1 as nat, n2 as nat);
    if session_id_chars(n1) == session_id_chars(n2) {
        let p = "terminal-"@;
        assert(dec_chars(n1 as nat) =~= dec_chars(n2 as nat)) by {
            let s1 = session_id_chars(n1);
            let s2 = session_id_chars(n2);
            assert(s1.len() == p.len() + dec_chars(n1 as nat).len());
            assert forall|j: int|
                0 <= j < dec_chars(n1 as nat).len() implies #[trigger] dec_chars(n1 as nat)[j]
                == dec_chars(n2 as nat)[j] by {
                assert(s1[p.len() + j] == dec_chars(n1 as nat)[j]);
                assert(s2[p.len() + j] == dec_chars(n2 as nat)[j]);
            }
        }
    }
}

/// Decimal renderings are never empty.
proof fn lemma_dec_chars_nonempty(n: nat)
    ensures
        dec_chars(n).len() >= 1,
    decreases n,
{
    if n >= 10 {
        lemma_dec_chars_nonempty(n / 10);
    }
}

/// Distinct numbers have distinct decimal renderings.
proof fn lemma_dec_chars_injective(a: nat, b: nat)
    ensures
        dec_chars(a) == dec_chars(b) ==> a == b,
    decreases a + b,
{
    if dec_chars(a) == dec_chars(b) {
        lemma_dec_chars_nonempty(a);
        lemma_dec_chars_nonempty(b);
        if a < 10 && b < 10 {
            assert(dec_chars(a)[0] == dec_chars(b)[0]);
        } else if a < 10 {
            lemma_dec_chars_nonempty(b / 10);
            assert(dec_chars(b).len() >= 2);
        } else if b < 10 {
            lemma_dec_chars_nonempty(a / 10);
            assert(dec_chars(a).len() >= 2);
        } else {
            assert(dec_chars(a).last() == dec_chars(b).last());
            assert(a % 10 == b % 10);
            assert(dec_chars(a).drop_last() =~= dec_chars(a / 10));
            assert(dec_chars(b).drop_last() =~= dec_chars(b / 10));
            lemma_dec_chars_injective(a / 10, b / 10);
            assert(a == 10 * (a / 10) + a % 10);
            assert(b == 10 * (b / 10) + b % 10);
        }
    }
}

/// Ids never issued and sessions already closed are always rejected by
/// input forwarding and resizing: the lookup never classifies them as
/// live.
pub proof fn lemma_rejects_unknown_and_closed(v: RegistryView, id: u64)
    ensures
        !v.sessions.dom().contains(id) ==> lookup_status(v, id) is NotFound,
        v.sessions.dom().contains(id) && v.sessions[id] ==> lookup_status(v, id) is Closed,
        !(lookup_status(v, id) is Live) <==> (!v.sessions.dom().contains(id) || v.sessions[id]),
{
}

/// Requesting shutdown is idempotent: closing a session again, or
/// closing an id that was never issued, leaves the registry exactly
/// where one close left it.
pub proof fn lemma_close_idempotent(v: RegistryView, id: u64)
    ensures
        reg_close(reg_close(v, id), id).sessions =~= reg_close(v, id).sessions,
        reg_close(reg_close(v, id), id).next_id == reg_close(v, id).next_id,
{
}

/// Closing one session neither removes nor closes any other: the other
/// session's entry, its lookup classification, and every event its own
/// reader loop would produce stay exactly the same.
pub proof fn lemma_close_leaves_others_alone(
    v: RegistryView,
    id1: u64,
    id2: u64,
    ev: ReadEventModel,
)
    requires
        id1 != id2,
    ensures
        reg_close(v, id1).sessions.dom().contains(id2) == v.sessions.dom().contains(id2),
        v.sessions.dom().contains(id2) ==> reg_close(v, id1).sessions[id2] == v.sessions[id2],
        lookup_status(reg_close(v, id1), id2) == lookup_status(v, id2),
        reg_reader_step(reg_close(v, id1), id2, ev).1 == reg_reader_step(v, id2, ev).1,
        reg_reader_step(reg_close(v, id1), id2, ev).2 == reg_reader_step(v, id2, ev).2,
{
    let vc = reg_close(v, id1);
    assert(vc.sessions.dom().contains(id2) == v.sessions.dom().contains(id2));
    match ev {
        ReadEventModel::Eof => {},
        ReadEventModel::Data(b) => {},
        ReadEventModel::Failure(m) => {},
    }
}

/// A reader loop that sees end of stream produces exactly one exit
/// event with code 0 and completes exactly one removal: the session is
/// gone afterwards, the count drops by exactly one, and a repetition
/// would remove nothing further.
pub proof fn lemma_eof_exit_and_single_removal(v: RegistryView, id: u64)
    requires
        view_wf(v),
        v.sessions.dom().contains(id),
    ensures
        reg_reader_step(v, id, ReadEventModel::Eof).1 =~= seq![
            SessionEventModel::Exited { session: id, code: 0u32 },
        ],
        reg_reader_step(v, id, ReadEventModel::Eof).2,
        !reg_reader_step(v, id, ReadEventModel::Eof).0.sessions.dom().contains(id),
        reg_reader_step(v, id, ReadEventModel::Eof).0.sessions.dom().len() == v.sessions.dom().len()
            - 1,
        reg_remove(reg_reader_step(v, id, ReadEventModel::Eof).0, id).sessions
            =~= reg_reader_step(v, id, ReadEventModel::Eof).0.sessions,
{
    let v1 = reg_reader_step(v, id, ReadEventModel::Eof).0;
    assert(v1.sessions == v.sessions.remove(id));
    assert(v1.sessions.remove(id) =~= v1.sessions);
}

/// A reader loop that sees a read failure produces exactly one error
/// event and removes its session; afterwards input forwarding and
/// resizing on that id report that the session does not exist.
pub proof fn lemma_read_error_then_not_found(v: RegistryView, id: u64, message: Seq<char>)
    requires
        view_wf(v),
    ensures
        reg_reader_step(v, id, ReadEventModel::Failure(message)).1 =~= seq![
            SessionEventModel::ReadFailed { session: id, message },
        ],
        reg_reader_step(v, id, ReadEventModel::Failure(message)).2,
        !reg_reader_step(v, id, ReadEventModel::Failure(message)).0.sessions.dom().contains(id),
        lookup_status(reg_reader_step(v, id, ReadEventModel::Failure(message)).0, id)
            is NotFound,
{
}

} // verus!
