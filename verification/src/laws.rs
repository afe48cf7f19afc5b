//! The cross-operation guarantees of the correlation engine, stated
//! and proved over the operations' contracts.

use vstd::prelude::*;
use crate::encode::results_json;
use crate::handler::done_response;
use crate::registry::deregister_post;
use crate::registry::drop_if_id;
use crate::registry::record_post;
use crate::registry::register_post;
use crate::registry::Registry;

verus! {

/// Within one connection, only the most recently registered port stays
/// bound to the connection's identifier: after registering `p1` and
/// then `p2` for the same `id`, the entry for `p2` is the one bound to
/// `id`, the abandoned `p1` is no longer bound at all, and entries of
/// other connections (on other ports) are not removed by the second
/// registration.
pub proof fn lemma_last_registration_wins(
    r0: Registry,
    r1: Registry,
    r2: Registry,
    p1: Seq<char>,
    p2: Seq<char>,
    id: int,
)
    requires
        register_post(r0, r1, p1, id),
        register_post(r1, r2, p2, id),
        p1 != p2,
    ensures
        r2.lookup(p2) == Some((id, Seq::<i64>::empty())),
        r2.bound_port(id) == Some(p2),
        r2.lookup(p1) == None::<(int, Seq<i64>)>,
        forall|q: Seq<char>|
            q != p1 && q != p2 ==> #[trigger] r2.lookup(q) == drop_if_id(r0.lookup(q), id),
{
    assert(r2.lookup(p1) == drop_if_id(r1.lookup(p1), id));
    assert forall|q: Seq<char>| q != p1 && q != p2 implies #[trigger] r2.lookup(q) == drop_if_id(
        r0.lookup(q),
        id,
    ) by {
        assert(r2.lookup(q) == drop_if_id(r1.lookup(q), id));
        assert(r1.lookup(q) == drop_if_id(r0.lookup(q), id));
    }
}

/// Recording a run of ping indices on a freshly registered port leaves
/// exactly those indices, in arrival order, as the entry's samples; the
/// "done" reply for that client then reports exactly that list, with
/// its count written out by `results_json`.
///
/// `states[0]` is the registry right after the registration of `p` for
/// `id`, and `states[k + 1]` the registry after recording `vs[k]`.
pub proof fn lemma_pings_reported(
    rpre: Registry,
    states: Seq<Registry>,
    p: Seq<char>,
    id: int,
    vs: Seq<i64>,
)
    requires
        states.len() == vs.len() + 1,
        register_post(rpre, states[0], p, id),
        forall|k: int|
            0 <= k < vs.len() ==> #[trigger] record_post(states[k], states[k + 1], p, vs[k]),
    ensures
        states.last().lookup(p) == Some((id, vs)),
        states.last().samples_of(id) == Some(vs),
        done_response(states.last(), id) == Some(results_json(vs)),
    decreases vs.len(),
{
    if vs.len() == 0 {
        assert(vs =~= Seq::<i64>::empty());
        assert(states.last() == states[0]);
    } else {
        let prev_states = states.drop_last();
        let prev_vs = vs.drop_last();
        assert(prev_states[0] == states[0]);
        assert(forall|k: int|
            0 <= k < prev_vs.len() ==> #[trigger] record_post(
                prev_states[k],
                prev_states[k + 1],
                p,
                prev_vs[k],
            ));
        lemma_pings_reported(rpre, prev_states, p, id, prev_vs);
        let n = vs.len() as int;
        assert(prev_states.last() == states[n - 1]);
        assert(record_post(states[n - 1], states[n], p, vs[n - 1]));
        assert(states.last() == states[n]);
        assert(prev_vs.push(vs[n - 1]) =~= vs);
    }
}

/// After a connection's cleanup runs, nothing is bound for its
/// identifier any more: a replayed "done" for that identifier finds
/// nothing and yields no results message.
pub proof fn lemma_disconnect_forgets(r0: Registry, r1: Registry, id: int)
    requires
        deregister_post(r0, r1, id),
    ensures
        r1.bound_port(id) is None,
        done_response(r1, id) == None::<Seq<char>>,
{
}

} // verus!
