//! The shared client registry: a port-keyed map of per-connection state.
//!
//! The registry is the one resource shared between the control-plane
//! handler and the datagram relay. It is represented as an association
//! list from the textual transport port to the client entry; well-formed
//! registries bind each port, and each client identifier, at most once.

use vstd::prelude::*;
use vstd::pervasive::VecAdditionalExecFns;
use crate::text::str_eq;

verus! {

/// Per-connection state: the connection's identifier and the ping
/// sequence numbers recorded for it, in arrival order.
#[derive(Debug, Clone)]
pub struct Client {
    pub id: usize,
    pub pings: Vec<i64>,
}

/// Port-keyed map of [`Client`] entries.
pub struct Registry {
    entries: Vec<(String, Client)>,
}

/// The first entry keyed by port `p`, as (identifier, samples).
spec fn find_by_port(s: Seq<(String, Client)>, p: Seq<char>) -> Option<(int, Seq<i64>)>
    decreases s.len(),
{
    if s.len() == 0 {
        None
    } else if s[0].0@ == p {
        Some((s[0].1.id as int, s[0].1.pings@))
    } else {
        find_by_port(s.drop_first(), p)
    }
}

/// The first entry holding identifier `id`, as (port, samples).
spec fn find_by_id(s: Seq<(String, Client)>, id: int) -> Option<(Seq<char>, Seq<i64>)>
    decreases s.len(),
{
    if s.len() == 0 {
        None
    } else if s[0].1.id as int == id {
        Some((s[0].0@, s[0].1.pings@))
    } else {
        find_by_id(s.drop_first(), id)
    }
}

/// Ports and identifiers are pairwise distinct.
spec fn uniq(s: Seq<(String, Client)>) -> bool {
    forall|i: int, j: int|
        0 <= i < j < s.len() ==> s[i].0@ != s[j].0@ && s[i].1.id != s[j].1.id
}

impl Registry {
    /// The entry bound to port `p`, as (identifier, samples).
    pub closed spec fn lookup(self, p: Seq<char>) -> Option<(int, Seq<i64>)> {
        find_by_port(self.entries@, p)
    }

    /// The port bound to identifier `id`, if any.
    pub closed spec fn bound_port(self, id: int) -> Option<Seq<char>> {
        match find_by_id(self.entries@, id) {
            Some(e) => Some(e.0),
            None => None,
        }
    }

    /// The samples recorded for identifier `id`, if it is bound.
    pub closed spec fn samples_of(self, id: int) -> Option<Seq<i64>> {
        match find_by_id(self.entries@, id) {
            Some(e) => Some(e.1),
            None => None,
        }
    }

    /// Number of entries.
    pub closed spec fn size(self) -> nat {
        self.entries@.len()
    }

    /// Each port and each identifier is bound at most once.
    pub closed spec fn wf(self) -> bool {
        uniq(self.entries@)
    }
}

/// `entry` with any binding for `id` dropped.
pub open spec fn drop_if_id(entry: Option<(int, Seq<i64>)>, id: int) -> Option<(int, Seq<i64>)> {
    match entry {
        Some(e) => if e.0 == id {
            None
        } else {
            Some(e)
        },
        None => None,
    }
}

/// What `register` promises: port `p` is freshly bound to `id`, the prior
/// binding of `id` (if any) is gone, the prior holder of `p` (if any) is
/// superseded, and every other binding is untouched.
pub open spec fn register_post(pre: Registry, post: Registry, p: Seq<char>, id: int) -> bool {
    &&& post.lookup(p) == Some((id, Seq::<i64>::empty()))
    &&& post.bound_port(id) == Some(p)
    &&& post.samples_of(id) == Some(Seq::<i64>::empty())
    &&& forall|q: Seq<char>| q != p ==> #[trigger] post.lookup(q) == drop_if_id(pre.lookup(q), id)
    &&& forall|i2: int|
        i2 != id ==> #[trigger] post.bound_port(i2) == (if pre.bound_port(i2) == Some(p) {
            None::<Seq<char>>
        } else {
            pre.bound_port(i2)
        })
    &&& forall|i2: int|
        i2 != id ==> #[trigger] post.samples_of(i2) == (if pre.bound_port(i2) == Some(p) {
            None::<Seq<i64>>
        } else {
            pre.samples_of(i2)
        })
}

/// What `record_sample` promises: appended to the entry bound to `p`,
/// if any; a registry without that port is left exactly as it was.
pub open spec fn record_post(pre: Registry, post: Registry, p: Seq<char>, v: i64) -> bool {
    match pre.lookup(p) {
        None => post == pre,
        Some(e) => {
            &&& post.lookup(p) == Some((e.0, e.1.push(v)))
            &&& post.bound_port(e.0) == pre.bound_port(e.0)
            &&& post.samples_of(e.0) == Some(e.1.push(v))
            &&& post.size() == pre.size()
            &&& forall|q: Seq<char>| q != p ==> #[trigger] post.lookup(q) == pre.lookup(q)
            &&& forall|i2: int|
                i2 != e.0 ==> #[trigger] post.bound_port(i2) == pre.bound_port(i2)
                    && #[trigger] post.samples_of(i2) == pre.samples_of(i2)
        },
    }
}

/// What `remove` promises: the entry keyed by `p` is gone, its identifier
/// is no longer bound, and every other binding is untouched.
pub open spec fn remove_post(pre: Registry, post: Registry, p: Seq<char>) -> bool {
    match pre.lookup(p) {
        None => post == pre,
        Some(e) => {
            &&& post.lookup(p) == None::<(int, Seq<i64>)>
            &&& post.bound_port(e.0) == None::<Seq<char>>
            &&& post.samples_of(e.0) == None::<Seq<i64>>
            &&& post.size() == pre.size() - 1
            &&& forall|q: Seq<char>| q != p ==> #[trigger] post.lookup(q) == pre.lookup(q)
            &&& forall|i2: int|
                i2 != e.0 ==> #[trigger] post.bound_port(i2) == pre.bound_port(i2)
                    && #[trigger] post.samples_of(i2) == pre.samples_of(i2)
        },
    }
}

/// What `deregister` promises: whatever port was bound to `id` is
/// removed, and nothing is bound for `id` afterwards.
pub open spec fn deregister_post(pre: Registry, post: Registry, id: int) -> bool {
    &&& match pre.bound_port(id) {
        None => post == pre,
        Some(p) => remove_post(pre, post, p),
    }
    &&& post.bound_port(id) is None
    &&& post.samples_of(id) is None
}

proof fn lemma_find_port_present(s: Seq<(String, Client)>, p: Seq<char>, i: int)
    requires
        0 <= i < s.len(),
        s[i].0@ == p,
        forall|j: int| 0 <= j < i ==> s[j].0@ != p,
    ensures
        find_by_port(s, p) == Some((s[i].1.id as int, s[i].1.pings@)),
    decreases i,
{
    if i > 0 {
        assert(s.drop_first()[i - 1] == s[i]);
        assert(forall|j: int| 0 <= j < i - 1 ==> s.drop_first()[j] == s[j + 1]);
        lemma_find_port_present(s.drop_first(), p, i - 1);
    }
}

proof fn lemma_find_port_absent(s: Seq<(String, Client)>, p: Seq<char>)
    requires
        forall|j: int| 0 <= j < s.len() ==> s[j].0@ != p,
    ensures
        find_by_port(s, p) == None::<(int, Seq<i64>)>,
    decreases s.len(),
{
    if s.len() > 0 {
        assert(forall|j: int| 0 <= j < s.drop_first().len() ==> s.drop_first()[j] == s[j + 1]);
        lemma_find_port_absent(s.drop_first(), p);
    }
}

proof fn lemma_find_port_remove(s: Seq<(String, Client)>, p: Seq<char>, i: int)
    requires
        0 <= i < s.len(),
        s[i].0@ != p,
    ensures
        find_by_port(s.remove(i), p) == find_by_port(s, p),
    decreases i,
{
    if i == 0 {
        assert(s.remove(0) =~= s.drop_first());
    } else {
        assert(s.remove(i)[0] == s[0]);
        assert(s.remove(i).drop_first() =~= s.drop_first().remove(i - 1));
        assert(s.drop_first()[i - 1] == s[i]);
        lemma_find_port_remove(s.drop_first(), p, i - 1);
    }
}

proof fn lemma_find_port_push(s: Seq<(String, Client)>, p: Seq<char>, e: (String, Client))
    ensures
        find_by_port(s.push(e), p) == (match find_by_port(s, p) {
            Some(r) => Some(r),
            None => if e.0@ == p {
                Some((e.1.id as int, e.1.pings@))
            } else {
                None::<(int, Seq<i64>)>
            },
        }),
    decreases s.len(),
{
    if s.len() == 0 {
        assert(s.push(e)[0] == e);
        assert(s.push(e).drop_first() =~= Seq::<(String, Client)>::empty());
        assert(find_by_port(Seq::<(String, Client)>::empty(), p) == None::<(int, Seq<i64>)>);
    } else {
        assert(s.push(e)[0] == s[0]);
        assert(s.push(e).drop_first() =~= s.drop_first().push(e));
        lemma_find_port_push(s.drop_first(), p, e);
    }
}

proof fn lemma_find_port_update_other(
    s: Seq<(String, Client)>,
    q: Seq<char>,
    i: int,
    e: (String, Client),
)
    requires
        0 <= i < s.len(),
        s[i].0@ != q,
        e.0@ != q,
    ensures
        find_by_port(s.update(i, e), q) == find_by_port(s, q),
    decreases i,
{
    if i == 0 {
        assert(s.update(0, e)[0] == e);
        assert(s.update(0, e).drop_first() =~= s.drop_first());
    } else {
        assert(s.update(i, e)[0] == s[0]);
        assert(s.update(i, e).drop_first() =~= s.drop_first().update(i - 1, e));
        assert(s.drop_first()[i - 1] == s[i]);
        lemma_find_port_update_other(s.drop_first(), q, i - 1, e);
    }
}

proof fn lemma_find_id_present(s: Seq<(String, Client)>, id: int, i: int)
    requires
        0 <= i < s.len(),
        s[i].1.id as int == id,
        forall|j: int| 0 <= j < i ==> s[j].1.id as int != id,
    ensures
        find_by_id(s, id) == Some((s[i].0@, s[i].1.pings@)),
    decreases i,
{
    if i > 0 {
        assert(s.drop_first()[i - 1] == s[i]);
        assert(forall|j: int| 0 <= j < i - 1 ==> s.drop_first()[j] == s[j + 1]);
        lemma_find_id_present(s.drop_first(), id, i - 1);
    }
}

proof fn lemma_find_id_absent(s: Seq<(String, Client)>, id: int)
    requires
        forall|j: int| 0 <= j < s.len() ==> s[j].1.id as int != id,
    ensures
        find_by_id(s, id) == None::<(Seq<char>, Seq<i64>)>,
    decreases s.len(),
{
    if s.len() > 0 {
        assert(forall|j: int| 0 <= j < s.drop_first().len() ==> s.drop_first()[j] == s[j + 1]);
        lemma_find_id_absent(s.drop_first(), id);
    }
}

proof fn lemma_find_id_remove(s: Seq<(String, Client)>, id: int, i: int)
    requires
        0 <= i < s.len(),
        s[i].1.id as int != id,
    ensures
        find_by_id(s.remove(i), id) == find_by_id(s, id),
    decreases i,
{
    if i == 0 {
        assert(s.remove(0) =~= s.drop_first());
    } else {
        assert(s.remove(i)[0] == s[0]);
        assert(s.remove(i).drop_first() =~= s.drop_first().remove(i - 1));
        assert(s.drop_first()[i - 1] == s[i]);
        lemma_find_id_remove(s.drop_first(), id, i - 1);
    }
}

proof fn lemma_find_id_push(s: Seq<(String, Client)>, id: int, e: (String, Client))
    ensures
        find_by_id(s.push(e), id) == (match find_by_id(s, id) {
            Some(r) => Some(r),
            None => if e.1.id as int == id {
                Some((e.0@, e.1.pings@))
            } else {
                None::<(Seq<char>, Seq<i64>)>
            },
        }),
    decreases s.len(),
{
    if s.len() == 0 {
        assert(s.push(e)[0] == e);
        assert(s.push(e).drop_first() =~= Seq::<(String, Client)>::empty());
        assert(find_by_id(Seq::<(String, Client)>::empty(), id) == None::<(Seq<char>, Seq<i64>)>);
    } else {
        assert(s.push(e)[0] == s[0]);
        assert(s.push(e).drop_first() =~= s.drop_first().push(e));
        lemma_find_id_push(s.drop_first(), id, e);
    }
}

proof fn lemma_find_id_update_other(
    s: Seq<(String, Client)>,
    id: int,
    i: int,
    e: (String, Client),
)
    requires
        0 <= i < s.len(),
        s[i].1.id as int != id,
        e.1.id as int != id,
    ensures
        find_by_id(s.update(i, e), id) == find_by_id(s, id),
    decreases i,
{
    if i == 0 {
        assert(s.update(0, e)[0] == e);
        assert(s.update(0, e).drop_first() =~= s.drop_first());
    } else {
        assert(s.update(i, e)[0] == s[0]);
        assert(s.update(i, e).drop_first() =~= s.drop_first().update(i - 1, e));
        assert(s.drop_first()[i - 1] == s[i]);
        lemma_find_id_update_other(s.drop_first(), id, i - 1, e);
    }
}

proof fn lemma_find_port_some_exists(s: Seq<(String, Client)>, p: Seq<char>)
    requires
        find_by_port(s, p) is Some,
    ensures
        exists|j: int|
            0 <= j < s.len() && s[j].0@ == p && find_by_port(s, p) == Some(
                (s[j].1.id as int, s[j].1.pings@),
            ),
    decreases s.len(),
{
    if s.len() > 0 && s[0].0@ != p {
        lemma_find_port_some_exists(s.drop_first(), p);
        let j = choose|j: int|
            0 <= j < s.drop_first().len() && s.drop_first()[j].0@ == p && find_by_port(
                s.drop_first(),
                p,
            ) == Some((s.drop_first()[j].1.id as int, s.drop_first()[j].1.pings@));
        assert(s[j + 1] == s.drop_first()[j]);
        assert(s[j + 1].0@ == p && find_by_port(s, p) == Some(
            (s[j + 1].1.id as int, s[j + 1].1.pings@),
        ));
    }
}

proof fn lemma_find_id_some_exists(s: Seq<(String, Client)>, id: int)
    requires
        find_by_id(s, id) is Some,
    ensures
        exists|j: int|
            0 <= j < s.len() && s[j].1.id as int == id && find_by_id(s, id) == Some(
                (s[j].0@, s[j].1.pings@),
            ),
    decreases s.len(),
{
    if s.len() > 0 && s[0].1.id as int != id {
        lemma_find_id_some_exists(s.drop_first(), id);
        let j = choose|j: int|
            0 <= j < s.drop_first().len() && s.drop_first()[j].1.id as int == id && find_by_id(
                s.drop_first(),
                id,
            ) == Some((s.drop_first()[j].0@, s.drop_first()[j].1.pings@));
        assert(s[j + 1] == s.drop_first()[j]);
        assert(s[j + 1].1.id as int == id && find_by_id(s, id) == Some(
            (s[j + 1].0@, s[j + 1].1.pings@),
        ));
    }
}

proof fn lemma_uniq_push(s: Seq<(String, Client)>, e: (String, Client))
    requires
        uniq(s),
        forall|j: int| 0 <= j < s.len() ==> s[j].0@ != e.0@ && s[j].1.id != e.1.id,
    ensures
        uniq(s.push(e)),
{
    assert(forall|k: int| 0 <= k < s.len() ==> #[trigger] s.push(e)[k] == s[k]);
    assert(s.push(e)[s.len() as int] == e);
}

proof fn lemma_uniq_remove(s: Seq<(String, Client)>, i: int)
    requires
        uniq(s),
        0 <= i < s.len(),
    ensures
        uniq(s.remove(i)),
{
    assert(forall|k: int|
        0 <= k < s.remove(i).len() ==> #[trigger] s.remove(i)[k] == (if k < i {
            s[k]
        } else {
            s[k + 1]
        }));
}

proof fn lemma_uniq_drop_first(s: Seq<(String, Client)>)
    requires
        uniq(s),
        s.len() > 0,
    ensures
        uniq(s.drop_first()),
{
    assert(forall|k: int|
        0 <= k < s.drop_first().len() ==> #[trigger] s.drop_first()[k] == s[k + 1]);
}

/// Under well-formedness the two directions of the association agree:
/// an identifier bound at port `p` is found at `p` with the same samples.
proof fn lemma_find_id_to_port(s: Seq<(String, Client)>, id: int, p: Seq<char>, smp: Seq<i64>)
    requires
        uniq(s),
        find_by_id(s, id) == Some((p, smp)),
    ensures
        find_by_port(s, p) == Some((id, smp)),
    decreases s.len(),
{
    if s.len() > 0 && s[0].1.id as int != id {
        lemma_uniq_drop_first(s);
        lemma_find_id_to_port(s.drop_first(), id, p, smp);
        if s[0].0@ == p {
            lemma_find_port_some_exists(s.drop_first(), p);
            let j = choose|j: int|
                0 <= j < s.drop_first().len() && s.drop_first()[j].0@ == p;
            assert(s[j + 1].0@ == s[0].0@);
            assert(false);
        }
    }
}

impl Registry {
    /// An empty registry: no port and no identifier is bound.
    pub fn new() -> (r: Registry)
        ensures
            r.wf(),
            r.size() == 0,
            forall|p: Seq<char>| #[trigger] r.lookup(p) == None::<(int, Seq<i64>)>,
            forall|id: int| #[trigger] r.bound_port(id) == None::<Seq<char>>,
            forall|id: int| #[trigger] r.samples_of(id) == None::<Seq<i64>>,
    {
        let r = Registry { entries: Vec::new() };
        proof {
            assert forall|p: Seq<char>| #[trigger] r.lookup(p) == None::<(int, Seq<i64>)> by {
                lemma_find_port_absent(r.entries@, p);
            }
            assert forall|id: int| #[trigger] r.bound_port(id) == None::<Seq<char>>
                && #[trigger] r.samples_of(id) == None::<Seq<i64>> by {
                lemma_find_id_absent(r.entries@, id);
            }
        }
        r
    }

    /// Number of entries currently held.
    pub fn len(&self) -> (n: usize)
        ensures
            n == self.size(),
    {
        self.entries.len()
    }

    fn find_index_by_port(&self, port: &str) -> (r: Option<usize>)
        ensures
            match r {
                Some(i) => {
                    &&& i < self.entries@.len()
                    &&& self.entries@[i as int].0@ == port@
                    &&& forall|j: int| 0 <= j < i ==> self.entries@[j].0@ != port@
                },
                None => forall|j: int|
                    0 <= j < self.entries@.len() ==> self.entries@[j].0@ != port@,
            },
    {
        let n = self.entries.len();
        let mut i: usize = 0;
        while i < n
            invariant
                n == self.entries@.len(),
                i <= n,
                forall|j: int| 0 <= j < i ==> self.entries@[j].0@ != port@,
            decreases n - i,
        {
            if str_eq(self.entries[i].0.as_str(), port) {
                return Some(i);
            }
            i += 1;
        }
        None
    }

    fn find_index_by_id(&self, id: usize) -> (r: Option<usize>)
        ensures
            match r {
                Some(i) => {
                    &&& i < self.entries@.len()
                    &&& self.entries@[i as int].1.id == id
                    &&& forall|j: int| 0 <= j < i ==> self.entries@[j].1.id != id
                },
                None => forall|j: int|
                    0 <= j < self.entries@.len() ==> self.entries@[j].1.id != id,
            },
    {
        let n = self.entries.len();
        let mut i: usize = 0;
        while i < n
            invariant
                n == self.entries@.len(),
                i <= n,
                forall|j: int| 0 <= j < i ==> self.entries@[j].1.id != id,
            decreases n - i,
        {
            if self.entries[i].1.id == id {
                return Some(i);
            }
            i += 1;
        }
        None
    }

    /// Binds `port` to client `id` with a fresh, empty sample sequence.
    /// Any prior binding of this client is dropped, and any prior holder
    /// of this port is superseded (last writer wins).
    pub fn register(&mut self, port: String, id: usize)
        requires
            old(self).wf(),
        ensures
            final(self).wf(),
            register_post(*old(self), *final(self), port@, id as int),
    {
        let ghost pv = port@;
        let ghost s0 = self.entries@;
        // Drop the client's prior binding, if one exists.
        if let Some(i) = self.find_index_by_id(id) {
            proof {
                lemma_uniq_remove(s0, i as int);
            }
            self.entries.remove(i);
            proof {
                let ghost s1 = self.entries@;
                assert(forall|k: int|
                    0 <= k < s1.len() ==> #[trigger] s1[k] == (if k < i {
                        s0[k]
                    } else {
                        s0[k + 1]
                    }));
                assert(forall|j: int| 0 <= j < s0.len() && j != i ==> s0[j].1.id != id);
                assert(forall|j: int| 0 <= j < s1.len() ==> s1[j].1.id != id);
                let rp = s0[i as int].0@;
                assert(forall|j: int| 0 <= j < i ==> s0[j].0@ != rp);
                lemma_find_port_present(s0, rp, i as int);
                assert(forall|j: int| 0 <= j < s1.len() ==> s1[j].0@ != rp);
                lemma_find_port_absent(s1, rp);
                assert forall|q: Seq<char>| #[trigger] find_by_port(s1, q) == drop_if_id(
                    find_by_port(s0, q),
                    id as int,
                ) by {
                    if q != rp {
                        lemma_find_port_remove(s0, q, i as int);
                        if find_by_port(s0, q) is Some {
                            lemma_find_port_some_exists(s0, q);
                            let j = choose|j: int|
                                0 <= j < s0.len() && s0[j].0@ == q && find_by_port(s0, q) == Some(
                                    (s0[j].1.id as int, s0[j].1.pings@),
                                );
                            assert(j != i);
                            assert(s0[j].1.id != id);
                        }
                    }
                }
                assert forall|i2: int| i2 != id as int implies #[trigger] find_by_id(s1, i2)
                    == find_by_id(s0, i2) by {
                    lemma_find_id_remove(s0, i2, i as int);
                }
            }
        } else {
            proof {
                let s1 = self.entries@;
                assert(s1 == s0);
                assert forall|q: Seq<char>| #[trigger] find_by_port(s1, q) == drop_if_id(
                    find_by_port(s0, q),
                    id as int,
                ) by {
                    if find_by_port(s0, q) is Some {
                        lemma_find_port_some_exists(s0, q);
                        let j = choose|j: int|
                            0 <= j < s0.len() && s0[j].0@ == q && find_by_port(s0, q) == Some(
                                (s0[j].1.id as int, s0[j].1.pings@),
                            );
                        assert(s0[j].1.id != id);
                    }
                }
            }
        }
        let ghost s1 = self.entries@;
        proof {
            assert(uniq(s1));
            assert(forall|j: int| 0 <= j < s1.len() ==> s1[j].1.id != id);
            assert(forall|q: Seq<char>|
                #[trigger] find_by_port(s1, q) == drop_if_id(find_by_port(s0, q), id as int));
            assert(forall|i2: int|
                i2 != id as int ==> #[trigger] find_by_id(s1, i2) == find_by_id(s0, i2));
            lemma_find_id_absent(s1, id as int);
        }
        // Last writer wins on the port key.
        if let Some(k) = self.find_index_by_port(port.as_str()) {
            proof {
                lemma_uniq_remove(s1, k as int);
            }
            self.entries.remove(k);
            proof {
                let s2 = self.entries@;
                assert(forall|kk: int|
                    0 <= kk < s2.len() ==> #[trigger] s2[kk] == (if kk < k {
                        s1[kk]
                    } else {
                        s1[kk + 1]
                    }));
                assert(forall|j: int| 0 <= j < s1.len() && j != k ==> s1[j].0@ != pv);
                assert(forall|j: int| 0 <= j < s2.len() ==> s2[j].0@ != pv);
                assert(forall|j: int| 0 <= j < s2.len() ==> s2[j].1.id != id);
                assert forall|q: Seq<char>| q != pv implies #[trigger] find_by_port(s2, q)
                    == find_by_port(s1, q) by {
                    lemma_find_port_remove(s1, q, k as int);
                }
                let rid = s1[k as int].1.id as int;
                assert forall|i2: int| #[trigger] find_by_id(s2, i2) == (match find_by_id(
                    s1,
                    i2,
                ) {
                    Some(e) => if e.0 == pv {
                        None
                    } else {
                        Some(e)
                    },
                    None => None,
                }) by {
                    if i2 == rid {
                        assert(forall|j: int| 0 <= j < k ==> s1[j].1.id as int != i2);
                        lemma_find_id_present(s1, i2, k as int);
                        assert(forall|j: int| 0 <= j < s1.len() && j != k ==> s1[j].1.id as int
                            != i2);
                        assert(forall|j: int| 0 <= j < s2.len() ==> s2[j].1.id as int != i2);
                        lemma_find_id_absent(s2, i2);
                    } else {
                        lemma_find_id_remove(s1, i2, k as int);
                        if find_by_id(s1, i2) is Some {
                            lemma_find_id_some_exists(s1, i2);
                            let j = choose|j: int|
                                0 <= j < s1.len() && s1[j].1.id as int == i2 && find_by_id(s1, i2)
                                    == Some((s1[j].0@, s1[j].1.pings@));
                            assert(j != k);
                            assert(s1[j].0@ != pv);
                        }
                    }
                }
            }
        } else {
            proof {
                let s2 = self.entries@;
                assert forall|i2: int| #[trigger] find_by_id(s2, i2) == (match find_by_id(
                    s1,
                    i2,
                ) {
                    Some(e) => if e.0 == pv {
                        None
                    } else {
                        Some(e)
                    },
                    None => None,
                }) by {
                    if find_by_id(s1, i2) is Some {
                        lemma_find_id_some_exists(s1, i2);
                        let j = choose|j: int|
                            0 <= j < s1.len() && s1[j].1.id as int == i2 && find_by_id(s1, i2)
                                == Some((s1[j].0@, s1[j].1.pings@));
                        assert(s1[j].0@ != pv);
                    }
                }
            }
        }
        let ghost s2 = self.entries@;
        proof {
            assert(uniq(s2));
            assert(forall|j: int| 0 <= j < s2.len() ==> s2[j].0@ != pv);
            assert(forall|j: int| 0 <= j < s2.len() ==> s2[j].1.id != id);
            lemma_find_port_absent(s2, pv);
            lemma_find_id_absent(s2, id as int);
        }
        let pings: Vec<i64> = Vec::new();
        let entry = (port, Client { id, pings });
        let ghost e = entry;
        self.entries.push(entry);
        proof {
            let s3 = self.entries@;
            assert(s3 == s2.push(e));
            lemma_uniq_push(s2, e);
            lemma_find_port_push(s2, pv, e);
            lemma_find_id_push(s2, id as int, e);
            assert(e.1.pings@ =~= Seq::<i64>::empty());
            assert forall|q: Seq<char>| q != pv implies #[trigger] find_by_port(s3, q)
                == drop_if_id(find_by_port(s0, q), id as int) by {
                lemma_find_port_push(s2, q, e);
            }
            assert forall|i2: int| i2 != id as int implies #[trigger] find_by_id(s3, i2) == (
            match find_by_id(s0, i2) {
                Some(ent) => if ent.0 == pv {
                    None
                } else {
                    Some(ent)
                },
                None => None,
            }) by {
                lemma_find_id_push(s2, i2, e);
            }
        }
    }

    /// Appends `value` to the samples of the entry bound to `port`; for
    /// an unbound port the registry is left exactly as it was, and no
    /// entry is created.
    pub fn record_sample(&mut self, port: &str, value: i64)
        requires
            old(self).wf(),
        ensures
            final(self).wf(),
            record_post(*old(self), *final(self), port@, value),
    {
        let ghost s0 = self.entries@;
        match self.find_index_by_port(port) {
            None => {
                proof {
                    lemma_find_port_absent(s0, port@);
                }
            },
            Some(i) => {
                proof {
                    lemma_find_port_present(s0, port@, i as int);
                }
                let cid = self.entries[i].1.id;
                let key = self.entries[i].0.clone();
                let mut pings = copy_samples(&self.entries[i].1.pings);
                pings.push(value);
                let entry = (key, Client { id: cid, pings });
                let ghost e = entry;
                proof {
                    assert(e.0@ == s0[i as int].0@);
                    assert(e.1.id == s0[i as int].1.id);
                    assert(e.1.pings@ == s0[i as int].1.pings@.push(value));
                }
                self.entries.set(i, entry);
                proof {
                    let s1 = self.entries@;
                    assert(s1 == s0.update(i as int, e));
                    assert(forall|k: int|
                        0 <= k < s1.len() ==> #[trigger] s1[k] == (if k == i as int {
                            e
                        } else {
                            s0[k]
                        }));
                    assert(forall|k: int|
                        0 <= k < s1.len() ==> (#[trigger] s1[k]).0@ == s0[k].0@ && s1[k].1.id
                            == s0[k].1.id);
                    assert(uniq(s1));
                    lemma_find_port_present(s1, port@, i as int);
                    assert(forall|j: int| 0 <= j < i ==> s0[j].1.id != cid);
                    lemma_find_id_present(s0, cid as int, i as int);
                    lemma_find_id_present(s1, cid as int, i as int);
                    assert forall|q: Seq<char>| q != port@ implies #[trigger] find_by_port(s1, q)
                        == find_by_port(s0, q) by {
                        lemma_find_port_update_other(s0, q, i as int, e);
                    }
                    assert forall|i2: int| i2 != cid as int implies #[trigger] find_by_id(s1, i2)
                        == find_by_id(s0, i2) by {
                        lemma_find_id_update_other(s0, i2, i as int, e);
                    }
                }
            },
        }
    }

    /// A snapshot of the samples recorded for client `id`, if it is bound.
    pub fn read_samples(&self, id: usize) -> (r: Option<Vec<i64>>)
        ensures
            match r {
                Some(v) => self.samples_of(id as int) == Some(v@),
                None => self.samples_of(id as int) is None,
            },
    {
        match self.find_index_by_id(id) {
            None => {
                proof {
                    lemma_find_id_absent(self.entries@, id as int);
                }
                None
            },
            Some(i) => {
                proof {
                    lemma_find_id_present(self.entries@, id as int, i as int);
                }
                Some(copy_samples(&self.entries[i].1.pings))
            },
        }
    }

    /// The port currently bound to client `id`, if any; the key to remove
    /// when the owning connection goes away.
    pub fn lookup_port_by_id(&self, id: usize) -> (r: Option<String>)
        ensures
            match r {
                Some(p) => self.bound_port(id as int) == Some(p@),
                None => self.bound_port(id as int) is None,
            },
    {
        match self.find_index_by_id(id) {
            None => {
                proof {
                    lemma_find_id_absent(self.entries@, id as int);
                }
                None
            },
            Some(i) => {
                proof {
                    lemma_find_id_present(self.entries@, id as int, i as int);
                }
                Some(self.entries[i].0.clone())
            },
        }
    }

    /// Deletes the entry keyed by `port`; removing an absent port is a
    /// no-op.
    pub fn remove(&mut self, port: &str)
        requires
            old(self).wf(),
        ensures
            final(self).wf(),
            remove_post(*old(self), *final(self), port@),
    {
        let ghost s0 = self.entries@;
        match self.find_index_by_port(port) {
            None => {
                proof {
                    lemma_find_port_absent(s0, port@);
                }
            },
            Some(i) => {
                proof {
                    lemma_find_port_present(s0, port@, i as int);
                    lemma_uniq_remove(s0, i as int);
                }
                self.entries.remove(i);
                proof {
                    let s1 = self.entries@;
                    let rid = s0[i as int].1.id as int;
                    assert(forall|k: int|
                        0 <= k < s1.len() ==> #[trigger] s1[k] == (if k < i {
                            s0[k]
                        } else {
                            s0[k + 1]
                        }));
                    assert(forall|j: int| 0 <= j < s0.len() && j != i ==> s0[j].0@ != port@);
                    assert(forall|j: int| 0 <= j < s1.len() ==> s1[j].0@ != port@);
                    lemma_find_port_absent(s1, port@);
                    assert(forall|j: int| 0 <= j < s0.len() && j != i ==> s0[j].1.id as int
                        != rid);
                    assert(forall|j: int| 0 <= j < s1.len() ==> s1[j].1.id as int != rid);
                    lemma_find_id_absent(s1, rid);
                    assert(forall|j: int| 0 <= j < i ==> s0[j].1.id as int != rid);
                    lemma_find_id_present(s0, rid, i as int);
                    assert forall|q: Seq<char>| q != port@ implies #[trigger] find_by_port(s1, q)
                        == find_by_port(s0, q) by {
                        lemma_find_port_remove(s0, q, i as int);
                    }
                    assert forall|i2: int| i2 != rid implies #[trigger] find_by_id(s1, i2)
                        == find_by_id(s0, i2) by {
                        lemma_find_id_remove(s0, i2, i as int);
                    }
                }
            },
        }
    }

    /// Removes whatever entry is bound to client `id`: the one removal
    /// path, taken when the owning connection closes.
    pub fn deregister(&mut self, id: usize)
        requires
            old(self).wf(),
        ensures
            final(self).wf(),
            deregister_post(*old(self), *final(self), id as int),
    {
        let ghost s0 = self.entries@;
        match self.lookup_port_by_id(id) {
            None => {},
            Some(p) => {
                proof {
                    let smp = match find_by_id(s0, id as int) {
                        Some(ent) => ent.1,
                        None => Seq::<i64>::empty(),
                    };
                    lemma_find_id_to_port(s0, id as int, p@, smp);
                }
                self.remove(p.as_str());
            },
        }
    }
}

/// An element-by-element copy of a sample vector.
fn copy_samples(v: &Vec<i64>) -> (r: Vec<i64>)
    ensures
        r@ == v@,
{
    let mut r: Vec<i64> = Vec::new();
    let n = v.len();
    let mut i: usize = 0;
    while i < n
        invariant
            n == v@.len(),
            i <= n,
            r@ == v@.take(i as int),
        decreases n - i,
    {
        r.push(v[i]);
        proof {
            assert(v@.take(i as int).push(v@[i as int]) =~= v@.take(i as int + 1));
        }
        i += 1;
    }
    proof {
        assert(v@.take(n as int) =~= v@);
    }
    r
}

} // verus!
