//! The differ: a pure function turning two successive snapshots into the
//! ordered sequence of domain events between them.
//!
//! A server present only in the new snapshot comes online; one present only
//! in the old snapshot goes offline; for a server present in both, the
//! client identity sets (names) are compared, and each name only on the new
//! side joins while each name only on the old side leaves. Identities on
//! both sides produce no event, whatever their other fields did.

use vstd::prelude::*;

use crate::snapshot::assoc_lookup;
use crate::snapshot::ServerListMap;
use crate::structures::client_id;
use crate::structures::opt_string_eq;
use crate::structures::Client;
use crate::structures::ClientView;
use crate::structures::MasterEvent;
use crate::structures::MasterEventView;
use crate::structures::Server;
use crate::structures::ServerView;

verus! {

/// Whether some client in `cs` has identity `n`.
pub open spec fn has_name(cs: Seq<ClientView>, n: Option<Seq<char>>) -> bool {
    exists|k: int| 0 <= k < cs.len() && client_id(#[trigger] cs[k]) == n
}

/// The client list a server reports; a missing list counts as empty.
pub open spec fn clients_of(s: ServerView) -> Seq<ClientView> {
    match s.info.clients {
        Some(cs) => cs,
        None => Seq::empty(),
    }
}

/// One `ClientJoined(c, srv)` per client of `cs` whose identity is absent
/// from `old_cs`, first occurrence of each identity only, in list order.
pub open spec fn join_events(
    cs: Seq<ClientView>,
    old_cs: Seq<ClientView>,
    srv: ServerView,
) -> Seq<MasterEventView>
    decreases cs.len(),
{
    if cs.len() == 0 {
        Seq::empty()
    } else {
        let rest = join_events(cs.drop_last(), old_cs, srv);
        let c = cs.last();
        if !has_name(old_cs, client_id(c)) && !has_name(cs.drop_last(), client_id(c)) {
            rest.push(MasterEventView::ClientJoined(c, srv))
        } else {
            rest
        }
    }
}

/// One `ClientLeft(c, srv)` per client of `old_cs` whose identity is absent
/// from `new_cs`, first occurrence of each identity only, in list order.
pub open spec fn left_events(
    old_cs: Seq<ClientView>,
    new_cs: Seq<ClientView>,
    srv: ServerView,
) -> Seq<MasterEventView>
    decreases old_cs.len(),
{
    if old_cs.len() == 0 {
        Seq::empty()
    } else {
        let rest = left_events(old_cs.drop_last(), new_cs, srv);
        let c = old_cs.last();
        if !has_name(new_cs, client_id(c)) && !has_name(old_cs.drop_last(), client_id(c)) {
            rest.push(MasterEventView::ClientLeft(c, srv))
        } else {
            rest
        }
    }
}

/// The events for a server present in both snapshots: the joins, then the
/// leaves. Both carry the server as the new snapshot reports it.
pub open spec fn pair_events(old_s: ServerView, new_s: ServerView) -> Seq<MasterEventView> {
    join_events(clients_of(new_s), clients_of(old_s), new_s) + left_events(
        clients_of(old_s),
        clients_of(new_s),
        new_s,
    )
}

/// The events contributed by the new snapshot's servers, in its order:
/// `ServerWentOnline` for an address absent from `old`, the client events
/// otherwise.
pub open spec fn online_part(
    old: Seq<(Seq<char>, ServerView)>,
    new_servers: Seq<(Seq<char>, ServerView)>,
) -> Seq<MasterEventView>
    decreases new_servers.len(),
{
    if new_servers.len() == 0 {
        Seq::empty()
    } else {
        let rest = online_part(old, new_servers.drop_last());
        let p = new_servers.last();
        match assoc_lookup(old, p.0) {
            Some(old_s) => rest + pair_events(old_s, p.1),
            None => rest.push(MasterEventView::ServerWentOnline(p.1)),
        }
    }
}

/// One `ServerWentOffline` per server of the old snapshot whose address is
/// absent from `new`, in the old snapshot's order.
pub open spec fn offline_part(
    old_servers: Seq<(Seq<char>, ServerView)>,
    new: Seq<(Seq<char>, ServerView)>,
) -> Seq<MasterEventView>
    decreases old_servers.len(),
{
    if old_servers.len() == 0 {
        Seq::empty()
    } else {
        let rest = offline_part(old_servers.drop_last(), new);
        let p = old_servers.last();
        if assoc_lookup(new, p.0) is None {
            rest.push(MasterEventView::ServerWentOffline(p.1))
        } else {
            rest
        }
    }
}

/// All events between two snapshots: the online and client events in the
/// new snapshot's order, then the offline events in the old one's.
pub open spec fn diff_spec(
    old: Seq<(Seq<char>, ServerView)>,
    new: Seq<(Seq<char>, ServerView)>,
) -> Seq<MasterEventView> {
    online_part(old, new) + offline_part(old, new)
}

/// Whether an event is a join of the identity `n`.
pub open spec fn is_join_of(e: MasterEventView, n: Option<Seq<char>>) -> bool {
    e matches MasterEventView::ClientJoined(c, s) && client_id(c) == n
}

/// Whether an event is a leave of the identity `n`.
pub open spec fn is_left_of(e: MasterEventView, n: Option<Seq<char>>) -> bool {
    e matches MasterEventView::ClientLeft(c, s) && client_id(c) == n
}

/// No client joins against a roster that already holds every identity.
proof fn lemma_join_events_all_present(cs: Seq<ClientView>, old_cs: Seq<ClientView>, srv: ServerView)
    requires
        forall|k: int| 0 <= k < cs.len() ==> has_name(old_cs, client_id(#[trigger] cs[k])),
    ensures
        join_events(cs, old_cs, srv) == Seq::<MasterEventView>::empty(),
    decreases cs.len(),
{
    if cs.len() > 0 {
        lemma_join_events_all_present(cs.drop_last(), old_cs, srv);
        assert(cs[cs.len() - 1] == cs.last());
    }
}

/// No client leaves towards a roster that still holds every identity.
proof fn lemma_left_events_all_present(
    old_cs: Seq<ClientView>,
    new_cs: Seq<ClientView>,
    srv: ServerView,
)
    requires
        forall|k: int| 0 <= k < old_cs.len() ==> has_name(new_cs, client_id(#[trigger] old_cs[k])),
    ensures
        left_events(old_cs, new_cs, srv) == Seq::<MasterEventView>::empty(),
    decreases old_cs.len(),
{
    if old_cs.len() > 0 {
        lemma_left_events_all_present(old_cs.drop_last(), new_cs, srv);
        assert(old_cs[old_cs.len() - 1] == old_cs.last());
    }
}

/// A server diffed against itself produces no event.
pub proof fn lemma_pair_events_self(s: ServerView)
    ensures
        pair_events(s, s) == Seq::<MasterEventView>::empty(),
{
    let cs = clients_of(s);
    assert forall|k: int| 0 <= k < cs.len() implies has_name(cs, client_id(#[trigger] cs[k])) by {
        assert(0 <= k < cs.len() && client_id(cs[k]) == client_id(cs[k]));
    }
    lemma_join_events_all_present(cs, cs, s);
    lemma_left_events_all_present(cs, cs, s);
    assert(pair_events(s, s) =~= Seq::<MasterEventView>::empty());
}

/// The online pass is silent when every new server already stood in `old`
/// with the same view.
proof fn lemma_online_part_all_known(
    old: Seq<(Seq<char>, ServerView)>,
    ss: Seq<(Seq<char>, ServerView)>,
)
    requires
        forall|k: int| 0 <= k < ss.len() ==> assoc_lookup(old, (#[trigger] ss[k]).0) == Some(ss[k].1),
    ensures
        online_part(old, ss) == Seq::<MasterEventView>::empty(),
    decreases ss.len(),
{
    if ss.len() > 0 {
        lemma_online_part_all_known(old, ss.drop_last());
        assert(ss[ss.len() - 1] == ss.last());
        lemma_pair_events_self(ss.last().1);
        assert(online_part(old, ss) =~= Seq::<MasterEventView>::empty());
    }
}

/// The offline pass is silent when every old address is still present.
proof fn lemma_offline_part_all_present(
    ss: Seq<(Seq<char>, ServerView)>,
    new: Seq<(Seq<char>, ServerView)>,
)
    requires
        forall|k: int| 0 <= k < ss.len() ==> assoc_lookup(new, (#[trigger] ss[k]).0) is Some,
    ensures
        offline_part(ss, new) == Seq::<MasterEventView>::empty(),
    decreases ss.len(),
{
    if ss.len() > 0 {
        lemma_offline_part_all_present(ss.drop_last(), new);
        assert(ss[ss.len() - 1] == ss.last());
    }
}

/// Diffing a snapshot against itself yields no event at all.
pub proof fn lemma_diff_identity(s: ServerListMap)
    requires
        s.wf(),
    ensures
        diff_spec(s@, s@) == Seq::<MasterEventView>::empty(),
{
    assert forall|k: int|
        0 <= k < s@.len() implies assoc_lookup(s@, (#[trigger] s@[k]).0) == Some(s@[k].1) by {
        crate::snapshot::lemma_lookup_at(s@, s@[k].0, k);
    }
    lemma_online_part_all_known(s@, s@);
    lemma_offline_part_all_present(s@, s@);
    assert(diff_spec(s@, s@) =~= Seq::<MasterEventView>::empty());
}

/// Diffing from an empty snapshot announces each server once, in order,
/// and produces no client events, whatever the client lists hold.
pub proof fn lemma_diff_from_empty(old: ServerListMap, new: ServerListMap)
    requires
        old@.len() == 0,
    ensures
        diff_spec(old@, new@) == Seq::new(
            new@.len() as nat,
            |i: int| MasterEventView::ServerWentOnline(new@[i].1),
        ),
{
    lemma_online_all_new(old@, new@);
    assert(offline_part(old@, new@) == Seq::<MasterEventView>::empty());
    assert(diff_spec(old@, new@) =~= Seq::new(
        new@.len() as nat,
        |i: int| MasterEventView::ServerWentOnline(new@[i].1),
    ));
}

/// The online pass over an empty `old` announces every server in order.
proof fn lemma_online_all_new(old: Seq<(Seq<char>, ServerView)>, ss: Seq<(Seq<char>, ServerView)>)
    requires
        old.len() == 0,
    ensures
        online_part(old, ss) == Seq::new(
            ss.len() as nat,
            |i: int| MasterEventView::ServerWentOnline(ss[i].1),
        ),
    decreases ss.len(),
{
    if ss.len() > 0 {
        lemma_online_all_new(old, ss.drop_last());
        assert(ss[ss.len() - 1] == ss.last());
        assert(online_part(old, ss) =~= Seq::new(
            ss.len() as nat,
            |i: int| MasterEventView::ServerWentOnline(ss[i].1),
        ));
    } else {
        assert(online_part(old, ss) =~= Seq::new(
            ss.len() as nat,
            |i: int| MasterEventView::ServerWentOnline(ss[i].1),
        ));
    }
}

/// Diffing to an empty snapshot retires each server once, in order.
pub proof fn lemma_diff_to_empty(old: ServerListMap, new: ServerListMap)
    requires
        new@.len() == 0,
    ensures
        diff_spec(old@, new@) == Seq::new(
            old@.len() as nat,
            |i: int| MasterEventView::ServerWentOffline(old@[i].1),
        ),
{
    lemma_offline_all_gone(old@, new@);
    assert(online_part(old@, new@) == Seq::<MasterEventView>::empty());
    assert(diff_spec(old@, new@) =~= Seq::new(
        old@.len() as nat,
        |i: int| MasterEventView::ServerWentOffline(old@[i].1),
    ));
}

/// The offline pass against an empty `new` retires every server in order.
proof fn lemma_offline_all_gone(ss: Seq<(Seq<char>, ServerView)>, new: Seq<(Seq<char>, ServerView)>)
    requires
        new.len() == 0,
    ensures
        offline_part(ss, new) == Seq::new(
            ss.len() as nat,
            |i: int| MasterEventView::ServerWentOffline(ss[i].1),
        ),
    decreases ss.len(),
{
    if ss.len() > 0 {
        lemma_offline_all_gone(ss.drop_last(), new);
        assert(ss[ss.len() - 1] == ss.last());
        assert(offline_part(ss, new) =~= Seq::new(
            ss.len() as nat,
            |i: int| MasterEventView::ServerWentOffline(ss[i].1),
        ));
    } else {
        assert(offline_part(ss, new) =~= Seq::new(
            ss.len() as nat,
            |i: int| MasterEventView::ServerWentOffline(ss[i].1),
        ));
    }
}

/// Every event of the join pass is a join of a fresh identity, carrying
/// the given server.
proof fn lemma_join_events_shape(cs: Seq<ClientView>, old_cs: Seq<ClientView>, srv: ServerView)
    ensures
        forall|k: int|
            0 <= k < join_events(cs, old_cs, srv).len() ==> ((#[trigger] join_events(
                cs,
                old_cs,
                srv,
            )[k]) matches MasterEventView::ClientJoined(c, s) && s == srv && has_name(
                cs,
                client_id(c),
            ) && !has_name(old_cs, client_id(c))),
    decreases cs.len(),
{
    if cs.len() > 0 {
        lemma_join_events_shape(cs.drop_last(), old_cs, srv);
        assert(cs[cs.len() - 1] == cs.last());
        assert forall|nm: Option<Seq<char>>|
            #[trigger] has_name(cs.drop_last(), nm) implies has_name(cs, nm) by {
            let k = choose|k: int|
                0 <= k < cs.drop_last().len() && client_id(#[trigger] cs.drop_last()[k]) == nm;
            assert(cs[k] == cs.drop_last()[k]);
        }
    }
}

/// Every event of the leave pass is a leave of a vanished identity,
/// carrying the given server.
proof fn lemma_left_events_shape(old_cs: Seq<ClientView>, new_cs: Seq<ClientView>, srv: ServerView)
    ensures
        forall|k: int|
            0 <= k < left_events(old_cs, new_cs, srv).len() ==> ((#[trigger] left_events(
                old_cs,
                new_cs,
                srv,
            )[k]) matches MasterEventView::ClientLeft(c, s) && s == srv && has_name(
                old_cs,
                client_id(c),
            ) && !has_name(new_cs, client_id(c))),
    decreases old_cs.len(),
{
    if old_cs.len() > 0 {
        lemma_left_events_shape(old_cs.drop_last(), new_cs, srv);
        assert(old_cs[old_cs.len() - 1] == old_cs.last());
        assert forall|nm: Option<Seq<char>>|
            #[trigger] has_name(old_cs.drop_last(), nm) implies has_name(old_cs, nm) by {
            let k = choose|k: int|
                0 <= k < old_cs.drop_last().len() && client_id(
                    #[trigger] old_cs.drop_last()[k],
                ) == nm;
            assert(old_cs[k] == old_cs.drop_last()[k]);
        }
    }
}

/// An identity that entered is joined by some event of the join pass.
proof fn lemma_join_events_complete(
    cs: Seq<ClientView>,
    old_cs: Seq<ClientView>,
    srv: ServerView,
    n: Option<Seq<char>>,
)
    requires
        has_name(cs, n),
        !has_name(old_cs, n),
    ensures
        exists|k: int|
            0 <= k < join_events(cs, old_cs, srv).len() && ((#[trigger] join_events(
                cs,
                old_cs,
                srv,
            )[k]) matches MasterEventView::ClientJoined(c, s) && client_id(c) == n),
    decreases cs.len(),
{
    let evs = join_events(cs, old_cs, srv);
    if has_name(cs.drop_last(), n) {
        lemma_join_events_complete(cs.drop_last(), old_cs, srv, n);
        let rest = join_events(cs.drop_last(), old_cs, srv);
        let k = choose|k: int|
            0 <= k < rest.len() && ((#[trigger] rest[k]) matches MasterEventView::ClientJoined(
                c,
                s,
            ) && client_id(c) == n);
        assert(evs[k] == rest[k]);
    } else {
        let w = choose|k: int| 0 <= k < cs.len() && client_id(#[trigger] cs[k]) == n;
        if w < cs.len() - 1 {
            assert(cs.drop_last()[w] == cs[w]);
            assert(has_name(cs.drop_last(), n));
            assert(false);
        }
        assert(client_id(cs.last()) == n);
        let rest = join_events(cs.drop_last(), old_cs, srv);
        assert(evs == rest.push(MasterEventView::ClientJoined(cs.last(), srv)));
        assert(evs[rest.len() as int] matches MasterEventView::ClientJoined(c, s) && client_id(c)
            == n);
    }
}

/// An identity that vanished is retired by some event of the leave pass.
proof fn lemma_left_events_complete(
    old_cs: Seq<ClientView>,
    new_cs: Seq<ClientView>,
    srv: ServerView,
    n: Option<Seq<char>>,
)
    requires
        has_name(old_cs, n),
        !has_name(new_cs, n),
    ensures
        exists|k: int|
            0 <= k < left_events(old_cs, new_cs, srv).len() && ((#[trigger] left_events(
                old_cs,
                new_cs,
                srv,
            )[k]) matches MasterEventView::ClientLeft(c, s) && client_id(c) == n),
    decreases old_cs.len(),
{
    let evs = left_events(old_cs, new_cs, srv);
    if has_name(old_cs.drop_last(), n) {
        lemma_left_events_complete(old_cs.drop_last(), new_cs, srv, n);
        let rest = left_events(old_cs.drop_last(), new_cs, srv);
        let k = choose|k: int|
            0 <= k < rest.len() && ((#[trigger] rest[k]) matches MasterEventView::ClientLeft(
                c,
                s,
            ) && client_id(c) == n);
        assert(evs[k] == rest[k]);
    } else {
        let w = choose|k: int| 0 <= k < old_cs.len() && client_id(#[trigger] old_cs[k]) == n;
        if w < old_cs.len() - 1 {
            assert(old_cs.drop_last()[w] == old_cs[w]);
            assert(has_name(old_cs.drop_last(), n));
            assert(false);
        }
        assert(client_id(old_cs.last()) == n);
        let rest = left_events(old_cs.drop_last(), new_cs, srv);
        assert(evs == rest.push(MasterEventView::ClientLeft(old_cs.last(), srv)));
        assert(evs[rest.len() as int] matches MasterEventView::ClientLeft(c, s) && client_id(c)
            == n);
    }
}

/// The join pass never joins one identity twice.
proof fn lemma_join_events_unique(
    cs: Seq<ClientView>,
    old_cs: Seq<ClientView>,
    srv: ServerView,
    n: Option<Seq<char>>,
    k1: int,
    k2: int,
)
    requires
        0 <= k1 < k2 < join_events(cs, old_cs, srv).len(),
        is_join_of(join_events(cs, old_cs, srv)[k1], n),
    ensures
        !is_join_of(join_events(cs, old_cs, srv)[k2], n),
    decreases cs.len(),
{
    let evs = join_events(cs, old_cs, srv);
    let rest = join_events(cs.drop_last(), old_cs, srv);
    assert(cs.len() > 0);
    if is_join_of(evs[k2], n) {
        if k2 < rest.len() {
            assert(evs[k1] == rest[k1]);
            assert(evs[k2] == rest[k2]);
            lemma_join_events_unique(cs.drop_last(), old_cs, srv, n, k1, k2);
        } else {
            assert(evs == rest.push(MasterEventView::ClientJoined(cs.last(), srv)));
            assert(k2 == rest.len());
            assert(client_id(cs.last()) == n);
            assert(!has_name(cs.drop_last(), n));
            assert(evs[k1] == rest[k1]);
            lemma_join_events_shape(cs.drop_last(), old_cs, srv);
            assert(has_name(cs.drop_last(), n));
            assert(false);
        }
    }
}

/// The leave pass never retires one identity twice.
proof fn lemma_left_events_unique(
    old_cs: Seq<ClientView>,
    new_cs: Seq<ClientView>,
    srv: ServerView,
    n: Option<Seq<char>>,
    k1: int,
    k2: int,
)
    requires
        0 <= k1 < k2 < left_events(old_cs, new_cs, srv).len(),
        is_left_of(left_events(old_cs, new_cs, srv)[k1], n),
    ensures
        !is_left_of(left_events(old_cs, new_cs, srv)[k2], n),
    decreases old_cs.len(),
{
    let evs = left_events(old_cs, new_cs, srv);
    let rest = left_events(old_cs.drop_last(), new_cs, srv);
    assert(old_cs.len() > 0);
    if is_left_of(evs[k2], n) {
        if k2 < rest.len() {
            assert(evs[k1] == rest[k1]);
            assert(evs[k2] == rest[k2]);
            lemma_left_events_unique(old_cs.drop_last(), new_cs, srv, n, k1, k2);
        } else {
            assert(evs == rest.push(MasterEventView::ClientLeft(old_cs.last(), srv)));
            assert(k2 == rest.len());
            assert(client_id(old_cs.last()) == n);
            assert(!has_name(old_cs.drop_last(), n));
            assert(evs[k1] == rest[k1]);
            lemma_left_events_shape(old_cs.drop_last(), new_cs, srv);
            assert(has_name(old_cs.drop_last(), n));
            assert(false);
        }
    }
}

/// For a server present in both snapshots: exactly the identities that
/// entered are joined, exactly those that vanished are retired — at most
/// once each — an identity present on both sides produces no event at
/// all, and every event carries the server as the new snapshot reports
/// it.
pub proof fn lemma_client_transition_events(old_s: ServerView, new_s: ServerView, n: Option<Seq<char>>)
    ensures
        (exists|k: int|
            0 <= k < pair_events(old_s, new_s).len() && ((#[trigger] pair_events(old_s, new_s)[k])
                matches MasterEventView::ClientJoined(c, s) && client_id(c) == n)) <==> (has_name(
            clients_of(new_s),
            n,
        ) && !has_name(clients_of(old_s), n)),
        (exists|k: int|
            0 <= k < pair_events(old_s, new_s).len() && ((#[trigger] pair_events(old_s, new_s)[k])
                matches MasterEventView::ClientLeft(c, s) && client_id(c) == n)) <==> (has_name(
            clients_of(old_s),
            n,
        ) && !has_name(clients_of(new_s), n)),
        forall|k: int|
            0 <= k < pair_events(old_s, new_s).len() ==> match (#[trigger] pair_events(
                old_s,
                new_s,
            )[k]) {
                MasterEventView::ClientJoined(c, s) => s == new_s,
                MasterEventView::ClientLeft(c, s) => s == new_s,
                MasterEventView::ServerWentOnline(_) => false,
                MasterEventView::ServerWentOffline(_) => false,
            },
        forall|k1: int, k2: int|
            0 <= k1 < k2 < pair_events(old_s, new_s).len() && is_join_of(
                #[trigger] pair_events(old_s, new_s)[k1],
                n,
            ) ==> !is_join_of(#[trigger] pair_events(old_s, new_s)[k2], n),
        forall|k1: int, k2: int|
            0 <= k1 < k2 < pair_events(old_s, new_s).len() && is_left_of(
                #[trigger] pair_events(old_s, new_s)[k1],
                n,
            ) ==> !is_left_of(#[trigger] pair_events(old_s, new_s)[k2], n),
{
    let oc = clients_of(old_s);
    let nc = clients_of(new_s);
    let joins = join_events(nc, oc, new_s);
    let leaves = left_events(oc, nc, new_s);
    let pair = pair_events(old_s, new_s);
    lemma_join_events_shape(nc, oc, new_s);
    lemma_left_events_shape(oc, nc, new_s);
    if has_name(nc, n) && !has_name(oc, n) {
        lemma_join_events_complete(nc, oc, new_s, n);
        let k = choose|k: int|
            0 <= k < joins.len() && ((#[trigger] joins[k]) matches MasterEventView::ClientJoined(
                c,
                s,
            ) && client_id(c) == n);
        assert(pair[k] == joins[k]);
    }
    if has_name(oc, n) && !has_name(nc, n) {
        lemma_left_events_complete(oc, nc, new_s, n);
        let k = choose|k: int|
            0 <= k < leaves.len() && ((#[trigger] leaves[k]) matches MasterEventView::ClientLeft(
                c,
                s,
            ) && client_id(c) == n);
        assert(pair[joins.len() + k] == leaves[k]);
    }
    assert forall|k: int| 0 <= k < pair.len() implies match (#[trigger] pair[k]) {
        MasterEventView::ClientJoined(c, s) => s == new_s,
        MasterEventView::ClientLeft(c, s) => s == new_s,
        MasterEventView::ServerWentOnline(_) => false,
        MasterEventView::ServerWentOffline(_) => false,
    } by {
        if k < joins.len() {
            assert(pair[k] == joins[k]);
        } else {
            assert(pair[k] == leaves[k - joins.len()]);
        }
    }
    assert forall|k1: int, k2: int|
        0 <= k1 < k2 < pair.len() && is_join_of(#[trigger] pair[k1], n) implies !is_join_of(
        #[trigger] pair[k2],
        n,
    ) by {
        if is_join_of(pair[k2], n) {
            if k1 >= joins.len() {
                assert(pair[k1] == leaves[k1 - joins.len()]);
            } else if k2 >= joins.len() {
                assert(pair[k2] == leaves[k2 - joins.len()]);
            } else {
                assert(pair[k1] == joins[k1]);
                assert(pair[k2] == joins[k2]);
                lemma_join_events_unique(nc, oc, new_s, n, k1, k2);
            }
        }
    }
    assert forall|k1: int, k2: int|
        0 <= k1 < k2 < pair.len() && is_left_of(#[trigger] pair[k1], n) implies !is_left_of(
        #[trigger] pair[k2],
        n,
    ) by {
        if is_left_of(pair[k2], n) {
            if k1 < joins.len() {
                assert(pair[k1] == joins[k1]);
            } else if k2 < joins.len() {
                assert(pair[k2] == joins[k2]);
            } else {
                assert(pair[k1] == leaves[k1 - joins.len()]);
                assert(pair[k2] == leaves[k2 - joins.len()]);
                lemma_left_events_unique(oc, nc, new_s, n, k1 - joins.len(), k2 - joins.len());
            }
        }
    }
}

/// Whether an event joins identity `n` carrying the server payload `srv`.
pub open spec fn is_join_at(e: MasterEventView, n: Option<Seq<char>>, srv: ServerView) -> bool {
    e matches MasterEventView::ClientJoined(c, s) && client_id(c) == n && s == srv
}

/// Whether an event retires identity `n` carrying the server payload `srv`.
pub open spec fn is_left_at(e: MasterEventView, n: Option<Seq<char>>, srv: ServerView) -> bool {
    e matches MasterEventView::ClientLeft(c, s) && client_id(c) == n && s == srv
}

/// The offline pass holds nothing but offline events.
proof fn lemma_offline_part_shape(
    ss: Seq<(Seq<char>, ServerView)>,
    new: Seq<(Seq<char>, ServerView)>,
)
    ensures
        forall|k: int|
            0 <= k < offline_part(ss, new).len() ==> (#[trigger] offline_part(ss, new)[k]) matches
                MasterEventView::ServerWentOffline(s),
    decreases ss.len(),
{
    if ss.len() > 0 {
        lemma_offline_part_shape(ss.drop_last(), new);
    }
}

/// Over the online pass, a join of identity `n` with payload `ns` exists
/// exactly when some entry carries `ns` — and `ns` marks exactly the
/// entries keyed `a` — and `n` entered the server at `a`.
proof fn lemma_online_join_at(
    old: Seq<(Seq<char>, ServerView)>,
    ss: Seq<(Seq<char>, ServerView)>,
    a: Seq<char>,
    os: ServerView,
    ns: ServerView,
    n: Option<Seq<char>>,
)
    requires
        forall|i: int| 0 <= i < ss.len() ==> ((#[trigger] ss[i]).1 == ns <==> ss[i].0 == a),
        assoc_lookup(old, a) == Some(os),
    ensures
        (exists|k: int|
            0 <= k < online_part(old, ss).len() && is_join_at(
                #[trigger] online_part(old, ss)[k],
                n,
                ns,
            )) <==> ((exists|i: int| 0 <= i < ss.len() && (#[trigger] ss[i]).0 == a) && has_name(
            clients_of(ns),
            n,
        ) && !has_name(clients_of(os), n)),
    decreases ss.len(),
{
    let evs = online_part(old, ss);
    if ss.len() > 0 {
        let t = ss.drop_last();
        let rest = online_part(old, t);
        assert forall|i: int|
            0 <= i < t.len() implies ((#[trigger] t[i]).1 == ns <==> t[i].0 == a) by {
            assert(t[i] == ss[i]);
        }
        lemma_online_join_at(old, t, a, os, ns, n);
        let p = ss.last();
        assert(p == ss[ss.len() - 1]);
        match assoc_lookup(old, p.0) {
            Some(os2) => {
                let pair = pair_events(os2, p.1);
                lemma_client_transition_events(os2, p.1, n);
                assert(evs == rest + pair);
                if exists|k: int| 0 <= k < evs.len() && is_join_at(#[trigger] evs[k], n, ns) {
                    let k = choose|k: int|
                        0 <= k < evs.len() && is_join_at(#[trigger] evs[k], n, ns);
                    if k < rest.len() {
                        assert(evs[k] == rest[k]);
                        let i = choose|i: int| 0 <= i < t.len() && (#[trigger] t[i]).0 == a;
                        assert(ss[i] == t[i]);
                    } else {
                        assert(pair[k - rest.len()] == evs[k]);
                        assert(p.1 == ns);
                        assert(p.0 == a);
                        assert(os2 == os);
                    }
                }
                if (exists|i: int| 0 <= i < ss.len() && (#[trigger] ss[i]).0 == a) && has_name(
                    clients_of(ns),
                    n,
                ) && !has_name(clients_of(os), n) {
                    let i = choose|i: int| 0 <= i < ss.len() && (#[trigger] ss[i]).0 == a;
                    if i < ss.len() - 1 {
                        assert(t[i] == ss[i]);
                        let k = choose|k: int|
                            0 <= k < rest.len() && is_join_at(#[trigger] rest[k], n, ns);
                        assert(evs[k] == rest[k]);
                    } else {
                        assert(p.0 == a);
                        assert(p.1 == ns);
                        assert(os2 == os);
                        let k = choose|k: int|
                            0 <= k < pair.len() && ((#[trigger] pair[k]) matches
                                MasterEventView::ClientJoined(c, s) && client_id(c) == n);
                        assert(is_join_at(pair[k], n, ns));
                        assert(evs[rest.len() + k] == pair[k]);
                    }
                }
            },
            None => {
                assert(evs == rest.push(MasterEventView::ServerWentOnline(p.1)));
                assert(p.0 != a);
                if exists|k: int| 0 <= k < evs.len() && is_join_at(#[trigger] evs[k], n, ns) {
                    let k = choose|k: int|
                        0 <= k < evs.len() && is_join_at(#[trigger] evs[k], n, ns);
                    assert(k < rest.len());
                    assert(evs[k] == rest[k]);
                    let i = choose|i: int| 0 <= i < t.len() && (#[trigger] t[i]).0 == a;
                    assert(ss[i] == t[i]);
                }
                if (exists|i: int| 0 <= i < ss.len() && (#[trigger] ss[i]).0 == a) && has_name(
                    clients_of(ns),
                    n,
                ) && !has_name(clients_of(os), n) {
                    let i = choose|i: int| 0 <= i < ss.len() && (#[trigger] ss[i]).0 == a;
                    assert(i < ss.len() - 1);
                    assert(t[i] == ss[i]);
                    let k = choose|k: int|
                        0 <= k < rest.len() && is_join_at(#[trigger] rest[k], n, ns);
                    assert(evs[k] == rest[k]);
                }
            },
        }
    }
}

/// Over the online pass, a leave of identity `n` with payload `ns` exists
/// exactly when some entry carries `ns` — and `ns` marks exactly the
/// entries keyed `a` — and `n` vanished from the server at `a`.
proof fn lemma_online_left_at(
    old: Seq<(Seq<char>, ServerView)>,
    ss: Seq<(Seq<char>, ServerView)>,
    a: Seq<char>,
    os: ServerView,
    ns: ServerView,
    n: Option<Seq<char>>,
)
    requires
        forall|i: int| 0 <= i < ss.len() ==> ((#[trigger] ss[i]).1 == ns <==> ss[i].0 == a),
        assoc_lookup(old, a) == Some(os),
    ensures
        (exists|k: int|
            0 <= k < online_part(old, ss).len() && is_left_at(
                #[trigger] online_part(old, ss)[k],
                n,
                ns,
            )) <==> ((exists|i: int| 0 <= i < ss.len() && (#[trigger] ss[i]).0 == a) && has_name(
            clients_of(os),
            n,
        ) && !has_name(clients_of(ns), n)),
    decreases ss.len(),
{
    let evs = online_part(old, ss);
    if ss.len() > 0 {
        let t = ss.drop_last();
        let rest = online_part(old, t);
        assert forall|i: int|
            0 <= i < t.len() implies ((#[trigger] t[i]).1 == ns <==> t[i].0 == a) by {
            assert(t[i] == ss[i]);
        }
        lemma_online_left_at(old, t, a, os, ns, n);
        let p = ss.last();
        assert(p == ss[ss.len() - 1]);
        match assoc_lookup(old, p.0) {
            Some(os2) => {
                let pair = pair_events(os2, p.1);
                lemma_client_transition_events(os2, p.1, n);
                assert(evs == rest + pair);
                if exists|k: int| 0 <= k < evs.len() && is_left_at(#[trigger] evs[k], n, ns) {
                    let k = choose|k: int|
                        0 <= k < evs.len() && is_left_at(#[trigger] evs[k], n, ns);
                    if k < rest.len() {
                        assert(evs[k] == rest[k]);
                        let i = choose|i: int| 0 <= i < t.len() && (#[trigger] t[i]).0 == a;
                        assert(ss[i] == t[i]);
                    } else {
                        assert(pair[k - rest.len()] == evs[k]);
                        assert(p.1 == ns);
                        assert(p.0 == a);
                        assert(os2 == os);
                    }
                }
                if (exists|i: int| 0 <= i < ss.len() && (#[trigger] ss[i]).0 == a) && has_name(
                    clients_of(os),
                    n,
                ) && !has_name(clients_of(ns), n) {
                    let i = choose|i: int| 0 <= i < ss.len() && (#[trigger] ss[i]).0 == a;
                    if i < ss.len() - 1 {
                        assert(t[i] == ss[i]);
                        let k = choose|k: int|
                            0 <= k < rest.len() && is_left_at(#[trigger] rest[k], n, ns);
                        assert(evs[k] == rest[k]);
                    } else {
                        assert(p.0 == a);
                        assert(p.1 == ns);
                        assert(os2 == os);
                        let k = choose|k: int|
                            0 <= k < pair.len() && ((#[trigger] pair[k]) matches
                                MasterEventView::ClientLeft(c, s) && client_id(c) == n);
                        assert(is_left_at(pair[k], n, ns));
                        assert(evs[rest.len() + k] == pair[k]);
                    }
                }
            },
            None => {
                assert(evs == rest.push(MasterEventView::ServerWentOnline(p.1)));
                assert(p.0 != a);
                if exists|k: int| 0 <= k < evs.len() && is_left_at(#[trigger] evs[k], n, ns) {
                    let k = choose|k: int|
                        0 <= k < evs.len() && is_left_at(#[trigger] evs[k], n, ns);
                    assert(k < rest.len());
                    assert(evs[k] == rest[k]);
                    let i = choose|i: int| 0 <= i < t.len() && (#[trigger] t[i]).0 == a;
                    assert(ss[i] == t[i]);
                }
                if (exists|i: int| 0 <= i < ss.len() && (#[trigger] ss[i]).0 == a) && has_name(
                    clients_of(os),
                    n,
                ) && !has_name(clients_of(ns), n) {
                    let i = choose|i: int| 0 <= i < ss.len() && (#[trigger] ss[i]).0 == a;
                    assert(i < ss.len() - 1);
                    assert(t[i] == ss[i]);
                    let k = choose|k: int|
                        0 <= k < rest.len() && is_left_at(#[trigger] rest[k], n, ns);
                    assert(evs[k] == rest[k]);
                }
            },
        }
    }
}

/// For a server present in both snapshots, at address `a`: over the whole
/// diff, a join of identity `n` carrying that server exists exactly when
/// `n` entered it, and a leave exactly when `n` vanished from it; an
/// identity on both sides gets no event for this server.
pub proof fn lemma_diff_client_transition(
    old: ServerListMap,
    new: ServerListMap,
    a: Seq<char>,
    n: Option<Seq<char>>,
)
    requires
        old.wf(),
        new.wf(),
        old.spec_lookup(a) is Some,
        new.spec_lookup(a) is Some,
    ensures
        ({
            let os = old.spec_lookup(a).unwrap();
            let ns = new.spec_lookup(a).unwrap();
            &&& ((exists|k: int|
                0 <= k < diff_spec(old@, new@).len() && is_join_at(
                    #[trigger] diff_spec(old@, new@)[k],
                    n,
                    ns,
                )) <==> (has_name(clients_of(ns), n) && !has_name(clients_of(os), n)))
            &&& ((exists|k: int|
                0 <= k < diff_spec(old@, new@).len() && is_left_at(
                    #[trigger] diff_spec(old@, new@)[k],
                    n,
                    ns,
                )) <==> (has_name(clients_of(os), n) && !has_name(clients_of(ns), n)))
        }),
{
    let os = old.spec_lookup(a).unwrap();
    let ns = new.spec_lookup(a).unwrap();
    crate::snapshot::lemma_lookup_none(new@, a);
    let j = choose|i: int| 0 <= i < new@.len() && (#[trigger] new@[i]).0 == a;
    assert forall|k: int| 0 <= k < j implies (#[trigger] new@[k]).0 != a by {
        assert(new@[k].0 != new@[j].0);
    }
    crate::snapshot::lemma_lookup_at(new@, a, j);
    assert(new@[j].1 == ns);
    assert(ns.addresses[0] == a);
    assert forall|i: int|
        0 <= i < new@.len() implies ((#[trigger] new@[i]).1 == ns <==> new@[i].0 == a) by {
        if new@[i].0 == a {
            assert forall|k: int| 0 <= k < i implies (#[trigger] new@[k]).0 != a by {
                assert(new@[k].0 != new@[i].0);
            }
            crate::snapshot::lemma_lookup_at(new@, a, i);
        }
        if new@[i].1 == ns {
            assert(new@[i].1.addresses[0] == new@[i].0);
        }
    }
    lemma_online_join_at(old@, new@, a, os, ns, n);
    lemma_online_left_at(old@, new@, a, os, ns, n);
    lemma_offline_part_shape(old@, new@);
    let online = online_part(old@, new@);
    let offline = offline_part(old@, new@);
    let all = diff_spec(old@, new@);
    assert(all == online + offline);
    if exists|k: int| 0 <= k < all.len() && is_join_at(#[trigger] all[k], n, ns) {
        let k = choose|k: int| 0 <= k < all.len() && is_join_at(#[trigger] all[k], n, ns);
        if k < online.len() {
            assert(all[k] == online[k]);
        } else {
            assert(all[k] == offline[k - online.len()]);
        }
    }
    if has_name(clients_of(ns), n) && !has_name(clients_of(os), n) {
        let k = choose|k: int| 0 <= k < online.len() && is_join_at(#[trigger] online[k], n, ns);
        assert(all[k] == online[k]);
    }
    if exists|k: int| 0 <= k < all.len() && is_left_at(#[trigger] all[k], n, ns) {
        let k = choose|k: int| 0 <= k < all.len() && is_left_at(#[trigger] all[k], n, ns);
        if k < online.len() {
            assert(all[k] == online[k]);
        } else {
            assert(all[k] == offline[k - online.len()]);
        }
    }
    if has_name(clients_of(os), n) && !has_name(clients_of(ns), n) {
        let k = choose|k: int| 0 <= k < online.len() && is_left_at(#[trigger] online[k], n, ns);
        assert(all[k] == online[k]);
    }
}

/// Whether any of the first `upto` clients of `cs` carries `name`.
fn contains_name(cs: &Vec<Client>, upto: usize, name: &Option<String>) -> (r: bool)
    requires
        upto <= cs.len(),
    ensures
        r == has_name(cs.deep_view().take(upto as int), name.deep_view()),
{
    let mut k: usize = 0;
    while k < upto
        invariant
            k <= upto <= cs@.len(),
            forall|k1: int|
                0 <= k1 < k ==> client_id(#[trigger] cs.deep_view()[k1]) != name.deep_view(),
        decreases upto - k,
    {
        proof {
            assert(cs.deep_view()[k as int] == cs@[k as int]@);
        }
        if opt_string_eq(&cs[k].name, name) {
            proof {
                assert(cs.deep_view().take(upto as int)[k as int] == cs.deep_view()[k as int]);
            }
            return true;
        }
        k += 1;
    }
    proof {
        assert forall|k1: int|
            0 <= k1 < upto implies client_id(#[trigger] cs.deep_view().take(upto as int)[k1])
            != name.deep_view() by {
            assert(cs.deep_view().take(upto as int)[k1] == cs.deep_view()[k1]);
        }
    }
    false
}

/// Appends the client events for a server present in both snapshots:
/// joins first, then leaves, both carrying the new server payload.
fn push_pair_events(events: &mut Vec<MasterEvent>, old_server: &Server, server: &Server)
    ensures
        final(events).deep_view() == old(events).deep_view() + pair_events(old_server@, server@),
{
    let empty: Vec<Client> = Vec::new();
    let old_cs: &Vec<Client> = match &old_server.info.clients {
        Some(v) => v,
        None => &empty,
    };
    let new_cs: &Vec<Client> = match &server.info.clients {
        Some(v) => v,
        None => &empty,
    };
    proof {
        assert(empty.deep_view() =~= Seq::<ClientView>::empty());
        assert(old_cs.deep_view() == clients_of(old_server@));
        assert(new_cs.deep_view() == clients_of(server@));
    }
    let ghost base = events.deep_view();
    let ghost old_v = old_cs.deep_view();
    let ghost new_v = new_cs.deep_view();
    let mut j: usize = 0;
    while j < new_cs.len()
        invariant
            j <= new_cs@.len(),
            new_v == new_cs.deep_view(),
            old_v == old_cs.deep_view(),
            events.deep_view() == base + join_events(new_v.take(j as int), old_v, server@),
        decreases new_cs@.len() - j,
    {
        proof {
            assert(new_v[j as int] == new_cs@[j as int]@);
        }
        let in_old = contains_name(old_cs, old_cs.len(), &new_cs[j].name);
        let seen = contains_name(new_cs, j, &new_cs[j].name);
        proof {
            assert(old_v.take(old_cs@.len() as int) =~= old_v);
        }
        if !in_old && !seen {
            let ev = MasterEvent::ClientJoined(new_cs[j].clone(), server.clone());
            let ghost evv = ev@;
            let ghost pre = events.deep_view();
            events.push(ev);
            proof {
                assert(events.deep_view() =~= pre.push(evv));
            }
        }
        proof {
            assert(new_v.take(j + 1).drop_last() =~= new_v.take(j as int));
            assert(new_v.take(j + 1).last() == new_v[j as int]);
        }
        j += 1;
    }
    proof {
        assert(new_v.take(new_cs@.len() as int) =~= new_v);
    }
    let ghost mid = events.deep_view();
    let mut j: usize = 0;
    while j < old_cs.len()
        invariant
            j <= old_cs@.len(),
            new_v == new_cs.deep_view(),
            old_v == old_cs.deep_view(),
            events.deep_view() == mid + left_events(old_v.take(j as int), new_v, server@),
        decreases old_cs@.len() - j,
    {
        proof {
            assert(old_v[j as int] == old_cs@[j as int]@);
        }
        let in_new = contains_name(new_cs, new_cs.len(), &old_cs[j].name);
        let seen = contains_name(old_cs, j, &old_cs[j].name);
        proof {
            assert(new_v.take(new_cs@.len() as int) =~= new_v);
        }
        if !in_new && !seen {
            let ev = MasterEvent::ClientLeft(old_cs[j].clone(), server.clone());
            let ghost evv = ev@;
            let ghost pre = events.deep_view();
            events.push(ev);
            proof {
                assert(events.deep_view() =~= pre.push(evv));
            }
        }
        proof {
            assert(old_v.take(j + 1).drop_last() =~= old_v.take(j as int));
            assert(old_v.take(j + 1).last() == old_v[j as int]);
        }
        j += 1;
    }
    proof {
        assert(old_v.take(old_cs@.len() as int) =~= old_v);
        assert(events.deep_view() == base + join_events(new_v, old_v, server@) + left_events(
            old_v,
            new_v,
            server@,
        ));
        assert(base + join_events(new_v, old_v, server@) + left_events(old_v, new_v, server@)
            =~= base + pair_events(old_server@, server@));
    }
}

/// Computes the events between two snapshots. Pure: neither snapshot is
/// touched, and the result is exactly `diff_spec` of the two.
pub fn diff(old: &ServerListMap, new: &ServerListMap) -> (events: Vec<MasterEvent>)
    ensures
        events.deep_view() == diff_spec(old@, new@),
{
    let mut events: Vec<MasterEvent> = Vec::new();
    proof {
        assert(events.deep_view() =~= Seq::<MasterEventView>::empty());
    }
    let mut i: usize = 0;
    let n = new.servers.len();
    while i < n
        invariant
            i <= n,
            n == new@.len(),
            events.deep_view() == online_part(old@, new@.take(i as int)),
        decreases n - i,
    {
        proof {
            assert(new@[i as int] == new.servers@[i as int].deep_view());
        }
        let pair = &new.servers[i];
        match old.get(&pair.0) {
            Some(old_server) => {
                push_pair_events(&mut events, old_server, &pair.1);
            },
            None => {
                let ev = MasterEvent::ServerWentOnline(pair.1.clone());
                let ghost evv = ev@;
                let ghost pre = events.deep_view();
                events.push(ev);
                proof {
                    assert(events.deep_view() =~= pre.push(evv));
                }
            },
        }
        proof {
            assert(new@.take(i + 1).drop_last() =~= new@.take(i as int));
            assert(new@.take(i + 1).last() == new@[i as int]);
        }
        i += 1;
    }
    proof {
        assert(new@.take(n as int) =~= new@);
    }
    let ghost mid = events.deep_view();
    let mut i: usize = 0;
    let n = old.servers.len();
    while i < n
        invariant
            i <= n,
            n == old@.len(),
            events.deep_view() == mid + offline_part(old@.take(i as int), new@),
            mid == online_part(old@, new@),
        decreases n - i,
    {
        proof {
            assert(old@[i as int] == old.servers@[i as int].deep_view());
        }
        let pair = &old.servers[i];
        if !new.contains_key(&pair.0) {
            let ev = MasterEvent::ServerWentOffline(pair.1.clone());
            let ghost evv = ev@;
            let ghost pre = events.deep_view();
            events.push(ev);
            proof {
                assert(events.deep_view() =~= pre.push(evv));
            }
        }
        proof {
            assert(old@.take(i + 1).drop_last() =~= old@.take(i as int));
            assert(old@.take(i + 1).last() == old@[i as int]);
        }
        i += 1;
    }
    proof {
        assert(old@.take(n as int) =~= old@);
    }
    events
}

} // verus!
