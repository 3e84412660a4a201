//! Snapshot: an immutable, address-keyed collection of servers describing
//! the world at one poll tick. A server is keyed by its canonical address,
//! the first entry of its reported address list; when the upstream data
//! holds two servers with the same canonical address, the last one wins.

use vstd::prelude::*;

use crate::structures::Server;
use crate::structures::ServerList;
use crate::structures::ServerView;

verus! {

/// First-match lookup in an association list of servers keyed by address.
pub open spec fn assoc_lookup(s: Seq<(Seq<char>, ServerView)>, addr: Seq<char>) -> Option<
    ServerView,
>
    decreases s.len(),
{
    if s.len() == 0 {
        None
    } else if s.first().0 == addr {
        Some(s.first().1)
    } else {
        assoc_lookup(s.drop_first(), addr)
    }
}

/// The last server in `ss` whose canonical address is `addr`: the
/// last-write-wins rule of snapshot construction.
pub open spec fn last_with_addr(ss: Seq<ServerView>, addr: Seq<char>) -> Option<ServerView>
    decreases ss.len(),
{
    if ss.len() == 0 {
        None
    } else if ss.last().addresses.len() > 0 && ss.last().addresses[0] == addr {
        Some(ss.last())
    } else {
        last_with_addr(ss.drop_last(), addr)
    }
}

/// The lookup misses exactly when no entry carries the address.
pub proof fn lemma_lookup_none(s: Seq<(Seq<char>, ServerView)>, addr: Seq<char>)
    ensures
        (assoc_lookup(s, addr) is None) <==> (forall|k: int|
            0 <= k < s.len() ==> (#[trigger] s[k]).0 != addr),
    decreases s.len(),
{
    if s.len() > 0 {
        let t = s.drop_first();
        lemma_lookup_none(t, addr);
        assert(s[0] == s.first());
        if s.first().0 != addr {
            if forall|k: int| 0 <= k < t.len() ==> (#[trigger] t[k]).0 != addr {
                assert forall|k: int| 0 <= k < s.len() implies (#[trigger] s[k]).0 != addr by {
                    if k > 0 {
                        assert(t[k - 1] == s[k]);
                    }
                }
            } else {
                let k = choose|k: int| 0 <= k < t.len() && (#[trigger] t[k]).0 == addr;
                assert(s[k + 1] == t[k]);
            }
        }
    }
}

/// The lookup returns the first entry that carries the address.
pub proof fn lemma_lookup_at(s: Seq<(Seq<char>, ServerView)>, addr: Seq<char>, j: int)
    requires
        0 <= j < s.len(),
        s[j].0 == addr,
        forall|k: int| 0 <= k < j ==> (#[trigger] s[k]).0 != addr,
    ensures
        assoc_lookup(s, addr) == Some(s[j].1),
    decreases j,
{
    assert(s[0] == s.first());
    if j > 0 {
        let t = s.drop_first();
        assert forall|k: int| 0 <= k < j - 1 implies (#[trigger] t[k]).0 != addr by {
            assert(t[k] == s[k + 1]);
        }
        assert(t[j - 1] == s[j]);
        lemma_lookup_at(t, addr, j - 1);
    }
}

/// Two lists that agree entry-by-entry on one address look it up alike.
pub proof fn lemma_lookup_agree(
    s1: Seq<(Seq<char>, ServerView)>,
    s2: Seq<(Seq<char>, ServerView)>,
    addr: Seq<char>,
)
    requires
        s1.len() == s2.len(),
        forall|k: int|
            0 <= k < s1.len() ==> ((#[trigger] s1[k]).0 == addr <==> (#[trigger] s2[k]).0 == addr),
        forall|k: int| 0 <= k < s1.len() && (#[trigger] s1[k]).0 == addr ==> s1[k].1 == s2[k].1,
    ensures
        assoc_lookup(s1, addr) == assoc_lookup(s2, addr),
    decreases s1.len(),
{
    if s1.len() > 0 {
        assert(s1[0] == s1.first());
        assert(s2[0] == s2.first());
        if s1.first().0 != addr {
            let t1 = s1.drop_first();
            let t2 = s2.drop_first();
            assert forall|k: int|
                0 <= k < t1.len() implies ((#[trigger] t1[k]).0 == addr <==> (#[trigger] t2[k]).0
                == addr) by {
                assert(t1[k] == s1[k + 1]);
                assert(t2[k] == s2[k + 1]);
            }
            assert forall|k: int|
                0 <= k < t1.len() && (#[trigger] t1[k]).0 == addr implies t1[k].1 == t2[k].1 by {
                assert(t1[k] == s1[k + 1]);
                assert(t2[k] == s2[k + 1]);
            }
            lemma_lookup_agree(t1, t2, addr);
        }
    }
}

/// Appending an entry only fills an address that missed before.
pub proof fn lemma_lookup_push(
    s: Seq<(Seq<char>, ServerView)>,
    p: (Seq<char>, ServerView),
    addr: Seq<char>,
)
    ensures
        assoc_lookup(s.push(p), addr) == (match assoc_lookup(s, addr) {
            Some(v) => Some(v),
            None => if p.0 == addr {
                Some(p.1)
            } else {
                None
            },
        }),
    decreases s.len(),
{
    if s.len() == 0 {
        assert(s.push(p).first() == p);
    } else {
        assert(s.push(p).first() == s.first());
        assert(s.push(p).drop_first() =~= s.drop_first().push(p));
        lemma_lookup_push(s.drop_first(), p, addr);
    }
}

/// A snapshot: servers keyed by canonical address, one entry per address.
pub struct ServerListMap {
    pub servers: Vec<(String, Server)>,
}

impl View for ServerListMap {
    type V = Seq<(Seq<char>, ServerView)>;

    open spec fn view(&self) -> Seq<(Seq<char>, ServerView)> {
        self.servers.deep_view()
    }
}

impl ServerListMap {
    /// Well-formedness: addresses are pairwise distinct, and each entry is
    /// keyed by the first entry of its server's address list.
    pub open spec fn wf(self) -> bool {
        &&& forall|i: int, j: int|
            0 <= i < j < self@.len() ==> (#[trigger] self@[i]).0 != (#[trigger] self@[j]).0
        &&& forall|i: int|
            0 <= i < self@.len() ==> ((#[trigger] self@[i]).1.addresses.len() > 0
                && self@[i].1.addresses[0] == self@[i].0)
    }

    /// The server filed under `addr`, if any.
    pub open spec fn spec_lookup(self, addr: Seq<char>) -> Option<ServerView> {
        assoc_lookup(self@, addr)
    }

    /// Whether a server is filed under `addr`.
    pub open spec fn contains_addr(self, addr: Seq<char>) -> bool {
        self.spec_lookup(addr) is Some
    }

    /// An empty snapshot.
    pub fn new() -> (r: ServerListMap)
        ensures
            r.wf(),
            r@.len() == 0,
            forall|a: Seq<char>| #[trigger] r.spec_lookup(a) is None,
    {
        let r = ServerListMap { servers: Vec::new() };
        proof {
            assert forall|a: Seq<char>| #[trigger] r.spec_lookup(a) is None by {
                lemma_lookup_none(r@, a);
            }
        }
        r
    }

    /// The server filed under `addr`, if any.
    pub fn get<'a>(&'a self, addr: &String) -> (r: Option<&'a Server>)
        ensures
            match r {
                Some(s) => self.spec_lookup(addr@) == Some(s@),
                None => self.spec_lookup(addr@) is None,
            },
    {
        let mut i: usize = 0;
        let n = self.servers.len();
        while i < n
            invariant
                i <= n,
                n == self@.len(),
                forall|k: int| 0 <= k < i ==> (#[trigger] self@[k]).0 != addr@,
            decreases n - i,
        {
            proof {
                assert(self@[i as int] == self.servers@[i as int].deep_view());
            }
            if self.servers[i].0 == *addr {
                proof {
                    lemma_lookup_at(self@, addr@, i as int);
                }
                return Some(&self.servers[i].1);
            }
            i += 1;
        }
        proof {
            lemma_lookup_none(self@, addr@);
        }
        None
    }

    /// Whether a server is filed under `addr`.
    pub fn contains_key(&self, addr: &String) -> (r: bool)
        ensures
            r == self.contains_addr(addr@),
    {
        self.get(addr).is_some()
    }

    /// Files `server` under `addr`, replacing whatever was there:
    /// the last-write-wins rule.
    pub fn upsert(&mut self, addr: String, server: Server)
        requires
            old(self).wf(),
            server@.addresses.len() > 0,
            server@.addresses[0] == addr@,
        ensures
            final(self).wf(),
            forall|a: Seq<char>|
                #[trigger] final(self).spec_lookup(a) == (if a == addr@ {
                    Some(server@)
                } else {
                    old(self).spec_lookup(a)
                }),
    {
        let ghost old_view = self@;
        let mut i: usize = 0;
        let n = self.servers.len();
        while i < n
            invariant
                i <= n,
                n == self@.len(),
                self@ == old_view,
                old_view == old(self)@,
                forall|i1: int, j1: int|
                    0 <= i1 < j1 < old_view.len() ==> (#[trigger] old_view[i1]).0 != (
                    #[trigger] old_view[j1]).0,
                forall|k: int|
                    0 <= k < old_view.len() ==> ((#[trigger] old_view[k]).1.addresses.len() > 0
                        && old_view[k].1.addresses[0] == old_view[k].0),
                server@.addresses.len() > 0,
                server@.addresses[0] == addr@,
                forall|k: int| 0 <= k < i ==> (#[trigger] self@[k]).0 != addr@,
            decreases n - i,
        {
            proof {
                assert(self@[i as int] == self.servers@[i as int].deep_view());
            }
            if self.servers[i].0 == addr {
                self.servers.set(i, (addr, server));
                proof {
                    let new_view = self@;
                    assert(new_view =~= old_view.update(i as int, (addr@, server@)));
                    assert(new_view[i as int].0 == old_view[i as int].0);
                    assert forall|k: int|
                        0 <= k < new_view.len() implies (#[trigger] new_view[k]).0
                        == old_view[k].0 by {}
                    assert forall|i1: int, j1: int|
                        0 <= i1 < j1 < new_view.len() implies (#[trigger] new_view[i1]).0 != (
                    #[trigger] new_view[j1]).0 by {
                        assert(old_view[i1].0 != old_view[j1].0);
                    }
                    lemma_lookup_at(new_view, addr@, i as int);
                    assert forall|a: Seq<char>|
                        #[trigger] assoc_lookup(new_view, a) == (if a == addr@ {
                            Some(server@)
                        } else {
                            assoc_lookup(old_view, a)
                        }) by {
                        if a != addr@ {
                            lemma_lookup_agree(old_view, new_view, a);
                        }
                    }
                }
                return;
            }
            i += 1;
        }
        proof {
            lemma_lookup_none(old_view, addr@);
        }
        self.servers.push((addr, server));
        proof {
            let new_view = self@;
            assert(new_view =~= old_view.push((addr@, server@)));
            assert forall|a: Seq<char>|
                #[trigger] assoc_lookup(new_view, a) == (if a == addr@ {
                    Some(server@)
                } else {
                    assoc_lookup(old_view, a)
                }) by {
                lemma_lookup_push(old_view, (addr@, server@), a);
            }
        }
    }

    /// Keys the reported server list by canonical address. A server with an
    /// empty address list is dropped; of two servers sharing a canonical
    /// address, the later one wins.
    pub fn from_list(list: &ServerList) -> (r: ServerListMap)
        ensures
            r.wf(),
            forall|a: Seq<char>| #[trigger] r.spec_lookup(a) == last_with_addr(list@, a),
    {
        let mut r = ServerListMap::new();
        let mut i: usize = 0;
        let n = list.servers.len();
        while i < n
            invariant
                i <= n,
                n == list@.len(),
                r.wf(),
                forall|a: Seq<char>|
                    #[trigger] r.spec_lookup(a) == last_with_addr(list@.take(i as int), a),
            decreases n - i,
        {
            let ghost prev = r;
            proof {
                assert(list@[i as int] == list.servers@[i as int]@);
            }
            if list.servers[i].addresses.len() > 0 {
                let addr = list.servers[i].addresses[0].clone();
                let server = list.servers[i].clone();
                proof {
                    assert(server@.addresses[0] == list.servers@[i as int].addresses@[0]@);
                }
                r.upsert(addr, server);
            }
            proof {
                assert(list@.take(i + 1).drop_last() =~= list@.take(i as int));
                assert(list@.take(i + 1).last() == list@[i as int]);
                assert forall|a: Seq<char>|
                    #[trigger] r.spec_lookup(a) == last_with_addr(list@.take(i + 1), a) by {
                    assert(prev.spec_lookup(a) == last_with_addr(list@.take(i as int), a));
                }
            }
            i += 1;
        }
        proof {
            assert(list@.take(n as int) =~= list@);
        }
        r
    }
}

} // verus!
