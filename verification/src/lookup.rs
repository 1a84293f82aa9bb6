//! The connection directory: stream id to entity id, updated as connections
//! come and go, bijective over live sessions.

use vstd::map::*;
use vstd::prelude::*;

verus! {

/// One directory pair.
pub struct ConnPair {
    pub conn: u64,
    pub entity: u64,
}

/// The index of the pair for `c`, or `-1` when none exists.
pub open spec fn find_conn(s: Seq<ConnPair>, c: u64) -> int
    decreases s.len(),
{
    if s.len() == 0 {
        -1
    } else if s[0].conn == c {
        0
    } else {
        let r = find_conn(s.drop_first(), c);
        if r < 0 {
            -1
        } else {
            r + 1
        }
    }
}

/// `find_conn` returns either `-1` with no match present, or the first
/// matching index.
pub proof fn lemma_find_conn(s: Seq<ConnPair>, c: u64)
    ensures
        find_conn(s, c) == -1 ==> forall|i: int| 0 <= i < s.len() ==> s[i].conn != c,
        find_conn(s, c) >= 0 ==> 0 <= find_conn(s, c) < s.len() && s[find_conn(s, c)].conn == c
            && forall|i: int| 0 <= i < find_conn(s, c) ==> s[i].conn != c,
    decreases s.len(),
{
    if s.len() > 0 && s[0].conn != c {
        let t = s.drop_first();
        lemma_find_conn(t, c);
        let r = find_conn(t, c);
        if r < 0 {
            assert forall|i: int| 0 <= i < s.len() implies s[i].conn != c by {
                if i > 0 {
                    assert(t[i - 1] == s[i]);
                }
            }
        } else {
            assert(s[r + 1] == t[r]);
            assert forall|i: int| 0 <= i < r + 1 implies s[i].conn != c by {
                if i > 0 {
                    assert(t[i - 1] == s[i]);
                }
            }
        }
    }
}

/// `find_conn` after a push.
proof fn lemma_find_conn_push(s: Seq<ConnPair>, x: ConnPair, c: u64)
    ensures
        find_conn(s.push(x), c) == if find_conn(s, c) >= 0 {
            find_conn(s, c)
        } else if x.conn == c {
            s.len() as int
        } else {
            -1
        },
    decreases s.len(),
{
    reveal_with_fuel(find_conn, 3);
    if s.len() == 0 {
        assert(s.push(x).drop_first() =~= Seq::<ConnPair>::empty());
        assert(s.push(x)[0] == x);
    } else {
        let t = s.drop_first();
        assert(s.push(x).drop_first() =~= t.push(x));
        assert(s.push(x)[0] == s[0]);
        if s[0].conn != c {
            lemma_find_conn_push(t, x, c);
        }
    }
}

/// The connection directory.
pub struct StreamLookup {
    pairs: Vec<ConnPair>,
}

impl StreamLookup {
    /// Connection ids are unique.
    pub closed spec fn wf(&self) -> bool {
        forall|i: int, j: int|
            0 <= i < j < self.pairs@.len() ==> self.pairs@[i].conn != self.pairs@[j].conn
    }

    /// The map the directory denotes.
    pub closed spec fn view_map(&self) -> Map<u64, u64> {
        Map::new(
            |c: u64| find_conn(self.pairs@, c) >= 0,
            |c: u64| self.pairs@[find_conn(self.pairs@, c)].entity,
        )
    }

    /// An empty directory.
    pub fn new() -> (r: StreamLookup)
        ensures
            r.wf(),
            r.view_map() == Map::<u64, u64>::empty(),
    {
        let r = StreamLookup { pairs: Vec::new() };
        proof {
            assert(r.view_map() =~= Map::<u64, u64>::empty());
        }
        r
    }

    /// The entity bound to a connection, when one is.
    pub fn get(&self, conn: u64) -> (r: Option<u64>)
        requires
            self.wf(),
        ensures
            match r {
                Some(e) => self.view_map().contains_key(conn) && self.view_map()[conn] == e,
                None => !self.view_map().contains_key(conn),
            },
    {
        proof {
            lemma_find_conn(self.pairs@, conn);
        }
        let mut i: usize = 0;
        while i < self.pairs.len()
            invariant
                self.wf(),
                i <= self.pairs@.len(),
                forall|j: int| 0 <= j < i ==> self.pairs@[j].conn != conn,
                find_conn(self.pairs@, conn) == -1 ==> forall|j: int|
                    0 <= j < self.pairs@.len() ==> self.pairs@[j].conn != conn,
                find_conn(self.pairs@, conn) >= 0 ==> 0 <= find_conn(self.pairs@, conn)
                    < self.pairs@.len() && self.pairs@[find_conn(self.pairs@, conn)].conn == conn
                    && forall|j: int|
                    0 <= j < find_conn(self.pairs@, conn) ==> self.pairs@[j].conn != conn,
            decreases self.pairs@.len() - i,
        {
            if self.pairs[i].conn == conn {
                proof {
                    if find_conn(self.pairs@, conn) < i {
                        assert(self.pairs@[find_conn(self.pairs@, conn)].conn != conn);
                    }
                }
                return Some(self.pairs[i].entity);
            }
            i = i + 1;
        }
        None
    }

    /// Binds a connection to an entity. The connection must be new.
    pub fn insert(&mut self, conn: u64, entity: u64)
        requires
            old(self).wf(),
            !old(self).view_map().contains_key(conn),
        ensures
            final(self).wf(),
            final(self).view_map() == old(self).view_map().insert(conn, entity),
    {
        let ghost s0 = self.pairs@;
        proof {
            lemma_find_conn(s0, conn);
        }
        self.pairs.push(ConnPair { conn, entity });
        proof {
            assert forall|c: u64| true implies find_conn(self.pairs@, c) == (if find_conn(s0, c)
                >= 0 {
                find_conn(s0, c)
            } else if c == conn {
                s0.len() as int
            } else {
                -1
            }) by {
                lemma_find_conn_push(s0, self.pairs@.last(), c);
                assert(s0.push(self.pairs@.last()) =~= self.pairs@);
            }
            assert forall|c: u64| find_conn(s0, c) >= 0 implies self.pairs@[find_conn(s0, c)].entity
                == s0[find_conn(s0, c)].entity && c != conn by {
                lemma_find_conn(s0, c);
            }
            assert(self.view_map() =~= old(self).view_map().insert(conn, entity));
        }
    }

    /// The pair index for `conn`, when one exists.
    fn pair_index(&self, conn: u64) -> (r: Option<usize>)
        requires
            self.wf(),
        ensures
            match r {
                Some(i) => i == find_conn(self.pairs@, conn) && i < self.pairs@.len()
                    && self.pairs@[i as int].conn == conn,
                None => find_conn(self.pairs@, conn) == -1,
            },
    {
        proof {
            lemma_find_conn(self.pairs@, conn);
        }
        let mut i: usize = 0;
        while i < self.pairs.len()
            invariant
                self.wf(),
                i <= self.pairs@.len(),
                forall|j: int| 0 <= j < i ==> self.pairs@[j].conn != conn,
                find_conn(self.pairs@, conn) == -1 ==> forall|j: int|
                    0 <= j < self.pairs@.len() ==> self.pairs@[j].conn != conn,
                find_conn(self.pairs@, conn) >= 0 ==> 0 <= find_conn(self.pairs@, conn)
                    < self.pairs@.len() && self.pairs@[find_conn(self.pairs@, conn)].conn == conn
                    && forall|j: int|
                    0 <= j < find_conn(self.pairs@, conn) ==> self.pairs@[j].conn != conn,
            decreases self.pairs@.len() - i,
        {
            if self.pairs[i].conn == conn {
                proof {
                    if find_conn(self.pairs@, conn) < i {
                        assert(self.pairs@[find_conn(self.pairs@, conn)].conn != conn);
                    }
                }
                return Some(i);
            }
            i = i + 1;
        }
        None
    }

    /// Unbinds a connection; absent connections are left alone.
    pub fn remove(&mut self, conn: u64)
        requires
            old(self).wf(),
        ensures
            final(self).wf(),
            final(self).view_map() == old(self).view_map().remove(conn),
    {
        let ghost s0 = self.pairs@;
        let found = self.pair_index(conn);
        match found {
            Some(idx) => {
                self.pairs.remove(idx);
                proof {
                    s0.remove_ensures(idx as int);
                    assert(self.pairs@ =~= s0.remove(idx as int));
                    let sn = self.pairs@;
                    assert forall|c: u64| true implies (find_conn(sn, c) >= 0 <==> (find_conn(s0, c)
                        >= 0 && c != conn)) && (find_conn(sn, c) >= 0 ==> sn[find_conn(
                        sn,
                        c,
                    )].entity == s0[find_conn(s0, c)].entity) by {
                        lemma_find_conn(s0, c);
                        lemma_find_conn(sn, c);
                        if find_conn(s0, c) >= 0 && c != conn {
                            let j = find_conn(s0, c);
                            let jn = if j < idx {
                                j
                            } else {
                                j - 1
                            };
                            assert(sn[jn] == s0[j]);
                            assert(find_conn(sn, c) >= 0);
                        }
                        if find_conn(sn, c) >= 0 {
                            let j2 = find_conn(sn, c);
                            let jo = if j2 < idx {
                                j2
                            } else {
                                j2 + 1
                            };
                            assert(sn[j2] == s0[jo]);
                            assert(find_conn(s0, c) >= 0);
                            let j = find_conn(s0, c);
                            assert(s0[j].conn == c && s0[jo].conn == c);
                            if j != jo {
                                assert(false);
                            }
                        }
                    }
                    assert(self.view_map() =~= old(self).view_map().remove(conn));
                }
            },
            None => {
                proof {
                    assert(self.view_map() =~= old(self).view_map().remove(conn));
                }
            },
        }
    }
}

} // verus!
