use vstd::prelude::*;

verus! {

/// The map from live session ids to the device each one acts on.
/// At most one entry per session id.
pub struct SessionRegistry {
    entries: Vec<(String, String)>,
}

pub open spec fn pairs_view(s: Seq<(String, String)>) -> Seq<(Seq<char>, Seq<char>)> {
    s.map_values(|p: (String, String)| (p.0@, p.1@))
}

/// The map that a list of (session, device) pairs describes; a later pair wins.
pub open spec fn pairs_map(s: Seq<(Seq<char>, Seq<char>)>) -> Map<Seq<char>, Seq<char>>
    decreases s.len(),
{
    if s.len() == 0 {
        Map::empty()
    } else {
        pairs_map(s.drop_last()).insert(s.last().0, s.last().1)
    }
}

pub open spec fn keys_unique(s: Seq<(Seq<char>, Seq<char>)>) -> bool {
    forall|i: int, j: int| 0 <= i < s.len() && 0 <= j < s.len() && i != j ==> #[trigger] s[i].0 != #[trigger] s[j].0
}

proof fn lemma_pairs_map_lookup(s: Seq<(Seq<char>, Seq<char>)>)
    requires
        keys_unique(s),
    ensures
        forall|i: int| 0 <= i < s.len() ==> #[trigger] pairs_map(s).contains_key(s[i].0) && pairs_map(s)[s[i].0] == s[i].1,
        forall|k: Seq<char>| #[trigger] pairs_map(s).contains_key(k) ==> exists|i: int| 0 <= i < s.len() && s[i].0 == k,
    decreases s.len(),
{
    if s.len() > 0 {
        let p = s.drop_last();
        assert(keys_unique(p));
        lemma_pairs_map_lookup(p);
        assert forall|i: int| 0 <= i < s.len() implies #[trigger] pairs_map(s).contains_key(s[i].0) && pairs_map(s)[s[i].0] == s[i].1 by {
            if i < s.len() - 1 {
                assert(p[i] == s[i]);
                assert(pairs_map(p).contains_key(p[i].0));
                assert(s[i].0 != s[s.len() - 1].0);
            } else {
                assert(s[i] == s.last());
            }
        }
        assert forall|k: Seq<char>| #[trigger] pairs_map(s).contains_key(k) implies exists|i: int| 0 <= i < s.len() && s[i].0 == k by {
            if k != s.last().0 {
                assert(pairs_map(p).contains_key(k));
                let i = choose|i: int| 0 <= i < p.len() && p[i].0 == k;
                assert(s[i] == p[i]);
            } else {
                assert(s[s.len() - 1].0 == k);
            }
        }
    }
}

impl View for SessionRegistry {
    type V = Map<Seq<char>, Seq<char>>;

    closed spec fn view(&self) -> Map<Seq<char>, Seq<char>> {
        pairs_map(pairs_view(self.entries@))
    }
}

impl SessionRegistry {
    /// No two entries share a session id.
    pub closed spec fn wf(&self) -> bool {
        keys_unique(pairs_view(self.entries@))
    }

    pub fn new() -> (r: SessionRegistry)
        ensures
            r.wf(),
            r@ == Map::<Seq<char>, Seq<char>>::empty(),
    {
        SessionRegistry { entries: Vec::new() }
    }

    fn position(&self, session_id: &String) -> (r: Option<usize>)
        requires
            self.wf(),
        ensures
            match r {
                Some(i) => i < self.entries@.len() && self.entries@[i as int].0@ == session_id@,
                None => forall|i: int| 0 <= i < self.entries@.len() ==> #[trigger] self.entries@[i].0@ != session_id@,
            },
    {
        let mut i: usize = 0;
        while i < self.entries.len()
            invariant
                i <= self.entries@.len(),
                forall|j: int| 0 <= j < i ==> #[trigger] self.entries@[j].0@ != session_id@,
            decreases self.entries@.len() - i,
        {
            if self.entries[i].0 == *session_id {
                return Some(i);
            }
            i = i + 1;
        }
        None
    }

    /// The device a session id is bound to, if the session is live.
    pub fn resolve(&self, session_id: &String) -> (r: Option<String>)
        requires
            self.wf(),
        ensures
            match r {
                Some(d) => self@.contains_key(session_id@) && self@[session_id@] == d@,
                None => !self@.contains_key(session_id@),
            },
    {
        proof {
            lemma_pairs_map_lookup(pairs_view(self.entries@));
        }
        match self.position(session_id) {
            Some(i) => {
                let ghost pv = pairs_view(self.entries@);
                assert(pv[i as int] == (self.entries@[i as int].0@, self.entries@[i as int].1@));
                assert(pairs_map(pv).contains_key(pv[i as int].0));
                Some(self.entries[i].1.clone())
            },
            None => {
                assert forall|i: int| 0 <= i < pairs_view(self.entries@).len() implies #[trigger] pairs_view(self.entries@)[i].0 != session_id@ by {
                    assert(self.entries@[i].0@ != session_id@);
                }
                None
            },
        }
    }

    /// Binds `session_id` to `device_id`, replacing an earlier binding of the same id.
    pub fn register(&mut self, session_id: String, device_id: String)
        requires
            old(self).wf(),
        ensures
            final(self).wf(),
            final(self)@ == old(self)@.insert(session_id@, device_id@),
    {
        self.unregister(&session_id);
        let ghost before = self.entries@;
        let ghost sid = session_id@;
        let ghost did = device_id@;
        self.entries.push((session_id, device_id));
        proof {
            assert(pairs_view(self.entries@).drop_last() =~= pairs_view(before));
            assert(pairs_view(self.entries@).last() == (sid, did));
            lemma_pairs_map_lookup(pairs_view(before));
            assert(!pairs_map(pairs_view(before)).contains_key(sid));
            let pv = pairs_view(self.entries@);
            assert forall|i: int, j: int| 0 <= i < pv.len() && 0 <= j < pv.len() && i != j implies #[trigger] pv[i].0 != #[trigger] pv[j].0 by {
                if i == pv.len() - 1 || j == pv.len() - 1 {
                    let k = if i == pv.len() - 1 { j } else { i };
                    assert(pv[k] == pairs_view(before)[k]);
                    assert(pairs_map(pairs_view(before)).contains_key(pairs_view(before)[k].0));
                    assert(pv[pv.len() - 1] == (sid, did));
                } else {
                    assert(pv[i] == pairs_view(before)[i]);
                    assert(pv[j] == pairs_view(before)[j]);
                }
            }
        }
    }

    /// Removes the binding of `session_id`; nothing happens when there is none.
    pub fn unregister(&mut self, session_id: &String)
        requires
            old(self).wf(),
        ensures
            final(self).wf(),
            final(self)@ == old(self)@.remove(session_id@),
    {
        proof {
            lemma_pairs_map_lookup(pairs_view(self.entries@));
        }
        match self.position(session_id) {
            Some(i) => {
                let ghost before = pairs_view(self.entries@);
                let _removed = self.entries.remove(i);
                proof {
                    let after = pairs_view(self.entries@);
                    assert(after.len() == before.len() - 1);
                    assert forall|j: int| 0 <= j < after.len() implies #[trigger] after[j] == (if j < i { before[j] } else { before[j + 1] }) by {}
                    assert(keys_unique(after)) by {
                        assert forall|a: int, b: int| 0 <= a < after.len() && 0 <= b < after.len() && a != b implies #[trigger] after[a].0 != #[trigger] after[b].0 by {
                            let a1 = if a < i { a } else { a + 1 };
                            let b1 = if b < i { b } else { b + 1 };
                            assert(after[a] == before[a1]);
                            assert(after[b] == before[b1]);
                        }
                    }
                    lemma_pairs_map_lookup(after);
                    assert forall|k: Seq<char>| #[trigger] pairs_map(after).contains_key(k) <==> pairs_map(before).remove(session_id@).contains_key(k) by {
                        if pairs_map(after).contains_key(k) {
                            let j = choose|j: int| 0 <= j < after.len() && after[j].0 == k;
                            let j1 = if j < i { j } else { j + 1 };
                            assert(after[j] == before[j1]);
                            assert(before[i as int].0 == session_id@);
                        }
                        if pairs_map(before).remove(session_id@).contains_key(k) {
                            let j = choose|j: int| 0 <= j < before.len() && before[j].0 == k;
                            assert(before[i as int].0 == session_id@);
                            assert(j != i);
                            let j1 = if j < i { j } else { j - 1 };
                            assert(after[j1] == before[j]);
                        }
                    }
                    assert forall|k: Seq<char>| #[trigger] pairs_map(after).contains_key(k) implies pairs_map(after)[k] == pairs_map(before)[k] by {
                        let j = choose|j: int| 0 <= j < after.len() && after[j].0 == k;
                        let j1 = if j < i { j } else { j + 1 };
                        assert(after[j] == before[j1]);
                    }
                    assert(pairs_map(after) =~= pairs_map(before).remove(session_id@));
                }
            },
            None => {
                proof {
                    let pv = pairs_view(self.entries@);
                    assert forall|k: Seq<char>| #[trigger] pairs_map(pv).contains_key(k) implies k != session_id@ by {
                        let j = choose|j: int| 0 <= j < pv.len() && pv[j].0 == k;
                        assert(self.entries@[j].0@ != session_id@);
                    }
                    assert(pairs_map(pv) =~= pairs_map(pv).remove(session_id@));
                }
            },
        }
    }
}

} // verus!
