use vstd::prelude::*;
use vstd::string::StringExecFns;

verus! {

/// One admitted user: the claimed name and the opaque handle of the
/// session that owns the connection.
pub struct RosterEntry {
    pub name: String,
    pub session: u64,
}

/// There is an entry under `name`.
pub open spec fn spec_contains(entries: Seq<RosterEntry>, name: Seq<char>) -> bool {
    exists|i: int| 0 <= i < entries.len() && #[trigger] entries[i].name@ == name
}

/// The session handles of every entry whose name differs from `src`, in
/// roster order.
pub open spec fn spec_recipients(entries: Seq<RosterEntry>, src: Seq<char>) -> Seq<u64>
    decreases entries.len(),
{
    if entries.len() == 0 {
        Seq::empty()
    } else {
        let init = spec_recipients(entries.drop_last(), src);
        if entries.last().name@ != src {
            init.push(entries.last().session)
        } else {
            init
        }
    }
}

/// The roster listing: every name in roster order, each followed by a
/// comma and a space.
pub open spec fn spec_csv(entries: Seq<RosterEntry>) -> Seq<char>
    decreases entries.len(),
{
    if entries.len() == 0 {
        Seq::empty()
    } else {
        spec_csv(entries.drop_last()) + entries.last().name@ + ", "@
    }
}

/// The roster of logged-in users: a name-keyed collection of session
/// handles with at most one entry per name. Concurrency control and the
/// sockets themselves live with the caller; this holds the membership
/// rules.
pub struct SharedClients {
    pub entries: Vec<RosterEntry>,
}

impl SharedClients {
    /// No two entries claim the same name.
    pub open spec fn wf(&self) -> bool {
        forall|i: int, j: int|
            #![trigger self.entries@[i], self.entries@[j]]
            0 <= i < j < self.entries@.len() ==> self.entries@[i].name@ != self.entries@[j].name@
    }

    /// Create an empty roster.
    pub fn new() -> (r: SharedClients)
        ensures
            r.wf(),
            r.entries@.len() == 0,
    {
        SharedClients { entries: Vec::new() }
    }

    /// Admit a user: if the name is free the entry is appended and the
    /// session handle handed back admitted; if the name is taken the
    /// roster is unchanged and the handle is handed back rejected.
    pub fn add_user(&mut self, username: &str, session: u64) -> (r: Result<u64, u64>)
        requires
            old(self).wf(),
        ensures
            final(self).wf(),
            spec_contains(old(self).entries@, username@) ==> r == Err::<u64, u64>(session)
                && final(self).entries@ == old(self).entries@,
            !spec_contains(old(self).entries@, username@) ==> r == Ok::<u64, u64>(session)
                && final(self).entries@.len() == old(self).entries@.len() + 1
                && final(self).entries@.last().name@ == username@
                && final(self).entries@.last().session == session
                && final(self).entries@.drop_last() == old(self).entries@,
    {
        let key: String = username.to_owned();
        let n = self.entries.len();
        let mut i: usize = 0;
        while i < n
            invariant
                i <= n,
                n == self.entries@.len(),
                key@ == username@,
                old(self).wf(),
                self.entries@ == old(self).entries@,
                forall|k: int| 0 <= k < i ==> #[trigger] self.entries@[k].name@ != username@,
            decreases n - i,
        {
            if self.entries[i].name.eq(&key) {
                proof {
                    assert(self.entries@[i as int].name@ == username@);
                    assert(spec_contains(self.entries@, username@));
                    assert(self.wf());
                }
                return Err(session);
            }
            i += 1;
        }
        assert(!spec_contains(self.entries@, username@));
        let entry = RosterEntry { name: username.to_owned(), session };
        self.entries.push(entry);
        proof {
            assert(final(self).entries@.drop_last() =~= old(self).entries@);
            assert forall|i2: int, j2: int|
                #![trigger self.entries@[i2], self.entries@[j2]]
                0 <= i2 < j2 < self.entries@.len() implies self.entries@[i2].name@
                != self.entries@[j2].name@ by {
                if j2 == self.entries@.len() - 1 {
                    assert(old(self).entries@[i2] == self.entries@[i2]);
                    assert(self.entries@[i2].name@ != username@);
                }
            }
            assert(self.wf());
        }
        Ok(session)
    }

    /// Drop the entry under `username`, handing back its session handle;
    /// a name that is not present leaves the roster unchanged.
    pub fn remove_user(&mut self, username: &str) -> (r: Option<u64>)
        requires
            old(self).wf(),
        ensures
            final(self).wf(),
            !spec_contains(old(self).entries@, username@) ==> r is None && final(self).entries@
                == old(self).entries@,
            spec_contains(old(self).entries@, username@) ==> (r matches Some(s) && exists|i: int|
                0 <= i < old(self).entries@.len() && #[trigger] old(self).entries@[i].name@
                    == username@ && old(self).entries@[i].session == s && final(self).entries@
                    == old(self).entries@.remove(i)),
    {
        let key: String = username.to_owned();
        let n = self.entries.len();
        let mut i: usize = 0;
        while i < n
            invariant
                i <= n,
                n == self.entries@.len(),
                key@ == username@,
                old(self).wf(),
                self.entries@ == old(self).entries@,
                forall|k: int| 0 <= k < i ==> #[trigger] self.entries@[k].name@ != username@,
            decreases n - i,
        {
            if self.entries[i].name.eq(&key) {
                proof {
                    assert(self.entries@[i as int].name@ == username@);
                    assert(spec_contains(self.entries@, username@));
                }
                let e = self.entries.remove(i);
                proof {
                    assert forall|i2: int, j2: int|
                        #![trigger self.entries@[i2], self.entries@[j2]]
                        0 <= i2 < j2 < self.entries@.len() implies self.entries@[i2].name@
                        != self.entries@[j2].name@ by {
                        let oi = if i2 < i { i2 } else { i2 + 1 };
                        let oj = if j2 < i { j2 } else { j2 + 1 };
                        assert(self.entries@[i2] == old(self).entries@[oi]);
                        assert(self.entries@[j2] == old(self).entries@[oj]);
                        assert(old(self).entries@[oi].name@ != old(self).entries@[oj].name@);
                    }
                    assert(self.wf());
                }
                return Some(e.session);
            }
            i += 1;
        }
        assert(!spec_contains(self.entries@, username@));
        None
    }

    /// Find the session handle registered under `username`.
    pub fn lookup_user(&self, username: &str) -> (r: Option<u64>)
        requires
            self.wf(),
        ensures
            r is Some <==> spec_contains(self.entries@, username@),
            r matches Some(s) ==> exists|i: int|
                0 <= i < self.entries@.len() && #[trigger] self.entries@[i].name@ == username@
                    && self.entries@[i].session == s,
    {
        let key: String = username.to_owned();
        let n = self.entries.len();
        let mut i: usize = 0;
        while i < n
            invariant
                i <= n,
                n == self.entries@.len(),
                key@ == username@,
                forall|k: int| 0 <= k < i ==> #[trigger] self.entries@[k].name@ != username@,
            decreases n - i,
        {
            if self.entries[i].name.eq(&key) {
                proof {
                    assert(self.entries@[i as int].name@ == username@);
                    assert(spec_contains(self.entries@, username@));
                }
                return Some(self.entries[i].session);
            }
            i += 1;
        }
        None
    }

    /// The sessions a broadcast from `source` goes to: every entry except
    /// the one named `source`, in roster order.
    pub fn recipients_excluding(&self, source: &str) -> (r: Vec<u64>)
        ensures
            r@ == spec_recipients(self.entries@, source@),
    {
        let key: String = source.to_owned();
        let n = self.entries.len();
        let mut out: Vec<u64> = Vec::new();
        let mut i: usize = 0;
        while i < n
            invariant
                i <= n,
                n == self.entries@.len(),
                key@ == source@,
                out@ == spec_recipients(self.entries@.take(i as int), source@),
            decreases n - i,
        {
            proof {
                assert(self.entries@.take(i + 1).drop_last() =~= self.entries@.take(i as int));
                assert(self.entries@.take(i + 1).last() == self.entries@[i as int]);
            }
            if !self.entries[i].name.eq(&key) {
                out.push(self.entries[i].session);
            }
            i += 1;
        }
        proof {
            assert(self.entries@.take(n as int) =~= self.entries@);
        }
        out
    }

    /// The roster listing for a WHO reply: each logged-in name followed
    /// by a comma and a space, in roster order.
    pub fn get_logged_in_users(&self) -> (r: String)
        ensures
            r@ == spec_csv(self.entries@),
    {
        let n = self.entries.len();
        let mut csv = String::new();
        let mut i: usize = 0;
        while i < n
            invariant
                i <= n,
                n == self.entries@.len(),
                csv@ == spec_csv(self.entries@.take(i as int)),
            decreases n - i,
        {
            proof {
                assert(self.entries@.take(i + 1).drop_last() =~= self.entries@.take(i as int));
                assert(self.entries@.take(i + 1).last() == self.entries@[i as int]);
            }
            csv.append(self.entries[i].name.as_str());
            csv.append(", ");
            i += 1;
        }
        proof {
            assert(self.entries@.take(n as int) =~= self.entries@);
        }
        csv
    }
}

/// A broadcast reaches exactly the sessions of the entries whose name
/// differs from the source: never the sender's own entry, and never
/// missing anyone else.
pub proof fn lemma_broadcast_excludes_sender(entries: Seq<RosterEntry>, src: Seq<char>)
    ensures
        forall|s: u64|
            #[trigger] spec_recipients(entries, src).contains(s) ==> exists|i: int|
                0 <= i < entries.len() && #[trigger] entries[i].session == s && entries[i].name@
                    != src,
        forall|i: int|
            0 <= i < entries.len() && #[trigger] entries[i].name@ != src ==> spec_recipients(
                entries,
                src,
            ).contains(entries[i].session),
    decreases entries.len(),
{
    if entries.len() == 0 {
    } else {
        let init = entries.drop_last();
        lemma_broadcast_excludes_sender(init, src);
        let r = spec_recipients(entries, src);
        let ri = spec_recipients(init, src);
        assert forall|s: u64| #[trigger] r.contains(s) implies exists|i: int|
            0 <= i < entries.len() && #[trigger] entries[i].session == s && entries[i].name@
                != src by {
            if entries.last().name@ != src && s == entries.last().session {
                assert(entries[entries.len() - 1].session == s);
            } else {
                assert(ri.contains(s));
                let i = choose|i: int|
                    0 <= i < init.len() && #[trigger] init[i].session == s && init[i].name@ != src;
                assert(entries[i].session == s);
            }
        }
        assert forall|i: int|
            0 <= i < entries.len() && #[trigger] entries[i].name@ != src implies r.contains(
            entries[i].session,
        ) by {
            if i == entries.len() - 1 {
                assert(r.last() == entries.last().session);
            } else {
                assert(init[i] == entries[i]);
                assert(ri.contains(entries[i].session));
                let j = choose|j: int| 0 <= j < ri.len() && ri[j] == entries[i].session;
                if entries.last().name@ != src {
                    assert(r[j] == ri[j]);
                } else {
                    assert(r == ri);
                }
            }
        }
    }
}

} // verus!
