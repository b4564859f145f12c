//! The subscriber registry: a mutually-exclusive mapping from display name to
//! the handle of that connection's outbound half. Its view is the map from
//! name to handle; well-formedness says no name is bound twice. `add_user` is
//! an atomic insert-if-absent, so a name that is already bound is never
//! rebound — the check and the insert are one operation, closing the
//! check-then-act race between concurrent joins. `send` computes the
//! broadcast: one `Message` directive per registered name other than the
//! sender's, exactly once each; the caller performs the writes.

use vstd::prelude::*;
use vstd::string::StringExecFns;

use crate::msg::{FromServer, ServerMsgV};

verus! {

/// The relayed text: `"{from} > {text}"`.
pub open spec fn chat_line(from: Seq<char>, text: Seq<char>) -> Seq<char> {
    from + (" > ")@ + text
}

/// `dirs` delivers `Message{chat_line(from, text)}` to the handle of every
/// name registered in `m` except `from`, exactly once each, in some order.
pub open spec fn is_broadcast(
    dirs: Seq<(u64, FromServer)>,
    m: Map<Seq<char>, u64>,
    from: Seq<char>,
    text: Seq<char>,
) -> bool {
    exists|ns: Seq<Seq<char>>| is_broadcast_order(ns, dirs, m, from, text)
}

/// As `is_broadcast`, with the recipient order named: `dirs[i]` goes to the
/// handle of name `ns[i]`.
pub open spec fn is_broadcast_order(
    ns: Seq<Seq<char>>,
    dirs: Seq<(u64, FromServer)>,
    m: Map<Seq<char>, u64>,
    from: Seq<char>,
    text: Seq<char>,
) -> bool {
    &&& ns.no_duplicates()
    &&& ns.to_set() == m.dom().remove(from)
    &&& dirs.len() == ns.len()
    &&& forall|i: int|
        0 <= i < dirs.len() ==> m.dom().contains(#[trigger] ns[i]) && (#[trigger] dirs[i]).0
            == m[ns[i]] && dirs[i].1@ == (ServerMsgV::Message {
            message: chat_line(from, text),
        })
}

/// No two entries carry the same display name.
spec fn nodup(es: Seq<(String, u64)>) -> bool {
    forall|i: int, j: int|
        0 <= i < j < es.len() ==> (#[trigger] es[i]).0@ != (#[trigger] es[j]).0@
}

spec fn has_name(es: Seq<(String, u64)>, n: Seq<char>) -> bool {
    exists|i: int| 0 <= i < es.len() && (#[trigger] es[i]).0@ == n
}

spec fn idx_of(es: Seq<(String, u64)>, n: Seq<char>) -> int {
    choose|i: int| 0 <= i < es.len() && (#[trigger] es[i]).0@ == n
}

/// Under `nodup`, the entry found for a name is the one at any index that
/// carries it.
proof fn lemma_idx_of(es: Seq<(String, u64)>, n: Seq<char>, i: int)
    requires
        nodup(es),
        0 <= i < es.len(),
        es[i].0@ == n,
    ensures
        has_name(es, n),
        idx_of(es, n) == i,
{
    assert(has_name(es, n));
    let j = idx_of(es, n);
    if j < i {
        assert(es[j].0@ != es[i].0@);
    } else if i < j {
        assert(es[i].0@ != es[j].0@);
    }
}

/// The subscriber registry.
pub struct Users {
    entries: Vec<(String, u64)>,
}

impl View for Users {
    type V = Map<Seq<char>, u64>;

    closed spec fn view(&self) -> Map<Seq<char>, u64> {
        Map::new(
            |n: Seq<char>| has_name(self.entries@, n),
            |n: Seq<char>| self.entries@[idx_of(self.entries@, n)].1,
        )
    }
}

impl Users {
    /// At most one entry per display name.
    pub closed spec fn wf(&self) -> bool {
        nodup(self.entries@)
    }

    /// A fresh, empty registry.
    pub fn new() -> (r: Users)
        ensures
            r.wf(),
            r@ == Map::<Seq<char>, u64>::empty(),
    {
        let r = Users { entries: Vec::new() };
        proof {
            assert(r@ =~= Map::<Seq<char>, u64>::empty());
        }
        r
    }

    /// Whether `username` is currently registered.
    pub fn contains_name(&self, username: &String) -> (r: bool)
        ensures
            r == self@.dom().contains(username@),
    {
        let n = self.entries.len();
        let mut j: usize = 0;
        while j < n
            invariant
                n == self.entries@.len(),
                j <= n,
                forall|k: int| 0 <= k < j ==> (#[trigger] self.entries@[k]).0@ != username@,
            decreases n - j,
        {
            if self.entries[j].0 == *username {
                assert(has_name(self.entries@, username@));
                return true;
            }
            j = j + 1;
        }
        assert(!has_name(self.entries@, username@));
        false
    }

    /// Atomic insert-if-absent. A name that is already bound stays bound to
    /// its first handle; the caller learns that handle. A free name is bound
    /// to `handle` and the caller gets `None`.
    pub fn add_user(&mut self, username: &String, handle: u64) -> (r: Option<u64>)
        requires
            old(self).wf(),
        ensures
            final(self).wf(),
            old(self)@.dom().contains(username@) ==> r == Some(old(self)@[username@])
                && final(self)@ == old(self)@,
            !old(self)@.dom().contains(username@) ==> r == None::<u64> && final(self)@ == old(
                self,
            )@.insert(username@, handle),
    {
        let n = self.entries.len();
        let mut j: usize = 0;
        while j < n
            invariant
                self == old(self),
                self.wf(),
                n == self.entries@.len(),
                j <= n,
                forall|k: int| 0 <= k < j ==> (#[trigger] self.entries@[k]).0@ != username@,
            decreases n - j,
        {
            if self.entries[j].0 == *username {
                proof {
                    lemma_idx_of(self.entries@, username@, j as int);
                }
                return Some(self.entries[j].1);
            }
            j = j + 1;
        }
        let ghost es0 = self.entries@;
        assert(!has_name(es0, username@));
        let cloned = username.clone();
        let ghost v = (cloned, handle);
        self.entries.push((cloned, handle));
        proof {
            let es1 = self.entries@;
            assert(es1 == es0.push(v));
            assert(v.0@ == username@);
            assert forall|i: int, j2: int| 0 <= i < j2 < es1.len() implies (
            #[trigger] es1[i]).0@ != (#[trigger] es1[j2]).0@ by {
                if j2 < es0.len() {
                    assert(es0[i].0@ != es0[j2].0@);
                } else {
                    assert(es1[j2].0@ == username@);
                    assert(es0[i].0@ != username@);
                }
            }
            assert(self@ =~= old(self)@.insert(username@, handle)) by {
                assert forall|m: Seq<char>| #[trigger] has_name(es1, m) implies (has_name(es0, m)
                    || m == username@) by {
                    let i = choose|i: int| 0 <= i < es1.len() && (#[trigger] es1[i]).0@ == m;
                    if i < es0.len() {
                        assert(es0[i].0@ == m);
                    }
                }
                assert forall|m: Seq<char>| has_name(es0, m) implies #[trigger] has_name(
                    es1,
                    m,
                ) by {
                    let i = choose|i: int| 0 <= i < es0.len() && (#[trigger] es0[i]).0@ == m;
                    assert(es1[i].0@ == m);
                }
                assert(es1[es0.len() as int].0@ == username@);
                assert(has_name(es1, username@));
                assert forall|m: Seq<char>| #[trigger] has_name(es1, m) implies es1[idx_of(es1, m)].1
                    == old(self)@.insert(username@, handle)[m] by {
                    let i = idx_of(es1, m);
                    assert(0 <= i < es1.len() && es1[i].0@ == m);
                    if m == username@ {
                        lemma_idx_of(es1, m, es0.len() as int);
                    } else {
                        assert(i < es0.len());
                        assert(es0[i].0@ == m);
                        lemma_idx_of(es0, m, i);
                    }
                }
            }
        }
        None
    }

    /// Unbinds `username`, handing back its handle when it was bound.
    pub fn remove_user(&mut self, username: &String) -> (r: Option<u64>)
        requires
            old(self).wf(),
        ensures
            final(self).wf(),
            final(self)@ == old(self)@.remove(username@),
            old(self)@.dom().contains(username@) ==> r == Some(old(self)@[username@]),
            !old(self)@.dom().contains(username@) ==> r == None::<u64>,
    {
        let n = self.entries.len();
        let mut j: usize = 0;
        while j < n
            invariant
                self == old(self),
                self.wf(),
                n == self.entries@.len(),
                j <= n,
                forall|k: int| 0 <= k < j ==> (#[trigger] self.entries@[k]).0@ != username@,
            decreases n - j,
        {
            if self.entries[j].0 == *username {
                let ghost es0 = self.entries@;
                proof {
                    lemma_idx_of(es0, username@, j as int);
                }
                let entry = self.entries.remove(j);
                proof {
                    let es1 = self.entries@;
                    assert forall|k: int| 0 <= k < es1.len() implies #[trigger] es1[k] == (
                    if k < j { es0[k] } else { es0[k + 1] }) by {}
                    assert forall|i: int, j2: int| 0 <= i < j2 < es1.len() implies (
                    #[trigger] es1[i]).0@ != (#[trigger] es1[j2]).0@ by {
                        let i0: int = if i < j { i } else { i + 1 };
                        let j0: int = if j2 < j { j2 } else { j2 + 1 };
                        assert(es0[i0].0@ != es0[j0].0@);
                    }
                    assert(self@ =~= old(self)@.remove(username@)) by {
                        assert forall|m: Seq<char>| #[trigger] has_name(es1, m) implies (has_name(
                            es0,
                            m,
                        ) && m != username@) by {
                            let i = choose|i: int| 0 <= i < es1.len() && (#[trigger] es1[i]).0@
                                == m;
                            let i0: int = if i < j { i } else { i + 1 };
                            assert(es0[i0].0@ == m);
                            if m == username@ {
                                lemma_idx_of(es0, m, i0);
                            }
                        }
                        assert forall|m: Seq<char>|
                            has_name(es0, m) && m != username@ implies #[trigger] has_name(
                            es1,
                            m,
                        ) by {
                            let i = choose|i: int| 0 <= i < es0.len() && (#[trigger] es0[i]).0@
                                == m;
                            if i < j {
                                assert(es1[i].0@ == m);
                            } else {
                                assert(i != j);
                                assert(es1[i - 1].0@ == m);
                            }
                        }
                        assert forall|m: Seq<char>| #[trigger] has_name(es1, m) implies es1[idx_of(
                            es1,
                            m,
                        )].1 == old(self)@[m] by {
                            let i = idx_of(es1, m);
                            assert(0 <= i < es1.len() && es1[i].0@ == m);
                            let i0: int = if i < j { i } else { i + 1 };
                            assert(es0[i0].0@ == m);
                            lemma_idx_of(es0, m, i0);
                        }
                    }
                }
                return Some(entry.1);
            }
            j = j + 1;
        }
        proof {
            assert(!has_name(self.entries@, username@));
            assert(self@ =~= old(self)@.remove(username@));
        }
        None
    }

    /// Computes the broadcast of `message` from `username`: one `Message`
    /// directive per registered name other than the sender's, exactly once
    /// each. The sender's own entry never receives one.
    pub fn send(&self, username: &String, message: &String) -> (r: Vec<(u64, FromServer)>)
        requires
            self.wf(),
        ensures
            is_broadcast(r@, self@, username@, message@),
    {
        let mut line = String::new();
        line.append(username.as_str());
        line.append(" > ");
        line.append(message.as_str());
        proof {
            assert(line@ =~= chat_line(username@, message@));
        }
        let mut out: Vec<(u64, FromServer)> = Vec::new();
        let ghost mut ns: Seq<Seq<char>> = Seq::empty();
        let n = self.entries.len();
        let mut j: usize = 0;
        while j < n
            invariant
                self.wf(),
                n == self.entries@.len(),
                j <= n,
                line@ == chat_line(username@, message@),
                out@.len() == ns.len(),
                forall|k: int|
                    0 <= k < ns.len() ==> exists|q: int|
                        0 <= q < j && (#[trigger] ns[k]) == self.entries@[q].0@,
                forall|k: int| 0 <= k < ns.len() ==> (#[trigger] ns[k]) != username@,
                forall|k: int|
                    0 <= k < ns.len() ==> self@.dom().contains(#[trigger] ns[k]) && out@[k].0
                        == self@[ns[k]] && out@[k].1@ == (ServerMsgV::Message {
                        message: chat_line(username@, message@),
                    }),
                forall|q: int|
                    0 <= q < j && (#[trigger] self.entries@[q]).0@ != username@ ==> ns.contains(
                        self.entries@[q].0@,
                    ),
                ns.no_duplicates(),
            decreases n - j,
        {
            if !(self.entries[j].0 == *username) {
                let h = self.entries[j].1;
                out.push((h, FromServer::Message { message: line.clone() }));
                proof {
                    let name = self.entries@[j as int].0@;
                    let ns0 = ns;
                    lemma_idx_of(self.entries@, name, j as int);
                    assert forall|k: int| 0 <= k < ns0.len() implies (#[trigger] ns0[k])
                        != name by {
                        let q = choose|q: int|
                            0 <= q < j && (#[trigger] ns0[k]) == self.entries@[q].0@;
                        assert(self.entries@[q].0@ != self.entries@[j as int].0@);
                    }
                    ns = ns0.push(name);
                    assert forall|q: int|
                        0 <= q < j + 1 && (#[trigger] self.entries@[q]).0@
                            != username@ implies ns.contains(self.entries@[q].0@) by {
                        if q < j {
                            let k = choose|k: int|
                                0 <= k < ns0.len() && ns0[k] == self.entries@[q].0@;
                            assert(ns[k] == self.entries@[q].0@);
                        } else {
                            assert(ns[ns0.len() as int] == self.entries@[q].0@);
                        }
                    }
                }
            }
            j = j + 1;
        }
        proof {
            assert(ns.to_set() =~= self@.dom().remove(username@)) by {
                assert forall|m: Seq<char>| #[trigger] ns.to_set().contains(m) implies self@.dom()
                    .remove(username@).contains(m) by {
                    let k = choose|k: int| 0 <= k < ns.len() && ns[k] == m;
                }
                assert forall|m: Seq<char>| self@.dom().remove(username@).contains(
                    m,
                ) implies #[trigger] ns.to_set().contains(m) by {
                    let q = choose|q: int|
                        0 <= q < self.entries@.len() && (#[trigger] self.entries@[q]).0@ == m;
                    assert(ns.contains(self.entries@[q].0@));
                }
            }
            assert(is_broadcast_order(ns, out@, self@, username@, message@));
        }
        out
    }
}

/// The registry after a run of join attempts under one name, each performed
/// as `add_user` performs it: an atomic insert-if-absent.
pub open spec fn after_join_attempts(
    m0: Map<Seq<char>, u64>,
    name: Seq<char>,
    hs: Seq<u64>,
) -> Map<Seq<char>, u64>
    decreases hs.len(),
{
    if hs.len() == 0 {
        m0
    } else {
        let m1 = if m0.dom().contains(name) {
            m0
        } else {
            m0.insert(name, hs[0])
        };
        after_join_attempts(m1, name, hs.skip(1))
    }
}

/// Once a name is bound, further join attempts under it change nothing.
proof fn lemma_joins_keep_binding(m: Map<Seq<char>, u64>, name: Seq<char>, hs: Seq<u64>)
    requires
        m.dom().contains(name),
    ensures
        after_join_attempts(m, name, hs) == m,
    decreases hs.len(),
{
    if hs.len() > 0 {
        lemma_joins_keep_binding(m, name, hs.skip(1));
    }
}

/// Join uniqueness. The registry lock serializes concurrent join attempts
/// under one free name into some order `hs`; however many there are, only the
/// first binds the name — every later attempt observes `contains_name` true,
/// and by `add_user`'s contract an attempt on a bound name returns the
/// standing handle and leaves the registry unchanged, so the binding never
/// moves.
pub proof fn lemma_join_uniqueness(m0: Map<Seq<char>, u64>, name: Seq<char>, hs: Seq<u64>)
    requires
        !m0.dom().contains(name),
        hs.len() > 0,
    ensures
        after_join_attempts(m0, name, hs).dom().contains(name),
        after_join_attempts(m0, name, hs)[name] == hs[0],
{
    let m1 = m0.insert(name, hs[0]);
    lemma_joins_keep_binding(m1, name, hs.skip(1));
}

} // verus!
