//! The game directory: which coordinator a join-token stands for.
//!
//! It is an ordinary owned value, so each test or server can hold its own; the
//! caller decides how it is shared between connections.
use vstd::prelude::*;
use crate::protocol::ServerError;

verus! {

/// Maps join-tokens to references to live coordinators.
pub struct Directory<R> {
    entries: Vec<(String, R)>,
}

pub open spec fn keys_unique<R>(s: Seq<(String, R)>) -> bool {
    forall|i: int, j: int| 0 <= i < j < s.len() ==> #[trigger] s[i].0@ != #[trigger] s[j].0@
}

pub open spec fn has_key<R>(s: Seq<(String, R)>, k: Seq<char>) -> bool {
    exists|i: int| 0 <= i < s.len() && (#[trigger] s[i]).0@ == k
}

/// The map that a list of entries with distinct keys stands for.
pub open spec fn entries_map<R>(s: Seq<(String, R)>) -> Map<Seq<char>, R> {
    Map::new(
        |k: Seq<char>| has_key(s, k),
        |k: Seq<char>| s[choose|i: int| 0 <= i < s.len() && (#[trigger] s[i]).0@ == k].1,
    )
}

proof fn lemma_entry_value<R>(s: Seq<(String, R)>, i: int)
    requires
        keys_unique(s),
        0 <= i < s.len(),
    ensures
        entries_map(s).contains_key(s[i].0@),
        entries_map(s)[s[i].0@] == s[i].1,
{
    let k = s[i].0@;
    assert(has_key(s, k));
    let j = choose|j: int| 0 <= j < s.len() && (#[trigger] s[j]).0@ == k;
    if j < i {
        assert(s[j].0@ != s[i].0@);
    } else if j > i {
        assert(s[i].0@ != s[j].0@);
    }
}

impl<R> View for Directory<R> {
    type V = Map<Seq<char>, R>;

    closed spec fn view(&self) -> Map<Seq<char>, R> {
        entries_map(self.entries@)
    }
}

impl<R> Directory<R> {
    pub closed spec fn wf(&self) -> bool {
        keys_unique(self.entries@)
    }

    pub fn new() -> (r: Directory<R>)
        ensures
            r.wf(),
            r@ == Map::<Seq<char>, R>::empty(),
    {
        let r = Directory { entries: Vec::new() };
        assert(r@ =~= Map::<Seq<char>, R>::empty());
        r
    }

    fn find(&self, token: &str) -> (r: Option<usize>)
        requires
            self.wf(),
        ensures
            match r {
                Some(i) => i < self.entries@.len() && self.entries@[i as int].0@ == token@,
                None => !has_key(self.entries@, token@),
            },
    {
        let wanted: String = token.to_owned();
        let mut i: usize = 0;
        while i < self.entries.len()
            invariant
                i <= self.entries@.len(),
                wanted@ == token@,
                forall|j: int| 0 <= j < i ==> (#[trigger] self.entries@[j]).0@ != token@,
            decreases self.entries@.len() - i,
        {
            if self.entries[i].0 == wanted {
                return Some(i);
            }
            i = i + 1;
        }
        None
    }

    /// Registers `game` under `token`. A token already in use is left as it was
    /// and `game` is handed back.
    pub fn register(&mut self, token: String, game: R) -> (r: Result<(), R>)
        requires
            old(self).wf(),
        ensures
            final(self).wf(),
            old(self)@.contains_key(token@) ==> final(self)@ == old(self)@ && r == Err::<(), R>(game),
            !old(self)@.contains_key(token@) ==> final(self)@ == old(self)@.insert(token@, game) && r
                == Ok::<(), R>(()),
    {
        match self.find(token.as_str()) {
            Some(i) => {
                proof {
                    lemma_entry_value(self.entries@, i as int);
                }
                Err(game)
            },
            None => {
                let ghost s = self.entries@;
                let ghost k = token@;
                self.entries.push((token, game));
                proof {
                    let t = self.entries@;
                    assert(keys_unique(t)) by {
                        assert forall|i: int, j: int| 0 <= i < j < t.len() implies #[trigger] t[i].0@
                            != #[trigger] t[j].0@ by {
                            if j == s.len() {
                                assert(t[i] == s[i]);
                            } else {
                                assert(t[i] == s[i] && t[j] == s[j]);
                            }
                        }
                    }
                    assert forall|q: Seq<char>| has_key(t, q) <==> has_key(s, q) || q == k by {
                        if has_key(s, q) {
                            let i = choose|i: int| 0 <= i < s.len() && (#[trigger] s[i]).0@ == q;
                            assert(t[i] == s[i]);
                        }
                        if has_key(t, q) && q != k {
                            let i = choose|i: int| 0 <= i < t.len() && (#[trigger] t[i]).0@ == q;
                            assert(t[i] == s[i]);
                        }
                        if q == k {
                            assert(t[s.len() as int].0@ == k);
                        }
                    }
                    assert forall|q: Seq<char>| #[trigger] entries_map(t).contains_key(q) implies entries_map(
                        t,
                    )[q] == entries_map(s).insert(k, game)[q] by {
                        if q == k {
                            lemma_entry_value(t, s.len() as int);
                        } else {
                            let i = choose|i: int| 0 <= i < s.len() && (#[trigger] s[i]).0@ == q;
                            assert(t[i] == s[i]);
                            lemma_entry_value(t, i);
                            lemma_entry_value(s, i);
                        }
                    }
                    assert(entries_map(t) =~= entries_map(s).insert(k, game));
                }
                Ok(())
            },
        }
    }

    /// The coordinator registered under `token`, if any.
    pub fn resolve(&self, token: &str) -> (r: Option<&R>)
        requires
            self.wf(),
        ensures
            match r {
                Some(g) => self@.contains_key(token@) && self@[token@] == *g,
                None => !self@.contains_key(token@),
            },
    {
        match self.find(token) {
            Some(i) => {
                proof {
                    lemma_entry_value(self.entries@, i as int);
                }
                Some(&self.entries[i].1)
            },
            None => None,
        }
    }

    /// The coordinator registered under `token`, or `UnknownToken`.
    pub fn lookup(&self, token: &str) -> (r: Result<&R, ServerError>)
        requires
            self.wf(),
        ensures
            match r {
                Ok(g) => self@.contains_key(token@) && self@[token@] == *g,
                Err(e) => !self@.contains_key(token@) && e == ServerError::UnknownToken,
            },
    {
        match self.resolve(token) {
            Some(g) => Ok(g),
            None => Err(ServerError::UnknownToken),
        }
    }

    /// Removes the entry of `token`, handing back what was registered under it.
    pub fn unregister(&mut self, token: &str) -> (r: Option<R>)
        requires
            old(self).wf(),
        ensures
            final(self).wf(),
            final(self)@ == old(self)@.remove(token@),
            r == (if old(self)@.contains_key(token@) {
                Some(old(self)@[token@])
            } else {
                None::<R>
            }),
    {
        match self.find(token) {
            None => {
                assert(self@ =~= self@.remove(token@));
                None
            },
            Some(i) => {
                let ghost s = self.entries@;
                let ghost k = token@;
                proof {
                    lemma_entry_value(s, i as int);
                }
                let (_, game) = self.entries.remove(i);
                proof {
                    let t = self.entries@;
                    let m = i as int;
                    assert forall|j: int| 0 <= j < t.len() implies #[trigger] t[j] == s[if j < m {
                        j
                    } else {
                        j + 1
                    }] by {}
                    assert(keys_unique(t)) by {
                        assert forall|a: int, b: int| 0 <= a < b < t.len() implies #[trigger] t[a].0@
                            != #[trigger] t[b].0@ by {
                            let a1 = if a < m { a } else { a + 1 };
                            let b1 = if b < m { b } else { b + 1 };
                            assert(t[a] == s[a1] && t[b] == s[b1]);
                        }
                    }
                    assert forall|q: Seq<char>| has_key(t, q) <==> has_key(s, q) && q != k by {
                        if has_key(t, q) {
                            let j = choose|j: int| 0 <= j < t.len() && (#[trigger] t[j]).0@ == q;
                            let j1 = if j < m { j } else { j + 1 };
                            assert(t[j] == s[j1]);
                            assert(s[j1].0@ != s[m].0@);
                        }
                        if has_key(s, q) && q != k {
                            let j = choose|j: int| 0 <= j < s.len() && (#[trigger] s[j]).0@ == q;
                            assert(j != m);
                            let j0 = if j < m { j } else { j - 1 };
                            assert(t[j0] == s[j]);
                        }
                    }
                    assert forall|q: Seq<char>| #[trigger] entries_map(t).contains_key(q) implies entries_map(
                        t,
                    )[q] == entries_map(s)[q] by {
                        let j = choose|j: int| 0 <= j < t.len() && (#[trigger] t[j]).0@ == q;
                        let j1 = if j < m { j } else { j + 1 };
                        assert(t[j] == s[j1]);
                        lemma_entry_value(t, j);
                        lemma_entry_value(s, j1);
                    }
                    assert(entries_map(t) =~= entries_map(s).remove(k));
                }
                Some(game)
            },
        }
    }
}

} // verus!
