use vstd::prelude::*;
use crate::chain::ChainOfThought;

verus! {

// ---------------------------------------------------------------------------
// The dream registry
// ---------------------------------------------------------------------------

/// `id` is the identifier of some entry.
pub open spec fn entry_holds(s: Seq<(String, ChainOfThought)>, id: Seq<char>) -> bool {
    exists|i: int| 0 <= i < s.len() && s[i].0@ == id
}

/// The chain stored under `id`; meaningful only when `entry_holds`.
pub open spec fn entry_at(s: Seq<(String, ChainOfThought)>, id: Seq<char>) -> ChainOfThought {
    s[choose|i: int| 0 <= i < s.len() && s[i].0@ == id].1
}

/// The single point of lookup and insertion for live dreams: a map from
/// dream identifier to its chain. Entries are never reclaimed; growth
/// without bound is an accepted property of the design.
pub struct DreamRegistry {
    pub entries: Vec<(String, ChainOfThought)>,
}

proof fn lemma_choose_entry(s: Seq<(String, ChainOfThought)>, id: Seq<char>, i: int)
    requires
        0 <= i < s.len(),
        s[i].0@ == id,
        forall|a: int, b: int| 0 <= a < b < s.len() ==> s[a].0@ != s[b].0@,
    ensures
        entry_at(s, id) == s[i].1,
{
    let k = choose|k: int| 0 <= k < s.len() && s[k].0@ == id;
    assert(0 <= k < s.len() && s[k].0@ == id) by {
        assert(0 <= i < s.len() && s[i].0@ == id);
    }
    if k != i {
        if k < i {
            assert(s[k].0@ != s[i].0@);
        } else {
            assert(s[i].0@ != s[k].0@);
        }
        assert(false);
    }
}

/// Removing the one entry holding `id` from a duplicate-free entry sequence
/// removes exactly `id`, and leaves every other mapping as it was.
proof fn lemma_entry_removed(
    pre: Seq<(String, ChainOfThought)>,
    post: Seq<(String, ChainOfThought)>,
    at: int,
    id: Seq<char>,
)
    requires
        0 <= at < pre.len(),
        pre[at].0@ == id,
        forall|a: int, b: int| 0 <= a < b < pre.len() ==> pre[a].0@ != pre[b].0@,
        post == pre.remove(at),
    ensures
        forall|a: int, b: int| 0 <= a < b < post.len() ==> post[a].0@ != post[b].0@,
        forall|x: Seq<char>| #[trigger] entry_holds(post, x) <==> (entry_holds(pre, x) && x != id),
        forall|x: Seq<char>|
            x != id && #[trigger] entry_holds(pre, x) ==> entry_at(post, x) == entry_at(pre, x),
{
    assert forall|a: int, b: int| 0 <= a < b < post.len() implies post[a].0@ != post[b].0@ by {
        let pa = if a < at { a } else { a + 1 };
        let pb = if b < at { b } else { b + 1 };
        assert(post[a] == pre[pa]);
        assert(post[b] == pre[pb]);
    }
    assert forall|x: Seq<char>| #[trigger] entry_holds(post, x) <==> (entry_holds(pre, x) && x
        != id) by {
        if entry_holds(post, x) {
            let i = choose|i: int| 0 <= i < post.len() && post[i].0@ == x;
            let pi = if i < at { i } else { i + 1 };
            assert(pre[pi].0@ == x);
            assert(pi != at);
        }
        if entry_holds(pre, x) && x != id {
            let i = choose|i: int| 0 <= i < pre.len() && pre[i].0@ == x;
            assert(i != at);
            let ni = if i < at { i } else { i - 1 };
            assert(post[ni].0@ == x);
        }
    }
    assert forall|x: Seq<char>| x != id && #[trigger] entry_holds(pre, x) implies entry_at(
        post,
        x,
    ) == entry_at(pre, x) by {
        let i = choose|i: int| 0 <= i < pre.len() && pre[i].0@ == x;
        assert(i != at);
        let ni = if i < at { i } else { i - 1 };
        assert(post[ni].0@ == x);
        assert(post[ni] == pre[i]);
        lemma_choose_entry(pre, x, i);
        assert forall|a: int, b: int| 0 <= a < b < post.len() implies post[a].0@ != post[b].0@ by {
            let pa = if a < at { a } else { a + 1 };
            let pb = if b < at { b } else { b + 1 };
            assert(post[a] == pre[pa]);
            assert(post[b] == pre[pb]);
        }
        lemma_choose_entry(post, x, ni);
    }
}

impl DreamRegistry {
    /// No identifier maps to two chains.
    pub open spec fn wf(&self) -> bool {
        forall|a: int, b: int| 0 <= a < b < self.entries@.len() ==> self.entries@[a].0@
            != self.entries@[b].0@
    }

    /// The identifier is backed by an entry.
    pub open spec fn has_dream(&self, id: Seq<char>) -> bool {
        entry_holds(self.entries@, id)
    }

    /// The chain backing `id`.
    pub open spec fn dream_at(&self, id: Seq<char>) -> ChainOfThought {
        entry_at(self.entries@, id)
    }

    pub fn new() -> (r: Self)
        ensures
            r.wf(),
            forall|x: Seq<char>| !r.has_dream(x),
    {
        DreamRegistry { entries: Vec::new() }
    }

    fn index_of(&self, id: &String) -> (r: Option<usize>)
        requires
            self.wf(),
        ensures
            match r {
                Some(i) => i < self.entries@.len() && self.entries@[i as int].0@ == id@,
                None => !self.has_dream(id@),
            },
    {
        let n = self.entries.len();
        for i in 0..n
            invariant
                n == self.entries@.len(),
                forall|j: int| 0 <= j < i ==> self.entries@[j].0@ != id@,
        {
            if self.entries[i].0 == *id {
                return Some(i);
            }
        }
        None
    }

    pub fn contains_dream(&self, id: &String) -> (r: bool)
        requires
            self.wf(),
        ensures
            r == self.has_dream(id@),
    {
        match self.index_of(id) {
            Some(_) => true,
            None => false,
        }
    }

    /// A shared handle on the chain backing `id`, when there is one.
    pub fn get_dream(&self, id: &String) -> (r: Option<&ChainOfThought>)
        requires
            self.wf(),
        ensures
            match r {
                Some(c) => self.has_dream(id@) && *c == self.dream_at(id@),
                None => !self.has_dream(id@),
            },
    {
        match self.index_of(id) {
            Some(i) => {
                proof {
                    lemma_choose_entry(self.entries@, id@, i as int);
                }
                Some(&self.entries[i].1)
            },
            None => None,
        }
    }

    /// Checks the chain backing `id` out of the registry; every other
    /// mapping is untouched. Checking out, mutating, and putting back is how
    /// a caller works on a dream without holding the registry meanwhile.
    pub fn take_dream(&mut self, id: &String) -> (r: Option<ChainOfThought>)
        requires
            old(self).wf(),
        ensures
            final(self).wf(),
            match r {
                Some(c) => old(self).has_dream(id@) && c == old(self).dream_at(id@),
                None => !old(self).has_dream(id@) && final(self).entries@ == old(self).entries@,
            },
            forall|x: Seq<char>|
                #[trigger] final(self).has_dream(x) <==> (old(self).has_dream(x) && x != id@),
            forall|x: Seq<char>|
                x != id@ && #[trigger] old(self).has_dream(x) ==> final(self).dream_at(x) == old(
                    self,
                ).dream_at(x),
    {
        match self.index_of(id) {
            Some(i) => {
                let ghost pre = self.entries@;
                proof {
                    lemma_choose_entry(pre, id@, i as int);
                }
                let (_, chain) = self.entries.remove(i);
                proof {
                    lemma_entry_removed(pre, self.entries@, i as int, id@);
                }
                Some(chain)
            },
            None => {
                proof {
                    assert forall|x: Seq<char>|
                        #[trigger] self.has_dream(x) <==> (self.has_dream(x) && x != id@) by {
                        if self.has_dream(x) && x == id@ {
                            assert(self.has_dream(id@));
                        }
                    }
                }
                None
            },
        }
    }

    /// Stores `chain` under `id`, replacing whatever was there; every other
    /// mapping is untouched.
    pub fn put_dream(&mut self, id: String, chain: ChainOfThought)
        requires
            old(self).wf(),
        ensures
            final(self).wf(),
            final(self).has_dream(id@),
            final(self).dream_at(id@) == chain,
            forall|x: Seq<char>|
                #[trigger] final(self).has_dream(x) <==> (old(self).has_dream(x) || x == id@),
            forall|x: Seq<char>|
                x != id@ && #[trigger] old(self).has_dream(x) ==> final(self).dream_at(x) == old(
                    self,
                ).dream_at(x),
    {
        let ghost pre = self.entries@;
        match self.index_of(&id) {
            Some(i) => {
                proof {
                    lemma_entry_removed(pre, pre.remove(i as int), i as int, id@);
                }
                self.entries.remove(i);
                let ghost mid = self.entries@;
                self.entries.push((id, chain));
                proof {
                    lemma_entry_pushed(mid, self.entries@, id@, chain);
                    assert forall|x: Seq<char>|
                        x != id@ && #[trigger] entry_holds(pre, x) implies entry_at(
                        self.entries@,
                        x,
                    ) == entry_at(pre, x) by {
                        assert(entry_holds(mid, x));
                        assert(entry_at(mid, x) == entry_at(pre, x));
                        assert(entry_at(self.entries@, x) == entry_at(mid, x));
                    }
                }
            },
            None => {
                self.entries.push((id, chain));
                proof {
                    lemma_entry_pushed(pre, self.entries@, id@, chain);
                }
            },
        }
    }

    /// Creates a dream for a theme: a fresh identifier is drawn, a chain is
    /// made with the theme and the title the completion capability produced,
    /// and the chain is stored under the identifier, which is returned.
    pub fn create_dream(&mut self, theme: &str, title: String) -> (id: String)
        requires
            old(self).wf(),
        ensures
            final(self).wf(),
            id@.len() == 36,
            final(self).has_dream(id@),
            final(self).dream_at(id@).wf(),
            final(self).dream_at(id@).steps@.len() == 0,
            match final(self).dream_at(id@).dream_title {
                Some(t) => t == title,
                None => false,
            },
            match final(self).dream_at(id@).dream_theme {
                Some(t) => t@ == theme@,
                None => false,
            },
            forall|x: Seq<char>|
                #[trigger] final(self).has_dream(x) <==> (old(self).has_dream(x) || x == id@),
            forall|x: Seq<char>|
                x != id@ && #[trigger] old(self).has_dream(x) ==> final(self).dream_at(x) == old(
                    self,
                ).dream_at(x),
    {
        let id = crate::trusted::fresh_uuid();
        let mut chain = ChainOfThought::new();
        chain.set_dream_context(theme, title);
        self.put_dream(id.clone(), chain);
        id
    }

    pub fn len(&self) -> (n: usize)
        ensures
            n == self.entries@.len(),
    {
        self.entries.len()
    }
}

/// Appending an entry for an identifier that is absent adds exactly that
/// mapping.
proof fn lemma_entry_pushed(
    pre: Seq<(String, ChainOfThought)>,
    post: Seq<(String, ChainOfThought)>,
    id: Seq<char>,
    chain: ChainOfThought,
)
    requires
        !entry_holds(pre, id),
        forall|a: int, b: int| 0 <= a < b < pre.len() ==> pre[a].0@ != pre[b].0@,
        post.len() == pre.len() + 1,
        forall|i: int| 0 <= i < pre.len() ==> post[i] == pre[i],
        post.last().0@ == id,
        post.last().1 == chain,
    ensures
        forall|a: int, b: int| 0 <= a < b < post.len() ==> post[a].0@ != post[b].0@,
        forall|x: Seq<char>| #[trigger] entry_holds(post, x) <==> (entry_holds(pre, x) || x == id),
        entry_at(post, id) == chain,
        forall|x: Seq<char>|
            x != id && #[trigger] entry_holds(pre, x) ==> entry_at(post, x) == entry_at(pre, x),
{
    assert forall|a: int, b: int| 0 <= a < b < post.len() implies post[a].0@ != post[b].0@ by {
        if b == pre.len() {
            if post[a].0@ == post[b].0@ {
                assert(entry_holds(pre, id));
            }
        }
    }
    assert forall|x: Seq<char>| #[trigger] entry_holds(post, x) <==> (entry_holds(pre, x) || x
        == id) by {
        if entry_holds(post, x) {
            let i = choose|i: int| 0 <= i < post.len() && post[i].0@ == x;
            if i < pre.len() {
                assert(pre[i].0@ == x);
            }
        }
        if entry_holds(pre, x) {
            let i = choose|i: int| 0 <= i < pre.len() && pre[i].0@ == x;
            assert(post[i].0@ == x);
        }
        if x == id {
            assert(post[post.len() - 1].0@ == x);
        }
    }
    lemma_choose_entry(post, id, post.len() - 1);
    assert forall|x: Seq<char>| x != id && #[trigger] entry_holds(pre, x) implies entry_at(post, x)
        == entry_at(pre, x) by {
        let i = choose|i: int| 0 <= i < pre.len() && pre[i].0@ == x;
        lemma_choose_entry(pre, x, i);
        assert(post[i].0@ == x);
        lemma_choose_entry(post, x, i);
    }
}

} // verus!
