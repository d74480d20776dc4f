use vstd::prelude::*;

verus! {

// ---------------------------------------------------------------------------
// Continuous regeneration sessions
// ---------------------------------------------------------------------------

/// The set of dream identifiers that are still regenerating. Membership is
/// the only state a session has: an identifier that is absent is stopped.
/// The background loop around this type asks `should_continue` once per
/// iteration and then calls `rotate`, which checks registration again at the
/// moment of rotation, so a stop that lands during the sleep still prevents
/// the successor from ever being registered.
pub struct ContinuousSessions {
    pub ids: Vec<String>,
}

impl ContinuousSessions {
    /// No identifier is held twice.
    pub open spec fn wf(&self) -> bool {
        forall|i: int, j: int| 0 <= i < j < self.ids@.len() ==> self.ids@[i]@ != self.ids@[j]@
    }

    /// The identifier is currently registered as regenerating.
    pub open spec fn registered(&self, id: Seq<char>) -> bool {
        seq_holds(self.ids@, id)
    }

    pub fn new() -> (s: Self)
        ensures
            s.wf(),
            forall|x: Seq<char>| !s.registered(x),
    {
        ContinuousSessions { ids: Vec::new() }
    }

    fn index_of(&self, id: &String) -> (r: Option<usize>)
        requires
            self.wf(),
        ensures
            match r {
                Some(i) => i < self.ids@.len() && self.ids@[i as int]@ == id@,
                None => !self.registered(id@),
            },
    {
        let n = self.ids.len();
        for i in 0..n
            invariant
                n == self.ids@.len(),
                forall|j: int| 0 <= j < i ==> self.ids@[j]@ != id@,
        {
            if self.ids[i] == *id {
                return Some(i);
            }
        }
        None
    }

    pub fn is_registered(&self, id: &String) -> (r: bool)
        requires
            self.wf(),
        ensures
            r == self.registered(id@),
    {
        match self.index_of(id) {
            Some(_) => true,
            None => false,
        }
    }

    /// Registers an identifier; registering one that is already present
    /// changes nothing.
    pub fn register(&mut self, id: String)
        requires
            old(self).wf(),
        ensures
            final(self).wf(),
            forall|x: Seq<char>|
                #[trigger] final(self).registered(x) <==> (old(self).registered(x) || x == id@),
    {
        match self.index_of(&id) {
            Some(_) => {
                proof {
                    assert forall|x: Seq<char>|
                        #[trigger] self.registered(x) <==> (self.registered(x) || x == id@) by {
                        if x == id@ {
                            assert(self.registered(id@));
                        }
                    }
                }
            },
            None => {
                let ghost pre = self.ids@;
                self.ids.push(id);
                proof {
                    assert forall|x: Seq<char>|
                        #[trigger] self.registered(x) <==> (exists|i: int|
                            0 <= i < pre.len() && pre[i]@ == x) || x == id@ by {
                        if self.registered(x) {
                            let i = choose|i: int|
                                0 <= i < self.ids@.len() && self.ids@[i]@ == x;
                            if i < pre.len() {
                                assert(pre[i]@ == x);
                            }
                        }
                        if exists|i: int| 0 <= i < pre.len() && pre[i]@ == x {
                            let i = choose|i: int| 0 <= i < pre.len() && pre[i]@ == x;
                            assert(self.ids@[i]@ == x);
                        }
                        if x == id@ {
                            assert(self.ids@[pre.len() as int]@ == x);
                        }
                    }
                }
            },
        }
    }

    /// Deregisters an identifier; no task is signalled, the running loop
    /// observes the absence at its next check.
    pub fn stop(&mut self, id: &String)
        requires
            old(self).wf(),
        ensures
            final(self).wf(),
            forall|x: Seq<char>|
                #[trigger] final(self).registered(x) <==> (old(self).registered(x) && x != id@),
    {
        match self.index_of(id) {
            Some(i) => {
                let ghost pre = self.ids@;
                self.ids.remove(i);
                proof {
                    lemma_removed_contains(pre, self.ids@, i as int, id@);
                }
            },
            None => {},
        }
    }

    /// The atomic check-then-rotate of the background loop: when `cur` is
    /// still registered it is replaced by `next` and true is returned; when
    /// a stop got there first, nothing changes and false is returned, so a
    /// stopped session can never give rise to a successor.
    pub fn rotate(&mut self, cur: &String, next: String) -> (rotated: bool)
        requires
            old(self).wf(),
        ensures
            final(self).wf(),
            rotated == old(self).registered(cur@),
            rotated ==> forall|x: Seq<char>|
                #[trigger] final(self).registered(x) <==> ((old(self).registered(x) && x != cur@)
                    || x == next@),
            !rotated ==> final(self).ids@ == old(self).ids@,
    {
        match self.index_of(cur) {
            Some(i) => {
                let ghost pre = self.ids@;
                self.ids.remove(i);
                proof {
                    lemma_removed_contains(pre, self.ids@, i as int, cur@);
                }
                self.register(next);
                true
            },
            None => false,
        }
    }

    pub fn len(&self) -> (n: usize)
        ensures
            n == self.ids@.len(),
    {
        self.ids.len()
    }
}

/// Removing the one index holding `id` from a duplicate-free sequence
/// removes exactly `id` from the set of held identifiers.
proof fn lemma_removed_contains(pre: Seq<String>, post: Seq<String>, at: int, id: Seq<char>)
    requires
        0 <= at < pre.len(),
        pre[at]@ == id,
        forall|i: int, j: int| 0 <= i < j < pre.len() ==> pre[i]@ != pre[j]@,
        post == pre.remove(at),
    ensures
        forall|i: int, j: int| 0 <= i < j < post.len() ==> post[i]@ != post[j]@,
        forall|x: Seq<char>|
            #[trigger] seq_holds(post, x) <==> (seq_holds(pre, x) && x != id),
{
    assert forall|i: int, j: int| 0 <= i < j < post.len() implies post[i]@ != post[j]@ by {
        let pi = if i < at { i } else { i + 1 };
        let pj = if j < at { j } else { j + 1 };
        assert(post[i] == pre[pi]);
        assert(post[j] == pre[pj]);
    }
    assert forall|x: Seq<char>| #[trigger] seq_holds(post, x) <==> (seq_holds(pre, x) && x != id)
        by {
        if seq_holds(post, x) {
            let i = choose|i: int| 0 <= i < post.len() && post[i]@ == x;
            let pi = if i < at { i } else { i + 1 };
            assert(pre[pi]@ == x);
            assert(pi != at);
            assert(x != id);
        }
        if seq_holds(pre, x) && x != id {
            let i = choose|i: int| 0 <= i < pre.len() && pre[i]@ == x;
            assert(i != at);
            let ni = if i < at { i } else { i - 1 };
            assert(post[ni]@ == x);
        }
    }
}

/// `x` is the view of some element of `s`.
pub open spec fn seq_holds(s: Seq<String>, x: Seq<char>) -> bool {
    exists|i: int| 0 <= i < s.len() && s[i]@ == x
}

} // verus!
