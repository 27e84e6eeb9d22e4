//! The directory-traversal state machine: a work queue of directory entries,
//! front-pushed so children are visited before siblings, and the ignore scope
//! currently in force. The caller performs the file-system reads and feeds
//! what it finds back into the machine.
use crate::pattern::{pattern_matches, Pattern};
use vstd::prelude::*;

verus! {

/// One queued traversal unit: a path, and the exclusion rule compiled from
/// the ignore file found in that directory, if any.
pub struct DirEntry {
    pub path: String,
    pub ignore: Option<Pattern>,
}

/// True path containment: `p` is the scope directory itself or lies below it
/// (the prefix must end at a separator, so `/tmp/buildx` is not inside
/// `/tmp/build`).
pub open spec fn path_in_scope(scope: Seq<char>, p: Seq<char>) -> bool {
    ||| p == scope
    ||| (p.len() > scope.len() && p.subrange(0, scope.len() as int) == scope && p[scope.len() as int]
        == '/')
}

/// How dequeuing `e` changes the active ignore scope: an entry that carries
/// its own ignore rule becomes the scope, unless it already lies inside the
/// tracked scope's directory.
pub open spec fn scope_after(scope: Option<DirEntry>, e: DirEntry) -> Option<DirEntry> {
    if e.ignore is Some {
        match scope {
            Option::None => Option::Some(e),
            Option::Some(s) => if !path_in_scope(s.path@, e.path@) {
                Option::Some(e)
            } else {
                scope
            },
        }
    } else {
        scope
    }
}

/// Whether the global exclude matcher blocks `p`.
pub open spec fn exclude_blocks(exclude: Option<Pattern>, p: Seq<char>) -> bool {
    match exclude {
        Option::Some(m) => pattern_matches(m.src(), m.ci(), m.ml(), p),
        Option::None => false,
    }
}

/// Whether the active ignore scope blocks `p`.
pub open spec fn scope_blocks(scope: Option<DirEntry>, p: Seq<char>) -> bool {
    match scope {
        Option::Some(d) => match d.ignore {
            Option::Some(m) => pattern_matches(m.src(), m.ci(), m.ml(), p),
            Option::None => false,
        },
        Option::None => false,
    }
}

/// The test a dequeued path must pass to be scanned or recursed into:
/// neither the global exclude matcher nor the active ignore scope matches it.
pub open spec fn admitted(exclude: Option<Pattern>, scope: Option<DirEntry>, p: Seq<char>) -> bool {
    !exclude_blocks(exclude, p) && !scope_blocks(scope, p)
}

/// Exclusion precedence: a path the global exclude matcher matches is never
/// admitted, whatever the ignore scope holds.
pub proof fn lemma_exclude_precedence(m: Pattern, scope: Option<DirEntry>, p: Seq<char>)
    requires
        pattern_matches(m.src(), m.ci(), m.ml(), p),
    ensures
        !admitted(Option::Some(m), scope, p),
{
}

/// The traversal state: the work queue, front first, and the most specific
/// ignore scope seen so far.
pub struct Traversal {
    pub queue: Vec<DirEntry>,
    pub scope: Option<DirEntry>,
}

/// Decides `path_in_scope` on concrete paths.
fn path_in_scope_exec(scope: &str, p: &str) -> (r: bool)
    ensures
        r == path_in_scope(scope@, p@),
{
    let ls = scope.unicode_len();
    let lp = p.unicode_len();
    if lp == ls {
        crate::text::str_eq(p, scope)
    } else if lp > ls {
        if p.get_char(ls) != '/' {
            return false;
        }
        let mut i: usize = 0;
        while i < ls
            invariant
                i <= ls,
                ls < lp,
                ls == scope@.len(),
                lp == p@.len(),
                forall|j: int| 0 <= j < i ==> p@[j] == scope@[j],
            decreases ls - i,
        {
            if p.get_char(i) != scope.get_char(i) {
                proof {
                    assert(p@.subrange(0, ls as int)[i as int] != scope@[i as int]);
                    assert(p@.len() != scope@.len());
                }
                return false;
            }
            i += 1;
        }
        proof {
            assert(p@.subrange(0, ls as int) =~= scope@);
            assert(p@.len() != scope@.len());
        }
        true
    } else {
        proof {
            assert(p@.len() != scope@.len());
        }
        false
    }
}

impl Traversal {
    /// A traversal about to start at `root`, whose own ignore rule the caller
    /// has already resolved; no scope is in force yet.
    pub fn new(root: DirEntry) -> (r: Traversal)
        ensures
            r.queue@ =~= seq![root],
            r.scope is None,
    {
        let mut queue: Vec<DirEntry> = Vec::new();
        queue.push(root);
        Traversal { queue, scope: None }
    }

    /// Dequeues the front entry, adopts its ignore rule as the new scope when
    /// the entry qualifies, and hands back the dequeued path; `None` means
    /// the traversal is over.
    pub fn next_entry(&mut self) -> (r: Option<String>)
        ensures
            old(self).queue@.len() == 0 ==> r is None && *final(self) == *old(self),
            old(self).queue@.len() > 0 ==> {
                &&& r matches Some(p) && p@ == old(self).queue@[0].path@
                &&& final(self).queue@ == old(self).queue@.drop_first()
                &&& final(self).scope == scope_after(old(self).scope, old(self).queue@[0])
            },
    {
        if self.queue.len() == 0 {
            return None;
        }
        let e = self.queue.remove(0);
        proof {
            assert(self.queue@ =~= old(self).queue@.drop_first());
        }
        let p = e.path.clone();
        let adopt: bool = match (&self.scope, &e.ignore) {
            (_, None) => false,
            (None, Some(_)) => true,
            (Some(s), Some(_)) => !path_in_scope_exec(s.path.as_str(), e.path.as_str()),
        };
        if adopt {
            self.scope = Some(e);
        }
        Some(p)
    }

    /// Front-pushes the children of a directory, first child ending up
    /// closest to the front last: the children are visited, in reversed
    /// enumeration order, before everything already queued.
    pub fn push_children(&mut self, children: Vec<DirEntry>)
        ensures
            final(self).queue@ == children@.reverse() + old(self).queue@,
            final(self).scope == old(self).scope,
    {
        let mut rest = children;
        let ghost orig = rest@;
        let total = rest.len();
        let mut k: usize = 0;
        while rest.len() > 0
            invariant
                total == orig.len(),
                k == orig.len() - rest@.len(),
                0 <= k <= orig.len(),
                rest@ == orig.subrange(k as int, orig.len() as int),
                self.queue@ == orig.subrange(0, k as int).reverse() + old(self).queue@,
                self.scope == old(self).scope,
            decreases rest@.len(),
    {
            let c = rest.remove(0);
            proof {
                assert(rest@ =~= orig.subrange(k + 1, orig.len() as int));
                assert(c == orig[k as int]);
            }
            self.queue.insert(0, c);
            proof {
                assert(self.queue@ =~= orig.subrange(0, k + 1).reverse() + old(self).queue@);
            }
            k += 1;
        }
        proof {
            assert(orig.subrange(0, orig.len() as int) =~= orig);
        }
    }

    /// Decides, for a dequeued path, whether it may be scanned or recursed
    /// into: true when neither the global exclude matcher nor the active
    /// ignore scope matches it.
    pub fn admits(&self, exclude: &Option<Pattern>, path: &str) -> (r: bool)
        ensures
            r == admitted(*exclude, self.scope, path@),
    {
        let excluded = match exclude {
            Some(m) => m.is_match(path),
            None => false,
        };
        if excluded {
            return false;
        }
        let blocked = match &self.scope {
            Some(d) => match &d.ignore {
                Some(m) => m.is_match(path),
                None => false,
            },
            None => false,
        };
        !blocked
    }
}

} // verus!
