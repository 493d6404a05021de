//! Canonical ids. A team is linked by a path that may redirect; the
//! canonical id is where the path leads. Following a redirect needs the
//! network, so the caller follows them and hands the results over as a table.

use crate::text::equal_text;
use vstd::prelude::*;

verus! {

/// A table of followed redirects: each entry a path and where it leads.
#[derive(Debug)]
pub struct Redirects {
    pub entries: Vec<(String, String)>,
}

impl View for Redirects {
    type V = Seq<(Seq<char>, Seq<char>)>;

    open spec fn view(&self) -> Seq<(Seq<char>, Seq<char>)> {
        self.entries.deep_view()
    }
}

/// The canonical id of a path: where the first entry for the path leads, and
/// the path itself where the table has no entry for it.
pub open spec fn canonical(entries: Seq<(Seq<char>, Seq<char>)>, path: Seq<char>) -> Seq<char>
    decreases entries.len(),
{
    if entries.len() == 0 {
        path
    } else if entries[0].0 == path {
        entries[0].1
    } else {
        canonical(entries.drop_first(), path)
    }
}

/// The canonical id of a path that the first entries of a table do not
/// hold is the one that the remaining entries give.
pub proof fn lemma_canonical_skips(entries: Seq<(Seq<char>, Seq<char>)>, path: Seq<char>, n: int)
    requires
        0 <= n <= entries.len(),
        forall|i: int| 0 <= i < n ==> (#[trigger] entries[i]).0 != path,
    ensures
        canonical(entries, path) == canonical(entries.skip(n), path),
    decreases n,
{
    if n == 0 {
        assert(entries.skip(0) == entries);
    } else {
        let rest = entries.drop_first();
        assert(entries[0].0 != path);
        assert forall|i: int| 0 <= i < n - 1 implies (#[trigger] rest[i]).0 != path by {
            assert(rest[i] == entries[i + 1]);
        }
        lemma_canonical_skips(rest, path, n - 1);
        assert(rest.skip(n - 1) == entries.skip(n));
    }
}

impl Redirects {
    /// A table without entries: every path is its own canonical id.
    pub fn new() -> (table: Redirects)
        ensures
            table@.len() == 0,
    {
        Redirects { entries: Vec::new() }
    }

    /// The place of the first entry for a path, if the table has one.
    pub fn place_of(&self, path: &str) -> (place: Option<usize>)
        ensures
            match place {
                Some(at) => {
                    &&& at < self@.len()
                    &&& self@[at as int].0 == path@
                    &&& forall|i: int| 0 <= i < at ==> (#[trigger] self@[i]).0 != path@
                },
                None => forall|i: int| 0 <= i < self@.len() ==> (#[trigger] self@[i]).0 != path@,
            },
    {
        let mut at: usize = 0;
        while at < self.entries.len()
            invariant
                at <= self.entries.len(),
                forall|i: int| 0 <= i < at ==> (#[trigger] self@[i]).0 != path@,
            decreases self.entries.len() - at,
        {
            let entry = &self.entries[at];
            assert(self@[at as int] == (entry.0@, entry.1@));
            if equal_text(entry.0.as_str(), path) {
                return Some(at);
            }
            at = at + 1;
        }
        None
    }

    /// Tells whether the table has an entry for a path.
    pub fn holds(&self, path: &str) -> (held: bool)
        ensures
            held == (exists|i: int| 0 <= i < self@.len() && self@[i].0 == path@),
    {
        self.place_of(path).is_some()
    }

    /// The canonical id of a path.
    pub fn canonical_id(&self, path: &str) -> (id: String)
        ensures
            id@ == canonical(self@, path@),
    {
        match self.place_of(path) {
            Some(at) => {
                proof {
                    lemma_canonical_skips(self@, path@, at as int);
                    assert(self@.skip(at as int)[0] == self@[at as int]);
                }
                let entry = &self.entries[at];
                assert(self@[at as int] == (entry.0@, entry.1@));
                entry.1.clone()
            },
            None => {
                proof {
                    lemma_canonical_skips(self@, path@, self@.len() as int);
                }
                path.to_owned()
            },
        }
    }
}

} // verus!
