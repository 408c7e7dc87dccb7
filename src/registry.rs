//! The registry: one entry per identifier, the first one met in directory
//! precedence order.

use vstd::prelude::*;

use crate::entry::DesktopEntry;
use crate::text::same_text;

verus! {

/// Whether some entry of `s` has identifier `id`.
pub open spec fn has_id(s: Seq<DesktopEntry>, id: Seq<char>) -> bool {
    exists|k: int| 0 <= k < s.len() && #[trigger] s[k].filename@ == id
}

/// No two entries of `s` share an identifier.
pub open spec fn ids_unique(s: Seq<DesktopEntry>) -> bool {
    forall|a: int, b: int|
        0 <= a < s.len() && 0 <= b < s.len() && #[trigger] s[a].filename@ == #[trigger] s[b].filename@
            ==> a == b
}

/// The entries of `s` kept by first-seen-wins merging, in the order met.
pub open spec fn merged(s: Seq<DesktopEntry>) -> Seq<DesktopEntry>
    decreases s.len(),
{
    if s.len() == 0 {
        Seq::empty()
    } else {
        let m = merged(s.drop_last());
        if has_id(m, s.last().filename@) {
            m
        } else {
            m.push(s.last())
        }
    }
}

/// The entries of all directories, one directory after the other.
pub open spec fn flat(dirs: Seq<Seq<DesktopEntry>>) -> Seq<DesktopEntry>
    decreases dirs.len(),
{
    if dirs.len() == 0 {
        Seq::empty()
    } else {
        flat(dirs.drop_last()) + dirs.last()
    }
}

/// The entries of each directory's list.
pub open spec fn dir_views(dirs: Seq<Vec<DesktopEntry>>) -> Seq<Seq<DesktopEntry>> {
    dirs.map_values(|v: Vec<DesktopEntry>| v@)
}

/// Every entry that merging keeps comes from the input.
pub proof fn lemma_merged_from_input(s: Seq<DesktopEntry>)
    ensures
        forall|k: int| 0 <= k < merged(s).len() ==> s.contains(#[trigger] merged(s)[k]),
    decreases s.len(),
{
    if s.len() > 0 {
        let t = s.drop_last();
        lemma_merged_from_input(t);
        assert forall|k: int| 0 <= k < merged(s).len() implies s.contains(#[trigger] merged(s)[k]) by {
            if k < merged(t).len() {
                let j = choose|j: int| 0 <= j < t.len() && t[j] == merged(t)[k];
                assert(s[j] == t[j]);
            } else {
                assert(s[s.len() - 1] == s.last());
            }
        }
    }
}

/// Merging keeps at most one entry per identifier.
pub proof fn lemma_merged_unique(s: Seq<DesktopEntry>)
    ensures
        ids_unique(merged(s)),
    decreases s.len(),
{
    if s.len() > 0 {
        lemma_merged_unique(s.drop_last());
    }
}

/// Of the entries that share an identifier, merging keeps the first one in
/// precedence order and no other, whatever their visibility: the entry at
/// `i`, which no earlier entry shares its identifier with, is in the result,
/// and it is the only entry there with that identifier.
pub proof fn lemma_first_wins(s: Seq<DesktopEntry>, i: int)
    requires
        0 <= i < s.len(),
        forall|j: int| 0 <= j < i ==> #[trigger] s[j].filename@ != s[i].filename@,
    ensures
        merged(s).contains(s[i]),
        forall|k: int|
            0 <= k < merged(s).len() && #[trigger] merged(s)[k].filename@ == s[i].filename@
                ==> merged(s)[k] == s[i],
    decreases s.len(),
{
    let t = s.drop_last();
    let m = merged(t);
    if i == s.len() - 1 {
        lemma_merged_from_input(t);
        if has_id(m, s[i].filename@) {
            let k = choose|k: int| 0 <= k < m.len() && #[trigger] m[k].filename@ == s[i].filename@;
            assert(t.contains(m[k]));
            let j = choose|j: int| 0 <= j < t.len() && t[j] == m[k];
            assert(s[j] == t[j]);
        }
        assert(merged(s) == m.push(s[i]));
        assert(merged(s)[m.len() as int] == s[i]);
    } else {
        assert(t[i] == s[i]);
        assert forall|j: int| 0 <= j < i implies #[trigger] t[j].filename@ != t[i].filename@ by {
            assert(t[j] == s[j]);
        }
        lemma_first_wins(t, i);
        let k0 = choose|k: int| 0 <= k < m.len() && m[k] == s[i];
        if !has_id(m, s.last().filename@) {
            assert(merged(s) == m.push(s.last()));
            assert(m[k0].filename@ == s[i].filename@);
            assert(merged(s)[k0] == s[i]);
        }
    }
}

/// Every input list merges into the one `merged` describes, so the registry
/// holds one entry per identifier met, the first one in precedence order.
pub proof fn lemma_merge_law(dirs: Seq<Seq<DesktopEntry>>, i: int)
    requires
        0 <= i < flat(dirs).len(),
        forall|j: int| 0 <= j < i ==> #[trigger] flat(dirs)[j].filename@ != flat(dirs)[i].filename@,
    ensures
        merged(flat(dirs)).contains(flat(dirs)[i]),
        forall|k: int|
            0 <= k < merged(flat(dirs)).len() && #[trigger] merged(flat(dirs))[k].filename@
                == flat(dirs)[i].filename@ ==> merged(flat(dirs))[k] == flat(dirs)[i],
        ids_unique(merged(flat(dirs))),
{
    lemma_first_wins(flat(dirs), i);
    lemma_merged_unique(flat(dirs));
}

/// Entries keyed by identifier, in the order they were first met.
pub struct Registry {
    entries: Vec<DesktopEntry>,
}

impl Registry {
    /// The entries, in the order they were first met.
    pub closed spec fn view(&self) -> Seq<DesktopEntry> {
        self.entries@
    }

    /// An empty registry.
    pub fn new() -> (r: Registry)
        ensures
            r.view() == Seq::<DesktopEntry>::empty(),
    {
        Registry { entries: Vec::new() }
    }

    /// Whether an entry with identifier `id` is present.
    pub fn contains(&self, id: &str) -> (r: bool)
        ensures
            r == has_id(self.view(), id@),
    {
        let mut i: usize = 0;
        while i < self.entries.len()
            invariant
                i <= self.entries@.len(),
                forall|k: int| 0 <= k < i ==> #[trigger] self.entries@[k].filename@ != id@,
            decreases self.entries.len() - i,
        {
            if same_text(self.entries[i].filename.as_str(), id) {
                return true;
            }
            i = i + 1;
        }
        false
    }

    /// Adds `entry` unless an entry with its identifier is already present;
    /// tells whether it was added.
    pub fn insert(&mut self, entry: DesktopEntry) -> (added: bool)
        ensures
            added == !has_id(old(self).view(), entry.filename@),
            ids_unique(old(self).view()) ==> ids_unique(final(self).view()),
            final(self).view() == if added {
                old(self).view().push(entry)
            } else {
                old(self).view()
            },
    {
        if self.contains(entry.filename.as_str()) {
            false
        } else {
            self.entries.push(entry);
            true
        }
    }

    /// Merges the entries of each registry directory, highest precedence
    /// first: the first entry met for an identifier is kept, later ones are
    /// dropped.
    pub fn merge(dirs: &Vec<Vec<DesktopEntry>>) -> (r: Registry)
        ensures
            r.view() == merged(flat(dir_views(dirs@))),
            ids_unique(r.view()),
    {
        let mut reg = Registry::new();
        let mut i: usize = 0;
        while i < dirs.len()
            invariant
                i <= dirs@.len(),
                reg.view() == merged(flat(dir_views(dirs@).take(i as int))),
            decreases dirs.len() - i,
        {
            let ghost done = flat(dir_views(dirs@).take(i as int));
            let dir = &dirs[i];
            let mut j: usize = 0;
            assert(done + dir@.take(0) == done);
            while j < dir.len()
                invariant
                    i < dirs@.len(),
                    dir@ == dirs@[i as int]@,
                    j <= dir@.len(),
                    reg.view() == merged(done + dir@.take(j as int)),
                decreases dir.len() - j,
            {
                let e = dir[j].duplicate();
                reg.insert(e);
                assert((done + dir@.take(j + 1)).drop_last() == done + dir@.take(j as int));
                assert((done + dir@.take(j + 1)).last() == e);
                j = j + 1;
            }
            assert(dir_views(dirs@).take(i + 1).drop_last() == dir_views(dirs@).take(i as int));
            assert(dir@.take(dir@.len() as int) == dir@);
            i = i + 1;
        }
        assert(dir_views(dirs@).take(dirs@.len() as int) == dir_views(dirs@));
        proof {
            lemma_merged_unique(flat(dir_views(dirs@)));
        }
        reg
    }

    /// The entries, in the order they were first met.
    pub fn entries(&self) -> (r: &Vec<DesktopEntry>)
        ensures
            r@ == self.view(),
    {
        &self.entries
    }
}

} // verus!
