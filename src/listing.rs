//! What the user is shown: entries sorted by name without regard to case,
//! the hidden ones left out, one projected field per line; and the lookup of
//! the user's choice among them.

use vstd::prelude::*;

use crate::entry::{projected, DesktopEntry, EntryType};
use crate::registry::ids_unique;
use crate::text::{
    same_text,
    chars_le, chars_of, lemma_text_le_antisym, lemma_text_le_total, lemma_text_le_trans,
    lower_of, lowercase, text_le,
};

verus! {

/// The key an entry is sorted by: its name in lower case.
pub open spec fn sort_key(e: DesktopEntry) -> Seq<char> {
    lower_of(e.name@)
}

/// Whether `s` is ordered by key.
pub open spec fn sorted_by_key(s: Seq<DesktopEntry>) -> bool {
    forall|a: int, b: int| 0 <= a < b < s.len() ==> text_le(sort_key(#[trigger] s[a]), sort_key(#[trigger] s[b]))
}

/// Whether `p` maps the positions of a sequence of length `n` one to one
/// onto the positions of another sequence of length `n`.
pub open spec fn is_permutation(p: Seq<int>, n: nat) -> bool {
    &&& p.len() == n
    &&& forall|k: int| 0 <= k < n ==> 0 <= #[trigger] p[k] < n
    &&& forall|a: int, b: int| 0 <= a < b < n ==> #[trigger] p[a] != #[trigger] p[b]
}

/// Whether `r` is `s` reordered by `p`, ordered by key, with entries of equal
/// key in their order in `s`.
pub open spec fn stable_sort_by(r: Seq<DesktopEntry>, s: Seq<DesktopEntry>, p: Seq<int>) -> bool {
    &&& r.len() == s.len()
    &&& is_permutation(p, s.len())
    &&& forall|k: int| 0 <= k < r.len() ==> r[k] == s[#[trigger] p[k]]
    &&& sorted_by_key(r)
    &&& forall|a: int, b: int|
        0 <= a < b < r.len() && sort_key(#[trigger] r[a]) == sort_key(#[trigger] r[b]) ==> p[a] < p[b]
}

/// Whether `r` is the stable sort of `s` by key.
pub open spec fn is_stable_sort(r: Seq<DesktopEntry>, s: Seq<DesktopEntry>) -> bool {
    exists|p: Seq<int>| stable_sort_by(r, s, p)
}

/// Sorts entries by name, compared in lower case; entries whose names agree
/// that way keep their order.
pub fn sort_entries(entries: &Vec<DesktopEntry>) -> (r: Vec<DesktopEntry>)
    ensures
        is_stable_sort(r@, entries@),
{
    let mut out: Vec<DesktopEntry> = Vec::new();
    let mut keys: Vec<Vec<char>> = Vec::new();
    let ghost mut idx: Seq<int> = Seq::empty();
    let mut i: usize = 0;
    while i < entries.len()
        invariant
            i <= entries@.len(),
            out@.len() == i,
            keys@.len() == i,
            idx.len() == i,
            forall|k: int| 0 <= k < i ==> (#[trigger] keys@[k])@ == sort_key(out@[k]),
            forall|k: int| 0 <= k < i ==> 0 <= #[trigger] idx[k] < i,
            forall|k: int| 0 <= k < i ==> out@[k] == entries@[#[trigger] idx[k]],
            forall|a: int, b: int| 0 <= a < b < i ==> #[trigger] idx[a] != #[trigger] idx[b],
            forall|a: int, b: int| 0 <= a < b < i ==> text_le(#[trigger] keys@[a]@, #[trigger] keys@[b]@),
            forall|a: int, b: int|
                0 <= a < b < i && (#[trigger] keys@[a])@ == (#[trigger] keys@[b])@ ==> idx[a] < idx[b],
        decreases entries.len() - i,
    {
        let e = entries[i].duplicate();
        let low = lowercase(e.name.as_str());
        let key = chars_of(low.as_str());
        let mut p: usize = 0;
        while p < keys.len() && chars_le(&keys[p], &key)
            invariant
                p <= keys@.len(),
                forall|k: int| 0 <= k < p ==> text_le(#[trigger] keys@[k]@, key@),
            decreases keys.len() - p,
        {
            p = p + 1;
        }
        proof {
            if p < keys@.len() {
                lemma_text_le_total(keys@[p as int]@, key@);
                assert forall|l: int| p <= l < i implies text_le(key@, #[trigger] keys@[l]@) && keys@[l]@ != key@ by {
                    if l > p {
                        lemma_text_le_trans(key@, keys@[p as int]@, keys@[l]@);
                        if keys@[l]@ == key@ {
                            assert(text_le(keys@[p as int]@, keys@[l]@));
                        }
                    }
                }
            }
        }
        let ghost old_keys = keys@;
        let ghost old_out = out@;
        let ghost old_idx = idx;
        out.insert(p, e);
        keys.insert(p, key);
        proof {
            idx = idx.insert(p as int, i as int);
            assert forall|a: int, b: int| 0 <= a < b < i + 1 implies text_le(#[trigger] keys@[a]@, #[trigger] keys@[b]@) by {
                if b < p {
                    assert(keys@[a] == old_keys[a] && keys@[b] == old_keys[b]);
                } else if b == p {
                    assert(keys@[a] == old_keys[a]);
                } else if a < p {
                    assert(keys@[a] == old_keys[a] && keys@[b] == old_keys[b - 1]);
                    lemma_text_le_trans(keys@[a]@, key@, keys@[b]@);
                } else if a == p {
                    assert(keys@[b] == old_keys[b - 1]);
                } else {
                    assert(keys@[a] == old_keys[a - 1] && keys@[b] == old_keys[b - 1]);
                }
            }
            assert forall|a: int, b: int|
                0 <= a < b < i + 1 && (#[trigger] keys@[a])@ == (#[trigger] keys@[b])@ implies idx[a] < idx[b] by {
                if b < p {
                    assert(keys@[a] == old_keys[a] && keys@[b] == old_keys[b]);
                } else if b == p {
                    assert(keys@[a] == old_keys[a]);
                } else if a < p {
                    assert(keys@[a] == old_keys[a] && keys@[b] == old_keys[b - 1]);
                } else if a == p {
                    assert(keys@[b] == old_keys[b - 1]);
                } else {
                    assert(keys@[a] == old_keys[a - 1] && keys@[b] == old_keys[b - 1]);
                }
            }
            assert forall|a: int, b: int| 0 <= a < b < i + 1 implies #[trigger] idx[a] != #[trigger] idx[b] by {
                if b < p {
                } else if b == p {
                } else if a < p {
                    assert(idx[b] == old_idx[b - 1]);
                } else if a == p {
                    assert(idx[b] == old_idx[b - 1]);
                } else {
                    assert(idx[a] == old_idx[a - 1] && idx[b] == old_idx[b - 1]);
                }
            }
            assert forall|k: int| 0 <= k < i + 1 implies (#[trigger] keys@[k])@ == sort_key(out@[k]) by {
                if k < p {
                } else if k == p {
                } else {
                    assert(keys@[k] == old_keys[k - 1] && out@[k] == old_out[k - 1]);
                }
            }
            assert forall|k: int| 0 <= k < i + 1 implies out@[k] == entries@[#[trigger] idx[k]] by {
                if k < p {
                } else if k == p {
                } else {
                    assert(idx[k] == old_idx[k - 1] && out@[k] == old_out[k - 1]);
                }
            }
        }
        i = i + 1;
    }
    proof {
        assert forall|a: int, b: int| 0 <= a < b < out@.len() implies text_le(
            sort_key(#[trigger] out@[a]),
            sort_key(#[trigger] out@[b]),
        ) by {
            assert(keys@[a]@ == sort_key(out@[a]) && keys@[b]@ == sort_key(out@[b]));
        }
        assert forall|a: int, b: int|
            0 <= a < b < out@.len() && sort_key(#[trigger] out@[a]) == sort_key(
                #[trigger] out@[b],
            ) implies idx[a] < idx[b] by {
            assert(keys@[a]@ == sort_key(out@[a]) && keys@[b]@ == sort_key(out@[b]));
        }
        assert(stable_sort_by(out@, entries@, idx));
    }
    out
}

/// Of entries sorted by key, any that stands between two of equal key has
/// that key too: entries whose names differ only in case stand together.
pub proof fn lemma_equal_keys_adjacent(s: Seq<DesktopEntry>, a: int, m: int, b: int)
    requires
        sorted_by_key(s),
        0 <= a < m < b < s.len(),
        sort_key(s[a]) == sort_key(s[b]),
    ensures
        sort_key(s[m]) == sort_key(s[a]),
{
    assert(text_le(sort_key(s[a]), sort_key(s[m])));
    assert(text_le(sort_key(s[m]), sort_key(s[b])));
    lemma_text_le_antisym(sort_key(s[a]), sort_key(s[m]));
}


/// The text shown to the user: for each visible entry in order, its field
/// under `t` followed by a newline.
pub open spec fn listing_of(s: Seq<DesktopEntry>, t: EntryType) -> Seq<char>
    decreases s.len(),
{
    if s.len() == 0 {
        Seq::empty()
    } else if s.last().visible {
        listing_of(s.drop_last(), t) + projected(s.last(), t) + seq!['\n']
    } else {
        listing_of(s.drop_last(), t)
    }
}

/// The lines shown to the user, one per visible entry, each ending in a
/// newline.
pub fn listing(entries: &Vec<DesktopEntry>, entry_type: EntryType) -> (r: String)
    ensures
        r@ == listing_of(entries@, entry_type),
{
    let mut out = String::new();
    let mut i: usize = 0;
    let newline = "\n";
    proof {
        reveal_strlit("\n");
    }
    while i < entries.len()
        invariant
            i <= entries@.len(),
            newline@ == seq!['\n'],
            out@ == listing_of(entries@.take(i as int), entry_type),
        decreases entries.len() - i,
    {
        assert(entries@.take(i + 1).drop_last() == entries@.take(i as int));
        if entries[i].visible {
            out.append(entries[i].field(&entry_type));
            out.append(newline);
        }
        i = i + 1;
    }
    assert(entries@.take(entries@.len() as int) == entries@);
    out
}

/// Whether `e` is offered to the user and shows exactly `choice` under `t`.
pub open spec fn is_match(e: DesktopEntry, t: EntryType, choice: Seq<char>) -> bool {
    e.visible && projected(e, t) == choice
}

/// The position of the first visible entry of `s` that shows `choice`
/// under `t`.
pub open spec fn first_match(s: Seq<DesktopEntry>, t: EntryType, choice: Seq<char>) -> Option<int>
    decreases s.len(),
{
    if s.len() == 0 {
        None
    } else {
        match first_match(s.drop_last(), t, choice) {
            Some(k) => Some(k),
            None => if is_match(s.last(), t, choice) {
                Some(s.len() - 1)
            } else {
                None
            },
        }
    }
}

/// The view of an optional position.
pub open spec fn opt_index(o: Option<usize>) -> Option<int> {
    match o {
        Some(k) => Some(k as int),
        None => None,
    }
}

/// Finds the first visible entry that shows exactly `choice` under
/// `entry_type`.
pub fn find_entry(entries: &Vec<DesktopEntry>, entry_type: EntryType, choice: &str) -> (r: Option<
    usize,
>)
    ensures
        opt_index(r) == first_match(entries@, entry_type, choice@),
        r matches Some(k) ==> k < entries@.len(),
{
    let mut i: usize = 0;
    while i < entries.len()
        invariant
            i <= entries@.len(),
            first_match(entries@.take(i as int), entry_type, choice@) is None,
        decreases entries.len() - i,
    {
        assert(entries@.take(i + 1).drop_last() == entries@.take(i as int));
        if entries[i].visible && same_text(entries[i].field(&entry_type), choice) {
            proof {
                lemma_first_match_extends(entries@, entry_type, choice@, i + 1);
            }
            return Some(i);
        }
        i = i + 1;
    }
    assert(entries@.take(entries@.len() as int) == entries@);
    None
}

/// A match found in a prefix stays the first match of the whole.
proof fn lemma_first_match_extends(s: Seq<DesktopEntry>, t: EntryType, c: Seq<char>, n: int)
    requires
        0 <= n <= s.len(),
        first_match(s.take(n), t, c) is Some,
    ensures
        first_match(s, t, c) == first_match(s.take(n), t, c),
    decreases s.len() - n,
{
    if n < s.len() {
        assert(s.take(n + 1).drop_last() == s.take(n));
        lemma_first_match_extends(s, t, c, n + 1);
    } else {
        assert(s.take(n) == s);
    }
}

/// The first match, where there is one, is a visible entry that shows the
/// choice, and no entry before it is.
pub proof fn lemma_first_match_is_first(s: Seq<DesktopEntry>, t: EntryType, c: Seq<char>)
    ensures
        match first_match(s, t, c) {
            Some(k) => 0 <= k < s.len() && is_match(s[k], t, c) && forall|j: int|
                0 <= j < k ==> !is_match(#[trigger] s[j], t, c),
            None => forall|j: int| 0 <= j < s.len() ==> !is_match(#[trigger] s[j], t, c),
        },
    decreases s.len(),
{
    if s.len() > 0 {
        let u = s.drop_last();
        lemma_first_match_is_first(u, t, c);
        assert forall|j: int| 0 <= j < u.len() implies #[trigger] u[j] == s[j] by {}
        match first_match(u, t, c) {
            Some(k) => {
                assert(u[k] == s[k]);
                assert forall|j: int| 0 <= j < k implies !is_match(#[trigger] s[j], t, c) by {
                    assert(u[j] == s[j]);
                }
            },
            None => {
                assert(s[s.len() - 1] == s.last());
                if is_match(s.last(), t, c) {
                    assert forall|j: int| 0 <= j < s.len() - 1 implies !is_match(#[trigger] s[j], t, c) by {
                        assert(u[j] == s[j]);
                    }
                } else {
                    assert forall|j: int| 0 <= j < s.len() implies !is_match(#[trigger] s[j], t, c) by {
                        if j < u.len() {
                            assert(u[j] == s[j]);
                        }
                    }
                }
            },
        }
    }
}

/// Showing entries by identifier and then looking up one of the lines shown
/// finds the entry the line came from, where identifiers are unique.
pub proof fn lemma_identifier_round_trip(s: Seq<DesktopEntry>, k: int)
    requires
        ids_unique(s),
        0 <= k < s.len(),
        s[k].visible,
    ensures
        first_match(s, EntryType::Filename, projected(s[k], EntryType::Filename)) == Some(k),
{
    let c = projected(s[k], EntryType::Filename);
    lemma_first_match_is_first(s, EntryType::Filename, c);
    match first_match(s, EntryType::Filename, c) {
        Some(m) => {
            assert(s[m].filename@ == s[k].filename@);
        },
        None => {
            assert(is_match(s[k], EntryType::Filename, c));
        },
    }
}

} // verus!
