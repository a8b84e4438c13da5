//! The vocabulary: the known tokens, each with the index of its column.
//!
//! Indices are dense: a vocabulary of `V` tokens uses exactly the indices
//! `0..V`, and no token occurs twice.

use crate::error::ErrorKind;
use crate::text::texts;
use vstd::prelude::*;

verus! {

/// The known tokens, in the order of their indices.
#[derive(Clone, Debug)]
pub struct Vocabulary {
    tokens: Vec<String>,
}

impl View for Vocabulary {
    type V = Seq<Seq<char>>;

    /// The tokens by index.
    closed spec fn view(&self) -> Seq<Seq<char>> {
        texts(self.tokens@)
    }
}

/// The pairs of token and index that a list of entries stands for.
pub open spec fn entry_views(entries: Seq<(String, usize)>) -> Seq<(Seq<char>, usize)> {
    entries.map_values(|e: (String, usize)| (e.0@, e.1))
}

/// The entries of a vocabulary: each token with its index, in index order.
pub open spec fn entries_of(tokens: Seq<Seq<char>>) -> Seq<(Seq<char>, usize)> {
    Seq::new(tokens.len(), |j: int| (tokens[j], j as usize))
}

/// Whether some entry has the index `j`.
pub open spec fn has_index(entries: Seq<(Seq<char>, usize)>, j: int) -> bool {
    exists|k: int| 0 <= k < entries.len() && (#[trigger] entries[k]).1 == j
}

/// Whether `entries` describe a vocabulary: the indices are exactly
/// `0..entries.len()`, each once, and no token occurs twice.
pub open spec fn valid_entries(entries: Seq<(Seq<char>, usize)>) -> bool {
    &&& forall|k: int| 0 <= k < entries.len() ==> (#[trigger] entries[k]).1 < entries.len()
    &&& forall|k: int, m: int|
        0 <= k < m < entries.len() ==> (#[trigger] entries[k]).1 != (#[trigger] entries[m]).1
    &&& forall|j: int| 0 <= j < entries.len() ==> #[trigger] has_index(entries, j)
    &&& forall|k: int, m: int|
        0 <= k < m < entries.len() ==> (#[trigger] entries[k]).0 != (#[trigger] entries[m]).0
}

/// The position in `entries` of the entry with index `j`.
pub open spec fn entry_at(entries: Seq<(Seq<char>, usize)>, j: int) -> int {
    choose|k: int| 0 <= k < entries.len() && (#[trigger] entries[k]).1 == j
}

/// The tokens by index that `entries` describe, if they describe a
/// vocabulary.
pub open spec fn decoded(entries: Seq<(Seq<char>, usize)>) -> Option<Seq<Seq<char>>> {
    if valid_entries(entries) {
        Some(Seq::new(entries.len(), |j: int| entries[entry_at(entries, j)].0))
    } else {
        None
    }
}

/// The index of `token` in `tokens`, if it occurs there.
pub open spec fn position_of(tokens: Seq<Seq<char>>, token: Seq<char>) -> Option<usize> {
    if tokens.contains(token) {
        Some(tokens.index_of(token) as usize)
    } else {
        None
    }
}

impl Vocabulary {
    /// No token occurs twice, and the indices fit the machine.
    pub open spec fn wf(&self) -> bool {
        &&& self@.no_duplicates()
        &&& self@.len() <= usize::MAX
    }

    /// The vocabulary without tokens.
    pub fn new() -> (v: Self)
        ensures
            v@ == Seq::<Seq<char>>::empty(),
            v.wf(),
    {
        let v = Vocabulary { tokens: Vec::new() };
        assert(v@ =~= Seq::<Seq<char>>::empty());
        v
    }

    /// The number of tokens.
    pub fn len(&self) -> (n: usize)
        ensures
            n == self@.len(),
    {
        self.tokens.len()
    }

    /// The token with the given index.
    pub fn token(&self, index: usize) -> (t: Option<&String>)
        ensures
            match t {
                Some(s) => index < self@.len() && s@ == self@[index as int],
                None => index >= self@.len(),
            },
    {
        if index < self.tokens.len() {
            Some(&self.tokens[index])
        } else {
            None
        }
    }

    /// The index of `token`, if the vocabulary holds it.
    pub fn index_of(&self, token: &str) -> (index: Option<usize>)
        requires
            self.wf(),
        ensures
            index == position_of(self@, token@),
            index matches Some(j) ==> j < self@.len() && self@[j as int] == token@,
            index is None ==> !self@.contains(token@),
    {
        let wanted = token.to_owned();
        let n = self.tokens.len();
        let mut j: usize = 0;
        while j < n
            invariant
                j <= n,
                n == self.tokens.len(),
                self.wf(),
                wanted@ == token@,
                forall|m: int| 0 <= m < j ==> self@[m] != token@,
            decreases n - j,
        {
            if self.tokens[j] == wanted {
                proof {
                    assert(self@[j as int] == token@);
                    let found = self@.index_of(token@);
                    assert(0 <= found < self@.len() && self@[found] == token@);
                }
                return Some(j);
            }
            j += 1;
        }
        None
    }

    /// Adds `token` at the next free index unless the vocabulary holds it
    /// already. Returns the index that the token has afterwards.
    pub fn insert(&mut self, token: &str) -> (index: usize)
        requires
            old(self).wf(),
        ensures
            final(self).wf(),
            final(self)@ == if old(self)@.contains(token@) {
                old(self)@
            } else {
                old(self)@.push(token@)
            },
            index < final(self)@.len(),
            final(self)@[index as int] == token@,
            Some(index) == position_of(final(self)@, token@),
    {
        match self.index_of(token) {
            Some(j) => j,
            None => {
                let j = self.tokens.len();
                let owned = token.to_owned();
                self.tokens.push(owned);
                let size = self.tokens.len();
                assert(self@.len() == size);
                assert(self@ =~= old(self)@.push(token@));
                assert(self@[j as int] == token@);
                j
            },
        }
    }

    /// Each token with its index, in index order.
    pub fn entries(&self) -> (pairs: Vec<(String, usize)>)
        ensures
            entry_views(pairs@) == entries_of(self@),
    {
        let n = self.tokens.len();
        let mut pairs: Vec<(String, usize)> = Vec::new();
        let mut j: usize = 0;
        while j < n
            invariant
                j <= n,
                n == self.tokens.len(),
                pairs.len() == j,
                forall|m: int| 0 <= m < j ==> (#[trigger] pairs@[m]).0@ == self@[m] && pairs@[m].1 == m,
            decreases n - j,
        {
            pairs.push((self.tokens[j].clone(), j));
            j += 1;
        }
        assert(entry_views(pairs@) =~= entries_of(self@));
        pairs
    }

    /// Rebuilds a vocabulary from its entries, given in any order. Fails
    /// when the entries do not describe a vocabulary.
    pub fn from_entries(entries: &Vec<(String, usize)>) -> (r: Result<Vocabulary, ErrorKind>)
        ensures
            match r {
                Ok(v) => v.wf() && decoded(entry_views(entries@)) == Some(v@),
                Err(kind) => kind == ErrorKind::ArtifactCorrupt && decoded(entry_views(entries@))
                    is None,
            },
    {
        let ghost e = entry_views(entries@);
        let n = entries.len();
        // position[j] is the entry that has the index j; n while none was seen.
        let mut position: Vec<usize> = Vec::new();
        let mut j: usize = 0;
        while j < n
            invariant
                j <= n,
                position.len() == j,
                forall|m: int| 0 <= m < j ==> position@[m] == n,
            decreases n - j,
        {
            position.push(n);
            j += 1;
        }
        let mut k: usize = 0;
        while k < n
            invariant
                k <= n,
                n == entries.len(),
                position.len() == n,
                e == entry_views(entries@),
                forall|m: int|
                    0 <= m < k ==> (#[trigger] e[m]).1 < n && position@[e[m].1 as int] == m,
                forall|j: int|
                    0 <= j < n ==> #[trigger] position@[j] == n || (position@[j] < k
                        && e[position@[j] as int].1 == j),
            decreases n - k,
        {
            let index = entries[k].1;
            assert(e[k as int].1 == index);
            if index >= n {
                return Err(ErrorKind::ArtifactCorrupt);
            }
            if position[index] != n {
                assert(e[position@[index as int] as int].1 == e[k as int].1);
                return Err(ErrorKind::ArtifactCorrupt);
            }
            position.set(index, k);
            k += 1;
        }
        let mut v = Vocabulary::new();
        let mut j: usize = 0;
        while j < n
            invariant
                j <= n,
                n == entries.len(),
                position.len() == n,
                e == entry_views(entries@),
                forall|m: int|
                    0 <= m < n ==> (#[trigger] e[m]).1 < n && position@[e[m].1 as int] == m,
                forall|j: int|
                    0 <= j < n ==> #[trigger] position@[j] == n || (position@[j] < n
                        && e[position@[j] as int].1 == j),
                v.wf(),
                v@.len() == j,
                forall|m: int| 0 <= m < j ==> #[trigger] position@[m] < n,
                forall|m: int| 0 <= m < j ==> #[trigger] v@[m] == e[position@[m] as int].0,
            decreases n - j,
        {
            let p = position[j];
            if p == n {
                assert(!has_index(e, j as int));
                return Err(ErrorKind::ArtifactCorrupt);
            }
            assert(e[p as int].0 == entries@[p as int].0@);
            let ghost before = v@;
            let index = v.insert(entries[p].0.as_str());
            if index != j {
                proof {
                    let q = position@[index as int];
                    assert(e[q as int].0 == e[p as int].0);
                    assert(e[q as int].1 != e[p as int].1);
                }
                return Err(ErrorKind::ArtifactCorrupt);
            }
            assert(v@ == before.push(e[p as int].0));
            j += 1;
        }
        proof {
            assert forall|j: int| 0 <= j < n implies #[trigger] has_index(e, j) by {
                assert(position@[j] < n);
                assert(e[position@[j] as int].1 == j);
            }
            assert forall|k: int, m: int| 0 <= k < m < n implies (#[trigger] e[k]).0 != (
            #[trigger] e[m]).0 by {
                assert(v@[e[k].1 as int] == e[k].0);
                assert(v@[e[m].1 as int] == e[m].0);
            }
            assert(valid_entries(e));
            assert forall|j: int| 0 <= j < n implies v@[j] == e[entry_at(e, j)].0 by {
                assert(has_index(e, j));
                let c = entry_at(e, j);
                assert(position@[e[c].1 as int] == c);
            }
            assert(v@ =~= decoded(e).unwrap());
        }
        Ok(v)
    }
}

/// Decoding the entries of a vocabulary gives the vocabulary back: what
/// `entries` lists, `from_entries` accepts and rebuilds token for token.
pub proof fn lemma_entries_round_trip(v: Vocabulary)
    requires
        v.wf(),
    ensures
        decoded(entries_of(v@)) == Some(v@),
{
    let tokens = v@;
    let e = entries_of(tokens);
    assert forall|j: int| 0 <= j < e.len() implies #[trigger] has_index(e, j) by {
        assert(e[j].1 == j);
    }
    assert(valid_entries(e));
    assert forall|j: int| 0 <= j < e.len() implies e[entry_at(e, j)].0 == tokens[j] by {
        assert(has_index(e, j));
    }
    assert(decoded(e).unwrap() =~= tokens);
}

} // verus!
