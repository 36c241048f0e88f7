//! The central command table shared by every frontend: entries are kept
//! by name, names are checked unique at registration (conflicts surface
//! at start-up, not at the first call), and listings come sorted by name.
use vstd::prelude::*;
use crate::errors;
use crate::text;

verus! {

/// Registered entries by name, with each entry's summary.
pub struct Registry<E> {
    entries: Vec<(String, String, E)>,
    /// The names accepted so far, in the order they were added.
    accepted: Ghost<Seq<Seq<char>>>,
}

/// Texts in strictly increasing order.
pub open spec fn strictly_sorted(s: Seq<Seq<char>>) -> bool {
    forall|i: int, j: int| 0 <= i < j < s.len() ==> text::lex_lt(#[trigger] s[i], #[trigger] s[j])
}

impl<E> Registry<E> {
    #[verifier::type_invariant]
    spec fn sorted_names(&self) -> bool {
        &&& strictly_sorted(self.names_spec())
        &&& self.names_spec().len() == self.accepted@.len()
        &&& forall|x: Seq<char>| self.names_spec().contains(x) <==> self.accepted@.contains(x)
        &&& forall|i: int, j: int|
            0 <= i < j < self.accepted@.len() ==> #[trigger] self.accepted@[i] != #[trigger] self.accepted@[j]
    }

    /// The names that `add` accepted, in the order they were added.
    pub closed spec fn accepted_spec(&self) -> Seq<Seq<char>> {
        self.accepted@
    }

    /// The registered names, in order.
    pub closed spec fn names_spec(&self) -> Seq<Seq<char>> {
        self.entries@.map_values(|e: (String, String, E)| e.0@)
    }

    /// The entries, in the order of their names.
    pub closed spec fn entries_spec(&self) -> Seq<E> {
        self.entries@.map_values(|e: (String, String, E)| e.2)
    }

    /// The summaries, in the order of the names.
    pub closed spec fn summaries_spec(&self) -> Seq<Seq<char>> {
        self.entries@.map_values(|e: (String, String, E)| e.1@)
    }

    /// An empty registry.
    pub fn new() -> (r: Registry<E>)
        ensures
            r.names_spec() == Seq::<Seq<char>>::empty(),
            r.accepted_spec() == Seq::<Seq<char>>::empty(),
    {
        let r = Registry { entries: Vec::new(), accepted: Ghost(Seq::empty()) };
        assert(r.names_spec() =~= Seq::<Seq<char>>::empty());
        r
    }

    /// Where `name` is, or where it would go.
    fn position(&self, name: &str) -> (r: (usize, bool))
        ensures
            r.0 <= self.names_spec().len(),
            forall|k: int| 0 <= k < r.0 ==> text::lex_lt(#[trigger] self.names_spec()[k], name@),
            r.1 ==> r.0 < self.names_spec().len() && self.names_spec()[r.0 as int] == name@,
            !r.1 ==> forall|k: int|
                r.0 <= k < self.names_spec().len() ==> text::lex_lt(name@, #[trigger] self.names_spec()[k]),
    {
        proof {
            use_type_invariant(self);
        }
        let ghost ns = self.names_spec();
        let mut i: usize = 0;
        while i < self.entries.len()
            invariant
                i <= self.entries.len(),
                ns == self.names_spec(),
                ns.len() == self.entries.len(),
                strictly_sorted(ns),
                forall|k: int| 0 <= k < i ==> text::lex_lt(#[trigger] ns[k], name@),
            decreases self.entries.len() - i,
        {
            let n = self.entries[i].0.as_str();
            assert(ns[i as int] == n@);
            if text::str_eq(n, name) {
                return (i, true);
            }
            if !text::str_lt(n, name) {
                proof {
                    text::lemma_lex_total(n@, name@);
                    assert forall|k: int| i <= k < ns.len() implies text::lex_lt(
                        name@,
                        #[trigger] ns[k],
                    ) by {
                        if k > i {
                            assert(text::lex_lt(ns[i as int], ns[k]));
                            text::lemma_lex_transitive(name@, ns[i as int], ns[k]);
                        }
                    }
                }
                return (i, false);
            }
            i += 1;
        }
        (i, false)
    }

    /// Registers an entry under `name`.  An empty name, or a name that is
    /// taken, is an error and leaves the registry as it was.
    pub fn add(&mut self, name: String, summary: String, e: E) -> (r: Result<(), errors::Error>)
        ensures
            name@.len() == 0 ==> (r matches Err(e) && e.text_spec() == "registry: entry has empty name"@),
            name@.len() > 0 && old(self).names_spec().contains(name@) ==> (r matches Err(e) && exists|k: int|
                0 <= k < old(self).names_spec().len() && old(self).names_spec()[k] == name@ && e.text_spec()
                    == "registry: name "@ + text::quoted(name@) + " already registered (existing summary "@
                    + text::quoted(#[trigger] old(self).summaries_spec()[k]) + ")"@),
            name@.len() > 0 && !old(self).names_spec().contains(name@) ==> r is Ok,
            strictly_sorted(final(self).names_spec()),
            match r {
                Ok(()) => final(self).accepted_spec() == old(self).accepted_spec().push(name@) && exists|p: int|
                    0 <= p <= old(self).names_spec().len() && final(self).names_spec() == old(self).names_spec().insert(p, name@) && final(self).entries_spec() == old(self).entries_spec().insert(p, e) && final(self).summaries_spec() == old(self).summaries_spec().insert(p, summary@),
                Err(err) => err.kind_spec() == errors::Kind::Internal && err.class_spec() == errors::Kind::Internal && final(self).accepted_spec()
                    == old(self).accepted_spec() && final(self).names_spec()
                    == old(self).names_spec() && final(self).entries_spec() == old(self).entries_spec() && final(self).summaries_spec() == old(self).summaries_spec(),
            },
    {
        proof {
            use_type_invariant(&*self);
        }
        if name.as_str().is_empty() {
            proof {
                reveal_strlit("registry: entry has empty name");
            }
            return Err(
                errors::new(errors::Kind::Internal, text::owned("registry: entry has empty name")),
            );
        }
        let (p, found) = self.position(name.as_str());
        let ghost ns = self.names_spec();
        if found {
            let mut m = text::owned("registry: name ");
            let q = text::quote(name.as_str());
            text::append(&mut m, q.as_str());
            text::append(&mut m, " already registered (existing summary ");
            let q2 = text::quote(self.entries[p].1.as_str());
            text::append(&mut m, q2.as_str());
            text::append(&mut m, ")");
            proof {
                reveal_strlit("registry: name ");
                assert(self.summaries_spec()[p as int] == self.entries@[p as int].1@);
                assert(ns[p as int] == name@);
            }
            return Err(errors::new(errors::Kind::Internal, m));
        }
        proof {
            if ns.contains(name@) {
                let k = choose|k: int| 0 <= k < ns.len() && ns[k] == name@;
                text::lemma_lex_irreflexive(name@);
                if k < p {
                    assert(text::lex_lt(ns[k], name@));
                } else {
                    assert(text::lex_lt(name@, ns[k]));
                }
            }
            use_type_invariant(&*self);
        }
        let ghost old_entries = self.entries@;
        let ghost old_acc = self.accepted@;
        let ghost nm = name@;
        let ghost sm = summary@;
        let ghost ev = e;
        let mut taken: Registry<E> = Registry::new();
        std::mem::swap(&mut taken, self);
        let Registry { entries: mut v, accepted: _ } = taken;
        assert(v@ == old_entries);
        v.insert(p, (name, summary, e));
        let ghost new_entries = v@;
        proof {
            let ns2 = new_entries.map_values(|x: (String, String, E)| x.0@);
            assert(ns2 =~= ns.insert(p as int, nm));
            assert forall|i: int, j: int| 0 <= i < j < ns2.len() implies text::lex_lt(
                #[trigger] ns2[i],
                #[trigger] ns2[j],
            ) by {
                if i == p {
                    assert(ns2[j] == ns[j - 1]);
                } else if j == p {
                    assert(ns2[i] == ns[i]);
                } else if i < p && j > p {
                    assert(ns2[i] == ns[i] && ns2[j] == ns[j - 1]);
                    text::lemma_lex_transitive(ns[i], nm, ns[j - 1]);
                } else if j < p {
                    assert(ns2[i] == ns[i] && ns2[j] == ns[j]);
                } else {
                    assert(ns2[i] == ns[i - 1] && ns2[j] == ns[j - 1]);
                }
            }
        }
        proof {
            let ns2 = new_entries.map_values(|x: (String, String, E)| x.0@);
            let acc2 = old_acc.push(nm);
            assert forall|x: Seq<char>| ns2.contains(x) <==> acc2.contains(x) by {
                lemma_insert_contains(ns, p as int, nm, x);
                if acc2.contains(x) && x != nm {
                    let k = choose|k: int| 0 <= k < acc2.len() && acc2[k] == x;
                    assert(old_acc[k] == x);
                }
                if old_acc.contains(x) {
                    let k = choose|k: int| 0 <= k < old_acc.len() && old_acc[k] == x;
                    assert(acc2[k] == x);
                }
                if x == nm {
                    assert(acc2[old_acc.len() as int] == nm);
                }
            }
            assert forall|i: int, j: int| 0 <= i < j < acc2.len() implies #[trigger] acc2[i] != #[trigger] acc2[j] by {
                if j == old_acc.len() && acc2[i] == acc2[j] {
                    assert(old_acc[i] == nm);
                    assert(old_acc.contains(nm));
                }
            }
        }
        *self = Registry { entries: v, accepted: Ghost(old_acc.push(nm)) };
        proof {
            assert(self.entries@ == old_entries.insert(p as int, self.entries@[p as int]));
            assert(self.names_spec() =~= ns.insert(p as int, nm));
            assert(self.entries_spec() =~= old_entries.map_values(|x: (String, String, E)| x.2).insert(
                p as int,
                ev,
            ));
            assert(self.summaries_spec() =~= old_entries.map_values(|x: (String, String, E)| x.1@).insert(
                p as int,
                sm,
            ));
        }
        Ok(())
    }

    /// The entry registered under `name`.
    pub fn get(&self, name: &str) -> (r: Option<&E>)
        ensures
            match r {
                Some(e) => exists|k: int|
                    0 <= k < self.names_spec().len() && self.names_spec()[k] == name@
                        && self.entries_spec()[k] == *e,
                None => !self.names_spec().contains(name@),
            },
            strictly_sorted(self.names_spec()),
    {
        proof {
            use_type_invariant(self);
        }
        let (p, found) = self.position(name);
        if found {
            assert(self.entries_spec()[p as int] == self.entries@[p as int].2);
            Some(&self.entries[p].2)
        } else {
            proof {
                if self.names_spec().contains(name@) {
                    let k = choose|k: int|
                        0 <= k < self.names_spec().len() && self.names_spec()[k] == name@;
                    text::lemma_lex_irreflexive(name@);
                    if k < p {
                        assert(text::lex_lt(self.names_spec()[k], name@));
                    } else {
                        assert(text::lex_lt(name@, self.names_spec()[k]));
                    }
                }
            }
            None
        }
    }

    /// Every registered name, sorted: whatever names were accepted by
    /// [`Registry::add`] since [`Registry::new`], in ascending order, each
    /// once, and no other.
    pub fn names(&self) -> (r: Vec<String>)
        ensures
            text::views(r@) == self.names_spec(),
            strictly_sorted(text::views(r@)),
            forall|i: int, j: int| 0 <= i < r@.len() && 0 <= j < r@.len() && i != j ==> r@[i]@ != r@[j]@,
            text::views(r@).len() == self.accepted_spec().len(),
            forall|x: Seq<char>| text::views(r@).contains(x) <==> self.accepted_spec().contains(x),
    {
        proof {
            use_type_invariant(self);
            lemma_sorted_unique(self.names_spec());
        }
        let mut r: Vec<String> = Vec::new();
        let mut i: usize = 0;
        while i < self.entries.len()
            invariant
                i <= self.entries.len(),
                text::views(r@) == self.names_spec().take(i as int),
            decreases self.entries.len() - i,
        {
            let ghost before = text::views(r@);
            r.push(self.entries[i].0.clone());
            assert(text::views(r@) == before.push(self.entries@[i as int].0@));
            assert(self.names_spec().take(i + 1) == self.names_spec().take(i as int).push(
                self.names_spec()[i as int],
            ));
            i += 1;
        }
        assert(self.names_spec().take(i as int) == self.names_spec());
        assert forall|a: int, b: int| 0 <= a < r@.len() && 0 <= b < r@.len() && a != b implies r@[a]@ != r@[b]@ by {
            assert(text::views(r@)[a] == r@[a]@);
            assert(text::views(r@)[b] == r@[b]@);
        }
        r
    }

    /// Every entry, in the order of the names.
    pub fn all(&self) -> (r: Vec<&E>)
        ensures
            r@.len() == self.entries_spec().len(),
            forall|k: int| 0 <= k < r@.len() ==> *r@[k] == self.entries_spec()[k],
    {
        let mut r: Vec<&E> = Vec::new();
        let mut i: usize = 0;
        while i < self.entries.len()
            invariant
                i <= self.entries.len(),
                r@.len() == i,
                self.entries_spec().len() == self.entries.len(),
                forall|k: int| 0 <= k < i ==> *r@[k] == self.entries_spec()[k],
            decreases self.entries.len() - i,
        {
            r.push(&self.entries[i].2);
            i += 1;
        }
        r
    }

    /// Every `(name, summary)` pair, in the order of the names.
    pub fn summaries(&self) -> (r: Vec<(String, String)>)
        ensures
            r@.len() == self.names_spec().len(),
            forall|k: int|
                0 <= k < r@.len() ==> (#[trigger] r@[k]).0@ == self.names_spec()[k] && r@[k].1@
                    == self.summaries_spec()[k],
    {
        let mut r: Vec<(String, String)> = Vec::new();
        let mut i: usize = 0;
        while i < self.entries.len()
            invariant
                i <= self.entries.len(),
                r@.len() == i,
                self.names_spec().len() == self.entries.len(),
                self.summaries_spec().len() == self.entries.len(),
                forall|k: int|
                    0 <= k < i ==> (#[trigger] r@[k]).0@ == self.names_spec()[k] && r@[k].1@
                        == self.summaries_spec()[k],
            decreases self.entries.len() - i,
        {
            r.push((self.entries[i].0.clone(), self.entries[i].1.clone()));
            i += 1;
        }
        r
    }
}

/// Registered names are unique.
pub proof fn lemma_sorted_unique(s: Seq<Seq<char>>)
    requires
        strictly_sorted(s),
    ensures
        forall|i: int, j: int| 0 <= i < s.len() && 0 <= j < s.len() && i != j ==> s[i] != s[j],
{
    assert forall|i: int, j: int| 0 <= i < s.len() && 0 <= j < s.len() && i != j implies s[i]
        != s[j] by {
        if i < j {
            assert(text::lex_lt(s[i], s[j]));
        } else {
            assert(text::lex_lt(s[j], s[i]));
        }
        text::lemma_lex_irreflexive(s[i]);
    }
}

/// What a read gives back of a write: once `add` put `e` under `name`
/// (at position `p`), the one entry under `name` is `e`, so `get(name)`
/// finds `e`; every other entry keeps its name.
pub proof fn lemma_get_after_add<E>(
    names: Seq<Seq<char>>,
    entries: Seq<E>,
    p: int,
    name: Seq<char>,
    e: E,
)
    requires
        0 <= p <= names.len(),
        names.len() == entries.len(),
        strictly_sorted(names.insert(p, name)),
    ensures
        forall|k: int|
            0 <= k < names.len() + 1 && names.insert(p, name)[k] == name ==> entries.insert(p, e)[k]
                == e,
        forall|k: int|
            0 <= k < names.len() ==> names.insert(p, name)[if k < p {
                k
            } else {
                k + 1
            }] == names[k] && entries.insert(p, e)[if k < p {
                k
            } else {
                k + 1
            }] == entries[k],
{
    let ns = names.insert(p, name);
    lemma_sorted_unique(ns);
    assert(ns[p] == name);
    assert forall|k: int| 0 <= k < names.len() + 1 && ns[k] == name implies entries.insert(p, e)[k]
        == e by {
        if k != p {
            assert(ns[k] != ns[p]);
        }
    }
}


proof fn lemma_insert_contains(s: Seq<Seq<char>>, p: int, n: Seq<char>, x: Seq<char>)
    requires
        0 <= p <= s.len(),
    ensures
        s.insert(p, n).contains(x) <==> (s.contains(x) || x == n),
{
    let t = s.insert(p, n);
    if s.contains(x) {
        let k = choose|k: int| 0 <= k < s.len() && s[k] == x;
        if k < p {
            assert(t[k] == x);
        } else {
            assert(t[k + 1] == x);
        }
    }
    if x == n {
        assert(t[p] == n);
    }
    if t.contains(x) {
        let k = choose|k: int| 0 <= k < t.len() && t[k] == x;
        if k < p {
            assert(s[k] == x);
        } else if k > p {
            assert(s[k - 1] == x);
        }
    }
}

} // verus!
