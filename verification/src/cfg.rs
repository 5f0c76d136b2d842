use vstd::prelude::*;

verus! {

/// A `#[cfg(...)]` attribute, holding its predicate as token text.
#[derive(Clone, Debug)]
pub struct ParseAttributeCfg {
    pub predicate: String,
}

/// The deduced state of each `#[cfg]` predicate, keyed by its token text.
/// Inserting a predicate again replaces its state.
pub struct CfgLookup {
    entries: Vec<(String, bool)>,
}

impl View for CfgLookup {
    type V = Map<Seq<char>, bool>;

    closed spec fn view(&self) -> Map<Seq<char>, bool> {
        Map::new(
            |p: Seq<char>| exists|i: int| 0 <= i < self.entries@.len() && (#[trigger] self.entries@[i]).0@ == p,
            |p: Seq<char>| {
                let i = choose|i: int| 0 <= i < self.entries@.len() && (#[trigger] self.entries@[i]).0@ == p;
                self.entries@[i].1
            },
        )
    }
}

impl CfgLookup {
    /// Every predicate occurs at most once.
    pub closed spec fn wf(&self) -> bool {
        forall|i: int, j: int|
            0 <= i < self.entries@.len() && 0 <= j < self.entries@.len() && i != j ==> (
            #[trigger] self.entries@[i]).0@ != (#[trigger] self.entries@[j]).0@
    }

    /// An empty lookup.
    pub fn new() -> (r: Self)
        ensures
            r.wf(),
            r@ == Map::<Seq<char>, bool>::empty(),
    {
        let r = CfgLookup { entries: Vec::new() };
        assert(r@ =~= Map::<Seq<char>, bool>::empty());
        r
    }

    fn find(&self, predicate: &String) -> (r: Option<usize>)
        requires
            self.wf(),
        ensures
            r is None <==> !self@.contains_key(predicate@),
            r matches Some(i) ==> i < self.entries@.len() && self.entries@[i as int].0@ == predicate@
                && self@[predicate@] == self.entries@[i as int].1,
    {
        let n = self.entries.len();
        let mut i: usize = 0;
        while i < n
            invariant
                n == self.entries@.len(),
                i <= n,
                self.wf(),
                forall|j: int| 0 <= j < i ==> (#[trigger] self.entries@[j]).0@ != predicate@,
            decreases n - i,
        {
            if self.entries[i].0 == *predicate {
                proof {
                    assert(self@.contains_key(predicate@));
                    let c = choose|c: int| 0 <= c < self.entries@.len() && (#[trigger] self.entries@[c]).0@ == predicate@;
                    if c != i {
                        assert(self.entries@[c].0@ != self.entries@[i as int].0@);
                    }
                }
                return Some(i);
            }
            i = i + 1;
        }
        None
    }

    /// The state of a predicate, if known.
    pub fn get(&self, predicate: &String) -> (r: Option<bool>)
        requires
            self.wf(),
        ensures
            r is Some <==> self@.contains_key(predicate@),
            r matches Some(b) ==> b == self@[predicate@],
    {
        match self.find(predicate) {
            Some(i) => Some(self.entries[i].1),
            None => None,
        }
    }

    /// Records the state of a predicate, replacing any earlier state.
    pub fn insert(&mut self, predicate: String, state: bool)
        requires
            old(self).wf(),
        ensures
            final(self).wf(),
            final(self)@ == old(self)@.insert(predicate@, state),
    {
        let ghost key = predicate@;
        match self.find(&predicate) {
            Some(i) => {
                self.entries.set(i, (predicate, state));
                proof {
                    assert forall|p: Seq<char>| #[trigger] self@.contains_key(p) <==> old(self)@.insert(key, state).contains_key(p) by {
                        if p != key && old(self)@.contains_key(p) {
                            let c = choose|c: int| 0 <= c < old(self).entries@.len() && (#[trigger] old(self).entries@[c]).0@ == p;
                            assert(self.entries@[c] == old(self).entries@[c]);
                        }
                        if self@.contains_key(p) && p != key {
                            let c = choose|c: int| 0 <= c < self.entries@.len() && (#[trigger] self.entries@[c]).0@ == p;
                            assert(self.entries@[c] == old(self).entries@[c]);
                        }
                        if p == key {
                            assert(self.entries@[i as int].0@ == key);
                        }
                    }
                    assert forall|p: Seq<char>| #[trigger] self@.contains_key(p) implies self@[p] == old(self)@.insert(key, state)[p] by {
                        let c = choose|c: int| 0 <= c < self.entries@.len() && (#[trigger] self.entries@[c]).0@ == p;
                        if p != key {
                            assert(self.entries@[c] == old(self).entries@[c]);
                            let d = choose|d: int| 0 <= d < old(self).entries@.len() && (#[trigger] old(self).entries@[d]).0@ == p;
                            if c != d {
                                assert(old(self).entries@[c].0@ != old(self).entries@[d].0@);
                            }
                        } else {
                            if c != i {
                                assert(self.entries@[c].0@ != self.entries@[i as int].0@);
                            }
                        }
                    }
                    assert(self@ =~= old(self)@.insert(key, state));
                }
            },
            None => {
                self.entries.push((predicate, state));
                proof {
                    let n = old(self).entries@.len() as int;
                    assert forall|p: Seq<char>| #[trigger] self@.contains_key(p) <==> old(self)@.insert(key, state).contains_key(p) by {
                        if p != key && old(self)@.contains_key(p) {
                            let c = choose|c: int| 0 <= c < old(self).entries@.len() && (#[trigger] old(self).entries@[c]).0@ == p;
                            assert(self.entries@[c] == old(self).entries@[c]);
                        }
                        if self@.contains_key(p) && p != key {
                            let c = choose|c: int| 0 <= c < self.entries@.len() && (#[trigger] self.entries@[c]).0@ == p;
                            assert(c != n);
                            assert(self.entries@[c] == old(self).entries@[c]);
                        }
                        if p == key {
                            assert(self.entries@[n].0@ == key);
                        }
                    }
                    assert forall|p: Seq<char>| #[trigger] self@.contains_key(p) implies self@[p] == old(self)@.insert(key, state)[p] by {
                        let c = choose|c: int| 0 <= c < self.entries@.len() && (#[trigger] self.entries@[c]).0@ == p;
                        if p != key {
                            assert(c != n);
                            assert(self.entries@[c] == old(self).entries@[c]);
                            let d = choose|d: int| 0 <= d < old(self).entries@.len() && (#[trigger] old(self).entries@[d]).0@ == p;
                            if c != d {
                                assert(old(self).entries@[c].0@ != old(self).entries@[d].0@);
                            }
                        } else {
                            if c != n {
                                assert(old(self).entries@[c].0@ == key);
                                assert(old(self)@.contains_key(key));
                            }
                        }
                    }
                    assert(self@ =~= old(self)@.insert(key, state));
                }
            },
        }
    }
}


/// The lookup that pairing predicates with states in order builds: each
/// predicate maps to the state of its last occurrence.
pub open spec fn states_map(predicates: Seq<Seq<char>>, states: Seq<bool>) -> Map<Seq<char>, bool>
    decreases predicates.len(),
{
    if predicates.len() == 0 {
        Map::empty()
    } else {
        states_map(predicates.drop_last(), states.take(predicates.len() - 1)).insert(
            predicates.last(),
            states[predicates.len() - 1],
        )
    }
}

/// The texts of a list of strings.
pub open spec fn texts(v: Seq<String>) -> Seq<Seq<char>> {
    v.map_values(|s: String| s@)
}

/// Whether every predicate of the list is known to the lookup.
pub open spec fn cfgs_known(lookup: Map<Seq<char>, bool>, cfgs: Seq<ParseAttributeCfg>) -> bool {
    forall|i: int| 0 <= i < cfgs.len() ==> lookup.contains_key(#[trigger] cfgs[i].predicate@)
}

/// Whether every predicate of the list holds.
pub open spec fn cfgs_enabled(lookup: Map<Seq<char>, bool>, cfgs: Seq<ParseAttributeCfg>) -> bool {
    forall|i: int| 0 <= i < cfgs.len() ==> lookup[#[trigger] cfgs[i].predicate@]
}

impl CfgLookup {
    /// Pairs each predicate with its deduced state: there is one state per
    /// predicate.
    pub fn from_states(predicates: Vec<String>, states: Vec<bool>) -> (r: Self)
        requires
            predicates@.len() == states@.len(),
        ensures
            r.wf(),
            r@ == states_map(texts(predicates@), states@),
    {
        let mut lookup = CfgLookup::new();
        let n = predicates.len();
        let mut i: usize = 0;
        while i < n
            invariant
                n == predicates@.len(),
                n == states@.len(),
                i <= n,
                lookup.wf(),
                lookup@ == states_map(texts(predicates@.take(i as int)), states@.take(i as int)),
            decreases n - i,
        {
            proof {
                let t = texts(predicates@.take(i + 1));
                assert(t.drop_last() =~= texts(predicates@.take(i as int)));
                assert(states@.take(i + 1).take(i as int) =~= states@.take(i as int));
                assert(t.last() == predicates@[i as int]@);
            }
            lookup.insert(predicates[i].clone(), states[i]);
            i = i + 1;
        }
        proof {
            assert(predicates@.take(n as int) =~= predicates@);
            assert(states@.take(n as int) =~= states@);
        }
        lookup
    }
}

/// Whether every predicate of the list is known and holds.
pub open spec fn cfgs_hold(lookup: Map<Seq<char>, bool>, cfgs: Seq<ParseAttributeCfg>) -> bool {
    forall|i: int|
        0 <= i < cfgs.len() ==> lookup.contains_key(#[trigger] cfgs[i].predicate@) && lookup[cfgs[i].predicate@]
}

/// Whether evaluating the predicates in order never looks up an unknown
/// one: each predicate is known unless an earlier one fails.
pub open spec fn cfgs_decidable(lookup: Map<Seq<char>, bool>, cfgs: Seq<ParseAttributeCfg>) -> bool {
    forall|i: int|
        0 <= i < cfgs.len() && cfgs_hold(lookup, cfgs.take(i)) ==> lookup.contains_key(
            #[trigger] cfgs[i].predicate@,
        )
}

/// Whether every `#[cfg]` predicate in the list is enabled. The predicates
/// are looked up in order until one fails, and every predicate looked up
/// must be known.
pub fn evaluate_cfgs(cfg_lookup: &CfgLookup, cfgs: &Vec<ParseAttributeCfg>) -> (r: bool)
    requires
        cfg_lookup.wf(),
        cfgs_decidable(cfg_lookup@, cfgs@),
    ensures
        r == cfgs_hold(cfg_lookup@, cfgs@),
        cfgs_known(cfg_lookup@, cfgs@) ==> r == cfgs_enabled(cfg_lookup@, cfgs@),
{
    let n = cfgs.len();
    let mut i: usize = 0;
    while i < n
        invariant
            n == cfgs@.len(),
            i <= n,
            cfg_lookup.wf(),
            cfgs_decidable(cfg_lookup@, cfgs@),
            cfgs_hold(cfg_lookup@, cfgs@.take(i as int)),
        decreases n - i,
    {
        proof {
            assert(cfg_lookup@.contains_key(cfgs@[i as int].predicate@));
        }
        let state = cfg_lookup.get(&cfgs[i].predicate);
        if state.unwrap() == false {
            proof {
                assert(!cfg_lookup@[cfgs@[i as int].predicate@]);
            }
            return false;
        }
        proof {
            let t = cfgs@.take(i + 1);
            assert forall|j: int| 0 <= j < t.len() implies cfg_lookup@.contains_key(#[trigger] t[j].predicate@)
                && cfg_lookup@[t[j].predicate@] by {
                if j < i {
                    assert(t[j] == cfgs@.take(i as int)[j]);
                }
            }
        }
        i = i + 1;
    }
    proof {
        assert(cfgs@.take(n as int) =~= cfgs@);
    }
    true
}

/// A parsed item together with the deduced state of its `#[cfg]` predicates.
pub struct ParseCfgDecorated<T> {
    pub cfg_lookup: CfgLookup,
    pub inner: T,
}


impl ParseAttributeCfg {
    /// A copy of this attribute.
    pub fn copied(&self) -> (r: Self)
        ensures
            r == *self,
    {
        ParseAttributeCfg { predicate: self.predicate.clone() }
    }
}

/// A copy of a list of attributes.
pub fn copy_cfgs(cfgs: &Vec<ParseAttributeCfg>) -> (r: Vec<ParseAttributeCfg>)
    ensures
        r@ == cfgs@,
{
    let mut r: Vec<ParseAttributeCfg> = Vec::new();
    let n = cfgs.len();
    let mut i: usize = 0;
    while i < n
        invariant
            n == cfgs@.len(),
            i <= n,
            r@ == cfgs@.take(i as int),
        decreases n - i,
    {
        r.push(cfgs[i].copied());
        proof {
            assert(cfgs@.take(i + 1) =~= cfgs@.take(i as int).push(cfgs@[i as int]));
        }
        i = i + 1;
    }
    proof {
        assert(cfgs@.take(n as int) =~= cfgs@);
    }
    r
}


/// `acc` with `p` appended unless it is already there.
pub open spec fn add_unique(acc: Seq<Seq<char>>, p: Seq<char>) -> Seq<Seq<char>> {
    if acc.contains(p) {
        acc
    } else {
        acc.push(p)
    }
}

/// `acc` followed by every item not seen before, in order of first occurrence.
pub open spec fn dedup_append(acc: Seq<Seq<char>>, items: Seq<Seq<char>>) -> Seq<Seq<char>>
    decreases items.len(),
{
    if items.len() == 0 {
        acc
    } else {
        add_unique(dedup_append(acc, items.drop_last()), items.last())
    }
}

/// The predicate texts of a list of attributes.
pub open spec fn cfg_texts(cfgs: Seq<ParseAttributeCfg>) -> Seq<Seq<char>> {
    cfgs.map_values(|c: ParseAttributeCfg| c.predicate@)
}

/// Deduplicating two runs one after the other is deduplicating their concatenation.
pub proof fn lemma_dedup_append_concat(acc: Seq<Seq<char>>, a: Seq<Seq<char>>, b: Seq<Seq<char>>)
    ensures
        dedup_append(acc, a + b) == dedup_append(dedup_append(acc, a), b),
    decreases b.len(),
{
    if b.len() == 0 {
        assert(a + b =~= a);
    } else {
        assert((a + b).drop_last() =~= a + b.drop_last());
        lemma_dedup_append_concat(acc, a, b.drop_last());
    }
}

/// Deduplication keeps every item exactly once: the result has no
/// duplicates (when `acc` has none) and holds exactly `acc`'s and the items' elements.
pub proof fn lemma_dedup_append_set(acc: Seq<Seq<char>>, items: Seq<Seq<char>>)
    requires
        acc.no_duplicates(),
    ensures
        dedup_append(acc, items).no_duplicates(),
        forall|p: Seq<char>| #[trigger] dedup_append(acc, items).contains(p) <==> (acc.contains(p) || items.contains(p)),
    decreases items.len(),
{
    if items.len() > 0 {
        let d = items.drop_last();
        lemma_dedup_append_set(acc, d);
        let prev = dedup_append(acc, d);
        assert forall|p: Seq<char>| #[trigger] dedup_append(acc, items).contains(p) <==> (acc.contains(p) || items.contains(p)) by {
            if items.contains(p) && p != items.last() {
                let i = choose|i: int| 0 <= i < items.len() && items[i] == p;
                assert(d[i] == p);
            }
            if d.contains(p) {
                let i = choose|i: int| 0 <= i < d.len() && d[i] == p;
                assert(items[i] == p);
            }
            if !prev.contains(items.last()) {
                if prev.push(items.last()).contains(p) && p != items.last() {
                    let i = choose|i: int| 0 <= i < prev.len() + 1 && prev.push(items.last())[i] == p;
                    assert(prev[i] == p);
                }
                if p == items.last() {
                    assert(prev.push(items.last())[prev.len() as int] == p);
                }
                if prev.contains(p) {
                    let i = choose|i: int| 0 <= i < prev.len() && prev[i] == p;
                    assert(prev.push(items.last())[i] == p);
                }
            }
        }
    }
}

/// Appends the predicate unless it is already listed.
fn push_unique(acc: &mut Vec<String>, p: &String)
    ensures
        texts(final(acc)@) == add_unique(texts(old(acc)@), p@),
{
    let n = acc.len();
    let mut i: usize = 0;
    while i < n
        invariant
            n == acc@.len(),
            i <= n,
            forall|j: int| 0 <= j < i ==> (#[trigger] acc@[j])@ != p@,
        decreases n - i,
    {
        if acc[i] == *p {
            proof {
                assert(texts(acc@)[i as int] == p@);
            }
            return;
        }
        i = i + 1;
    }
    proof {
        assert(!texts(acc@).contains(p@)) by {
            if texts(acc@).contains(p@) {
                let j = choose|j: int| 0 <= j < texts(acc@).len() && texts(acc@)[j] == p@;
                assert(acc@[j]@ == p@);
            }
        }
    }
    acc.push(p.clone());
    proof {
        assert(texts(acc@) =~= texts(old(acc)@).push(p@));
    }
}

/// Appends every predicate of the attributes not listed yet.
pub fn append_cfgs(acc: &mut Vec<String>, cfgs: &Vec<ParseAttributeCfg>)
    ensures
        texts(final(acc)@) == dedup_append(texts(old(acc)@), cfg_texts(cfgs@)),
{
    let n = cfgs.len();
    let mut i: usize = 0;
    while i < n
        invariant
            n == cfgs@.len(),
            i <= n,
            texts(acc@) == dedup_append(texts(old(acc)@), cfg_texts(cfgs@.take(i as int))),
        decreases n - i,
    {
        proof {
            assert(cfg_texts(cfgs@.take(i + 1)).drop_last() =~= cfg_texts(cfgs@.take(i as int)));
        }
        push_unique(acc, &cfgs[i].predicate);
        i = i + 1;
    }
    proof {
        assert(cfgs@.take(n as int) =~= cfgs@);
    }
}

} // verus!
