//! `ParamMap`: the name/value parameters of a request (query string and path
//! parameters), a map from text to text in which each name occurs once.
use vstd::prelude::*;

verus! {

/// The text of a name/value pair.
pub open spec fn pair_text(p: (String, String)) -> (Seq<char>, Seq<char>) {
    (p.0@, p.1@)
}

/// The texts of a list of name/value pairs.
pub open spec fn pairs_text(s: Seq<(String, String)>) -> Seq<(Seq<char>, Seq<char>)> {
    s.map_values(|p: (String, String)| pair_text(p))
}

/// The map that inserting the pairs of `s` one after another gives: a later
/// pair for a name replaces an earlier one.
pub open spec fn map_of(s: Seq<(Seq<char>, Seq<char>)>) -> Map<Seq<char>, Seq<char>>
    decreases s.len(),
{
    if s.len() == 0 {
        Map::empty()
    } else {
        map_of(s.drop_last()).insert(s.last().0, s.last().1)
    }
}

/// No name occurs twice in `s`.
pub open spec fn names_distinct(s: Seq<(Seq<char>, Seq<char>)>) -> bool {
    forall|i: int, j: int| 0 <= i < j < s.len() ==> #[trigger] s[i].0 != #[trigger] s[j].0
}

/// A name is bound in `map_of(s)` exactly when some pair of `s` has it.
pub proof fn lemma_map_of_dom(s: Seq<(Seq<char>, Seq<char>)>, k: Seq<char>)
    ensures
        map_of(s).dom().contains(k) <==> exists|i: int| 0 <= i < s.len() && #[trigger] s[i].0 == k,
    decreases s.len(),
{
    if s.len() > 0 {
        lemma_map_of_dom(s.drop_last(), k);
        if map_of(s.drop_last()).dom().contains(k) {
            let i = choose|i: int| 0 <= i < s.drop_last().len() && #[trigger] s.drop_last()[i].0 == k;
            assert(s[i].0 == k);
        }
        if exists|i: int| 0 <= i < s.len() && #[trigger] s[i].0 == k {
            let i = choose|i: int| 0 <= i < s.len() && #[trigger] s[i].0 == k;
            if i < s.len() - 1 {
                assert(s.drop_last()[i].0 == k);
            }
        }
    }
}

/// With distinct names, the value bound to the name of pair `i` is its value.
pub proof fn lemma_map_of_value(s: Seq<(Seq<char>, Seq<char>)>, i: int)
    requires
        names_distinct(s),
        0 <= i < s.len(),
    ensures
        map_of(s).dom().contains(s[i].0),
        map_of(s)[s[i].0] == s[i].1,
    decreases s.len(),
{
    if i < s.len() - 1 {
        assert(names_distinct(s.drop_last()));
        assert(s.drop_last()[i] == s[i]);
        lemma_map_of_value(s.drop_last(), i);
        assert(s[i].0 != s[s.len() - 1].0);
    }
}

/// With distinct names, replacing the value of pair `i` is inserting into the map.
pub proof fn lemma_map_of_update(s: Seq<(Seq<char>, Seq<char>)>, i: int, v: Seq<char>)
    requires
        names_distinct(s),
        0 <= i < s.len(),
    ensures
        map_of(s.update(i, (s[i].0, v))) =~= map_of(s).insert(s[i].0, v),
    decreases s.len(),
{
    let t = s.update(i, (s[i].0, v));
    if i == s.len() - 1 {
        assert(t.drop_last() =~= s.drop_last());
    } else {
        assert(t.drop_last() =~= s.drop_last().update(i, (s[i].0, v)));
        assert(names_distinct(s.drop_last()));
        lemma_map_of_update(s.drop_last(), i, v);
        assert(s[i].0 != s[s.len() - 1].0);
    }
}

/// Inserting the pairs of `x` and then those of `y` is the map of `x`
/// updated by the map of `y`.
pub proof fn lemma_map_of_concat(x: Seq<(Seq<char>, Seq<char>)>, y: Seq<(Seq<char>, Seq<char>)>)
    ensures
        map_of(x + y) =~= map_of(x).union_prefer_right(map_of(y)),
    decreases y.len(),
{
    if y.len() == 0 {
        assert(x + y =~= x);
    } else {
        lemma_map_of_concat(x, y.drop_last());
        assert((x + y).drop_last() =~= x + y.drop_last());
        assert((x + y).last() == y.last());
    }
}

/// With distinct names, the map binds as many names as there are pairs.
pub proof fn lemma_map_of_len(s: Seq<(Seq<char>, Seq<char>)>)
    requires
        names_distinct(s),
    ensures
        map_of(s).dom().finite(),
        map_of(s).dom().len() == s.len(),
    decreases s.len(),
{
    if s.len() > 0 {
        assert(names_distinct(s.drop_last()));
        lemma_map_of_len(s.drop_last());
        lemma_map_of_dom(s.drop_last(), s.last().0);
        if map_of(s.drop_last()).dom().contains(s.last().0) {
            let i = choose|i: int| 0 <= i < s.drop_last().len() && #[trigger] s.drop_last()[i].0 == s.last().0;
            assert(s[i].0 == s[s.len() - 1].0);
        }
    }
}

/// Parameters of a request: each name bound to one value.
pub struct ParamMap {
    entries: Vec<(String, String)>,
}

impl ParamMap {
    #[verifier::type_invariant]
    spec fn distinct(self) -> bool {
        names_distinct(pairs_text(self.entries@))
    }

    /// The pairs held, in the order in which their names were first inserted.
    pub closed spec fn pairs(self) -> Seq<(Seq<char>, Seq<char>)> {
        pairs_text(self.entries@)
    }
}

impl View for ParamMap {
    type V = Map<Seq<char>, Seq<char>>;

    closed spec fn view(&self) -> Map<Seq<char>, Seq<char>> {
        map_of(pairs_text(self.entries@))
    }
}

impl ParamMap {
    /// An empty map.
    pub fn new() -> (m: Self)
        ensures
            m@ == Map::<Seq<char>, Seq<char>>::empty(),
    {
        ParamMap { entries: Vec::new() }
    }

    /// Binds `name` to `value`, replacing the value it had.
    pub fn insert(&mut self, name: String, value: String)
        ensures
            final(self)@ == old(self)@.insert(name@, value@),
    {
        proof {
            use_type_invariant(&*self);
        }
        let ghost old_pairs = pairs_text(self.entries@);
        let mut entries: Vec<(String, String)> = Vec::new();
        std::mem::swap(&mut entries, &mut self.entries);
        match Self::position_in(&entries, &name) {
            Some(i) => {
                let ghost k = old_pairs[i as int].0;
                entries.set(i, (name, value));
                proof {
                    assert(pairs_text(entries@) =~= old_pairs.update(i as int, (k, value@)));
                    lemma_map_of_update(old_pairs, i as int, value@);
                }
            },
            None => {
                let ghost (n, v) = (name@, value@);
                entries.push((name, value));
                proof {
                    assert(pairs_text(entries@) =~= old_pairs.push((n, v)));
                    assert(pairs_text(entries@).drop_last() =~= old_pairs);
                    assert forall|a: int, b: int|
                        0 <= a < b < pairs_text(entries@).len() implies #[trigger] pairs_text(
                        entries@,
                    )[a].0 != #[trigger] pairs_text(entries@)[b].0 by {
                        if b < old_pairs.len() {
                            assert(old_pairs[a].0 != old_pairs[b].0);
                        } else {
                            assert(entries@[a].0@ != n);
                        }
                    }
                }
            },
        }
        self.entries = entries;
    }

    /// The index of the pair named `name` in `entries`, if there is one.
    fn position_in(entries: &Vec<(String, String)>, name: &String) -> (r: Option<usize>)
        ensures
            r matches Some(i) ==> i < entries@.len() && entries@[i as int].0@ == name@,
            r is None ==> forall|i: int| 0 <= i < entries@.len() ==> #[trigger] entries@[i].0@ != name@,
    {
        let mut i: usize = 0;
        while i < entries.len()
            invariant
                i <= entries@.len(),
                forall|j: int| 0 <= j < i ==> #[trigger] entries@[j].0@ != name@,
            decreases entries@.len() - i,
        {
            if entries[i].0 == *name {
                return Some(i);
            }
            i = i + 1;
        }
        None
    }

    /// The value bound to `name`, if any.
    pub fn get(&self, name: &str) -> (r: Option<&String>)
        ensures
            r is Some <==> self@.dom().contains(name@),
            r matches Some(v) ==> v@ == self@[name@],
    {
        proof {
            use_type_invariant(self);
            lemma_map_of_dom(pairs_text(self.entries@), name@);
        }
        let key = name.to_owned();
        match Self::position_in(&self.entries, &key) {
            Some(i) => {
                proof {
                    lemma_map_of_value(pairs_text(self.entries@), i as int);
                }
                Some(&self.entries[i].1)
            },
            None => {
                proof {
                    assert forall|i: int| 0 <= i < pairs_text(self.entries@).len() implies #[trigger] pairs_text(
                        self.entries@,
                    )[i].0 != name@ by {
                        assert(self.entries@[i].0@ != name@);
                    }
                }
                None
            },
        }
    }

    /// The number of names bound.
    pub fn len(&self) -> (n: usize)
        ensures
            n == self@.dom().len(),
    {
        proof {
            use_type_invariant(self);
            lemma_map_of_len(pairs_text(self.entries@));
        }
        self.entries.len()
    }

    /// The pairs, each name once, in the order in which the names were first
    /// inserted.
    pub fn to_pairs(&self) -> (r: Vec<(String, String)>)
        ensures
            pairs_text(r@) == self.pairs(),
            names_distinct(pairs_text(r@)),
            map_of(pairs_text(r@)) == self@,
    {
        proof {
            use_type_invariant(self);
        }
        let mut r: Vec<(String, String)> = Vec::new();
        let mut i: usize = 0;
        while i < self.entries.len()
            invariant
                i <= self.entries@.len(),
                pairs_text(r@) =~= pairs_text(self.entries@).take(i as int),
            decreases self.entries@.len() - i,
        {
            let p = &self.entries[i];
            let ghost before = r@;
            r.push((p.0.clone(), p.1.clone()));
            proof {
                assert(r@ =~= before.push(r@.last()));
                assert(pairs_text(r@) =~= pairs_text(before).push(pair_text(self.entries@[i as int])));
                assert(pairs_text(self.entries@).take(i + 1) =~= pairs_text(self.entries@).take(i as int).push(pair_text(self.entries@[i as int])));
            }
            i = i + 1;
        }
        r
    }
}

impl Clone for ParamMap {
    fn clone(&self) -> (r: Self)
        ensures
            r@ == self@,
            r.pairs() == self.pairs(),
    {
        proof {
            use_type_invariant(self);
        }
        ParamMap { entries: self.to_pairs() }
    }
}

} // verus!
