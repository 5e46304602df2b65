//! A map from profile names to profiles, kept in insertion order.
use vstd::prelude::*;

use crate::text::{owned, same_text};

verus! {

/// The abstract value of one configured node.
pub struct NodeView {
    pub name: Option<Seq<char>>,
    pub address: Seq<char>,
    pub api_key: Option<Seq<char>>,
    pub use_keyring: bool,
}

/// One node of a profile: where it is reached and how its API key is found.
#[derive(Debug, Clone)]
pub struct NodeConfig {
    pub name: Option<String>,
    pub address: String,
    pub api_key: Option<String>,
    pub use_keyring: bool,
}

impl View for NodeConfig {
    type V = NodeView;

    open spec fn view(&self) -> NodeView {
        NodeView {
            name: self.name.deep_view(),
            address: self.address@,
            api_key: self.api_key.deep_view(),
            use_keyring: self.use_keyring,
        }
    }
}

/// The views of a sequence of nodes.
pub open spec fn node_views(v: Seq<NodeConfig>) -> Seq<NodeView> {
    v.map_values(|n: NodeConfig| n@)
}

/// A copy of an optional string.
pub fn copy_opt(o: &Option<String>) -> (r: Option<String>)
    ensures
        r.deep_view() == o.deep_view(),
{
    match o {
        Some(s) => Some(owned(s.as_str())),
        None => None,
    }
}

/// Whether two optional strings are equal.
pub fn opt_eq(a: &Option<String>, b: &Option<String>) -> (r: bool)
    ensures
        r == (a.deep_view() == b.deep_view()),
{
    match (a, b) {
        (Some(x), Some(y)) => same_text(x.as_str(), y.as_str()),
        (None, None) => true,
        _ => false,
    }
}

/// Whether an optional string holds exactly `s`.
pub fn opt_is(a: &Option<String>, s: &str) -> (r: bool)
    ensures
        r == (a.deep_view() == Some(s@)),
{
    match a {
        Some(x) => same_text(x.as_str(), s),
        None => false,
    }
}

impl NodeConfig {
    /// A copy of this node.
    pub fn duplicate(&self) -> (r: NodeConfig)
        ensures
            r@ == self@,
    {
        NodeConfig {
            name: copy_opt(&self.name),
            address: owned(self.address.as_str()),
            api_key: copy_opt(&self.api_key),
            use_keyring: self.use_keyring,
        }
    }
}

/// A copy of a list of nodes.
pub fn copy_nodes(v: &Vec<NodeConfig>) -> (r: Vec<NodeConfig>)
    ensures
        node_views(r@) == node_views(v@),
{
    let mut r: Vec<NodeConfig> = Vec::new();
    let mut i: usize = 0;
    while i < v.len()
        invariant
            i <= v@.len(),
            node_views(r@) == node_views(v@.take(i as int)),
        decreases v@.len() - i,
    {
        let ghost before = r@;
        let d = v[i].duplicate();
        r.push(d);
        assert(r@ =~= before.push(d));
        assert(v@.take(i + 1) =~= v@.take(i as int).push(v@[i as int]));
        assert(node_views(r@) =~= node_views(before).push(d@));
        assert(node_views(v@.take(i + 1)) =~= node_views(v@.take(i as int)).push(v@[i as int]@));
        assert(node_views(r@) =~= node_views(v@.take(i + 1)));
        i = i + 1;
    }
    assert(v@.take(v@.len() as int) =~= v@);
    r
}

/// A named set of nodes.
#[derive(Debug, Clone)]
pub struct ProfileConfig {
    pub nodes: Vec<NodeConfig>,
}

impl View for ProfileConfig {
    type V = Seq<NodeView>;

    open spec fn view(&self) -> Seq<NodeView> {
        node_views(self.nodes@)
    }
}

impl ProfileConfig {
    /// A profile without nodes.
    pub fn new() -> (r: ProfileConfig)
        ensures
            r@ == Seq::<NodeView>::empty(),
    {
        let r = ProfileConfig { nodes: Vec::new() };
        assert(r@ =~= Seq::<NodeView>::empty());
        r
    }
}

/// The abstract entries of a profile map: names with their nodes.
pub open spec fn entry_views(e: Seq<(String, ProfileConfig)>) -> Seq<(Seq<char>, Seq<NodeView>)> {
    e.map_values(|p: (String, ProfileConfig)| (p.0@, p.1@))
}

/// No name occurs twice among the entries.
pub open spec fn names_unique(e: Seq<(Seq<char>, Seq<NodeView>)>) -> bool {
    forall|i: int, j: int| 0 <= i < j < e.len() ==> e[i].0 != e[j].0
}

/// The map that a list of entries denotes (a later entry for a name wins).
pub open spec fn map_of(e: Seq<(Seq<char>, Seq<NodeView>)>) -> Map<Seq<char>, Seq<NodeView>>
    decreases e.len(),
{
    if e.len() == 0 {
        Map::empty()
    } else {
        map_of(e.drop_last()).insert(e.last().0, e.last().1)
    }
}

/// The names of the entries form the domain of the map they denote, which is finite.
pub proof fn lemma_map_of_dom(e: Seq<(Seq<char>, Seq<NodeView>)>)
    ensures
        map_of(e).dom().finite(),
        forall|k: Seq<char>| #[trigger]
            map_of(e).dom().contains(k) <==> exists|i: int| 0 <= i < e.len() && e[i].0 == k,
    decreases e.len(),
{
    if e.len() > 0 {
        lemma_map_of_dom(e.drop_last());
        assert forall|k: Seq<char>| #[trigger]
            map_of(e).dom().contains(k) <==> exists|i: int| 0 <= i < e.len() && e[i].0 == k by {
            if map_of(e).dom().contains(k) && k != e.last().0 {
                let i = choose|i: int| 0 <= i < e.drop_last().len() && e.drop_last()[i].0 == k;
                assert(e[i].0 == k);
            }
            if exists|i: int| 0 <= i < e.len() && e[i].0 == k {
                let i = choose|i: int| 0 <= i < e.len() && e[i].0 == k;
                if i < e.len() - 1 {
                    assert(e.drop_last()[i].0 == k);
                }
            }
        }
    }
}

/// With unique names, each entry's nodes are what the map holds for its name.
pub proof fn lemma_map_of_index(e: Seq<(Seq<char>, Seq<NodeView>)>, i: int)
    requires
        names_unique(e),
        0 <= i < e.len(),
    ensures
        map_of(e).dom().contains(e[i].0),
        map_of(e)[e[i].0] == e[i].1,
    decreases e.len(),
{
    lemma_map_of_dom(e);
    if i < e.len() - 1 {
        let d = e.drop_last();
        assert(d[i] == e[i]);
        lemma_map_of_index(d, i);
        assert(e.last().0 != e[i].0);
    }
}

/// With unique names, the map has as many names as there are entries.
pub proof fn lemma_map_of_len(e: Seq<(Seq<char>, Seq<NodeView>)>)
    requires
        names_unique(e),
    ensures
        map_of(e).dom().len() == e.len(),
    decreases e.len(),
{
    if e.len() > 0 {
        let d = e.drop_last();
        lemma_map_of_len(d);
        lemma_map_of_dom(d);
        if map_of(d).dom().contains(e.last().0) {
            let i = choose|i: int| 0 <= i < d.len() && d[i].0 == e.last().0;
            assert(e[i].0 == e[e.len() - 1].0);
        }
    }
}

/// Replacing the nodes of the entry at `i` replaces them in the map.
pub proof fn lemma_map_of_update(e: Seq<(Seq<char>, Seq<NodeView>)>, i: int, v: Seq<NodeView>)
    requires
        names_unique(e),
        0 <= i < e.len(),
    ensures
        names_unique(e.update(i, (e[i].0, v))),
        map_of(e.update(i, (e[i].0, v))) == map_of(e).insert(e[i].0, v),
    decreases e.len(),
{
    let u = e.update(i, (e[i].0, v));
    if i == e.len() - 1 {
        assert(u.drop_last() =~= e.drop_last());
        assert(map_of(u) =~= map_of(e).insert(e[i].0, v));
    } else {
        let d = e.drop_last();
        lemma_map_of_update(d, i, v);
        assert(u.drop_last() =~= d.update(i, (d[i].0, v)));
        assert(e.last().0 != e[i].0);
        assert(map_of(u) =~= map_of(e).insert(e[i].0, v));
    }
}

/// Removing the entry at `i` removes its name from the map.
pub proof fn lemma_map_of_remove(e: Seq<(Seq<char>, Seq<NodeView>)>, i: int)
    requires
        names_unique(e),
        0 <= i < e.len(),
    ensures
        names_unique(e.remove(i)),
        map_of(e.remove(i)) == map_of(e).remove(e[i].0),
    decreases e.len(),
{
    let r = e.remove(i);
    if i == e.len() - 1 {
        assert(r =~= e.drop_last());
        lemma_map_of_dom(r);
        assert(!map_of(r).dom().contains(e[i].0));
        assert(map_of(r) =~= map_of(e).remove(e[i].0));
    } else {
        let d = e.drop_last();
        lemma_map_of_remove(d, i);
        assert(r.drop_last() =~= d.remove(i));
        assert(r.last() == e.last());
        assert(e.last().0 != e[i].0);
        assert(map_of(r) =~= map_of(e).remove(e[i].0));
    }
}

/// Reading a profile gives back what was last written under its name, and
/// writing one name leaves every other name as it was.
pub proof fn lemma_read_after_write(
    m: Map<Seq<char>, Seq<NodeView>>,
    name: Seq<char>,
    nodes: Seq<NodeView>,
    other: Seq<char>,
)
    requires
        other != name,
    ensures
        m.insert(name, nodes).dom().contains(name),
        m.insert(name, nodes)[name] == nodes,
        m.insert(name, nodes).dom().contains(other) == m.dom().contains(other),
        m.dom().contains(other) ==> m.insert(name, nodes)[other] == m[other],
        !m.remove(name).dom().contains(name),
{
}

/// Profiles by name. No name occurs twice; names keep the order in which they
/// were first inserted.
#[derive(Debug)]
pub struct ProfileMap {
    entries: Vec<(String, ProfileConfig)>,
}

impl View for ProfileMap {
    type V = Map<Seq<char>, Seq<NodeView>>;

    closed spec fn view(&self) -> Map<Seq<char>, Seq<NodeView>> {
        map_of(entry_views(self.entries@))
    }
}

impl ProfileMap {
    #[verifier::type_invariant]
    closed spec fn unique_names(&self) -> bool {
        names_unique(entry_views(self.entries@))
    }

    /// An empty map.
    pub fn new() -> (r: ProfileMap)
        ensures
            r@ == Map::<Seq<char>, Seq<NodeView>>::empty(),
    {
        let r = ProfileMap { entries: Vec::new() };
        assert(entry_views(r.entries@) =~= Seq::empty());
        r
    }

    /// The position of the entry named `name`.
    fn position(&self, name: &str) -> (r: Option<usize>)
        ensures
            match r {
                Some(i) => i < self.entries@.len() && self.entries@[i as int].0@ == name@,
                None => forall|i: int|
                    0 <= i < self.entries@.len() ==> self.entries@[i].0@ != name@,
            },
    {
        let mut i: usize = 0;
        while i < self.entries.len()
            invariant
                i <= self.entries@.len(),
                forall|k: int| 0 <= k < i ==> self.entries@[k].0@ != name@,
            decreases self.entries@.len() - i,
        {
            if same_text(self.entries[i].0.as_str(), name) {
                return Some(i);
            }
            i = i + 1;
        }
        None
    }

    /// Relates the position search to the abstract map.
    proof fn lemma_position(&self, name: Seq<char>, r: Option<usize>)
        requires
            names_unique(entry_views(self.entries@)),
            match r {
                Some(i) => i < self.entries@.len() && self.entries@[i as int].0@ == name,
                None => forall|i: int|
                    0 <= i < self.entries@.len() ==> self.entries@[i].0@ != name,
            },
        ensures
            self@.dom().contains(name) <==> r is Some,
            r matches Some(i) ==> self@[name] == self.entries@[i as int].1@,
    {
        let e = entry_views(self.entries@);
        lemma_map_of_dom(e);
        match r {
            Some(i) => {
                lemma_map_of_index(e, i as int);
            },
            None => {
                if self@.dom().contains(name) {
                    let k = choose|k: int| 0 <= k < e.len() && e[k].0 == name;
                    assert(self.entries@[k].0@ == name);
                }
            },
        }
    }

    /// The number of profiles.
    pub fn len(&self) -> (r: usize)
        ensures
            r == self@.dom().len(),
    {
        proof {
            use_type_invariant(self);
            lemma_map_of_len(entry_views(self.entries@));
        }
        self.entries.len()
    }

    /// Whether there is no profile.
    pub fn is_empty(&self) -> (r: bool)
        ensures
            r == (self@.dom().len() == 0),
    {
        self.len() == 0
    }

    /// Whether a profile of this name exists.
    pub fn contains_key(&self, name: &str) -> (r: bool)
        ensures
            r == self@.dom().contains(name@),
    {
        let p = self.position(name);
        proof {
            use_type_invariant(self);
            self.lemma_position(name@, p);
        }
        p.is_some()
    }

    /// The profile of this name.
    pub fn get(&self, name: &str) -> (r: Option<&ProfileConfig>)
        ensures
            match r {
                Some(p) => self@.dom().contains(name@) && self@[name@] == p@,
                None => !self@.dom().contains(name@),
            },
    {
        let p = self.position(name);
        proof {
            use_type_invariant(self);
            self.lemma_position(name@, p);
        }
        match p {
            Some(i) => Some(&self.entries[i].1),
            None => None,
        }
    }

    /// Sets the profile of this name, in the place of an existing one or after
    /// all others; gives back the profile it replaced.
    pub fn insert(&mut self, name: String, profile: ProfileConfig) -> (r: Option<ProfileConfig>)
        ensures
            final(self)@ == old(self)@.insert(name@, profile@),
            match r {
                Some(p) => old(self)@.dom().contains(name@) && p@ == old(self)@[name@],
                None => !old(self)@.dom().contains(name@),
            },
    {
        proof {
            use_type_invariant(&*self);
        }
        let p = self.position(name.as_str());
        proof {
            self.lemma_position(name@, p);
        }
        let ghost e = entry_views(self.entries@);
        match p {
            Some(i) => {
                let mut entries: Vec<(String, ProfileConfig)> = Vec::new();
                std::mem::swap(&mut entries, &mut self.entries);
                let old_entry = entries.remove(i);
                let ghost nv = profile@;
                entries.insert(i, (name, profile));
                proof {
                    assert(entry_views(entries@) =~= e.update(i as int, (e[i as int].0, nv)));
                    lemma_map_of_update(e, i as int, nv);
                }
                self.entries = entries;
                Some(old_entry.1)
            },
            None => {
                let ghost nm = name@;
                let ghost nv = profile@;
                let mut entries: Vec<(String, ProfileConfig)> = Vec::new();
                std::mem::swap(&mut entries, &mut self.entries);
                entries.push((name, profile));
                proof {
                    assert(entry_views(entries@) =~= e.push((nm, nv)));
                    assert(entry_views(entries@).drop_last() =~= e);
                    assert forall|a: int, b: int|
                        0 <= a < b < entry_views(entries@).len() implies entry_views(
                        entries@,
                    )[a].0 != entry_views(entries@)[b].0 by {
                        if b == e.len() {
                            assert(entry_views(entries@)[a] == e[a]);
                        } else {
                            assert(entry_views(entries@)[a] == e[a]);
                            assert(entry_views(entries@)[b] == e[b]);
                        }
                    }
                }
                self.entries = entries;
                None
            },
        }
    }

    /// Removes the profile of this name and gives it back.
    pub fn remove(&mut self, name: &str) -> (r: Option<ProfileConfig>)
        ensures
            final(self)@ == old(self)@.remove(name@),
            match r {
                Some(p) => old(self)@.dom().contains(name@) && p@ == old(self)@[name@],
                None => !old(self)@.dom().contains(name@),
            },
    {
        proof {
            use_type_invariant(&*self);
        }
        let p = self.position(name);
        proof {
            self.lemma_position(name@, p);
        }
        let ghost e = entry_views(self.entries@);
        match p {
            Some(i) => {
                let mut entries: Vec<(String, ProfileConfig)> = Vec::new();
                std::mem::swap(&mut entries, &mut self.entries);
                let old_entry = entries.remove(i);
                proof {
                    assert(entry_views(entries@) =~= e.remove(i as int));
                    lemma_map_of_remove(e, i as int);
                }
                self.entries = entries;
                Some(old_entry.1)
            },
            None => {
                proof {
                    assert(old(self)@.remove(name@) =~= old(self)@);
                }
                None
            },
        }
    }

    /// The profile names, each once, in insertion order.
    pub fn keys(&self) -> (r: Vec<String>)
        ensures
            forall|k: Seq<char>|
                self@.dom().contains(k) <==> exists|i: int| 0 <= i < r@.len() && #[trigger] r@[i]@ == k,
            forall|i: int, j: int| 0 <= i < j < r@.len() ==> r@[i]@ != r@[j]@,
            r@.len() == self@.dom().len(),
    {
        proof {
            use_type_invariant(self);
            lemma_map_of_dom(entry_views(self.entries@));
            lemma_map_of_len(entry_views(self.entries@));
        }
        let mut r: Vec<String> = Vec::new();
        let mut i: usize = 0;
        while i < self.entries.len()
            invariant
                i <= self.entries@.len(),
                r@.len() == i,
                forall|k: int| 0 <= k < i ==> #[trigger] r@[k]@ == self.entries@[k].0@,
            decreases self.entries@.len() - i,
        {
            r.push(owned(self.entries[i].0.as_str()));
            i = i + 1;
        }
        let ghost e = entry_views(self.entries@);
        assert forall|k: Seq<char>|
            self@.dom().contains(k) <==> exists|i: int| 0 <= i < r@.len() && #[trigger] r@[i]@ == k by {
            if self@.dom().contains(k) {
                let i = choose|i: int| 0 <= i < e.len() && e[i].0 == k;
                assert(r@[i]@ == k);
            }
            if exists|i: int| 0 <= i < r@.len() && #[trigger] r@[i]@ == k {
                let i = choose|i: int| 0 <= i < r@.len() && #[trigger] r@[i]@ == k;
                assert(e[i].0 == k);
            }
        }
        assert forall|i: int, j: int| 0 <= i < j < r@.len() implies r@[i]@ != r@[j]@ by {
            assert(e[i].0 != e[j].0);
        }
        r
    }
}

} // verus!
