//! The command-line client's configuration: profiles of nodes, the merge of
//! discovered daemons into the active profile, and the profile commands.
use vstd::prelude::*;

use crate::profiles::{
    copy_opt, node_views, opt_eq, opt_is, NodeConfig, NodeView, ProfileConfig, ProfileMap,
};
use crate::text::{owned, push_str, same_text, views};

verus! {

/// The name of the profile that always exists after loading.
pub const DEFAULT_PROFILE: &'static str = "default";

/// The API key written for a newly discovered node, to be replaced by the user.
pub const TOKEN_PLACEHOLDER: &'static str = "REPLACE_WITH_ACTUAL_TOKEN";

/// The keyring service under which node API keys are stored.
pub const KEYRING_SERVICE: &'static str = "cobbler-cli";

/// The file name of the configuration, looked for in the working directory.
pub const CONFIG_FILE_NAME: &'static str = ".cobbler.yaml";

/// The name of the default profile.
pub fn default_profile_name() -> (r: String)
    ensures
        r@ == DEFAULT_PROFILE@,
{
    owned(DEFAULT_PROFILE)
}

// ---------------------------------------------------------------------------
// Specification of the merge of discovered nodes
// ---------------------------------------------------------------------------

/// `i` is the first position in `nodes` whose node satisfies `p`.
pub open spec fn is_first(nodes: Seq<NodeView>, p: spec_fn(NodeView) -> bool, i: int) -> bool {
    &&& 0 <= i < nodes.len()
    &&& p(nodes[i])
    &&& forall|j: int| 0 <= j < i ==> !p(#[trigger] nodes[j])
}

/// The first position in `nodes` whose node satisfies `p`, if any.
pub open spec fn first_where(nodes: Seq<NodeView>, p: spec_fn(NodeView) -> bool) -> Option<int> {
    if exists|i: int| is_first(nodes, p, i) {
        Some(choose|i: int| is_first(nodes, p, i))
    } else {
        None
    }
}

/// The node has `key` as its address (when `by_address`) or as its name (when `by_name`).
pub open spec fn node_test(key: Seq<char>, by_address: bool, by_name: bool) -> spec_fn(
    NodeView,
) -> bool {
    |v: NodeView| (by_address && v.address == key) || (by_name && v.name == Some(key))
}

/// The node is named `name`.
pub open spec fn named(name: Seq<char>) -> spec_fn(NodeView) -> bool {
    node_test(name, false, true)
}

/// The node is reached at `address`.
pub open spec fn addressed(address: Seq<char>) -> spec_fn(NodeView) -> bool {
    node_test(address, true, false)
}

/// The node is the one that a target designates: by its address or its name.
pub open spec fn designated_by(target: Seq<char>) -> spec_fn(NodeView) -> bool {
    node_test(target, true, true)
}

/// The name recorded for a discovered id: none for an empty id.
pub open spec fn name_for_id(id: Seq<char>) -> Option<Seq<char>> {
    if id.len() == 0 {
        None
    } else {
        Some(id)
    }
}

/// The node added for a daemon that matches no configured node.
pub open spec fn discovered_node(address: Seq<char>, id: Seq<char>) -> NodeView {
    NodeView {
        name: name_for_id(id),
        address,
        api_key: Some(TOKEN_PLACEHOLDER@),
        use_keyring: false,
    }
}

/// The configured node that a discovered daemon corresponds to: the first one
/// with its name, else the first one at its address.
pub open spec fn merge_target(nodes: Seq<NodeView>, address: Seq<char>, id: Seq<char>) -> Option<
    int,
> {
    let by_name = if id.len() == 0 {
        None
    } else {
        first_where(nodes, named(id))
    };
    match by_name {
        Some(i) => Some(i),
        None => first_where(nodes, addressed(address)),
    }
}

/// Merges one discovered daemon into the nodes: the matching node takes the
/// daemon's address and name (its credentials stay), or a new node is added.
/// The flag tells whether anything changed.
pub open spec fn merge_one(nodes: Seq<NodeView>, address: Seq<char>, id: Seq<char>) -> (
    Seq<NodeView>,
    bool,
) {
    match merge_target(nodes, address, id) {
        Some(i) => {
            let v = nodes[i];
            (
                nodes.update(
                    i,
                    NodeView {
                        name: name_for_id(id),
                        address,
                        api_key: v.api_key,
                        use_keyring: v.use_keyring,
                    },
                ),
                v.address != address || v.name != name_for_id(id),
            )
        },
        None => (nodes.push(discovered_node(address, id)), true),
    }
}

/// Merges the discovered daemons, in order, into the nodes.
pub open spec fn merge_all(nodes: Seq<NodeView>, found: Seq<(Seq<char>, Seq<char>)>) -> (
    Seq<NodeView>,
    bool,
)
    decreases found.len(),
{
    if found.len() == 0 {
        (nodes, false)
    } else {
        let prev = merge_all(nodes, found.drop_last());
        let next = merge_one(prev.0, found.last().0, found.last().1);
        (next.0, prev.1 || next.1)
    }
}

/// The abstract value of a list of discovered (address, id) pairs.
pub open spec fn found_views(v: Seq<(String, String)>) -> Seq<(Seq<char>, Seq<char>)> {
    v.map_values(|p: (String, String)| (p.0@, p.1@))
}

/// The nodes of a profile, or none when it does not exist.
pub open spec fn nodes_or_empty(m: Map<Seq<char>, Seq<NodeView>>, name: Seq<char>) -> Seq<NodeView> {
    if m.dom().contains(name) {
        m[name]
    } else {
        Seq::<NodeView>::empty()
    }
}

/// The profiles after loading: legacy top-level nodes appended to the default
/// profile, and the active profile created when missing.
pub open spec fn normalized_profiles(
    m: Map<Seq<char>, Seq<NodeView>>,
    legacy: Seq<NodeView>,
    active: Seq<char>,
) -> Map<Seq<char>, Seq<NodeView>> {
    let m1 = if legacy.len() > 0 {
        m.insert(DEFAULT_PROFILE@, nodes_or_empty(m, DEFAULT_PROFILE@) + legacy)
    } else {
        m
    };
    if m1.dom().contains(active) {
        m1
    } else {
        m1.insert(active, Seq::<NodeView>::empty())
    }
}

// ---------------------------------------------------------------------------
// Facts about first positions
// ---------------------------------------------------------------------------

/// A position that is first is the one `first_where` gives.
pub proof fn lemma_first_where_is(nodes: Seq<NodeView>, p: spec_fn(NodeView) -> bool, i: int)
    requires
        is_first(nodes, p, i),
    ensures
        first_where(nodes, p) == Some(i),
{
    let j = choose|j: int| is_first(nodes, p, j);
    assert(is_first(nodes, p, j));
    if j < i {
        assert(!p(nodes[j]));
    } else if i < j {
        assert(!p(nodes[i]));
    }
}

/// When no node satisfies `p`, there is no first position.
pub proof fn lemma_first_where_none(nodes: Seq<NodeView>, p: spec_fn(NodeView) -> bool)
    requires
        forall|j: int| 0 <= j < nodes.len() ==> !p(#[trigger] nodes[j]),
    ensures
        first_where(nodes, p) is None,
{
    if exists|i: int| is_first(nodes, p, i) {
        let i = choose|i: int| is_first(nodes, p, i);
        assert(p(nodes[i]));
    }
}

/// What `first_where` gives satisfies the predicate and no earlier node does;
/// when it gives nothing, no node satisfies it.
pub proof fn lemma_first_where_spec(nodes: Seq<NodeView>, p: spec_fn(NodeView) -> bool)
    ensures
        match first_where(nodes, p) {
            Some(i) => is_first(nodes, p, i),
            None => forall|j: int| 0 <= j < nodes.len() ==> !p(#[trigger] nodes[j]),
        },
{
    if first_where(nodes, p) is None {
        assert forall|j: int| 0 <= j < nodes.len() implies !p(#[trigger] nodes[j]) by {
            if p(nodes[j]) {
                lemma_first_exists(nodes, p, j);
            }
        }
    }
}

/// If some node at or before `j` satisfies `p`, there is a first position.
proof fn lemma_first_exists(nodes: Seq<NodeView>, p: spec_fn(NodeView) -> bool, j: int)
    requires
        0 <= j < nodes.len(),
        p(nodes[j]),
    ensures
        exists|i: int| is_first(nodes, p, i),
    decreases j,
{
    if forall|k: int| 0 <= k < j ==> !p(#[trigger] nodes[k]) {
        assert(is_first(nodes, p, j));
    } else {
        let k = choose|k: int| 0 <= k < j && p(#[trigger] nodes[k]);
        lemma_first_exists(nodes, p, k);
    }
}

// ---------------------------------------------------------------------------
// Laws of the merge
// ---------------------------------------------------------------------------

/// Merging discovered daemons keeps every configured node in its place with its
/// API key and keyring flag; the nodes it adds come after, with the placeholder
/// key and without the keyring.
pub proof fn lemma_merge_keeps_credentials(
    nodes: Seq<NodeView>,
    found: Seq<(Seq<char>, Seq<char>)>,
)
    ensures
        merge_all(nodes, found).0.len() >= nodes.len(),
        forall|i: int|
            0 <= i < nodes.len() ==> #[trigger] merge_all(nodes, found).0[i].api_key
                == nodes[i].api_key && merge_all(nodes, found).0[i].use_keyring
                == nodes[i].use_keyring,
        forall|i: int|
            nodes.len() <= i < merge_all(nodes, found).0.len() ==> #[trigger] merge_all(
                nodes,
                found,
            ).0[i].api_key == Some(TOKEN_PLACEHOLDER@) && !merge_all(nodes, found).0[i].use_keyring,
    decreases found.len(),
{
    if found.len() > 0 {
        lemma_merge_keeps_credentials(nodes, found.drop_last());
        let prev = merge_all(nodes, found.drop_last()).0;
        let next = merge_all(nodes, found).0;
        assert(next == merge_one(prev, found.last().0, found.last().1).0);
        assert forall|i: int| 0 <= i < prev.len() implies next[i].api_key == prev[i].api_key
            && next[i].use_keyring == prev[i].use_keyring by {}
        assert forall|i: int| nodes.len() <= i < next.len() implies #[trigger] next[i].api_key
            == Some(TOKEN_PLACEHOLDER@) && !next[i].use_keyring by {
            if i < prev.len() {
                assert(next[i].api_key == prev[i].api_key);
            }
        }
    }
}

/// A merge that reports no change left the nodes exactly as they were.
pub proof fn lemma_merge_unchanged_when_quiet(
    nodes: Seq<NodeView>,
    found: Seq<(Seq<char>, Seq<char>)>,
)
    ensures
        !merge_all(nodes, found).1 ==> merge_all(nodes, found).0 == nodes,
    decreases found.len(),
{
    if found.len() > 0 {
        lemma_merge_unchanged_when_quiet(nodes, found.drop_last());
        let prev = merge_all(nodes, found.drop_last()).0;
        let a = found.last().0;
        let id = found.last().1;
        if let Some(i) = merge_target(prev, a, id) {
            let v = prev[i];
            let w = NodeView {
                name: name_for_id(id),
                address: a,
                api_key: v.api_key,
                use_keyring: v.use_keyring,
            };
            if !merge_one(prev, a, id).1 {
                assert(w == v);
                assert(prev.update(i, w) =~= prev);
            }
        }
    }
}

/// Merging one discovered daemon leaves a node with its address and name.
pub proof fn lemma_merge_one_places_node(nodes: Seq<NodeView>, address: Seq<char>, id: Seq<char>)
    ensures
        exists|i: int|
            0 <= i < merge_one(nodes, address, id).0.len() && #[trigger] merge_one(
                nodes,
                address,
                id,
            ).0[i].address == address && merge_one(nodes, address, id).0[i].name == name_for_id(
                id,
            ),
{
    lemma_merge_target_spec(nodes, address, id);
    let r = merge_one(nodes, address, id).0;
    match merge_target(nodes, address, id) {
        Some(i) => {
            assert(r[i].address == address);
        },
        None => {
            assert(r[nodes.len() as int].address == address);
        },
    }
}

/// The node that `merge_target` picks is a real position.
proof fn lemma_merge_target_spec(nodes: Seq<NodeView>, address: Seq<char>, id: Seq<char>)
    ensures
        merge_target(nodes, address, id) matches Some(i) ==> 0 <= i < nodes.len(),
{
    lemma_first_where_spec(nodes, named(id));
    lemma_first_where_spec(nodes, addressed(address));
}

/// A daemon that is already configured, under its name or at its address,
/// is updated in place: merging it adds no node.
pub proof fn lemma_merge_one_no_duplicate(
    nodes: Seq<NodeView>,
    address: Seq<char>,
    id: Seq<char>,
    j: int,
)
    requires
        0 <= j < nodes.len(),
        nodes[j].address == address || (id.len() > 0 && nodes[j].name == Some(id)),
    ensures
        merge_one(nodes, address, id).0.len() == nodes.len(),
{
    lemma_first_where_spec(nodes, named(id));
    lemma_first_where_spec(nodes, addressed(address));
    if merge_target(nodes, address, id) is None {
        if nodes[j].address == address {
            assert(addressed(address)(nodes[j]));
        } else {
            assert(named(id)(nodes[j]));
        }
    }
}

/// Merging the same discovered daemon a second time changes nothing.
pub proof fn lemma_merge_one_idempotent(nodes: Seq<NodeView>, address: Seq<char>, id: Seq<char>)
    ensures
        merge_one(merge_one(nodes, address, id).0, address, id) == (
            merge_one(nodes, address, id).0,
            false,
        ),
{
    let n1 = merge_one(nodes, address, id).0;
    let nm = name_for_id(id);
    lemma_first_where_spec(nodes, named(id));
    lemma_first_where_spec(nodes, addressed(address));
    // The position that the second merge finds holds the daemon's address and name.
    let i: int = match merge_target(nodes, address, id) {
        Some(i) => i,
        None => nodes.len() as int,
    };
    assert(0 <= i < n1.len());
    assert(n1[i].address == address && n1[i].name == nm);
    assert forall|j: int| 0 <= j < i implies #[trigger] n1[j] == nodes[j] by {}
    if id.len() > 0 {
        // Earlier nodes do not carry the name, as the first search did not stop there.
        assert forall|j: int| 0 <= j < i implies !named(id)(#[trigger] n1[j]) by {
            assert(n1[j] == nodes[j]);
            if named(id)(nodes[j]) {
                let k = first_where(nodes, named(id)).unwrap();
                assert(k <= j);
            }
        }
        assert(is_first(n1, named(id), i));
        lemma_first_where_is(n1, named(id), i);
    } else {
        assert forall|j: int| 0 <= j < i implies !addressed(address)(#[trigger] n1[j]) by {
            assert(n1[j] == nodes[j]);
        }
        assert(is_first(n1, addressed(address), i));
        lemma_first_where_is(n1, addressed(address), i);
    }
    assert(merge_target(n1, address, id) == Some(i));
    let v = n1[i];
    let w = NodeView { name: nm, address, api_key: v.api_key, use_keyring: v.use_keyring };
    assert(w == v);
    assert(n1.update(i, w) =~= n1);
}

/// The first node named `id` is at `address`.
pub open spec fn placed(nodes: Seq<NodeView>, address: Seq<char>, id: Seq<char>) -> bool {
    match first_where(nodes, named(id)) {
        Some(p) => nodes[p].address == address,
        None => false,
    }
}

/// After merging a daemon with a non-empty id, the first node with its name
/// is at its address.
proof fn lemma_merge_one_names(nodes: Seq<NodeView>, address: Seq<char>, id: Seq<char>)
    requires
        id.len() > 0,
    ensures
        placed(merge_one(nodes, address, id).0, address, id),
{
    let n1 = merge_one(nodes, address, id).0;
    lemma_first_where_spec(nodes, named(id));
    lemma_first_where_spec(nodes, addressed(address));
    lemma_merge_target_spec(nodes, address, id);
    let i: int = match merge_target(nodes, address, id) {
        Some(i) => i,
        None => nodes.len() as int,
    };
    assert(0 <= i < n1.len());
    assert(n1[i].address == address && n1[i].name == Some(id));
    assert forall|j: int| 0 <= j < i implies !named(id)(#[trigger] n1[j]) by {
        assert(n1[j] == nodes[j]);
        if named(id)(nodes[j]) {
            let k = first_where(nodes, named(id)).unwrap();
            assert(k <= j);
        }
    }
    assert(is_first(n1, named(id), i));
    lemma_first_where_is(n1, named(id), i);
}

/// Merging a daemon with another address and another id leaves a placed
/// daemon placed.
proof fn lemma_merge_one_keeps_placed(
    nodes: Seq<NodeView>,
    address: Seq<char>,
    id: Seq<char>,
    other_address: Seq<char>,
    other_id: Seq<char>,
)
    requires
        placed(nodes, address, id),
        other_address != address,
        other_id != id,
    ensures
        placed(merge_one(nodes, other_address, other_id).0, address, id),
{
    lemma_first_where_spec(nodes, named(id));
    lemma_first_where_spec(nodes, named(other_id));
    lemma_first_where_spec(nodes, addressed(other_address));
    lemma_merge_target_spec(nodes, other_address, other_id);
    let p = first_where(nodes, named(id)).unwrap();
    let n1 = merge_one(nodes, other_address, other_id).0;
    assert(n1.len() >= nodes.len());
    match merge_target(nodes, other_address, other_id) {
        Some(i) => {
            assert(nodes[p].name == Some(id) && nodes[p].address == address);
            assert(i != p);
            assert forall|j: int| 0 <= j < p implies !named(id)(#[trigger] n1[j]) by {
                if j != i {
                    assert(n1[j] == nodes[j]);
                }
            }
            assert(n1[p] == nodes[p]);
        },
        None => {
            assert forall|j: int| 0 <= j < p implies !named(id)(#[trigger] n1[j]) by {
                assert(n1[j] == nodes[j]);
            }
            assert(n1[p] == nodes[p]);
        },
    }
    assert(is_first(n1, named(id), p));
    lemma_first_where_is(n1, named(id), p);
}

/// Merging a placed daemon with a non-empty id again changes nothing.
proof fn lemma_placed_is_quiet(nodes: Seq<NodeView>, address: Seq<char>, id: Seq<char>)
    requires
        placed(nodes, address, id),
        id.len() > 0,
    ensures
        merge_one(nodes, address, id) == (nodes, false),
{
    lemma_first_where_spec(nodes, named(id));
    let p = first_where(nodes, named(id)).unwrap();
    assert(merge_target(nodes, address, id) == Some(p));
    let v = nodes[p];
    let w = NodeView {
        name: name_for_id(id),
        address,
        api_key: v.api_key,
        use_keyring: v.use_keyring,
    };
    assert(w == v);
    assert(nodes.update(p, w) =~= nodes);
}

/// The daemons have non-empty ids, and no two share an address or an id.
pub open spec fn distinct_daemons(found: Seq<(Seq<char>, Seq<char>)>) -> bool {
    &&& forall|k: int| 0 <= k < found.len() ==> (#[trigger] found[k]).1.len() > 0
    &&& forall|j: int, k: int|
        0 <= j < k < found.len() ==> (#[trigger] found[j]).0 != (#[trigger] found[k]).0
            && found[j].1 != found[k].1
}

/// After merging the first `m` daemons, each of them is placed.
proof fn lemma_merge_all_places(nodes: Seq<NodeView>, found: Seq<(Seq<char>, Seq<char>)>, m: int)
    requires
        0 <= m <= found.len(),
        distinct_daemons(found),
    ensures
        forall|k: int|
            0 <= k < m ==> placed(
                merge_all(nodes, found.take(m)).0,
                (#[trigger] found[k]).0,
                found[k].1,
            ),
    decreases m,
{
    if m > 0 {
        lemma_merge_all_places(nodes, found, m - 1);
        let prev = merge_all(nodes, found.take(m - 1)).0;
        assert(found.take(m).drop_last() =~= found.take(m - 1));
        assert(found.take(m).last() == found[m - 1]);
        let next = merge_all(nodes, found.take(m)).0;
        assert(next == merge_one(prev, found[m - 1].0, found[m - 1].1).0);
        assert forall|k: int| 0 <= k < m implies placed(next, (#[trigger] found[k]).0, found[k].1) by {
            if k == m - 1 {
                lemma_merge_one_names(prev, found[k].0, found[k].1);
            } else {
                assert(placed(prev, found[k].0, found[k].1));
                lemma_merge_one_keeps_placed(
                    prev,
                    found[k].0,
                    found[k].1,
                    found[m - 1].0,
                    found[m - 1].1,
                );
            }
        }
    }
}

/// Merging daemons that are all placed, with non-empty ids, changes nothing.
proof fn lemma_merge_all_quiet(nodes: Seq<NodeView>, found: Seq<(Seq<char>, Seq<char>)>, m: int)
    requires
        0 <= m <= found.len(),
        forall|k: int|
            0 <= k < found.len() ==> placed(nodes, (#[trigger] found[k]).0, found[k].1)
                && found[k].1.len() > 0,
    ensures
        merge_all(nodes, found.take(m)) == (nodes, false),
    decreases m,
{
    if m > 0 {
        lemma_merge_all_quiet(nodes, found, m - 1);
        assert(found.take(m).drop_last() =~= found.take(m - 1));
        assert(found.take(m).last() == found[m - 1]);
        lemma_placed_is_quiet(nodes, found[m - 1].0, found[m - 1].1);
    }
}

/// Merging the same discovered daemons a second time reports no change and
/// leaves the nodes as the first merge made them, when the daemons have
/// non-empty ids and no two share an address or an id.
pub proof fn lemma_merge_all_idempotent(nodes: Seq<NodeView>, found: Seq<(Seq<char>, Seq<char>)>)
    requires
        distinct_daemons(found),
    ensures
        merge_all(merge_all(nodes, found).0, found) == (merge_all(nodes, found).0, false),
{
    let n = found.len() as int;
    assert(found.take(n) =~= found);
    lemma_merge_all_places(nodes, found, n);
    let once = merge_all(nodes, found).0;
    lemma_merge_all_quiet(once, found, n);
}

/// Loading is stable: normalizing profiles that are already normalized (with
/// no legacy nodes left) changes nothing.
pub proof fn lemma_normalize_idempotent(
    m: Map<Seq<char>, Seq<NodeView>>,
    legacy: Seq<NodeView>,
    active: Seq<char>,
)
    ensures
        normalized_profiles(normalized_profiles(m, legacy, active), Seq::<NodeView>::empty(), active)
            == normalized_profiles(m, legacy, active),
        normalized_profiles(m, legacy, active).dom().contains(active),
{
}

/// Loading keeps every profile and every node it had, and keeps the legacy
/// nodes at the end of the default profile.
pub proof fn lemma_normalize_keeps_nodes(
    m: Map<Seq<char>, Seq<NodeView>>,
    legacy: Seq<NodeView>,
    active: Seq<char>,
)
    ensures
        forall|k: Seq<char>| #[trigger]
            m.dom().contains(k) ==> normalized_profiles(m, legacy, active).dom().contains(k),
        forall|k: Seq<char>|
            m.dom().contains(k) && k != DEFAULT_PROFILE@ ==> #[trigger] normalized_profiles(
                m,
                legacy,
                active,
            )[k] == m[k],
        legacy.len() > 0 ==> normalized_profiles(m, legacy, active)[DEFAULT_PROFILE@] == nodes_or_empty(
            m,
            DEFAULT_PROFILE@,
        ) + legacy,
{
}

/// Creating a profile and deleting it again leaves the profiles as they were.
pub proof fn lemma_create_then_delete(m: Map<Seq<char>, Seq<NodeView>>, name: Seq<char>)
    requires
        !m.dom().contains(name),
    ensures
        m.insert(name, Seq::<NodeView>::empty()).remove(name) == m,
{
    assert(m.insert(name, Seq::<NodeView>::empty()).remove(name) =~= m);
}

// ---------------------------------------------------------------------------
// The configuration
// ---------------------------------------------------------------------------

/// Why a profile command was refused.
#[derive(Debug, Clone, PartialEq, Eq)]
pub enum ProfileError {
    /// No profile of this name.
    NotFound(String),
    /// A profile of this name exists already.
    AlreadyExists(String),
    /// The default profile cannot be deleted.
    DefaultProtected,
    /// The active profile cannot be deleted.
    ActiveProtected,
    /// No node of this address or name in the profile.
    NodeNotFound { node: String, profile: String },
}

/// The text of a refusal.
pub open spec fn profile_error_text(e: ProfileError) -> Seq<char> {
    match e {
        ProfileError::NotFound(n) => "Profile '"@ + n@ + "' not found"@,
        ProfileError::AlreadyExists(n) => "Profile '"@ + n@ + "' already exists"@,
        ProfileError::DefaultProtected => "Cannot delete the default profile"@,
        ProfileError::ActiveProtected =>
            "Cannot delete the active profile. Switch to another profile first."@,
        ProfileError::NodeNotFound { node, profile } => "Node '"@ + node@ + "' not found in profile '"@
            + profile@ + "'"@,
    }
}

impl ProfileError {
    /// The message shown to the user.
    pub fn message(&self) -> (r: String)
        ensures
            r@ == profile_error_text(*self),
    {
        let mut r = String::new();
        match self {
            ProfileError::NotFound(n) => {
                push_str(&mut r, "Profile '");
                push_str(&mut r, n.as_str());
                push_str(&mut r, "' not found");
            },
            ProfileError::AlreadyExists(n) => {
                push_str(&mut r, "Profile '");
                push_str(&mut r, n.as_str());
                push_str(&mut r, "' already exists");
            },
            ProfileError::DefaultProtected => {
                push_str(&mut r, "Cannot delete the default profile");
            },
            ProfileError::ActiveProtected => {
                push_str(
                    &mut r,
                    "Cannot delete the active profile. Switch to another profile first.",
                );
            },
            ProfileError::NodeNotFound { node, profile } => {
                push_str(&mut r, "Node '");
                push_str(&mut r, node.as_str());
                push_str(&mut r, "' not found in profile '");
                push_str(&mut r, profile.as_str());
                push_str(&mut r, "'");
            },
        }
        assert(r@ =~= profile_error_text(*self));
        r
    }
}

impl NodeConfig {
    /// The keyring account that holds this node's API key, when it uses the keyring.
    pub fn keyring_account(&self) -> (r: Option<String>)
        ensures
            r.deep_view() == (if self.use_keyring {
                Some(self.address@)
            } else {
                None
            }),
    {
        if self.use_keyring {
            Some(owned(self.address.as_str()))
        } else {
            None
        }
    }

    /// The node's API key: the keyring's answer when it uses the keyring, else
    /// the key written in the configuration.
    pub fn get_api_key(&self, from_keyring: Option<String>) -> (r: Option<String>)
        ensures
            r.deep_view() == (if self.use_keyring {
                from_keyring.deep_view()
            } else {
                self.api_key.deep_view()
            }),
    {
        if self.use_keyring {
            from_keyring
        } else {
            copy_opt(&self.api_key)
        }
    }
}

/// The first node of the list that satisfies a name or address test.
fn find_node_index(nodes: &Vec<NodeConfig>, key: &str, by_address: bool, by_name: bool) -> (r:
    Option<usize>)
    ensures
        match r {
            Some(i) => first_where(node_views(nodes@), node_test(key@, by_address, by_name)) == Some(
                i as int,
            ),
            None => first_where(node_views(nodes@), node_test(key@, by_address, by_name)) is None,
        },
{
    let ghost p = node_test(key@, by_address, by_name);
    let ghost s = node_views(nodes@);
    let mut i: usize = 0;
    while i < nodes.len()
        invariant
            i <= nodes@.len(),
            s == node_views(nodes@),
            p == node_test(key@, by_address, by_name),
            forall|j: int| 0 <= j < i ==> !p(#[trigger] s[j]),
        decreases nodes@.len() - i,
    {
        let hit = (by_address && same_text(nodes[i].address.as_str(), key)) || (by_name && opt_is(
            &nodes[i].name,
            key,
        ));
        assert(s[i as int] == nodes@[i as int]@);
        assert(p(s[i as int]) == ((by_address && s[i as int].address == key@) || (by_name
            && s[i as int].name == Some(key@))));
        assert(hit == p(s[i as int]));
        if hit {
            proof {
                assert(is_first(s, p, i as int));
                lemma_first_where_is(s, p, i as int);
            }
            return Some(i);
        }
        i = i + 1;
    }
    proof {
        lemma_first_where_none(s, p);
    }
    None
}

/// Merges one discovered daemon into a list of nodes.
fn merge_one_into(nodes: &mut Vec<NodeConfig>, address: &String, id: &String) -> (changed: bool)
    ensures
        (node_views(final(nodes)@), changed) == merge_one(node_views(old(nodes)@), address@, id@),
{
    let ghost s = node_views(nodes@);
    let no_id = id.as_str().is_empty();
    let mut found: Option<usize> = None;
    if !no_id {
        found = find_node_index(nodes, id.as_str(), false, true);
    }
    if found.is_none() {
        found = find_node_index(nodes, address.as_str(), true, false);
    }
    assert(match found {
        Some(i) => merge_target(s, address@, id@) == Some(i as int),
        None => merge_target(s, address@, id@) is None,
    });
    let new_name: Option<String> = if no_id {
        None
    } else {
        Some(owned(id.as_str()))
    };
    match found {
        Some(i) => {
            proof {
                lemma_merge_target_spec(s, address@, id@);
            }
            let mut node = nodes.remove(i);
            let changed = !same_text(node.address.as_str(), address.as_str()) || !opt_eq(
                &node.name,
                &new_name,
            );
            node.address = owned(address.as_str());
            node.name = new_name;
            nodes.insert(i, node);
            assert(node_views(nodes@) =~= s.update(
                i as int,
                NodeView {
                    name: name_for_id(id@),
                    address: address@,
                    api_key: s[i as int].api_key,
                    use_keyring: s[i as int].use_keyring,
                },
            ));
            changed
        },
        None => {
            let node = NodeConfig {
                name: new_name,
                address: owned(address.as_str()),
                api_key: Some(owned(TOKEN_PLACEHOLDER)),
                use_keyring: false,
            };
            let ghost nv = node@;
            nodes.push(node);
            assert(nv == discovered_node(address@, id@));
            assert(node_views(nodes@) =~= s.push(nv));
            true
        },
    }
}

/// The client configuration.
#[derive(Debug)]
pub struct Config {
    /// The profile that commands use.
    pub active_profile: String,
    /// The profiles by name.
    pub profiles: ProfileMap,
    /// Nodes written at the top level by older versions, moved into the
    /// default profile on load.
    pub nodes: Vec<NodeConfig>,
}

/// The active profile exists.
pub open spec fn active_exists(c: &Config) -> bool {
    c.profiles@.dom().contains(c.active_profile@)
}

impl Default for Config {
    /// A configuration with the empty default profile, which is active.
    fn default() -> (r: Config)
        ensures
            r.active_profile@ == DEFAULT_PROFILE@,
            r.profiles@ == Map::<Seq<char>, Seq<NodeView>>::empty().insert(
                DEFAULT_PROFILE@,
                Seq::<NodeView>::empty(),
            ),
            r.nodes@.len() == 0,
    {
        let mut profiles = ProfileMap::new();
        profiles.insert(default_profile_name(), ProfileConfig::new());
        Config { active_profile: default_profile_name(), profiles, nodes: Vec::new() }
    }
}

impl Config {
    /// Completes a configuration just read: legacy top-level nodes move to the
    /// end of the default profile, and a missing active profile is created empty.
    pub fn normalize(&mut self)
        ensures
            final(self).active_profile@ == old(self).active_profile@,
            final(self).nodes@.len() == 0,
            final(self).profiles@ == normalized_profiles(
                old(self).profiles@,
                node_views(old(self).nodes@),
                old(self).active_profile@,
            ),
            active_exists(&*final(self)),
    {
        let ghost m = self.profiles@;
        let ghost legacy = node_views(self.nodes@);
        if self.nodes.len() > 0 {
            let mut moved: Vec<NodeConfig> = Vec::new();
            std::mem::swap(&mut moved, &mut self.nodes);
            let mut profile = match self.profiles.insert(default_profile_name(), ProfileConfig::new()) {
                Some(p) => p,
                None => ProfileConfig::new(),
            };
            let ghost before = profile.nodes@;
            profile.nodes.append(&mut moved);
            assert(node_views(profile.nodes@) =~= node_views(before) + legacy);
            self.profiles.insert(default_profile_name(), profile);
            assert(self.profiles@ =~= m.insert(
                DEFAULT_PROFILE@,
                nodes_or_empty(m, DEFAULT_PROFILE@) + legacy,
            ));
        }
        if !self.profiles.contains_key(self.active_profile.as_str()) {
            let name = owned(self.active_profile.as_str());
            self.profiles.insert(name, ProfileConfig::new());
        }
    }

    /// Merges discovered daemons, given as (address, id) pairs, into the active
    /// profile (created when missing); tells whether a node was added or changed.
    pub fn merge_nodes(&mut self, discovered: Vec<(String, String)>) -> (updated: bool)
        ensures
            final(self).active_profile@ == old(self).active_profile@,
            node_views(final(self).nodes@) == node_views(old(self).nodes@),
            final(self).profiles@ == old(self).profiles@.insert(
                old(self).active_profile@,
                merge_all(
                    nodes_or_empty(old(self).profiles@, old(self).active_profile@),
                    found_views(discovered@),
                ).0,
            ),
            updated == merge_all(
                nodes_or_empty(old(self).profiles@, old(self).active_profile@),
                found_views(discovered@),
            ).1,
            active_exists(&*final(self)),
    {
        let ghost start = nodes_or_empty(self.profiles@, self.active_profile@);
        let ghost found = found_views(discovered@);
        let active = owned(self.active_profile.as_str());
        let mut profile = match self.profiles.insert(owned(active.as_str()), ProfileConfig::new()) {
            Some(p) => p,
            None => ProfileConfig::new(),
        };
        assert(node_views(profile.nodes@) == start);
        let mut updated = false;
        let mut i: usize = 0;
        while i < discovered.len()
            invariant
                i <= discovered@.len(),
                found == found_views(discovered@),
                (node_views(profile.nodes@), updated) == merge_all(start, found.take(i as int)),
            decreases discovered@.len() - i,
        {
            let changed = merge_one_into(&mut profile.nodes, &discovered[i].0, &discovered[i].1);
            updated = updated || changed;
            assert(found.take(i + 1).drop_last() =~= found.take(i as int));
            assert(found.take(i + 1).last() == (discovered@[i as int].0@, discovered@[i as int].1@));
            i = i + 1;
        }
        assert(found.take(discovered@.len() as int) =~= found);
        self.profiles.insert(active, profile);
        assert(self.profiles@ =~= old(self).profiles@.insert(
            old(self).active_profile@,
            merge_all(start, found).0,
        ));
        updated
    }

    /// Makes an existing profile the active one.
    pub fn use_profile(&mut self, name: String) -> (r: Result<(), ProfileError>)
        ensures
            final(self).profiles@ == old(self).profiles@,
            node_views(final(self).nodes@) == node_views(old(self).nodes@),
            r is Ok <==> old(self).profiles@.dom().contains(name@),
            r is Ok ==> final(self).active_profile@ == name@,
            r matches Err(e) ==> e == ProfileError::NotFound(name)
                && final(self).active_profile@ == old(self).active_profile@,
            active_exists(&*old(self)) ==> active_exists(&*final(self)),
    {
        if self.profiles.contains_key(name.as_str()) {
            self.active_profile = name;
            Ok(())
        } else {
            Err(ProfileError::NotFound(name))
        }
    }

    /// Adds an empty profile of a new name.
    pub fn create_profile(&mut self, name: String) -> (r: Result<(), ProfileError>)
        ensures
            final(self).active_profile@ == old(self).active_profile@,
            node_views(final(self).nodes@) == node_views(old(self).nodes@),
            r is Ok <==> !old(self).profiles@.dom().contains(name@),
            r is Ok ==> final(self).profiles@ == old(self).profiles@.insert(
                name@,
                Seq::<NodeView>::empty(),
            ),
            r matches Err(e) ==> e == ProfileError::AlreadyExists(name) && final(self).profiles@
                == old(self).profiles@,
            active_exists(&*old(self)) ==> active_exists(&*final(self)),
    {
        if self.profiles.contains_key(name.as_str()) {
            return Err(ProfileError::AlreadyExists(name));
        }
        let key = owned(name.as_str());
        self.profiles.insert(key, ProfileConfig::new());
        Ok(())
    }

    /// Deletes a profile other than the default and the active one.
    pub fn delete_profile(&mut self, name: &str) -> (r: Result<(), ProfileError>)
        ensures
            final(self).active_profile@ == old(self).active_profile@,
            node_views(final(self).nodes@) == node_views(old(self).nodes@),
            name@ == DEFAULT_PROFILE@ ==> r == Err::<(), ProfileError>(
                ProfileError::DefaultProtected,
            ),
            name@ != DEFAULT_PROFILE@ && name@ == old(self).active_profile@ ==> r == Err::<
                (),
                ProfileError,
            >(ProfileError::ActiveProtected),
            name@ != DEFAULT_PROFILE@ && name@ != old(self).active_profile@
                && !old(self).profiles@.dom().contains(name@) ==> (r matches Err(
                ProfileError::NotFound(n),
            ) && n@ == name@),
            r is Ok <==> (name@ != DEFAULT_PROFILE@ && name@ != old(self).active_profile@
                && old(self).profiles@.dom().contains(name@)),
            r is Ok ==> final(self).profiles@ == old(self).profiles@.remove(name@),
            r is Err ==> final(self).profiles@ == old(self).profiles@,
            active_exists(&*old(self)) ==> active_exists(&*final(self)),
    {
        if same_text(name, DEFAULT_PROFILE) {
            return Err(ProfileError::DefaultProtected);
        }
        if same_text(name, self.active_profile.as_str()) {
            return Err(ProfileError::ActiveProtected);
        }
        match self.profiles.remove(name) {
            Some(_) => Ok(()),
            None => Err(ProfileError::NotFound(owned(name))),
        }
    }

    /// The names of all profiles, each with whether it is the active one.
    pub fn profile_listing(&self) -> (r: Vec<(String, bool)>)
        ensures
            forall|k: Seq<char>|
                self.profiles@.dom().contains(k) <==> exists|i: int|
                    0 <= i < r@.len() && #[trigger] r@[i].0@ == k,
            forall|i: int| 0 <= i < r@.len() ==> #[trigger] r@[i].1 == (r@[i].0@ == self.active_profile@),
            r@.len() == self.profiles@.dom().len(),
    {
        let keys = self.profiles.keys();
        let mut r: Vec<(String, bool)> = Vec::new();
        let mut i: usize = 0;
        while i < keys.len()
            invariant
                i <= keys@.len(),
                r@.len() == i,
                forall|k: int| 0 <= k < i ==> #[trigger] r@[k].0@ == keys@[k]@,
                forall|k: int| 0 <= k < i ==> #[trigger] r@[k].1 == (r@[k].0@ == self.active_profile@),
            decreases keys@.len() - i,
        {
            let is_active = same_text(keys[i].as_str(), self.active_profile.as_str());
            r.push((owned(keys[i].as_str()), is_active));
            i = i + 1;
        }
        assert forall|k: Seq<char>|
            self.profiles@.dom().contains(k) <==> exists|i: int|
                0 <= i < r@.len() && #[trigger] r@[i].0@ == k by {
            if self.profiles@.dom().contains(k) {
                let i = choose|i: int| 0 <= i < keys@.len() && #[trigger] keys@[i]@ == k;
                assert(r@[i].0@ == k);
            }
            if exists|i: int| 0 <= i < r@.len() && #[trigger] r@[i].0@ == k {
                let i = choose|i: int| 0 <= i < r@.len() && #[trigger] r@[i].0@ == k;
                assert(keys@[i]@ == k);
            }
        }
        r
    }

    /// Finds the node whose API key `set-key` stores: the first node of the
    /// profile (the active one when none is named) with the given address or name.
    /// Gives the profile name and the node's position.
    pub fn key_target(&self, profile: Option<String>, node: &str) -> (r: Result<
        (String, usize),
        ProfileError,
    >)
        ensures
            ({
                let p = match profile {
                    Some(p) => p@,
                    None => self.active_profile@,
                };
                match r {
                    Ok((name, i)) => name@ == p && self.profiles@.dom().contains(p) && first_where(
                        self.profiles@[p],
                        designated_by(node@),
                    ) == Some(i as int),
                    Err(ProfileError::NotFound(n)) => n@ == p && !self.profiles@.dom().contains(p),
                    Err(ProfileError::NodeNotFound { node: n, profile: q }) => n@ == node@ && q@
                        == p && self.profiles@.dom().contains(p) && first_where(
                        self.profiles@[p],
                        designated_by(node@),
                    ) is None,
                    Err(_) => false,
                }
            }),
    {
        let p_name = match profile {
            Some(p) => p,
            None => owned(self.active_profile.as_str()),
        };
        match self.profiles.get(p_name.as_str()) {
            None => Err(ProfileError::NotFound(p_name)),
            Some(prof) => {
                let found = find_node_index(&prof.nodes, node, true, true);
                match found {
                    Some(i) => Ok((p_name, i)),
                    None => Err(ProfileError::NodeNotFound { node: owned(node), profile: p_name }),
                }
            },
        }
    }

    /// Records that the key of the node at position `index` of a profile now
    /// lives in the keyring: the plain key is dropped.
    pub fn mark_key_in_keyring(&mut self, profile: &str, index: usize)
        requires
            old(self).profiles@.dom().contains(profile@),
            index < old(self).profiles@[profile@].len(),
        ensures
            final(self).active_profile@ == old(self).active_profile@,
            node_views(final(self).nodes@) == node_views(old(self).nodes@),
            final(self).profiles@ == old(self).profiles@.insert(
                profile@,
                old(self).profiles@[profile@].update(
                    index as int,
                    NodeView {
                        api_key: None,
                        use_keyring: true,
                        ..old(self).profiles@[profile@][index as int]
                    },
                ),
            ),
            active_exists(&*old(self)) ==> active_exists(&*final(self)),
    {
        let mut prof = match self.profiles.insert(owned(profile), ProfileConfig::new()) {
            Some(p) => p,
            None => ProfileConfig::new(),
        };
        let ghost s = node_views(prof.nodes@);
        let mut node = prof.nodes.remove(index);
        node.use_keyring = true;
        node.api_key = None;
        prof.nodes.insert(index, node);
        assert(node_views(prof.nodes@) =~= s.update(
            index as int,
            NodeView { api_key: None, use_keyring: true, ..s[index as int] },
        ));
        self.profiles.insert(owned(profile), prof);
        assert(self.profiles@ =~= old(self).profiles@.insert(
            profile@,
            s.update(index as int, NodeView { api_key: None, use_keyring: true, ..s[index as int] }),
        ));
    }

    /// The targets of a command: the given ones, or when there are none the
    /// addresses of the active profile's nodes.
    pub fn targets_or_profile(&self, targets: Vec<String>) -> (r: Vec<String>)
        ensures
            views(r@) == (if targets@.len() > 0 {
                views(targets@)
            } else {
                nodes_or_empty(self.profiles@, self.active_profile@).map_values(
                    |v: NodeView| v.address,
                )
            }),
    {
        if targets.len() > 0 {
            return targets;
        }
        let mut r: Vec<String> = Vec::new();
        match self.profiles.get(self.active_profile.as_str()) {
            None => {
                assert(views(r@) =~= Seq::<NodeView>::empty().map_values(|v: NodeView| v.address));
            },
            Some(prof) => {
                let ghost s = node_views(prof.nodes@);
                let mut i: usize = 0;
                while i < prof.nodes.len()
                    invariant
                        i <= prof.nodes@.len(),
                        s == node_views(prof.nodes@),
                        views(r@) == s.take(i as int).map_values(|v: NodeView| v.address),
                    decreases prof.nodes@.len() - i,
                {
                    let ghost before = r@;
                    let a = owned(prof.nodes[i].address.as_str());
                    r.push(a);
                    assert(r@ =~= before.push(a));
                    assert(views(r@) =~= views(before).push(a@));
                    assert(s[i as int] == prof.nodes@[i as int]@);
                    assert(s.take(i + 1) =~= s.take(i as int).push(s[i as int]));
                    assert(views(r@) =~= s.take(i + 1).map_values(|v: NodeView| v.address));
                    i = i + 1;
                }
                assert(s.take(s.len() as int) =~= s);
            },
        }
        r
    }

    /// The node of the active profile that a target designates: the first one
    /// whose address or name is the target.
    pub fn find_node(&self, target: &str) -> (r: Option<&NodeConfig>)
        ensures
            match r {
                Some(n) => self.profiles@.dom().contains(self.active_profile@) && exists|i: int|
                    first_where(self.profiles@[self.active_profile@], designated_by(target@))
                        == Some(i) && self.profiles@[self.active_profile@][i] == n@,
                None => !self.profiles@.dom().contains(self.active_profile@) || first_where(
                    self.profiles@[self.active_profile@],
                    designated_by(target@),
                ) is None,
            },
    {
        match self.profiles.get(self.active_profile.as_str()) {
            None => None,
            Some(prof) => {
                let found = find_node_index(&prof.nodes, target, true, true);
                match found {
                    Some(i) => {
                        proof {
                            lemma_first_where_spec(node_views(prof.nodes@), designated_by(target@));
                            assert(node_views(prof.nodes@)[i as int] == prof.nodes@[i as int]@);
                        }
                        Some(&prof.nodes[i])
                    },
                    None => None,
                }
            },
        }
    }
}

} // verus!
