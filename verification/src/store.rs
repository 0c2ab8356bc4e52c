//! The node registry: member records, their validation, and the versioned
//! backend shared by every store variant.

use vstd::prelude::*;
use crate::addr::valid_node_addr;
use crate::addr::check_node_addr;

verus! {

/// A member's participation class: `Voter` counts toward quorum, `StandBy`
/// replicates without voting, `Spare` is inactive reserve.
#[derive(Clone, Copy, Debug, PartialEq, Eq, Structural, Hash)]
pub enum NodeRole {
    Voter,
    StandBy,
    Spare,
}

impl NodeRole {
    /// The small fixed-range integer encoding of each role.
    pub open spec fn spec_value(self) -> u8 {
        match self {
            NodeRole::Voter => 0,
            NodeRole::StandBy => 1,
            NodeRole::Spare => 2,
        }
    }

    /// Decodes a role from its integer encoding; integers outside the
    /// fixed range are a decode error, never silently clamped.
    pub fn new(value: u8) -> (r: Result<Self, String>)
        ensures
            value <= 2 ==> (r matches Ok(role) && role.spec_value() == value),
            value > 2 ==> r is Err,
    {
        match value {
            0 => Ok(NodeRole::Voter),
            1 => Ok(NodeRole::StandBy),
            2 => Ok(NodeRole::Spare),
            _ => Err("Invalid NodeRole value".to_owned()),
        }
    }

    /// The display name of each role.
    pub open spec fn spec_name(self) -> Seq<char> {
        match self {
            NodeRole::Voter => "voter"@,
            NodeRole::StandBy => "stand-by"@,
            NodeRole::Spare => "spare"@,
        }
    }

    /// Renders the role for display.
    pub fn name(self) -> (r: String)
        ensures
            r@ == self.spec_name(),
    {
        match self {
            NodeRole::Voter => String::from_str("voter"),
            NodeRole::StandBy => String::from_str("stand-by"),
            NodeRole::Spare => String::from_str("spare"),
        }
    }

    /// The integer encoding of this role.
    pub fn value(self) -> (v: u8)
        ensures
            v == self.spec_value(),
    {
        match self {
            NodeRole::Voter => 0,
            NodeRole::StandBy => 1,
            NodeRole::Spare => 2,
        }
    }
}

/// One cluster member record.
#[derive(Debug)]
pub struct NodeInfo {
    pub id: u64,
    pub addr: String,
    pub role: NodeRole,
}

/// The mathematical value of a `NodeInfo`: the id, the address as a
/// character sequence, and the role.
pub struct NodeInfoV {
    pub id: u64,
    pub addr: Seq<char>,
    pub role: NodeRole,
}

impl View for NodeInfo {
    type V = NodeInfoV;

    open spec fn view(&self) -> NodeInfoV {
        NodeInfoV { id: self.id, addr: self.addr@, role: self.role }
    }
}

impl DeepView for NodeInfo {
    type V = NodeInfoV;

    open spec fn deep_view(&self) -> NodeInfoV {
        self@
    }
}

impl Clone for NodeInfo {
    fn clone(&self) -> (r: Self)
        ensures
            r@ == self@,
    {
        NodeInfo { id: self.id, addr: self.addr.clone(), role: self.role }
    }
}

impl PartialEq for NodeInfo {
    fn eq(&self, other: &NodeInfo) -> (r: bool) {
        self.id == other.id && self.addr == other.addr && self.role == other.role
    }
}

impl vstd::std_specs::cmp::PartialEqSpecImpl for NodeInfo {
    open spec fn obeys_eq_spec() -> bool {
        true
    }

    open spec fn eq_spec(&self, other: &NodeInfo) -> bool {
        self@ == other@
    }
}

impl Eq for NodeInfo {}

impl NodeInfo {
    /// Checks that the record's address is well-formed under the crate's
    /// address grammar.
    pub fn validate(&self) -> (r: Result<(), NodeStoreError>)
        ensures
            r is Ok <==> valid_node_addr(self.addr@),
            r matches Err(e) ==> e matches NodeStoreError::InvalidNode(_),
    {
        if check_node_addr(self.addr.as_str()) {
            Ok(())
        } else {
            Err(NodeStoreError::InvalidNode("invalid node address".to_owned()))
        }
    }
}

/// Everything that can go wrong in a node store operation, split so that a
/// caller can decide to retry, fail over, or abort without string-matching
/// messages.
#[derive(Clone, Debug, PartialEq, Eq)]
pub enum NodeStoreError {
    /// A record failed validation (bad address, duplicate id or address).
    InvalidNode(String),
    /// No record with the given id exists.
    NotFound(u64),
    /// An optimistic-concurrency update lost the race.
    VersionConflict,
    /// The backing medium failed while persisting.
    Io(String),
    /// A durable snapshot could not be encoded or decoded.
    Serialization(String),
    /// A backend-specific failure, e.g. a SQL execution error.
    Store(String),
}

pub type NodeStoreResult<T> = Result<T, NodeStoreError>;

/// A snapshot of node records is valid when every address is well-formed
/// and ids and addresses are pairwise distinct.
pub open spec fn nodes_valid(ns: Seq<NodeInfoV>) -> bool {
    &&& (forall|i: int| 0 <= i < ns.len() ==> valid_node_addr(#[trigger] ns[i].addr))
    &&& (forall|i: int, j: int|
        0 <= i < j < ns.len() ==> #[trigger] ns[i].id != #[trigger] ns[j].id)
    &&& (forall|i: int, j: int|
        0 <= i < j < ns.len() ==> #[trigger] ns[i].addr != #[trigger] ns[j].addr)
}

/// Some record carries the given id.
pub open spec fn has_id(ns: Seq<NodeInfoV>, id: u64) -> bool {
    exists|i: int| 0 <= i < ns.len() && #[trigger] ns[i].id == id
}

/// Some record carries the given address.
pub open spec fn has_addr(ns: Seq<NodeInfoV>, a: Seq<char>) -> bool {
    exists|i: int| 0 <= i < ns.len() && #[trigger] ns[i].addr == a
}

/// Some record other than `n` already holds `n`'s address.
pub open spec fn addr_taken_by_other(ns: Seq<NodeInfoV>, n: NodeInfoV) -> bool {
    exists|i: int| 0 <= i < ns.len() && #[trigger] ns[i].addr == n.addr && ns[i].id != n.id
}

/// The abstract state of a node store: the records in insertion order and
/// the mutation counter.
#[verifier::ext_equal]
pub struct StoreModel {
    pub nodes: Seq<NodeInfoV>,
    pub version: nat,
}

/// Atomic replace-or-reject: a valid list replaces the whole snapshot and
/// bumps the version; an invalid list leaves the store unchanged.
pub open spec fn spec_set_all(m: StoreModel, ns: Seq<NodeInfoV>) -> StoreModel {
    if nodes_valid(ns) {
        StoreModel { nodes: ns, version: m.version + 1 }
    } else {
        m
    }
}

/// An upsert is allowed when the record is well-formed and its address is
/// not already held by a record with a different id.
pub open spec fn upsert_allowed(ns: Seq<NodeInfoV>, n: NodeInfoV) -> bool {
    valid_node_addr(n.addr) && !addr_taken_by_other(ns, n)
}

/// The record list after an allowed upsert: an existing id is replaced in
/// place, a new id is appended.
pub open spec fn spec_upsert_nodes(ns: Seq<NodeInfoV>, n: NodeInfoV) -> Seq<NodeInfoV> {
    if has_id(ns, n.id) {
        Seq::new(ns.len(), |i: int| if ns[i].id == n.id { n } else { ns[i] })
    } else {
        ns.push(n)
    }
}

/// Add-or-update of a single record; a rejected record leaves the store
/// unchanged.
pub open spec fn spec_upsert(m: StoreModel, n: NodeInfoV) -> StoreModel {
    if upsert_allowed(m.nodes, n) {
        StoreModel { nodes: spec_upsert_nodes(m.nodes, n), version: m.version + 1 }
    } else {
        m
    }
}

/// The record list after removing an id: the records whose id differs, in
/// their original order.
pub open spec fn spec_remove_nodes(ns: Seq<NodeInfoV>, id: u64) -> Seq<NodeInfoV>
    decreases ns.len(),
{
    if ns.len() == 0 {
        ns
    } else if ns.last().id == id {
        spec_remove_nodes(ns.drop_last(), id)
    } else {
        spec_remove_nodes(ns.drop_last(), id).push(ns.last())
    }
}

/// Removal of a record by id; a missing id leaves the store unchanged.
pub open spec fn spec_remove(m: StoreModel, id: u64) -> StoreModel {
    if has_id(m.nodes, id) {
        StoreModel { nodes: spec_remove_nodes(m.nodes, id), version: m.version + 1 }
    } else {
        m
    }
}

/// Optimistic-concurrency replace: behaves as `spec_set_all` only when the
/// caller's expected version matches.
pub open spec fn spec_set_if_version(m: StoreModel, ns: Seq<NodeInfoV>, expected: nat) -> StoreModel {
    if expected == m.version {
        spec_set_all(m, ns)
    } else {
        m
    }
}

/// Checks a whole incoming record list: every address well-formed, ids
/// pairwise distinct, addresses pairwise distinct.
pub fn validate_nodes(nodes: &Vec<NodeInfo>) -> (r: NodeStoreResult<()>)
    ensures
        r is Ok <==> nodes_valid(nodes.deep_view()),
        r matches Err(e) ==> e matches NodeStoreError::InvalidNode(_),
{
    let ghost ns = nodes.deep_view();
    let mut i: usize = 0;
    while i < nodes.len()
        invariant
            i <= nodes.len(),
            ns == nodes.deep_view(),
            forall|k: int| 0 <= k < i ==> valid_node_addr(#[trigger] ns[k].addr),
            forall|k: int, l: int| 0 <= k < l < i ==> #[trigger] ns[k].id != #[trigger] ns[l].id,
            forall|k: int, l: int|
                0 <= k < l < i ==> #[trigger] ns[k].addr != #[trigger] ns[l].addr,
        decreases nodes.len() - i,
    {
        let cur = &nodes[i];
        proof {
            assert(ns[i as int] == cur@);
        }
        match cur.validate() {
            Err(e) => {
                assert(!valid_node_addr(ns[i as int].addr));
                assert(!nodes_valid(ns));
                return Err(e);
            },
            Ok(()) => {},
        }
        let mut j: usize = 0;
        while j < i
            invariant
                j <= i < nodes.len(),
                ns == nodes.deep_view(),
                forall|k: int| 0 <= k < j ==> #[trigger] ns[k].id != ns[i as int].id,
                forall|k: int| 0 <= k < j ==> #[trigger] ns[k].addr != ns[i as int].addr,
            decreases i - j,
        {
            let prev = &nodes[j];
            proof {
                assert(ns[j as int] == prev@);
                assert(ns[i as int] == nodes[i as int]@);
            }
            if prev.id == nodes[i].id {
                assert(ns[j as int].id == ns[i as int].id);
                assert(!nodes_valid(ns));
                return Err(NodeStoreError::InvalidNode("duplicate node id".to_owned()));
            }
            if prev.addr == nodes[i].addr {
                assert(ns[j as int].addr == ns[i as int].addr);
                assert(!nodes_valid(ns));
                return Err(NodeStoreError::InvalidNode("duplicate node address".to_owned()));
            }
            j = j + 1;
        }
        i = i + 1;
    }
    Ok(())
}

/// The validated, versioned in-memory backend shared by every store
/// variant: records in insertion order plus a monotonic version counter.
pub struct NodeStoreBackend {
    nodes: Vec<NodeInfo>,
    version: u64,
}

impl View for NodeStoreBackend {
    type V = StoreModel;

    closed spec fn view(&self) -> StoreModel {
        StoreModel { nodes: self.nodes.deep_view(), version: self.version as nat }
    }
}

/// Clones a record list element by element.
fn clone_nodes(v: &Vec<NodeInfo>) -> (r: Vec<NodeInfo>)
    ensures
        r.deep_view() == v.deep_view(),
{
    let mut out: Vec<NodeInfo> = Vec::new();
    let mut i: usize = 0;
    while i < v.len()
        invariant
            i <= v.len(),
            out.len() == i,
            forall|k: int| 0 <= k < i ==> #[trigger] out.deep_view()[k] == v.deep_view()[k],
        decreases v.len() - i,
    {
        let cur = v[i].clone();
        let ghost prev = out.deep_view();
        out.push(cur);
        proof {
            assert forall|k: int| 0 <= k < i + 1 implies #[trigger] out.deep_view()[k]
                == v.deep_view()[k] by {
                if k < i {
                    assert(out.deep_view()[k] == prev[k]);
                } else {
                    assert(out.deep_view()[k] == cur@);
                    assert(v.deep_view()[k] == v[k]@);
                }
            }
        }
        i = i + 1;
    }
    assert(out.deep_view() =~= v.deep_view());
    out
}

impl NodeStoreBackend {
    /// The snapshot invariants: every held record valid, ids and addresses
    /// pairwise distinct.
    pub open spec fn wf(&self) -> bool {
        nodes_valid(self@.nodes)
    }

    /// An empty registry at version zero.
    pub fn new() -> (s: Self)
        ensures
            s@.nodes == Seq::<NodeInfoV>::empty(),
            s@.version == 0,
            s.wf(),
    {
        let s = NodeStoreBackend { nodes: Vec::new(), version: 0 };
        proof {
            assert(s@.nodes =~= Seq::<NodeInfoV>::empty());
        }
        s
    }

    /// A registry seeded with a validated record list, at version zero.
    pub fn from_nodes(nodes: Vec<NodeInfo>) -> (r: NodeStoreResult<Self>)
        ensures
            nodes_valid(nodes.deep_view()) ==> (r matches Ok(s) && s@.nodes
                == nodes.deep_view() && s@.version == 0 && s.wf()),
            !nodes_valid(nodes.deep_view()) ==> (r matches Err(e) && e
                matches NodeStoreError::InvalidNode(_)),
    {
        match validate_nodes(&nodes) {
            Err(e) => Err(e),
            Ok(()) => Ok(NodeStoreBackend { nodes, version: 0 }),
        }
    }

    /// A snapshot of all records, in insertion order.
    pub fn get_all(&self) -> (r: Vec<NodeInfo>)
        ensures
            r.deep_view() == self@.nodes,
    {
        clone_nodes(&self.nodes)
    }

    /// Looks a record up by id.
    pub fn get_by_id(&self, id: u64) -> (r: Option<NodeInfo>)
        ensures
            r is Some <==> has_id(self@.nodes, id),
            r matches Some(n) ==> n@.id == id && self@.nodes.contains(n@),
    {
        let mut i: usize = 0;
        while i < self.nodes.len()
            invariant
                i <= self.nodes.len(),
                forall|k: int| 0 <= k < i ==> #[trigger] self@.nodes[k].id != id,
            decreases self.nodes.len() - i,
        {
            let cur = &self.nodes[i];
            proof {
                assert(self@.nodes[i as int] == cur@);
            }
            if cur.id == id {
                let n = cur.clone();
                assert(self@.nodes[i as int] == n@);
                assert(self@.nodes[i as int].id == id);
                assert(self@.nodes.contains(n@));
                return Some(n);
            }
            i = i + 1;
        }
        None
    }

    /// Looks a record up by address.
    pub fn get_by_address(&self, address: &str) -> (r: Option<NodeInfo>)
        ensures
            r is Some <==> has_addr(self@.nodes, address@),
            r matches Some(n) ==> n@.addr == address@ && self@.nodes.contains(n@),
    {
        let mut i: usize = 0;
        while i < self.nodes.len()
            invariant
                i <= self.nodes.len(),
                forall|k: int| 0 <= k < i ==> #[trigger] self@.nodes[k].addr != address@,
            decreases self.nodes.len() - i,
        {
            let cur = &self.nodes[i];
            proof {
                assert(self@.nodes[i as int] == cur@);
            }
            if crate::addr::str_eq(cur.addr.as_str(), address) {
                let n = cur.clone();
                assert(self@.nodes[i as int] == n@);
                assert(self@.nodes[i as int].addr == address@);
                assert(self@.nodes.contains(n@));
                return Some(n);
            }
            i = i + 1;
        }
        None
    }

    /// Atomically replaces the whole record list after validating it; on
    /// any validation failure the store is unchanged.
    pub fn set_all(&mut self, nodes: Vec<NodeInfo>) -> (r: NodeStoreResult<()>)
        requires
            old(self)@.version < u64::MAX,
        ensures
            final(self)@ == spec_set_all(old(self)@, nodes.deep_view()),
            r is Ok <==> nodes_valid(nodes.deep_view()),
            r matches Err(e) ==> e matches NodeStoreError::InvalidNode(_),
            old(self).wf() ==> final(self).wf(),
    {
        match validate_nodes(&nodes) {
            Err(e) => {
                return Err(e);
            },
            Ok(()) => {},
        }
        self.nodes = nodes;
        self.version = self.version + 1;
        Ok(())
    }

    /// Adds or updates one record: an existing id may change its address,
    /// but may never take another record's address.
    pub fn upsert(&mut self, node: NodeInfo) -> (r: NodeStoreResult<()>)
        requires
            old(self).wf(),
            old(self)@.version < u64::MAX,
        ensures
            final(self)@ == spec_upsert(old(self)@, node@),
            r is Ok <==> upsert_allowed(old(self)@.nodes, node@),
            r matches Err(e) ==> e matches NodeStoreError::InvalidNode(_),
            final(self).wf(),
    {
        match node.validate() {
            Err(e) => {
                return Err(e);
            },
            Ok(()) => {},
        }
        let ghost ns = self@.nodes;
        let mut i: usize = 0;
        let mut found: Option<usize> = None;
        while i < self.nodes.len()
            invariant
                i <= self.nodes.len(),
                *self == *old(self),
                ns == self@.nodes,
                nodes_valid(ns),
                valid_node_addr(node@.addr),
                old(self)@.version < u64::MAX,
                forall|k: int|
                    0 <= k < i ==> (#[trigger] ns[k].addr == node@.addr ==> ns[k].id == node@.id),
                match found {
                    Some(j) => j < i && ns[j as int].id == node@.id,
                    None => forall|k: int| 0 <= k < i ==> #[trigger] ns[k].id != node@.id,
                },
            decreases self.nodes.len() - i,
        {
            let cur = &self.nodes[i];
            proof {
                assert(ns[i as int] == cur@);
            }
            if cur.addr == node.addr && cur.id != node.id {
                assert(ns[i as int].addr == node@.addr && ns[i as int].id != node@.id);
                assert(addr_taken_by_other(ns, node@));
                return Err(NodeStoreError::InvalidNode("address already in use".to_owned()));
            }
            if cur.id == node.id {
                found = Some(i);
            }
            i = i + 1;
        }
        assert(upsert_allowed(ns, node@));
        let ghost nv = node@;
        match found {
            Some(j) => {
                self.nodes.remove(j);
                self.nodes.insert(j, node);
                self.version = self.version + 1;
                proof {
                    assert(has_id(ns, nv.id));
                    assert forall|k: int| 0 <= k < ns.len() && k != j implies ns[k].id != nv.id by {
                        if ns[k].id == nv.id {
                            if k < j {
                                assert(ns[k].id != ns[j as int].id);
                            } else {
                                assert(ns[j as int].id != ns[k].id);
                            }
                        }
                    }
                    assert(self@.nodes =~= spec_upsert_nodes(ns, nv));
                    assert(self@ =~= spec_upsert(old(self)@, nv));
                    assert_wf_after_replace(ns, nv, j as int);
                    assert(self.wf());
                }
                Ok(())
            },
            None => {
                self.nodes.push(node);
                self.version = self.version + 1;
                proof {
                    assert(!has_id(ns, nv.id));
                    assert(self@.nodes =~= ns.push(nv));
                    assert(self@ =~= spec_upsert(old(self)@, nv));
                    assert_wf_after_push(ns, nv);
                    assert(self.wf());
                }
                Ok(())
            },
        }
    }

    /// Removes a record by id, reporting whether one existed.
    pub fn remove(&mut self, id: u64) -> (r: bool)
        requires
            old(self).wf(),
            old(self)@.version < u64::MAX,
        ensures
            final(self)@ == spec_remove(old(self)@, id),
            r == has_id(old(self)@.nodes, id),
            final(self).wf(),
    {
        let ghost ns = self@.nodes;
        let mut i: usize = 0;
        while i < self.nodes.len()
            invariant
                i <= self.nodes.len(),
                *self == *old(self),
                ns == self@.nodes,
                nodes_valid(ns),
                old(self)@.version < u64::MAX,
                forall|k: int| 0 <= k < i ==> #[trigger] ns[k].id != id,
            decreases self.nodes.len() - i,
        {
            let ghost cur_v = self@.nodes[i as int];
            proof {
                assert(cur_v == self.nodes[i as int]@);
            }
            if self.nodes[i].id == id {
                assert(ns[i as int].id == id);
                self.nodes.remove(i);
                self.version = self.version + 1;
                proof {
                    assert(has_id(ns, id));
                    assert forall|k: int| 0 <= k < ns.len() && k != i implies ns[k].id != id by {
                        if ns[k].id == id {
                            if k < i {
                                assert(ns[k].id != ns[i as int].id);
                            } else {
                                assert(ns[i as int].id != ns[k].id);
                            }
                        }
                    }
                    lemma_remove_is_filter(ns, id, i as int);
                    assert(self@.nodes =~= spec_remove_nodes(ns, id));
                    assert(self@ =~= spec_remove(old(self)@, id));
                    assert_wf_after_remove(ns, id, i as int);
                    assert(self.wf());
                }
                return true;
            }
            i = i + 1;
        }
        false
    }

    /// The store's mutation counter.
    pub fn version(&self) -> (r: u64)
        ensures
            r as nat == self@.version,
    {
        self.version
    }

    /// Replaces the whole record list only if the caller's expected
    /// version still matches; otherwise fails with a version conflict and
    /// performs no mutation.
    pub fn set_if_version(&mut self, nodes: Vec<NodeInfo>, expected_version: u64) -> (r:
        NodeStoreResult<()>)
        requires
            old(self)@.version < u64::MAX,
        ensures
            final(self)@ == spec_set_if_version(old(self)@, nodes.deep_view(), expected_version as nat),
            r is Ok <==> (expected_version as nat == old(self)@.version && nodes_valid(
                nodes.deep_view(),
            )),
            expected_version as nat != old(self)@.version ==> r == NodeStoreResult::<()>::Err(
                NodeStoreError::VersionConflict,
            ),
            r matches Err(e) ==> (e matches NodeStoreError::InvalidNode(_) || e
                == NodeStoreError::VersionConflict),
            old(self).wf() ==> final(self).wf(),
    {
        let current = self.version();
        if current != expected_version {
            return Err(NodeStoreError::VersionConflict);
        }
        self.set_all(nodes)
    }
}

/// The capability set shared by every node store variant: a validated,
/// versioned registry of member records with optimistic-concurrency
/// updates, described throughout by an abstract `StoreModel`.
pub trait NodeStore: Sized {
    /// The abstract registry state this store presents.
    spec fn model(&self) -> StoreModel;

    /// The store's internal invariant.
    spec fn inv(&self) -> bool;

    /// A snapshot of all records, in the store's natural order.
    fn get_all(&self) -> (r: NodeStoreResult<Vec<NodeInfo>>)
        requires
            self.inv(),
        ensures
            (r matches Ok(v) && v.deep_view() == self.model().nodes),
    ;

    /// Looks a record up by id.
    fn get_by_id(&self, id: u64) -> (r: NodeStoreResult<Option<NodeInfo>>)
        requires
            self.inv(),
        ensures
            (r matches Ok(o) && (o is Some <==> has_id(self.model().nodes, id)) && (o
                matches Some(n) ==> n@.id == id && self.model().nodes.contains(n@))),
    ;

    /// Looks a record up by address.
    fn get_by_address(&self, address: &str) -> (r: NodeStoreResult<Option<NodeInfo>>)
        requires
            self.inv(),
        ensures
            (r matches Ok(o) && (o is Some <==> has_addr(self.model().nodes, address@)) && (o
                matches Some(n) ==> n@.addr == address@ && self.model().nodes.contains(n@))),
    ;

    /// Atomically replaces the whole record list; on any validation
    /// failure the store is unchanged.
    fn set_all(&mut self, nodes: Vec<NodeInfo>) -> (r: NodeStoreResult<()>)
        requires
            old(self).inv(),
            old(self).model().version < u64::MAX,
        ensures
            final(self).inv(),
            final(self).model() == spec_set_all(old(self).model(), nodes.deep_view()),
            r is Ok <==> nodes_valid(nodes.deep_view()),
            r matches Err(e) ==> e matches NodeStoreError::InvalidNode(_),
    ;

    /// Adds or updates a single record.
    fn upsert(&mut self, node: NodeInfo) -> (r: NodeStoreResult<()>)
        requires
            old(self).inv(),
            old(self).model().version < u64::MAX,
        ensures
            final(self).inv(),
            final(self).model() == spec_upsert(old(self).model(), node@),
            r is Ok <==> upsert_allowed(old(self).model().nodes, node@),
            r matches Err(e) ==> e matches NodeStoreError::InvalidNode(_),
    ;

    /// Removes a record by id, reporting whether one existed.
    fn remove(&mut self, id: u64) -> (r: NodeStoreResult<bool>)
        requires
            old(self).inv(),
            old(self).model().version < u64::MAX,
        ensures
            final(self).inv(),
            final(self).model() == spec_remove(old(self).model(), id),
            (r matches Ok(b) && b == has_id(old(self).model().nodes, id)),
    ;

    /// The store's version counter, for optimistic locking.
    fn version(&self) -> (r: NodeStoreResult<u64>)
        requires
            self.inv(),
        ensures
            (r matches Ok(v) && v as nat == self.model().version),
    ;

    /// Replaces the whole record list only if the expected version still
    /// matches.
    fn set_if_version(&mut self, nodes: Vec<NodeInfo>, expected_version: u64) -> (r:
        NodeStoreResult<()>)
        requires
            old(self).inv(),
            old(self).model().version < u64::MAX,
        ensures
            final(self).inv(),
            final(self).model() == spec_set_if_version(
                old(self).model(),
                nodes.deep_view(),
                expected_version as nat,
            ),
            r is Ok <==> (expected_version as nat == old(self).model().version && nodes_valid(
                nodes.deep_view(),
            )),
            expected_version as nat != old(self).model().version ==> r == NodeStoreResult::<
                (),
            >::Err(NodeStoreError::VersionConflict),
    ;
}

/// The ephemeral store variant: the validated backend only, with no
/// persistence; used for tests and short-lived clients.
pub struct InMemoryNodeStore {
    backend: NodeStoreBackend,
}

impl InMemoryNodeStore {
    /// An empty in-memory registry at version zero.
    pub fn new() -> (s: Self)
        ensures
            s.inv(),
            s.model().nodes == Seq::<NodeInfoV>::empty(),
            s.model().version == 0,
    {
        InMemoryNodeStore { backend: NodeStoreBackend::new() }
    }
}

impl NodeStore for InMemoryNodeStore {
    closed spec fn model(&self) -> StoreModel {
        self.backend@
    }

    closed spec fn inv(&self) -> bool {
        self.backend.wf()
    }

    fn get_all(&self) -> (r: NodeStoreResult<Vec<NodeInfo>>) {
        Ok(self.backend.get_all())
    }

    fn get_by_id(&self, id: u64) -> (r: NodeStoreResult<Option<NodeInfo>>) {
        Ok(self.backend.get_by_id(id))
    }

    fn get_by_address(&self, address: &str) -> (r: NodeStoreResult<Option<NodeInfo>>) {
        Ok(self.backend.get_by_address(address))
    }

    fn set_all(&mut self, nodes: Vec<NodeInfo>) -> (r: NodeStoreResult<()>) {
        self.backend.set_all(nodes)
    }

    fn upsert(&mut self, node: NodeInfo) -> (r: NodeStoreResult<()>) {
        self.backend.upsert(node)
    }

    fn remove(&mut self, id: u64) -> (r: NodeStoreResult<bool>) {
        Ok(self.backend.remove(id))
    }

    fn version(&self) -> (r: NodeStoreResult<u64>) {
        Ok(self.backend.version())
    }

    fn set_if_version(&mut self, nodes: Vec<NodeInfo>, expected_version: u64) -> (r:
        NodeStoreResult<()>) {
        self.backend.set_if_version(nodes, expected_version)
    }
}

/// Replacing the record at `j` with a record of the same id and a fresh
/// address keeps the snapshot invariants.
proof fn assert_wf_after_replace(ns: Seq<NodeInfoV>, n: NodeInfoV, j: int)
    requires
        nodes_valid(ns),
        0 <= j < ns.len(),
        ns[j].id == n.id,
        valid_node_addr(n.addr),
        !addr_taken_by_other(ns, n),
        forall|k: int| 0 <= k < ns.len() && k != j ==> #[trigger] ns[k].id != n.id,
    ensures
        nodes_valid(Seq::new(ns.len(), |i: int| if ns[i].id == n.id { n } else { ns[i] })),
{
    let ns2 = Seq::new(ns.len(), |i: int| if ns[i].id == n.id { n } else { ns[i] });
    assert forall|i: int| 0 <= i < ns2.len() implies valid_node_addr(#[trigger] ns2[i].addr) by {
        if i != j {
            assert(ns2[i] == ns[i]);
        }
    }
    assert forall|i: int, k: int|
        0 <= i < k < ns2.len() implies #[trigger] ns2[i].id != #[trigger] ns2[k].id by {
        assert(ns2[i].id == ns[i].id && ns2[k].id == ns[k].id);
    }
    assert forall|i: int, k: int|
        0 <= i < k < ns2.len() implies #[trigger] ns2[i].addr != #[trigger] ns2[k].addr by {
        if i == j {
            assert(ns2[k] == ns[k]);
            if ns[k].addr == n.addr {
                assert(addr_taken_by_other(ns, n));
            }
        } else if k == j {
            assert(ns2[i] == ns[i]);
            if ns[i].addr == n.addr {
                assert(addr_taken_by_other(ns, n));
            }
        } else {
            assert(ns2[i] == ns[i] && ns2[k] == ns[k]);
        }
    }
}

/// Appending a record with a fresh id and a fresh address keeps the
/// snapshot invariants.
proof fn assert_wf_after_push(ns: Seq<NodeInfoV>, n: NodeInfoV)
    requires
        nodes_valid(ns),
        valid_node_addr(n.addr),
        !addr_taken_by_other(ns, n),
        forall|k: int| 0 <= k < ns.len() ==> #[trigger] ns[k].id != n.id,
    ensures
        nodes_valid(ns.push(n)),
{
    let ns2 = ns.push(n);
    assert forall|i: int| 0 <= i < ns2.len() implies valid_node_addr(#[trigger] ns2[i].addr) by {
        if i < ns.len() {
            assert(ns2[i] == ns[i]);
        } else {
            assert(ns2[i] == n);
        }
    }
    assert forall|i: int, k: int|
        0 <= i < k < ns2.len() implies #[trigger] ns2[i].id != #[trigger] ns2[k].id by {
        if k < ns.len() {
            assert(ns2[i] == ns[i] && ns2[k] == ns[k]);
        } else {
            assert(ns2[i] == ns[i] && ns2[k] == n);
        }
    }
    assert forall|i: int, k: int|
        0 <= i < k < ns2.len() implies #[trigger] ns2[i].addr != #[trigger] ns2[k].addr by {
        if k < ns.len() {
            assert(ns2[i] == ns[i] && ns2[k] == ns[k]);
        } else {
            assert(ns2[i] == ns[i] && ns2[k] == n);
            if ns[i].addr == n.addr {
                assert(addr_taken_by_other(ns, n));
            }
        }
    }
}

/// Removing the record at `i` keeps the snapshot invariants.
proof fn assert_wf_after_remove(ns: Seq<NodeInfoV>, id: u64, i: int)
    requires
        nodes_valid(ns),
        0 <= i < ns.len(),
    ensures
        nodes_valid(ns.remove(i)),
{
    let ns2 = ns.remove(i);
    assert forall|k: int| 0 <= k < ns2.len() implies valid_node_addr(#[trigger] ns2[k].addr) by {
        if k < i {
            assert(ns2[k] == ns[k]);
        } else {
            assert(ns2[k] == ns[k + 1]);
        }
    }
    assert forall|k: int, l: int|
        0 <= k < l < ns2.len() implies #[trigger] ns2[k].id != #[trigger] ns2[l].id && #[trigger] ns2[k].addr
        != #[trigger] ns2[l].addr by {
        let k0 = if k < i { k } else { k + 1 };
        let l0 = if l < i { l } else { l + 1 };
        assert(ns2[k] == ns[k0] && ns2[l] == ns[l0]);
        assert(0 <= k0 < l0 < ns.len());
        assert(ns[k0].id != ns[l0].id && ns[k0].addr != ns[l0].addr);
    }
}

/// When exactly the record at `j` carries `id`, removing index `j` equals
/// keeping the records whose id differs.
proof fn lemma_remove_is_filter(ns: Seq<NodeInfoV>, id: u64, j: int)
    requires
        0 <= j < ns.len(),
        ns[j].id == id,
        forall|k: int| 0 <= k < ns.len() && k != j ==> #[trigger] ns[k].id != id,
    ensures
        ns.remove(j) =~= spec_remove_nodes(ns, id),
    decreases ns.len(),
{
    if j == ns.len() - 1 {
        assert(ns.last().id == id);
        lemma_filter_no_match(ns.drop_last(), id);
        assert(ns.remove(j) =~= ns.drop_last());
    } else {
        assert(ns.last().id != id);
        lemma_remove_is_filter(ns.drop_last(), id, j);
        assert(ns.remove(j) =~= ns.drop_last().remove(j).push(ns.last()));
    }
}

/// Removing a missing id keeps every record.
proof fn lemma_filter_no_match(ns: Seq<NodeInfoV>, id: u64)
    requires
        forall|k: int| 0 <= k < ns.len() ==> #[trigger] ns[k].id != id,
    ensures
        spec_remove_nodes(ns, id) =~= ns,
    decreases ns.len(),
{
    if ns.len() > 0 {
        assert(ns.last().id != id);
        lemma_filter_no_match(ns.drop_last(), id);
        assert(ns.drop_last().push(ns.last()) =~= ns);
    }
}

/// Replacing the whole membership with a valid list stores exactly that
/// list — as a set, order aside — and raises the version by exactly one.
pub proof fn lemma_set_all_round_trip(m: StoreModel, ns: Seq<NodeInfoV>)
    requires
        nodes_valid(ns),
    ensures
        spec_set_all(m, ns).nodes.to_multiset() == ns.to_multiset(),
        spec_set_all(m, ns).version == m.version + 1,
{
}

/// A list with a duplicate id or a duplicate address is rejected whole:
/// the store's contents and version stay unchanged.
pub proof fn lemma_set_all_rejects_duplicates(m: StoreModel, ns: Seq<NodeInfoV>, i: int, j: int)
    requires
        0 <= i < j < ns.len(),
        ns[i].id == ns[j].id || ns[i].addr == ns[j].addr,
    ensures
        spec_set_all(m, ns) == m,
{
    assert(!nodes_valid(ns));
}

/// An optimistic-concurrency replace applies exactly when the expected
/// version matches the store's version at the moment of the call; any
/// intervening mutation changes the version and makes it fail without
/// effect.
pub proof fn lemma_set_if_version_optimistic(m: StoreModel, ns: Seq<NodeInfoV>, expected: nat)
    requires
        nodes_valid(ns),
    ensures
        expected == m.version ==> spec_set_if_version(m, ns, expected) == (StoreModel {
            nodes: ns,
            version: m.version + 1,
        }),
        expected != m.version ==> spec_set_if_version(m, ns, expected) == m,
{
}

/// Upserting a record whose id exists under a new address removes the old
/// address mapping: no record carries the old address afterwards.
pub proof fn lemma_upsert_moves_address(m: StoreModel, n: NodeInfoV, j: int)
    requires
        nodes_valid(m.nodes),
        0 <= j < m.nodes.len(),
        m.nodes[j].id == n.id,
        m.nodes[j].addr != n.addr,
        upsert_allowed(m.nodes, n),
    ensures
        !has_addr(spec_upsert(m, n).nodes, m.nodes[j].addr),
{
    let old_addr = m.nodes[j].addr;
    let ns = m.nodes;
    assert(has_id(ns, n.id));
    let ns2 = spec_upsert(m, n).nodes;
    assert(ns2 == Seq::new(ns.len(), |i: int| if ns[i].id == n.id { n } else { ns[i] }));
    assert forall|k: int| 0 <= k < ns2.len() implies #[trigger] ns2[k].addr != old_addr by {
        if ns[k].id == n.id {
            assert(ns2[k] == n);
        } else {
            assert(ns2[k] == ns[k]);
            assert(k != j);
            if ns[k].addr == old_addr {
                if k < j {
                    assert(ns[k].addr != ns[j].addr);
                } else {
                    assert(ns[j].addr != ns[k].addr);
                }
            }
        }
    }
}

} // verus!
