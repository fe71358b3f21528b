//! Package identities and graph vertex payloads.

use vstd::prelude::*;

use crate::bytes::bytes_eq;

verus! {

/// Mathematical identity of a package: the distinguished root package, or a
/// workspace named by its UTF-8 bytes.
pub enum NameKey {
    Root,
    Other(Seq<u8>),
}

/// Identity of a package: either the distinguished root package or an
/// arbitrary workspace named by a byte string.
#[derive(Debug, Clone)]
pub enum PackageName {
    Root,
    Other(Vec<u8>),
}

impl View for PackageName {
    type V = NameKey;

    open spec fn view(&self) -> NameKey {
        match self {
            PackageName::Root => NameKey::Root,
            PackageName::Other(n) => NameKey::Other(n@),
        }
    }
}

impl PackageName {
    /// Equality of package identities, by value.
    pub fn key_eq(&self, other: &PackageName) -> (r: bool)
        ensures
            r == (self@ == other@),
    {
        match (self, other) {
            (PackageName::Root, PackageName::Root) => true,
            (PackageName::Other(a), PackageName::Other(b)) => bytes_eq(
                a.as_slice(),
                b.as_slice(),
            ),
            _ => false,
        }
    }
}

/// Mathematical value of a graph vertex payload.
pub enum NodeKey {
    Root,
    Workspace(NameKey),
}

/// Graph vertex payload: the repository root anchor, or a workspace. The
/// root anchor is distinct from the `Workspace(Root)` vertex; both exist in
/// every graph, connected by an edge from the latter to the former.
#[derive(Debug, Clone)]
pub enum PackageNode {
    Root,
    Workspace(PackageName),
}

impl View for PackageNode {
    type V = NodeKey;

    open spec fn view(&self) -> NodeKey {
        match self {
            PackageNode::Root => NodeKey::Root,
            PackageNode::Workspace(n) => NodeKey::Workspace(n@),
        }
    }
}

impl PackageNode {
    /// Equality of vertex payloads, by value.
    pub fn node_eq(&self, other: &PackageNode) -> (r: bool)
        ensures
            r == (self@ == other@),
    {
        match (self, other) {
            (PackageNode::Root, PackageNode::Root) => true,
            (PackageNode::Workspace(a), PackageNode::Workspace(b)) => a.key_eq(b),
            _ => false,
        }
    }
}

} // verus!
