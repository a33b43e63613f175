//! Which cluster a request works on.

use vstd::prelude::*;

verus! {

/// The organization that a request comes from.
#[derive(Clone, Copy, Debug, PartialEq, Eq, Structural)]
pub struct OrgContext {
    pub organization_id: Option<i64>,
    pub is_super_admin: bool,
}

/// How the active cluster for a request is looked up.
#[derive(Clone, Copy, Debug, PartialEq, Eq, Structural)]
pub enum ClusterLookup {
    /// The active cluster, whatever organization it belongs to.
    Any,
    /// The active cluster of this organization.
    OfOrganization(Option<i64>),
}

/// A super administrator works on the active cluster; anyone else works on the
/// active cluster of their own organization, and on no other.
pub fn cluster_lookup(context: &OrgContext) -> (lookup: ClusterLookup)
    ensures
        context.is_super_admin <==> lookup == ClusterLookup::Any,
        !context.is_super_admin <==> lookup == ClusterLookup::OfOrganization(
            context.organization_id,
        ),
{
    if context.is_super_admin {
        ClusterLookup::Any
    } else {
        ClusterLookup::OfOrganization(context.organization_id)
    }
}

} // verus!
