//! Configuration of a p2p node: its optional encoded identity, whether it
//! is the genesis node, whether it should initiate agent deployment, and
//! the addresses to bootstrap against. The command-line and transport
//! configuration live in the embedding layer.

use crate::connection::connection_types::NetAddr;
use vstd::prelude::*;

verus! {

/// Configuration of a p2p node
#[derive(Debug, Clone)]
pub struct Config {
    identity: Option<String>,
    genesis: bool,
    deploy_agent: bool,
    bootstrap_nodes: Vec<NetAddr>,
}

impl Config {
    /// The encoded identity, if one was supplied.
    pub closed spec fn spec_identity(self) -> Option<String> {
        self.identity
    }

    /// Whether this node is the genesis node.
    pub closed spec fn spec_genesis(self) -> bool {
        self.genesis
    }

    /// Whether this node should initiate agent deployment.
    pub closed spec fn spec_deploy_agent(self) -> bool {
        self.deploy_agent
    }

    /// The bootstrap addresses.
    pub closed spec fn spec_bootstrap_nodes(self) -> Seq<NetAddr> {
        self.bootstrap_nodes@
    }

    /// Builds a configuration from its parts.
    pub fn new(
        identity: Option<String>,
        genesis: bool,
        deploy_agent: bool,
        bootstrap_nodes: Vec<NetAddr>,
    ) -> (r: Self)
        ensures
            r.spec_identity() == identity,
            r.spec_genesis() == genesis,
            r.spec_deploy_agent() == deploy_agent,
            r.spec_bootstrap_nodes() == bootstrap_nodes@,
    {
        Config { identity, genesis, deploy_agent, bootstrap_nodes }
    }

    /// Checks if node is genesis node
    pub fn is_genesis_node(&self) -> (r: bool)
        ensures
            r == self.spec_genesis(),
    {
        self.genesis
    }

    /// Retrieves the identity of a node
    pub fn identity(&self) -> (r: &Option<String>)
        ensures
            r == self.spec_identity(),
    {
        &self.identity
    }

    /// Retrieves bootstrap nodes
    pub fn bootstrap_nodes(&self) -> (r: &Vec<NetAddr>)
        ensures
            r@ == self.spec_bootstrap_nodes(),
    {
        &self.bootstrap_nodes
    }

    /// Add bootstrap nodes
    pub fn add_bootstrap_nodes(&mut self, peers: &Vec<NetAddr>)
        ensures
            final(self).spec_bootstrap_nodes() == old(self).spec_bootstrap_nodes() + peers@,
            final(self).spec_identity() == old(self).spec_identity(),
            final(self).spec_genesis() == old(self).spec_genesis(),
            final(self).spec_deploy_agent() == old(self).spec_deploy_agent(),
    {
        let mut k: usize = 0;
        while k < peers.len()
            invariant
                k <= peers@.len(),
                self.spec_bootstrap_nodes() == old(self).spec_bootstrap_nodes() + peers@.take(
                    k as int,
                ),
                self.spec_identity() == old(self).spec_identity(),
                self.spec_genesis() == old(self).spec_genesis(),
                self.spec_deploy_agent() == old(self).spec_deploy_agent(),
            decreases peers@.len() - k,
        {
            self.bootstrap_nodes.push(peers[k]);
            proof {
                assert(self.spec_bootstrap_nodes() =~= old(self).spec_bootstrap_nodes()
                    + peers@.take(k + 1 as int));
            }
            k = k + 1;
        }
        proof {
            assert(peers@.take(peers@.len() as int) =~= peers@);
        }
    }

    /// Checks if an agent should be deployed from this node
    pub fn should_deploy(&self) -> (r: bool)
        ensures
            r == self.spec_deploy_agent(),
    {
        self.deploy_agent
    }
}

impl Default for Config {
    /// The default configuration: no identity, not genesis, no agent
    /// deployment, no bootstrap addresses.
    fn default() -> (r: Self)
        ensures
            r.spec_identity() is None,
            !r.spec_genesis(),
            !r.spec_deploy_agent(),
            r.spec_bootstrap_nodes() == Seq::<NetAddr>::empty(),
    {
        Config { identity: None, genesis: false, deploy_agent: false, bootstrap_nodes: Vec::new() }
    }
}

} // verus!
