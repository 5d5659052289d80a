//! Keys and options of a WireGuard tunnel.
use crate::wireguard::obfs::{obfs_of_flags, Flags, WgObfsConfig};
use crate::wireguard::tunn::{public_key_of, x25519_public};
use vstd::prelude::*;

verus! {

/// What the packets in the tunnel are.
#[derive(Clone, Copy, Debug, PartialEq, Eq, Structural)]
pub enum WgType {
    /// Messages between nodes: an IP header is put in front of each and taken off again.
    InternalUse,
    /// IP packets of a WireGuard client, carried as they are.
    ExternalUse,
}

/// Keys and options of a WireGuard tunnel.
#[derive(Clone, Copy)]
pub struct WgConfig {
    pub my_secret_key: [u8; 32],
    pub my_public_key: [u8; 32],
    pub peer_secret_key: [u8; 32],
    pub peer_public_key: [u8; 32],
    pub wg_type: WgType,
    /// None: plain WireGuard.
    pub obfs: Option<WgObfsConfig>,
}

impl WgConfig {
    /// Each public key belongs to the secret key beside it.
    pub open spec fn keys_match(self) -> bool {
        &&& self.my_public_key@ == x25519_public(self.my_secret_key@)
        &&& self.peer_public_key@ == x25519_public(self.peer_secret_key@)
    }

    /// The configuration of a tunnel between nodes of one network, given the digest of the
    /// network's name and secret: both ends hold the same key pair.
    pub fn new_from_network_identity(digest: [u8; 32]) -> (cfg: WgConfig)
        ensures
            cfg.my_secret_key@ == digest@,
            cfg.peer_secret_key@ == digest@,
            cfg.keys_match(),
            cfg.my_public_key@ == x25519_public(digest@),
            cfg.peer_public_key@ == x25519_public(digest@),
            cfg.wg_type == WgType::InternalUse,
            cfg.obfs is None,
    {
        let public_key = public_key_of(&digest);
        WgConfig {
            my_secret_key: digest,
            my_public_key: public_key,
            peer_secret_key: digest,
            peer_public_key: public_key,
            wg_type: WgType::InternalUse,
            obfs: None,
        }
    }

    /// The configuration of the portal for WireGuard clients, given the digests that stand for the
    /// server and for the client.
    pub fn new_for_portal(server_digest: [u8; 32], client_digest: [u8; 32]) -> (cfg: WgConfig)
        ensures
            cfg.my_secret_key@ == server_digest@,
            cfg.peer_secret_key@ == client_digest@,
            cfg.keys_match(),
            cfg.my_public_key@ == x25519_public(server_digest@),
            cfg.peer_public_key@ == x25519_public(client_digest@),
            cfg.wg_type == WgType::ExternalUse,
            cfg.obfs is None,
    {
        let server_cfg = Self::new_from_network_identity(server_digest);
        let client_cfg = Self::new_from_network_identity(client_digest);
        WgConfig {
            my_secret_key: server_cfg.my_secret_key,
            my_public_key: server_cfg.my_public_key,
            peer_secret_key: client_cfg.my_secret_key,
            peer_public_key: client_cfg.my_public_key,
            wg_type: WgType::ExternalUse,
            obfs: None,
        }
    }

    /// The same configuration with other obfuscation parameters.
    pub fn with_obfs(self, obfs: Option<WgObfsConfig>) -> (cfg: WgConfig)
        ensures
            cfg == (WgConfig { obfs, ..self }),
    {
        WgConfig { obfs, ..self }
    }

    /// The obfuscation parameters; none for plain WireGuard.
    pub fn obfs(&self) -> (res: Option<WgObfsConfig>)
        ensures
            res == self.obfs,
    {
        self.obfs
    }

    /// The same configuration with the obfuscation parameters that `flags` asks for.
    pub fn with_obfs_from_flags(self, flags: &Flags) -> (cfg: WgConfig)
        ensures
            cfg == (WgConfig { obfs: obfs_of_flags(*flags), ..self }),
    {
        self.with_obfs(WgObfsConfig::from_flags(flags))
    }

    /// The own secret key.
    pub fn my_secret_key(&self) -> (key: &[u8])
        ensures
            key@ == self.my_secret_key@,
    {
        self.my_secret_key.as_slice()
    }

    /// The peer's secret key.
    pub fn peer_secret_key(&self) -> (key: &[u8])
        ensures
            key@ == self.peer_secret_key@,
    {
        self.peer_secret_key.as_slice()
    }

    /// The own public key.
    pub fn my_public_key(&self) -> (key: &[u8])
        ensures
            key@ == self.my_public_key@,
    {
        self.my_public_key.as_slice()
    }

    /// The peer's public key.
    pub fn peer_public_key(&self) -> (key: &[u8])
        ensures
            key@ == self.peer_public_key@,
    {
        self.peer_public_key.as_slice()
    }
}

/// The two ends of a tunnel between nodes of one network fit: each holds the other's public key.
pub proof fn both_ends_of_a_network_fit(a: WgConfig, b: WgConfig, digest: Seq<u8>)
    requires
        a.my_secret_key@ == digest,
        a.peer_secret_key@ == digest,
        a.keys_match(),
        b.my_secret_key@ == digest,
        b.peer_secret_key@ == digest,
        b.keys_match(),
    ensures
        a.peer_public_key@ == b.my_public_key@,
        b.peer_public_key@ == a.my_public_key@,
{
}

/// Each public key is the one of its own secret key, and not of the other end's.
pub proof fn public_keys_belong_to_their_secrets(cfg: WgConfig)
    requires
        cfg.keys_match(),
    ensures
        cfg.my_public_key@ == x25519_public(cfg.my_secret_key@),
        cfg.peer_public_key@ == x25519_public(cfg.peer_secret_key@),
{
}

} // verus!
