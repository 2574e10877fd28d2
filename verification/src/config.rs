//! Configuration of a node.

use crate::text;
use vstd::prelude::*;

verus! {

/// GHOST NAS configuration. Paths are texts.
#[derive(Debug, Clone)]
pub struct GhostConfig {
    /// General node identity
    pub node: NodeConfig,
    /// TrueNAS SCALE middleware bridge settings
    pub truenas: TrueNASConfig,
    /// ZFS Vault (Black-Hole Storage) dataset configuration
    pub vault: VaultConfig,
    /// Peer discovery and DHT
    pub network: NetworkConfig,
    /// Session policy
    pub session: SessionConfig,
    /// HTTP API / WebDAV / Web UI
    pub api: ApiConfig,
    /// NAS filesystem + WAN routing
    pub nas: NasConfig,
}

#[derive(Debug, Clone)]
pub struct NodeConfig {
    /// Human-readable label for this GHOST node
    pub nickname: String,
    /// Path to the persistent Ed25519 identity key (created on first run)
    pub identity_path: String,
    /// The pre-shared peer whitelist (Ed25519 public key hex)
    pub allowed_peers: Vec<String>,
}

#[derive(Debug, Clone)]
pub struct TrueNASConfig {
    /// TrueNAS SCALE middleware URL (e.g. "http://localhost:8080/api/v2.0")
    pub middleware_url: String,
    /// API key for TrueNAS middleware
    pub api_key: String,
    /// Should GHOST auto-provision ZFS datasets?
    pub auto_provision_dataset: bool,
    /// ZFS pool to use (e.g. "tank")
    pub zfs_pool: String,
    /// Interval (seconds) for health check pings to TrueNAS
    pub health_check_interval_secs: u64,
}

#[derive(Debug, Clone)]
pub struct VaultConfig {
    /// Mount point for the BHS ZFS dataset (e.g. "/mnt/tank/ghost-vault")
    pub mount_path: String,
    /// ZFS dataset name (e.g. "tank/ghost-vault")
    pub dataset_name: String,
    /// Quota for the vault dataset (e.g. "100G")
    pub quota: String,
    /// Encryption at rest for the dataset (true = ZFS native encryption)
    pub encryption: bool,
    /// Shard TTL in seconds (after which unreconstructed shards are purged)
    pub shard_ttl_secs: u64,
    /// Number of shard replicas across peers
    pub replication_factor: usize,
}

#[derive(Debug, Clone)]
pub struct NetworkConfig {
    /// UDP listen port (0 = OS picks random ephemeral)
    pub udp_port: u16,
    /// TCP listen port for bulk shard transfer between WAN peers
    pub tcp_port: u16,
    /// DHT bootstrap nodes (host:port)
    pub bootstrap_peers: Vec<String>,
    /// Enable distributed mode (false = standalone vault only)
    pub distributed: bool,
}

#[derive(Debug, Clone)]
pub struct SessionConfig {
    /// Hard session timeout (seconds)
    pub hard_timeout_secs: u64,
    /// Idle session timeout (seconds)
    pub idle_timeout_secs: u64,
    /// Replay window size (bits)
    pub window_size: u64,
}

#[derive(Debug, Clone)]
pub struct ApiConfig {
    /// HTTP API / WebDAV / WebUI listen address
    pub listen_addr: String,
    /// API port
    pub listen_port: u16,
    /// Enable CORS for web UI integration
    pub enable_cors: bool,
    /// Path to TLS cert for HTTPS (optional: leave empty for HTTP)
    pub tls_cert_path: Option<String>,
    pub tls_key_path: Option<String>,
}

/// NAS filesystem configuration
#[derive(Debug, Clone)]
pub struct NasConfig {
    /// Share name visible to clients (e.g. "GHOST")
    pub share_name: String,
    /// Block size for file sharding in bytes (default: 1MB = 1048576)
    pub shard_block_size: usize,
    /// Number of data shards for RS encoding
    pub rs_data_shards: usize,
    /// Number of parity shards for RS encoding
    pub rs_parity_shards: usize,
    /// WAN peers
    pub wan_peers: Vec<WanPeer>,
    /// Path to the encrypted directory tree database
    pub directory_db_path: String,
    /// Minimum number of shards required to reconstruct a file block
    pub reconstruct_threshold: usize,
}

/// A node reachable over the WAN.
#[derive(Debug)]
pub struct WanPeer {
    pub nickname: String,
    pub address: String,
    pub public_key_hex: String,
    pub geo_tag: String,
}

impl Clone for WanPeer {
    fn clone(&self) -> (r: Self)
        ensures
            r == *self,
    {
        WanPeer {
            nickname: self.nickname.clone(),
            address: self.address.clone(),
            public_key_hex: self.public_key_hex.clone(),
            geo_tag: self.geo_tag.clone(),
        }
    }
}

impl NodeConfig {
    pub open spec fn is_default(&self) -> bool {
        &&& self.nickname@ == "GHOST-NAS"@
        &&& self.identity_path@ == "/mnt/tank/ghost-config/identity.key"@
        &&& self.allowed_peers@.len() == 0
    }
}

impl TrueNASConfig {
    pub open spec fn is_default(&self) -> bool {
        &&& self.middleware_url@ == "http://localhost:8080/api/v2.0"@
        &&& self.api_key@.len() == 0
        &&& self.auto_provision_dataset
        &&& self.zfs_pool@ == "tank"@
        &&& self.health_check_interval_secs == 30
    }
}

impl VaultConfig {
    pub open spec fn is_default(&self) -> bool {
        &&& self.mount_path@ == "/mnt/tank/ghost-vault"@
        &&& self.dataset_name@ == "tank/ghost-vault"@
        &&& self.quota@ == "100G"@
        &&& self.encryption
        &&& self.shard_ttl_secs == 86400
        &&& self.replication_factor == 3
    }
}

impl NetworkConfig {
    pub open spec fn is_default(&self) -> bool {
        &&& self.udp_port == 0
        &&& self.tcp_port == 9001
        &&& self.bootstrap_peers@.len() == 0
        &&& self.distributed
    }
}

impl SessionConfig {
    pub open spec fn is_default(&self) -> bool {
        &&& self.hard_timeout_secs == 86400
        &&& self.idle_timeout_secs == 1800
        &&& self.window_size == 128
    }
}

impl ApiConfig {
    pub open spec fn is_default(&self) -> bool {
        &&& self.listen_addr@ == "0.0.0.0"@
        &&& self.listen_port == 9443
        &&& self.enable_cors
        &&& self.tls_cert_path is None
        &&& self.tls_key_path is None
    }
}

impl NasConfig {
    pub open spec fn is_default(&self) -> bool {
        &&& self.share_name@ == "GHOST"@
        &&& self.shard_block_size == 1_048_576
        &&& self.rs_data_shards == 2
        &&& self.rs_parity_shards == 1
        &&& self.wan_peers@.len() == 0
        &&& self.directory_db_path@ == "/mnt/tank/ghost-vault/.meta/directory.enc"@
        &&& self.reconstruct_threshold == 2
    }
}

impl Default for GhostConfig {
    fn default() -> (r: Self)
        ensures
            r.is_default(),
    {
        GhostConfig {
            node: NodeConfig {
                nickname: "GHOST-NAS".to_owned(),
                identity_path: "/mnt/tank/ghost-config/identity.key".to_owned(),
                allowed_peers: Vec::new(),
            },
            truenas: TrueNASConfig {
                middleware_url: "http://localhost:8080/api/v2.0".to_owned(),
                api_key: String::new(),
                auto_provision_dataset: true,
                zfs_pool: "tank".to_owned(),
                health_check_interval_secs: 30,
            },
            vault: VaultConfig {
                mount_path: "/mnt/tank/ghost-vault".to_owned(),
                dataset_name: "tank/ghost-vault".to_owned(),
                quota: "100G".to_owned(),
                encryption: true,
                shard_ttl_secs: 86400,
                replication_factor: 3,
            },
            network: NetworkConfig {
                udp_port: 0,
                tcp_port: 9001,
                bootstrap_peers: Vec::new(),
                distributed: true,
            },
            session: SessionConfig {
                hard_timeout_secs: 86400,
                idle_timeout_secs: 1800,
                window_size: 128,
            },
            api: ApiConfig {
                listen_addr: "0.0.0.0".to_owned(),
                listen_port: 9443,
                enable_cors: true,
                tls_cert_path: None,
                tls_key_path: None,
            },
            nas: NasConfig {
                share_name: "GHOST".to_owned(),
                shard_block_size: 1_048_576,
                rs_data_shards: 2,
                rs_parity_shards: 1,
                wan_peers: Vec::new(),
                directory_db_path: "/mnt/tank/ghost-vault/.meta/directory.enc".to_owned(),
                reconstruct_threshold: 2,
            },
        }
    }
}

/// The value of an optional text.
pub open spec fn optional_text(s: Option<String>) -> Option<Seq<char>> {
    match s {
        Some(s) => Some(s@),
        None => None,
    }
}

/// The path of the file `name` in the directory `dir`.
pub open spec fn path_in(dir: Seq<char>, name: Seq<char>) -> Seq<char> {
    if dir.len() == 0 || dir.last() == '/' {
        dir + name
    } else {
        dir + "/"@ + name
    }
}

/// Where the configuration lies: at the path from the environment, else in the
/// user's configuration directory, else below `/etc`.
pub open spec fn default_config_path(
    from_env: Option<Seq<char>>,
    config_dir: Option<Seq<char>>,
) -> Seq<char> {
    match (from_env, config_dir) {
        (Some(path), _) => path,
        (None, Some(dir)) => path_in(dir, "ghost_nas.toml"@),
        (None, None) => "/etc/ghost/ghost_nas.toml"@,
    }
}

/// Whom to contact first: the peer given on the command line, else the one from
/// the environment, else the first known one, else this host.
pub open spec fn first_target(
    from_cli: Option<Seq<char>>,
    from_env: Option<Seq<char>>,
    network: NetworkConfig,
) -> Seq<char> {
    match (from_cli, from_env) {
        (Some(target), _) => target,
        (None, Some(ip)) => ip + ":"@ + text::numeral(network.tcp_port as nat),
        (None, None) => if network.bootstrap_peers@.len() > 0 {
            network.bootstrap_peers@[0]@
        } else {
            "127.0.0.1:9000"@
        },
    }
}

/// How often expired shards are collected that live for `ttl_secs` seconds.
pub open spec fn collection_interval(ttl_secs: u64) -> u64 {
    if ttl_secs <= 3600 {
        ttl_secs
    } else {
        3600
    }
}

fn host_and_port(host: &str, port: u16) -> (r: String)
    ensures
        r@ == host@ + ":"@ + text::numeral(port as nat),
{
    let mut out = text::concat(host, ":");
    out.append(text::decimal(port as u64).as_str());
    out
}

impl GhostConfig {
    pub open spec fn is_default(&self) -> bool {
        &&& self.node.is_default()
        &&& self.truenas.is_default()
        &&& self.vault.is_default()
        &&& self.network.is_default()
        &&& self.session.is_default()
        &&& self.api.is_default()
        &&& self.nas.is_default()
    }

    /// The configuration that was stored, or the default one where there is
    /// none; and whether it has to be written.
    pub fn load_or_create(stored: Option<GhostConfig>) -> (r: (GhostConfig, bool))
        ensures
            r.1 == stored is None,
            stored is Some ==> r.0 == stored->0,
            stored is None ==> r.0.is_default(),
    {
        match stored {
            Some(config) => (config, false),
            None => (GhostConfig::default(), true),
        }
    }

    /// Where the configuration lies when the command line does not say.
    pub fn default_path(from_env: Option<String>, config_dir: Option<String>) -> (r: String)
        ensures
            r@ == default_config_path(optional_text(from_env), optional_text(config_dir)),
    {
        if let Some(path) = from_env {
            return path;
        }
        if let Some(dir) = config_dir {
            let chars = text::chars_of(dir.as_str());
            let mut out = dir.clone();
            if chars.len() > 0 && chars[chars.len() - 1] != '/' {
                out.append("/");
            }
            out.append("ghost_nas.toml");
            return out;
        }
        "/etc/ghost/ghost_nas.toml".to_owned()
    }

    /// Resolve the config path: first CLI override, then env var, then default.
    pub fn config_path(
        from_cli: Option<String>,
        from_env: Option<String>,
        config_dir: Option<String>,
    ) -> (r: String)
        ensures
            r@ == match from_cli {
                Some(path) => path@,
                None => default_config_path(optional_text(from_env), optional_text(config_dir)),
            },
    {
        match from_cli {
            Some(path) => path,
            None => GhostConfig::default_path(from_env, config_dir),
        }
    }

    /// Applies what the command line overrides.
    pub fn apply_overrides(
        &mut self,
        nickname: Option<String>,
        udp_port: Option<u16>,
        api_port: Option<u16>,
    )
        ensures
            *final(self) == (GhostConfig {
                node: (NodeConfig {
                    nickname: match nickname {
                        Some(nickname) => nickname,
                        None => old(self).node.nickname,
                    },
                    ..old(self).node
                }),
                network: (NetworkConfig {
                    udp_port: match udp_port {
                        Some(port) => port,
                        None => old(self).network.udp_port,
                    },
                    ..old(self).network
                }),
                api: (ApiConfig {
                    listen_port: match api_port {
                        Some(port) => port,
                        None => old(self).api.listen_port,
                    },
                    ..old(self).api
                }),
                ..*old(self)
            }),
    {
        if let Some(nickname) = nickname {
            self.node.nickname = nickname;
        }
        if let Some(port) = udp_port {
            self.network.udp_port = port;
        }
        if let Some(port) = api_port {
            self.api.listen_port = port;
        }
    }

    /// Whom to contact first.
    pub fn initial_target(&self, from_cli: Option<String>, from_env: Option<String>) -> (r: String)
        ensures
            r@ == first_target(optional_text(from_cli), optional_text(from_env), self.network),
    {
        if let Some(target) = from_cli {
            return target;
        }
        if let Some(ip) = from_env {
            return host_and_port(ip.as_str(), self.network.tcp_port);
        }
        if self.network.bootstrap_peers.len() > 0 {
            return self.network.bootstrap_peers[0].clone();
        }
        "127.0.0.1:9000".to_owned()
    }

    /// This node's own address for shard transfer.
    pub fn local_address(&self) -> (r: String)
        ensures
            r@ == "127.0.0.1"@ + ":"@ + text::numeral(self.network.tcp_port as nat),
    {
        host_and_port("127.0.0.1", self.network.tcp_port)
    }

    /// The address on which the server listens.
    pub fn api_address(&self) -> (r: String)
        ensures
            r@ == self.api.listen_addr@ + ":"@ + text::numeral(self.api.listen_port as nat),
    {
        host_and_port(self.api.listen_addr.as_str(), self.api.listen_port)
    }

    /// How often expired shards are collected, in seconds: as often as they
    /// expire, but at least hourly.
    pub fn gc_interval_secs(&self) -> (r: u64)
        ensures
            r == if self.vault.shard_ttl_secs <= 3600 {
                self.vault.shard_ttl_secs
            } else {
                3600
            },
            r == collection_interval(self.vault.shard_ttl_secs),
    {
        if self.vault.shard_ttl_secs <= 3600 {
            self.vault.shard_ttl_secs
        } else {
            3600
        }
    }
}

// ---------- Laws ----------

/// Whom to contact first: what the command line names goes before the
/// environment, that before the known peers, and the first of them before this host.
pub proof fn law_first_target_by_precedence(
    from_cli: Option<Seq<char>>,
    from_env: Option<Seq<char>>,
    network: NetworkConfig,
)
    ensures
        ({
            let target = first_target(from_cli, from_env, network);
            let known = network.bootstrap_peers@;
            &&& from_cli is Some ==> target == from_cli->0
            &&& from_cli is None && from_env is Some ==> target == from_env->0 + ":"@
                + text::numeral(network.tcp_port as nat)
            &&& from_cli is None && from_env is None && known.len() > 0 ==> target == known[0]@
            &&& from_cli is None && from_env is None && known.len() == 0 ==> target
                == "127.0.0.1:9000"@
        }),
{
}

/// The path from the environment goes before the configuration directory, and
/// that before `/etc`. In a directory the file follows one slash.
pub proof fn law_config_path_by_precedence(
    from_env: Option<Seq<char>>,
    config_dir: Option<Seq<char>>,
)
    ensures
        ({
            let path = default_config_path(from_env, config_dir);
            &&& from_env is Some ==> path == from_env->0
            &&& from_env is None && config_dir is Some ==> {
                let dir = config_dir->0;
                &&& path.len() >= dir.len()
                &&& path.take(dir.len() as int) == dir
                &&& dir.len() > 0 && dir.last() != '/' ==> path.skip(dir.len() as int)
                    == "/ghost_nas.toml"@
                &&& dir.len() == 0 || dir.last() == '/' ==> path.skip(dir.len() as int)
                    == "ghost_nas.toml"@
            }
            &&& from_env is None && config_dir is None ==> path == "/etc/ghost/ghost_nas.toml"@
        }),
{
    if from_env is None && config_dir is Some {
        let dir = config_dir->0;
        let path = default_config_path(from_env, config_dir);
        reveal_strlit("/");
        reveal_strlit("ghost_nas.toml");
        reveal_strlit("/ghost_nas.toml");
        assert("/"@ + "ghost_nas.toml"@ =~= "/ghost_nas.toml"@);
        assert(path.take(dir.len() as int) =~= dir);
        if dir.len() > 0 && dir.last() != '/' {
            assert(path.skip(dir.len() as int) =~= "/ghost_nas.toml"@);
        } else {
            assert(path.skip(dir.len() as int) =~= "ghost_nas.toml"@);
        }
    }
}

/// The default configuration is one that works: files can be cut and encoded, as
/// many shards as data rows bring a block back, there is one copy for each
/// shard, sessions idle out before they end, and shards live for a while.
pub proof fn law_defaults_fit_together(c: GhostConfig)
    requires
        c.is_default(),
    ensures
        c.nas.shard_block_size > 0,
        c.nas.rs_data_shards > 0,
        c.nas.rs_parity_shards > 0,
        c.nas.rs_data_shards + c.nas.rs_parity_shards <= 256,
        c.nas.reconstruct_threshold == c.nas.rs_data_shards,
        c.vault.replication_factor == c.nas.rs_data_shards + c.nas.rs_parity_shards,
        0 < c.session.idle_timeout_secs < c.session.hard_timeout_secs,
        0 < c.session.window_size <= 128,
        c.vault.shard_ttl_secs > 0,
        c.network.tcp_port != c.api.listen_port,
{
}

/// Shards are collected at least hourly, no later than they can expire after the
/// collection before, and no more often than that asks for.
pub proof fn law_collection_keeps_up(ttl_secs: u64)
    ensures
        collection_interval(ttl_secs) <= 3600,
        collection_interval(ttl_secs) <= ttl_secs,
        collection_interval(ttl_secs) == 3600 || collection_interval(ttl_secs) == ttl_secs,
{
}

} // verus!
