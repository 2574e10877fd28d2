use ghost_nas::config::GhostConfig;
use ghost_nas::truenas::{
    health_step, zfs_exec, TrueNASBridge, TrueNASError, TrueNASHealth, ZfsRun,
};

fn s(x: &str) -> Option<String> {
    Some(x.to_string())
}

fn done(success: bool, stdout: &str, stderr: &str) -> ZfsRun {
    ZfsRun::Ended { success, stdout: stdout.to_string(), stderr: stderr.to_string() }
}

fn bridge() -> TrueNASBridge {
    let mut cfg = GhostConfig::default();
    cfg.truenas.api_key = "abc".to_string();
    TrueNASBridge::new(cfg)
}

#[test]
fn default_config() {
    let c = GhostConfig::default();
    assert_eq!(c.node.nickname, "GHOST-NAS");
    assert_eq!(c.node.identity_path, "/mnt/tank/ghost-config/identity.key");
    assert!(c.node.allowed_peers.is_empty());
    assert_eq!(c.truenas.middleware_url, "http://localhost:8080/api/v2.0");
    assert_eq!((c.truenas.api_key.as_str(), c.truenas.zfs_pool.as_str()), ("", "tank"));
    assert!(c.truenas.auto_provision_dataset);
    assert_eq!(c.truenas.health_check_interval_secs, 30);
    assert_eq!(c.vault.mount_path, "/mnt/tank/ghost-vault");
    assert_eq!((c.vault.dataset_name.as_str(), c.vault.quota.as_str()), ("tank/ghost-vault", "100G"));
    assert!(c.vault.encryption);
    assert_eq!((c.vault.shard_ttl_secs, c.vault.replication_factor), (86400, 3));
    assert_eq!((c.network.udp_port, c.network.tcp_port), (0, 9001));
    assert!(c.network.bootstrap_peers.is_empty() && c.network.distributed);
    assert_eq!(
        (c.session.hard_timeout_secs, c.session.idle_timeout_secs, c.session.window_size),
        (86400, 1800, 128)
    );
    assert_eq!((c.api.listen_addr.as_str(), c.api.listen_port), ("0.0.0.0", 9443));
    assert!(c.api.enable_cors && c.api.tls_cert_path.is_none() && c.api.tls_key_path.is_none());
    assert_eq!((c.nas.share_name.as_str(), c.nas.shard_block_size), ("GHOST", 1_048_576));
    assert_eq!((c.nas.rs_data_shards, c.nas.rs_parity_shards), (2, 1));
    assert!(c.nas.wan_peers.is_empty());
    assert_eq!(c.nas.directory_db_path, "/mnt/tank/ghost-vault/.meta/directory.enc");
    assert_eq!(c.nas.reconstruct_threshold, 2);
}

#[test]
fn stored_config_wins_over_default() {
    let mut c = GhostConfig::default();
    c.node.nickname = "x".to_string();
    let (got, write) = GhostConfig::load_or_create(Some(c));
    assert_eq!((got.node.nickname.as_str(), write), ("x", false));
    let (got, write) = GhostConfig::load_or_create(None);
    assert_eq!((got.node.nickname.as_str(), write), ("GHOST-NAS", true));
}

#[test]
fn config_path_by_precedence() {
    let path = GhostConfig::config_path;
    assert_eq!(path(s("c"), s("e"), s("/d")), "c");
    assert_eq!(path(None, s("e"), s("/d")), "e");
    assert_eq!(path(None, None, s("/d")), "/d/ghost_nas.toml");
    assert_eq!(path(None, None, s("/d/")), "/d/ghost_nas.toml");
    assert_eq!(path(None, None, s("")), "ghost_nas.toml");
    assert_eq!(GhostConfig::default_path(None, None), "/etc/ghost/ghost_nas.toml");
}

#[test]
fn command_line_overrides() {
    let mut c = GhostConfig::default();
    c.apply_overrides(None, None, None);
    assert_eq!((c.node.nickname.as_str(), c.network.udp_port), ("GHOST-NAS", 0));
    c.apply_overrides(s("n"), Some(1), Some(2));
    assert_eq!((c.node.nickname.as_str(), c.network.udp_port, c.api.listen_port), ("n", 1, 2));
    assert_eq!(c.network.tcp_port, 9001);
}

#[test]
fn first_target_by_precedence() {
    let mut c = GhostConfig::default();
    assert_eq!(c.initial_target(None, None), "127.0.0.1:9000");
    c.network.bootstrap_peers = vec!["b:1".to_string(), "c:2".to_string()];
    assert_eq!(c.initial_target(None, None), "b:1");
    assert_eq!(c.initial_target(None, s("10.0.0.1")), "10.0.0.1:9001");
    assert_eq!(c.initial_target(s("t:3"), s("10.0.0.1")), "t:3");
}

#[test]
fn addresses_and_intervals() {
    let mut c = GhostConfig::default();
    assert_eq!(c.local_address(), "127.0.0.1:9001");
    assert_eq!(c.api_address(), "0.0.0.0:9443");
    assert_eq!(c.gc_interval_secs(), 3600);
    c.vault.shard_ttl_secs = 60;
    assert_eq!(c.gc_interval_secs(), 60);
}

#[test]
fn truenas_errors_have_texts() {
    let e = |x: &str| x.to_string();
    assert_eq!(TrueNASError::Http(e("x")).message(), "Middleware request failed: x");
    assert_eq!(TrueNASError::Zfs(e("x")).message(), "ZFS command failed: x");
    assert_eq!(TrueNASError::Auth.message(), "Authentication failed");
    assert_eq!(TrueNASError::DatasetNotFound(e("x")).message(), "Dataset not found: x");
}

#[test]
fn zfs_results_are_trimmed() {
    assert_eq!(zfs_exec(&done(true, " out\n", "err")).unwrap(), "out");
    assert!(matches!(zfs_exec(&done(false, "out", " err\n")), Err(TrueNASError::Zfs(e)) if e == "err"));
    let not = ZfsRun::NotStarted("no such file".to_string());
    assert!(matches!(zfs_exec(&not), Err(TrueNASError::Zfs(e)) if e == "zfs exec failed: no such file"));
}

#[test]
fn dataset_is_provisioned_once() {
    let mut b = bridge();
    assert_eq!(b.existence_args(), ["list", "-H", "-o", "name", "tank/ghost-vault"]);
    assert!(b.provision_vault_dataset(&done(true, "tank/ghost-vault\n", "")).is_none());
    let args = b.provision_vault_dataset(&done(false, "", "does not exist")).unwrap();
    assert_eq!(
        args,
        [
            "create",
            "-o",
            "mountpoint=/mnt/tank/ghost-vault",
            "-o",
            "quota=100G",
            "-o",
            "encryption=aes-256-gcm",
            "-o",
            "keyformat=raw",
            "-o",
            "keylocation=file:///mnt/tank/system/ghost-vault.key",
            "tank/ghost-vault",
        ]
    );
    b.cfg.vault.encryption = false;
    let args = b.provision_vault_dataset(&done(true, "other", "")).unwrap();
    assert_eq!(
        args,
        ["create", "-o", "mountpoint=/mnt/tank/ghost-vault", "-o", "quota=100G", "tank/ghost-vault"]
    );
}

#[test]
fn quota_and_mount_arguments() {
    let b = bridge();
    assert_eq!(b.set_vault_quota("5G"), ["set", "quota=5G", "tank/ghost-vault"]);
    assert_eq!(b.mount_args(), ["mount", "tank/ghost-vault"]);
    assert_eq!(b.pool_health_args(), ["list", "-H", "-o", "health", "tank"]);
    assert_eq!(
        b.dataset_info_args(),
        [
            "list",
            "-H",
            "-o",
            "name,pool,mountpoint,available,used,encryption,quota,compressratio",
            "tank/ghost-vault",
        ]
    );
}

#[test]
fn dataset_info_is_read() {
    let mut b = bridge();
    assert!(b.cached_dataset().is_none());
    let line = "tank/ghost-vault\ttank\t/mnt/x\t1T\t2G\ton\t100G\t1.05x\n";
    let d = b.get_dataset_info(&done(true, line, "")).unwrap();
    assert_eq!((d.name.as_str(), d.pool.as_str()), ("tank/ghost-vault", "tank"));
    assert_eq!(d.mountpoint.as_deref(), Some("/mnt/x"));
    assert_eq!((d.available.as_str(), d.used.as_str(), d.encryption), ("1T", "2G", true));
    assert_eq!((d.encryption_root.as_deref(), d.quota.as_deref()), (None, Some("100G")));
    assert_eq!(d.compressratio, "1.05x");
    b.remember_dataset(d);
    assert_eq!(b.cached_dataset().unwrap().used, "2G");
    let off = b.get_dataset_info(&done(true, "a\tb\tc\td\te\toff\tg\th", "")).unwrap();
    assert!(!off.encryption);
    assert!(matches!(
        b.get_dataset_info(&done(true, "a\tb", "")),
        Err(TrueNASError::DatasetNotFound(n)) if n == "tank/ghost-vault"
    ));
    assert!(matches!(b.get_dataset_info(&done(false, "", "bad")), Err(TrueNASError::Zfs(e)) if e == "bad"));
}

#[test]
fn mounting_twice_is_fine() {
    assert!(TrueNASBridge::mount_vault(&done(true, "", "")).is_ok());
    assert!(TrueNASBridge::mount_vault(&done(false, "", "filesystem already mounted")).is_ok());
    assert!(matches!(
        TrueNASBridge::mount_vault(&done(false, "", "busy")),
        Err(TrueNASError::Zfs(e)) if e == "busy"
    ));
}

#[test]
fn health_without_the_middleware() {
    let up = TrueNASBridge::health_check(&done(true, "ONLINE\n", ""), true);
    assert_eq!(up.system_version, "unknown");
    assert!(up.pool_healthy && up.dataset_mounted && up.ghost_daemon_running);
    let down = TrueNASBridge::health_check(&done(true, "DEGRADED", ""), false);
    assert!(!down.pool_healthy && !down.dataset_mounted);
    assert!(!TrueNASBridge::health_check(&done(false, "ONLINE", ""), true).pool_healthy);
}

#[test]
fn middleware_requests() {
    let mut b = bridge();
    assert_eq!(b.authorization(), "Bearer abc");
    assert_eq!(b.health_url(), "http://localhost:8080/api/v2.0/system/health");
    let a = b.send_alert("WARNING", "disk");
    assert_eq!(a.url, "http://localhost:8080/api/v2.0/alert/list");
    assert_eq!((a.source.as_str(), a.severity.as_str(), a.message.as_str()), ("GHOST-NAS", "WARNING", "disk"));
    assert_eq!(b.health_interval_secs(), 30);
    b.cfg.truenas.health_check_interval_secs = 3;
    assert_eq!(b.health_interval_secs(), 10);
}

#[test]
fn an_unmounted_dataset_is_mounted() {
    let health = |mounted: bool| TrueNASHealth {
        system_version: String::new(),
        pool_healthy: !mounted,
        dataset_mounted: mounted,
        ghost_daemon_running: true,
    };
    assert!(health_step(&health(false)));
    assert!(!health_step(&health(true)));
}
