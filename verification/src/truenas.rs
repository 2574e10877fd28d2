//! What the TrueNAS bridge asks of `zfs` and the middleware, and what it makes
//! of their answers.

use crate::config::GhostConfig;
use crate::text;
use crate::text::Margin;
use vstd::prelude::*;

verus! {

#[derive(Debug)]
pub enum TrueNASError {
    Http(String),
    Zfs(String),
    Auth,
    DatasetNotFound(String),
}

impl TrueNASError {
    /// The text of the error.
    pub open spec fn text(&self) -> Seq<char> {
        match *self {
            TrueNASError::Http(e) => "Middleware request failed: "@ + e@,
            TrueNASError::Zfs(e) => "ZFS command failed: "@ + e@,
            TrueNASError::Auth => "Authentication failed"@,
            TrueNASError::DatasetNotFound(e) => "Dataset not found: "@ + e@,
        }
    }

    pub fn message(&self) -> (r: String)
        ensures
            r@ == self.text(),
    {
        match self {
            TrueNASError::Http(e) => text::concat("Middleware request failed: ", e.as_str()),
            TrueNASError::Zfs(e) => text::concat("ZFS command failed: ", e.as_str()),
            TrueNASError::Auth => "Authentication failed".to_owned(),
            TrueNASError::DatasetNotFound(e) => text::concat("Dataset not found: ", e.as_str()),
        }
    }
}

#[derive(Debug, Clone)]
pub struct TrueNASHealth {
    pub system_version: String,
    pub pool_healthy: bool,
    pub dataset_mounted: bool,
    pub ghost_daemon_running: bool,
}

/// What follows a health check: whether the vault's dataset is to be mounted.
pub fn health_step(health: &TrueNASHealth) -> (r: bool)
    ensures
        r == !health.dataset_mounted,
{
    !health.dataset_mounted
}

/// A ZFS dataset. The compression ratio is the text that `zfs` prints.
#[derive(Debug)]
pub struct ZFSDataset {
    pub name: String,
    pub pool: String,
    pub mountpoint: Option<String>,
    pub available: String,
    pub used: String,
    pub encryption: bool,
    pub encryption_root: Option<String>,
    pub quota: Option<String>,
    pub compressratio: String,
}

impl Clone for ZFSDataset {
    fn clone(&self) -> (r: Self)
        ensures
            r == *self,
    {
        ZFSDataset {
            name: self.name.clone(),
            pool: self.pool.clone(),
            mountpoint: match &self.mountpoint {
                Some(s) => Some(s.clone()),
                None => None,
            },
            available: self.available.clone(),
            used: self.used.clone(),
            encryption: self.encryption,
            encryption_root: match &self.encryption_root {
                Some(s) => Some(s.clone()),
                None => None,
            },
            quota: match &self.quota {
                Some(s) => Some(s.clone()),
                None => None,
            },
            compressratio: self.compressratio.clone(),
        }
    }
}

/// An alert, and where it is sent.
#[derive(Debug)]
pub struct Alert {
    pub url: String,
    pub source: String,
    pub severity: String,
    pub message: String,
}

/// How a run of `zfs` ended.
pub enum ZfsRun {
    /// It could not be started.
    NotStarted(String),
    /// It ended, well or not, and printed this.
    Ended { success: bool, stdout: String, stderr: String },
}

/// What a run of `zfs` gave: its trimmed output, or the reason of the failure.
pub open spec fn zfs_result(run: ZfsRun) -> Result<Seq<char>, Seq<char>> {
    match run {
        ZfsRun::NotStarted(e) => Err("zfs exec failed: "@ + e@),
        ZfsRun::Ended { success, stdout, stderr } => if success {
            Ok(text::trimmed(stdout@, Margin::White))
        } else {
            Err(text::trimmed(stderr@, Margin::White))
        },
    }
}

/// Whether `r` is the result `m` of a run of `zfs`.
pub open spec fn is_zfs_result(
    r: Result<String, TrueNASError>,
    m: Result<Seq<char>, Seq<char>>,
) -> bool {
    match r {
        Ok(out) => m == Ok::<Seq<char>, Seq<char>>(out@),
        Err(e) => e matches TrueNASError::Zfs(reason) && m == Err::<Seq<char>, Seq<char>>(reason@),
    }
}

/// Takes the result of a run of `zfs`.
pub fn zfs_exec(run: &ZfsRun) -> (r: Result<String, TrueNASError>)
    ensures
        is_zfs_result(r, zfs_result(*run)),
{
    match run {
        ZfsRun::NotStarted(e) => Err(
            TrueNASError::Zfs(text::concat("zfs exec failed: ", e.as_str())),
        ),
        ZfsRun::Ended { success, stdout, stderr } => if *success {
            Ok(text::trim(stdout.as_str(), Margin::White))
        } else {
            Err(TrueNASError::Zfs(text::trim(stderr.as_str(), Margin::White)))
        },
    }
}

/// The properties of a dataset that are asked for, in this order.
pub open spec fn dataset_columns() -> Seq<char> {
    "name,pool,mountpoint,available,used,encryption,quota,compressratio"@
}

/// The arguments with which `zfs` creates the vault's dataset.
pub open spec fn create_args(cfg: GhostConfig) -> Seq<Seq<char>> {
    seq![
        "create"@,
        "-o"@,
        "mountpoint="@ + cfg.vault.mount_path@,
        "-o"@,
        "quota="@ + cfg.vault.quota@,
    ] + (if cfg.vault.encryption {
        seq![
            "-o"@,
            "encryption=aes-256-gcm"@,
            "-o"@,
            "keyformat=raw"@,
            "-o"@,
            "keylocation=file:///mnt/"@ + cfg.truenas.zfs_pool@ + "/system/ghost-vault.key"@,
        ]
    } else {
        Seq::empty()
    }) + seq![cfg.vault.dataset_name@]
}

/// The dataset that a line of properties describes.
pub open spec fn is_dataset(d: ZFSDataset, parts: Seq<Seq<char>>) -> bool {
    &&& d.name@ == parts[0]
    &&& d.pool@ == parts[1]
    &&& d.mountpoint matches Some(mountpoint) && mountpoint@ == parts[2]
    &&& d.available@ == parts[3]
    &&& d.used@ == parts[4]
    &&& d.encryption == (parts[5] == "on"@)
    &&& d.encryption_root is None
    &&& d.quota matches Some(quota) && quota@ == parts[6]
    &&& d.compressratio@ == parts[7]
}

/// How often the health is checked where `configured` seconds are asked for.
pub open spec fn check_interval(configured: u64) -> u64 {
    if configured >= 10 {
        configured
    } else {
        10
    }
}

/// Whether a run of `zfs` calls the pool online.
pub open spec fn is_online(run: ZfsRun) -> bool {
    zfs_result(run) is Ok && text::trimmed(zfs_result(run)->Ok_0, Margin::White) == "ONLINE"@
}

/// Whether the dataset is mounted after a run of `zfs mount`.
pub open spec fn is_mounted_after(run: ZfsRun) -> bool {
    zfs_result(run) is Ok || text::occurs(zfs_result(run)->Err_0, "already mounted"@)
}

/// Whether a run of `zfs list` lists the dataset `name`.
pub open spec fn is_listed(run: ZfsRun, name: Seq<char>) -> bool {
    zfs_result(run) == Ok::<Seq<char>, Seq<char>>(name)
}

/// The bridge to TrueNAS SCALE.
pub struct TrueNASBridge {
    pub cfg: GhostConfig,
    pub cached_dataset: Option<ZFSDataset>,
}

impl TrueNASBridge {
    pub fn new(cfg: GhostConfig) -> (r: Self)
        ensures
            r.cfg == cfg,
            r.cached_dataset is None,
    {
        TrueNASBridge { cfg, cached_dataset: None }
    }

    /// The value of the header that authorises requests to the middleware.
    pub fn authorization(&self) -> (r: String)
        ensures
            r@ == "Bearer "@ + self.cfg.truenas.api_key@,
    {
        text::concat("Bearer ", self.cfg.truenas.api_key.as_str())
    }

    /// The arguments with which `zfs` says whether the vault's dataset exists.
    pub fn existence_args(&self) -> (r: Vec<String>)
        ensures
            text::texts(r@) == seq!["list"@, "-H"@, "-o"@, "name"@, self.cfg.vault.dataset_name@],
    {
        let mut out: Vec<String> = Vec::new();
        out.push("list".to_owned());
        out.push("-H".to_owned());
        out.push("-o".to_owned());
        out.push("name".to_owned());
        out.push(self.cfg.vault.dataset_name.clone());
        assert(text::texts(out@) =~= seq![
            "list"@,
            "-H"@,
            "-o"@,
            "name"@,
            self.cfg.vault.dataset_name@,
        ]);
        out
    }

    /// Provisions the vault's dataset: given what `zfs` said of its existence,
    /// the arguments with which to create it; nothing where it exists.
    pub fn provision_vault_dataset(&self, listed: &ZfsRun) -> (r: Option<Vec<String>>)
        ensures
            r is None <==> zfs_result(*listed) == Ok::<Seq<char>, Seq<char>>(
                self.cfg.vault.dataset_name@,
            ),
            r matches Some(args) ==> text::texts(args@) == create_args(self.cfg),
            r is None == is_listed(*listed, self.cfg.vault.dataset_name@),
    {
        if let Ok(name) = zfs_exec(listed) {
            if text::same(name.as_str(), self.cfg.vault.dataset_name.as_str()) {
                return None;
            }
        }
        let mut args: Vec<String> = Vec::new();
        args.push("create".to_owned());
        args.push("-o".to_owned());
        args.push(text::concat("mountpoint=", self.cfg.vault.mount_path.as_str()));
        args.push("-o".to_owned());
        args.push(text::concat("quota=", self.cfg.vault.quota.as_str()));
        if self.cfg.vault.encryption {
            args.push("-o".to_owned());
            args.push("encryption=aes-256-gcm".to_owned());
            args.push("-o".to_owned());
            args.push("keyformat=raw".to_owned());
            args.push("-o".to_owned());
            let mut location = text::concat(
                "keylocation=file:///mnt/",
                self.cfg.truenas.zfs_pool.as_str(),
            );
            location.append("/system/ghost-vault.key");
            args.push(location);
        }
        args.push(self.cfg.vault.dataset_name.clone());
        assert(text::texts(args@) =~= create_args(self.cfg));
        Some(args)
    }

    /// The arguments with which `zfs` sets the vault's quota.
    pub fn set_vault_quota(&self, quota: &str) -> (r: Vec<String>)
        ensures
            text::texts(r@) == seq!["set"@, "quota="@ + quota@, self.cfg.vault.dataset_name@],
    {
        let mut out: Vec<String> = Vec::new();
        out.push("set".to_owned());
        out.push(text::concat("quota=", quota));
        out.push(self.cfg.vault.dataset_name.clone());
        assert(text::texts(out@) =~= seq![
            "set"@,
            "quota="@ + quota@,
            self.cfg.vault.dataset_name@,
        ]);
        out
    }

    /// The arguments with which `zfs` describes the vault's dataset.
    pub fn dataset_info_args(&self) -> (r: Vec<String>)
        ensures
            text::texts(r@) == seq![
                "list"@,
                "-H"@,
                "-o"@,
                dataset_columns(),
                self.cfg.vault.dataset_name@,
            ],
    {
        let mut out: Vec<String> = Vec::new();
        out.push("list".to_owned());
        out.push("-H".to_owned());
        out.push("-o".to_owned());
        out.push(
            "name,pool,mountpoint,available,used,encryption,quota,compressratio".to_owned(),
        );
        out.push(self.cfg.vault.dataset_name.clone());
        assert(text::texts(out@) =~= seq![
            "list"@,
            "-H"@,
            "-o"@,
            dataset_columns(),
            self.cfg.vault.dataset_name@,
        ]);
        out
    }

    /// The dataset that a run of `zfs` describes. Fewer than eight columns mean
    /// that there is no such dataset.
    pub fn get_dataset_info(&self, run: &ZfsRun) -> (r: Result<ZFSDataset, TrueNASError>)
        ensures
            match zfs_result(*run) {
                Err(reason) => r matches Err(TrueNASError::Zfs(e)) && e@ == reason,
                Ok(out) => if text::pieces(out, '\t').len() < 8 {
                    r matches Err(TrueNASError::DatasetNotFound(name)) && name@
                        == self.cfg.vault.dataset_name@
                } else {
                    r matches Ok(d) && is_dataset(d, text::pieces(out, '\t'))
                },
            },
    {
        let out = match zfs_exec(run) {
            Ok(out) => out,
            Err(e) => return Err(e),
        };
        let parts = text::split(out.as_str(), '\t');
        let ghost pieces = text::texts(parts@);
        if parts.len() < 8 {
            return Err(TrueNASError::DatasetNotFound(self.cfg.vault.dataset_name.clone()));
        }
        proof {
            assert forall|i: int| 0 <= i < 8 implies pieces[i] == (#[trigger] parts@[i])@ by {}
        }
        Ok(
            ZFSDataset {
                name: parts[0].clone(),
                pool: parts[1].clone(),
                mountpoint: Some(parts[2].clone()),
                available: parts[3].clone(),
                used: parts[4].clone(),
                encryption: text::same(parts[5].as_str(), "on"),
                encryption_root: None,
                quota: Some(parts[6].clone()),
                compressratio: parts[7].clone(),
            },
        )
    }

    /// The arguments with which `zfs` mounts the vault's dataset.
    pub fn mount_args(&self) -> (r: Vec<String>)
        ensures
            text::texts(r@) == seq!["mount"@, self.cfg.vault.dataset_name@],
    {
        let mut out: Vec<String> = Vec::new();
        out.push("mount".to_owned());
        out.push(self.cfg.vault.dataset_name.clone());
        assert(text::texts(out@) =~= seq!["mount"@, self.cfg.vault.dataset_name@]);
        out
    }

    /// Whether the dataset is mounted after a run of `zfs mount`: that it was
    /// mounted before is no failure.
    pub fn mount_vault(run: &ZfsRun) -> (r: Result<(), TrueNASError>)
        ensures
            match zfs_result(*run) {
                Ok(_) => r is Ok,
                Err(reason) => if text::occurs(reason, "already mounted"@) {
                    r is Ok
                } else {
                    r matches Err(TrueNASError::Zfs(e)) && e@ == reason
                },
            },
            r is Ok == is_mounted_after(*run),
    {
        match zfs_exec(run) {
            Ok(_) => Ok(()),
            Err(TrueNASError::Zfs(reason)) => {
                if text::has_text(reason.as_str(), "already mounted") {
                    Ok(())
                } else {
                    Err(TrueNASError::Zfs(reason))
                }
            },
            Err(e) => Err(e),
        }
    }

    /// Where the middleware reports its health.
    pub fn health_url(&self) -> (r: String)
        ensures
            r@ == self.cfg.truenas.middleware_url@ + "/system/health"@,
    {
        text::concat(self.cfg.truenas.middleware_url.as_str(), "/system/health")
    }

    /// The arguments with which `zfs` reports the health of the pool.
    pub fn pool_health_args(&self) -> (r: Vec<String>)
        ensures
            text::texts(r@) == seq!["list"@, "-H"@, "-o"@, "health"@, self.cfg.truenas.zfs_pool@],
    {
        let mut out: Vec<String> = Vec::new();
        out.push("list".to_owned());
        out.push("-H".to_owned());
        out.push("-o".to_owned());
        out.push("health".to_owned());
        out.push(self.cfg.truenas.zfs_pool.clone());
        assert(text::texts(out@) =~= seq![
            "list"@,
            "-H"@,
            "-o"@,
            "health"@,
            self.cfg.truenas.zfs_pool@,
        ]);
        out
    }

    /// The health of the system where the middleware does not report it: the
    /// pool is healthy where `zfs` calls it online.
    pub fn health_check(pool: &ZfsRun, vault_present: bool) -> (r: TrueNASHealth)
        ensures
            r.system_version@ == "unknown"@,
            r.pool_healthy == (match zfs_result(*pool) {
                Ok(out) => text::trimmed(out, Margin::White) == "ONLINE"@,
                Err(_) => false,
            }),
            r.dataset_mounted == vault_present,
            r.ghost_daemon_running,
            r.pool_healthy == is_online(*pool),
    {
        let pool_healthy = match zfs_exec(pool) {
            Ok(out) => text::same(text::trim(out.as_str(), Margin::White).as_str(), "ONLINE"),
            Err(_) => false,
        };
        TrueNASHealth {
            system_version: "unknown".to_owned(),
            pool_healthy,
            dataset_mounted: vault_present,
            ghost_daemon_running: true,
        }
    }

    /// The alert that reports `message` to the middleware.
    pub fn send_alert(&self, severity: &str, message: &str) -> (r: Alert)
        ensures
            r.url@ == self.cfg.truenas.middleware_url@ + "/alert/list"@,
            r.source@ == "GHOST-NAS"@,
            r.severity@ == severity@,
            r.message@ == message@,
    {
        Alert {
            url: text::concat(self.cfg.truenas.middleware_url.as_str(), "/alert/list"),
            source: "GHOST-NAS".to_owned(),
            severity: severity.to_owned(),
            message: message.to_owned(),
        }
    }

    /// How often the health is checked, in seconds: at most every ten.
    pub fn health_interval_secs(&self) -> (r: u64)
        ensures
            r == if self.cfg.truenas.health_check_interval_secs >= 10 {
                self.cfg.truenas.health_check_interval_secs
            } else {
                10
            },
            r == check_interval(self.cfg.truenas.health_check_interval_secs),
    {
        if self.cfg.truenas.health_check_interval_secs >= 10 {
            self.cfg.truenas.health_check_interval_secs
        } else {
            10
        }
    }

    /// Keeps what is known of the dataset.
    pub fn remember_dataset(&mut self, info: ZFSDataset)
        ensures
            final(self).cached_dataset == Some(info),
            final(self).cfg == old(self).cfg,
    {
        self.cached_dataset = Some(info);
    }

    /// What is known of the dataset.
    pub fn cached_dataset(&self) -> (r: Option<ZFSDataset>)
        ensures
            r == self.cached_dataset,
    {
        match &self.cached_dataset {
            Some(info) => Some(info.clone()),
            None => None,
        }
    }
}

// ---------- Laws ----------

/// A run of `zfs` that ended well gives what it printed, one that did not gives
/// why, both without white space at either end; one that did not start fails.
pub proof fn law_run_gives_what_was_printed(
    lead: Seq<char>,
    said: Seq<char>,
    tail: Seq<char>,
    run: ZfsRun,
)
    requires
        forall|i: int| 0 <= i < lead.len() ==> text::in_margin(Margin::White, #[trigger] lead[i]),
        forall|i: int| 0 <= i < tail.len() ==> text::in_margin(Margin::White, #[trigger] tail[i]),
        said.len() > 0 ==> !text::in_margin(Margin::White, said[0]) && !text::in_margin(
            Margin::White,
            said.last(),
        ),
    ensures
        match run {
            ZfsRun::NotStarted(_) => zfs_result(run) is Err,
            ZfsRun::Ended { success, stdout, stderr } => {
                &&& success && stdout@ == lead + said + tail ==> zfs_result(run) == Ok::<
                    Seq<char>,
                    Seq<char>,
                >(said)
                &&& !success && stderr@ == lead + said + tail ==> zfs_result(run) == Err::<
                    Seq<char>,
                    Seq<char>,
                >(said)
            },
        },
{
    text::law_trimming_takes_the_margins(lead, said, tail, Margin::White);
}

/// Eight properties without tabs in them, printed with tabs between them, are
/// read as the dataset that has them.
pub proof fn law_printed_dataset_is_read(parts: Seq<Seq<char>>, d: ZFSDataset)
    requires
        parts.len() == 8,
        forall|i: int| 0 <= i < 8 ==> !(#[trigger] parts[i]).contains('\t'),
        is_dataset(d, text::pieces(text::joined(parts, seq!['\t']), '\t')),
    ensures
        d.name@ == parts[0],
        d.pool@ == parts[1],
        d.mountpoint is Some && d.mountpoint->0@ == parts[2],
        d.available@ == parts[3],
        d.used@ == parts[4],
        d.encryption == (parts[5] == "on"@),
        d.quota is Some && d.quota->0@ == parts[6],
        d.compressratio@ == parts[7],
{
    text::law_joined_texts_split_again(parts, '\t');
}

/// The vault's dataset is created under its name, at its mount point and with
/// its quota, and encrypted exactly where that is asked for.
pub proof fn law_dataset_is_created_as_configured(cfg: GhostConfig)
    ensures
        ({
            let args = create_args(cfg);
            &&& args[0] == "create"@
            &&& args.last() == cfg.vault.dataset_name@
            &&& args[2] == "mountpoint="@ + cfg.vault.mount_path@
            &&& args[4] == "quota="@ + cfg.vault.quota@
            &&& cfg.vault.encryption ==> args.contains("encryption=aes-256-gcm"@)
            &&& args.len() == if cfg.vault.encryption { 12int } else { 6 }
        }),
{
    let args = create_args(cfg);
    if cfg.vault.encryption {
        assert(args[6] == "encryption=aes-256-gcm"@);
    }
}

/// The result of a run is its output, or a failure of `zfs` with its reason.
pub proof fn law_run_result_is_the_runs(
    r: Result<String, TrueNASError>,
    m: Result<Seq<char>, Seq<char>>,
)
    requires
        is_zfs_result(r, m),
    ensures
        r is Ok == m is Ok,
        r is Ok ==> r->Ok_0@ == m->Ok_0,
        r is Err ==> r->Err_0 is Zfs && r->Err_0->Zfs_0@ == m->Err_0,
{
}

/// The health is checked as often as configured, but never more often than
/// every ten seconds.
pub proof fn law_health_is_checked_as_configured(configured: u64)
    ensures
        check_interval(configured) >= 10,
        check_interval(configured) >= configured,
        check_interval(configured) == configured || check_interval(configured) == 10,
{
}

/// A pool is healthy exactly where `zfs` ran, ended well and printed that it is
/// online, with white space round it or without.
pub proof fn law_pool_is_healthy_where_online(
    lead: Seq<char>,
    said: Seq<char>,
    tail: Seq<char>,
    run: ZfsRun,
)
    requires
        forall|i: int| 0 <= i < lead.len() ==> text::in_margin(Margin::White, #[trigger] lead[i]),
        forall|i: int| 0 <= i < tail.len() ==> text::in_margin(Margin::White, #[trigger] tail[i]),
        said.len() > 0 ==> !text::in_margin(Margin::White, said[0]) && !text::in_margin(
            Margin::White,
            said.last(),
        ),
        run is Ended ==> run->stdout@ == lead + said + tail,
    ensures
        is_online(run) == (run is Ended && run->success && said == "ONLINE"@),
        is_listed(run, said) ==> run is Ended && run->success,
        run is Ended && run->success ==> is_listed(run, said),
{
    text::law_trimming_takes_the_margins(lead, said, tail, Margin::White);
    text::lemma_trimmed(lead + said + tail, Margin::White);
}

/// A dataset is mounted after a run that ended well, and after one whose failure
/// says that it was mounted already; after no other.
pub proof fn law_mounted_already_is_mounted(before: Seq<char>, after: Seq<char>, run: ZfsRun)
    ensures
        run is Ended && run->success ==> is_mounted_after(run),
        run is Ended && !run->success && text::trimmed(run->stderr@, Margin::White) == before
            + "already mounted"@ + after ==> is_mounted_after(run),
        run is Ended && !run->success && !text::occurs(
            text::trimmed(run->stderr@, Margin::White),
            "already mounted"@,
        ) ==> !is_mounted_after(run),
{
    text::lemma_occurs_between(before, "already mounted"@, after);
}

} // verus!
