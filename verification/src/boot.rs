//! The staged boot pipeline: configuration-source resolution, the stage
//! sequencer with its privilege-ordering guarantee, and the idempotent
//! seeding of generated settings.

use vstd::prelude::*;
use vstd::string::StrSliceExecFns;
use vstd::string::StringExecFns;

use crate::config::{assoc_lookup, Config, ConfigKey, ExternalConfig};
use crate::cron::{SimpleCron, MAX_TICK};
use crate::patterns::{spec_decides, Pattern, Patterns};
use crate::shared::{CoreSnapshot, PurgeKind, PurgeSchedule};
use crate::strutil::{
    all_digits, concat_str, dec_value, find_char, parse_u64, str_eq, str_find_char, substring,
    trim, trim_spec,
};
use crate::sys::{all_alnum, os_hostname, random_alphanumeric};

verus! {

/// Where the configuration comes from, as resolved from the command line and
/// the environment.
pub enum ConfigSource {
    /// Boot from this configuration file.
    File(String),
    /// Scaffold a fresh installation under this directory and exit.
    Quickstart(String),
}

pub open spec fn missing_config_msg() -> Seq<char> {
    "Missing parameter --config=<path-to-config>."@
}

pub open spec fn invalid_arg_msg(key: Seq<char>) -> Seq<char> {
    "Invalid command line argument: "@ + key
}

/// The text of the first argument behind a leading `--`, if it has one.
pub open spec fn flag_rest(args: Seq<String>) -> Option<Seq<char>> {
    if args.len() >= 1 && args[0]@.len() >= 2 && args[0]@[0] == '-' && args[0]@[1] == '-' {
        Some(args[0]@.skip(2))
    } else {
        None
    }
}

/// The key and value of the first flag argument: `--key=value` (value
/// trimmed), or `--key value` taken from the following argument, or a key
/// with no value at all.
pub open spec fn parsed_key_value(args: Seq<String>) -> Option<(Seq<char>, Option<Seq<char>>)> {
    match flag_rest(args) {
        Option::None => None,
        Option::Some(rest) => match find_char(rest, '=') {
            Option::Some(p) => Some((rest.subrange(0, p), Some(trim_spec(rest.skip(p + 1))))),
            Option::None => if args.len() >= 2 {
                Some((rest, Some(args[1]@)))
            } else {
                Some((rest, None))
            },
        },
    }
}

/// The resolution contract: an explicit path wins, then the environment
/// fallback, then the first `--config`/`--init` flag; anything else is an
/// error naming the offender or the missing parameter.
pub open spec fn resolve_matches(
    r: Result<ConfigSource, String>,
    explicit: Option<String>,
    env_path: Option<String>,
    args: Seq<String>,
) -> bool {
    if explicit is Some {
        r matches Ok(ConfigSource::File(f)) && f@ == explicit->Some_0@
    } else if env_path is Some {
        r matches Ok(ConfigSource::File(f)) && f@ == env_path->Some_0@
    } else {
        match parsed_key_value(args) {
            Option::None => r matches Err(m) && m@ == missing_config_msg(),
            Option::Some((key, vopt)) => match vopt {
                Option::None => r matches Err(m) && m@ == invalid_arg_msg(key),
                Option::Some(v) => if key == "config"@ {
                    r matches Ok(ConfigSource::File(f)) && f@ == v
                } else if key == "init"@ {
                    r matches Ok(ConfigSource::Quickstart(d)) && d@ == v
                } else {
                    r matches Err(m) && m@ == invalid_arg_msg(key)
                },
            },
        }
    }
}

/// Classify a parsed `--key value` pair.
fn classify_flag(key: String, value: String) -> (r: Result<ConfigSource, String>)
    ensures
        key@ == "config"@ ==> r == Ok::<ConfigSource, String>(ConfigSource::File(value)),
        key@ != "config"@ && key@ == "init"@ ==> r == Ok::<ConfigSource, String>(
            ConfigSource::Quickstart(value),
        ),
        key@ != "config"@ && key@ != "init"@ ==> (r matches Err(m) && m@ == invalid_arg_msg(
            key@,
        )),
{
    if str_eq(key.as_str(), "config") {
        Ok(ConfigSource::File(value))
    } else if str_eq(key.as_str(), "init") {
        Ok(ConfigSource::Quickstart(value))
    } else {
        Err(concat_str("Invalid command line argument: ", key.as_str()))
    }
}

/// Resolve where the configuration comes from. Precedence: an explicit path,
/// then the environment fallback, then the command line.
pub fn resolve_config_source(
    explicit: Option<String>,
    env_path: Option<String>,
    args: &Vec<String>,
) -> (r: Result<ConfigSource, String>)
    ensures
        resolve_matches(r, explicit, env_path, args@),
{
    match explicit {
        Option::Some(p) => {
            return Ok(ConfigSource::File(p));
        },
        Option::None => {},
    }
    match env_path {
        Option::Some(p) => {
            return Ok(ConfigSource::File(p));
        },
        Option::None => {},
    }
    if args.len() >= 1 {
        let arg0 = args[0].as_str();
        let a0len = arg0.unicode_len();
        if a0len >= 2 && arg0.get_char(0) == '-' && arg0.get_char(1) == '-' {
            let rest = arg0.substring_char(2, a0len);
            proof {
                assert(rest@ =~= args@[0]@.skip(2));
            }
            let restlen = rest.unicode_len();
            match str_find_char(rest, '=') {
                Option::Some(p) => {
                    proof {
                        crate::strutil::lemma_find_char(rest@, '=');
                    }
                    let key = substring(rest, 0, p);
                    let raw = rest.substring_char(p + 1, restlen);
                    proof {
                        assert(raw@ =~= rest@.skip(p as int + 1));
                    }
                    let value = trim(raw);
                    classify_flag(key, value)
                },
                Option::None => {
                    if args.len() >= 2 {
                        let key = rest.to_owned();
                        let value = args[1].clone();
                        classify_flag(key, value)
                    } else {
                        Err(concat_str("Invalid command line argument: ", rest))
                    }
                },
            }
        } else {
            Err(String::from_str("Missing parameter --config=<path-to-config>."))
        }
    } else {
        Err(String::from_str("Missing parameter --config=<path-to-config>."))
    }
}

/// The stages of the boot pipeline, in the order they run. Ports are bound
/// while still privileged; privileges are dropped before any store is
/// opened.
#[derive(Clone, Copy, PartialEq, Eq, Structural)]
pub enum BootStage {
    ResolveConfigPath,
    ParseLocalFile,
    ResolveMacros,
    BindPorts,
    DropPrivileges,
    OpenStores,
    BuildConfigManager,
    ExtendConfig,
    EnableTracing,
    SeedSettings,
    PersistSettings,
    ParseLookups,
    BuildSharedCore,
    BindAcceptors,
    Done,
}

/// The position of a stage in the pipeline.
pub open spec fn stage_rank(s: BootStage) -> int {
    match s {
        BootStage::ResolveConfigPath => 0,
        BootStage::ParseLocalFile => 1,
        BootStage::ResolveMacros => 2,
        BootStage::BindPorts => 3,
        BootStage::DropPrivileges => 4,
        BootStage::OpenStores => 5,
        BootStage::BuildConfigManager => 6,
        BootStage::ExtendConfig => 7,
        BootStage::EnableTracing => 8,
        BootStage::SeedSettings => 9,
        BootStage::PersistSettings => 10,
        BootStage::ParseLookups => 11,
        BootStage::BuildSharedCore => 12,
        BootStage::BindAcceptors => 13,
        BootStage::Done => 14,
    }
}

/// The stage at a given position.
pub open spec fn stage_at(rank: int) -> BootStage {
    if rank <= 0 {
        BootStage::ResolveConfigPath
    } else if rank == 1 {
        BootStage::ParseLocalFile
    } else if rank == 2 {
        BootStage::ResolveMacros
    } else if rank == 3 {
        BootStage::BindPorts
    } else if rank == 4 {
        BootStage::DropPrivileges
    } else if rank == 5 {
        BootStage::OpenStores
    } else if rank == 6 {
        BootStage::BuildConfigManager
    } else if rank == 7 {
        BootStage::ExtendConfig
    } else if rank == 8 {
        BootStage::EnableTracing
    } else if rank == 9 {
        BootStage::SeedSettings
    } else if rank == 10 {
        BootStage::PersistSettings
    } else if rank == 11 {
        BootStage::ParseLookups
    } else if rank == 12 {
        BootStage::BuildSharedCore
    } else if rank == 13 {
        BootStage::BindAcceptors
    } else {
        BootStage::Done
    }
}

/// The stage that runs after this one.
pub open spec fn next_stage(s: BootStage) -> BootStage {
    if s == BootStage::Done {
        BootStage::Done
    } else {
        stage_at(stage_rank(s) + 1)
    }
}

/// The boot sequencer: stages only ever advance, one at a time, so the
/// pipeline's ordering invariants hold by construction. A fatal stage
/// failure aborts the process instead of advancing.
pub struct BootSequencer {
    stage: BootStage,
}

impl BootSequencer {
    pub closed spec fn stage(self) -> BootStage {
        self.stage
    }

    pub fn new() -> (r: BootSequencer)
        ensures
            r.stage() == BootStage::ResolveConfigPath,
    {
        BootSequencer { stage: BootStage::ResolveConfigPath }
    }

    /// The stage the pipeline is in.
    pub fn current(&self) -> (r: BootStage)
        ensures
            r == self.stage(),
    {
        self.stage
    }

    /// Move to the next stage once the current one has completed.
    pub fn advance(&mut self)
        requires
            old(self).stage() != BootStage::Done,
        ensures
            final(self).stage() == next_stage(old(self).stage()),
            stage_rank(final(self).stage()) == stage_rank(old(self).stage()) + 1,
    {
        let next = match self.stage {
            BootStage::ResolveConfigPath => BootStage::ParseLocalFile,
            BootStage::ParseLocalFile => BootStage::ResolveMacros,
            BootStage::ResolveMacros => BootStage::BindPorts,
            BootStage::BindPorts => BootStage::DropPrivileges,
            BootStage::DropPrivileges => BootStage::OpenStores,
            BootStage::OpenStores => BootStage::BuildConfigManager,
            BootStage::BuildConfigManager => BootStage::ExtendConfig,
            BootStage::ExtendConfig => BootStage::EnableTracing,
            BootStage::EnableTracing => BootStage::SeedSettings,
            BootStage::SeedSettings => BootStage::PersistSettings,
            BootStage::PersistSettings => BootStage::ParseLookups,
            BootStage::ParseLookups => BootStage::BuildSharedCore,
            BootStage::BuildSharedCore => BootStage::BindAcceptors,
            BootStage::BindAcceptors => BootStage::Done,
            BootStage::Done => BootStage::Done,
        };
        self.stage = next;
    }

    /// May stores be opened now? True only in the store-opening stage, which
    /// lies strictly after the privilege drop.
    pub fn may_open_stores(&self) -> (r: bool)
        ensures
            r == (self.stage() == BootStage::OpenStores),
    {
        match self.stage {
            BootStage::OpenStores => true,
            _ => false,
        }
    }
}

pub open spec fn hostname_key() -> Seq<char> {
    "lookup.default.hostname"@
}

pub open spec fn oauth_key() -> Seq<char> {
    "oauth.key"@
}

pub open spec fn spam_version_key() -> Seq<char> {
    "version.spam-filter"@
}

pub open spec fn spam_fetch_error_prefix() -> Seq<char> {
    "Failed to fetch spam filter: "@
}

/// The fixed queue/session throttles and analysis addresses installed
/// together with a fresh spam-filter rule pack.
pub open spec fn default_seed_entries() -> Seq<(Seq<char>, Seq<char>)> {
    seq![
        ("queue.quota.size.messages"@, "100000"@),
        ("queue.quota.size.size"@, "10737418240"@),
        ("queue.quota.size.enable"@, "true"@),
        ("queue.throttle.rcpt.key"@, "rcpt_domain"@),
        ("queue.throttle.rcpt.concurrency"@, "5"@),
        ("queue.throttle.rcpt.enable"@, "true"@),
        ("session.throttle.ip.key"@, "remote_ip"@),
        ("session.throttle.ip.concurrency"@, "5"@),
        ("session.throttle.ip.enable"@, "true"@),
        ("session.throttle.sender.key.0"@, "sender_domain"@),
        ("session.throttle.sender.key.1"@, "rcpt"@),
        ("session.throttle.sender.rate"@, "25/1h"@),
        ("session.throttle.sender.enable"@, "true"@),
        ("report.analysis.addresses"@, "postmaster@*"@),
    ]
}

/// The facts about the fixed literals that the seeding proofs lean on: the
/// default keys are pairwise distinct, distinct from the two generated keys,
/// and their values are non-empty.
pub proof fn lemma_seed_literals()
    ensures
        hostname_key() != oauth_key(),
        hostname_key().len() > 0,
        oauth_key().len() > 0,
        "localhost"@.len() > 0,
        forall|t: int|
            0 <= t < 14 ==> (#[trigger] default_seed_entries()[t]).0 != hostname_key(),
        forall|t: int| 0 <= t < 14 ==> (#[trigger] default_seed_entries()[t]).0 != oauth_key(),
        forall|t1: int, t2: int|
            0 <= t1 < t2 < 14 ==> (#[trigger] default_seed_entries()[t1]).0 != (
            #[trigger] default_seed_entries()[t2]).0,
        forall|t: int| 0 <= t < 14 ==> (#[trigger] default_seed_entries()[t]).1.len() > 0,
{
    reveal_strlit("lookup.default.hostname");
    reveal_strlit("oauth.key");
    reveal_strlit("localhost");
    reveal_strlit("queue.quota.size.messages");
    reveal_strlit("queue.quota.size.size");
    reveal_strlit("queue.quota.size.enable");
    reveal_strlit("queue.throttle.rcpt.key");
    reveal_strlit("queue.throttle.rcpt.concurrency");
    reveal_strlit("queue.throttle.rcpt.enable");
    reveal_strlit("session.throttle.ip.key");
    reveal_strlit("session.throttle.ip.concurrency");
    reveal_strlit("session.throttle.ip.enable");
    reveal_strlit("session.throttle.sender.key.0");
    reveal_strlit("session.throttle.sender.key.1");
    reveal_strlit("session.throttle.sender.rate");
    reveal_strlit("session.throttle.sender.enable");
    reveal_strlit("report.analysis.addresses");
    reveal_strlit("100000");
    reveal_strlit("10737418240");
    reveal_strlit("true");
    reveal_strlit("rcpt_domain");
    reveal_strlit("5");
    reveal_strlit("remote_ip");
    reveal_strlit("sender_domain");
    reveal_strlit("rcpt");
    reveal_strlit("25/1h");
    reveal_strlit("postmaster@*");
    assert(hostname_key().len() == 23 && hostname_key()[0] == 'l');
    assert(oauth_key().len() == 9 && oauth_key()[0] == 'o');
    assert("queue.quota.size.messages"@.len() == 25 && "queue.quota.size.messages"@[0] == 'q');
    assert("queue.quota.size.size"@.len() == 21 && "queue.quota.size.size"@[0] == 'q');
    assert("queue.quota.size.enable"@.len() == 23 && "queue.quota.size.enable"@[0] == 'q');
    assert("queue.throttle.rcpt.key"@.len() == 23 && "queue.throttle.rcpt.key"@[0] == 'q');
    assert("queue.throttle.rcpt.concurrency"@.len() == 31 && "queue.throttle.rcpt.concurrency"@[0]
        == 'q');
    assert("queue.throttle.rcpt.enable"@.len() == 26 && "queue.throttle.rcpt.enable"@[0] == 'q');
    assert("session.throttle.ip.key"@.len() == 23 && "session.throttle.ip.key"@[0] == 's');
    assert("session.throttle.ip.concurrency"@.len() == 31 && "session.throttle.ip.concurrency"@[0]
        == 's');
    assert("session.throttle.ip.enable"@.len() == 26 && "session.throttle.ip.enable"@[0] == 's');
    assert("session.throttle.sender.key.0"@.len() == 29 && "session.throttle.sender.key.0"@[28]
        == '0');
    assert("session.throttle.sender.key.1"@.len() == 29 && "session.throttle.sender.key.1"@[28]
        == '1');
    assert("session.throttle.sender.rate"@.len() == 28 && "session.throttle.sender.rate"@[0]
        == 's');
    assert("session.throttle.sender.enable"@.len() == 30 && "session.throttle.sender.enable"@[0]
        == 's');
    assert("report.analysis.addresses"@.len() == 25 && "report.analysis.addresses"@[0] == 'r');
    assert("queue.quota.size.messages"@[24] == 's');
    assert("queue.quota.size.size"@[20] == 'e');
    assert("queue.quota.size.enable"@[22] == 'e');
    assert("queue.throttle.rcpt.key"@[22] == 'y');
    assert("queue.throttle.rcpt.concurrency"@[30] == 'y');
    assert("queue.throttle.rcpt.enable"@[25] == 'e');
    assert("session.throttle.ip.key"@[22] == 'y');
    assert("session.throttle.ip.concurrency"@[30] == 'y');
    assert("session.throttle.ip.enable"@[25] == 'e');
    assert("session.throttle.sender.rate"@[27] == 'e');
    assert("session.throttle.sender.enable"@[29] == 'e');
    assert("report.analysis.addresses"@[24] == 's');
    assert("100000"@.len() == 6);
    assert("10737418240"@.len() == 11);
    assert("true"@.len() == 4);
    assert("rcpt_domain"@.len() == 11);
    assert("5"@.len() == 1);
    assert("remote_ip"@.len() == 9);
    assert("sender_domain"@.len() == 13);
    assert("rcpt"@.len() == 4);
    assert("25/1h"@.len() == 5);
    assert("postmaster@*"@.len() == 12);
    assert("localhost"@.len() == 9);
}

/// The value of the last pair carrying this key, if any: what a batch of
/// sequentially applied inserts leaves behind.
pub open spec fn last_value(s: Seq<ConfigKey>, k: Seq<char>) -> Option<Seq<char>>
    decreases s.len(),
{
    if s.len() == 0 {
        None
    } else if s.last().key@ == k {
        Some(s.last().value@)
    } else {
        last_value(s.drop_last(), k)
    }
}

pub proof fn lemma_last_value_push(s: Seq<ConfigKey>, x: ConfigKey, k: Seq<char>)
    ensures
        last_value(s.push(x), k) == if x.key@ == k {
            Some(x.value@)
        } else {
            last_value(s, k)
        },
{
    assert(s.push(x).drop_last() =~= s);
    assert(s.push(x).last() == x);
}

/// Does the fetched rule pack avoid binding this key?
pub open spec fn spam_no_collision(
    spam: Option<Result<ExternalConfig, String>>,
    k: Seq<char>,
) -> bool {
    match spam {
        Some(Ok(ext)) => forall|i: int|
            0 <= i < ext.keys@.len() ==> (#[trigger] ext.keys@[i]).key@ != k,
        _ => true,
    }
}

/// The shape of the returned insert batch: the generated hostname first when
/// it was missing, then the generated OAuth key when it was missing, then,
/// when the rule pack was fetched successfully, its keys followed by the
/// fixed defaults.
pub open spec fn seed_batch_shape(
    ins: Seq<ConfigKey>,
    pre: Config,
    spam: Option<Result<ExternalConfig, String>>,
) -> bool {
    let nh: int = if !pre.spec_has_nonempty(hostname_key()) {
        1int
    } else {
        0int
    };
    let no: int = if !pre.spec_has_nonempty(oauth_key()) {
        1int
    } else {
        0int
    };
    let nx: int = match spam {
        Some(Ok(ext)) => ext.keys@.len() as int + 14,
        _ => 0int,
    };
    &&& ins.len() == nh + no + nx
    &&& (nh == 1 ==> ins[0].key@ == hostname_key() && ins[0].value@.len() > 0)
    &&& (no == 1 ==> ins[nh].key@ == oauth_key() && ins[nh].value@.len() == 64 && all_alnum(
        ins[nh].value@,
    ))
    &&& (spam matches Some(Ok(ext)) ==> ({
        &&& ins.subrange(nh + no, nh + no + ext.keys@.len() as int) == ext.keys@
        &&& forall|t: int|
            0 <= t < 14 ==> (#[trigger] ins[nh + no + ext.keys@.len() + t]).key@
                == default_seed_entries()[t].0 && ins[nh + no + ext.keys@.len() + t].value@
                == default_seed_entries()[t].1
    }))
}

/// Must the remote spam-filter rule pack be fetched before seeding?
pub fn needs_spam_filter(config: &Config) -> (r: bool)
    ensures
        r == !config.spec_has_nonempty(spam_version_key()),
{
    !config.has_nonempty("version.spam-filter")
}

/// Record one setting in both the configuration and the persistence batch.
fn seed_insert(config: &mut Config, inserts: &mut Vec<ConfigKey>, item: ConfigKey)
    requires
        old(config).wf(),
    ensures
        final(config).wf(),
        final(inserts)@ == old(inserts)@.push(item),
        final(config).spec_value(item.key@) == Some(item.value@),
        forall|k: Seq<char>|
            k != item.key@ ==> final(config).spec_value(k) == old(config).spec_value(k),
        final(config).build_errors@ == old(config).build_errors@,
{
    inserts.push(item.clone());
    config.insert(item);
}

/// The fourteen fixed settings installed with a fresh rule pack.
pub fn default_seed_keys() -> (r: Vec<ConfigKey>)
    ensures
        r@.len() == 14,
        forall|t: int|
            0 <= t < 14 ==> (#[trigger] r@[t]).key@ == default_seed_entries()[t].0
                && r@[t].value@ == default_seed_entries()[t].1,
{
    let mut r: Vec<ConfigKey> = Vec::new();
    r.push(ConfigKey::new("queue.quota.size.messages", String::from_str("100000")));
    r.push(ConfigKey::new("queue.quota.size.size", String::from_str("10737418240")));
    r.push(ConfigKey::new("queue.quota.size.enable", String::from_str("true")));
    r.push(ConfigKey::new("queue.throttle.rcpt.key", String::from_str("rcpt_domain")));
    r.push(ConfigKey::new("queue.throttle.rcpt.concurrency", String::from_str("5")));
    r.push(ConfigKey::new("queue.throttle.rcpt.enable", String::from_str("true")));
    r.push(ConfigKey::new("session.throttle.ip.key", String::from_str("remote_ip")));
    r.push(ConfigKey::new("session.throttle.ip.concurrency", String::from_str("5")));
    r.push(ConfigKey::new("session.throttle.ip.enable", String::from_str("true")));
    r.push(ConfigKey::new("session.throttle.sender.key.0", String::from_str("sender_domain")));
    r.push(ConfigKey::new("session.throttle.sender.key.1", String::from_str("rcpt")));
    r.push(ConfigKey::new("session.throttle.sender.rate", String::from_str("25/1h")));
    r.push(ConfigKey::new("session.throttle.sender.enable", String::from_str("true")));
    r.push(ConfigKey::new("report.analysis.addresses", String::from_str("postmaster@*")));
    proof {
        assert forall|t: int| 0 <= t < 14 implies (#[trigger] r@[t]).key@
            == default_seed_entries()[t].0 && r@[t].value@ == default_seed_entries()[t].1 by {
            if t == 0 {
            } else if t == 1 {
            } else if t == 2 {
            } else if t == 3 {
            } else if t == 4 {
            } else if t == 5 {
            } else if t == 6 {
            } else if t == 7 {
            } else if t == 8 {
            } else if t == 9 {
            } else if t == 10 {
            } else if t == 11 {
            } else if t == 12 {
            } else {
                assert(t == 13);
            }
        }
    }
    r
}

/// Seed the settings the server generates for itself, each only when absent
/// or empty: the machine's hostname (or `localhost`), a fresh 64-character
/// OAuth key, and — exactly when the spam-filter version key was missing and
/// its rule pack was fetched — the pack's settings followed by the fixed
/// throttle defaults. A failed fetch leaves a build error and installs
/// nothing. The returned batch is what a backing store must persist; applied
/// in order, it leaves the store with the same values the configuration now
/// holds.
pub fn seed_missing_settings(
    config: &mut Config,
    spam_fetch: Option<Result<ExternalConfig, String>>,
) -> (inserts: Vec<ConfigKey>)
    requires
        old(config).wf(),
        (spam_fetch is Some) <==> !old(config).spec_has_nonempty(spam_version_key()),
    ensures
        final(config).wf(),
        forall|k: Seq<char>|
            #[trigger] final(config).spec_value(k) == (match last_value(inserts@, k) {
                Some(v) => Some(v),
                None => old(config).spec_value(k),
            }),
        seed_batch_shape(inserts@, *old(config), spam_fetch),
        spam_no_collision(spam_fetch, hostname_key()) ==> final(config).spec_has_nonempty(
            hostname_key(),
        ),
        spam_no_collision(spam_fetch, oauth_key()) ==> final(config).spec_has_nonempty(
            oauth_key(),
        ),
        spam_fetch matches Some(Ok(_)) ==> forall|t: int|
            0 <= t < 14 ==> #[trigger] final(config).spec_value(default_seed_entries()[t].0)
                == Some(default_seed_entries()[t].1),
        match spam_fetch {
            Some(Err(e)) => ({
                &&& final(config).build_errors@.len() == old(config).build_errors@.len() + 1
                &&& final(config).build_errors@.last().pattern@ == "*"@
                &&& final(config).build_errors@.last().message@ == spam_fetch_error_prefix()
                    + e@
                &&& forall|i: int|
                    0 <= i < old(config).build_errors@.len()
                        ==> #[trigger] final(config).build_errors@[i]
                        == old(config).build_errors@[i]
            }),
            _ => final(config).build_errors@ == old(config).build_errors@,
        },
        old(config).spec_has_nonempty(hostname_key()) && old(config).spec_has_nonempty(
            oauth_key(),
        ) && spam_fetch is None ==> inserts@ =~= Seq::<ConfigKey>::empty()
            && final(config).keys@ == old(config).keys@,
{
    proof {
        lemma_seed_literals();
    }
    let mut inserts: Vec<ConfigKey> = Vec::new();
    proof {
        assert forall|k: Seq<char>| #[trigger] config.spec_value(k) == (match last_value(
            inserts@,
            k,
        ) {
            Some(v) => Some(v),
            None => old(config).spec_value(k),
        }) by {
            assert(last_value(inserts@, k) is None);
        }
    }
    if !config.has_nonempty("lookup.default.hostname") {
        let hostname = match os_hostname() {
            Option::Some(h) => {
                if h.as_str().is_empty() {
                    String::from_str("localhost")
                } else {
                    h
                }
            },
            Option::None => String::from_str("localhost"),
        };
        let item = ConfigKey::new("lookup.default.hostname", hostname);
        let ghost pre_ins = inserts@;
        let ghost itemg = item;
        seed_insert(config, &mut inserts, item);
        proof {
            assert(inserts@ == pre_ins.push(itemg));
            assert forall|k: Seq<char>| #[trigger] config.spec_value(k) == (match last_value(
                inserts@,
                k,
            ) {
                Some(v) => Some(v),
                None => old(config).spec_value(k),
            }) by {
                lemma_last_value_push(pre_ins, itemg, k);
            }
            assert(config.spec_has_nonempty(hostname_key()));
        }
    }
    proof {
        assert(config.spec_has_nonempty(hostname_key())) by {
            if old(config).spec_has_nonempty(hostname_key()) {
            }
        }
    }
    if !config.has_nonempty("oauth.key") {
        let key = random_alphanumeric(64);
        let item = ConfigKey::new("oauth.key", key);
        let ghost pre_ins = inserts@;
        let ghost itemg = item;
        seed_insert(config, &mut inserts, item);
        proof {
            assert(inserts@ == pre_ins.push(itemg));
            assert forall|k: Seq<char>| #[trigger] config.spec_value(k) == (match last_value(
                inserts@,
                k,
            ) {
                Some(v) => Some(v),
                None => old(config).spec_value(k),
            }) by {
                lemma_last_value_push(pre_ins, itemg, k);
            }
            assert(config.spec_has_nonempty(oauth_key()));
            assert(config.spec_has_nonempty(hostname_key()));
        }
    }
    let ghost base = inserts@;
    proof {
        assert(config.spec_has_nonempty(oauth_key()));
        assert(config.spec_has_nonempty(hostname_key()));
        assert(seed_batch_shape(base, *old(config), Option::None));
    }
    match spam_fetch {
        Option::Some(fetch) => {
            match fetch {
                Result::Ok(ext) => {
                    let mut i: usize = 0;
                    while i < ext.keys.len()
                        invariant
                            config.wf(),
                            i <= ext.keys@.len(),
                            inserts@ =~= base + ext.keys@.subrange(0, i as int),
                            forall|k: Seq<char>|
                                #[trigger] config.spec_value(k) == (match last_value(
                                    inserts@,
                                    k,
                                ) {
                                    Some(v) => Some(v),
                                    None => old(config).spec_value(k),
                                }),
                            config.build_errors@ == old(config).build_errors@,
                            seed_batch_shape(base, *old(config), Option::None),
                            spam_no_collision(
                                Some(Ok::<ExternalConfig, String>(ext)),
                                hostname_key(),
                            ) ==> config.spec_has_nonempty(hostname_key()),
                            spam_no_collision(
                                Some(Ok::<ExternalConfig, String>(ext)),
                                oauth_key(),
                            ) ==> config.spec_has_nonempty(oauth_key()),
                        decreases ext.keys@.len() - i,
                    {
                        let ghost pre_ins = inserts@;
                        let item = ext.keys[i].clone();
                        seed_insert(config, &mut inserts, item);
                        proof {
                            if spam_no_collision(
                                Some(Ok::<ExternalConfig, String>(ext)),
                                hostname_key(),
                            ) {
                                assert(forall|j: int|
                                    0 <= j < ext.keys@.len() ==> (#[trigger] ext.keys@[j]).key@
                                        != hostname_key());
                                assert(ext.keys@[i as int].key@ != hostname_key());
                            }
                            if spam_no_collision(
                                Some(Ok::<ExternalConfig, String>(ext)),
                                oauth_key(),
                            ) {
                                assert(forall|j: int|
                                    0 <= j < ext.keys@.len() ==> (#[trigger] ext.keys@[j]).key@
                                        != oauth_key());
                                assert(ext.keys@[i as int].key@ != oauth_key());
                            }
                            assert(inserts@ =~= base + ext.keys@.subrange(0, i as int + 1));
                            assert forall|k: Seq<char>| #[trigger] config.spec_value(k)
                                == (match last_value(inserts@, k) {
                                Some(v) => Some(v),
                                None => old(config).spec_value(k),
                            }) by {
                                lemma_last_value_push(pre_ins, ext.keys@[i as int], k);
                                assert(inserts@ == pre_ins.push(ext.keys@[i as int]));
                            }
                        }
                        i += 1;
                    }
                    let ghost mid = inserts@;
                    let defaults = default_seed_keys();
                    let mut t: usize = 0;
                    while t < defaults.len()
                        invariant
                            config.wf(),
                            t <= 14,
                            defaults@.len() == 14,
                            forall|u: int|
                                0 <= u < 14 ==> (#[trigger] defaults@[u]).key@
                                    == default_seed_entries()[u].0 && defaults@[u].value@
                                    == default_seed_entries()[u].1,
                            inserts@ =~= mid + defaults@.subrange(0, t as int),
                            forall|k: Seq<char>|
                                #[trigger] config.spec_value(k) == (match last_value(
                                    inserts@,
                                    k,
                                ) {
                                    Some(v) => Some(v),
                                    None => old(config).spec_value(k),
                                }),
                            config.build_errors@ == old(config).build_errors@,
                            forall|u: int|
                                0 <= u < t ==> #[trigger] config.spec_value(
                                    default_seed_entries()[u].0,
                                ) == Some(default_seed_entries()[u].1),
                            spam_no_collision(
                                Some(Ok::<ExternalConfig, String>(ext)),
                                hostname_key(),
                            ) ==> config.spec_has_nonempty(hostname_key()),
                            spam_no_collision(
                                Some(Ok::<ExternalConfig, String>(ext)),
                                oauth_key(),
                            ) ==> config.spec_has_nonempty(oauth_key()),
                        decreases 14 - t,
                    {
                        let ghost pre_ins = inserts@;
                        let item = defaults[t].clone();
                        seed_insert(config, &mut inserts, item);
                        proof {
                            lemma_seed_literals();
                            assert(inserts@ =~= mid + defaults@.subrange(0, t as int + 1));
                            assert forall|k: Seq<char>| #[trigger] config.spec_value(k)
                                == (match last_value(inserts@, k) {
                                Some(v) => Some(v),
                                None => old(config).spec_value(k),
                            }) by {
                                lemma_last_value_push(pre_ins, defaults@[t as int], k);
                                assert(inserts@ == pre_ins.push(defaults@[t as int]));
                            }
                        }
                        t += 1;
                    }
                    proof {
                        assert(defaults@.subrange(0, 14) =~= defaults@);
                        assert(inserts@ =~= mid + defaults@);
                        assert(mid =~= base + ext.keys@);
                        assert(inserts@.subrange(
                            base.len() as int,
                            base.len() + ext.keys@.len() as int,
                        ) =~= ext.keys@);
                        assert forall|t: int| 0 <= t < 14 implies (#[trigger] inserts@[base.len()
                            + ext.keys@.len() + t]) == defaults@[t] by {
                            assert(inserts@[mid.len() + t] == defaults@[t]);
                        }
                        assert(seed_batch_shape(
                            inserts@,
                            *old(config),
                            Some(Ok::<ExternalConfig, String>(ext)),
                        ));
                    }
                },
                Result::Err(err) => {
                    let message = concat_str("Failed to fetch spam filter: ", err.as_str());
                    config.new_build_error("*", message);
                },
            }
        },
        Option::None => {},
    }
    inserts
}

/// The stored settings the pattern set imports, in store order.
pub open spec fn imported_keys(ps: Seq<Pattern>, s: Seq<ConfigKey>) -> Seq<ConfigKey> {
    s.filter(|ck: ConfigKey| spec_decides(ps, ck.key@))
}

proof fn lemma_imported_push(ps: Seq<Pattern>, s: Seq<ConfigKey>, x: ConfigKey)
    ensures
        imported_keys(ps, s.push(x)) == if spec_decides(ps, x.key@) {
            imported_keys(ps, s).push(x)
        } else {
            imported_keys(ps, s)
        },
{
    reveal(Seq::filter);
    assert(s.push(x).drop_last() =~= s);
    assert(s.push(x).last() == x);
}

/// Merge the settings held by the backing store into the configuration:
/// every stored key the pattern set imports is applied in store order, so on
/// a conflict the store wins. Reading the store is the caller's edge; a
/// failed read with a backing store configured is fatal there.
pub fn extend_config(config: &mut Config, patterns: &Patterns, stored: &Vec<ConfigKey>)
    requires
        old(config).wf(),
    ensures
        final(config).wf(),
        final(config).build_errors@ == old(config).build_errors@,
        forall|k: Seq<char>|
            #[trigger] final(config).spec_value(k) == (match last_value(
                imported_keys(patterns.patterns@, stored@),
                k,
            ) {
                Some(v) => Some(v),
                None => old(config).spec_value(k),
            }),
{
    let ghost ps = patterns.patterns@;
    proof {
        assert(stored@.subrange(0, 0) =~= Seq::<ConfigKey>::empty());
        assert forall|k: Seq<char>| #[trigger] config.spec_value(k) == (match last_value(
            imported_keys(ps, stored@.subrange(0, 0)),
            k,
        ) {
            Some(v) => Some(v),
            None => old(config).spec_value(k),
        }) by {
            assert(imported_keys(ps, stored@.subrange(0, 0)).len() == 0) by {
                reveal(Seq::filter);
            }
        }
    }
    let mut i: usize = 0;
    while i < stored.len()
        invariant
            i <= stored@.len(),
            ps == patterns.patterns@,
            config.wf(),
            config.build_errors@ == old(config).build_errors@,
            forall|k: Seq<char>|
                #[trigger] config.spec_value(k) == (match last_value(
                    imported_keys(ps, stored@.subrange(0, i as int)),
                    k,
                ) {
                    Some(v) => Some(v),
                    None => old(config).spec_value(k),
                }),
        decreases stored@.len() - i,
    {
        let ghost applied = imported_keys(ps, stored@.subrange(0, i as int));
        proof {
            assert(stored@.subrange(0, i as int + 1) =~= stored@.subrange(0, i as int).push(
                stored@[i as int],
            ));
            lemma_imported_push(ps, stored@.subrange(0, i as int), stored@[i as int]);
        }
        if patterns.is_imported(stored[i].key.as_str()) {
            let item = stored[i].clone();
            config.insert(item);
            proof {
                assert forall|k: Seq<char>| #[trigger] config.spec_value(k) == (match
                    last_value(imported_keys(ps, stored@.subrange(0, i as int + 1)), k) {
                    Some(v) => Some(v),
                    None => old(config).spec_value(k),
                }) by {
                    lemma_last_value_push(applied, stored@[i as int], k);
                }
            }
        }
        i += 1;
    }
    proof {
        assert(stored@.subrange(0, stored@.len() as int) =~= stored@);
    }
}

/// The outcome of ensuring the admin interface bundle is in the blob store,
/// reported by the runtime that performed the store and network calls.
pub enum WebadminOutcome {
    /// The bundle was already stored.
    AlreadyPresent,
    /// The bundle was downloaded and stored.
    Stored,
    /// Reading the stored blob failed with this error.
    AccessFailed(String),
    /// Downloading the bundle failed with this error.
    DownloadFailed(String),
    /// Storing the downloaded bundle failed with this error.
    StoreFailed(String),
}

/// Record the admin-bundle outcome: every failure mode degrades to a build
/// error and boot continues.
pub fn record_webadmin_outcome(config: &mut Config, outcome: WebadminOutcome)
    ensures
        final(config).keys@ == old(config).keys@,
        match outcome {
            WebadminOutcome::AlreadyPresent | WebadminOutcome::Stored => final(config)
                .build_errors@ == old(config).build_errors@,
            WebadminOutcome::AccessFailed(e) => webadmin_error_added(
                *old(config),
                *final(config),
                "Failed to access webadmin blob: "@ + e@,
            ),
            WebadminOutcome::DownloadFailed(e) => webadmin_error_added(
                *old(config),
                *final(config),
                "Failed to download webadmin: "@ + e@,
            ),
            WebadminOutcome::StoreFailed(e) => webadmin_error_added(
                *old(config),
                *final(config),
                "Failed to store webadmin blob: "@ + e@,
            ),
        },
{
    match outcome {
        WebadminOutcome::AlreadyPresent => {},
        WebadminOutcome::Stored => {},
        WebadminOutcome::AccessFailed(e) => {
            let message = concat_str("Failed to access webadmin blob: ", e.as_str());
            config.new_build_error("*", message);
        },
        WebadminOutcome::DownloadFailed(e) => {
            let message = concat_str("Failed to download webadmin: ", e.as_str());
            config.new_build_error("*", message);
        },
        WebadminOutcome::StoreFailed(e) => {
            let message = concat_str("Failed to store webadmin blob: ", e.as_str());
            config.new_build_error("*", message);
        },
    }
}

/// One build error with this message was appended, under the catch-all
/// pattern.
pub open spec fn webadmin_error_added(pre: Config, post: Config, message: Seq<char>) -> bool {
    &&& post.build_errors@.len() == pre.build_errors@.len() + 1
    &&& forall|i: int|
        0 <= i < pre.build_errors@.len() ==> #[trigger] post.build_errors@[i]
            == pre.build_errors@[i]
    &&& post.build_errors@.last().pattern@ == "*"@
    &&& post.build_errors@.last().message@ == message
}

/// The period a configuration value yields: its decimal value when it is one
/// and lies in the valid tick range, and the fallback otherwise.
pub open spec fn spec_parsed_period(c: Config, k: Seq<char>, fallback: u64) -> u64 {
    match c.spec_value(k) {
        Some(v) => if v.len() > 0 && all_digits(v) && 1 <= dec_value(v) < MAX_TICK {
            dec_value(v) as u64
        } else {
            fallback
        },
        None => fallback,
    }
}

/// Read a period from the configuration, falling back when the value is
/// missing, malformed, zero or out of the tick range.
fn parsed_period(config: &Config, key: &str, fallback: u64) -> (r: u64)
    requires
        1 <= fallback < MAX_TICK,
    ensures
        r == spec_parsed_period(*config, key@, fallback),
        1 <= r < MAX_TICK,
{
    match config.value(key) {
        Option::Some(v) => {
            match parse_u64(v.as_str()) {
                Option::Some(p) => {
                    if 1 <= p && p < MAX_TICK {
                        p
                    } else {
                        fallback
                    }
                },
                Option::None => fallback,
            }
        },
        Option::None => fallback,
    }
}

/// The housekeeper's view of the configuration: purge frequencies in
/// milliseconds, one purge schedule per designated store (data, blob,
/// lookup, in that order). Certificate providers are parsed by the TLS
/// layer and arrive with its init results; the license is the enterprise
/// layer's.
pub fn core_snapshot_from(config: &Config) -> (r: CoreSnapshot)
    ensures
        r.wf(),
        r.session_purge_frequency.period == spec_parsed_period(
            *config,
            "jmap.session.purge.frequency"@,
            3_600_000,
        ),
        r.account_purge_frequency.period == spec_parsed_period(
            *config,
            "jmap.account.purge.frequency"@,
            3_600_000,
        ),
        r.acme_provider_ids@.len() == 0,
        r.license_expires_in is None,
        ({
            let p = spec_parsed_period(*config, "store.purge.frequency"@, 86_400_000);
            let nd: int = if config.spec_value("storage.data"@) is Some {
                1int
            } else {
                0int
            };
            let nb: int = if config.spec_value("storage.blob"@) is Some {
                1int
            } else {
                0int
            };
            let nl: int = if config.spec_value("storage.lookup"@) is Some {
                1int
            } else {
                0int
            };
            &&& r.purge_schedules@.len() == nd + nb + nl
            &&& (config.spec_value("storage.data"@) matches Some(v) ==> ({
                &&& r.purge_schedules@[0].store_id@ == v
                &&& r.purge_schedules@[0].kind is Data
                &&& r.purge_schedules@[0].cron.period == p
            }))
            &&& (config.spec_value("storage.blob"@) matches Some(v) ==> ({
                &&& r.purge_schedules@[nd].store_id@ == v
                &&& r.purge_schedules@[nd].kind is Blob
                &&& r.purge_schedules@[nd].cron.period == p
            }))
            &&& (config.spec_value("storage.lookup"@) matches Some(v) ==> ({
                &&& r.purge_schedules@[nd + nb].store_id@ == v
                &&& r.purge_schedules@[nd + nb].kind is Lookup
                &&& r.purge_schedules@[nd + nb].cron.period == p
            }))
        }),
{
    let store_period = parsed_period(config, "store.purge.frequency", 86_400_000);
    let mut purge_schedules: Vec<PurgeSchedule> = Vec::new();
    match config.value("storage.data") {
        Option::Some(store_id) => {
            purge_schedules.push(
                PurgeSchedule {
                    store_id: store_id.clone(),
                    kind: PurgeKind::Data,
                    cron: SimpleCron::new(store_period),
                },
            );
        },
        Option::None => {},
    }
    match config.value("storage.blob") {
        Option::Some(store_id) => {
            purge_schedules.push(
                PurgeSchedule {
                    store_id: store_id.clone(),
                    kind: PurgeKind::Blob,
                    cron: SimpleCron::new(store_period),
                },
            );
        },
        Option::None => {},
    }
    match config.value("storage.lookup") {
        Option::Some(store_id) => {
            purge_schedules.push(
                PurgeSchedule {
                    store_id: store_id.clone(),
                    kind: PurgeKind::Lookup,
                    cron: SimpleCron::new(store_period),
                },
            );
        },
        Option::None => {},
    }
    CoreSnapshot {
        session_purge_frequency: SimpleCron::new(
            parsed_period(config, "jmap.session.purge.frequency", 3_600_000),
        ),
        account_purge_frequency: SimpleCron::new(
            parsed_period(config, "jmap.account.purge.frequency", 3_600_000),
        ),
        purge_schedules,
        acme_provider_ids: Vec::new(),
        license_expires_in: Option::None,
    }
}

/// A run of the pipeline: each stage is followed by its successor.
pub open spec fn valid_boot_trace(t: Seq<BootStage>) -> bool {
    &&& t.len() > 0
    &&& t[0] == BootStage::ResolveConfigPath
    &&& forall|i: int| 0 <= i < t.len() - 1 ==> t[i + 1] == next_stage(#[trigger] t[i])
}

/// In a valid run, the stage at position `i` is the `i`-th pipeline stage
/// (and `Done` once the pipeline has finished).
#[verifier::rlimit(50)]
pub proof fn lemma_trace_stage(t: Seq<BootStage>, i: int)
    requires
        valid_boot_trace(t),
        0 <= i < t.len(),
    ensures
        t[i] == stage_at(if i < 14 {
            i
        } else {
            14
        }),
    decreases i,
{
    if i > 0 {
        lemma_trace_stage(t, i - 1);
    }
}

/// Law: no store is opened while privileged. In any run of the pipeline that
/// reaches the store-opening stage, the privileged ports were bound first and
/// privileges were dropped after that, both strictly before any store opens.
pub proof fn lemma_stores_open_only_after_privilege_drop(t: Seq<BootStage>, i: int)
    requires
        valid_boot_trace(t),
        0 <= i < t.len(),
        t[i] == BootStage::OpenStores,
    ensures
        exists|jb: int, jd: int|
            0 <= jb < jd < i && #[trigger] t[jb] == BootStage::BindPorts && #[trigger] t[jd]
                == BootStage::DropPrivileges,
{
    lemma_trace_stage(t, i);
    assert(i == 5);
    lemma_trace_stage(t, 3);
    lemma_trace_stage(t, 4);
    assert(t[3] == BootStage::BindPorts && t[4] == BootStage::DropPrivileges);
}

} // verus!
