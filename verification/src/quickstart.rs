//! First-run scaffolding: the canned configuration with the install path and
//! the hashed admin password substituted, and the plan for the directories a
//! fresh installation needs.

use vstd::prelude::*;
use vstd::string::StrSliceExecFns;
use vstd::string::StringExecFns;

use crate::strutil::{has_at, lemma_has_at_skip, str_has_at, substring};
use crate::sys::{
    all_alnum, ascii_printable, random_alphanumeric, sha512_crypt_hash, sha512_crypt_verify,
    sha512_crypt_verifies,
};

verus! {

/// `s` with every occurrence of `m` replaced by `v`, scanning left to right
/// and never re-scanning replaced text.
pub open spec fn replace_spec(s: Seq<char>, m: Seq<char>, v: Seq<char>) -> Seq<char>
    recommends
        m.len() > 0,
    decreases s.len(),
{
    if m.len() == 0 || s.len() == 0 {
        s
    } else if has_at(s, m, 0) {
        v + replace_spec(s.skip(m.len() as int), m, v)
    } else {
        seq![s[0]] + replace_spec(s.skip(1), m, v)
    }
}

/// Replace every occurrence of `marker` in `s` by `value`.
pub fn replace_all(s: &str, marker: &str, value: &str) -> (r: String)
    requires
        marker@.len() > 0,
    ensures
        r@ == replace_spec(s@, marker@, value@),
{
    let mut out = String::new();
    let slen = s.unicode_len();
    let mlen = marker.unicode_len();
    let mut i: usize = 0;
    proof {
        assert(s@.skip(0) =~= s@);
        assert(Seq::<char>::empty() + replace_spec(s@, marker@, value@) =~= replace_spec(
            s@,
            marker@,
            value@,
        ));
    }
    while i < slen
        invariant
            i <= slen,
            slen == s@.len(),
            mlen == marker@.len(),
            marker@.len() > 0,
            replace_spec(s@, marker@, value@) == out@ + replace_spec(
                s@.skip(i as int),
                marker@,
                value@,
            ),
        decreases slen - i,
    {
        let ghost pre_out = out@;
        proof {
            lemma_has_at_skip(s@, marker@, i as int);
        }
        if str_has_at(s, marker, i) {
            out.append(value);
            proof {
                assert(s@.skip(i as int).skip(marker@.len() as int) =~= s@.skip(
                    i as int + marker@.len(),
                ));
                assert(replace_spec(s@.skip(i as int), marker@, value@) == value@
                    + replace_spec(s@.skip(i as int + marker@.len()), marker@, value@));
                assert(pre_out + (value@ + replace_spec(
                    s@.skip(i as int + marker@.len()),
                    marker@,
                    value@,
                )) =~= (pre_out + value@) + replace_spec(
                    s@.skip(i as int + marker@.len()),
                    marker@,
                    value@,
                ));
            }
            i += mlen;
        } else {
            let piece = s.substring_char(i, i + 1);
            out.append(piece);
            proof {
                assert(piece@ =~= seq![s@[i as int]]);
                assert(s@.skip(i as int).skip(1) =~= s@.skip(i as int + 1));
                assert(s@.skip(i as int)[0] == s@[i as int]);
                assert(replace_spec(s@.skip(i as int), marker@, value@) == seq![s@[i as int]]
                    + replace_spec(s@.skip(i as int + 1), marker@, value@));
                assert(pre_out + (seq![s@[i as int]] + replace_spec(
                    s@.skip(i as int + 1),
                    marker@,
                    value@,
                )) =~= (pre_out + piece@) + replace_spec(
                    s@.skip(i as int + 1),
                    marker@,
                    value@,
                ));
            }
            i += 1;
        }
    }
    proof {
        assert(s@.skip(slen as int) =~= Seq::<char>::empty());
        assert(replace_spec(Seq::<char>::empty(), marker@, value@) =~= Seq::<char>::empty());
        assert(out@ + Seq::<char>::empty() =~= out@);
    }
    out
}

/// The canned first-run configuration. `_P_` stands for the install path and
/// `_S_` for the SHA-512-crypt hash of the admin password.
pub const QUICKSTART_CONFIG: &'static str = r#"[server.listener.smtp]
bind = "[::]:25"
protocol = "smtp"

[server.listener.submission]
bind = "[::]:587"
protocol = "smtp"

[server.listener.submissions]
bind = "[::]:465"
protocol = "smtp"
tls.implicit = true

[server.listener.imap]
bind = "[::]:143"
protocol = "imap"

[server.listener.imaptls]
bind = "[::]:993"
protocol = "imap"
tls.implicit = true

[server.listener.sieve]
bind = "[::]:4190"
protocol = "managesieve"

[server.listener.https]
protocol = "http"
bind = "[::]:443"
tls.implicit = true

[server.listener.http]
protocol = "http"
bind = "[::]:8080"

[storage]
data = "rocksdb"
fts = "rocksdb"
blob = "rocksdb"
lookup = "rocksdb"
directory = "internal"

[store.rocksdb]
type = "rocksdb"
path = "_P_/data"
compression = "lz4"

[directory.internal]
type = "internal"
store = "rocksdb"

[tracer.log]
type = "log"
level = "info"
path = "_P_/logs"
prefix = "stalwart.log"
rotate = "daily"
ansi = false
enable = true

[authentication.fallback-admin]
user = "admin"
secret = "_S_"
"#;

/// The canned configuration with the install path and the admin secret hash
/// substituted.
pub fn render_quickstart_config(path: &str, admin_secret_hash: &str) -> (r: String)
    ensures
        r@ == replace_spec(
            replace_spec(QUICKSTART_CONFIG@, "_P_"@, path@),
            "_S_"@,
            admin_secret_hash@,
        ),
{
    proof {
        reveal_strlit("_P_");
        reveal_strlit("_S_");
    }
    let step = replace_all(QUICKSTART_CONFIG, "_P_", path);
    replace_all(step.as_str(), "_S_", admin_secret_hash)
}

/// The admin password: the one supplied through the environment, or ten
/// fresh alphanumeric characters.
pub fn choose_admin_password(env_password: Option<String>) -> (r: String)
    ensures
        match env_password {
            Some(p) => r == p,
            None => r@.len() == 10 && all_alnum(r@),
        },
{
    match env_password {
        Option::Some(p) => p,
        Option::None => random_alphanumeric(10),
    }
}

/// The admin password together with its SHA-512-crypt hash, or nothing when
/// hashing fails.
pub fn quickstart_secret(env_password: Option<String>) -> (r: Option<(String, String)>)
    ensures
        r matches Some(ph) ==> ({
            &&& sha512_crypt_verifies(ph.0@, ph.1@)
            &&& match env_password {
                Some(p) => ph.0 == p,
                None => ph.0@.len() == 10 && all_alnum(ph.0@),
            }
        }),
{
    let password = choose_admin_password(env_password);
    match sha512_crypt_hash(password.as_str()) {
        Option::Some(h) => Option::Some((password, h)),
        Option::None => Option::None,
    }
}

/// Does this hash verify against this password under SHA-512-crypt? The
/// hash must be printable ASCII, which every real SHA-512-crypt hash is;
/// other characters would reach a panic in the underlying decoder.
pub fn password_matches(password: &str, hash: &str) -> (r: bool)
    requires
        ascii_printable(hash@),
    ensures
        r == sha512_crypt_verifies(password@, hash@),
{
    sha512_crypt_verify(password, hash)
}

/// Which directories a fresh installation still needs.
pub struct QuickstartPlan {
    pub create_root: bool,
    pub create_etc: bool,
    pub create_data: bool,
    pub create_logs: bool,
}

/// Plan the scaffolding: exactly the missing directories are created, so an
/// existing directory tree is preserved.
pub fn quickstart_plan(
    root_exists: bool,
    etc_exists: bool,
    data_exists: bool,
    logs_exists: bool,
) -> (r: QuickstartPlan)
    ensures
        r.create_root == !root_exists,
        r.create_etc == !etc_exists,
        r.create_data == !data_exists,
        r.create_logs == !logs_exists,
{
    QuickstartPlan {
        create_root: !root_exists,
        create_etc: !etc_exists,
        create_data: !data_exists,
        create_logs: !logs_exists,
    }
}

} // verus!
