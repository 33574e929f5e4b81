//! The key/value configuration model: dotted keys mapping to string values,
//! plus the append-only list of build errors accumulated during boot.

use vstd::prelude::*;
use vstd::string::StrSliceExecFns;
use vstd::string::StringExecFns;

use crate::strutil::{
    concat_str, find_char, has_at, str_eq, str_find_char, str_has_at, substring, trim, trim_spec,
};

verus! {

/// The values of the pairs whose keys start with the prefix, in order.
pub open spec fn prefixed_values(s: Seq<ConfigKey>, p: Seq<char>) -> Seq<Seq<char>>
    decreases s.len(),
{
    if s.len() == 0 {
        Seq::<Seq<char>>::empty()
    } else {
        prefixed_values(s.drop_last(), p) + (if has_at(s.last().key@, p, 0) {
            seq![s.last().value@]
        } else {
            Seq::<Seq<char>>::empty()
        })
    }
}

/// One configuration setting: a dotted key and its value.
pub struct ConfigKey {
    pub key: String,
    pub value: String,
}

impl ConfigKey {
    pub fn new(key: &str, value: String) -> (r: ConfigKey)
        ensures
            r.key@ == key@,
            r.value == value,
    {
        ConfigKey { key: key.to_owned(), value }
    }
}

impl Clone for ConfigKey {
    fn clone(&self) -> (r: Self)
        ensures
            r == *self,
    {
        ConfigKey { key: self.key.clone(), value: self.value.clone() }
    }
}

/// A non-fatal diagnostic attached to the configuration during boot,
/// surfaced to operators at startup.
pub struct BuildError {
    pub pattern: String,
    pub message: String,
}

/// The value of the first pair carrying this key, if any.
pub open spec fn assoc_lookup(s: Seq<ConfigKey>, k: Seq<char>) -> Option<Seq<char>>
    decreases s.len(),
{
    if s.len() == 0 {
        None
    } else if s[0].key@ == k {
        Some(s[0].value@)
    } else {
        assoc_lookup(s.drop_first(), k)
    }
}

/// Unfold the lookup at position `i` of the sequence.
pub proof fn lemma_assoc_step(s: Seq<ConfigKey>, k: Seq<char>, i: int)
    requires
        0 <= i < s.len(),
    ensures
        assoc_lookup(s.skip(i), k) == if s[i].key@ == k {
            Some(s[i].value@)
        } else {
            assoc_lookup(s.skip(i + 1), k)
        },
{
    assert(s.skip(i).len() > 0);
    assert(s.skip(i)[0] == s[i]);
    assert(s.skip(i).drop_first() =~= s.skip(i + 1));
}

/// Overwriting the pair that carries a key changes that key's value and no
/// other.
pub proof fn lemma_assoc_update(s: Seq<ConfigKey>, i: int, x: ConfigKey)
    requires
        0 <= i < s.len(),
        s[i].key@ == x.key@,
        forall|a: int, b: int| 0 <= a < b < s.len() ==> (#[trigger] s[a]).key@ != (
        #[trigger] s[b]).key@,
    ensures
        assoc_lookup(s.update(i, x), x.key@) == Some(x.value@),
        forall|k: Seq<char>| k != x.key@ ==> assoc_lookup(s.update(i, x), k) == assoc_lookup(
            s,
            k,
        ),
    decreases i,
{
    let s2 = s.update(i, x);
    if i == 0 {
        assert(s2[0] == x);
        assert(s2.drop_first() =~= s.drop_first());
    } else {
        assert(s2[0] == s[0]);
        assert(s[0].key@ != x.key@);
        assert(s2.drop_first() =~= s.drop_first().update(i - 1, x));
        assert(forall|a: int|
            0 <= a < s.drop_first().len() ==> #[trigger] s.drop_first()[a] == s[a + 1]);
        lemma_assoc_update(s.drop_first(), i - 1, x);
        assert(assoc_lookup(s2, x.key@) == assoc_lookup(s.drop_first().update(i - 1, x), x.key@));
        assert forall|k: Seq<char>| k != x.key@ implies assoc_lookup(s2, k) == assoc_lookup(
            s,
            k,
        ) by {
            if s[0].key@ == k {
                assert(s2[0] == s[0]);
            } else {
                assert(assoc_lookup(s2, k) == assoc_lookup(s.drop_first().update(i - 1, x), k));
                assert(assoc_lookup(s.drop_first().update(i - 1, x), k) == assoc_lookup(
                    s.drop_first(),
                    k,
                ));
                assert(assoc_lookup(s, k) == assoc_lookup(s.drop_first(), k));
            }
        }
    }
}

/// Appending a pair with a fresh key binds that key and no other.
pub proof fn lemma_assoc_push(s: Seq<ConfigKey>, x: ConfigKey)
    requires
        forall|a: int| 0 <= a < s.len() ==> (#[trigger] s[a]).key@ != x.key@,
    ensures
        assoc_lookup(s.push(x), x.key@) == Some(x.value@),
        forall|k: Seq<char>| k != x.key@ ==> assoc_lookup(s.push(x), k) == assoc_lookup(s, k),
    decreases s.len(),
{
    let s2 = s.push(x);
    if s.len() == 0 {
        assert(s2[0] == x);
        assert(s2.drop_first() =~= Seq::<ConfigKey>::empty());
        assert forall|k: Seq<char>| k != x.key@ implies assoc_lookup(s2, k) == assoc_lookup(
            s,
            k,
        ) by {
            assert(assoc_lookup(s2, k) == assoc_lookup(s2.drop_first(), k));
            assert(assoc_lookup(s2.drop_first(), k) is None);
        }
    } else {
        assert(s2[0] == s[0]);
        assert(s2.drop_first() =~= s.drop_first().push(x));
        assert(forall|a: int|
            0 <= a < s.drop_first().len() ==> #[trigger] s.drop_first()[a] == s[a + 1]);
        lemma_assoc_push(s.drop_first(), x);
        assert(assoc_lookup(s2, x.key@) == Some(x.value@)) by {
            assert(s[0].key@ != x.key@);
            assert(assoc_lookup(s2, x.key@) == assoc_lookup(s.drop_first().push(x), x.key@));
        }
        assert forall|k: Seq<char>| k != x.key@ implies assoc_lookup(s2, k) == assoc_lookup(
            s,
            k,
        ) by {
            if s[0].key@ == k {
                assert(s2[0] == s[0]);
            } else {
                assert(assoc_lookup(s2, k) == assoc_lookup(s.drop_first().push(x), k));
                assert(assoc_lookup(s.drop_first().push(x), k) == assoc_lookup(
                    s.drop_first(),
                    k,
                ));
                assert(assoc_lookup(s, k) == assoc_lookup(s.drop_first(), k));
            }
        }
    }
}

/// Key/value configuration plus accumulated build errors. Parsing and
/// macro resolution happen at the boot edge; the model stores the resolved
/// pairs with their keys pairwise distinct, so last write wins by
/// overwriting in place.
pub struct Config {
    pub keys: Vec<ConfigKey>,
    pub build_errors: Vec<BuildError>,
}

impl Config {
    /// Keys are pairwise distinct, so the first match is the only one.
    pub open spec fn wf(self) -> bool {
        forall|a: int, b: int|
            0 <= a < b < self.keys@.len() ==> (#[trigger] self.keys@[a]).key@ != (
            #[trigger] self.keys@[b]).key@
    }

    /// The value bound to this key.
    pub open spec fn spec_value(self, k: Seq<char>) -> Option<Seq<char>> {
        assoc_lookup(self.keys@, k)
    }

    /// Is this key bound to a non-empty value?
    pub open spec fn spec_has_nonempty(self, k: Seq<char>) -> bool {
        match self.spec_value(k) {
            Some(v) => v.len() > 0,
            None => false,
        }
    }

    pub fn new() -> (r: Config)
        ensures
            r.wf(),
            r.keys@ =~= Seq::<ConfigKey>::empty(),
            r.build_errors@ =~= Seq::<BuildError>::empty(),
    {
        Config { keys: Vec::new(), build_errors: Vec::new() }
    }

    /// Position of the pair carrying this key, if any.
    fn position(&self, key: &str) -> (r: Option<usize>)
        ensures
            match r {
                Some(i) => i < self.keys@.len() && self.keys@[i as int].key@ == key@,
                None => forall|a: int|
                    0 <= a < self.keys@.len() ==> (#[trigger] self.keys@[a]).key@ != key@,
            },
    {
        let mut i: usize = 0;
        while i < self.keys.len()
            invariant
                i <= self.keys@.len(),
                forall|a: int| 0 <= a < i ==> (#[trigger] self.keys@[a]).key@ != key@,
            decreases self.keys@.len() - i,
        {
            if str_eq(self.keys[i].key.as_str(), key) {
                return Some(i);
            }
            i += 1;
        }
        None
    }

    /// The value bound to this key, if any.
    pub fn value(&self, key: &str) -> (r: Option<&String>)
        ensures
            match r {
                Some(v) => self.spec_value(key@) == Some(v@),
                None => self.spec_value(key@) is None,
            },
    {
        proof {
            assert(self.keys@.skip(0) =~= self.keys@);
        }
        let mut i: usize = 0;
        while i < self.keys.len()
            invariant
                i <= self.keys@.len(),
                assoc_lookup(self.keys@, key@) == assoc_lookup(
                    self.keys@.skip(i as int),
                    key@,
                ),
            decreases self.keys@.len() - i,
        {
            proof {
                lemma_assoc_step(self.keys@, key@, i as int);
            }
            if str_eq(self.keys[i].key.as_str(), key) {
                return Some(&self.keys[i].value);
            }
            i += 1;
        }
        proof {
            assert(self.keys@.skip(self.keys@.len() as int) =~= Seq::<ConfigKey>::empty());
        }
        None
    }

    /// Is this key bound to a non-empty value?
    pub fn has_nonempty(&self, key: &str) -> (r: bool)
        ensures
            r == self.spec_has_nonempty(key@),
    {
        match self.value(key) {
            Some(v) => !v.as_str().is_empty(),
            None => false,
        }
    }

    /// Bind a key: the previous binding, if any, is overwritten in place.
    pub fn insert(&mut self, item: ConfigKey)
        requires
            old(self).wf(),
        ensures
            final(self).wf(),
            final(self).spec_value(item.key@) == Some(item.value@),
            forall|k: Seq<char>|
                k != item.key@ ==> final(self).spec_value(k) == old(self).spec_value(k),
            final(self).build_errors@ == old(self).build_errors@,
            final(self).keys@.len() <= old(self).keys@.len() + 1,
    {
        let pos = self.position(item.key.as_str());
        match pos {
            Some(i) => {
                proof {
                    lemma_assoc_update(self.keys@, i as int, item);
                }
                let ghost pre = self.keys@;
                self.keys.set(i, item);
                proof {
                    assert forall|a: int, b: int|
                        0 <= a < b < self.keys@.len() implies (#[trigger] self.keys@[a]).key@
                        != (#[trigger] self.keys@[b]).key@ by {
                        assert(self.keys@[a].key@ == pre[a].key@);
                        assert(self.keys@[b].key@ == pre[b].key@);
                    }
                }
            },
            None => {
                proof {
                    lemma_assoc_push(self.keys@, item);
                }
                let ghost pre = self.keys@;
                self.keys.push(item);
                proof {
                    assert forall|a: int, b: int|
                        0 <= a < b < self.keys@.len() implies (#[trigger] self.keys@[a]).key@
                        != (#[trigger] self.keys@[b]).key@ by {
                        if b < pre.len() {
                            assert(self.keys@[a] == pre[a]);
                            assert(self.keys@[b] == pre[b]);
                        } else {
                            assert(self.keys@[a] == pre[a]);
                        }
                    }
                }
            },
        }
    }

    /// The values of every pair whose key starts with this prefix, in
    /// insertion order.
    pub fn values_with_key_prefix(&self, prefix: &str) -> (r: Vec<String>)
        ensures
            r@.len() == prefixed_values(self.keys@, prefix@).len(),
            forall|j: int|
                0 <= j < r@.len() ==> (#[trigger] r@[j])@ == prefixed_values(
                    self.keys@,
                    prefix@,
                )[j],
    {
        let mut r: Vec<String> = Vec::new();
        let mut i: usize = 0;
        proof {
            assert(self.keys@.subrange(0, 0) =~= Seq::<ConfigKey>::empty());
        }
        while i < self.keys.len()
            invariant
                i <= self.keys@.len(),
                r@.len() == prefixed_values(self.keys@.subrange(0, i as int), prefix@).len(),
                forall|j: int|
                    0 <= j < r@.len() ==> (#[trigger] r@[j])@ == prefixed_values(
                        self.keys@.subrange(0, i as int),
                        prefix@,
                    )[j],
            decreases self.keys@.len() - i,
        {
            proof {
                assert(self.keys@.subrange(0, i as int + 1).drop_last() =~= self.keys@.subrange(
                    0,
                    i as int,
                ));
                assert(self.keys@.subrange(0, i as int + 1).last() == self.keys@[i as int]);
            }
            let klen = self.keys[i].key.as_str().unicode_len();
            let plen = prefix.unicode_len();
            if plen <= klen && str_has_at(self.keys[i].key.as_str(), prefix, 0) {
                r.push(self.keys[i].value.clone());
            }
            i += 1;
        }
        proof {
            assert(self.keys@.subrange(0, self.keys@.len() as int) =~= self.keys@);
        }
        r
    }

    /// Record a non-fatal diagnostic; the settings stay untouched.
    pub fn new_build_error(&mut self, pattern: &str, message: String)
        ensures
            final(self).keys@ == old(self).keys@,
            final(self).build_errors@.len() == old(self).build_errors@.len() + 1,
            forall|i: int|
                0 <= i < old(self).build_errors@.len()
                    ==> #[trigger] final(self).build_errors@[i] == old(self).build_errors@[i],
            final(self).build_errors@.last().pattern@ == pattern@,
            final(self).build_errors@.last().message == message,
    {
        self.build_errors.push(BuildError { pattern: pattern.to_owned(), message });
    }
}

/// A fetched remote rule pack: its version tag and the settings it carries.
pub struct ExternalConfig {
    pub version: String,
    pub keys: Vec<ConfigKey>,
}

/// The value bound to a key in a plain pair list, if any.
pub fn assoc_value<'a>(keys: &'a Vec<ConfigKey>, key: &str) -> (r: Option<&'a String>)
    ensures
        match r {
            Some(v) => assoc_lookup(keys@, key@) == Some(v@),
            None => assoc_lookup(keys@, key@) is None,
        },
{
    proof {
        assert(keys@.skip(0) =~= keys@);
    }
    let mut i: usize = 0;
    while i < keys.len()
        invariant
            i <= keys@.len(),
            assoc_lookup(keys@, key@) == assoc_lookup(keys@.skip(i as int), key@),
        decreases keys@.len() - i,
    {
        proof {
            lemma_assoc_step(keys@, key@, i as int);
        }
        if str_eq(keys[i].key.as_str(), key) {
            return Some(&keys[i].value);
        }
        i += 1;
    }
    proof {
        assert(keys@.skip(keys@.len() as int) =~= Seq::<ConfigKey>::empty());
    }
    None
}

/// What a macro body `kind:name` resolves to: the named environment
/// variable, file content, or configuration value; anything else stays
/// unresolved.
pub open spec fn macro_lookup(
    body: Seq<char>,
    env: Seq<ConfigKey>,
    files: Seq<ConfigKey>,
    cfg: Seq<ConfigKey>,
) -> Option<Seq<char>> {
    match find_char(body, ':') {
        Some(c) => {
            let kind = body.subrange(0, c);
            let name = body.skip(c + 1);
            if kind == "env"@ {
                assoc_lookup(env, name)
            } else if kind == "file"@ {
                assoc_lookup(files, name)
            } else if kind == "cfg"@ {
                assoc_lookup(cfg, name)
            } else {
                None
            }
        },
        None => None,
    }
}

/// Does the text start with a complete `%{...}` macro?
pub open spec fn macro_at_front(v: Seq<char>) -> bool {
    has_at(v, "%{"@, 0) && (match find_char(v, '}') {
        Some(p) => 2 <= p < v.len(),
        None => false,
    })
}

/// The value with every `%{env:..}`/`%{file:..}`/`%{cfg:..}` occurrence
/// replaced by its lookup, scanning left to right; an unresolved macro is
/// kept verbatim.
pub open spec fn resolve_value_spec(
    v: Seq<char>,
    env: Seq<ConfigKey>,
    files: Seq<ConfigKey>,
    cfg: Seq<ConfigKey>,
) -> Seq<char>
    decreases v.len(),
{
    if v.len() == 0 {
        v
    } else if macro_at_front(v) {
        let p = find_char(v, '}')->Some_0;
        match macro_lookup(v.subrange(2, p), env, files, cfg) {
            Some(r) => r + resolve_value_spec(v.skip(p + 1), env, files, cfg),
            None => v.subrange(0, p + 1) + resolve_value_spec(v.skip(p + 1), env, files, cfg),
        }
    } else {
        seq![v[0]] + resolve_value_spec(v.skip(1), env, files, cfg)
    }
}

/// The macro bodies in the value that resolve to nothing, in scan order.
pub open spec fn unresolved_spec(
    v: Seq<char>,
    env: Seq<ConfigKey>,
    files: Seq<ConfigKey>,
    cfg: Seq<ConfigKey>,
) -> Seq<Seq<char>>
    decreases v.len(),
{
    if v.len() == 0 {
        Seq::<Seq<char>>::empty()
    } else if macro_at_front(v) {
        let p = find_char(v, '}')->Some_0;
        match macro_lookup(v.subrange(2, p), env, files, cfg) {
            Some(r) => unresolved_spec(v.skip(p + 1), env, files, cfg),
            None => seq![v.subrange(2, p)] + unresolved_spec(v.skip(p + 1), env, files, cfg),
        }
    } else {
        unresolved_spec(v.skip(1), env, files, cfg)
    }
}

/// Look a macro body up, mirroring `macro_lookup`.
fn macro_lookup_exec(
    body: &str,
    env: &Vec<ConfigKey>,
    files: &Vec<ConfigKey>,
    cfg: &Vec<ConfigKey>,
) -> (r: Option<String>)
    ensures
        match r {
            Some(s2) => macro_lookup(body@, env@, files@, cfg@) == Some(s2@),
            None => macro_lookup(body@, env@, files@, cfg@) is None,
        },
{
    let blen = body.unicode_len();
    match str_find_char(body, ':') {
        Option::Some(c) => {
            proof {
                crate::strutil::lemma_find_char(body@, ':');
            }
            let kind = substring(body, 0, c);
            let name = substring(body, c + 1, blen);
            proof {
                assert(name@ =~= body@.skip(c as int + 1));
            }
            let table: &Vec<ConfigKey> = if str_eq(kind.as_str(), "env") {
                env
            } else if str_eq(kind.as_str(), "file") {
                files
            } else if str_eq(kind.as_str(), "cfg") {
                cfg
            } else {
                return None;
            };
            match assoc_value(table, name.as_str()) {
                Option::Some(v) => Some(v.clone()),
                Option::None => None,
            }
        },
        Option::None => None,
    }
}

/// Resolve the macros in one value: the rewritten text and the macro bodies
/// that resolved to nothing, in scan order.
pub fn resolve_macro_value(
    v: &str,
    env: &Vec<ConfigKey>,
    files: &Vec<ConfigKey>,
    cfg: &Vec<ConfigKey>,
) -> (r: (String, Vec<String>))
    ensures
        r.0@ == resolve_value_spec(v@, env@, files@, cfg@),
        r.1@.len() == unresolved_spec(v@, env@, files@, cfg@).len(),
        forall|t: int|
            0 <= t < r.1@.len() ==> (#[trigger] r.1@[t])@ == unresolved_spec(
                v@,
                env@,
                files@,
                cfg@,
            )[t],
{
    let vlen = v.unicode_len();
    let mut out = String::new();
    let mut missing: Vec<String> = Vec::new();
    let ghost mut umis: Seq<Seq<char>> = Seq::empty();
    let mut i: usize = 0;
    proof {
        reveal_strlit("%{");
        assert(v@.skip(0) =~= v@);
        assert(Seq::<char>::empty() + resolve_value_spec(v@, env@, files@, cfg@)
            =~= resolve_value_spec(v@, env@, files@, cfg@));
        assert(Seq::<Seq<char>>::empty() + unresolved_spec(v@, env@, files@, cfg@)
            =~= unresolved_spec(v@, env@, files@, cfg@));
    }
    while i < vlen
        invariant
            i <= vlen,
            vlen == v@.len(),
            resolve_value_spec(v@, env@, files@, cfg@) == out@ + resolve_value_spec(
                v@.skip(i as int),
                env@,
                files@,
                cfg@,
            ),
            unresolved_spec(v@, env@, files@, cfg@) == umis + unresolved_spec(
                v@.skip(i as int),
                env@,
                files@,
                cfg@,
            ),
            missing@.len() == umis.len(),
            forall|t: int| 0 <= t < umis.len() ==> (#[trigger] missing@[t])@ == umis[t],
        decreases vlen - i,
    {
        let ghost w = v@.skip(i as int);
        let ghost pre_out = out@;
        let ghost pre_umis = umis;
        proof {
            reveal_strlit("%{");
            crate::strutil::lemma_has_at_skip(v@, "%{"@, i as int);
        }
        let mut plain = true;
        if str_has_at(v, "%{", i) {
            let tail = substring(v, i, vlen);
            proof {
                assert(tail@ =~= w);
            }
            match str_find_char(tail.as_str(), '}') {
                Option::Some(p) => {
                    proof {
                        crate::strutil::lemma_find_char(w, '}');
                        assert(w.subrange(0, 2) == "%{"@);
                        assert(w[0] == '%' && w[1] == '{') by {
                            assert(w.subrange(0, 2)[0] == w[0]);
                            assert(w.subrange(0, 2)[1] == w[1]);
                        }
                        assert(p >= 2);
                        assert(macro_at_front(w));
                    }
                    plain = false;
                    let body = substring(tail.as_str(), 2, p);
                    proof {
                        assert(body@ =~= w.subrange(2, p as int));
                        assert(w.skip(p as int + 1) =~= v@.skip(i as int + p + 1));
                    }
                    match macro_lookup_exec(body.as_str(), env, files, cfg) {
                        Option::Some(replacement) => {
                            out.append(replacement.as_str());
                            proof {
                                let rest = resolve_value_spec(
                                    v@.skip(i as int + p + 1),
                                    env@,
                                    files@,
                                    cfg@,
                                );
                                assert(resolve_value_spec(w, env@, files@, cfg@)
                                    == replacement@ + rest);
                                assert(pre_out + (replacement@ + rest) =~= (pre_out
                                    + replacement@) + rest);
                            }
                        },
                        Option::None => {
                            let literal = substring(tail.as_str(), 0, p + 1);
                            proof {
                                assert(literal@ =~= w.subrange(0, p as int + 1));
                            }
                            out.append(literal.as_str());
                            missing.push(body);
                            proof {
                                umis = umis.push(w.subrange(2, p as int));
                                let rest = resolve_value_spec(
                                    v@.skip(i as int + p + 1),
                                    env@,
                                    files@,
                                    cfg@,
                                );
                                assert(resolve_value_spec(w, env@, files@, cfg@)
                                    == w.subrange(0, p as int + 1) + rest);
                                assert(pre_out + (w.subrange(0, p as int + 1) + rest)
                                    =~= (pre_out + literal@) + rest);
                                let urest = unresolved_spec(
                                    v@.skip(i as int + p + 1),
                                    env@,
                                    files@,
                                    cfg@,
                                );
                                assert(unresolved_spec(w, env@, files@, cfg@)
                                    == seq![w.subrange(2, p as int)] + urest);
                                assert(pre_umis + (seq![w.subrange(2, p as int)] + urest)
                                    =~= (pre_umis.push(w.subrange(2, p as int))) + urest);
                            }
                        },
                    }
                    i += p + 1;
                },
                Option::None => {
                    proof {
                        crate::strutil::lemma_find_char(w, '}');
                        assert(!macro_at_front(w));
                    }
                },
            }
        }
        if plain {
            proof {
                assert(!macro_at_front(w)) by {
                    if macro_at_front(w) {
                        crate::strutil::lemma_find_char(w, '}');
                    }
                }
            }
            let piece = v.substring_char(i, i + 1);
            out.append(piece);
            proof {
                assert(piece@ =~= seq![v@[i as int]]);
                assert(w.skip(1) =~= v@.skip(i as int + 1));
                assert(w[0] == v@[i as int]);
                let rest = resolve_value_spec(v@.skip(i as int + 1), env@, files@, cfg@);
                assert(resolve_value_spec(w, env@, files@, cfg@) == seq![v@[i as int]] + rest);
                assert(pre_out + (seq![v@[i as int]] + rest) =~= (pre_out + piece@) + rest);
                assert(unresolved_spec(w, env@, files@, cfg@) == unresolved_spec(
                    v@.skip(i as int + 1),
                    env@,
                    files@,
                    cfg@,
                ));
            }
            i += 1;
        }
    }
    proof {
        assert(v@.skip(vlen as int) =~= Seq::<char>::empty());
        assert(resolve_value_spec(Seq::<char>::empty(), env@, files@, cfg@) =~= Seq::<
            char,
        >::empty());
        assert(unresolved_spec(Seq::<char>::empty(), env@, files@, cfg@) =~= Seq::<
            Seq<char>,
        >::empty());
        assert(out@ + Seq::<char>::empty() =~= out@);
        assert(umis + Seq::<Seq<char>>::empty() =~= umis);
    }
    (out, missing)
}

/// Every unresolved macro body over a whole key list, in key order.
pub open spec fn macro_unresolved_all(
    keys: Seq<ConfigKey>,
    env: Seq<ConfigKey>,
    files: Seq<ConfigKey>,
    cfg: Seq<ConfigKey>,
) -> Seq<Seq<char>>
    decreases keys.len(),
{
    if keys.len() == 0 {
        Seq::<Seq<char>>::empty()
    } else {
        macro_unresolved_all(keys.drop_last(), env, files, cfg) + unresolved_spec(
            keys.last().value@,
            env,
            files,
            cfg,
        )
    }
}

/// An exact copy of a pair list.
fn clone_keys(keys: &Vec<ConfigKey>) -> (r: Vec<ConfigKey>)
    ensures
        r@ == keys@,
{
    let mut r: Vec<ConfigKey> = Vec::new();
    let mut i: usize = 0;
    while i < keys.len()
        invariant
            i <= keys@.len(),
            r@ =~= keys@.subrange(0, i as int),
        decreases keys@.len() - i,
    {
        r.push(keys[i].clone());
        proof {
            assert(keys@.subrange(0, i as int + 1) =~= keys@.subrange(0, i as int).push(
                keys@[i as int],
            ));
        }
        i += 1;
    }
    proof {
        assert(keys@.subrange(0, keys@.len() as int) =~= keys@);
    }
    r
}

impl Config {
    /// Substitute `%{env:..}`, `%{file:..}` and `%{cfg:..}` macros in every
    /// value, from the given environment and file tables and from the
    /// configuration itself (its pre-resolution state). Each macro that
    /// resolves to nothing is kept verbatim and recorded as one build error;
    /// the keys themselves never change.
    pub fn resolve_macros(&mut self, env: &Vec<ConfigKey>, files: &Vec<ConfigKey>)
        requires
            old(self).wf(),
        ensures
            final(self).wf(),
            final(self).keys@.len() == old(self).keys@.len(),
            forall|j: int|
                0 <= j < old(self).keys@.len() ==> (#[trigger] final(self).keys@[j]).key@
                    == old(self).keys@[j].key@ && final(self).keys@[j].value@
                    == resolve_value_spec(
                    old(self).keys@[j].value@,
                    env@,
                    files@,
                    old(self).keys@,
                ),
            ({
                let ms = macro_unresolved_all(old(self).keys@, env@, files@, old(self).keys@);
                &&& final(self).build_errors@.len() == old(self).build_errors@.len()
                    + ms.len()
                &&& forall|t: int|
                    0 <= t < old(self).build_errors@.len()
                        ==> #[trigger] final(self).build_errors@[t]
                        == old(self).build_errors@[t]
                &&& forall|t: int|
                    0 <= t < ms.len()
                        ==> (#[trigger] final(self).build_errors@[old(self).build_errors@.len()
                        + t]).pattern@ == "*"@
                        && final(self).build_errors@[old(self).build_errors@.len()
                        + t].message@ == "Unresolved macro: "@ + ms[t]
            }),
    {
        let originals = clone_keys(&self.keys);
        let ghost errbase = self.build_errors@;
        let mut new_keys: Vec<ConfigKey> = Vec::new();
        let mut j: usize = 0;
        proof {
            assert(originals@.subrange(0, 0) =~= Seq::<ConfigKey>::empty());
        }
        while j < originals.len()
            invariant
                j <= originals@.len(),
                originals@ == old(self).keys@,
                self.keys@ == old(self).keys@,
                new_keys@.len() == j,
                forall|x: int|
                    0 <= x < j ==> (#[trigger] new_keys@[x]).key@ == originals@[x].key@
                        && new_keys@[x].value@ == resolve_value_spec(
                        originals@[x].value@,
                        env@,
                        files@,
                        originals@,
                    ),
                errbase == old(self).build_errors@,
                self.build_errors@.len() == errbase.len() + macro_unresolved_all(
                    originals@.subrange(0, j as int),
                    env@,
                    files@,
                    originals@,
                ).len(),
                forall|t: int|
                    0 <= t < errbase.len() ==> #[trigger] self.build_errors@[t] == errbase[t],
                forall|t: int|
                    0 <= t < macro_unresolved_all(
                        originals@.subrange(0, j as int),
                        env@,
                        files@,
                        originals@,
                    ).len() ==> (#[trigger] self.build_errors@[errbase.len() + t]).pattern@
                        == "*"@ && self.build_errors@[errbase.len() + t].message@
                        == "Unresolved macro: "@ + macro_unresolved_all(
                        originals@.subrange(0, j as int),
                        env@,
                        files@,
                        originals@,
                    )[t],
            decreases originals@.len() - j,
        {
            let ghost flat = macro_unresolved_all(
                originals@.subrange(0, j as int),
                env@,
                files@,
                originals@,
            );
            let (resolved, missing) = resolve_macro_value(
                originals[j].value.as_str(),
                env,
                files,
                &originals,
            );
            new_keys.push(ConfigKey { key: originals[j].key.clone(), value: resolved });
            let ghost umis = unresolved_spec(originals@[j as int].value@, env@, files@,
                originals@);
            let mut t: usize = 0;
            while t < missing.len()
                invariant
                    t <= missing@.len(),
                    missing@.len() == umis.len(),
                    forall|x: int| 0 <= x < umis.len() ==> (#[trigger] missing@[x])@
                        == umis[x],
                    self.keys@ == old(self).keys@,
                    self.build_errors@.len() == errbase.len() + flat.len() + t,
                    forall|x: int|
                        0 <= x < errbase.len() + flat.len() ==> #[trigger] self.build_errors@[x]
                            == self.build_errors@[x],
                    forall|x: int|
                        0 <= x < errbase.len() ==> #[trigger] self.build_errors@[x]
                            == errbase[x],
                    forall|x: int|
                        0 <= x < flat.len() ==> (#[trigger] self.build_errors@[errbase.len()
                            + x]).pattern@ == "*"@ && self.build_errors@[errbase.len()
                            + x].message@ == "Unresolved macro: "@ + flat[x],
                    forall|x: int|
                        0 <= x < t ==> (#[trigger] self.build_errors@[errbase.len()
                            + flat.len() + x]).pattern@ == "*"@ && self.build_errors@[
                        errbase.len() + flat.len() + x].message@ == "Unresolved macro: "@
                            + umis[x],
                decreases missing@.len() - t,
            {
                let message = concat_str("Unresolved macro: ", missing[t].as_str());
                self.build_errors.push(
                    BuildError { pattern: String::from_str("*"), message },
                );
                t += 1;
            }
            proof {
                assert(originals@.subrange(0, j as int + 1).drop_last() =~= originals@.subrange(
                    0,
                    j as int,
                ));
                assert(originals@.subrange(0, j as int + 1).last() == originals@[j as int]);
                assert(macro_unresolved_all(
                    originals@.subrange(0, j as int + 1),
                    env@,
                    files@,
                    originals@,
                ) == flat + umis);
                assert forall|x: int|
                    0 <= x < flat.len() + umis.len() implies (
                #[trigger] self.build_errors@[errbase.len() + x]).pattern@ == "*"@
                    && self.build_errors@[errbase.len() + x].message@ == "Unresolved macro: "@
                    + (flat + umis)[x] by {
                    if x < flat.len() {
                    } else {
                        let x2 = x - flat.len();
                        assert((flat + umis)[x] == umis[x2]);
                        assert(self.build_errors@[errbase.len() + flat.len() + x2].pattern@
                            == "*"@ && self.build_errors@[errbase.len() + flat.len()
                            + x2].message@ == "Unresolved macro: "@ + umis[x2]);
                        assert(errbase.len() + flat.len() + x2 == errbase.len() + x);
                    }
                }
            }
            j += 1;
        }
        proof {
            assert(originals@.subrange(0, originals@.len() as int) =~= originals@);
        }
        self.keys = new_keys;
        proof {
            assert forall|a: int, b: int|
                0 <= a < b < self.keys@.len() implies (#[trigger] self.keys@[a]).key@ != (
            #[trigger] self.keys@[b]).key@ by {
                assert(self.keys@[a].key@ == originals@[a].key@);
                assert(self.keys@[b].key@ == originals@[b].key@);
            }
        }
    }
}

/// The text split at every newline; a trailing newline yields a final empty
/// line.
pub open spec fn split_lines(s: Seq<char>) -> Seq<Seq<char>>
    decreases s.len(),
{
    match find_char(s, '\n') {
        Some(p) => if 0 <= p < s.len() {
            seq![s.subrange(0, p)] + split_lines(s.skip(p + 1))
        } else {
            seq![s]
        },
        None => seq![s],
    }
}

/// What one line of configuration text means.
pub enum LineShape {
    /// Empty, whitespace, or a `#` comment.
    Blank,
    /// A `[section]` header naming the prefix for the pairs below it.
    Section(Seq<char>),
    /// A `key = value` pair, both sides trimmed and the value unquoted.
    Pair(Seq<char>, Seq<char>),
    /// Anything else: the file is rejected.
    Bad,
}

/// A value stripped of one layer of surrounding double quotes.
pub open spec fn unquote(v: Seq<char>) -> Seq<char> {
    if v.len() >= 2 && v[0] == '"' && v[v.len() - 1] == '"' {
        v.subrange(1, v.len() - 1)
    } else {
        v
    }
}

/// Classify one line of configuration text.
pub open spec fn classify_line(line: Seq<char>) -> LineShape {
    let t = trim_spec(line);
    if t.len() == 0 || t[0] == '#' {
        LineShape::Blank
    } else if t[0] == '[' {
        if t.len() >= 2 && t[t.len() - 1] == ']' {
            LineShape::Section(trim_spec(t.subrange(1, t.len() - 1)))
        } else {
            LineShape::Bad
        }
    } else {
        match find_char(t, '=') {
            Some(p) => {
                let key = trim_spec(t.subrange(0, p));
                if key.len() == 0 {
                    LineShape::Bad
                } else {
                    LineShape::Pair(key, unquote(trim_spec(t.skip(p + 1))))
                }
            },
            None => LineShape::Bad,
        }
    }
}

/// A pair's key under its section: `section.key`, or the bare key at top
/// level.
pub open spec fn full_key(section: Seq<char>, key: Seq<char>) -> Seq<char> {
    if section.len() == 0 {
        key
    } else {
        section + "."@ + key
    }
}

/// Is every line well-formed?
pub open spec fn parse_ok(lines: Seq<Seq<char>>, section: Seq<char>) -> bool
    decreases lines.len(),
{
    if lines.len() == 0 {
        true
    } else {
        match classify_line(lines[0]) {
            LineShape::Bad => false,
            LineShape::Section(s2) => parse_ok(lines.skip(1), s2),
            _ => parse_ok(lines.skip(1), section),
        }
    }
}

/// The key/value pairs the lines yield, in file order, keys qualified by the
/// enclosing section.
pub open spec fn parse_pairs(lines: Seq<Seq<char>>, section: Seq<char>) -> Seq<
    (Seq<char>, Seq<char>),
>
    decreases lines.len(),
{
    if lines.len() == 0 {
        seq![]
    } else {
        match classify_line(lines[0]) {
            LineShape::Pair(k, v) => seq![(full_key(section, k), v)] + parse_pairs(
                lines.skip(1),
                section,
            ),
            LineShape::Section(s2) => parse_pairs(lines.skip(1), s2),
            _ => parse_pairs(lines.skip(1), section),
        }
    }
}

/// All the pairs a configuration text yields.
pub open spec fn pairs_of(text: Seq<char>) -> Seq<(Seq<char>, Seq<char>)> {
    parse_pairs(split_lines(text), Seq::<char>::empty())
}

/// The value of the last pair carrying this key.
pub open spec fn last_pair(s: Seq<(Seq<char>, Seq<char>)>, k: Seq<char>) -> Option<Seq<char>>
    decreases s.len(),
{
    if s.len() == 0 {
        None
    } else if s.last().0 == k {
        Some(s.last().1)
    } else {
        last_pair(s.drop_last(), k)
    }
}

proof fn lemma_last_pair_push(s: Seq<(Seq<char>, Seq<char>)>, x: (Seq<char>, Seq<char>), k: Seq<char>)
    ensures
        last_pair(s.push(x), k) == if x.0 == k {
            Some(x.1)
        } else {
            last_pair(s, k)
        },
{
    assert(s.push(x).drop_last() =~= s);
    assert(s.push(x).last() == x);
}

/// An exec view of one classified line.
enum LineKind {
    Blank,
    Section(String),
    Pair(String, String),
    Bad,
}

/// Classify one line, mirroring `classify_line`.
fn classify(line: &str) -> (r: LineKind)
    ensures
        match r {
            LineKind::Blank => classify_line(line@) is Blank,
            LineKind::Section(s2) => classify_line(line@) matches LineShape::Section(x) && s2@
                == x,
            LineKind::Pair(k, v) => classify_line(line@) matches LineShape::Pair(ks, vs) && k@
                == ks && v@ == vs,
            LineKind::Bad => classify_line(line@) is Bad,
        },
{
    let t = trim(line);
    let tl = t.as_str().unicode_len();
    if tl == 0 {
        return LineKind::Blank;
    }
    let c0 = t.as_str().get_char(0);
    if c0 == '#' {
        return LineKind::Blank;
    }
    if c0 == '[' {
        if tl >= 2 && t.as_str().get_char(tl - 1) == ']' {
            let inner = substring(t.as_str(), 1, tl - 1);
            LineKind::Section(trim(inner.as_str()))
        } else {
            LineKind::Bad
        }
    } else {
        match str_find_char(t.as_str(), '=') {
            Option::Some(p) => {
                proof {
                    crate::strutil::lemma_find_char(t@, '=');
                }
                let key = trim(substring(t.as_str(), 0, p).as_str());
                let rawv = substring(t.as_str(), p + 1, tl);
                proof {
                    assert(rawv@ =~= t@.skip(p as int + 1));
                }
                let vt = trim(rawv.as_str());
                let vl = vt.as_str().unicode_len();
                let value = if vl >= 2 && vt.as_str().get_char(0) == '"' && vt.as_str().get_char(
                    vl - 1,
                ) == '"' {
                    substring(vt.as_str(), 1, vl - 1)
                } else {
                    vt
                };
                if key.as_str().is_empty() {
                    LineKind::Bad
                } else {
                    LineKind::Pair(key, value)
                }
            },
            Option::None => LineKind::Bad,
        }
    }
}

impl Config {
    /// Parse TOML-shaped text: `[section]` headers, `key = value` pairs
    /// (values optionally double-quoted), comments and blank lines. Parsed
    /// pairs are inserted in file order, later bindings overwriting earlier
    /// ones; a malformed line rejects the file. Parsing never panics.
    pub fn parse(&mut self, text: &str) -> (r: Result<(), String>)
        requires
            old(self).wf(),
        ensures
            final(self).wf(),
            final(self).build_errors@ == old(self).build_errors@,
            (r is Ok) <==> parse_ok(split_lines(text@), Seq::<char>::empty()),
            r is Ok ==> forall|k: Seq<char>|
                #[trigger] final(self).spec_value(k) == (match last_pair(pairs_of(text@), k) {
                    Some(v) => Some(v),
                    None => old(self).spec_value(k),
                }),
            r matches Err(m) ==> m@ == "Invalid configuration file"@,
    {
        let slen = text.unicode_len();
        let mut i: usize = 0;
        let mut section: String = String::new();
        let ghost mut done: Seq<(Seq<char>, Seq<char>)> = Seq::empty();
        proof {
            assert(text@.skip(0) =~= text@);
            assert forall|k: Seq<char>| #[trigger] self.spec_value(k) == (match last_pair(
                done,
                k,
            ) {
                Some(v) => Some(v),
                None => old(self).spec_value(k),
            }) by {
                assert(last_pair(done, k) is None);
            }
        }
        loop
            invariant_except_break
                i <= slen,
                slen == text@.len(),
                self.wf(),
                self.build_errors@ == old(self).build_errors@,
                parse_ok(split_lines(text@), Seq::<char>::empty()) <==> parse_ok(
                    split_lines(text@.skip(i as int)),
                    section@,
                ),
                pairs_of(text@) == done + parse_pairs(
                    split_lines(text@.skip(i as int)),
                    section@,
                ),
                forall|k: Seq<char>|
                    #[trigger] self.spec_value(k) == (match last_pair(done, k) {
                        Some(v) => Some(v),
                        None => old(self).spec_value(k),
                    }),
            ensures
                self.wf(),
                self.build_errors@ == old(self).build_errors@,
                parse_ok(split_lines(text@), Seq::<char>::empty()),
                pairs_of(text@) == done,
                forall|k: Seq<char>|
                    #[trigger] self.spec_value(k) == (match last_pair(done, k) {
                        Some(v) => Some(v),
                        None => old(self).spec_value(k),
                    }),
            decreases slen - i,
        {
            let tail = substring(text, i, slen);
            let ghost rest = text@.skip(i as int);
            proof {
                assert(tail@ =~= rest);
            }
            let found = str_find_char(tail.as_str(), '\n');
            let (line, next_i, is_last): (String, usize, bool) = match found {
                Option::Some(p) => {
                    proof {
                        crate::strutil::lemma_find_char(rest, '\n');
                    }
                    let l = substring(tail.as_str(), 0, p);
                    (l, i + p + 1, false)
                },
                Option::None => (tail, slen, true),
            };
            let ghost lines = split_lines(rest);
            proof {
                if !is_last {
                    assert(lines == seq![rest.subrange(0, lines_first_len(rest))] + split_lines(
                        rest.skip(lines_first_len(rest) + 1),
                    ));
                    assert(line@ == lines[0]);
                    assert(lines.skip(1) =~= split_lines(text@.skip(next_i as int))) by {
                        assert(rest.skip(lines_first_len(rest) + 1) =~= text@.skip(
                            next_i as int,
                        ));
                    }
                } else {
                    assert(lines == seq![rest]);
                    assert(line@ == lines[0]);
                    assert(lines.skip(1) =~= Seq::<Seq<char>>::empty());
                }
            }
            let ghost pre_section = section@;
            let ghost rest_lines = lines.skip(1);
            let kind = classify(line.as_str());
            match kind {
                LineKind::Blank => {
                    proof {
                        assert(parse_ok(lines, pre_section) == parse_ok(
                            rest_lines,
                            pre_section,
                        ));
                        assert(parse_pairs(lines, pre_section) == parse_pairs(
                            rest_lines,
                            pre_section,
                        ));
                    }
                },
                LineKind::Section(s2) => {
                    section = s2;
                    proof {
                        assert(parse_ok(lines, pre_section) == parse_ok(rest_lines, section@));
                        assert(parse_pairs(lines, pre_section) == parse_pairs(
                            rest_lines,
                            section@,
                        ));
                    }
                },
                LineKind::Pair(key, value) => {
                    let fk: String = if section.as_str().is_empty() {
                        key
                    } else {
                        let pre = concat_str(section.as_str(), ".");
                        concat_str(pre.as_str(), key.as_str())
                    };
                    let ghost ks = (match classify_line(line@) {
                        LineShape::Pair(k0, v0) => k0,
                        _ => Seq::<char>::empty(),
                    });
                    proof {
                        if pre_section.len() > 0 {
                            assert(fk@ =~= pre_section + "."@ + ks);
                        }
                        assert(fk@ == full_key(pre_section, ks));
                    }
                    let ghost fkg = fk@;
                    let ghost vg = value@;
                    let ghost pre_done = done;
                    self.insert(ConfigKey { key: fk, value });
                    proof {
                        done = done.push((fkg, vg));
                        assert forall|k: Seq<char>| #[trigger] self.spec_value(k) == (match
                            last_pair(done, k) {
                            Some(v) => Some(v),
                            None => old(self).spec_value(k),
                        }) by {
                            lemma_last_pair_push(pre_done, (fkg, vg), k);
                        }
                        assert(parse_ok(lines, pre_section) == parse_ok(
                            rest_lines,
                            pre_section,
                        ));
                        assert(parse_pairs(lines, pre_section) == seq![(fkg, vg)]
                            + parse_pairs(rest_lines, pre_section));
                        assert(pre_done + (seq![(fkg, vg)] + parse_pairs(
                            rest_lines,
                            pre_section,
                        )) =~= done + parse_pairs(rest_lines, pre_section));
                    }
                },
                LineKind::Bad => {
                    proof {
                        assert(!parse_ok(lines, pre_section));
                    }
                    return Err(String::from_str("Invalid configuration file"));
                },
            }
            if is_last {
                proof {
                    assert(parse_ok(rest_lines, section@));
                    assert(parse_pairs(rest_lines, section@) =~= Seq::<(
                        Seq<char>,
                        Seq<char>,
                    )>::empty());
                    assert(done + parse_pairs(rest_lines, section@) =~= done);
                }
                break ;
            }
            i = next_i;
        }
        Ok(())
    }
}

/// The length of the first line of the text (the position of its first
/// newline).
pub open spec fn lines_first_len(s: Seq<char>) -> int {
    find_char(s, '\n')->Some_0
}

} // verus!
