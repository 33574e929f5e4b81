//! The compiled key-pattern set deciding which store-held settings are
//! imported into an active configuration.

use vstd::prelude::*;
use vstd::string::StrSliceExecFns;

use crate::strutil::{str_eq, str_has_at, substring};

verus! {

/// One glob-like key pattern: a leading `!` excludes instead of including,
/// and a trailing `*` matches every key with the remaining text as prefix.
pub struct Pattern {
    pub exclude: bool,
    pub prefix: bool,
    pub text: String,
}

/// Does this pattern cover the key?
pub open spec fn pattern_covers(p: Pattern, k: Seq<char>) -> bool {
    if p.prefix {
        p.text@.len() <= k.len() && k.subrange(0, p.text@.len() as int) == p.text@
    } else {
        k == p.text@
    }
}

/// The first covering pattern decides; a key no pattern covers stays out.
pub open spec fn spec_decides(ps: Seq<Pattern>, k: Seq<char>) -> bool
    decreases ps.len(),
{
    if ps.len() == 0 {
        false
    } else if pattern_covers(ps[0], k) {
        !ps[0].exclude
    } else {
        spec_decides(ps.drop_first(), k)
    }
}

proof fn lemma_decides_step(ps: Seq<Pattern>, k: Seq<char>, i: int)
    requires
        0 <= i < ps.len(),
    ensures
        spec_decides(ps.skip(i), k) == if pattern_covers(ps[i], k) {
            !ps[i].exclude
        } else {
            spec_decides(ps.skip(i + 1), k)
        },
{
    assert(ps.skip(i).len() > 0);
    assert(ps.skip(i)[0] == ps[i]);
    assert(ps.skip(i).drop_first() =~= ps.skip(i + 1));
}

/// The relation between a pattern's text form and its compiled form.
pub open spec fn pattern_parsed(t: Seq<char>, p: Pattern) -> bool {
    let excl = t.len() > 0 && t[0] == '!';
    let body = if excl {
        t.skip(1)
    } else {
        t
    };
    let pref = body.len() > 0 && body[body.len() - 1] == '*';
    &&& p.exclude == excl
    &&& p.prefix == pref
    &&& p.text@ == if pref {
        body.subrange(0, body.len() - 1)
    } else {
        body
    }
}

impl Pattern {
    /// Parse one pattern: a leading `!` excludes, a trailing `*` matches by
    /// prefix, anything else matches exactly.
    pub fn parse(text: &str) -> (r: Pattern)
        ensures
            pattern_parsed(text@, r),
    {
        let tlen = text.unicode_len();
        let (exclude, start): (bool, usize) = if tlen > 0 && text.get_char(0) == '!' {
            (true, 1)
        } else {
            (false, 0)
        };
        let prefix = tlen > start && text.get_char(tlen - 1) == '*';
        let end = if prefix {
            tlen - 1
        } else {
            tlen
        };
        let body = substring(text, start, end);
        proof {
            let t = text@;
            if exclude {
                assert(body@ =~= if prefix {
                    t.skip(1).subrange(0, t.skip(1).len() - 1)
                } else {
                    t.skip(1)
                });
            } else {
                assert(body@ =~= if prefix {
                    t.subrange(0, t.len() - 1)
                } else {
                    t
                });
            }
        }
        Pattern { exclude, prefix, text: body }
    }

    /// Does this pattern cover the key?
    pub fn covers(&self, key: &str) -> (r: bool)
        ensures
            r == pattern_covers(*self, key@),
    {
        if self.prefix {
            let tlen = self.text.as_str().unicode_len();
            let klen = key.unicode_len();
            if tlen > klen {
                return false;
            }
            str_has_at(key, self.text.as_str(), 0)
        } else {
            str_eq(key, self.text.as_str())
        }
    }
}

/// A compiled pattern set.
pub struct Patterns {
    pub patterns: Vec<Pattern>,
}

impl Patterns {
    /// Compile a list of pattern texts, in order.
    pub fn parse_items(items: &Vec<String>) -> (r: Patterns)
        ensures
            r.patterns@.len() == items@.len(),
            forall|i: int|
                0 <= i < items@.len() ==> pattern_parsed(
                    (#[trigger] items@[i])@,
                    r.patterns@[i],
                ),
    {
        let mut patterns: Vec<Pattern> = Vec::new();
        let mut i: usize = 0;
        while i < items.len()
            invariant
                i <= items@.len(),
                patterns@.len() == i,
                forall|j: int|
                    0 <= j < i ==> pattern_parsed((#[trigger] items@[j])@, patterns@[j]),
            decreases items@.len() - i,
        {
            patterns.push(Pattern::parse(items[i].as_str()));
            i += 1;
        }
        Patterns { patterns }
    }

    /// The set that imports every key: the store is authoritative when no
    /// local-key patterns are configured.
    pub fn match_all() -> (r: Patterns)
        ensures
            forall|k: Seq<char>| #[trigger] spec_decides(r.patterns@, k),
    {
        let all = Pattern { exclude: false, prefix: true, text: String::new() };
        let mut patterns: Vec<Pattern> = Vec::new();
        patterns.push(all);
        let r = Patterns { patterns };
        proof {
            assert forall|k: Seq<char>| #[trigger] spec_decides(r.patterns@, k) by {
                assert(pattern_covers(r.patterns@[0], k)) by {
                    assert(k.subrange(0, 0) =~= Seq::<char>::empty());
                }
            }
        }
        r
    }

    /// Is a key with this name imported from the backing store?
    pub fn is_imported(&self, key: &str) -> (r: bool)
        ensures
            r == spec_decides(self.patterns@, key@),
    {
        proof {
            assert(self.patterns@.skip(0) =~= self.patterns@);
        }
        let mut i: usize = 0;
        while i < self.patterns.len()
            invariant
                i <= self.patterns@.len(),
                spec_decides(self.patterns@, key@) == spec_decides(
                    self.patterns@.skip(i as int),
                    key@,
                ),
            decreases self.patterns@.len() - i,
        {
            proof {
                lemma_decides_step(self.patterns@, key@, i as int);
            }
            if self.patterns[i].covers(key) {
                return !self.patterns[i].exclude;
            }
            i += 1;
        }
        proof {
            assert(self.patterns@.skip(self.patterns@.len() as int) =~= Seq::<
                Pattern,
            >::empty());
        }
        false
    }
}

} // verus!
