//! Aliases and the alias store: a map from unique keys to values, held in
//! ascending key order.

use vstd::prelude::*;
use crate::order::{key_less, key_lt, lemma_key_lt_asymmetric, lemma_key_lt_irreflexive,
    lemma_key_lt_total, lemma_key_lt_transitive};

verus! {

/// A named snippet: `key` is what a query is matched against, `value` is the
/// text handed out.
pub struct Alias {
    pub key: String,
    pub value: String,
}

impl Alias {
    pub fn new(key: String, value: String) -> (r: Alias)
        ensures
            r.key == key,
            r.value == value,
    {
        Alias { key, value }
    }

    /// A copy with equal key and value.
    pub fn duplicate(&self) -> (r: Alias)
        ensures
            r == *self,
    {
        Alias { key: self.key.clone(), value: self.value.clone() }
    }
}

/// Keys strictly ascend along the sequence (so they are also unique).
pub open spec fn keys_ascending(s: Seq<Alias>) -> bool {
    forall|i: int, j: int| 0 <= i < j < s.len() ==> key_lt(#[trigger] s[i].key@, #[trigger] s[j].key@)
}

/// The sequence after putting `a` in: an alias with an equal key is replaced,
/// otherwise `a` goes in front of the first alias whose key sorts after it.
pub open spec fn put_alias(s: Seq<Alias>, a: Alias) -> Seq<Alias>
    decreases s.len(),
{
    if s.len() == 0 {
        seq![a]
    } else if s[0].key@ == a.key@ {
        seq![a] + s.drop_first()
    } else if key_lt(a.key@, s[0].key@) {
        seq![a] + s
    } else {
        seq![s[0]] + put_alias(s.drop_first(), a)
    }
}

/// The value stored under `key`, if any.
pub open spec fn lookup(s: Seq<Alias>, key: Seq<char>) -> Option<Seq<char>>
    decreases s.len(),
{
    if s.len() == 0 {
        None
    } else if s[0].key@ == key {
        Some(s[0].value@)
    } else {
        lookup(s.drop_first(), key)
    }
}

/// Putting an alias in stores its value under its key and leaves every
/// other key as it was.
pub proof fn lemma_put_then_lookup(s: Seq<Alias>, a: Alias, key: Seq<char>)
    ensures
        lookup(put_alias(s, a), key) == if key == a.key@ {
            Some(a.value@)
        } else {
            lookup(s, key)
        },
    decreases s.len(),
{
    if s.len() == 0 {
        assert(seq![a].drop_first() =~= s);
    } else {
        if s[0].key@ == a.key@ {
            assert((seq![a] + s.drop_first()).drop_first() =~= s.drop_first());
        } else if key_lt(a.key@, s[0].key@) {
            assert((seq![a] + s).drop_first() =~= s);
        } else {
            lemma_put_then_lookup(s.drop_first(), a, key);
            assert((seq![s[0]] + put_alias(s.drop_first(), a)).drop_first() =~= put_alias(
                s.drop_first(),
                a,
            ));
        }
    }
}

/// The store built from `entries` put in one after another: a later entry
/// wins over an earlier one with the same key.
pub open spec fn store_of(entries: Seq<Alias>) -> Seq<Alias>
    decreases entries.len(),
{
    if entries.len() == 0 {
        Seq::empty()
    } else {
        put_alias(store_of(entries.drop_last()), entries.last())
    }
}

/// The alias store: aliases with unique keys, in ascending key order.
pub struct Config {
    aliases: Vec<Alias>,
}

impl View for Config {
    type V = Seq<Alias>;

    closed spec fn view(&self) -> Seq<Alias> {
        self.aliases@
    }
}

proof fn lemma_put_alias_at(s: Seq<Alias>, a: Alias, p: int)
    requires
        0 <= p <= s.len(),
        forall|i: int| 0 <= i < p ==> key_lt(#[trigger] s[i].key@, a.key@),
        p == s.len() || !key_lt(s[p].key@, a.key@),
    ensures
        p < s.len() && s[p].key@ == a.key@ ==> put_alias(s, a) == s.update(p, a),
        !(p < s.len() && s[p].key@ == a.key@) ==> put_alias(s, a) == s.insert(p, a),
    decreases s.len(),
{
    if s.len() == 0 {
        assert(s.insert(p, a) =~= seq![a]);
    } else if p == 0 {
        if s[0].key@ == a.key@ {
            assert(seq![a] + s.drop_first() =~= s.update(0, a));
        } else {
            lemma_key_lt_total(s[0].key@, a.key@);
            assert(seq![a] + s =~= s.insert(0, a));
        }
    } else {
        lemma_key_lt_irreflexive(a.key@);
        lemma_key_lt_asymmetric(s[0].key@, a.key@);
        let t = s.drop_first();
        assert forall|i: int| 0 <= i < p - 1 implies key_lt(#[trigger] t[i].key@, a.key@) by {
            assert(t[i] == s[i + 1]);
        }
        lemma_put_alias_at(t, a, p - 1);
        if p < s.len() && s[p].key@ == a.key@ {
            assert(seq![s[0]] + t.update(p - 1, a) =~= s.update(p, a));
        } else {
            assert(seq![s[0]] + t.insert(p - 1, a) =~= s.insert(p, a));
        }
    }
}

impl Config {
    /// Keys ascend strictly: every constructor gives this and every method keeps it.
    pub open spec fn well_formed(&self) -> bool {
        keys_ascending(self@)
    }

    /// An empty store.
    pub fn new() -> (r: Config)
        ensures
            r@ == Seq::<Alias>::empty(),
            r.well_formed(),
    {
        Config { aliases: Vec::new() }
    }

    /// Puts `alias` in the store, replacing the alias with an equal key.
    pub fn insert(&mut self, alias: Alias)
        requires
            old(self).well_formed(),
        ensures
            final(self)@ == put_alias(old(self)@, alias),
            final(self).well_formed(),
    {
        let ghost s = self.aliases@;
        let n = self.aliases.len();
        let mut p: usize = 0;
        while p < n && key_less(self.aliases[p].key.as_str(), alias.key.as_str())
            invariant
                n == s.len(),
                s == self.aliases@,
                keys_ascending(s),
                p <= n,
                forall|i: int| 0 <= i < p ==> key_lt(#[trigger] s[i].key@, alias.key@),
            decreases n - p,
        {
            p = p + 1;
        }
        proof {
            lemma_put_alias_at(s, alias, p as int);
        }
        let ghost ak = alias.key@;
        let replace = p < n && self.aliases[p].key == alias.key;
        if replace {
            self.aliases.set(p, alias);
        } else {
            self.aliases.insert(p, alias);
        }
        proof {
            let t = self.aliases@;
            assert forall|i: int, j: int| 0 <= i < j < t.len() implies key_lt(
                #[trigger] t[i].key@,
                #[trigger] t[j].key@,
            ) by {
                if replace {
                    if i == p {
                        lemma_key_lt_total(s[p as int].key@, ak);
                    } else if j == p {
                    }
                } else {
                    if i < p && j > p {
                        lemma_key_lt_total(s[p as int].key@, ak);
                        if j - 1 > p {
                            lemma_key_lt_transitive(ak, s[p as int].key@, s[j - 1].key@);
                        }
                        lemma_key_lt_transitive(s[i].key@, ak, s[j - 1].key@);
                    } else if i == p {
                        lemma_key_lt_total(s[p as int].key@, ak);
                        if j - 1 > p {
                            lemma_key_lt_transitive(ak, s[p as int].key@, s[j - 1].key@);
                        }
                    }
                }
            }
        }
    }

    /// The store holding `entries`; where two share a key, the later wins.
    pub fn from_entries(entries: Vec<Alias>) -> (r: Config)
        ensures
            r@ == store_of(entries@),
            r.well_formed(),
    {
        let mut config = Config::new();
        let ghost all = entries@;
        assert(all.take(0) =~= Seq::<Alias>::empty());
        let mut k: usize = 0;
        while k < entries.len()
            invariant
                all == entries@,
                k <= all.len(),
                config@ == store_of(all.take(k as int)),
                config.well_formed(),
            decreases all.len() - k,
        {
            config.insert(entries[k].duplicate());
            proof {
                assert(all.take(k + 1).drop_last() =~= all.take(k as int));
            }
            k = k + 1;
        }
        assert(all.take(k as int) =~= all);
        config
    }

    /// The aliases in ascending key order.
    pub fn aliases(&self) -> (r: Vec<Alias>)
        ensures
            r@ == self@,
    {
        let mut r: Vec<Alias> = Vec::new();
        let mut i: usize = 0;
        while i < self.aliases.len()
            invariant
                i <= self.aliases@.len(),
                r@ == self.aliases@.take(i as int),
            decreases self.aliases@.len() - i,
        {
            r.push(self.aliases[i].duplicate());
            proof {
                assert(r@ =~= self.aliases@.take(i + 1));
            }
            i = i + 1;
        }
        assert(r@ =~= self.aliases@);
        r
    }

    /// The number of aliases.
    pub fn len(&self) -> (r: usize)
        ensures
            r == self@.len(),
    {
        self.aliases.len()
    }
}

} // verus!
