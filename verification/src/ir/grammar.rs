//! The grammar: a name, its rules in the order in which they were declared,
//! and what it ignores, extends and imports.

use crate::ir::rule::{GrammarRule, RuleView, Symbol, SymbolAlias};
use indexmap::IndexMap;
use vstd::prelude::*;

verus! {

/// The ordered map of `indexmap`.
#[verifier::external_type_specification]
#[verifier::external_body]
#[verifier::reject_recursive_types(K)]
#[verifier::reject_recursive_types(V)]
#[verifier::reject_recursive_types(S)]
pub struct ExIndexMap<K, V, S>(IndexMap<K, V, S>);

/// The keys and values that a map of rules holds, in its order.
pub uninterp spec fn rule_entries(m: IndexMap<String, GrammarRule>) -> Seq<(String, GrammarRule)>;

/// Index of the first entry with the key `key`, or the number of entries.
pub open spec fn key_index(entries: Seq<(String, GrammarRule)>, key: Seq<char>) -> int
    decreases entries.len(),
{
    if entries.len() == 0 {
        0
    } else if entries[0].0@ == key {
        0
    } else {
        1 + key_index(entries.drop_first(), key)
    }
}

/// True when no two entries have the same key.
pub open spec fn keys_unique(entries: Seq<(String, GrammarRule)>) -> bool {
    forall|i: int, j: int|
        0 <= i < j < entries.len() ==> (#[trigger] entries[i]).0@ != (#[trigger] entries[j]).0@
}

/// `IndexMap::new`: a map without entries.
#[verifier::external_body]
fn rules_new() -> (m: IndexMap<String, GrammarRule>)
    ensures
        rule_entries(m).len() == 0,
{
    IndexMap::new()
}

/// `IndexMap::len`: the number of entries.
#[verifier::external_body]
fn rules_len(m: &IndexMap<String, GrammarRule>) -> (n: usize)
    ensures
        n == rule_entries(*m).len(),
{
    m.len()
}

/// `IndexMap::get_index`: the entry at `index` in the order of the map, for
/// an index below the number of entries.
#[verifier::external_body]
fn rules_get_index(m: &IndexMap<String, GrammarRule>, index: usize) -> (r: Option<
    (&String, &GrammarRule),
>)
    ensures
        r is Some <==> index < rule_entries(*m).len(),
        r matches Some(e) ==> *e.0 == rule_entries(*m)[index as int].0 && *e.1 == rule_entries(
            *m,
        )[index as int].1,
{
    m.get_index(index)
}

/// `IndexMap::get_index_of`: the index of the entry with the key `key`, if
/// there is one.
#[verifier::external_body]
fn rules_index_of(m: &IndexMap<String, GrammarRule>, key: &str) -> (r: Option<usize>)
    ensures
        match r {
            Some(i) => i < rule_entries(*m).len() && rule_entries(*m)[i as int].0@ == key@,
            None => forall|i: int|
                0 <= i < rule_entries(*m).len() ==> (#[trigger] rule_entries(*m)[i]).0@ != key@,
        },
{
    m.get_index_of(key)
}

/// `IndexMap::insert`: where an entry has the key, its value is replaced
/// and handed back, and the key and the place stay; else the entry is added
/// as the last. No two entries of the map have the same key.
#[verifier::external_body]
fn rules_insert(m: &mut IndexMap<String, GrammarRule>, key: String, value: GrammarRule) -> (old_value:
    Option<GrammarRule>)
    ensures
        keys_unique(rule_entries(*final(m))),
        ({
            let before = rule_entries(*old(m));
            let after = rule_entries(*final(m));
            let at = key_index(before, key@);
            if at < before.len() {
                &&& after == before.update(at, (before[at].0, value))
                &&& old_value == Some(before[at].1)
            } else {
                &&& after == before.push((key, value))
                &&& old_value is None
            }
        }),
{
    m.insert(key, value)
}

/// The key of the first entry with a key is found at its index, and no
/// entry before it has the key.
pub proof fn lemma_key_index(entries: Seq<(String, GrammarRule)>, key: Seq<char>)
    ensures
        0 <= key_index(entries, key) <= entries.len(),
        key_index(entries, key) < entries.len() ==> entries[key_index(entries, key)].0@ == key,
        forall|i: int| 0 <= i < key_index(entries, key) ==> (#[trigger] entries[i]).0@ != key,
    decreases entries.len(),
{
    if entries.len() > 0 && entries[0].0@ != key {
        let rest = entries.drop_first();
        lemma_key_index(rest, key);
        assert forall|i: int| 0 <= i < key_index(entries, key) implies (#[trigger] entries[i]).0@
            != key by {
            if i > 0 {
                assert(entries[i] == rest[i - 1]);
            }
        }
    }
}

/// The rules of a grammar by name, in the order in which they were put in.
pub struct RuleMap {
    map: IndexMap<String, GrammarRule>,
}

/// A grammar.
pub struct GrammarInfo {
    /// The name of the grammar.
    pub name: Symbol,
    /// Where the grammar was read from.
    pub url: Option<String>,
    /// True when the text declared a grammar by name.
    pub is_grammar: bool,
    /// File extensions of the language.
    pub extensions: Vec<Symbol>,
    /// Names of the rules that are ignored between terms.
    pub ignores: Vec<Symbol>,
    /// What is imported: for each source, the names and their aliases.
    pub imports: Vec<(String, Vec<SymbolAlias>)>,
    /// The rules, in the order in which they were declared.
    pub rules: RuleMap,
    /// What the name of every rule starts with in emitted text.
    pub rule_prefix: String,
    /// What the name of every rule ends with in emitted text.
    pub rule_suffix: String,
    /// Named sets of tokens: for each group, the names of its rules.
    pub token_sets: Vec<(String, Vec<Symbol>)>,
}

/// The names of a row of symbols.
pub open spec fn symbol_names(s: Seq<Symbol>) -> Seq<Seq<char>> {
    Seq::new(s.len(), |i: int| s[i].name@)
}

impl RuleMap {
    /// The rules, in the order in which they were declared.
    pub closed spec fn rules(&self) -> Seq<GrammarRule> {
        Seq::new(rule_entries(self.map).len(), |i: int| rule_entries(self.map)[i].1)
    }

    /// Every rule stands under its own name, and no two rules have the same
    /// name.
    pub closed spec fn wf(&self) -> bool {
        &&& keys_unique(rule_entries(self.map))
        &&& forall|i: int|
            0 <= i < rule_entries(self.map).len() ==> (#[trigger] rule_entries(self.map)[i]).0@
                == rule_entries(self.map)[i].1.name.name@
    }

    /// The models of the rules.
    pub open spec fn rule_views(&self) -> Seq<RuleView> {
        Seq::new(self.rules().len(), |i: int| self.rules()[i]@)
    }

    /// The names of the rules.
    pub open spec fn rule_names(&self) -> Seq<Seq<char>> {
        Seq::new(self.rules().len(), |i: int| self.rules()[i].name.name@)
    }

    /// In a well-formed grammar no two rules have the same name.
    pub proof fn lemma_names_unique(&self)
        requires
            self.wf(),
        ensures
            forall|i: int, j: int|
                0 <= i < j < self.rules().len() ==> (#[trigger] self.rules()[i]).name.name@ != (
                #[trigger] self.rules()[j]).name.name@,
    {
        let e = rule_entries(self.map);
        assert forall|i: int, j: int| 0 <= i < j < self.rules().len() implies (
        #[trigger] self.rules()[i]).name.name@ != (#[trigger] self.rules()[j]).name.name@ by {
            assert(e[i].0@ != e[j].0@);
        }
    }

    /// A map without rules.
    pub fn new() -> (m: RuleMap)
        ensures
            m.wf(),
            m.rules().len() == 0,
    {
        RuleMap { map: rules_new() }
    }

    /// Number of rules.
    pub fn rule_count(&self) -> (n: usize)
        ensures
            n == self.rules().len(),
    {
        rules_len(&self.map)
    }

    /// The rule at `index` in the order of declaration.
    pub fn rule_at(&self, index: usize) -> (r: Option<&GrammarRule>)
        ensures
            r is Some <==> index < self.rules().len(),
            r matches Some(rule) ==> *rule == self.rules()[index as int],
    {
        match rules_get_index(&self.map, index) {
            Some(e) => Some(e.1),
            None => None,
        }
    }

    /// Index of the rule with the name `name`, if there is one.
    pub fn find(&self, name: &str) -> (r: Option<usize>)
        requires
            self.wf(),
        ensures
            match r {
                Some(i) => i < self.rules().len() && self.rules()[i as int].name.name@ == name@,
                None => forall|i: int|
                    0 <= i < self.rules().len() ==> (#[trigger] self.rules()[i]).name.name@
                        != name@,
            },
    {
        let r = rules_index_of(&self.map, name);
        proof {
            let e = rule_entries(self.map);
            match r {
                Some(i) => {},
                None => {
                    assert forall|i: int| 0 <= i < self.rules().len() implies (
                    #[trigger] self.rules()[i]).name.name@ != name@ by {
                        assert(e[i].0@ != name@);
                    }
                },
            }
        }
        r
    }

    /// The rule with the name `name`, if there is one.
    pub fn get(&self, name: &str) -> (r: Option<&GrammarRule>)
        requires
            self.wf(),
        ensures
            match r {
                Some(rule) => exists|i: int|
                    0 <= i < self.rules().len() && *rule == self.rules()[i] && rule.name.name@
                        == name@,
                None => forall|i: int|
                    0 <= i < self.rules().len() ==> (#[trigger] self.rules()[i]).name.name@
                        != name@,
            },
    {
        match self.find(name) {
            Some(i) => self.rule_at(i),
            None => None,
        }
    }

    /// Puts `rule` into the grammar: in the place of the rule of the same
    /// name where there is one, and else after all others.
    pub fn insert(&mut self, rule: GrammarRule)
        requires
            old(self).wf(),
        ensures
            final(self).wf(),
            final(self).rules() == inserted(old(self).rules(), rule),
    {
        let key = rule.name.name.clone();
        let ghost before = rule_entries(self.map);
        let ghost names = self.rule_names();
        proof {
            lemma_key_index(before, key@);
            lemma_same_index(before, names, key@);
        }
        let _ = rules_insert(&mut self.map, key, rule);
        proof {
            assert(self.rules() =~= inserted(old(self).rules(), rule));
        }
    }
}

impl GrammarInfo {
    /// Every rule stands under its own name, and no two rules have the same
    /// name.
    pub open spec fn wf(&self) -> bool {
        self.rules.wf()
    }

    /// The models of the rules.
    pub open spec fn rule_views(&self) -> Seq<RuleView> {
        self.rules.rule_views()
    }

    /// An unnamed grammar without rules.
    pub fn new() -> (g: GrammarInfo)
        ensures
            g.wf(),
            g.rules.rules().len() == 0,
            g.name.name@.len() == 0,
            g.name.range.start == 0,
            g.name.range.end == 0,
            g.url is None,
            !g.is_grammar,
            g.extensions@.len() == 0,
            g.ignores@.len() == 0,
            g.imports@.len() == 0,
            g.rule_prefix@.len() == 0,
            g.rule_suffix@.len() == 0,
            g.token_sets@.len() == 0,
    {
        proof {
            reveal_strlit("");
        }
        GrammarInfo {
            name: Symbol::new("", 0, 0),
            url: None,
            is_grammar: false,
            extensions: Vec::new(),
            ignores: Vec::new(),
            imports: Vec::new(),
            rules: RuleMap::new(),
            rule_prefix: String::new(),
            rule_suffix: String::new(),
            token_sets: Vec::new(),
        }
    }

    /// Puts `rule` into the grammar: in the place of the rule of the same
    /// name where there is one, and else after all others.
    pub fn insert(&mut self, rule: GrammarRule)
        requires
            old(self).wf(),
        ensures
            final(self).wf(),
            final(self).rules.rules() == inserted(old(self).rules.rules(), rule),
            final(self).name == old(self).name,
            final(self).url == old(self).url,
            final(self).is_grammar == old(self).is_grammar,
            final(self).extensions == old(self).extensions,
            final(self).ignores == old(self).ignores,
            final(self).imports == old(self).imports,
            final(self).rule_prefix == old(self).rule_prefix,
            final(self).rule_suffix == old(self).rule_suffix,
            final(self).token_sets == old(self).token_sets,
    {
        self.rules.insert(rule);
    }
}

/// Index of the first of `names` that is `name`, or the number of names.
pub open spec fn name_index(names: Seq<Seq<char>>, name: Seq<char>) -> int
    decreases names.len(),
{
    if names.len() == 0 {
        0
    } else if names[0] == name {
        0
    } else {
        1 + name_index(names.drop_first(), name)
    }
}

/// The first of `names` that is `name` is found at its index, and none
/// before it is the name.
pub proof fn lemma_name_index(names: Seq<Seq<char>>, name: Seq<char>)
    ensures
        0 <= name_index(names, name) <= names.len(),
        name_index(names, name) < names.len() ==> names[name_index(names, name)] == name,
        forall|i: int| 0 <= i < name_index(names, name) ==> (#[trigger] names[i]) != name,
    decreases names.len(),
{
    if names.len() > 0 && names[0] != name {
        let rest = names.drop_first();
        lemma_name_index(rest, name);
        assert forall|i: int| 0 <= i < name_index(names, name) implies (#[trigger] names[i])
            != name by {
            if i > 0 {
                assert(names[i] == rest[i - 1]);
            }
        }
    }
}

/// Entries whose keys are `names` have a key where the names have it.
proof fn lemma_same_index(
    entries: Seq<(String, GrammarRule)>,
    names: Seq<Seq<char>>,
    key: Seq<char>,
)
    requires
        entries.len() == names.len(),
        forall|i: int| 0 <= i < entries.len() ==> (#[trigger] entries[i]).0@ == names[i],
    ensures
        key_index(entries, key) == name_index(names, key),
    decreases entries.len(),
{
    if entries.len() > 0 {
        assert(entries[0].0@ == names[0]);
        if entries[0].0@ != key {
            let e = entries.drop_first();
            let n = names.drop_first();
            assert forall|i: int| 0 <= i < e.len() implies (#[trigger] e[i]).0@ == n[i] by {
                assert(e[i] == entries[i + 1]);
            }
            lemma_same_index(e, n, key);
        }
    }
}

/// The names of a row of rules.
pub open spec fn names_of(rules: Seq<GrammarRule>) -> Seq<Seq<char>> {
    Seq::new(rules.len(), |i: int| rules[i].name.name@)
}

/// `rules` with `rule` in the place of the first rule of the same name, or
/// after all others where there is none.
pub open spec fn inserted(rules: Seq<GrammarRule>, rule: GrammarRule) -> Seq<GrammarRule> {
    let at = name_index(names_of(rules), rule.name.name@);
    if at < rules.len() {
        rules.update(at, rule)
    } else {
        rules.push(rule)
    }
}

} // verus!
