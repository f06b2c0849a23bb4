//! Which model profile serves each role: an explicit mapping, a namespace
//! default, then the registry's default profile.
use vstd::prelude::*;
use crate::execution_graph::types::strs_view;
use crate::text::{join2, str_eq};

verus! {

/// The value bound to `k`, the latest binding winning.
pub open spec fn lookup(ks: Seq<Seq<char>>, vs: Seq<Seq<char>>, k: Seq<char>) -> Option<Seq<char>>
    decreases ks.len(),
{
    if ks.len() == 0 {
        None
    } else if ks.last() == k {
        Some(vs[ks.len() - 1])
    } else {
        lookup(ks.drop_last(), vs, k)
    }
}

proof fn lemma_lookup_update(ks: Seq<Seq<char>>, vs: Seq<Seq<char>>, i: int, v: Seq<char>, k: Seq<char>)
    requires
        0 <= i < ks.len(),
        ks.len() <= vs.len(),
        forall|a: int, b: int| 0 <= a < b < ks.len() ==> ks[a] != ks[b],
    ensures
        lookup(ks, vs.update(i, v), k) == if ks[i] == k {
            Some(v)
        } else {
            lookup(ks, vs, k)
        },
    decreases ks.len(),
{
    if i == ks.len() - 1 {
        if ks.last() != k {
            lemma_lookup_prefix(ks.drop_last(), vs.update(i, v), vs, k);
        }
    } else {
        if ks.last() == k {
            assert(ks[i] != ks[ks.len() - 1]);
        } else {
            lemma_lookup_update(ks.drop_last(), vs, i, v, k);
        }
    }
}

proof fn lemma_lookup_prefix(ks: Seq<Seq<char>>, a: Seq<Seq<char>>, b: Seq<Seq<char>>, k: Seq<char>)
    requires
        ks.len() <= a.len(),
        ks.len() <= b.len(),
        forall|j: int| 0 <= j < ks.len() ==> a[j] == b[j],
    ensures
        lookup(ks, a, k) == lookup(ks, b, k),
    decreases ks.len(),
{
    if ks.len() > 0 && ks.last() != k {
        lemma_lookup_prefix(ks.drop_last(), a, b, k);
    }
}

proof fn lemma_lookup_found(ks: Seq<Seq<char>>, vs: Seq<Seq<char>>, k: Seq<char>)
    ensures
        lookup(ks, vs, k) is Some <==> ks.contains(k),
    decreases ks.len(),
{
    if ks.len() > 0 {
        lemma_lookup_found(ks.drop_last(), vs, k);
        if ks.last() != k {
            assert(ks.contains(k) ==> ks.drop_last().contains(k)) by {
                if ks.contains(k) {
                    let j = choose|j: int| 0 <= j < ks.len() && ks[j] == k;
                    assert(j < ks.len() - 1);
                    assert(ks.drop_last()[j] == k);
                }
            }
            assert(ks.drop_last().contains(k) ==> ks.contains(k)) by {
                if ks.drop_last().contains(k) {
                    let j = choose|j: int| 0 <= j < ks.len() - 1 && ks.drop_last()[j] == k;
                    assert(ks[j] == k);
                }
            }
        } else {
            assert(ks[ks.len() - 1] == k);
        }
    }
}

/// The profile name for `role`: its own mapping, else the mapping of its
/// namespace's `default` role, else the default profile.
pub open spec fn profile_for(mapping: Map<Seq<char>, Seq<char>>, default_profile: Seq<char>, role: Seq<char>) -> Seq<char> {
    if mapping.dom().contains(role) {
        mapping[role]
    } else if role.contains('.') {
        let dot = choose|i: int| 0 <= i < role.len() && role[i] == '.' && forall|j: int| 0 <= j < i ==> role[j] != '.';
        let wild = role.subrange(0, dot) + ".default"@;
        if mapping.dom().contains(wild) {
            mapping[wild]
        } else {
            default_profile
        }
    } else {
        default_profile
    }
}

/// Role to profile routing for model clients.
#[derive(Debug)]
pub struct LlmRegistry {
    roles: Vec<String>,
    profiles: Vec<String>,
    default_profile: String,
}

pub struct LlmRegistryView {
    pub role_mapping: Map<Seq<char>, Seq<char>>,
    pub default_profile: Seq<char>,
}

impl View for LlmRegistry {
    type V = LlmRegistryView;

    closed spec fn view(&self) -> LlmRegistryView {
        let ks = strs_view(self.roles@);
        let vs = strs_view(self.profiles@);
        LlmRegistryView {
            role_mapping: Map::new(|k: Seq<char>| lookup(ks, vs, k) is Some, |k: Seq<char>| lookup(ks, vs, k)->0),
            default_profile: self.default_profile@,
        }
    }
}

impl LlmRegistry {
    /// Every role is mapped once.
    pub closed spec fn wf(&self) -> bool {
        &&& self.roles@.len() == self.profiles@.len()
        &&& forall|a: int, b: int| 0 <= a < b < self.roles@.len() ==> self.roles@[a]@ != self.roles@[b]@
    }

    /// No role is mapped; every role goes to the profile `default`.
    pub fn new() -> (r: Self)
        ensures
            r.wf(),
            r@.role_mapping == Map::<Seq<char>, Seq<char>>::empty(),
            r@.default_profile == "default"@,
    {
        let r = LlmRegistry { roles: Vec::new(), profiles: Vec::new(), default_profile: "default".to_owned() };
        proof {
            assert(r@.role_mapping =~= Map::<Seq<char>, Seq<char>>::empty());
        }
        r
    }

    /// Maps `role` to `profile`, replacing any earlier mapping.
    pub fn set_role(&mut self, role: &str, profile: &str)
        requires
            old(self).wf(),
        ensures
            final(self).wf(),
            final(self)@.role_mapping == old(self)@.role_mapping.insert(role@, profile@),
            final(self)@.default_profile == old(self)@.default_profile,
    {
        let ghost ks = strs_view(self.roles@);
        let ghost vs = strs_view(self.profiles@);
        let ghost before = self@.role_mapping;
        let mut i: usize = 0;
        while i < self.roles.len()
            invariant
                i <= self.roles@.len(),
                self.wf(),
                ks == strs_view(self.roles@),
                vs == strs_view(self.profiles@),
                before == old(self)@.role_mapping,
                self.roles@ == old(self).roles@,
                self.profiles@ == old(self).profiles@,
                self.default_profile == old(self).default_profile,
                forall|q: int| 0 <= q < i ==> self.roles@[q]@ != role@,
            decreases self.roles@.len() - i,
        {
            if str_eq(self.roles[i].as_str(), role) {
                self.profiles.set(i, profile.to_owned());
                proof {
                    let vs2 = strs_view(self.profiles@);
                    assert(vs2 =~= vs.update(i as int, profile@));
                    assert forall|k: Seq<char>| #![auto] lookup(ks, vs2, k) == if ks[i as int] == k {
                        Some(profile@)
                    } else {
                        lookup(ks, vs, k)
                    } by {
                        lemma_lookup_update(ks, vs, i as int, profile@, k);
                    }
                    assert(self@.role_mapping =~= before.insert(role@, profile@));
                }
                return;
            }
            i += 1;
        }
        proof {
            lemma_lookup_found(ks, vs, role@);
            assert(!ks.contains(role@)) by {
                if ks.contains(role@) {
                    let j = choose|j: int| 0 <= j < ks.len() && ks[j] == role@;
                    assert(self.roles@[j]@ == role@);
                }
            }
        }
        self.roles.push(role.to_owned());
        self.profiles.push(profile.to_owned());
        proof {
            let ks2 = strs_view(self.roles@);
            let vs2 = strs_view(self.profiles@);
            assert(ks2 =~= ks.push(role@));
            assert(vs2 =~= vs.push(profile@));
            assert forall|k: Seq<char>| #![auto] lookup(ks2, vs2, k) == if k == role@ {
                Some(profile@)
            } else {
                lookup(ks, vs, k)
            } by {
                assert(ks2.drop_last() =~= ks);
                if k != role@ {
                    lemma_lookup_prefix(ks, vs2, vs, k);
                }
            }
            assert forall|a: int, b: int| 0 <= a < b < self.roles@.len() implies self.roles@[a]@ != self.roles@[b]@ by {
                if b == ks.len() {
                    assert(ks[a] == self.roles@[a]@);
                }
            }
            assert(self@.role_mapping =~= before.insert(role@, profile@));
        }
    }

    /// Makes `profile` the profile of every unmapped role.
    pub fn set_default(&mut self, profile: &str)
        requires
            old(self).wf(),
        ensures
            final(self).wf(),
            final(self)@.role_mapping == old(self)@.role_mapping,
            final(self)@.default_profile == profile@,
    {
        self.default_profile = profile.to_owned();
    }

    fn mapped(&self, role: &str) -> (r: Option<&String>)
        requires
            self.wf(),
        ensures
            match r {
                Some(p) => self@.role_mapping.dom().contains(role@) && self@.role_mapping[role@] == p@,
                None => !self@.role_mapping.dom().contains(role@),
            },
    {
        let ghost ks = strs_view(self.roles@);
        let ghost vs = strs_view(self.profiles@);
        let mut i: usize = 0;
        while i < self.roles.len()
            invariant
                i <= self.roles@.len(),
                self.wf(),
                ks == strs_view(self.roles@),
                vs == strs_view(self.profiles@),
                forall|q: int| 0 <= q < i ==> self.roles@[q]@ != role@,
            decreases self.roles@.len() - i,
        {
            if str_eq(self.roles[i].as_str(), role) {
                proof {
                    let vs2 = vs.update(i as int, vs[i as int]);
                    assert(vs2 =~= vs);
                    lemma_lookup_update(ks, vs, i as int, vs[i as int], role@);
                }
                return Some(&self.profiles[i]);
            }
            i += 1;
        }
        proof {
            lemma_lookup_found(ks, vs, role@);
            if ks.contains(role@) {
                let j = choose|j: int| 0 <= j < ks.len() && ks[j] == role@;
                assert(self.roles@[j]@ == role@);
            }
        }
        None
    }

    /// Resolves a role to a profile name: `worker.x` falls back to
    /// `worker.default`, then to the default profile.
    pub fn profile_for_role(&self, role: &str) -> (p: &str)
        requires
            self.wf(),
        ensures
            p@ == profile_for(self@.role_mapping, self@.default_profile, role@),
    {
        match self.mapped(role) {
            Some(p) => {
                return p.as_str();
            },
            None => {},
        }
        let cs = crate::text::chars_of(role);
        let mut i: usize = 0;
        while i < cs.len() && cs[i] != '.'
            invariant
                i <= cs@.len(),
                cs@ == role@,
                forall|j: int| 0 <= j < i ==> role@[j] != '.',
            decreases cs@.len() - i,
        {
            i += 1;
        }
        if i == cs.len() {
            proof {
                assert(!role@.contains('.')) by {
                    if role@.contains('.') {
                        let j = choose|j: int| 0 <= j < role@.len() && role@[j] == '.';
                        assert(role@[j] != '.');
                    }
                }
            }
            return self.default_profile.as_str();
        }
        let mut prefix: Vec<char> = Vec::new();
        let mut j: usize = 0;
        while j < i
            invariant
                j <= i,
                i < cs@.len(),
                cs@ == role@,
                prefix@ == role@.subrange(0, j as int),
            decreases i - j,
        {
            prefix.push(cs[j]);
            proof {
                assert(prefix@ =~= role@.subrange(0, j + 1));
            }
            j += 1;
        }
        let ns = crate::text::string_of(&prefix);
        let wild = join2(ns.as_str(), ".default");
        proof {
            assert(role@[i as int] == '.');
            assert(role@.contains('.'));
            let dot = choose|d: int| 0 <= d < role@.len() && role@[d] == '.' && forall|q: int| 0 <= q < d ==> role@[q] != '.';
            assert(dot == i) by {
                if dot < i {
                    assert(role@[dot] != '.');
                } else if dot > i {
                    assert(role@[i as int] != '.');
                }
            }
        }
        match self.mapped(wild.as_str()) {
            Some(p) => p.as_str(),
            None => self.default_profile.as_str(),
        }
    }
}

} // verus!
