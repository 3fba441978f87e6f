//! Named launch presets of the desktop companion: the saved list, the
//! preset applied at start-up, saving over a preset of the same name and
//! deleting one.
use vstd::prelude::*;

use crate::text::str_eq;

verus! {

broadcast use vstd::string::group_string_axioms;

/// A named set of launch settings.
#[derive(Debug, Clone)]
pub struct LaunchPreset {
    pub name: String,
    pub binary_path: String,
    pub config_path: String,
    pub policy_path: String,
    pub host: String,
    pub port: String,
    pub web_ui: bool,
    pub audit_mode: bool,
}

impl LaunchPreset {
    /// A copy of the preset.
    pub fn duplicate(&self) -> (r: Self)
        ensures
            r == *self,
    {
        LaunchPreset {
            name: self.name.clone(),
            binary_path: self.binary_path.clone(),
            config_path: self.config_path.clone(),
            policy_path: self.policy_path.clone(),
            host: self.host.clone(),
            port: self.port.clone(),
            web_ui: self.web_ui,
            audit_mode: self.audit_mode,
        }
    }
}

/// The presets kept between runs, and which one (if any) is applied when
/// the companion starts.
#[derive(Debug, Clone)]
pub struct PersistedState {
    pub presets: Vec<LaunchPreset>,
    /// Applied on launch when `apply_startup_preset` is set and a preset
    /// of this name exists.
    pub startup_preset_name: Option<String>,
    pub apply_startup_preset: bool,
}

impl Default for PersistedState {
    fn default() -> (r: Self)
        ensures
            r.presets@.len() == 0,
            r.startup_preset_name is None,
            !r.apply_startup_preset,
    {
        PersistedState { presets: Vec::new(), startup_preset_name: None, apply_startup_preset: false }
    }
}

/// Index of the first preset named `name`, or the length of the list when
/// no preset has that name.
pub open spec fn named_index(p: Seq<LaunchPreset>, name: Seq<char>) -> int
    decreases p.len(),
{
    if p.len() == 0 {
        0
    } else if p[0].name@ == name {
        0
    } else {
        1 + named_index(p.drop_first(), name)
    }
}

/// Whether some preset is named `name`.
pub open spec fn has_named(p: Seq<LaunchPreset>, name: Seq<char>) -> bool {
    named_index(p, name) < p.len()
}

/// The list after saving `x`: it replaces the first preset of the same
/// name, or is appended when there is none.
pub open spec fn saved(p: Seq<LaunchPreset>, x: LaunchPreset) -> Seq<LaunchPreset> {
    if has_named(p, x.name@) {
        p.update(named_index(p, x.name@), x)
    } else {
        p.push(x)
    }
}

/// No two presets share a name.
pub open spec fn distinct_names(p: Seq<LaunchPreset>) -> bool {
    forall|i: int, j: int| 0 <= i < j < p.len() ==> (#[trigger] p[i]).name@ != (#[trigger] p[j]).name@
}

/// `named_index` is the first position holding the name.
pub proof fn lemma_named_index(p: Seq<LaunchPreset>, name: Seq<char>)
    ensures
        0 <= named_index(p, name) <= p.len(),
        forall|j: int| 0 <= j < named_index(p, name) ==> (#[trigger] p[j]).name@ != name,
        named_index(p, name) < p.len() ==> p[named_index(p, name)].name@ == name,
    decreases p.len(),
{
    if p.len() > 0 && p[0].name@ != name {
        lemma_named_index(p.drop_first(), name);
        assert forall|j: int| 0 <= j < named_index(p, name) implies (#[trigger] p[j]).name@ != name by {
            if j > 0 {
                assert(p[j] == p.drop_first()[j - 1]);
            }
        }
    }
}

/// A position whose predecessors all lack the name, and which holds it or
/// is the end, is `named_index`.
pub proof fn lemma_named_index_unique(p: Seq<LaunchPreset>, name: Seq<char>, i: int)
    requires
        0 <= i <= p.len(),
        forall|j: int| 0 <= j < i ==> (#[trigger] p[j]).name@ != name,
        i < p.len() ==> p[i].name@ == name,
    ensures
        named_index(p, name) == i,
{
    lemma_named_index(p, name);
    let k = named_index(p, name);
    if k < i {
        assert(p[k].name@ != name);
    } else if i < k {
        assert(p[i].name@ != name);
    }
}

impl PersistedState {
    /// Position of the first preset named `name`.
    pub fn position(&self, name: &str) -> (r: Option<usize>)
        ensures
            has_named(self.presets@, name@) <==> r is Some,
            r matches Some(i) ==> i < self.presets@.len() && i == named_index(self.presets@, name@),
    {
        let mut i: usize = 0;
        while i < self.presets.len()
            invariant
                i <= self.presets@.len(),
                forall|j: int| 0 <= j < i ==> (#[trigger] self.presets@[j]).name@ != name@,
            decreases self.presets@.len() - i,
        {
            if str_eq(self.presets[i].name.as_str(), name) {
                proof {
                    lemma_named_index_unique(self.presets@, name@, i as int);
                }
                return Some(i);
            }
            i = i + 1;
        }
        proof {
            lemma_named_index_unique(self.presets@, name@, i as int);
        }
        None
    }

    /// The preset applied at start-up: the first one named by
    /// `startup_preset_name`, when `apply_startup_preset` is set.
    pub fn startup_preset(&self) -> (r: Option<LaunchPreset>)
        ensures
            match self.startup_preset_name {
                Some(n) if self.apply_startup_preset && has_named(self.presets@, n@) => r == Some(
                    self.presets@[named_index(self.presets@, n@)],
                ),
                _ => r is None,
            },
    {
        if !self.apply_startup_preset {
            return None;
        }
        match &self.startup_preset_name {
            Some(n) => match self.position(n.as_str()) {
                Some(i) => Some(self.presets[i].duplicate()),
                None => None,
            },
            None => None,
        }
    }

    /// Saves `p`: it replaces the first preset of the same name, or is
    /// appended.
    pub fn save_preset(&mut self, p: LaunchPreset)
        ensures
            final(self).presets@ == saved(old(self).presets@, p),
            final(self).startup_preset_name == old(self).startup_preset_name,
            final(self).apply_startup_preset == old(self).apply_startup_preset,
    {
        match self.position(p.name.as_str()) {
            Some(i) => {
                self.presets.set(i, p);
            },
            None => {
                self.presets.push(p);
            },
        }
    }

    /// Deletes the preset at `index`, if there is one, and forgets the
    /// start-up choice when it named the deleted preset.
    pub fn delete_preset(&mut self, index: usize) -> (r: Option<LaunchPreset>)
        ensures
            index < old(self).presets@.len() ==> {
                &&& r == Some(old(self).presets@[index as int])
                &&& final(self).presets@ == old(self).presets@.remove(index as int)
                &&& final(self).startup_preset_name == (match old(self).startup_preset_name {
                    Some(n) if n@ == old(self).presets@[index as int].name@ => None,
                    other => other,
                })
            },
            index >= old(self).presets@.len() ==> r is None && *final(self) == *old(self),
            final(self).apply_startup_preset == old(self).apply_startup_preset,
    {
        if index >= self.presets.len() {
            return None;
        }
        let removed = self.presets.remove(index);
        let clear = match &self.startup_preset_name {
            Some(n) => str_eq(n.as_str(), removed.name.as_str()),
            None => false,
        };
        if clear {
            self.startup_preset_name = None;
        }
        Some(removed)
    }
}

/// After a save, the first preset of the saved name is the saved preset.
pub proof fn law_saved_preset_is_found(p: Seq<LaunchPreset>, x: LaunchPreset)
    ensures
        has_named(saved(p, x), x.name@),
        saved(p, x)[named_index(saved(p, x), x.name@)] == x,
        saved(p, x).len() == (if has_named(p, x.name@) { p.len() } else { p.len() + 1 }),
{
    lemma_named_index(p, x.name@);
    let k = named_index(p, x.name@);
    let s = saved(p, x);
    assert forall|j: int| 0 <= j < k implies (#[trigger] s[j]).name@ != x.name@ by {
        assert(s[j] == p[j]);
    }
    lemma_named_index_unique(s, x.name@, k);
}

/// Saving keeps the names of the presets distinct.
pub proof fn law_save_keeps_names_distinct(p: Seq<LaunchPreset>, x: LaunchPreset)
    requires
        distinct_names(p),
    ensures
        distinct_names(saved(p, x)),
{
    lemma_named_index(p, x.name@);
    let k = named_index(p, x.name@);
    let s = saved(p, x);
    assert forall|i: int, j: int| 0 <= i < j < s.len() implies (#[trigger] s[i]).name@ != (#[trigger] s[j]).name@ by {
        if has_named(p, x.name@) {
            if i == k {
                assert(p[k].name@ == x.name@);
                assert(p[i].name@ != p[j].name@);
            } else if j == k {
                assert(p[i].name@ != p[j].name@);
            } else {
                assert(p[i].name@ != p[j].name@);
            }
        } else {
            if j == p.len() {
                assert(s[i] == p[i]);
                assert(i < k);
            } else {
                assert(p[i].name@ != p[j].name@);
            }
        }
    }
}

} // verus!
