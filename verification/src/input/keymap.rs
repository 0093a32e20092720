//! [`Keymap`]: a preset plus optional per-key overrides, resolving a physical
//! [`KeyCode`] to the raw code the game expects.
//!
//! Look-up order for a physical key is: an explicit override wins (including
//! an explicit *unbind*); otherwise the preset decides; a key neither side
//! binds resolves to `None` and the host drops it.

use vstd::prelude::*;
use crate::device::{key_code_spec, HandsetKey, InputFragment};
use crate::device_nokia::{key_code as nokia_handset_code, nokia_key_code};
use crate::input::config::{parse, parse_spec, ConfigError, KeyBinding};
use crate::input::nokia::{in_vocabulary, is_vocabulary, DOWN, FIRE, LEFT, POUND, RIGHT, SOFT_LEFT, SOFT_RIGHT, STAR, UP};
use crate::input::preset::{preset_code, Preset};
use crate::input::KeyCode;
use crate::text::{decimal_spec, with_decimal};

verus! {

/// The overrides as a map: each entry replaces any earlier one for its key.
pub open spec fn overrides_map(v: Seq<(KeyCode, Option<KeyBinding>)>) -> Map<KeyCode, Option<KeyBinding>>
    decreases v.len(),
{
    if v.len() == 0 {
        Map::empty()
    } else {
        overrides_map(v.drop_last()).insert(v.last().0, v.last().1)
    }
}

/// No key occurs twice.
pub open spec fn distinct_keys(v: Seq<(KeyCode, Option<KeyBinding>)>) -> bool {
    forall|i: int, j: int| 0 <= i < j < v.len() ==> v[i].0 != v[j].0
}

proof fn lemma_overrides_map(v: Seq<(KeyCode, Option<KeyBinding>)>)
    requires
        distinct_keys(v),
    ensures
        forall|k: KeyCode| overrides_map(v).dom().contains(k) <==> exists|i: int| 0 <= i < v.len() && #[trigger] v[i].0 == k,
        forall|i: int| 0 <= i < v.len() ==> overrides_map(v)[#[trigger] v[i].0] == v[i].1,
    decreases v.len(),
{
    if v.len() > 0 {
        let w = v.drop_last();
        lemma_overrides_map(w);
        assert forall|k: KeyCode| overrides_map(v).dom().contains(k) implies exists|i: int|
            0 <= i < v.len() && #[trigger] v[i].0 == k by {
            if k != v.last().0 {
                assert(overrides_map(w).dom().contains(k));
                let i = choose|i: int| 0 <= i < w.len() && #[trigger] w[i].0 == k;
                assert(w[i] == v[i]);
                assert(v[i].0 == k);
            } else {
                assert(v[v.len() - 1].0 == k);
            }
        }
        assert forall|i: int| 0 <= i < v.len() implies overrides_map(v)[#[trigger] v[i].0] == v[i].1 by {
            if i < v.len() - 1 {
                assert(w[i] == v[i]);
                assert(v[i].0 != v[v.len() - 1].0);
            }
        }
        assert forall|k: KeyCode| (exists|i: int| 0 <= i < v.len() && #[trigger] v[i].0 == k) implies overrides_map(
            v,
        ).dom().contains(k) by {
            let i = choose|i: int| 0 <= i < v.len() && #[trigger] v[i].0 == k;
            if i < v.len() - 1 {
                assert(w[i] == v[i]);
            }
        }
    }
}

/// The handset key that a Nokia code stands for.
pub open spec fn nokia_handset(code: i32) -> Option<HandsetKey> {
    if code == UP {
        Some(HandsetKey::Up)
    } else if code == DOWN {
        Some(HandsetKey::Down)
    } else if code == LEFT {
        Some(HandsetKey::Left)
    } else if code == RIGHT {
        Some(HandsetKey::Right)
    } else if code == FIRE {
        Some(HandsetKey::Fire)
    } else if code == SOFT_LEFT {
        Some(HandsetKey::SoftLeft)
    } else if code == SOFT_RIGHT {
        Some(HandsetKey::SoftRight)
    } else if code == STAR {
        Some(HandsetKey::Star)
    } else if code == POUND {
        Some(HandsetKey::Pound)
    } else if 48 <= code <= 57 {
        Some(HandsetKey::Digit((code - 48) as u8))
    } else {
        None
    }
}

fn handset_of_code(code: i32) -> (r: Option<HandsetKey>)
    ensures
        r == nokia_handset(code),
{
    if code == UP {
        Some(HandsetKey::Up)
    } else if code == DOWN {
        Some(HandsetKey::Down)
    } else if code == LEFT {
        Some(HandsetKey::Left)
    } else if code == RIGHT {
        Some(HandsetKey::Right)
    } else if code == FIRE {
        Some(HandsetKey::Fire)
    } else if code == SOFT_LEFT {
        Some(HandsetKey::SoftLeft)
    } else if code == SOFT_RIGHT {
        Some(HandsetKey::SoftRight)
    } else if code == STAR {
        Some(HandsetKey::Star)
    } else if code == POUND {
        Some(HandsetKey::Pound)
    } else if 48 <= code && code <= 57 {
        Some(HandsetKey::Digit((code - 48) as u8))
    } else {
        None
    }
}

/// The Nokia code a binding delivers; `None` for an unbind.
pub open spec fn binding_nokia_code(binding: Option<KeyBinding>) -> Option<i32> {
    match binding {
        None => None,
        Some(KeyBinding::Raw(code)) => Some(code),
        Some(KeyBinding::Handset(key)) => nokia_key_code(key),
    }
}

/// The raw code a binding delivers on a device whose keys `profile` codes.
pub open spec fn binding_raw_code(binding: Option<KeyBinding>, profile: InputFragment) -> Option<i32> {
    match binding {
        None => None,
        Some(KeyBinding::Raw(code)) => Some(code),
        Some(KeyBinding::Handset(key)) => key_code_spec(profile, key),
    }
}

/// The raw code the preset gives `key` on a device whose keys `profile` codes:
/// the preset names a Nokia key, which the profile codes.
pub open spec fn preset_raw_code(preset: Preset, key: KeyCode, profile: InputFragment) -> Option<i32> {
    match preset_code(preset, key) {
        None => None,
        Some(code) => match nokia_handset(code) {
            None => None,
            Some(h) => key_code_spec(profile, h),
        },
    }
}

/// A resolved key map: a base [`Preset`] with an override layer on top.
#[derive(Clone, Debug)]
pub struct Keymap {
    preset: Preset,
    /// `Some(binding)` rebinds a key; `None` explicitly unbinds it. No key
    /// occurs twice.
    overrides: Vec<(KeyCode, Option<KeyBinding>)>,
}

impl Keymap {
    /// The preset and the overrides, keyed by physical key.
    pub closed spec fn view_preset(&self) -> Preset {
        self.preset
    }

    pub closed spec fn view_overrides(&self) -> Map<KeyCode, Option<KeyBinding>> {
        overrides_map(self.overrides@)
    }

    /// The map's invariant: no key is overridden twice.
    pub closed spec fn wf(&self) -> bool {
        distinct_keys(self.overrides@)
    }

    /// The Nokia code the map resolves `key` to.
    pub open spec fn nokia_code_spec(&self, key: KeyCode) -> Option<i32> {
        if self.view_overrides().dom().contains(key) {
            binding_nokia_code(self.view_overrides()[key])
        } else {
            preset_code(self.view_preset(), key)
        }
    }

    /// The raw code the map resolves `key` to on a device whose keys
    /// `profile` codes.
    pub open spec fn raw_code_spec(&self, key: KeyCode, profile: InputFragment) -> Option<i32> {
        if self.view_overrides().dom().contains(key) {
            binding_raw_code(self.view_overrides()[key], profile)
        } else {
            preset_raw_code(self.view_preset(), key, profile)
        }
    }

    /// A map that uses `preset` with no overrides.
    pub fn new(preset: Preset) -> (r: Keymap)
        ensures
            r.wf(),
            r.view_preset() == preset,
            r.view_overrides() == Map::<KeyCode, Option<KeyBinding>>::empty(),
    {
        Keymap { preset, overrides: Vec::new() }
    }

    /// The base preset this map falls back to.
    pub fn preset(&self) -> (r: Preset)
        ensures
            r == self.view_preset(),
    {
        self.preset
    }

    /// The override for `key`, if there is one.
    fn find(&self, key: KeyCode) -> (r: Option<usize>)
        requires
            self.wf(),
        ensures
            match r {
                Some(i) => i < self.overrides@.len() && self.overrides@[i as int].0 == key
                    && self.view_overrides().dom().contains(key) && self.view_overrides()[key]
                    == self.overrides@[i as int].1,
                None => !self.view_overrides().dom().contains(key),
            },
    {
        proof {
            lemma_overrides_map(self.overrides@);
        }
        let mut i: usize = 0;
        while i < self.overrides.len()
            invariant
                self.wf(),
                i <= self.overrides@.len(),
                forall|j: int| 0 <= j < i ==> self.overrides@[j].0 != key,
            decreases self.overrides@.len() - i,
        {
            if self.overrides[i].0 == key {
                proof {
                    lemma_overrides_map(self.overrides@);
                }
                return Some(i);
            }
            i += 1;
        }
        None
    }

    /// The Nokia code for `key`, or `None` if nothing binds it.
    pub fn nokia_code(&self, key: KeyCode) -> (r: Option<i32>)
        requires
            self.wf(),
        ensures
            r == self.nokia_code_spec(key),
    {
        match self.find(key) {
            Some(i) => match self.overrides[i].1 {
                None => None,
                Some(KeyBinding::Raw(code)) => Some(code),
                Some(KeyBinding::Handset(h)) => nokia_handset_code(h),
            },
            None => self.preset.nokia_code(key),
        }
    }

    /// The raw code for `key` on a device whose keys `profile` codes, or
    /// `None` if nothing binds it or the device has no such key.
    pub fn raw_code(&self, key: KeyCode, profile: &InputFragment) -> (r: Option<i32>)
        requires
            self.wf(),
        ensures
            r == self.raw_code_spec(key, *profile),
    {
        match self.find(key) {
            Some(i) => match self.overrides[i].1 {
                None => None,
                Some(KeyBinding::Raw(code)) => Some(code),
                Some(KeyBinding::Handset(h)) => profile.key_code(h),
            },
            None => match self.preset.nokia_code(key) {
                None => None,
                Some(code) => match handset_of_code(code) {
                    None => None,
                    Some(h) => profile.key_code(h),
                },
            },
        }
    }

    /// Set the override for `key`.
    fn set_override(&mut self, key: KeyCode, binding: Option<KeyBinding>)
        requires
            old(self).wf(),
        ensures
            final(self).wf(),
            final(self).view_preset() == old(self).view_preset(),
            final(self).view_overrides() == old(self).view_overrides().insert(key, binding),
    {
        let ghost before = self.overrides@;
        proof {
            lemma_overrides_map(before);
        }
        match self.find(key) {
            Some(i) => {
                self.overrides.set(i, (key, binding));
                proof {
                    let after = self.overrides@;
                    assert(distinct_keys(after)) by {
                        assert forall|a: int, b: int| 0 <= a < b < after.len() implies after[a].0 != after[b].0 by {
                            assert(before[a].0 != before[b].0);
                        }
                    }
                    lemma_overrides_map(after);
                    assert forall|k: KeyCode| overrides_map(after).dom().contains(k) <==> overrides_map(
                        before,
                    ).insert(key, binding).dom().contains(k) by {
                        if exists|j: int| 0 <= j < before.len() && #[trigger] before[j].0 == k {
                            let j = choose|j: int| 0 <= j < before.len() && #[trigger] before[j].0 == k;
                            assert(after[j].0 == k);
                        }
                        if exists|j: int| 0 <= j < after.len() && #[trigger] after[j].0 == k {
                            let j = choose|j: int| 0 <= j < after.len() && #[trigger] after[j].0 == k;
                            assert(before[j].0 == k);
                        }
                    }
                    assert forall|k: KeyCode| #[trigger] overrides_map(after).dom().contains(k) implies overrides_map(
                        after,
                    )[k] == overrides_map(before).insert(key, binding)[k] by {
                        let j = choose|j: int| 0 <= j < after.len() && #[trigger] after[j].0 == k;
                        assert(before[j].0 == k);
                    }
                    assert(overrides_map(after) =~= overrides_map(before).insert(key, binding));
                }
            },
            None => {
                self.overrides.push((key, binding));
                proof {
                    let after = self.overrides@;
                    assert(after.drop_last() =~= before);
                    assert(distinct_keys(after)) by {
                        assert forall|a: int, b: int| 0 <= a < b < after.len() implies after[a].0 != after[b].0 by {
                            if b == after.len() - 1 {
                                assert(after[a] == before[a]);
                                assert(overrides_map(before)[before[a].0] == before[a].1);
                            }
                        }
                    }
                }
            },
        }
    }

    /// Override `key` to deliver `code`. Chainable.
    pub fn bind(&mut self, key: KeyCode, code: i32) -> (r: &mut Self)
        requires
            old(self).wf(),
        ensures
            r.wf(),
            r.view_preset() == old(self).view_preset(),
            r.view_overrides() == old(self).view_overrides().insert(key, Some(KeyBinding::Raw(code))),
            *final(self) == *final(r),
    {
        self.set_override(key, Some(KeyBinding::Raw(code)));
        self
    }

    /// Explicitly unbind `key` so it resolves to `None` even if the preset
    /// binds it. Chainable.
    pub fn unbind(&mut self, key: KeyCode) -> (r: &mut Self)
        requires
            old(self).wf(),
        ensures
            r.wf(),
            r.view_preset() == old(self).view_preset(),
            r.view_overrides() == old(self).view_overrides().insert(key, None),
            *final(self) == *final(r),
    {
        self.set_override(key, None);
        self
    }

    /// Build a map from an optional config, falling back to `default_preset`
    /// when the config is absent or does not set its own `preset`. A config
    /// that does not parse, or that binds a raw code outside the Nokia key
    /// vocabulary, is an error.
    pub fn from_config(config: Option<&str>, default_preset: Preset) -> (r: Result<Keymap, ConfigError>)
        ensures
            match config {
                None => r matches Ok(km) && km.wf() && km.view_preset() == default_preset && km.view_overrides()
                    == Map::<KeyCode, Option<KeyBinding>>::empty(),
                Some(text) => match parse_spec(text@) {
                    Err((l, m)) => r matches Err(e) && e.line == l && e.message@ == m,
                    Ok(st) => match first_bad_raw(st.bindings, 0) {
                        Some(i) => r matches Err(e) && e.line == st.lines[i] && e.message@ == bad_raw_message(
                            st.bindings[i].1,
                        ),
                        None => r matches Ok(km) && km.wf() && km.view_preset() == (match st.preset {
                            Some(p) => p,
                            None => default_preset,
                        }) && km.view_overrides() == overrides_map(st.bindings),
                    },
                },
            },
    {
        let text = match config {
            None => return Ok(Keymap::new(default_preset)),
            Some(text) => text,
        };
        let parsed = match parse(text) {
            Ok(parsed) => parsed,
            Err(e) => return Err(e),
        };
        let ghost st = parse_spec(text@)->Ok_0;
        let mut map = Keymap::new(
            match parsed.preset {
                Some(p) => p,
                None => default_preset,
            },
        );
        let mut i: usize = 0;
        proof {
            assert(parsed.bindings@.subrange(0, 0) =~= Seq::<(KeyCode, Option<KeyBinding>)>::empty());
        }
        while i < parsed.bindings.len()
            invariant
                config == Some(text),
                parse_spec(text@) == Ok::<_, (int, Seq<char>)>(st),
                i <= parsed.bindings@.len(),
                parsed.bindings@ == st.bindings,
                parsed.lines@.len() == parsed.bindings@.len(),
                parsed.lines@.map_values(|l: usize| l as int) == st.lines,
                first_bad_raw(st.bindings, 0) == first_bad_raw(st.bindings, i as int),
                map.wf(),
                map.view_preset() == (match st.preset {
                    Some(p) => p,
                    None => default_preset,
                }),
                map.view_overrides() == overrides_map(st.bindings.subrange(0, i as int)),
            decreases parsed.bindings@.len() - i,
        {
            let (key, binding) = parsed.bindings[i];
            if let Some(KeyBinding::Raw(code)) = binding {
                if !is_vocabulary(code) {
                    let mut message = with_decimal("raw code `", code as i64);
                    message.append("` is not in the Nokia key vocabulary");
                    proof {
                        assert(st.lines[i as int] == parsed.lines@[i as int] as int);
                    }
                    return Err(ConfigError { line: parsed.lines[i], message });
                }
            }
            map.set_override(key, binding);
            proof {
                assert(st.bindings.subrange(0, i + 1).drop_last() =~= st.bindings.subrange(0, i as int));
            }
            i += 1;
        }
        proof {
            assert(st.bindings.subrange(0, i as int) =~= st.bindings);
        }
        Ok(map)
    }

    /// Build a map from a config string, using the config's own `preset` or
    /// the library default ([`Preset::Mobile`]) when it sets none.
    pub fn from_config_str(config: &str) -> (r: Result<Keymap, ConfigError>)
        ensures
            match parse_spec(config@) {
                Err((l, m)) => r matches Err(e) && e.line == l && e.message@ == m,
                Ok(st) => match first_bad_raw(st.bindings, 0) {
                    Some(i) => r matches Err(e) && e.line == st.lines[i] && e.message@ == bad_raw_message(
                        st.bindings[i].1,
                    ),
                    None => r matches Ok(km) && km.wf() && km.view_preset() == (match st.preset {
                        Some(p) => p,
                        None => Preset::Mobile,
                    }) && km.view_overrides() == overrides_map(st.bindings),
                },
            },
    {
        Keymap::from_config(Some(config), Preset::Mobile)
    }
}

impl Default for Keymap {
    /// The [`Preset::Mobile`] preset with no overrides.
    fn default() -> (r: Keymap)
        ensures
            r.wf(),
            r.view_preset() == Preset::Mobile,
            r.view_overrides() == Map::<KeyCode, Option<KeyBinding>>::empty(),
    {
        Keymap::new(Preset::Mobile)
    }
}

/// Whether a binding is a raw code outside the Nokia key vocabulary.
pub open spec fn is_bad_raw(binding: Option<KeyBinding>) -> bool {
    binding matches Some(KeyBinding::Raw(code)) && !in_vocabulary(code)
}

/// The index of the first binding from `i` on that is a raw code outside the
/// Nokia key vocabulary.
pub open spec fn first_bad_raw(b: Seq<(KeyCode, Option<KeyBinding>)>, i: int) -> Option<int>
    decreases b.len() - i,
{
    if i < 0 || i >= b.len() {
        None
    } else if is_bad_raw(b[i].1) {
        Some(i)
    } else {
        first_bad_raw(b, i + 1)
    }
}

/// The message for a raw code outside the Nokia key vocabulary.
pub open spec fn bad_raw_message(binding: Option<KeyBinding>) -> Seq<char> {
    match binding {
        Some(KeyBinding::Raw(code)) => "raw code `"@ + decimal_spec(code as int) + "` is not in the Nokia key vocabulary"@,
        _ => Seq::empty(),
    }
}

/// An override decides its key and leaves every other key alone: after
/// `key` is bound to deliver `code` (or unbound), the map resolves `key` to
/// `code` (or to nothing), whatever the preset says, and resolves every other
/// key as before.
pub proof fn lemma_override_wins(before: Keymap, after: Keymap, key: KeyCode, binding: Option<KeyBinding>)
    requires
        after.view_preset() == before.view_preset(),
        after.view_overrides() == before.view_overrides().insert(key, binding),
    ensures
        after.nokia_code_spec(key) == binding_nokia_code(binding),
        forall|k: KeyCode| k != key ==> after.nokia_code_spec(k) == before.nokia_code_spec(k),
        forall|k: KeyCode, profile: InputFragment| k != key ==> after.raw_code_spec(k, profile)
            == before.raw_code_spec(k, profile),
{
}

} // verus!
