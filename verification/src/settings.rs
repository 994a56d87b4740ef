use vstd::prelude::*;

use rand::Rng;

verus! {

pub const SETTING_FOG_OF_WAR: &'static str = "Fog of War";
pub const SETTING_RNG_SEED: &'static str = "Map RNG Seed";
pub const SETTING_BG_MUSIC: &'static str = "Background music";
pub const SETTING_RESOLUTION: &'static str = "Resolution";

pub const RESOURCE_SETTINGS_FILE: &'static str = "resources/settings.json";

/// A named setting.
pub struct Setting<T> {
    pub name: String,
    pub value: T,
}

/// Something that can be switched on and off.
pub trait Toggleable {
    fn toggle(&mut self);
}

impl Toggleable for Setting<bool> {
    /// Flips the value; the name stays.
    fn toggle(&mut self)
        ensures
            final(self).value == !old(self).value,
            final(self).name@ == old(self).name@,
    {
        self.value = !self.value;
    }
}

/// The value of the first setting of the list with the given name.
pub open spec fn setting_value<T>(settings: Seq<Setting<T>>, name: Seq<char>) -> Option<T>
    decreases settings.len(),
{
    if settings.len() == 0 {
        None
    } else if settings[0].name@ == name {
        Some(settings[0].value)
    } else {
        setting_value(settings.drop_first(), name)
    }
}

proof fn lemma_setting_value_step<T>(settings: Seq<Setting<T>>, name: Seq<char>, i: int)
    requires
        0 <= i < settings.len(),
        forall|k: int| 0 <= k < i ==> settings[k].name@ != name,
    ensures
        setting_value(settings, name) == setting_value(settings.subrange(i, settings.len() as int), name),
    decreases i,
{
    if i > 0 {
        assert(settings[0].name@ != name);
        lemma_setting_value_step(settings.drop_first(), name, i - 1);
        assert(settings.drop_first().subrange(i - 1, settings.drop_first().len() as int)
            =~= settings.subrange(i, settings.len() as int));
    } else {
        assert(settings.subrange(0, settings.len() as int) =~= settings);
    }
}

/// The index of the first setting with the given name.
fn position_of<T>(settings: &Vec<Setting<T>>, name: &String) -> (r: Option<usize>)
    ensures
        match r {
            Some(i) => i < settings@.len() && setting_value(settings@, name@) == Some(settings@[i as int].value),
            None => setting_value(settings@, name@) is None,
        },
{
    let mut i: usize = 0;
    while i < settings.len()
        invariant
            i <= settings@.len(),
            forall|k: int| 0 <= k < i ==> settings@[k].name@ != name@,
        decreases settings@.len() - i,
    {
        if settings[i].name == *name {
            proof {
                lemma_setting_value_step(settings@, name@, i as int);
                let rest = settings@.subrange(i as int, settings@.len() as int);
                assert(rest[0] == settings@[i as int]);
            }
            return Some(i);
        }
        i += 1;
    }
    proof {
        assert forall|j: int| 0 <= j <= settings@.len() implies setting_value(settings@.subrange(j, settings@.len() as int), name@) is None by {
            lemma_tail_none(settings@, name@, j);
        }
        assert(settings@.subrange(0, settings@.len() as int) =~= settings@);
    }
    None
}

proof fn lemma_tail_none<T>(settings: Seq<Setting<T>>, name: Seq<char>, j: int)
    requires
        0 <= j <= settings.len(),
        forall|k: int| 0 <= k < settings.len() ==> settings[k].name@ != name,
    ensures
        setting_value(settings.subrange(j, settings.len() as int), name) is None,
    decreases settings.len() - j,
{
    let rest = settings.subrange(j, settings.len() as int);
    if j < settings.len() {
        assert(rest[0] == settings[j]);
        lemma_tail_none(settings, name, j + 1);
        assert(rest.drop_first() =~= settings.subrange(j + 1, settings.len() as int));
    }
}

/// The game's settings of each kind, each found by its name.
pub struct Settings {
    pub bool_settings: Vec<Setting<bool>>,
    pub u32_settings: Vec<Setting<u32>>,
    pub string_settings: Vec<Setting<String>>,
}

impl Settings {
    pub fn find_string_setting_value(&self, name: String) -> (r: Option<String>)
        ensures
            match setting_value(self.string_settings@, name@) {
                Some(v) => r matches Some(s) && s@ == v@,
                None => r is None,
            },
    {
        match position_of(&self.string_settings, &name) {
            Some(i) => Some(self.string_settings[i].value.clone()),
            None => None,
        }
    }

    pub fn find_bool_setting_value(&self, name: String) -> (r: Option<bool>)
        ensures
            r == setting_value(self.bool_settings@, name@),
    {
        match position_of(&self.bool_settings, &name) {
            Some(i) => Some(self.bool_settings[i].value),
            None => None,
        }
    }

    pub fn find_u32_setting_value(&self, name: String) -> (r: Option<u32>)
        ensures
            r == setting_value(self.u32_settings@, name@),
    {
        match position_of(&self.u32_settings, &name) {
            Some(i) => Some(self.u32_settings[i].value),
            None => None,
        }
    }

    /// Whether the fog of war is on; off when the setting is missing.
    pub fn is_fog_of_war(&self) -> (r: bool)
        ensures
            r == match setting_value(self.bool_settings@, SETTING_FOG_OF_WAR@) {
                Some(v) => v,
                None => false,
            },
    {
        match self.find_bool_setting_value(SETTING_FOG_OF_WAR.to_string()) {
            Some(v) => v,
            None => false,
        }
    }

    /// The map seed, when it is set.
    pub fn get_rng_seed(&self) -> (r: Option<String>)
        ensures
            match setting_value(self.string_settings@, SETTING_RNG_SEED@) {
                Some(v) => r matches Some(s) && s@ == v@,
                None => r is None,
            },
    {
        self.find_string_setting_value(SETTING_RNG_SEED.to_string())
    }

    /// The background music volume in percent; 100 when the setting is missing.
    pub fn get_bg_music_volume(&self) -> (r: u32)
        ensures
            r == match setting_value(self.u32_settings@, SETTING_BG_MUSIC@) {
                Some(v) => v,
                None => 100,
            },
    {
        match self.find_u32_setting_value(SETTING_BG_MUSIC.to_string()) {
            Some(v) => v,
            None => 100,
        }
    }
}


/// Whether the character is an ASCII letter or digit.
pub open spec fn is_alphanumeric(c: char) -> bool {
    ('a' <= c <= 'z') || ('A' <= c <= 'Z') || ('0' <= c <= '9')
}

/// `n` characters drawn from the thread's generator with
/// `rand::distr::Alphanumeric`, which yields ASCII letters and digits. Which
/// characters come out is left open.
#[verifier::external_body]
fn random_alphanumeric(n: usize) -> (text: String)
    ensures
        text@.len() == n,
        forall|i: int| 0 <= i < n ==> is_alphanumeric(#[trigger] text@[i]),
{
    rand::rng().sample_iter(&rand::distr::Alphanumeric).take(n).map(char::from).collect()
}

/// A new random map seed of 12 letters and digits.
fn get_random_map_seed() -> (seed: String)
    ensures
        seed@.len() == 12,
        forall|i: int| 0 <= i < 12 ==> is_alphanumeric(#[trigger] seed@[i]),
{
    random_alphanumeric(12)
}

/// The map seed: the initial seed when one is given (useful for debugging),
/// else a new random one of 12 letters and digits.
pub fn get_map_seed(initial_map_seed: Option<String>) -> (seed: String)
    ensures
        match initial_map_seed {
            Some(s) => seed == s,
            None => seed@.len() == 12 && forall|i: int| 0 <= i < 12 ==> is_alphanumeric(#[trigger] seed@[i]),
        },
{
    match initial_map_seed {
        Some(s) => s,
        None => get_random_map_seed(),
    }
}

/// The settings the game starts with: the fog of war off, the map seed, and
/// the background music at its default volume.
pub fn build_settings(bg_music_volume_default: u32, initial_map_seed: Option<String>) -> (settings: Settings)
    ensures
        settings.bool_settings@.len() == 1,
        settings.bool_settings@[0].name@ == SETTING_FOG_OF_WAR@,
        settings.bool_settings@[0].value == false,
        settings.string_settings@.len() == 1,
        settings.string_settings@[0].name@ == SETTING_RNG_SEED@,
        match initial_map_seed {
            Some(s) => settings.string_settings@[0].value == s,
            None => settings.string_settings@[0].value@.len() == 12
                && forall|i: int| 0 <= i < 12 ==> is_alphanumeric(#[trigger] settings.string_settings@[0].value@[i]),
        },
        settings.u32_settings@.len() == 1,
        settings.u32_settings@[0].name@ == SETTING_BG_MUSIC@,
        settings.u32_settings@[0].value == bg_music_volume_default,
{
    let fog_of_war: Setting<bool> = Setting { name: SETTING_FOG_OF_WAR.to_string(), value: false };
    let map_seed_value = get_map_seed(initial_map_seed);
    let map_seed: Setting<String> = Setting { name: SETTING_RNG_SEED.to_string(), value: map_seed_value };
    let bg_music_volume: Setting<u32> = Setting { name: SETTING_BG_MUSIC.to_string(), value: bg_music_volume_default };
    let mut bool_settings = Vec::new();
    bool_settings.push(fog_of_war);
    let mut string_settings = Vec::new();
    string_settings.push(map_seed);
    let mut u32_settings = Vec::new();
    u32_settings.push(bg_music_volume);
    Settings { bool_settings, u32_settings, string_settings }
}

} // verus!
