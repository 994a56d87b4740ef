use arq::input::{key_to_side, Key};
use arq::position::{Area, Position, Side};
use arq::settings::{Setting, Settings, Toggleable, SETTING_BG_MUSIC, SETTING_FOG_OF_WAR, SETTING_RNG_SEED};
use arq::ui::{build_container_widget_area, UIArea};

fn build_settings(fog: bool, volume: u32, seed: &str) -> Settings {
    Settings {
        bool_settings: vec![Setting { name: SETTING_FOG_OF_WAR.to_string(), value: fog }],
        u32_settings: vec![Setting { name: SETTING_BG_MUSIC.to_string(), value: volume }],
        string_settings: vec![Setting { name: SETTING_RNG_SEED.to_string(), value: seed.to_string() }],
    }
}

#[test]
fn test_find_setting_values() {
    let settings = build_settings(true, 42, "abc");
    assert_eq!(Some(true), settings.find_bool_setting_value(SETTING_FOG_OF_WAR.to_string()));
    assert_eq!(Some(42), settings.find_u32_setting_value(SETTING_BG_MUSIC.to_string()));
    assert_eq!(Some("abc".to_string()), settings.find_string_setting_value(SETTING_RNG_SEED.to_string()));
    assert_eq!(None, settings.find_bool_setting_value("Unknown".to_string()));
    assert_eq!(None, settings.find_u32_setting_value(SETTING_FOG_OF_WAR.to_string()));
}

#[test]
fn test_first_setting_with_a_name_wins() {
    let mut settings = build_settings(false, 10, "seed");
    settings.u32_settings.push(Setting { name: SETTING_BG_MUSIC.to_string(), value: 99 });
    assert_eq!(Some(10), settings.find_u32_setting_value(SETTING_BG_MUSIC.to_string()));
}

#[test]
fn test_setting_defaults() {
    let settings = Settings { bool_settings: Vec::new(), u32_settings: Vec::new(), string_settings: Vec::new() };
    assert!(!settings.is_fog_of_war());
    assert_eq!(100, settings.get_bg_music_volume());
    assert_eq!(None, settings.get_rng_seed());

    let settings = build_settings(true, 5, "xyz");
    assert!(settings.is_fog_of_war());
    assert_eq!(5, settings.get_bg_music_volume());
    assert_eq!(Some("xyz".to_string()), settings.get_rng_seed());
}

#[test]
fn test_toggle_setting() {
    let mut setting = Setting { name: SETTING_FOG_OF_WAR.to_string(), value: false };
    setting.toggle();
    assert!(setting.value);
    setting.toggle();
    assert!(!setting.value);
    assert_eq!(SETTING_FOG_OF_WAR, setting.name);
}

#[test]
fn test_key_to_side() {
    assert_eq!(Some(Side::TOP), key_to_side(Key::Up));
    assert_eq!(Some(Side::TOP), key_to_side(Key::Char('w')));
    assert_eq!(Some(Side::BOTTOM), key_to_side(Key::Down));
    assert_eq!(Some(Side::BOTTOM), key_to_side(Key::Char('s')));
    assert_eq!(Some(Side::LEFT), key_to_side(Key::Left));
    assert_eq!(Some(Side::LEFT), key_to_side(Key::Char('a')));
    assert_eq!(Some(Side::RIGHT), key_to_side(Key::Right));
    assert_eq!(Some(Side::RIGHT), key_to_side(Key::Char('d')));
    assert_eq!(None, key_to_side(Key::Char('x')));
    assert_eq!(None, key_to_side(Key::Esc));
}

#[test]
fn test_build_container_widget_area() {
    let main_area = UIArea { name: "Main".to_string(), area: Area::new(Position::new(1, 3), 20, 10) };
    let area = build_container_widget_area(&main_area);
    assert_eq!(Position::new(1, 5), area.start_position);
    assert_eq!(Position::new(20, 10), area.end_position);
    assert_eq!(20, area.width);
    assert_eq!(8, area.height);
}

#[test]
fn test_build_settings() {
    let settings = arq::settings::build_settings(80, Some("seed".to_string()));
    assert!(!settings.is_fog_of_war());
    assert_eq!(80, settings.get_bg_music_volume());
    assert_eq!(Some("seed".to_string()), settings.get_rng_seed());

    // Without an initial seed a random one of 12 letters and digits is made
    let settings = arq::settings::build_settings(50, None);
    let seed = settings.get_rng_seed().unwrap();
    assert_eq!(12, seed.chars().count());
    assert!(seed.chars().all(|c| c.is_ascii_alphanumeric()));
    assert_eq!(seed, arq::settings::get_map_seed(Some(seed.clone())));
}
