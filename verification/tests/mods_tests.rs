use sandbox::mods::{Mod, ModLifetime, Mods};

#[test]
fn a_new_set_is_empty() {
    let mods = Mods::new();
    assert_eq!(mods.len(), 0);
    assert!(!mods.has(Mod::Flinch));
}

#[test]
fn add_and_has() {
    let mut mods = Mods::new();
    mods.add(Mod::Flinch, ModLifetime::Game);
    assert!(mods.has(Mod::Flinch));
    assert!(!mods.has(Mod::Electric));
    assert_eq!(mods.len(), 1);
}

#[test]
fn the_same_badge_and_lifetime_is_attached_once() {
    let mut mods = Mods::new();
    mods.add(Mod::Spicy, ModLifetime::Permanent);
    mods.add(Mod::Spicy, ModLifetime::Permanent);
    assert_eq!(mods.len(), 1);
    mods.add(Mod::Spicy, ModLifetime::Week);
    assert_eq!(mods.len(), 2);
}

#[test]
fn remove_takes_the_badge_with_all_its_lifetimes_and_nothing_else() {
    let mut mods = Mods::new();
    mods.add(Mod::Spicy, ModLifetime::Permanent);
    mods.add(Mod::Wired, ModLifetime::Game);
    mods.add(Mod::Spicy, ModLifetime::Week);
    mods.remove(Mod::Spicy);
    assert!(!mods.has(Mod::Spicy));
    assert!(mods.has(Mod::Wired));
    assert_eq!(mods.len(), 1);
}

#[test]
fn removing_an_absent_badge_changes_nothing() {
    let mut mods = Mods::new();
    mods.add(Mod::Wired, ModLifetime::Game);
    mods.remove(Mod::Tired);
    assert!(mods.has(Mod::Wired));
    assert_eq!(mods.len(), 1);
}

#[test]
fn clearing_goes_by_lifetime() {
    let mut mods = Mods::new();
    mods.add(Mod::Flinch, ModLifetime::Game);
    mods.add(Mod::Unstable, ModLifetime::Week);
    mods.add(Mod::FourthStrike, ModLifetime::Season);
    mods.add(Mod::NightVision, ModLifetime::LegendaryItem);
    mods.add(Mod::Gravity, ModLifetime::Permanent);
    mods.clear_game();
    assert!(!mods.has(Mod::Flinch));
    assert_eq!(mods.len(), 4);
    mods.clear_weekly();
    assert!(!mods.has(Mod::Unstable));
    assert_eq!(mods.len(), 3);
    mods.clear_season();
    assert!(!mods.has(Mod::FourthStrike));
    assert_eq!(mods.len(), 2);
    mods.clear_legendary_item();
    assert!(!mods.has(Mod::NightVision));
    assert!(mods.has(Mod::Gravity));
    assert_eq!(mods.len(), 1);
    mods.clear_lifetime(ModLifetime::Permanent);
    assert_eq!(mods.len(), 0);
}

#[test]
fn a_badge_with_two_lifetimes_outlives_one_of_them() {
    let mut mods = Mods::new();
    mods.add(Mod::Electric, ModLifetime::Game);
    mods.add(Mod::Electric, ModLifetime::Season);
    mods.clear_game();
    assert!(mods.has(Mod::Electric));
    mods.clear_season();
    assert!(!mods.has(Mod::Electric));
}

#[test]
fn a_clone_has_the_same_badges() {
    let mut mods = Mods::new();
    mods.add(Mod::Charm, ModLifetime::Permanent);
    let mut copy = mods.clone();
    assert!(copy.has(Mod::Charm));
    copy.remove(Mod::Charm);
    assert!(mods.has(Mod::Charm));
}
