use necessary_work::world::{Continent, Icon, Sector};

#[test]
fn world_the_prototype_tracks_nine_sector_rates() {
    assert_eq!(Continent::ALL.len() * Sector::ALL.len(), 9);
}

#[test]
fn the_prototype_tracks_nine_sector_rates() {
    assert_eq!(Continent::ALL.len() * Sector::ALL.len(), 9);
}

#[test]
fn indices_are_stable_and_dense() {
    for (position, continent) in Continent::ALL.iter().enumerate() {
        assert_eq!(continent.index(), position);
    }
    for (position, sector) in Sector::ALL.iter().enumerate() {
        assert_eq!(sector.index(), position);
    }
    for (position, icon) in Icon::ALL.iter().enumerate() {
        assert_eq!(icon.index(), position);
    }
}

#[test]
fn four_icon_families_per_continent() {
    assert_eq!(Icon::ALL.len(), 4);
}

#[test]
fn names_are_the_stable_display_names() {
    assert_eq!(Continent::Europe.name(), "Europe");
    assert_eq!(Sector::Power.name(), "Power");
    assert_eq!(Icon::Institutions.name(), "Institutions");
}
