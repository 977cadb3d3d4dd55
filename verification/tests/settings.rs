use sweeper_3d::settings::{Density, FieldSettings, GameSettings, Safety};

#[test]
fn presets_have_the_documented_sizes() {
    assert_eq!(FieldSettings::small().field_size, [3, 3, 3]);
    assert_eq!(FieldSettings::medium().field_size, [5, 5, 5]);
    assert_eq!(FieldSettings::large().field_size, [10, 10, 10]);
    assert_eq!(FieldSettings::default(), FieldSettings::medium());
    assert_eq!(GameSettings::default().safety, Safety::Clear);
    assert_eq!(Safety::default(), Safety::Clear);
}

#[test]
fn presets_have_the_documented_densities() {
    assert_eq!(FieldSettings::small().mine_density, Density::new(1, 5).unwrap());
    assert_eq!(FieldSettings::medium().mine_density, Density::new(1, 10).unwrap());
    assert_eq!(FieldSettings::large().mine_density, Density::new(1, 10).unwrap());
}

#[test]
fn density_rejects_what_is_no_fraction() {
    assert!(Density::new(1, 0).is_none());
    assert!(Density::new(0, 0).is_none());
    assert!(Density::new(3, 2).is_none());
    assert!(Density::new(0, 1).is_some());
    assert!(Density::new(7, 7).is_some());
    assert_eq!(Density::zero(), Density::new(0, 1).unwrap());
}

#[test]
fn density_hands_back_its_ratio() {
    let d = Density::new(3, 8).unwrap();
    assert_eq!(d.numerator(), 3);
    assert_eq!(d.denominator(), 8);
}

#[test]
fn mine_target_rounds_to_nearest() {
    // 27 / 5 = 5.4
    assert_eq!(Density::new(1, 5).unwrap().mines_for(27), 5);
    // 1000 / 10 = 100
    assert_eq!(Density::new(1, 10).unwrap().mines_for(1000), 100);
    // 27 * 0.37 = 9.99
    assert_eq!(Density::new(37, 100).unwrap().mines_for(27), 10);
    // 8 / 3 = 2.67
    assert_eq!(Density::new(1, 3).unwrap().mines_for(8), 3);
    // 7 / 3 = 2.33
    assert_eq!(Density::new(1, 3).unwrap().mines_for(7), 2);
}

#[test]
fn mine_target_rounds_halves_upwards() {
    // 125 / 10 = 12.5
    assert_eq!(Density::new(1, 10).unwrap().mines_for(125), 13);
    // 1 / 2 = 0.5
    assert_eq!(Density::new(1, 2).unwrap().mines_for(1), 1);
    // 3 / 2 = 1.5
    assert_eq!(Density::new(1, 2).unwrap().mines_for(3), 2);
}

#[test]
fn mine_target_at_the_ends_of_the_range() {
    assert_eq!(Density::zero().mines_for(8000), 0);
    assert_eq!(Density::new(1, 1).unwrap().mines_for(8000), 8000);
    assert_eq!(Density::new(1, 5).unwrap().mines_for(0), 0);
    assert_eq!(Density::new(u32::MAX, u32::MAX).unwrap().mines_for(usize::MAX), usize::MAX);
    assert_eq!(Density::new(1, u32::MAX).unwrap().mines_for(27), 0);
}
