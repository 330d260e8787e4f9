use necessary_work::units::{MilliGt, Tick};

#[test]
fn ticks_advance_by_one() {
    assert_eq!(Tick::start().next(), Tick(1));
}

#[test]
fn gross_emissions_zero_is_the_victory_value() {
    assert_eq!(MilliGt::zero(), MilliGt(0));
}
