use last_stand::attributes::{Attr, Attrs};
use last_stand::exp::Exp;
use last_stand::mask::CollisionMask;

#[test]
fn new_attrs_are_zero() {
    let attrs = Attrs::new();
    assert_eq!(attrs.get(Attr::Damage), 0);
    assert_eq!(attrs.get(Attr::Range), 0);
}

#[test]
fn from_attr_sets_only_that_attribute() {
    let attrs = Attrs::from_attr(Attr::Speed, 75);
    assert_eq!(attrs.get(Attr::Speed), 75);
    assert_eq!(attrs.get(Attr::Damage), 0);
    assert_eq!(attrs.get(Attr::Lifesteal), 0);
}

#[test]
fn add_is_element_wise() {
    let a = Attrs::from_attr(Attr::Damage, 10);
    let mut b = Attrs::from_attr(Attr::Damage, 5);
    b.set(Attr::Health, -3);
    let sum = a.add(b);
    assert_eq!(sum.get(Attr::Damage), 15);
    assert_eq!(sum.get(Attr::Health), -3);
    assert_eq!(sum.get(Attr::Crit), 0);
}

#[test]
fn max_hp_clamps_to_at_least_one() {
    assert_eq!(Attrs::from_attr(Attr::Health, 40).max_hp(), 40);
    assert_eq!(Attrs::from_attr(Attr::Health, 0).max_hp(), 1);
    assert_eq!(Attrs::from_attr(Attr::Health, -5).max_hp(), 1);
}

#[test]
fn level_thresholds() {
    // Finishing level 1 costs (1+3)^2 = 16 points, level 2 another 25.
    assert_eq!(Exp(0).level(), 0);
    assert_eq!(Exp(15).level(), 0);
    assert_eq!(Exp(16).level(), 1);
    assert_eq!(Exp(40).level(), 1);
    assert_eq!(Exp(41).level(), 2);
    // 16+25+36+49+64+81+100+121+144+169 = 805, the cost of ten levels.
    assert_eq!(Exp(804).level(), 9);
    assert_eq!(Exp(805).level(), 10);
    assert_eq!(Exp(u32::MAX).level(), 2340);
}

#[test]
fn gain_accumulates() {
    let mut exp = Exp(10);
    exp.gain(6);
    assert_eq!(exp.0, 16);
    assert_eq!(exp.level(), 1);
}

#[test]
fn mask_overlap_is_bitwise_and() {
    assert!(CollisionMask(0b01).overlaps(CollisionMask(0b11)));
    assert!(CollisionMask(0b10).overlaps(CollisionMask(0b10)));
    assert!(!CollisionMask(0b01).overlaps(CollisionMask(0b10)));
    assert!(!CollisionMask(0).overlaps(CollisionMask(0xff)));
}
