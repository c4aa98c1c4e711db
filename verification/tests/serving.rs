use nosh::error::Error;
use nosh::nutrients::Nutrients;
use nosh::rat::Rat;
use nosh::serving::Serving;

fn rat(num: i64, den: i64) -> Rat {
    Rat::new(num, den)
}

fn serv(size: Rat, unit: Option<&str>) -> Serving {
    Serving { size, unit: unit.map(str::to_string) }
}

#[test]
fn test_parse_serving() {
    let parse = |s: &str| Serving::from_str(s);
    assert_eq!(parse("1.5").unwrap(), serv(rat(15, 10), None));
    assert_eq!(parse("1.5c").unwrap(), serv(rat(15, 10), Some("c")));
    assert_eq!(parse("1.5 cup").unwrap(), serv(rat(15, 10), Some("cup")));
    assert_eq!(parse(" 1.5  cup ").unwrap(), serv(rat(15, 10), Some("cup")));
    assert_eq!(parse("25 g dry").unwrap(), serv(rat(25, 1), Some("g dry")));
    assert_eq!(parse("25g dry").unwrap(), serv(rat(25, 1), Some("g dry")));
    assert!(parse("cup 1.5").is_err());
}

#[test]
fn test_parse_serving_rejects_trailing_dot() {
    assert!(Serving::from_str("1.").is_err());
    assert!(Serving::from_str(".").is_err());
    assert!(Serving::from_str("").is_err());
    assert!(Serving::from_str(".5").unwrap() == serv(rat(5, 10), None));
}

#[test]
fn test_serving_render() {
    assert_eq!(serv(rat(5, 10), Some("cups")).render(), "0.5 cups");
    assert_eq!(serv(rat(1, 1), None).render(), "1");
    assert_eq!(serv(rat(50, 1), Some("g")).render(), "50 g");
    assert_eq!(serv(rat(50, 100), None).render(), "0.50");
}

#[test]
fn test_serving_default() {
    let d = Serving::default();
    assert_eq!(d, serv(rat(1, 1), None));
}

#[test]
fn test_rat_equality_is_numeric() {
    assert_eq!(rat(1, 2), rat(5, 10));
    assert_ne!(rat(1, 2), rat(5, 11));
}

#[test]
fn test_rat_parse_errors() {
    assert!(nosh::rat::parse_dec("abc").is_none());
    assert!(nosh::rat::parse_dec("1.2.3").is_none());
    assert!(nosh::rat::parse_dec("-5").unwrap() == rat(-5, 1));
    assert!(nosh::rat::parse_dec("68.7").unwrap() == rat(687, 10));
}

#[test]
fn test_nutrient_mult() {
    let base = Nutrients {
        carb: rat(12, 10),
        fat: rat(23, 10),
        protein: rat(31, 10),
        kcal: rat(1245, 10),
    };
    let nut = base.mul(Rat::from_int(2)).unwrap();

    assert_eq!(nut.carb, rat(24, 10));
    assert_eq!(nut.fat, rat(46, 10));
    assert_eq!(nut.protein, rat(62, 10));
    assert_eq!(nut.kcal, rat(2490, 10));
}

#[test]
fn test_nutrient_kcal_computation() {
    let nut = Nutrients {
        carb: rat(12, 10),
        fat: rat(23, 10),
        protein: rat(31, 10),
        kcal: rat(0, 1),
    }
    .maybe_compute_kcal()
    .unwrap();

    assert_eq!(nut.carb, rat(12, 10));
    assert_eq!(nut.fat, rat(23, 10));
    assert_eq!(nut.protein, rat(31, 10));
    assert_eq!(nut.kcal, rat(379, 10));
}

#[test]
fn test_nutrient_kcal_kept_when_positive() {
    let nut = Nutrients {
        carb: rat(10, 1),
        fat: rat(0, 1),
        protein: rat(0, 1),
        kcal: rat(7, 1),
    }
    .maybe_compute_kcal()
    .unwrap();
    assert_eq!(nut.kcal, rat(7, 1));
}

#[test]
fn test_nutrient_add() {
    let a = Nutrients { carb: rat(1, 2), fat: rat(1, 3), protein: rat(1, 1), kcal: rat(10, 1) };
    let b = Nutrients { carb: rat(1, 2), fat: rat(2, 3), protein: rat(2, 1), kcal: rat(5, 1) };
    let s = a.add(b).unwrap();
    assert_eq!(s.carb, rat(1, 1));
    assert_eq!(s.fat, rat(1, 1));
    assert_eq!(s.protein, rat(3, 1));
    assert_eq!(s.kcal, rat(15, 1));
}

#[test]
fn test_serving_parse_bad_number_names_text() {
    match Serving::from_str("cup 1.5") {
        Err(Error::BadNumber { text }) => assert_eq!(text, ""),
        other => panic!("expected BadNumber, got {other:?}"),
    }
}
