use nosh::codec::{FoodStub, StubSpec};
use nosh::error::Error;
use nosh::food::{Food, FoodSpec, Ingredient};
use nosh::nutrients::Nutrients;
use nosh::rat::Rat;
use nosh::serving::Serving;

fn rat(num: i64, den: i64) -> Rat {
    Rat::new(num, den)
}

fn serv(size: Rat, unit: Option<&str>) -> Serving {
    Serving { size, unit: unit.map(str::to_string) }
}

fn nut(carb: Rat, fat: Rat, protein: Rat, kcal: Rat) -> Nutrients {
    Nutrients { carb, fat, protein, kcal }
}

fn nut_eq(a: &Nutrients, b: &Nutrients) -> bool {
    a == b
}

fn food_eq(a: &Food, b: &Food) -> bool {
    if a.name != b.name {
        return false;
    }
    if a.servings.len() != b.servings.len() {
        return false;
    }
    for i in 0..a.servings.len() {
        if a.servings[i].0 != b.servings[i].0 || !(a.servings[i].1 == b.servings[i].1) {
            return false;
        }
    }
    match (&a.spec, &b.spec) {
        (FoodSpec::Nutrients(x), FoodSpec::Nutrients(y)) => nut_eq(x, y),
        (FoodSpec::Ingredients(x), FoodSpec::Ingredients(y)) => {
            if x.len() != y.len() {
                return false;
            }
            for i in 0..x.len() {
                if x[i].key != y[i].key || x[i].serving != y[i].serving
                    || !food_eq(&x[i].food, &y[i].food)
                {
                    return false;
                }
            }
            true
        }
        _ => false,
    }
}

fn oats() -> Food {
    Food {
        name: "Oats".into(),
        spec: FoodSpec::Nutrients(nut(rat(687, 10), rat(589, 100), rat(135, 10), rat(382, 1))),
        servings: vec![("cups".into(), rat(5, 10)), ("g".into(), rat(100, 1))],
    }
}

fn banana() -> Food {
    Food {
        name: "Banana".into(),
        spec: FoodSpec::Nutrients(nut(rat(23, 1), rat(2, 10), rat(74, 100), rat(98, 1))),
        servings: vec![("g".into(), rat(100, 1))],
    }
}

#[test]
fn test_food_serve() {
    let food = Food {
        name: "".into(),
        spec: FoodSpec::Nutrients(nut(rat(12, 1), rat(3, 1), rat(8, 1), rat(120, 1))),
        servings: vec![("g".into(), rat(100, 1)), ("cups".into(), rat(5, 10))],
    };
    let serve = |size: Rat, unit: Option<&str>| food.serve(&serv(size, unit));
    assert!(
        serve(rat(2, 1), None).unwrap() == nut(rat(24, 1), rat(6, 1), rat(16, 1), rat(240, 1))
    );
    assert!(
        serve(rat(2, 1), Some("cups")).unwrap()
            == nut(rat(48, 1), rat(12, 1), rat(32, 1), rat(480, 1))
    );
    assert!(
        serve(rat(2, 1), Some("c")).unwrap()
            == nut(rat(48, 1), rat(12, 1), rat(32, 1), rat(480, 1))
    );
    assert!(
        serve(rat(10, 1), Some("g")).unwrap()
            == nut(rat(12, 10), rat(3, 10), rat(8, 10), rat(12, 1))
    );
}

#[test]
fn test_serve_oats_scenarios() {
    let oats = oats();
    let r = oats.serve(&serv(rat(2, 1), None)).unwrap();
    assert!(r == nut(rat(1374, 10), rat(1178, 100), rat(27, 1), rat(764, 1)));
    let r = oats.serve(&serv(rat(2, 1), Some("cups"))).unwrap();
    assert!(r == nut(rat(2748, 10), rat(2356, 100), rat(54, 1), rat(1528, 1)));
    let r = oats.serve(&serv(rat(10, 1), Some("g"))).unwrap();
    assert!(r == nut(rat(687, 100), rat(589, 1000), rat(135, 100), rat(382, 10)));
}

#[test]
fn test_serve_unknown_unit_lists_units() {
    let oats = oats();
    match oats.serve(&serv(rat(1, 1), Some("xyz"))) {
        Err(Error::UnknownUnit { unit, known }) => {
            assert_eq!(unit, "xyz");
            assert_eq!(known, vec!["cups".to_string(), "g".to_string()]);
        }
        other => panic!("expected UnknownUnit, got {other:?}"),
    }
}

#[test]
fn test_serve_ambiguous_unit_names_candidates() {
    let food = Food {
        name: "Flour".into(),
        spec: FoodSpec::Nutrients(nut(rat(1, 1), rat(0, 1), rat(0, 1), rat(4, 1))),
        servings: vec![("cups".into(), rat(1, 1)), ("cupcakes".into(), rat(2, 1))],
    };
    match food.serve(&serv(rat(1, 1), Some("cup"))) {
        Err(Error::AmbiguousUnit { unit, first, second }) => {
            assert_eq!(unit, "cup");
            assert_eq!(first, "cups");
            assert_eq!(second, "cupcakes");
        }
        other => panic!("expected AmbiguousUnit, got {other:?}"),
    }
}

#[test]
fn test_serve_zero_unit_size() {
    let food = Food {
        name: "Air".into(),
        spec: FoodSpec::Nutrients(nut(rat(0, 1), rat(0, 1), rat(0, 1), rat(0, 1))),
        servings: vec![("g".into(), rat(0, 1))],
    };
    match food.serve(&serv(rat(1, 1), Some("g"))) {
        Err(Error::ZeroUnitSize { unit }) => assert_eq!(unit, "g"),
        other => panic!("expected ZeroUnitSize, got {other:?}"),
    }
}

#[test]
fn test_serve_linearity_scenario() {
    let oats = oats();
    let one = oats.serve(&serv(rat(1, 1), Some("cups"))).unwrap();
    let three = oats.serve(&serv(rat(3, 1), Some("cups"))).unwrap();
    assert!(three == one.mul(Rat::from_int(3)).unwrap());
}

#[test]
fn test_serve_prefix_abbreviation_scenario() {
    let oats = oats();
    let full = oats.serve(&serv(rat(2, 1), Some("cups"))).unwrap();
    let brief = oats.serve(&serv(rat(2, 1), Some("c"))).unwrap();
    assert!(full == brief);
}

#[test]
fn test_serve_composition_scenario() {
    let porridge = Food {
        name: "Porridge".into(),
        spec: FoodSpec::Ingredients(vec![
            Ingredient { key: "oats".into(), serving: serv(rat(5, 10), Some("c")), food: oats() },
            Ingredient { key: "banana".into(), serving: serv(rat(1, 1), None), food: banana() },
        ]),
        servings: vec![],
    };
    let total = porridge.serve(&Serving::default()).unwrap();
    let a = oats().serve(&serv(rat(5, 10), Some("c"))).unwrap();
    let b = banana().serve(&serv(rat(1, 1), None)).unwrap();
    assert!(total == a.add(b).unwrap());
}

#[test]
fn test_load_food() {
    let text = [
        "name = Oats",
        "",
        "[nutrients]",
        "carb = 68.7",
        "fat = 5.89",
        "protein = 13.5",
        "kcal = 382",
        "",
        "[servings]",
        "cups = 0.5",
        "g = 100",
        "",
    ]
    .join("\n");
    let stub = Food::parse(&text).unwrap();
    let food = stub.resolve(vec![]).unwrap();
    assert!(food_eq(&food, &oats()));
}

#[test]
fn test_load_food_recipe() {
    let text = [
        "name = Banana Oatmeal",
        "",
        "[ingredients]",
        "oats = 0.5 c",
        "banana = 1",
        "",
        "[servings]",
        "cups = 0.5",
        "g = 100",
        "",
    ]
    .join("\n");
    let stub = Food::parse(&text).unwrap();
    let keys = stub.keys();
    assert_eq!(keys, vec!["oats".to_string(), "banana".to_string()]);
    let food = stub.resolve(vec![Some(oats()), Some(banana())]).unwrap();
    let expected = Food {
        name: "Banana Oatmeal".into(),
        spec: FoodSpec::Ingredients(vec![
            Ingredient { key: "oats".into(), serving: serv(rat(5, 10), Some("c")), food: oats() },
            Ingredient { key: "banana".into(), serving: serv(rat(1, 1), None), food: banana() },
        ]),
        servings: vec![("cups".into(), rat(5, 10)), ("g".into(), rat(100, 1))],
    };
    assert!(food_eq(&food, &expected));
}

#[test]
fn test_save_food() {
    let food = Food {
        name: "Cereal".into(),
        spec: FoodSpec::Nutrients(nut(rat(22, 1), rat(5, 10), rat(12, 10), rat(120, 1))),
        servings: vec![("g".into(), rat(50, 1)), ("cups".into(), rat(25, 10))],
    };
    let res = food.save();
    assert_eq!(
        res,
        [
            "name = Cereal",
            "",
            "[nutrients]",
            "carb = 22",
            "fat = 0.5",
            "protein = 1.2",
            "kcal = 120",
            "",
            "[servings]",
            "g = 50",
            "cups = 2.5",
            "",
        ]
        .join("\n")
    );
}

#[test]
fn test_food_round_trip_runtime() {
    let food = oats();
    let text = food.save();
    let stub = Food::parse(&text).unwrap();
    let back = stub.resolve(vec![]).unwrap();
    assert!(food_eq(&back, &food));
}

#[test]
fn test_missing_ingredient_names_key() {
    let text = ["name = Mix", "", "[ingredients]", "oats = 1", "nope = 2", "", "[servings]", ""]
        .join("\n");
    let stub = Food::parse(&text).unwrap();
    match stub.resolve(vec![Some(oats()), None]) {
        Err(Error::FoodNotFound { key }) => assert_eq!(key, "nope"),
        other => panic!("expected FoodNotFound, got {other:?}"),
    }
}

#[test]
fn test_parse_food_errors() {
    let no_name = ["[nutrients]", "carb = 1", "", "[servings]", ""].join("\n");
    assert!(matches!(Food::parse(&no_name), Err(Error::MissingName)));

    let no_spec = ["name = X", "", "[servings]", ""].join("\n");
    assert!(matches!(Food::parse(&no_spec), Err(Error::MissingSpec)));

    let both = ["name = X", "[nutrients]", "[ingredients]", ""].join("\n");
    assert!(matches!(Food::parse(&both), Err(Error::ConflictingSpec)));

    let bad_number = ["name = X", "[nutrients]", "carb = abc", ""].join("\n");
    match Food::parse(&bad_number) {
        Err(Error::BadNumber { text }) => assert_eq!(text, "abc"),
        other => panic!("expected BadNumber, got {other:?}"),
    }

    let bad_line = ["name = X", "[nutrients]", "what is this", ""].join("\n");
    match Food::parse(&bad_line) {
        Err(Error::BadLine { line }) => assert_eq!(line, "what is this"),
        other => panic!("expected BadLine, got {other:?}"),
    }
}

#[test]
fn test_parse_food_ignores_unknown_keys() {
    let text = ["name = X", "note = hi", "[nutrients]", "carb = 1", "fiber = 9", "", "[servings]", ""]
        .join("\n");
    let stub = Food::parse(&text).unwrap();
    match &stub.spec {
        StubSpec::Nutrients(n) => {
            assert!(n.carb == rat(1, 1));
            assert!(n.fat == rat(0, 1));
        }
        other => panic!("expected nutrients, got {other:?}"),
    }
}

#[test]
fn test_food_nutrients_sums_ingredients() {
    let porridge = Food {
        name: "Porridge".into(),
        spec: FoodSpec::Ingredients(vec![
            Ingredient { key: "oats".into(), serving: serv(rat(1, 1), None), food: oats() },
            Ingredient { key: "banana".into(), serving: serv(rat(1, 1), None), food: banana() },
        ]),
        servings: vec![],
    };
    let n = porridge.nutrients().unwrap();
    assert!(n.carb == rat(917, 10));
    assert!(n.kcal == rat(480, 1));
}

#[test]
fn test_stub_from_nutrients_keys_empty() {
    let stub = FoodStub {
        name: "X".into(),
        spec: StubSpec::Nutrients(nut(rat(1, 1), rat(0, 1), rat(0, 1), rat(4, 1))),
        servings: vec![],
    };
    assert!(stub.keys().is_empty());
}
