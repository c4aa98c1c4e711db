use nosh::date::Date;
use nosh::error::Error;
use nosh::food::{Food, FoodSpec};
use nosh::journal::Journal;
use nosh::nutrients::Nutrients;
use nosh::rat::Rat;
use nosh::recipe::Recipe;
use nosh::serving::Serving;
use nosh::Database;

fn rat(num: i64, den: i64) -> Rat {
    Rat::new(num, den)
}

fn serv(size: Rat, unit: Option<&str>) -> Serving {
    Serving { size, unit: unit.map(str::to_string) }
}

fn nut(carb: Rat, fat: Rat, protein: Rat, kcal: Rat) -> Nutrients {
    Nutrients { carb, fat, protein, kcal }
}

fn oats() -> Food {
    Food {
        name: "Oats".into(),
        spec: FoodSpec::Nutrients(nut(rat(687, 10), rat(589, 100), rat(135, 10), rat(382, 1))),
        servings: vec![("cups".into(), rat(5, 10)), ("g".into(), rat(100, 1))],
    }
}

fn banana() -> Food {
    Food {
        name: "Banana".into(),
        spec: FoodSpec::Nutrients(nut(rat(23, 1), rat(2, 10), rat(74, 100), rat(98, 1))),
        servings: vec![("g".into(), rat(100, 1))],
    }
}

#[test]
fn test_load_journal() {
    let text = ["banana", "oats = 0.5 c", "oats = 1", "banana = 50 g", ""].join("\n");
    let entries = Journal::parse(&text).unwrap();
    assert_eq!(entries.len(), 4);
    assert_eq!(entries[0].0, "banana");
    assert_eq!(entries[0].1, serv(rat(1, 1), None));
    assert_eq!(entries[1].0, "oats");
    assert_eq!(entries[1].1, serv(rat(5, 10), Some("c")));
    assert_eq!(entries[2].1, serv(rat(1, 1), None));
    assert_eq!(entries[3].1, serv(rat(50, 1), Some("g")));

    let foods = vec![Some(banana()), Some(oats()), Some(oats()), Some(banana())];
    let journal = Journal::resolve(entries, foods).unwrap();
    assert_eq!(journal.0.len(), 4);
    assert_eq!(journal.0[0].key, "banana");
    assert_eq!(journal.0[0].food.name, "Banana");
    assert_eq!(journal.0[1].key, "oats");
    assert_eq!(journal.0[1].food.name, "Oats");
}

#[test]
fn test_save_journal() {
    let entry = |key: &str, serving: Serving| nosh::journal::JournalEntry {
        key: key.into(),
        serving,
        food: Food::default(),
    };
    let journal = Journal(vec![
        entry("cookies", serv(rat(1, 1), None)),
        entry("crackers", serv(rat(5, 10), Some("cups"))),
        entry("cereal", serv(rat(50, 1), Some("g"))),
    ]);
    let actual = journal.save();
    assert_eq!(actual, ["cookies = 1", "crackers = 0.5 cups", "cereal = 50 g", ""].join("\n"));
}

#[test]
fn test_journal_round_trip_runtime() {
    let text = ["a = 1", "b = 0.5 cups", ""].join("\n");
    let entries = Journal::parse(&text).unwrap();
    let journal = Journal::resolve(
        entries,
        vec![Some(banana()), Some(oats())],
    );
    // "cups" resolves for oats, and a bare multiple for banana.
    let journal = journal.unwrap();
    assert_eq!(journal.save(), text);
}

#[test]
fn test_journal_resolve_missing_key() {
    let entries = Journal::parse("nope = 1\n").unwrap();
    match Journal::resolve(entries, vec![None]) {
        Err(Error::FoodNotFound { key }) => assert_eq!(key, "nope"),
        other => panic!("expected FoodNotFound, got {other:?}"),
    }
}

#[test]
fn test_journal_resolve_checks_servings() {
    let entries = Journal::parse("banana = 1 cups\n").unwrap();
    match Journal::resolve(entries, vec![Some(banana())]) {
        Err(Error::UnknownUnit { unit, known }) => {
            assert_eq!(unit, "cups");
            assert_eq!(known, vec!["g".to_string()]);
        }
        other => panic!("expected UnknownUnit, got {other:?}"),
    }
}

#[test]
fn test_journal_nutrients() {
    let entries = Journal::parse("oats = 1\nbanana = 100 g\n").unwrap();
    let journal = Journal::resolve(entries, vec![Some(oats()), Some(banana())]).unwrap();
    let n = journal.nutrients().unwrap();
    assert!(n.carb == rat(917, 10));
    assert!(n.kcal == rat(480, 1));
}

#[test]
fn test_journal_path() {
    let date = Date::new(2024, 7, 1).unwrap();
    assert_eq!(Journal::path(&date), "journal/2024/07/01.txt");
    let date = Date::new(33, 11, 30).unwrap();
    assert_eq!(Journal::path(&date), "journal/0033/11/30.txt");
}

#[test]
fn test_date_validation() {
    assert!(Date::new(2024, 2, 29).is_some());
    assert!(Date::new(2023, 2, 29).is_none());
    assert!(Date::new(1900, 2, 29).is_none());
    assert!(Date::new(2000, 2, 29).is_some());
    assert!(Date::new(2024, 13, 1).is_none());
    assert!(Date::new(2024, 4, 31).is_none());
    assert!(Date::new(10000, 1, 1).is_none());
}

#[test]
fn test_database_paths() {
    let db = Database::new("/data".into()).unwrap();
    let food_key: String = "oats".into();
    assert_eq!(db.full_path::<Food>(&food_key), "/data/food/oats.txt");
    let recipe_key: String = "granola".into();
    assert_eq!(db.full_path::<Recipe>(&recipe_key), "/data/recipe/granola.txt");
    let date = Date::new(2024, 7, 8).unwrap();
    assert_eq!(db.full_path::<Journal>(&date), "/data/journal/2024/07/08.txt");
}

#[test]
fn test_file_key() {
    assert_eq!(Database::file_key("oats.txt").unwrap(), "oats");
    assert_eq!(Database::file_key("banana_oatmeal.txt").unwrap(), "banana_oatmeal");
    assert_eq!(Database::file_key("archive.tar.gz").unwrap(), "archive.tar");
    assert!(Database::file_key("README").is_none());
}

#[test]
fn test_load_recipe() {
    let text = ["name = Banana Oatmeal", "oats = 0.5 c", "banana = 150 g", ""].join("\n");
    let recipe = Recipe::parse(&text).unwrap();
    assert_eq!(recipe.name, "Banana Oatmeal");
    assert_eq!(recipe.ingredients.len(), 2);
    assert_eq!(recipe.ingredients[0].0, "oats");
    assert_eq!(recipe.ingredients[0].1, serv(rat(5, 10), Some("c")));
    assert_eq!(recipe.ingredients[1].0, "banana");
    assert_eq!(recipe.ingredients[1].1, serv(rat(150, 1), Some("g")));
}

#[test]
fn test_save_recipe() {
    let recipe = Recipe {
        name: "Granola".into(),
        ingredients: vec![
            ("oats".into(), serv(rat(6, 1), Some("cups"))),
            ("oil".into(), serv(rat(5, 10), Some("cups"))),
            ("maple_syrup".into(), serv(rat(5, 10), Some("cups"))),
        ],
    };
    let actual = recipe.save();
    assert_eq!(
        actual,
        ["name = Granola", "oats = 6 cups", "oil = 0.5 cups", "maple_syrup = 0.5 cups", ""]
            .join("\n")
    );
}

#[test]
fn test_recipe_round_trip_runtime() {
    let recipe = Recipe {
        name: "Granola".into(),
        ingredients: vec![
            ("oats".into(), serv(rat(6, 1), Some("cups"))),
            ("oil".into(), serv(rat(5, 10), Some("cups"))),
        ],
    };
    let back = Recipe::parse(&recipe.save()).unwrap();
    assert_eq!(back.name, recipe.name);
    assert_eq!(back.ingredients.len(), recipe.ingredients.len());
    for i in 0..back.ingredients.len() {
        assert_eq!(back.ingredients[i].0, recipe.ingredients[i].0);
        assert_eq!(back.ingredients[i].1, recipe.ingredients[i].1);
    }

    let unnamed = Recipe { name: "".into(), ingredients: vec![("a".into(), serv(rat(1, 1), None))] };
    let back = Recipe::parse(&unnamed.save()).unwrap();
    assert_eq!(back.name, "");
    assert_eq!(back.ingredients.len(), 1);
}

#[test]
fn test_recipe_resolve_checks_keys_and_servings() {
    let recipe = Recipe {
        name: "Oatmeal".into(),
        ingredients: vec![
            ("oats".into(), serv(rat(5, 10), Some("c"))),
            ("banana".into(), serv(rat(1, 1), None)),
        ],
    };
    assert!(recipe.resolve(vec![Some(oats()), Some(banana())]).is_ok());

    match recipe.resolve(vec![Some(oats()), None]) {
        Err(Error::FoodNotFound { key }) => assert_eq!(key, "banana"),
        other => panic!("expected FoodNotFound, got {other:?}"),
    }

    let bad = Recipe {
        name: "Oatmeal".into(),
        ingredients: vec![("banana".into(), serv(rat(1, 1), Some("cups")))],
    };
    match bad.resolve(vec![Some(banana())]) {
        Err(Error::UnknownUnit { unit, known }) => {
            assert_eq!(unit, "cups");
            assert_eq!(known, vec!["g".to_string()]);
        }
        other => panic!("expected UnknownUnit, got {other:?}"),
    }
}
