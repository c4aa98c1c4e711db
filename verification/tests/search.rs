use nosh::food::FoodSpec;
use nosh::rat::Rat;
use nosh::search::{Page, Search, SearchFood, SearchNutrient};

fn rat(num: i64, den: i64) -> Rat {
    Rat::new(num, den)
}

fn reading(nutrient_id: u32, value: Rat) -> SearchNutrient {
    SearchNutrient { nutrient_id, value }
}

fn empty_food() -> SearchFood {
    SearchFood {
        description: None,
        serving_size: None,
        serving_size_unit: None,
        household_serving_full_text: None,
        food_nutrients: None,
    }
}

#[test]
fn test_search_defaults() {
    let s = Search::default();
    assert_eq!(s.term, "");
    assert_eq!(s.page_size, 50);
    assert_eq!(s.page, 1);
    assert!(s.url.contains("fdc"));
}

#[test]
fn test_search_food_mapping_foundation() {
    let sf = SearchFood {
        description: Some("Flour, potato".into()),
        food_nutrients: Some(vec![
            reading(1003, rat(811, 100)),
            reading(1004, rat(951, 1000)),
            reading(1005, rat(799, 10)),
            reading(1008, rat(353, 1)),
        ]),
        ..empty_food()
    };
    let food = sf.to_food();
    assert_eq!(food.name, "Flour, potato");
    match &food.spec {
        FoodSpec::Nutrients(n) => {
            assert!(n.carb == rat(799, 10));
            assert!(n.fat == rat(951, 1000));
            assert!(n.protein == rat(811, 100));
            assert!(n.kcal == rat(353, 1));
        }
        other => panic!("expected nutrients, got {other:?}"),
    }
    assert_eq!(food.servings.len(), 1);
    assert_eq!(food.servings[0].0, "g");
    assert!(food.servings[0].1 == rat(100, 1));
}

#[test]
fn test_search_food_mapping_branded() {
    let sf = SearchFood {
        description: Some("KASIA'S, POTATO PANCAKES, POTATO, POTATO".into()),
        serving_size: Some(rat(57, 1)),
        serving_size_unit: Some("GRM".into()),
        household_serving_full_text: Some("1 PANCAKE".into()),
        food_nutrients: Some(vec![
            reading(1003, rat(351, 100)),
            reading(1004, rat(702, 100)),
            reading(1005, rat(263, 10)),
            reading(1008, rat(158, 1)),
        ]),
    };
    let food = sf.to_food();
    assert_eq!(food.servings.len(), 2);
    assert_eq!(food.servings[0].0, "GRM");
    assert!(food.servings[0].1 == rat(57, 1));
    assert_eq!(food.servings[1].0, "PANCAKE");
    assert!(food.servings[1].1 == rat(1, 1));
}

#[test]
fn test_search_nutrient_preferences() {
    // carbohydrate by summation is used only without one by difference,
    // and Atwater-specific energy wins over the plain reading
    let sf = SearchFood {
        food_nutrients: Some(vec![
            reading(1050, rat(5, 1)),
            reading(1008, rat(100, 1)),
            reading(2048, rat(90, 1)),
        ]),
        ..empty_food()
    };
    let n = sf.nutrients();
    assert!(n.carb == rat(5, 1));
    assert!(n.kcal == rat(90, 1));
    assert!(n.fat == rat(0, 1));
}

#[test]
fn test_search_unparsable_household_serving() {
    let sf = SearchFood {
        household_serving_full_text: Some("about right".into()),
        ..empty_food()
    };
    // the household text is present but unreadable: no fallback row is added
    let food = sf.to_food();
    assert_eq!(food.servings.len(), 0);
}

#[test]
fn test_page_iter() {
    let page = Page {
        foods: vec![
            SearchFood { description: Some("A".into()), ..empty_food() },
            SearchFood { description: Some("B".into()), ..empty_food() },
        ],
    };
    let foods = page.iter();
    assert_eq!(foods.len(), 2);
    assert_eq!(foods[0].name, "A");
    assert_eq!(foods[1].name, "B");
    assert_eq!(foods[0].servings[0].0, "g");
}

#[test]
fn test_search_food_mapping_fndds() {
    let make = |name: &str, carb: Rat, fat: Rat, protein: Rat, kcal: Rat| SearchFood {
        description: Some(name.into()),
        food_nutrients: Some(vec![
            reading(1003, protein),
            reading(1004, fat),
            reading(1005, carb),
            reading(1008, kcal),
        ]),
        ..empty_food()
    };
    let page = Page {
        foods: vec![
            make("Potato patty", rat(135, 10), rat(113, 10), rat(389, 100), rat(171, 1)),
            make("Potato pancake", rat(206, 10), rat(108, 10), rat(447, 100), rat(196, 1)),
        ],
    };
    let foods = page.iter();
    assert_eq!(foods.len(), 2);
    assert_eq!(foods[0].name, "Potato patty");
    match &foods[0].spec {
        FoodSpec::Nutrients(n) => {
            assert!(n.carb == rat(135, 10));
            assert!(n.fat == rat(113, 10));
            assert!(n.protein == rat(389, 100));
            assert!(n.kcal == rat(171, 1));
        }
        other => panic!("expected nutrients, got {other:?}"),
    }
    assert_eq!(foods[1].name, "Potato pancake");
    assert_eq!(foods[1].servings.len(), 1);
    assert_eq!(foods[1].servings[0].0, "g");
    assert!(foods[1].servings[0].1 == rat(100, 1));
}

#[test]
fn test_search_food_mapping_sr_legacy() {
    let make = |name: &str, carb: Rat, fat: Rat, protein: Rat, kcal: Rat| SearchFood {
        description: Some(name.into()),
        food_nutrients: Some(vec![
            reading(1003, protein),
            reading(1004, fat),
            reading(1005, carb),
            reading(1008, kcal),
        ]),
        ..empty_food()
    };
    let page = Page {
        foods: vec![
            make("Bread, potato", rat(471, 10), rat(313, 100), rat(125, 10), rat(266, 1)),
            make("Potato flour", rat(831, 10), rat(34, 100), rat(69, 10), rat(357, 1)),
        ],
    };
    let foods = page.iter();
    assert_eq!(foods.len(), 2);
    assert_eq!(foods[0].name, "Bread, potato");
    match &foods[1].spec {
        FoodSpec::Nutrients(n) => {
            assert!(n.carb == rat(831, 10));
            assert!(n.fat == rat(34, 100));
            assert!(n.protein == rat(69, 10));
            assert!(n.kcal == rat(357, 1));
        }
        other => panic!("expected nutrients, got {other:?}"),
    }
}
