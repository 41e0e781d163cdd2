use pos_backend::ingredients::{excess_report, restock_report, Excess, ExcessError, Ingredient};
use pos_backend::menu::MenuItem;
use pos_backend::sale::Sale;

fn ingredient(id: i32, name: &str, amount: i32, min_req: Option<i32>) -> Ingredient {
    Ingredient {
        id: Some(id),
        item_name: name.to_string(),
        item_amount: amount,
        storage_location: "pantry".to_string(),
        min_req,
    }
}

fn menu_item(id: i32, ingredients: Vec<i32>) -> MenuItem {
    MenuItem {
        id: Some(id),
        name: format!("item {}", id),
        category: "food".to_string(),
        ingredients_inventory_id: ingredients,
        price_bits: 4.5f32.to_bits(),
        description: String::new(),
    }
}

fn sale(id: i32, day: Option<i32>, items: Vec<i32>) -> Sale {
    Sale { id: Some(id), timestamp: day, menu_items_id: items, total_sales_price_bits: 0, employee_id: 1 }
}

fn lines(report: &[Excess]) -> Vec<(String, i128)> {
    report.iter().map(|e| (e.ingredient.clone(), e.percent_hundredths)).collect()
}

#[test]
fn restock_lists_only_ingredients_below_their_minimum() {
    let inventory = vec![
        ingredient(1, "Bun", 5, Some(10)),
        ingredient(2, "Patty", 10, Some(10)),
        ingredient(3, "Cheese", 0, None),
        ingredient(4, "Lettuce", -2, Some(0)),
    ];
    let report = restock_report(&inventory);
    assert_eq!(report.len(), 2);
    assert_eq!(report[0].item_name, "Bun");
    assert_eq!(report[0].item_amount, 5);
    assert_eq!(report[0].min_req, Some(10));
    assert_eq!(report[1].item_name, "Lettuce");
    assert_eq!(report[1].item_amount, -2);
    assert_eq!(report[1].min_req, Some(0));
}

#[test]
fn restock_of_an_empty_inventory_is_empty() {
    assert!(restock_report(&Vec::new()).is_empty());
}

fn sample_menu() -> Vec<MenuItem> {
    vec![menu_item(10, vec![1, 2]), menu_item(11, vec![2, 3, 2])]
}

fn sample_sales() -> Vec<Sale> {
    vec![
        sale(1, Some(100), vec![10, 11]),
        sale(2, Some(101), vec![10, 10]),
        sale(3, Some(50), vec![11]),
        sale(4, None, vec![10]),
    ]
}

#[test]
fn excess_groups_by_name_and_amount_and_rounds_the_share() {
    let inventory = vec![
        ingredient(1, "Bun", 95, Some(10)),
        ingredient(2, "Patty", 1000, None),
        ingredient(3, "Bun", 95, None),
        ingredient(4, "Cheese", 5, None),
    ];
    let report = excess_report(&inventory, &sample_menu(), &sample_sales(), 100, 101);
    let report = match report {
        Ok(r) => r,
        Err(_) => panic!("the report is defined"),
    };
    // Bun: 3 uses against 95 held: 300/98 percent = 3.06; Patty: 3 against 1000: 0.30.
    assert_eq!(lines(&report), vec![("Bun".to_string(), 306), ("Patty".to_string(), 30)]);
}

#[test]
fn excess_leaves_out_shares_of_ten_percent_or_more() {
    let inventory = vec![ingredient(2, "Patty", 27, None), ingredient(1, "Bun", 26, None)];
    // Patty: 3 uses against 27 held is exactly 10 percent; Bun: 2 against 26 is 7.14 percent.
    let report = excess_report(&inventory, &sample_menu(), &sample_sales(), 100, 101);
    let report = match report {
        Ok(r) => r,
        Err(_) => panic!("the report is defined"),
    };
    assert_eq!(lines(&report), vec![("Bun".to_string(), 714)]);
}

#[test]
fn excess_rounds_halves_away_from_zero() {
    let menu = vec![menu_item(10, vec![1, 2])];
    let sales = vec![sale(1, Some(7), vec![10])];
    // One use against 159 held: 0.625 percent; one use against -161 held: -0.625 percent.
    let inventory = vec![ingredient(1, "Salt", 159, None), ingredient(2, "Pepper", -161, None)];
    let report = excess_report(&inventory, &menu, &sales, 7, 7);
    let report = match report {
        Ok(r) => r,
        Err(_) => panic!("the report is defined"),
    };
    assert_eq!(lines(&report), vec![("Salt".to_string(), 63), ("Pepper".to_string(), -63)]);
}

#[test]
fn excess_with_negative_stock_reports_a_negative_share() {
    let menu = vec![menu_item(10, vec![1])];
    let sales = vec![sale(1, Some(7), vec![10]), sale(2, Some(8), vec![10]), sale(3, Some(9), vec![10])];
    let inventory = vec![ingredient(1, "Oil", -10, None)];
    let report = excess_report(&inventory, &menu, &sales, 7, 9);
    let report = match report {
        Ok(r) => r,
        Err(_) => panic!("the report is defined"),
    };
    // 300 / -7 percent = -42.857...
    assert_eq!(lines(&report), vec![("Oil".to_string(), -4286)]);
}

#[test]
fn excess_is_undefined_when_usage_and_stock_cancel_out() {
    let menu = vec![menu_item(10, vec![1])];
    let sales = vec![sale(1, Some(7), vec![10]), sale(2, Some(8), vec![10])];
    let inventory = vec![ingredient(1, "Oil", -2, None)];
    let report = excess_report(&inventory, &menu, &sales, 7, 9);
    assert!(matches!(report, Err(ExcessError::ZeroDenominator)));
}

#[test]
fn excess_ignores_unused_groups_and_sales_outside_the_period() {
    let inventory = vec![ingredient(4, "Cheese", 0, None)];
    let report = excess_report(&inventory, &sample_menu(), &sample_sales(), 100, 101);
    let report = match report {
        Ok(r) => r,
        Err(_) => panic!("an unused group is left out"),
    };
    assert!(report.is_empty());
    let inventory = vec![ingredient(3, "Bun", 95, None)];
    let report = excess_report(&inventory, &sample_menu(), &sample_sales(), 0, 60);
    let report = match report {
        Ok(r) => r,
        Err(_) => panic!("the report is defined"),
    };
    // Only the sale on day 50 falls in the period: 100/96 percent = 1.04.
    assert_eq!(lines(&report), vec![("Bun".to_string(), 104)]);
}
