//! The ingredient inventory and the two reports drawn from it: the restock
//! report and the excess report.

use vstd::prelude::*;
use crate::menu::MenuItem;
use crate::sale::Sale;

verus! {

/// An ingredient held in the inventory.
pub struct Ingredient {
    pub id: Option<i32>,
    pub item_name: String,
    pub item_amount: i32,
    pub storage_location: String,
    pub min_req: Option<i32>,
}

/// A line of the restock report: an ingredient held below its minimum.
pub struct Restock {
    pub item_name: String,
    pub item_amount: i32,
    pub min_req: Option<i32>,
}

/// Whether an ingredient is held below its minimum. An ingredient without a
/// minimum never is.
pub open spec fn needs_restock(i: Ingredient) -> bool {
    i.min_req matches Some(m) && i.item_amount < m
}

/// Whether the report line `r` stands for the ingredient `i`.
pub open spec fn restock_line_of(r: Restock, i: Ingredient) -> bool {
    &&& r.item_name@ == i.item_name@
    &&& r.item_amount == i.item_amount
    &&& r.min_req == i.min_req
}

/// Whether the report `report` lists exactly the ingredients `rows`, in order.
pub open spec fn restock_lines_of(report: Seq<Restock>, rows: Seq<Ingredient>) -> bool {
    &&& report.len() == rows.len()
    &&& forall|k: int| 0 <= k < rows.len() ==> restock_line_of(#[trigger] report[k], rows[k])
}

/// The restock report: one line for each ingredient held below its minimum,
/// in the order of the inventory.
pub fn restock_report(ingredients: &Vec<Ingredient>) -> (report: Vec<Restock>)
    ensures
        restock_lines_of(report@, ingredients@.filter(|i: Ingredient| needs_restock(i))),
{
    let ghost pred = |i: Ingredient| needs_restock(i);
    let mut report: Vec<Restock> = Vec::new();
    let mut k: usize = 0;
    while k < ingredients.len()
        invariant
            k <= ingredients@.len(),
            pred == (|i: Ingredient| needs_restock(i)),
            restock_lines_of(report@, ingredients@.take(k as int).filter(pred)),
        decreases ingredients@.len() - k,
    {
        let ingredient = &ingredients[k];
        proof {
            assert(ingredients@.take(k + 1) =~= ingredients@.take(k as int).push(ingredients@[k as int]));
            ingredients@.take(k as int).lemma_filter_push(ingredients@[k as int], pred);
        }
        let below = match ingredient.min_req {
            Some(m) => ingredient.item_amount < m,
            None => false,
        };
        assert(below == pred(ingredients@[k as int]));
        let ghost before = report@;
        if below {
            report.push(Restock {
                item_name: ingredient.item_name.clone(),
                item_amount: ingredient.item_amount,
                min_req: ingredient.min_req,
            });
            assert(report@ == before.push(report@.last()));
        }
        k += 1;
    }
    assert(ingredients@.take(k as int) =~= ingredients@);
    report
}


/// A line of the excess report: an ingredient of which less than a tenth of
/// the stock went into the sales of a period. `percent_hundredths` is that
/// share in percent, rounded to two decimals (half away from zero) and
/// multiplied by 100.
pub struct Excess {
    pub ingredient: String,
    pub percent_hundredths: i128,
}

/// Why the excess report cannot be drawn up.
pub enum ExcessError {
    /// For some ingredient, the sales of the period and the stock add up to
    /// zero, so that the share of the sales is undefined.
    ZeroDenominator,
}

/// Whether a sale took place on a day from `from` to `to`, both included.
/// A sale without a day never did.
pub open spec fn sale_in_period(s: Sale, from: i32, to: i32) -> bool {
    s.timestamp matches Some(d) && from <= d && d <= to
}

/// Whether a sale includes the menu item whose id is `item_id`.
pub open spec fn sale_includes(s: Sale, item_id: Option<i32>) -> bool {
    item_id matches Some(id) && s.menu_items_id@.contains(id)
}

/// The number of sales of the period that include the menu item `item_id`.
/// A sale that lists the item twice counts once.
pub open spec fn item_sales(sales: Seq<Sale>, item_id: Option<i32>, from: i32, to: i32) -> nat
    decreases sales.len(),
{
    if sales.len() == 0 {
        0
    } else {
        item_sales(sales.drop_last(), item_id, from, to) + if sale_in_period(sales.last(), from, to)
            && sale_includes(sales.last(), item_id) {
            1nat
        } else {
            0nat
        }
    }
}

/// Whether the ingredient `ingredient_id` goes into the menu item `m`.
pub open spec fn item_uses(m: MenuItem, ingredient_id: Option<i32>) -> bool {
    ingredient_id matches Some(id) && m.ingredients_inventory_id@.contains(id)
}

/// How often the ingredient `ingredient_id` went into the sales of the
/// period: for each menu item that uses it, the number of sales of the period
/// that include that item.
pub open spec fn ingredient_usage(
    menu_items: Seq<MenuItem>,
    sales: Seq<Sale>,
    ingredient_id: Option<i32>,
    from: i32,
    to: i32,
) -> nat
    decreases menu_items.len(),
{
    if menu_items.len() == 0 {
        0
    } else {
        ingredient_usage(menu_items.drop_last(), sales, ingredient_id, from, to) + if item_uses(
            menu_items.last(),
            ingredient_id,
        ) {
            item_sales(sales, menu_items.last().id, from, to)
        } else {
            0nat
        }
    }
}

/// The key by which the report groups ingredients: the name and the amount
/// held.
pub open spec fn group_key(i: Ingredient) -> (Seq<char>, i32) {
    (i.item_name@, i.item_amount)
}

/// The usage of a group: the sum of the usages of the ingredients with the
/// key `key`.
pub open spec fn group_usage(
    ingredients: Seq<Ingredient>,
    menu_items: Seq<MenuItem>,
    sales: Seq<Sale>,
    key: (Seq<char>, i32),
    from: i32,
    to: i32,
) -> nat
    decreases ingredients.len(),
{
    if ingredients.len() == 0 {
        0
    } else {
        group_usage(ingredients.drop_last(), menu_items, sales, key, from, to) + if group_key(
            ingredients.last(),
        ) == key {
            ingredient_usage(menu_items, sales, ingredients.last().id, from, to)
        } else {
            0nat
        }
    }
}

/// The distinct keys of the ingredients, in the order of their first
/// appearance.
pub open spec fn group_keys(ingredients: Seq<Ingredient>) -> Seq<(Seq<char>, i32)>
    decreases ingredients.len(),
{
    if ingredients.len() == 0 {
        Seq::empty()
    } else {
        let earlier = group_keys(ingredients.drop_last());
        if earlier.contains(group_key(ingredients.last())) {
            earlier
        } else {
            earlier.push(group_key(ingredients.last()))
        }
    }
}

/// Whether the share `100 * used / (used + held)` percent is below 10.
pub open spec fn share_below_ten(used: int, held: int) -> bool {
    if used + held > 0 {
        100 * used < 10 * (used + held)
    } else {
        used + held < 0
    }
}

/// `n / d` rounded to the nearest integer, halves away from zero, for `n >= 0`
/// and `d != 0`.
pub open spec fn round_half_away(n: int, d: int) -> int {
    let m = if d > 0 { d } else { -d };
    let h = n / m + if 2 * (n % m) >= m { 1int } else { 0int };
    if d > 0 { h } else { -h }
}

/// The share `100 * used / (used + held)` percent in hundredths, rounded.
pub open spec fn share_hundredths(used: int, held: int) -> int {
    round_half_away(10000 * used, used + held)
}

/// Whether the group `key` is reported on but its share is undefined: it was
/// used, and its usage and its stock add up to zero.
pub open spec fn zero_share_denominator(
    ingredients: Seq<Ingredient>,
    menu_items: Seq<MenuItem>,
    sales: Seq<Sale>,
    key: (Seq<char>, i32),
    from: i32,
    to: i32,
) -> bool {
    let used = group_usage(ingredients, menu_items, sales, key, from, to);
    used >= 1 && used + key.1 == 0
}

/// The lines of the excess report for the groups `keys`, in their order: a
/// group is listed when it was used in the period and its share is below 10
/// percent.
pub open spec fn excess_lines(
    keys: Seq<(Seq<char>, i32)>,
    ingredients: Seq<Ingredient>,
    menu_items: Seq<MenuItem>,
    sales: Seq<Sale>,
    from: i32,
    to: i32,
) -> Seq<(Seq<char>, int)>
    decreases keys.len(),
{
    if keys.len() == 0 {
        Seq::empty()
    } else {
        let earlier = excess_lines(keys.drop_last(), ingredients, menu_items, sales, from, to);
        let key = keys.last();
        let used = group_usage(ingredients, menu_items, sales, key, from, to);
        if used >= 1 && used + key.1 != 0 && share_below_ten(used as int, key.1 as int) {
            earlier.push((key.0, share_hundredths(used as int, key.1 as int)))
        } else {
            earlier
        }
    }
}

/// Whether the excess report is undefined: some group of the inventory has
/// an undefined share.
pub open spec fn excess_undefined(
    ingredients: Seq<Ingredient>,
    menu_items: Seq<MenuItem>,
    sales: Seq<Sale>,
    from: i32,
    to: i32,
) -> bool {
    exists|x: int|
        0 <= x < group_keys(ingredients).len() && #[trigger] zero_share_denominator(
            ingredients,
            menu_items,
            sales,
            group_keys(ingredients)[x],
            from,
            to,
        )
}

/// Whether the report `report` holds exactly the lines `lines`, in order.
pub open spec fn excess_report_is(report: Seq<Excess>, lines: Seq<(Seq<char>, int)>) -> bool {
    &&& report.len() == lines.len()
    &&& forall|k: int|
        0 <= k < lines.len() ==> (#[trigger] report[k]).ingredient@ == lines[k].0
            && report[k].percent_hundredths == lines[k].1
}

/// `n`, or `u64::MAX` when `n` does not fit below it.
pub open spec fn capped(n: nat) -> u64 {
    if n < u64::MAX {
        n as u64
    } else {
        u64::MAX
    }
}

fn contains_id(ids: &Vec<i32>, id: i32) -> (found: bool)
    ensures
        found == ids@.contains(id),
{
    let mut k: usize = 0;
    while k < ids.len()
        invariant
            k <= ids@.len(),
            forall|j: int| 0 <= j < k ==> ids@[j] != id,
        decreases ids@.len() - k,
    {
        if ids[k] == id {
            assert(ids@[k as int] == id);
            return true;
        }
        k += 1;
    }
    false
}

fn count_item_sales(sales: &Vec<Sale>, item_id: Option<i32>, from: i32, to: i32) -> (count: u64)
    ensures
        count == item_sales(sales@, item_id, from, to),
{
    let mut count: u64 = 0;
    let mut k: usize = 0;
    while k < sales.len()
        invariant
            k <= sales@.len(),
            count == item_sales(sales@.take(k as int), item_id, from, to),
            count <= k,
        decreases sales@.len() - k,
    {
        let sale = &sales[k];
        let in_period = match sale.timestamp {
            Some(d) => from <= d && d <= to,
            None => false,
        };
        let includes = match item_id {
            Some(id) => contains_id(&sale.menu_items_id, id),
            None => false,
        };
        assert(sales@.take(k + 1).drop_last() =~= sales@.take(k as int));
        if in_period && includes {
            count = count + 1;
        }
        k += 1;
    }
    assert(sales@.take(k as int) =~= sales@);
    count
}

fn usage_of_ingredient(
    menu_items: &Vec<MenuItem>,
    sales: &Vec<Sale>,
    item_counts: &Vec<u64>,
    ingredient_id: Option<i32>,
    from: i32,
    to: i32,
) -> (usage: u64)
    requires
        item_counts@.len() == menu_items@.len(),
        forall|j: int|
            0 <= j < menu_items@.len() ==> #[trigger] item_counts@[j] == item_sales(
                sales@,
                menu_items@[j].id,
                from,
                to,
            ),
    ensures
        usage == capped(ingredient_usage(menu_items@, sales@, ingredient_id, from, to)),
{
    let mut usage: u64 = 0;
    let mut j: usize = 0;
    while j < menu_items.len()
        invariant
            j <= menu_items@.len(),
            item_counts@.len() == menu_items@.len(),
            forall|x: int|
                0 <= x < menu_items@.len() ==> #[trigger] item_counts@[x] == item_sales(
                    sales@,
                    menu_items@[x].id,
                    from,
                    to,
                ),
            usage == capped(
                ingredient_usage(menu_items@.take(j as int), sales@, ingredient_id, from, to),
            ),
        decreases menu_items@.len() - j,
    {
        let item = &menu_items[j];
        let uses = match ingredient_id {
            Some(id) => contains_id(&item.ingredients_inventory_id, id),
            None => false,
        };
        proof {
            assert(menu_items@.take(j + 1).drop_last() =~= menu_items@.take(j as int));
        }
        let added: u64 = if uses {
            item_counts[j]
        } else {
            0
        };
        usage = usage.saturating_add(added);
        j += 1;
    }
    assert(menu_items@.take(j as int) =~= menu_items@);
    usage
}

fn usage_of_group(
    ingredients: &Vec<Ingredient>,
    menu_items: &Vec<MenuItem>,
    sales: &Vec<Sale>,
    usages: &Vec<u64>,
    name: &String,
    amount: i32,
    from: i32,
    to: i32,
) -> (usage: u64)
    requires
        usages@.len() == ingredients@.len(),
        forall|j: int|
            0 <= j < ingredients@.len() ==> #[trigger] usages@[j] == capped(
                ingredient_usage(menu_items@, sales@, ingredients@[j].id, from, to),
            ),
    ensures
        usage == capped(group_usage(ingredients@, menu_items@, sales@, (name@, amount), from, to)),
{
    let mut usage: u64 = 0;
    let mut j: usize = 0;
    while j < ingredients.len()
        invariant
            j <= ingredients@.len(),
            usages@.len() == ingredients@.len(),
            forall|x: int|
                0 <= x < ingredients@.len() ==> #[trigger] usages@[x] == capped(
                    ingredient_usage(menu_items@, sales@, ingredients@[x].id, from, to),
                ),
            usage == capped(
                group_usage(
                    ingredients@.take(j as int),
                    menu_items@,
                    sales@,
                    (name@, amount),
                    from,
                    to,
                ),
            ),
        decreases ingredients@.len() - j,
    {
        let ingredient = &ingredients[j];
        let same = ingredient.item_name == *name && ingredient.item_amount == amount;
        proof {
            assert(ingredients@.take(j + 1).drop_last() =~= ingredients@.take(j as int));
        }
        let added: u64 = if same {
            usages[j]
        } else {
            0
        };
        usage = usage.saturating_add(added);
        j += 1;
    }
    assert(ingredients@.take(j as int) =~= ingredients@);
    usage
}

fn rounded_hundredths(used: u64, denominator: i128) -> (hundredths: i128)
    requires
        denominator != 0,
        -0x1_0000_0000_0000_0000 <= denominator <= 0x2_0000_0000_0000_0000,
    ensures
        hundredths == round_half_away(10000 * used, denominator as int),
{
    let n: u128 = 10000 * (used as u128);
    let m: u128 = if denominator > 0 {
        denominator as u128
    } else {
        (-denominator) as u128
    };
    let q: u128 = n / m;
    let r: u128 = n % m;
    let h: u128 = if 2 * r >= m {
        q + 1
    } else {
        q
    };
    proof {
        assert(q <= n) by (nonlinear_arith)
            requires
                m >= 1,
                q == n / m,
        ;
    }
    if denominator > 0 {
        h as i128
    } else {
        -(h as i128)
    }
}

fn has_group(ingredients: &Vec<Ingredient>, firsts: &Vec<usize>, k: usize) -> (found: bool)
    requires
        k < ingredients@.len(),
        forall|x: int| 0 <= x < firsts@.len() ==> #[trigger] firsts@[x] < ingredients@.len(),
    ensures
        found == exists|y: int|
            0 <= y < firsts@.len() && #[trigger] group_key(ingredients@[firsts@[y] as int])
                == group_key(ingredients@[k as int]),
{
    let ingredient = &ingredients[k];
    let mut y: usize = 0;
    while y < firsts.len()
        invariant
            y <= firsts@.len(),
            k < ingredients@.len(),
            *ingredient == ingredients@[k as int],
            forall|x: int| 0 <= x < firsts@.len() ==> #[trigger] firsts@[x] < ingredients@.len(),
            forall|z: int|
                0 <= z < y ==> #[trigger] group_key(ingredients@[firsts@[z] as int]) != group_key(
                    ingredients@[k as int],
                ),
        decreases firsts@.len() - y,
    {
        let other = &ingredients[firsts[y]];
        let same_name = other.item_name == ingredient.item_name;
        if same_name && other.item_amount == ingredient.item_amount {
            assert(group_key(ingredients@[firsts@[y as int] as int]) == group_key(
                ingredients@[k as int],
            ));
            return true;
        }
        y += 1;
    }
    false
}

/// The excess report for the sales from day `from` to day `to`, both
/// included: for each group of ingredients with the same name and amount held,
/// in the order of their first appearance in the inventory, a line when the
/// group was used in the period and its usage is less than a tenth of usage
/// and stock together. It is undefined, and the error is returned, when some
/// used group's usage and stock add up to zero.
pub fn excess_report(
    ingredients: &Vec<Ingredient>,
    menu_items: &Vec<MenuItem>,
    sales: &Vec<Sale>,
    from: i32,
    to: i32,
) -> (report: Result<Vec<Excess>, ExcessError>)
    ensures
        match report {
            Ok(lines) => {
                &&& !excess_undefined(ingredients@, menu_items@, sales@, from, to)
                &&& excess_report_is(
                    lines@,
                    excess_lines(group_keys(ingredients@), ingredients@, menu_items@, sales@, from, to),
                )
            },
            Err(ExcessError::ZeroDenominator) => excess_undefined(
                ingredients@,
                menu_items@,
                sales@,
                from,
                to,
            ),
        },
{
    let ghost ings = ingredients@;
    let ghost menu = menu_items@;
    let ghost sold = sales@;

    // How many sales of the period include each menu item.
    let mut item_counts: Vec<u64> = Vec::new();
    let mut j: usize = 0;
    while j < menu_items.len()
        invariant
            j <= menu.len(),
            menu == menu_items@,
            sold == sales@,
            item_counts@.len() == j,
            forall|x: int|
                0 <= x < j ==> #[trigger] item_counts@[x] == item_sales(sold, menu[x].id, from, to),
        decreases menu.len() - j,
    {
        let c = count_item_sales(sales, menu_items[j].id, from, to);
        item_counts.push(c);
        j += 1;
    }

    // How often each ingredient went into those sales. Counts stop at
    // u64::MAX: a group used that often is neither reported nor undefined,
    // since its stock (an i32) is far smaller.
    let mut usages: Vec<u64> = Vec::new();
    let mut k: usize = 0;
    while k < ingredients.len()
        invariant
            k <= ings.len(),
            ings == ingredients@,
            menu == menu_items@,
            sold == sales@,
            item_counts@.len() == menu.len(),
            forall|x: int|
                0 <= x < menu.len() ==> #[trigger] item_counts@[x] == item_sales(sold, menu[x].id, from, to),
            usages@.len() == k,
            forall|x: int|
                0 <= x < k ==> #[trigger] usages@[x] == capped(ingredient_usage(menu, sold, ings[x].id, from, to)),
        decreases ings.len() - k,
    {
        let u = usage_of_ingredient(menu_items, sales, &item_counts, ingredients[k].id, from, to);
        usages.push(u);
        k += 1;
    }

    // The groups, in the order of their first appearance, with their usage.
    let mut firsts: Vec<usize> = Vec::new();
    let mut totals: Vec<u64> = Vec::new();
    let mut k: usize = 0;
    while k < ingredients.len()
        invariant
            k <= ings.len(),
            ings == ingredients@,
            menu == menu_items@,
            sold == sales@,
            usages@.len() == ings.len(),
            forall|x: int|
                0 <= x < ings.len() ==> #[trigger] usages@[x] == capped(ingredient_usage(menu, sold, ings[x].id, from, to)),
            firsts@.len() == group_keys(ings.take(k as int)).len(),
            totals@.len() == firsts@.len(),
            forall|x: int| 0 <= x < firsts@.len() ==> #[trigger] firsts@[x] < ings.len(),
            forall|x: int|
                0 <= x < firsts@.len() ==> group_key(ings[#[trigger] firsts@[x] as int])
                    == group_keys(ings.take(k as int))[x],
            forall|x: int|
                0 <= x < firsts@.len() ==> #[trigger] totals@[x] == capped(
                    group_usage(ings, menu, sold, group_keys(ings.take(k as int))[x], from, to),
                ),
        decreases ings.len() - k,
    {
        let ghost earlier = group_keys(ings.take(k as int));
        let ghost key = group_key(ings[k as int]);
        proof {
            assert(ings.take(k + 1).drop_last() =~= ings.take(k as int));
            assert(ings.take(k + 1).last() == ings[k as int]);
        }
        let found = has_group(ingredients, &firsts, k);
        if found {
            proof {
                let y = choose|y: int|
                    0 <= y < firsts@.len() && #[trigger] group_key(ings[firsts@[y] as int]) == key;
                assert(earlier[y] == key);
                assert(earlier.contains(key));
            }
        } else {
            proof {
                assert forall|y: int| 0 <= y < earlier.len() implies earlier[y] != key by {
                    assert(group_key(ings[firsts@[y] as int]) == earlier[y]);
                }
                assert(!earlier.contains(key));
            }
            let ingredient = &ingredients[k];
            let t = usage_of_group(
                ingredients,
                menu_items,
                sales,
                &usages,
                &ingredient.item_name,
                ingredient.item_amount,
                from,
                to,
            );
            firsts.push(k);
            totals.push(t);
        }
        k += 1;
    }
    let ghost keys = group_keys(ings);
    assert(ings.take(ings.len() as int) =~= ings);

    // The lines of the report.
    let mut lines: Vec<Excess> = Vec::new();
    let mut x: usize = 0;
    while x < firsts.len()
        invariant
            x <= firsts@.len(),
            ings == ingredients@,
            menu == menu_items@,
            sold == sales@,
            keys == group_keys(ings),
            firsts@.len() == keys.len(),
            totals@.len() == keys.len(),
            forall|y: int| 0 <= y < firsts@.len() ==> #[trigger] firsts@[y] < ings.len(),
            forall|y: int|
                0 <= y < firsts@.len() ==> group_key(ings[#[trigger] firsts@[y] as int]) == keys[y],
            forall|y: int|
                0 <= y < firsts@.len() ==> #[trigger] totals@[y] == capped(
                    group_usage(ings, menu, sold, keys[y], from, to),
                ),
            excess_report_is(lines@, excess_lines(keys.take(x as int), ings, menu, sold, from, to)),
            forall|y: int|
                0 <= y < x ==> !#[trigger] zero_share_denominator(ings, menu, sold, keys[y], from, to),
        decreases keys.len() - x,
    {
        let t = totals[x];
        let ingredient = &ingredients[firsts[x]];
        let held = ingredient.item_amount;
        let ghost key = keys[x as int];
        proof {
            assert(group_key(ings[firsts@[x as int] as int]) == key);
            assert(keys.take(x + 1).drop_last() =~= keys.take(x as int));
            assert(keys.take(x + 1).last() == key);
        }
        let ghost before = lines@;
        if t >= 1 {
            let denominator: i128 = t as i128 + held as i128;
            if denominator == 0 {
                assert(zero_share_denominator(ings, menu, sold, keys[x as int], from, to));
                return Err(ExcessError::ZeroDenominator);
            }
            let below = if denominator > 0 {
                100 * (t as i128) < 10 * denominator
            } else {
                true
            };
            if below {
                let h = rounded_hundredths(t, denominator);
                lines.push(Excess { ingredient: ingredient.item_name.clone(), percent_hundredths: h });
                assert(lines@ == before.push(lines@.last()));
            }
        }
        x += 1;
    }
    assert(keys.take(keys.len() as int) =~= keys);
    Ok(lines)
}

/// Whether a report line shows an amount below the minimum.
pub open spec fn line_below_minimum(r: Restock) -> bool {
    r.min_req matches Some(m) && r.item_amount < m
}

/// The restock report lists exactly the ingredients held below their minimum:
/// every line copies the name, amount and minimum of an ingredient whose
/// amount is below its minimum, and every ingredient whose amount is below its
/// minimum has such a line.
pub proof fn lemma_restock_lists_exactly_the_shortages(
    ingredients: Seq<Ingredient>,
    report: Seq<Restock>,
)
    requires
        restock_lines_of(report, ingredients.filter(|i: Ingredient| needs_restock(i))),
    ensures
        forall|k: int|
            #![trigger report[k]]
            0 <= k < report.len() ==> exists|i: int|
                0 <= i < ingredients.len() && (#[trigger] ingredients[i]).min_req is Some
                    && ingredients[i].item_amount < ingredients[i].min_req->0
                    && report[k].item_name@ == ingredients[i].item_name@
                    && report[k].item_amount == ingredients[i].item_amount
                    && report[k].min_req == ingredients[i].min_req,
        forall|i: int|
            0 <= i < ingredients.len() && (#[trigger] ingredients[i]).min_req is Some
                && ingredients[i].item_amount < ingredients[i].min_req->0 ==> exists|k: int|
                0 <= k < report.len() && (#[trigger] report[k]).item_name@
                    == ingredients[i].item_name@ && report[k].item_amount
                    == ingredients[i].item_amount && report[k].min_req == ingredients[i].min_req,
{
    broadcast use vstd::seq_lib::group_filter_ensures;

    let pred = |i: Ingredient| needs_restock(i);
    let rows = ingredients.filter(pred);
    assert forall|k: int| #![trigger report[k]] 0 <= k < report.len() implies exists|i: int|
        0 <= i < ingredients.len() && (#[trigger] ingredients[i]).min_req is Some
            && ingredients[i].item_amount < ingredients[i].min_req->0 && report[k].item_name@
            == ingredients[i].item_name@ && report[k].item_amount == ingredients[i].item_amount
            && report[k].min_req == ingredients[i].min_req by {
        ingredients.lemma_filter_pred(pred, k);
        assert(restock_line_of(report[k], rows[k]));
        assert(rows.contains(rows[k]));
        ingredients.lemma_filter_contains_rev(pred, rows[k]);
        let i = choose|i: int| 0 <= i < ingredients.len() && ingredients[i] == rows[k];
        assert(ingredients[i] == rows[k]);
    }
    assert forall|i: int|
        0 <= i < ingredients.len() && (#[trigger] ingredients[i]).min_req is Some
            && ingredients[i].item_amount < ingredients[i].min_req->0 implies exists|k: int|
        0 <= k < report.len() && (#[trigger] report[k]).item_name@ == ingredients[i].item_name@
            && report[k].item_amount == ingredients[i].item_amount && report[k].min_req
            == ingredients[i].min_req by {
        assert(pred(ingredients[i]));
        ingredients.lemma_filter_contains(pred, i);
        let k = choose|k: int| 0 <= k < rows.len() && rows[k] == ingredients[i];
        assert(restock_line_of(report[k], rows[k]));
    }
}

proof fn lemma_share_at_most_ten(used: int, held: int)
    requires
        used >= 1,
        used + held != 0,
        share_below_ten(used, held),
    ensures
        share_hundredths(used, held) <= 1000,
{
    let d = used + held;
    let n = 10000 * used;
    if d > 0 {
        assert(n / d <= 999) by (nonlinear_arith)
            requires
                n == 10000 * used,
                100 * used < 10 * d,
                d > 0,
        ;
    } else {
        assert(n / (-d) >= 0) by (nonlinear_arith)
            requires
                n >= 0,
                -d > 0,
        ;
    }
}

/// Every line of the excess report stands for a group that was used in the
/// period, and its rounded share is at most 10 percent (1000 hundredths).
pub proof fn lemma_excess_lines_below_ten_percent(
    keys: Seq<(Seq<char>, i32)>,
    ingredients: Seq<Ingredient>,
    menu_items: Seq<MenuItem>,
    sales: Seq<Sale>,
    from: i32,
    to: i32,
)
    ensures
        forall|k: int|
            0 <= k < excess_lines(keys, ingredients, menu_items, sales, from, to).len() ==> (
            #[trigger] excess_lines(keys, ingredients, menu_items, sales, from, to)[k]).1 <= 1000,
        forall|k: int|
            #![trigger excess_lines(keys, ingredients, menu_items, sales, from, to)[k]]
            0 <= k < excess_lines(keys, ingredients, menu_items, sales, from, to).len() ==> exists|
                x: int,
            |
                0 <= x < keys.len() && (#[trigger] keys[x]).0 == excess_lines(
                    keys,
                    ingredients,
                    menu_items,
                    sales,
                    from,
                    to,
                )[k].0 && group_usage(ingredients, menu_items, sales, keys[x], from, to) >= 1,
    decreases keys.len(),
{
    if keys.len() > 0 {
        let earlier_keys = keys.drop_last();
        lemma_excess_lines_below_ten_percent(earlier_keys, ingredients, menu_items, sales, from, to);
        let earlier = excess_lines(earlier_keys, ingredients, menu_items, sales, from, to);
        let lines = excess_lines(keys, ingredients, menu_items, sales, from, to);
        let key = keys.last();
        let used = group_usage(ingredients, menu_items, sales, key, from, to);
        if used >= 1 && used + key.1 != 0 && share_below_ten(used as int, key.1 as int) {
            lemma_share_at_most_ten(used as int, key.1 as int);
        }
        assert forall|k: int| #![trigger lines[k]] 0 <= k < lines.len() implies exists|x: int|
            0 <= x < keys.len() && (#[trigger] keys[x]).0 == lines[k].0 && group_usage(
                ingredients,
                menu_items,
                sales,
                keys[x],
                from,
                to,
            ) >= 1 by {
            if k < earlier.len() {
                assert(lines[k] == earlier[k]);
                let x = choose|x: int|
                    0 <= x < earlier_keys.len() && (#[trigger] earlier_keys[x]).0 == earlier[k].0
                        && group_usage(ingredients, menu_items, sales, earlier_keys[x], from, to)
                        >= 1;
                assert(keys[x] == earlier_keys[x]);
            } else {
                assert(keys[keys.len() - 1] == key);
            }
        }
    }
}

/// Whether `r` is `n / d` rounded to the nearest integer, halves away from
/// zero, for `n >= 0`: `n / d` lies at or above `r - 1/2` and below `r + 1/2`
/// when `d > 0`, mirrored when `d < 0`.
pub open spec fn nearest_with_halves_away(n: int, d: int, r: int) -> bool {
    if d > 0 {
        (2 * r - 1) * d <= 2 * n && 2 * n < (2 * r + 1) * d
    } else {
        (2 * (-r) - 1) * (-d) <= 2 * n && 2 * n < (2 * (-r) + 1) * (-d)
    }
}

proof fn lemma_rounding_is_nearest(n: int, d: int)
    requires
        n >= 0,
        d != 0,
    ensures
        nearest_with_halves_away(n, d, round_half_away(n, d)),
{
    let m = if d > 0 {
        d
    } else {
        -d
    };
    vstd::arithmetic::div_mod::lemma_fundamental_div_mod(n, m);
    vstd::arithmetic::div_mod::lemma_mod_bound(n, m);
    let q = n / m;
    let rem = n % m;
    if 2 * rem >= m {
        assert((2 * (q + 1) - 1) * m <= 2 * n && 2 * n < (2 * (q + 1) + 1) * m) by (nonlinear_arith)
            requires
                n == m * q + rem,
                0 <= rem < m,
                2 * rem >= m,
        ;
    } else {
        assert((2 * q - 1) * m <= 2 * n && 2 * n < (2 * q + 1) * m) by (nonlinear_arith)
            requires
                n == m * q + rem,
                0 <= rem < m,
                2 * rem < m,
        ;
    }
}

/// Whether a group used `u` times with stock `h` has a low share: usage below
/// 10 percent of usage plus stock, or usage plus stock negative.
pub open spec fn low_share(u: int, h: int) -> bool {
    (u + h > 0 && 100 * u < 10 * (u + h)) || u + h < 0
}

/// Whether the report line `line` stands for the group `key`, used `u` times:
/// it names the group and gives `10000 * u / (u + h)` rounded to the nearest
/// integer, halves away from zero.
pub open spec fn line_for_group(line: (Seq<char>, int), key: (Seq<char>, i32), u: int) -> bool {
    line.0 == key.0 && nearest_with_halves_away(10000 * u, u + key.1, line.1)
}

/// Whether the group `key` is used at least once and has a low share.
pub open spec fn reported_group(
    ingredients: Seq<Ingredient>,
    menu_items: Seq<MenuItem>,
    sales: Seq<Sale>,
    key: (Seq<char>, i32),
    from: i32,
    to: i32,
) -> bool {
    let u = group_usage(ingredients, menu_items, sales, key, from, to) as int;
    u >= 1 && low_share(u, key.1 as int)
}

proof fn lemma_excess_lines_complete(
    keys: Seq<(Seq<char>, i32)>,
    ingredients: Seq<Ingredient>,
    menu_items: Seq<MenuItem>,
    sales: Seq<Sale>,
    from: i32,
    to: i32,
    x: int,
)
    requires
        0 <= x < keys.len(),
        reported_group(ingredients, menu_items, sales, keys[x], from, to),
    ensures
        exists|k: int|
            0 <= k < excess_lines(keys, ingredients, menu_items, sales, from, to).len()
                && line_for_group(
                #[trigger] excess_lines(keys, ingredients, menu_items, sales, from, to)[k],
                keys[x],
                group_usage(ingredients, menu_items, sales, keys[x], from, to) as int,
            ),
    decreases keys.len(),
{
    let lines = excess_lines(keys, ingredients, menu_items, sales, from, to);
    let rest = keys.drop_last();
    let earlier = excess_lines(rest, ingredients, menu_items, sales, from, to);
    let u = group_usage(ingredients, menu_items, sales, keys[x], from, to) as int;
    let h = keys[x].1 as int;
    if x == keys.len() - 1 {
        assert(share_below_ten(u, h));
        lemma_rounding_is_nearest(10000 * u, u + h);
        assert(line_for_group(lines[lines.len() - 1], keys[x], u));
    } else {
        assert(rest[x] == keys[x]);
        lemma_excess_lines_complete(rest, ingredients, menu_items, sales, from, to, x);
        let k = choose|k: int|
            0 <= k < earlier.len() && line_for_group(#[trigger] earlier[k], rest[x], u);
        assert(lines[k] == earlier[k]);
    }
}

proof fn lemma_excess_lines_sound(
    keys: Seq<(Seq<char>, i32)>,
    ingredients: Seq<Ingredient>,
    menu_items: Seq<MenuItem>,
    sales: Seq<Sale>,
    from: i32,
    to: i32,
    k: int,
)
    requires
        0 <= k < excess_lines(keys, ingredients, menu_items, sales, from, to).len(),
    ensures
        exists|x: int|
            0 <= x < keys.len() && reported_group(
                ingredients,
                menu_items,
                sales,
                #[trigger] keys[x],
                from,
                to,
            ) && line_for_group(
                excess_lines(keys, ingredients, menu_items, sales, from, to)[k],
                keys[x],
                group_usage(ingredients, menu_items, sales, keys[x], from, to) as int,
            ),
    decreases keys.len(),
{
    let lines = excess_lines(keys, ingredients, menu_items, sales, from, to);
    let rest = keys.drop_last();
    let earlier = excess_lines(rest, ingredients, menu_items, sales, from, to);
    if k < earlier.len() {
        lemma_excess_lines_sound(rest, ingredients, menu_items, sales, from, to, k);
        assert(lines[k] == earlier[k]);
        let x = choose|x: int|
            0 <= x < rest.len() && reported_group(
                ingredients,
                menu_items,
                sales,
                #[trigger] rest[x],
                from,
                to,
            ) && line_for_group(
                earlier[k],
                rest[x],
                group_usage(ingredients, menu_items, sales, rest[x], from, to) as int,
            );
        assert(keys[x] == rest[x]);
    } else {
        let x = keys.len() - 1;
        let u = group_usage(ingredients, menu_items, sales, keys[x], from, to) as int;
        let h = keys[x].1 as int;
        assert(keys[x] == keys.last());
        lemma_rounding_is_nearest(10000 * u, u + h);
        assert(line_for_group(lines[k], keys[x], u));
    }
}

/// Whether some line of `lines` stands for the group `key`, used `u` times.
pub open spec fn has_line_for_group(lines: Seq<(Seq<char>, int)>, key: (Seq<char>, i32), u: int) -> bool {
    exists|k: int| 0 <= k < lines.len() && line_for_group(#[trigger] lines[k], key, u)
}

/// Whether the line `line` stands for some group among `keys` that is used
/// and has a low share.
pub open spec fn line_for_reported_group(
    line: (Seq<char>, int),
    keys: Seq<(Seq<char>, i32)>,
    ingredients: Seq<Ingredient>,
    menu_items: Seq<MenuItem>,
    sales: Seq<Sale>,
    from: i32,
    to: i32,
) -> bool {
    exists|x: int|
        0 <= x < keys.len() && reported_group(ingredients, menu_items, sales, #[trigger] keys[x], from, to)
            && line_for_group(
            line,
            keys[x],
            group_usage(ingredients, menu_items, sales, keys[x], from, to) as int,
        )
}

/// The excess report lists a group of ingredients exactly when it was used in
/// the period (`u >= 1` uses) and its usage is less than 10 percent of usage
/// plus stock `h` (`100 * u < 10 * (u + h)` with `u + h > 0`), or usage plus
/// stock is negative; each line names the group and gives
/// `10000 * u / (u + h)` rounded to the nearest integer, halves away from zero.
pub proof fn lemma_excess_report_lists_low_shares(
    ingredients: Seq<Ingredient>,
    menu_items: Seq<MenuItem>,
    sales: Seq<Sale>,
    from: i32,
    to: i32,
)
    ensures
        forall|x: int|
            0 <= x < group_keys(ingredients).len() && reported_group(
                ingredients,
                menu_items,
                sales,
                #[trigger] group_keys(ingredients)[x],
                from,
                to,
            ) ==> has_line_for_group(
                excess_lines(group_keys(ingredients), ingredients, menu_items, sales, from, to),
                group_keys(ingredients)[x],
                group_usage(ingredients, menu_items, sales, group_keys(ingredients)[x], from, to)
                    as int,
            ),
        forall|k: int|
            0 <= k < excess_lines(
                group_keys(ingredients),
                ingredients,
                menu_items,
                sales,
                from,
                to,
            ).len() ==> line_for_reported_group(
                #[trigger] excess_lines(
                    group_keys(ingredients),
                    ingredients,
                    menu_items,
                    sales,
                    from,
                    to,
                )[k],
                group_keys(ingredients),
                ingredients,
                menu_items,
                sales,
                from,
                to,
            ),
{
    let keys = group_keys(ingredients);
    let lines = excess_lines(keys, ingredients, menu_items, sales, from, to);
    assert forall|x: int|
        0 <= x < keys.len() && reported_group(
            ingredients,
            menu_items,
            sales,
            #[trigger] keys[x],
            from,
            to,
        ) implies has_line_for_group(
        lines,
        keys[x],
        group_usage(ingredients, menu_items, sales, keys[x], from, to) as int,
    ) by {
        lemma_excess_lines_complete(keys, ingredients, menu_items, sales, from, to, x);
    }
    assert forall|k: int| 0 <= k < lines.len() implies line_for_reported_group(
        #[trigger] lines[k],
        keys,
        ingredients,
        menu_items,
        sales,
        from,
        to,
    ) by {
        lemma_excess_lines_sound(keys, ingredients, menu_items, sales, from, to, k);
    }
}

/// The groups of the excess report are the distinct pairs of name and amount
/// held found in the inventory: no pair twice, every ingredient's pair among
/// them, and each of them the pair of some ingredient.
pub proof fn lemma_groups_are_distinct_name_amount_pairs(ingredients: Seq<Ingredient>)
    ensures
        forall|x: int, y: int|
            0 <= x < y < group_keys(ingredients).len() ==> #[trigger] group_keys(ingredients)[x]
                != #[trigger] group_keys(ingredients)[y],
        forall|i: int|
            0 <= i < ingredients.len() ==> group_keys(ingredients).contains(
                ((#[trigger] ingredients[i]).item_name@, ingredients[i].item_amount),
            ),
        forall|x: int|
            0 <= x < group_keys(ingredients).len() ==> exists|i: int|
                0 <= i < ingredients.len() && #[trigger] group_keys(ingredients)[x] == (
                    ingredients[i].item_name@,
                    ingredients[i].item_amount,
                ),
    decreases ingredients.len(),
{
    if ingredients.len() > 0 {
        let rest = ingredients.drop_last();
        lemma_groups_are_distinct_name_amount_pairs(rest);
        let keys = group_keys(ingredients);
        let earlier = group_keys(rest);
        let last = ingredients.len() - 1;
        let key = (ingredients[last].item_name@, ingredients[last].item_amount);
        assert(ingredients.last() == ingredients[last]);
        assert forall|i: int|
            0 <= i < ingredients.len() implies keys.contains(
            ((#[trigger] ingredients[i]).item_name@, ingredients[i].item_amount),
        ) by {
            if i < last {
                assert(rest[i] == ingredients[i]);
                assert(earlier.contains((rest[i].item_name@, rest[i].item_amount)));
                let y = choose|y: int|
                    0 <= y < earlier.len() && earlier[y] == (rest[i].item_name@, rest[i].item_amount);
                assert(keys[y] == earlier[y]);
            } else if earlier.contains(key) {
                let y = choose|y: int| 0 <= y < earlier.len() && earlier[y] == key;
                assert(keys[y] == earlier[y]);
            } else {
                assert(keys[keys.len() - 1] == key);
            }
        }
        assert forall|x: int| 0 <= x < keys.len() implies exists|i: int|
            0 <= i < ingredients.len() && #[trigger] keys[x] == (
                ingredients[i].item_name@,
                ingredients[i].item_amount,
            ) by {
            if x < earlier.len() {
                assert(keys[x] == earlier[x]);
                let i = choose|i: int|
                    0 <= i < rest.len() && #[trigger] earlier[x] == (
                        rest[i].item_name@,
                        rest[i].item_amount,
                    );
                assert(rest[i] == ingredients[i]);
            } else {
                assert(keys[x] == key);
            }
        }
        assert forall|x: int, y: int|
            0 <= x < y < keys.len() implies #[trigger] keys[x] != #[trigger] keys[y] by {
            if y < earlier.len() {
                assert(keys[x] == earlier[x] && keys[y] == earlier[y]);
            } else {
                assert(keys[x] == earlier[x]);
                assert(!earlier.contains(key));
            }
        }
    }
}

/// Counting in one sale more: a sale adds one to the count of a menu item
/// exactly when it took place on a day from `from` to `to` and lists the
/// item's id; it adds to the usage of an ingredient, for each menu item using
/// the ingredient's id, one when it counts for that item; and one more
/// ingredient adds its usage to the usage of its own name and amount only.
pub proof fn lemma_counts_grow_by_matching_rows(
    sales: Seq<Sale>,
    sale: Sale,
    item_id: Option<i32>,
    menu_items: Seq<MenuItem>,
    item: MenuItem,
    ingredient_id: Option<i32>,
    ingredients: Seq<Ingredient>,
    ingredient: Ingredient,
    key: (Seq<char>, i32),
    from: i32,
    to: i32,
)
    ensures
        item_sales(sales.push(sale), item_id, from, to) == item_sales(sales, item_id, from, to) + if (
        sale.timestamp matches Some(d) && from <= d && d <= to) && (item_id matches Some(id)
            && sale.menu_items_id@.contains(id)) {
            1int
        } else {
            0int
        },
        ingredient_usage(menu_items.push(item), sales, ingredient_id, from, to) == ingredient_usage(
            menu_items,
            sales,
            ingredient_id,
            from,
            to,
        ) + if ingredient_id matches Some(id) && item.ingredients_inventory_id@.contains(id) {
            item_sales(sales, item.id, from, to) as int
        } else {
            0int
        },
        group_usage(ingredients.push(ingredient), menu_items, sales, key, from, to) == group_usage(
            ingredients,
            menu_items,
            sales,
            key,
            from,
            to,
        ) + if ingredient.item_name@ == key.0 && ingredient.item_amount == key.1 {
            ingredient_usage(menu_items, sales, ingredient.id, from, to) as int
        } else {
            0int
        },
{
    assert(sales.push(sale).drop_last() =~= sales);
    assert(menu_items.push(item).drop_last() =~= menu_items);
    assert(ingredients.push(ingredient).drop_last() =~= ingredients);
}

/// The excess report is undefined exactly when some pair of name and amount
/// held in the inventory was used in the period and its usage and stock add
/// up to zero.
pub proof fn lemma_excess_undefined_when_share_has_zero_denominator(
    ingredients: Seq<Ingredient>,
    menu_items: Seq<MenuItem>,
    sales: Seq<Sale>,
    from: i32,
    to: i32,
)
    ensures
        excess_undefined(ingredients, menu_items, sales, from, to) <==> exists|x: int|
            0 <= x < group_keys(ingredients).len() && group_usage(
                ingredients,
                menu_items,
                sales,
                #[trigger] group_keys(ingredients)[x],
                from,
                to,
            ) >= 1 && group_usage(ingredients, menu_items, sales, group_keys(ingredients)[x], from, to)
                + group_keys(ingredients)[x].1 == 0,
{
    let keys = group_keys(ingredients);
    if excess_undefined(ingredients, menu_items, sales, from, to) {
        let x = choose|x: int|
            0 <= x < keys.len() && #[trigger] zero_share_denominator(
                ingredients,
                menu_items,
                sales,
                keys[x],
                from,
                to,
            );
        assert(group_usage(ingredients, menu_items, sales, keys[x], from, to) >= 1);
    }
    if exists|x: int|
        0 <= x < keys.len() && group_usage(
            ingredients,
            menu_items,
            sales,
            #[trigger] keys[x],
            from,
            to,
        ) >= 1 && group_usage(ingredients, menu_items, sales, keys[x], from, to) + keys[x].1 == 0 {
        let x = choose|x: int|
            0 <= x < keys.len() && group_usage(
                ingredients,
                menu_items,
                sales,
                #[trigger] keys[x],
                from,
                to,
            ) >= 1 && group_usage(ingredients, menu_items, sales, keys[x], from, to) + keys[x].1
                == 0;
        assert(zero_share_denominator(ingredients, menu_items, sales, keys[x], from, to));
    }
}

/// A report holds given lines when it has as many entries, each naming the
/// line's group and giving the line's share in hundredths.
pub proof fn lemma_report_entries_are_the_lines(report: Seq<Excess>, lines: Seq<(Seq<char>, int)>)
    requires
        excess_report_is(report, lines),
    ensures
        report.len() == lines.len(),
        forall|k: int|
            0 <= k < lines.len() ==> (#[trigger] report[k]).ingredient@ == lines[k].0
                && report[k].percent_hundredths == lines[k].1,
{
}

} // verus!
