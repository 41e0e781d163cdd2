//! Menu items and the translation of the menu.
//!
//! A translated menu is served item by item: an item whose translation into
//! the requested language is cached is served from the cache, the others are
//! translated by the caller and served after the cached ones, the last pending
//! item first, and their translations are cached with
//! `record_menu_translations`.

use vstd::prelude::*;
use crate::cache::TranslationCache;
use crate::json::string_views;
use crate::translate::source_language;

verus! {

/// An item on the menu. Its price is kept as the bit pattern of a 32-bit
/// float; `ingredients_inventory_id` lists the ids of the ingredients that go
/// into it.
pub struct MenuItem {
    pub id: Option<i32>,
    pub name: String,
    pub category: String,
    pub ingredients_inventory_id: Vec<i32>,
    pub price_bits: u32,
    pub description: String,
}

fn copy_ids(ids: &Vec<i32>) -> (copy: Vec<i32>)
    ensures
        copy@ == ids@,
{
    let mut copy: Vec<i32> = Vec::new();
    let mut k: usize = 0;
    while k < ids.len()
        invariant
            k <= ids@.len(),
            copy@ == ids@.take(k as int),
        decreases ids@.len() - k,
    {
        copy.push(ids[k]);
        k += 1;
        assert(copy@ =~= ids@.take(k as int));
    }
    assert(ids@.take(k as int) =~= ids@);
    copy
}

/// Whether two menu items hold the same values.
pub open spec fn same_menu_item(a: MenuItem, b: MenuItem) -> bool {
    &&& a.id == b.id
    &&& a.name@ == b.name@
    &&& a.category@ == b.category@
    &&& a.ingredients_inventory_id@ == b.ingredients_inventory_id@
    &&& a.price_bits == b.price_bits
    &&& a.description@ == b.description@
}

impl Clone for MenuItem {
    /// A copy of the item.
    fn clone(&self) -> (copy: MenuItem)
        ensures
            same_menu_item(copy, *self),
    {
        MenuItem {
            id: self.id,
            name: self.name.clone(),
            category: self.category.clone(),
            ingredients_inventory_id: copy_ids(&self.ingredients_inventory_id),
            price_bits: self.price_bits,
            description: self.description.clone(),
        }
    }
}

/// The item `item` with its name, category and description replaced by their
/// translations; its id, ingredients and price are kept.
pub fn translated_menu_item(
    item: &MenuItem,
    name: String,
    category: String,
    description: String,
) -> (translated: MenuItem)
    ensures
        translated.id == item.id,
        translated.name@ == name@,
        translated.category@ == category@,
        translated.ingredients_inventory_id@ == item.ingredients_inventory_id@,
        translated.price_bits == item.price_bits,
        translated.description@ == description@,
{
    MenuItem {
        id: item.id,
        name,
        category,
        ingredients_inventory_id: copy_ids(&item.ingredients_inventory_id),
        price_bits: item.price_bits,
        description,
    }
}

/// An item of the menu still to be translated: its position in the menu and
/// the key under which its translation is cached.
pub struct PendingTranslation {
    pub index: usize,
    pub key: String,
}

/// How a translated menu is served: the cached translations, in the order of
/// their items, and the items still to be translated, in the order of the
/// menu. The caller serves the cached ones first, then translates and serves
/// the pending ones from the last to the first, and caches their translations
/// with `record_menu_translations`.
pub struct MenuPlan {
    pub cached: Vec<String>,
    pub pending: Vec<PendingTranslation>,
}

/// The key under which the translation into `language` of the item with the
/// JSON text `item` is cached.
pub open spec fn menu_key(language: Seq<char>, item: Seq<char>) -> Seq<char> {
    language + item
}

/// The cached translations into `language` of the items `items` (given by
/// their JSON texts), in the order of the items.
pub open spec fn cached_translations(
    cache: Map<Seq<char>, Seq<char>>,
    language: Seq<char>,
    items: Seq<Seq<char>>,
) -> Seq<Seq<char>>
    decreases items.len(),
{
    if items.len() == 0 {
        Seq::empty()
    } else {
        let earlier = cached_translations(cache, language, items.drop_last());
        let key = menu_key(language, items.last());
        if cache.contains_key(key) {
            earlier.push(cache[key])
        } else {
            earlier
        }
    }
}

/// The items (positions and keys) whose translation into `language` is not
/// cached, in the order of the items.
pub open spec fn pending_translations(
    cache: Map<Seq<char>, Seq<char>>,
    language: Seq<char>,
    items: Seq<Seq<char>>,
) -> Seq<(int, Seq<char>)>
    decreases items.len(),
{
    if items.len() == 0 {
        Seq::empty()
    } else {
        let earlier = pending_translations(cache, language, items.drop_last());
        let key = menu_key(language, items.last());
        if cache.contains_key(key) {
            earlier
        } else {
            earlier.push((items.len() - 1, key))
        }
    }
}

/// The views of pending translations.
pub open spec fn pending_views(p: Seq<PendingTranslation>) -> Seq<(int, Seq<char>)> {
    p.map_values(|t: PendingTranslation| (t.index as int, t.key@))
}

/// How the menu whose items have the JSON texts `item_json` is served in
/// `language`: `None` when the language is the one the menu is written in,
/// and the menu is served as it is; otherwise the cached translations and the
/// items still to be translated.
pub fn plan_menu_translation(
    cache: &TranslationCache,
    language: &str,
    item_json: &Vec<String>,
) -> (plan: Option<MenuPlan>)
    ensures
        language@ == source_language() ==> plan is None,
        language@ != source_language() ==> (plan matches Some(p) && string_views(p.cached@)
            == cached_translations(cache@, language@, string_views(item_json@)) && pending_views(
            p.pending@,
        ) == pending_translations(cache@, language@, string_views(item_json@))),
{
    let requested = language.to_owned();
    let source = String::from_str("en");
    if requested == source {
        return None;
    }
    let ghost items = string_views(item_json@);
    let mut cached: Vec<String> = Vec::new();
    let mut pending: Vec<PendingTranslation> = Vec::new();
    let mut k: usize = 0;
    while k < item_json.len()
        invariant
            k <= item_json@.len(),
            items == string_views(item_json@),
            string_views(cached@) == cached_translations(
                cache@,
                language@,
                items.take(k as int),
            ),
            pending_views(pending@) == pending_translations(
                cache@,
                language@,
                items.take(k as int),
            ),
        decreases item_json@.len() - k,
    {
        let mut key = language.to_owned();
        key.append(item_json[k].as_str());
        proof {
            assert(items.take(k + 1).drop_last() =~= items.take(k as int));
            assert(items.take(k + 1).last() == item_json@[k as int]@);
        }
        let ghost cached_before = cached@;
        let ghost pending_before = pending@;
        match cache.get(key.as_str()) {
            Some(text) => {
                cached.push(text);
                assert(string_views(cached@) =~= string_views(cached_before).push(cached@.last()@));
            },
            None => {
                pending.push(PendingTranslation { index: k, key });
                assert(pending_views(pending@) =~= pending_views(pending_before).push(
                    (k as int, pending@.last().key@),
                ));
            },
        }
        k += 1;
    }
    assert(items.take(k as int) =~= items);
    Some(MenuPlan { cached, pending })
}

/// The cache once the pending translations were cached, the last pending item
/// first: `values[j]` is the translation of the pending item `pending[j]`.
pub open spec fn record_translations(
    cache: Map<Seq<char>, Seq<char>>,
    pending: Seq<(int, Seq<char>)>,
    values: Seq<Seq<char>>,
) -> Map<Seq<char>, Seq<char>>
    decreases pending.len(),
{
    if pending.len() == 0 || values.len() == 0 {
        cache
    } else {
        record_translations(
            cache.insert(pending.last().1, values.last()),
            pending.drop_last(),
            values.drop_last(),
        )
    }
}

/// Caches the translations of the pending items of a plan, the last pending
/// item first: `translations[j]` is the JSON text of the translated item
/// `pending[j]`, cached under its key.
pub fn record_menu_translations(
    cache: &mut TranslationCache,
    pending: Vec<PendingTranslation>,
    translations: Vec<String>,
)
    requires
        pending@.len() == translations@.len(),
    ensures
        final(cache)@ == record_translations(
            old(cache)@,
            pending_views(pending@),
            string_views(translations@),
        ),
{
    let ghost goal = record_translations(
        cache@,
        pending_views(pending@),
        string_views(translations@),
    );
    let mut pending = pending;
    let mut translations = translations;
    while pending.len() > 0
        invariant
            pending@.len() == translations@.len(),
            record_translations(cache@, pending_views(pending@), string_views(translations@))
                == goal,
        decreases pending@.len(),
    {
        let ghost p = pending_views(pending@);
        let ghost v = string_views(translations@);
        let next = pending.pop();
        let text = translations.pop();
        match (next, text) {
            (Some(item), Some(text)) => {
                proof {
                    assert(pending_views(pending@) =~= p.drop_last());
                    assert(string_views(translations@) =~= v.drop_last());
                    assert(p.last().1 == item.key@);
                    assert(v.last() == text@);
                }
                cache.insert(item.key, text);
            },
            _ => {},
        }
    }
    assert(pending_views(pending@) =~= Seq::<(int, Seq<char>)>::empty());
}

proof fn lemma_record_keeps_keys(
    cache: Map<Seq<char>, Seq<char>>,
    pending: Seq<(int, Seq<char>)>,
    values: Seq<Seq<char>>,
    key: Seq<char>,
)
    requires
        cache.contains_key(key),
    ensures
        record_translations(cache, pending, values).contains_key(key),
    decreases pending.len(),
{
    if pending.len() > 0 && values.len() > 0 {
        lemma_record_keeps_keys(
            cache.insert(pending.last().1, values.last()),
            pending.drop_last(),
            values.drop_last(),
            key,
        );
    }
}

proof fn lemma_record_adds_keys(
    cache: Map<Seq<char>, Seq<char>>,
    pending: Seq<(int, Seq<char>)>,
    values: Seq<Seq<char>>,
    j: int,
)
    requires
        values.len() == pending.len(),
        0 <= j < pending.len(),
    ensures
        record_translations(cache, pending, values).contains_key(pending[j].1),
    decreases pending.len(),
{
    let next = cache.insert(pending.last().1, values.last());
    if j == pending.len() - 1 {
        lemma_record_keeps_keys(next, pending.drop_last(), values.drop_last(), pending[j].1);
    } else {
        lemma_record_adds_keys(next, pending.drop_last(), values.drop_last(), j);
        assert(pending.drop_last()[j] == pending[j]);
    }
}

proof fn lemma_uncached_items_are_pending(
    cache: Map<Seq<char>, Seq<char>>,
    language: Seq<char>,
    items: Seq<Seq<char>>,
    i: int,
)
    requires
        0 <= i < items.len(),
        !cache.contains_key(menu_key(language, items[i])),
    ensures
        exists|j: int|
            0 <= j < pending_translations(cache, language, items).len()
                && #[trigger] pending_translations(cache, language, items)[j].1 == menu_key(
                language,
                items[i],
            ),
    decreases items.len(),
{
    let earlier = pending_translations(cache, language, items.drop_last());
    let all = pending_translations(cache, language, items);
    if i == items.len() - 1 {
        assert(all[all.len() - 1].1 == menu_key(language, items[i]));
    } else {
        lemma_uncached_items_are_pending(cache, language, items.drop_last(), i);
        assert(items.drop_last()[i] == items[i]);
        let j = choose|j: int|
            0 <= j < earlier.len() && #[trigger] earlier[j].1 == menu_key(
                language,
                items.drop_last()[i],
            );
        assert(all[j] == earlier[j]);
    }
}

proof fn lemma_all_cached(
    cache: Map<Seq<char>, Seq<char>>,
    language: Seq<char>,
    items: Seq<Seq<char>>,
)
    requires
        forall|i: int| 0 <= i < items.len() ==> cache.contains_key(menu_key(language, #[trigger] items[i])),
    ensures
        pending_translations(cache, language, items).len() == 0,
        cached_translations(cache, language, items).len() == items.len(),
    decreases items.len(),
{
    if items.len() > 0 {
        assert forall|i: int| 0 <= i < items.drop_last().len() implies cache.contains_key(
            menu_key(language, #[trigger] items.drop_last()[i]),
        ) by {
            assert(items.drop_last()[i] == items[i]);
        }
        lemma_all_cached(cache, language, items.drop_last());
        assert(cache.contains_key(menu_key(language, items[items.len() - 1])));
    }
}

/// A translated menu is served from the cache once its translations were
/// cached: after a translation was cached for every item that was pending (as
/// `record_menu_translations` does), no item of the same menu in the same
/// language is pending any more, a cached translation is served for each item,
/// and serving the menu again caches nothing new.
pub proof fn lemma_translated_menu_served_from_cache(
    cache: Map<Seq<char>, Seq<char>>,
    language: Seq<char>,
    items: Seq<Seq<char>>,
    values: Seq<Seq<char>>,
)
    requires
        values.len() == pending_translations(cache, language, items).len(),
    ensures
        pending_translations(
            record_translations(cache, pending_translations(cache, language, items), values),
            language,
            items,
        ).len() == 0,
        cached_translations(
            record_translations(cache, pending_translations(cache, language, items), values),
            language,
            items,
        ).len() == items.len(),
        ({
            let after = record_translations(
                cache,
                pending_translations(cache, language, items),
                values,
            );
            record_translations(
                after,
                pending_translations(after, language, items),
                Seq::empty(),
            ) == after
        }),
{
    let pending = pending_translations(cache, language, items);
    let after = record_translations(cache, pending, values);
    assert forall|i: int| 0 <= i < items.len() implies after.contains_key(
        menu_key(language, #[trigger] items[i]),
    ) by {
        if cache.contains_key(menu_key(language, items[i])) {
            lemma_record_keeps_keys(cache, pending, values, menu_key(language, items[i]));
        } else {
            lemma_uncached_items_are_pending(cache, language, items, i);
            let j = choose|j: int|
                0 <= j < pending.len() && #[trigger] pending[j].1 == menu_key(language, items[i]);
            lemma_record_adds_keys(cache, pending, values, j);
        }
    }
    lemma_all_cached(after, language, items);
}

/// Every item of a translated menu is served exactly once: either its cached
/// translation is served or it is pending translation.
pub proof fn lemma_every_item_served_once(
    cache: Map<Seq<char>, Seq<char>>,
    language: Seq<char>,
    items: Seq<Seq<char>>,
)
    ensures
        cached_translations(cache, language, items).len() + pending_translations(
            cache,
            language,
            items,
        ).len() == items.len(),
    decreases items.len(),
{
    if items.len() > 0 {
        lemma_every_item_served_once(cache, language, items.drop_last());
    }
}

/// The translation of an item is looked up and cached under the language
/// followed by the item's whole JSON text: each pending item stands at a
/// position of the menu, under the key made of the language and that item's
/// text, and that key is not cached; every item whose key is not cached is
/// pending; and every item whose key is cached is served the value cached
/// under that key. Items with different texts thus never share an entry.
pub proof fn lemma_menu_keys_are_language_and_item(
    cache: Map<Seq<char>, Seq<char>>,
    language: Seq<char>,
    items: Seq<Seq<char>>,
)
    ensures
        forall|j: int|
            #![trigger pending_translations(cache, language, items)[j]]
            0 <= j < pending_translations(cache, language, items).len() ==> {
                let p = pending_translations(cache, language, items)[j];
                &&& 0 <= p.0 < items.len()
                &&& p.1 == language + items[p.0]
                &&& !cache.contains_key(language + items[p.0])
            },
        forall|i: int|
            0 <= i < items.len() && !cache.contains_key(language + #[trigger] items[i]) ==> exists|
                j: int,
            |
                0 <= j < pending_translations(cache, language, items).len()
                    && (#[trigger] pending_translations(cache, language, items)[j]).0 == i,
        forall|i: int|
            0 <= i < items.len() && cache.contains_key(language + #[trigger] items[i])
                ==> cached_translations(cache, language, items).contains(
                cache[language + items[i]],
            ),
    decreases items.len(),
{
    if items.len() > 0 {
        let rest = items.drop_last();
        lemma_menu_keys_are_language_and_item(cache, language, rest);
        let pending = pending_translations(cache, language, items);
        let earlier = pending_translations(cache, language, rest);
        let cached = cached_translations(cache, language, items);
        let earlier_cached = cached_translations(cache, language, rest);
        let last = items.len() - 1;
        assert forall|j: int|
            #![trigger pending[j]]
            0 <= j < pending.len() implies {
            let p = pending[j];
            &&& 0 <= p.0 < items.len()
            &&& p.1 == language + items[p.0]
            &&& !cache.contains_key(language + items[p.0])
        } by {
            if j < earlier.len() {
                assert(pending[j] == earlier[j]);
                assert(rest[earlier[j].0] == items[earlier[j].0]);
            }
        }
        assert forall|i: int|
            0 <= i < items.len() && !cache.contains_key(language + #[trigger] items[i]) implies exists|
            j: int,
        | 0 <= j < pending.len() && (#[trigger] pending[j]).0 == i by {
            if i == last {
                assert(pending[pending.len() - 1].0 == i);
            } else {
                assert(rest[i] == items[i]);
                let j = choose|j: int| 0 <= j < earlier.len() && (#[trigger] earlier[j]).0 == i;
                assert(pending[j] == earlier[j]);
            }
        }
        assert forall|i: int|
            0 <= i < items.len() && cache.contains_key(language + #[trigger] items[i]) implies cached.contains(
            cache[language + items[i]],
        ) by {
            if i == last {
                assert(cached[cached.len() - 1] == cache[language + items[i]]);
            } else {
                assert(rest[i] == items[i]);
                let x = choose|x: int|
                    0 <= x < earlier_cached.len() && earlier_cached[x] == cache[language + rest[i]];
                assert(cached[x] == earlier_cached[x]);
            }
        }
    }
}

proof fn lemma_record_other_key(
    cache: Map<Seq<char>, Seq<char>>,
    pending: Seq<(int, Seq<char>)>,
    values: Seq<Seq<char>>,
    key: Seq<char>,
)
    requires
        values.len() == pending.len(),
        forall|j: int| 0 <= j < pending.len() ==> (#[trigger] pending[j]).1 != key,
    ensures
        record_translations(cache, pending, values).contains_key(key) == cache.contains_key(key),
        cache.contains_key(key) ==> record_translations(cache, pending, values)[key] == cache[key],
    decreases pending.len(),
{
    if pending.len() > 0 {
        let n = pending.len() - 1;
        let next = cache.insert(pending.last().1, values.last());
        let p = pending.drop_last();
        assert(pending[n].1 != key);
        assert forall|j: int| 0 <= j < p.len() implies (#[trigger] p[j]).1 != key by {
            assert(p[j] == pending[j]);
        }
        lemma_record_other_key(next, p, values.drop_last(), key);
    }
}

proof fn lemma_record_first_occurrence(
    cache: Map<Seq<char>, Seq<char>>,
    pending: Seq<(int, Seq<char>)>,
    values: Seq<Seq<char>>,
    j: int,
)
    requires
        values.len() == pending.len(),
        0 <= j < pending.len(),
        forall|i: int| 0 <= i < j ==> (#[trigger] pending[i]).1 != pending[j].1,
    ensures
        record_translations(cache, pending, values).contains_key(pending[j].1),
        record_translations(cache, pending, values)[pending[j].1] == values[j],
    decreases pending.len(),
{
    let n = pending.len() - 1;
    let next = cache.insert(pending.last().1, values.last());
    let p = pending.drop_last();
    let v = values.drop_last();
    if j < n {
        assert(p[j] == pending[j]);
        assert forall|i: int| 0 <= i < j implies (#[trigger] p[i]).1 != p[j].1 by {
            assert(p[i] == pending[i]);
        }
        lemma_record_first_occurrence(next, p, v, j);
    } else {
        let key = pending[j].1;
        assert forall|i: int| 0 <= i < p.len() implies (#[trigger] p[i]).1 != key by {
            assert(p[i] == pending[i]);
        }
        lemma_record_other_key(next, p, v, key);
    }
}

/// Recording the translations of pending items caches, under the key of each
/// pending item, the translation given for its first occurrence among the
/// pending items (the last pending item is cached first, so earlier ones win),
/// and leaves every other key as it was.
pub proof fn lemma_recorded_translations_values(
    cache: Map<Seq<char>, Seq<char>>,
    pending: Seq<(int, Seq<char>)>,
    values: Seq<Seq<char>>,
)
    requires
        values.len() == pending.len(),
    ensures
        forall|key: Seq<char>|
            (forall|j: int| 0 <= j < pending.len() ==> (#[trigger] pending[j]).1 != key) ==> (
            #[trigger] record_translations(cache, pending, values).contains_key(key)
                == cache.contains_key(key) && (cache.contains_key(key) ==> record_translations(
                cache,
                pending,
                values,
            )[key] == cache[key])),
        forall|j: int|
            0 <= j < pending.len() && (forall|i: int| 0 <= i < j ==> pending[i].1 != pending[j].1)
                ==> record_translations(cache, pending, values).contains_key(
                (#[trigger] pending[j]).1,
            ) && record_translations(cache, pending, values)[pending[j].1] == values[j],
{
    assert forall|key: Seq<char>|
        (forall|j: int| 0 <= j < pending.len() ==> (#[trigger] pending[j]).1 != key) implies (
        #[trigger] record_translations(cache, pending, values).contains_key(key)
            == cache.contains_key(key) && (cache.contains_key(key) ==> record_translations(
            cache,
            pending,
            values,
        )[key] == cache[key])) by {
        lemma_record_other_key(cache, pending, values, key);
    }
    assert forall|j: int|
        0 <= j < pending.len() && (forall|i: int| 0 <= i < j ==> pending[i].1 != pending[j].1)
            implies record_translations(cache, pending, values).contains_key(
        (#[trigger] pending[j]).1,
    ) && record_translations(cache, pending, values)[pending[j].1] == values[j] by {
        lemma_record_first_occurrence(cache, pending, values, j);
    }
}

/// A copy of a menu item has the same id, name, category, ingredients, price
/// and description; a pending translation is seen as its position and its key.
pub proof fn lemma_copies_and_pending_views(a: MenuItem, b: MenuItem, p: Seq<PendingTranslation>)
    ensures
        same_menu_item(a, b) ==> a.id == b.id && a.name@ == b.name@ && a.category@ == b.category@
            && a.ingredients_inventory_id@ == b.ingredients_inventory_id@ && a.price_bits
            == b.price_bits && a.description@ == b.description@,
        pending_views(p).len() == p.len(),
        forall|j: int|
            0 <= j < p.len() ==> #[trigger] pending_views(p)[j] == (p[j].index as int, p[j].key@),
{
}

} // verus!
