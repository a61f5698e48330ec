use vstd::prelude::*;
use crate::text::{chars_of, contains, contains_str, equals_str, find, find_chars, lemma_find_from_bounds};

verus! {

/// The translation type prefixes, in the order in which a line is matched against them.
pub open spec fn type_prefix(i: int) -> Seq<char> {
    if i == 0 {
        "item.energizedpower."@
    } else if i == 1 {
        "block.energizedpower."@
    } else if i == 2 {
        "block_state.energizedpower."@
    } else if i == 3 {
        "fluid_type.energizedpower."@
    } else if i == 4 {
        "container.energizedpower."@
    } else if i == 5 {
        "_template.item.energizedpower."@
    } else if i == 6 {
        "_template.block.energizedpower."@
    } else if i == 7 {
        "_template.epblock."@
    } else if i == 8 {
        "_template.epcontainer."@
    } else if i == 9 {
        "tooltip.energizedpower.machine_configuration."@
    } else if i == 10 {
        "tooltip.energizedpower."@
    } else if i == 11 {
        "txt.energizedpower."@
    } else if i == 12 {
        "entity.energizedpower."@
    } else if i == 13 {
        "soil_type.energizedpower."@
    } else if i == 14 {
        "recipes.energizedpower."@
    } else if i == 15 {
        "emi.category.energizedpower."@
    } else if i == 16 {
        "painting.energizedpower."@
    } else if i == 17 {
        "advancements.energizedpower."@
    } else if i == 18 {
        "_template.advancements.energizedpower."@
    } else if i == 19 {
        "key.energizedpower."@
    } else if i == 20 {
        "book.energizedpower.page.chapter."@
    } else if i == 21 {
        "book.energizedpower.page."@
    } else if i == 22 {
        "book.energizedpower."@
    } else if i == 23 {
        "itemGroup.energizedpower."@
    } else if i == 24 {
        "entity.minecraft.villager."@
    } else if i == 25 {
        "_template.community_translations.info."@
    } else if i == 26 {
        "_template.cti."@
    } else {
        seq![]
    }
}

/// The translation type prefix with index `i`.
pub fn type_prefix_str(i: usize) -> (r: &'static str)
    requires
        i < 27,
    ensures
        r@ == type_prefix(i as int),
{
    match i {
        0 => "item.energizedpower.",
        1 => "block.energizedpower.",
        2 => "block_state.energizedpower.",
        3 => "fluid_type.energizedpower.",
        4 => "container.energizedpower.",
        5 => "_template.item.energizedpower.",
        6 => "_template.block.energizedpower.",
        7 => "_template.epblock.",
        8 => "_template.epcontainer.",
        9 => "tooltip.energizedpower.machine_configuration.",
        10 => "tooltip.energizedpower.",
        11 => "txt.energizedpower.",
        12 => "entity.energizedpower.",
        13 => "soil_type.energizedpower.",
        14 => "recipes.energizedpower.",
        15 => "emi.category.energizedpower.",
        16 => "painting.energizedpower.",
        17 => "advancements.energizedpower.",
        18 => "_template.advancements.energizedpower.",
        19 => "key.energizedpower.",
        20 => "book.energizedpower.page.chapter.",
        21 => "book.energizedpower.page.",
        22 => "book.energizedpower.",
        23 => "itemGroup.energizedpower.",
        24 => "entity.minecraft.villager.",
        25 => "_template.community_translations.info.",
        _ => "_template.cti.",
    }
}

/// The functionality names under which functionalities are unified, in the order in which they are tried.
pub open spec fn unified_name(i: int) -> Seq<char> {
    if i == 0 {
        "fertilizer"@
    } else if i == 1 {
        "press_mold"@
    } else if i == 2 {
        "dust"@
    } else if i == 3 {
        "nugget"@
    } else if i == 4 {
        "gear"@
    } else if i == 5 {
        "rod"@
    } else if i == 6 {
        "dirty_water"@
    } else if i == 7 {
        "liquid_xp"@
    } else if i == 8 {
        "speed_upgrade"@
    } else if i == 9 {
        "energy_efficiency_upgrade"@
    } else if i == 10 {
        "energy_production_upgrade"@
    } else if i == 11 {
        "energy_capacity_upgrade"@
    } else if i == 12 {
        "duration_upgrade"@
    } else if i == 13 {
        "extraction_range_upgrade"@
    } else if i == 14 {
        "range_upgrade"@
    } else if i == 15 {
        "extraction_depth_upgrade"@
    } else if i == 16 {
        "moon_light_upgrade"@
    } else if i == 17 {
        "item_ejector_upgrade"@
    } else if i == 18 {
        "item_pulling_upgrade"@
    } else if i == 19 {
        "hammer"@
    } else if i == 20 {
        "cutter"@
    } else if i == 21 {
        "ehv_transformer"@
    } else if i == 22 {
        "hv_transformer"@
    } else if i == 23 {
        "lv_transformer"@
    } else if i == 24 {
        "mv_transformer"@
    } else if i == 25 {
        "transformer_"@
    } else if i == 26 {
        "solar_panel"@
    } else {
        seq![]
    }
}

/// The unified functionality name with index `i`.
pub fn unified_name_str(i: usize) -> (r: &'static str)
    requires
        i < 27,
    ensures
        r@ == unified_name(i as int),
{
    match i {
        0 => "fertilizer",
        1 => "press_mold",
        2 => "dust",
        3 => "nugget",
        4 => "gear",
        5 => "rod",
        6 => "dirty_water",
        7 => "liquid_xp",
        8 => "speed_upgrade",
        9 => "energy_efficiency_upgrade",
        10 => "energy_production_upgrade",
        11 => "energy_capacity_upgrade",
        12 => "duration_upgrade",
        13 => "extraction_range_upgrade",
        14 => "range_upgrade",
        15 => "extraction_depth_upgrade",
        16 => "moon_light_upgrade",
        17 => "item_ejector_upgrade",
        18 => "item_pulling_upgrade",
        19 => "hammer",
        20 => "cutter",
        21 => "ehv_transformer",
        22 => "hv_transformer",
        23 => "lv_transformer",
        24 => "mv_transformer",
        25 => "transformer_",
        _ => "solar_panel",
    }
}

/// The first translation type prefix that the line holds right after a
/// double quote, trying the prefixes from index `i` on.
pub open spec fn first_type_prefix_from(line: Seq<char>, i: int) -> Option<int>
    decreases 27 - i,
{
    if i < 0 || i >= 27 {
        None
    } else if contains(line, "\""@ + type_prefix(i)) {
        Some(i)
    } else {
        first_type_prefix_from(line, i + 1)
    }
}

/// The first translation type prefix that the line holds right after a
/// double quote.
pub open spec fn first_type_prefix(line: Seq<char>) -> Option<int> {
    first_type_prefix_from(line, 0)
}

/// The index of the first translation type prefix that the line holds
/// right after a double quote.
pub fn line_type_prefix(line: &Vec<char>) -> (r: Option<usize>)
    ensures
        match r {
            Some(k) => first_type_prefix(line@) == Some(k as int) && k < 27,
            None => first_type_prefix(line@) is None,
        },
{
    let mut i: usize = 0;
    while i < 27
        invariant
            i <= 27,
            first_type_prefix(line@) == first_type_prefix_from(line@, i as int),
        decreases 27 - i,
    {
        let mut pattern = chars_of("\"");
        let mut prefix = chars_of(type_prefix_str(i));
        pattern.append(&mut prefix);
        assert(pattern@ == "\""@ + type_prefix(i as int));
        if find_chars(line, &pattern).is_some() {
            return Some(i);
        }
        i = i + 1;
    }
    None
}

/// Where the functionality name ends in the text after a type prefix: at
/// the first dot or double quote, whichever comes first.
pub open spec fn functionality_end(rest: Seq<char>) -> Option<int> {
    match (find(rest, "."@), find(rest, "\""@)) {
        (Some(a), Some(b)) => Some(if a <= b { a } else { b }),
        (Some(a), None) => Some(a),
        (None, Some(b)) => Some(b),
        (None, None) => None,
    }
}

/// Where the functionality name of a line lies, given its type prefix: it
/// starts right after the first occurrence of the prefix and ends at the
/// next dot or double quote.
pub open spec fn functionality_span(line: Seq<char>, k: int) -> Option<(int, int)> {
    let p = type_prefix(k);
    match find(line, p) {
        Some(at) => match functionality_end(line.skip(at + p.len())) {
            Some(e) => Some((at + p.len(), at + p.len() + e)),
            None => None,
        },
        None => None,
    }
}

/// A line can be sorted: it is blank, it has no type prefix, or its
/// functionality name ends.
pub open spec fn well_formed_line(line: Seq<char>) -> bool {
    is_blank_or_untyped(line) || functionality_span(line, first_type_prefix(line)->0) is Some
}

/// A line that is blank or that holds no type prefix.
pub open spec fn is_blank_or_untyped(line: Seq<char>) -> bool {
    crate::text::is_blank(line) || first_type_prefix(line) is None
}

/// The characters of `s` from index `start` on.
pub fn chars_from(s: &Vec<char>, start: usize) -> (r: Vec<char>)
    requires
        start <= s@.len(),
    ensures
        r@ == s@.skip(start as int),
{
    let mut r: Vec<char> = Vec::new();
    let mut k: usize = start;
    while k < s.len()
        invariant
            start <= k <= s@.len(),
            r@ == s@.subrange(start as int, k as int),
        decreases s@.len() - k,
    {
        r.push(s[k]);
        k = k + 1;
        assert(r@ =~= s@.subrange(start as int, k as int));
    }
    assert(r@ =~= s@.skip(start as int));
    r
}

/// Where the functionality name of a line lies, given its type prefix.
pub fn line_functionality_span(line: &Vec<char>, k: usize) -> (r: Option<(usize, usize)>)
    requires
        k < 27,
    ensures
        match r {
            Some((s, e)) => functionality_span(line@, k as int) == Some((s as int, e as int)) && s <= e
                <= line@.len(),
            None => functionality_span(line@, k as int) is None,
        },
{
    let prefix = chars_of(type_prefix_str(k));
    match find_chars(line, &prefix) {
        Some(at) => {
            proof {
                lemma_find_from_bounds(line@, prefix@, 0);
            }
            let plen = prefix.len();
            assert(at + plen <= line.len());
            let start = at + plen;
            let rest = chars_from(line, start);
            let dot = chars_of(".");
            let quote = chars_of("\"");
            proof {
                lemma_find_from_bounds(rest@, dot@, 0);
                lemma_find_from_bounds(rest@, quote@, 0);
            }
            let end = match (find_chars(&rest, &dot), find_chars(&rest, &quote)) {
                (Some(a), Some(b)) => if a <= b { a } else { b },
                (Some(a), None) => a,
                (None, Some(b)) => b,
                (None, None) => { return None; },
            };
            assert(end <= rest.len());
            assert(start + rest.len() == line.len());
            Some((start, start + end))
        },
        None => None,
    }
}

/// An ASCII decimal digit.
pub open spec fn is_decimal_digit(c: char) -> bool {
    '0' <= c && c <= '9'
}

/// The value of a decimal digit.
pub open spec fn digit_value(c: char) -> nat {
    (c as int - '0' as int) as nat
}

/// The number that a string of decimal digits spells.
pub open spec fn decimal_value(s: Seq<char>) -> nat
    decreases s.len(),
{
    if s.len() == 0 {
        0
    } else {
        decimal_value(s.drop_last()) * 10 + digit_value(s.last())
    }
}

/// `s` is made of decimal digits only.
pub open spec fn all_decimal_digits(s: Seq<char>) -> bool {
    forall|i: int| 0 <= i < s.len() ==> is_decimal_digit(#[trigger] s[i])
}

/// `s` is accepted by `u8::from_str`: an optional plus sign, then one or
/// more decimal digits whose value is at most 255.
pub open spec fn parses_as_u8(s: Seq<char>) -> bool {
    let digits = if s.len() > 0 && s[0] == '+' { s.drop_first() } else { s };
    digits.len() > 0 && all_decimal_digits(digits) && decimal_value(digits) <= 255
}

/// A string of digits has at least the value of any of its prefixes.
proof fn lemma_decimal_value_prefix(s: Seq<char>, k: int)
    requires
        0 <= k <= s.len(),
    ensures
        decimal_value(s.take(k)) <= decimal_value(s),
    decreases s.len(),
{
    if k < s.len() {
        lemma_decimal_value_prefix(s.drop_last(), k);
        assert(s.drop_last().take(k) =~= s.take(k));
    } else {
        assert(s.take(k) =~= s);
    }
}

/// Whether the characters of `s` from index `start` on are accepted by
/// `u8::from_str`.
pub fn parses_u8_from(s: &Vec<char>, start: usize) -> (r: bool)
    requires
        start <= s@.len(),
    ensures
        r == parses_as_u8(s@.skip(start as int)),
{
    let ghost t = s@.skip(start as int);
    let mut i: usize = start;
    if i < s.len() && s[i] == '+' {
        i = i + 1;
    }
    let ghost digits = s@.skip(i as int);
    assert(digits =~= if t.len() > 0 && t[0] == '+' { t.drop_first() } else { t });
    if i == s.len() {
        return false;
    }
    let d0 = i;
    let mut acc: u32 = 0;
    assert(s@.subrange(d0 as int, d0 as int) =~= Seq::<char>::empty());
    while i < s.len()
        invariant
            d0 <= i <= s@.len(),
            digits == s@.skip(d0 as int),
            parses_as_u8(s@.skip(start as int)) == (digits.len() > 0 && all_decimal_digits(digits)
                && decimal_value(digits) <= 255),
            all_decimal_digits(s@.subrange(d0 as int, i as int)),
            acc as nat == decimal_value(s@.subrange(d0 as int, i as int)),
            acc <= 255,
        decreases s@.len() - i,
    {
        let c = s[i];
        if !('0' <= c && c <= '9') {
            assert(digits[i - d0] == c);
            return false;
        }
        let v = (c as u32) - ('0' as u32);
        assert(s@.subrange(d0 as int, i + 1).drop_last() =~= s@.subrange(d0 as int, i as int));
        acc = acc * 10 + v;
        i = i + 1;
        assert(all_decimal_digits(s@.subrange(d0 as int, i as int)));
        if acc > 255 {
            proof {
                if all_decimal_digits(digits) {
                    assert(digits.take(i - d0) =~= s@.subrange(d0 as int, i as int));
                    lemma_decimal_value_prefix(digits, i - d0);
                }
            }
            return false;
        }
    }
    assert(s@.subrange(d0 as int, i as int) =~= digits);
    true
}

/// The name under which a functionality name that holds one of the
/// unified names is unified, trying the names from index `i` on; none
/// when no rule applies. The exceptions concern the names at indices 0
/// (`fertilizer`), 1 (`press_mold`), 2 (`dust`), 5 (`rod`), 20 (`cutter`)
/// and 25 (`transformer_`).
pub open spec fn unified_match(f: Seq<char>, i: int) -> Option<Seq<char>>
    decreases 27 - i,
{
    if i < 0 || i >= 27 {
        None
    } else if !contains(f, unified_name(i)) {
        unified_match(f, i + 1)
    } else if i == 0 && contains(f, "plant_growth_chamber"@) {
        unified_match(f, i + 1)
    } else if i == 1 && contains(f, "maker"@) {
        unified_match(f, i + 1)
    } else if i == 1 && contains(f, "raw"@) {
        Some("UNIFIED_raw_press_mold"@)
    } else if i == 2 && (contains(f, "sawdust"@) || contains(f, "charcoal"@)) {
        unified_match(f, i + 1)
    } else if i == 5 && contains(f, "prod"@) {
        unified_match(f, i + 1)
    } else if i == 20 && contains(f, "stonecutter"@) {
        unified_match(f, i + 1)
    } else if i == 25 {
        if f == "transformer_connection"@ {
            unified_match(f, i + 1)
        } else {
            Some("UNIFIED_mv_transformer"@)
        }
    } else {
        Some("UNIFIED_"@ + unified_name(i))
    }
}

/// A battery item: a battery, a numbered battery, the fully charged
/// battery, or the batteries book page.
pub open spec fn is_battery(f: Seq<char>) -> bool {
    ||| f == "battery"@
    ||| (f.len() >= "battery_"@.len() && f.take("battery_"@.len() as int) == "battery_"@
        && parses_as_u8(f.skip("battery_"@.len() as int)))
    ||| f == "battery_8_fully_charged"@
    ||| f == "batteries"@
}

/// A general tooltip shared by many machines.
pub open spec fn is_general_tooltip(f: Seq<char>) -> bool {
    ||| f == "energy_meter"@
    ||| f == "fluid_meter"@
    ||| f == "energy_consumption_per_tick"@
    ||| f == "energy_production_per_tick"@
    ||| f == "recipe"@
    ||| f == "shift_details"@
    ||| f == "capacity"@
    ||| f == "transfer_rate"@
    ||| f == "tank_capacity"@
    ||| f == "not_enough_energy"@
    ||| f == "ready"@
    ||| f == "infinite"@
}

/// The functionality under which a translation line with functionality
/// name `f` is grouped, after paintings are kept apart, soil types and
/// community translation notes are gathered, and related functionalities
/// are unified.
pub open spec fn unified_functionality(line: Seq<char>, f: Seq<char>) -> Seq<char> {
    if contains(line, "\"painting"@) {
        "painting"@ + f
    } else if contains(line, "\"soil_type"@) {
        "UNIFIED_soil_type"@
    } else if contains(line, "\"_template.community_translations.info."@) || contains(
        line,
        "\"_template.cti."@,
    ) {
        if contains(line, "\"_template.community_translations.info."@) && (contains(line, "info.1\""@)
            || contains(line, "info.2\""@)) {
            "CTI_contribution"@
        } else if contains(line, "\"_template.community_translations.info."@) && contains(
            line,
            "info.3\""@,
        ) {
            "CTI_datagen"@
        } else {
            "CTI_"@ + f
        }
    } else {
        match unified_match(f, 0) {
            Some(u) => u,
            None => if is_battery(f) {
                "UNIFIED_battery"@
            } else if contains(f, "plant_growth_chamber_"@) {
                "plant_growth_chamber"@
            } else if is_general_tooltip(f) {
                "UNIFIED_general_tooltips"@
            } else if f == "iron_fluid_pipe"@ {
                "fluid_pipe"@
            } else if f == "fluid_pipe"@ && contains(line, "tooltip"@) {
                "fluid_pipe_tooltip"@
            } else if f == "auto_crafter"@ && contains(line, "tooltip"@) {
                "auto_crafter_tooltip"@
            } else if f == "charger"@ && contains(line, "emi.category"@) {
                "chargers"@
            } else if f == "crusher"@ && contains(line, "emi.category"@) {
                "crushers"@
            } else {
                f
            },
        }
    }
}

/// A string made of two.
fn joined(a: &str, b: &str) -> (r: String)
    ensures
        r@ == a@ + b@,
{
    let mut r = String::from_str(a);
    r.append(b);
    r
}

/// The unified name for `f`, trying the unified names in order.
fn unified_match_of(f: &Vec<char>) -> (r: Option<String>)
    ensures
        match r {
            Some(u) => unified_match(f@, 0) == Some(u@),
            None => unified_match(f@, 0) is None,
        },
{
    let mut i: usize = 0;
    while i < 27
        invariant
            i <= 27,
            unified_match(f@, 0) == unified_match(f@, i as int),
        decreases 27 - i,
    {
        let name = unified_name_str(i);
        if contains_str(f, name) {
            if i == 0 && contains_str(f, "plant_growth_chamber") {
            } else if i == 1 && contains_str(f, "maker") {
            } else if i == 1 && contains_str(f, "raw") {
                return Some(String::from_str("UNIFIED_raw_press_mold"));
            } else if i == 2 && (contains_str(f, "sawdust") || contains_str(f, "charcoal")) {
            } else if i == 5 && contains_str(f, "prod") {
            } else if i == 20 && contains_str(f, "stonecutter") {
            } else if i == 25 {
                if !equals_str(f, "transformer_connection") {
                    return Some(String::from_str("UNIFIED_mv_transformer"));
                }
            } else {
                return Some(joined("UNIFIED_", name));
            }
        }
        i = i + 1;
    }
    None
}

/// Whether `f` names a battery item.
fn battery(f: &Vec<char>) -> (r: bool)
    ensures
        r == is_battery(f@),
{
    if equals_str(f, "battery") || equals_str(f, "battery_8_fully_charged") || equals_str(f, "batteries") {
        return true;
    }
    let prefix = chars_of("battery_");
    if crate::text::matches_at(f, &prefix, 0) {
        assert(f@.subrange(0, prefix@.len() as int) =~= f@.take(prefix@.len() as int));
        parses_u8_from(f, prefix.len())
    } else {
        assert(f@.len() >= prefix@.len() ==> f@.subrange(0, prefix@.len() as int) =~= f@.take(
            prefix@.len() as int,
        ));
        false
    }
}

/// Whether `f` names a general tooltip.
fn general_tooltip(f: &Vec<char>) -> (r: bool)
    ensures
        r == is_general_tooltip(f@),
{
    equals_str(f, "energy_meter") || equals_str(f, "fluid_meter") || equals_str(f, "energy_consumption_per_tick") || equals_str(f, "energy_production_per_tick") || equals_str(f, "recipe") || equals_str(f, "shift_details") || equals_str(f, "capacity") || equals_str(f, "transfer_rate") || equals_str(f, "tank_capacity") || equals_str(f, "not_enough_energy") || equals_str(f, "ready") || equals_str(f, "infinite")
}

/// The functionality under which the translation `line` with
/// functionality name `functionality` is grouped.
pub fn unify_and_separate_functionalities(line: &str, functionality: &str) -> (r: String)
    ensures
        r@ == unified_functionality(line@, functionality@),
{
    let l = chars_of(line);
    let f = chars_of(functionality);
    if contains_str(&l, "\"painting") {
        return joined("painting", functionality);
    }
    if contains_str(&l, "\"soil_type") {
        return String::from_str("UNIFIED_soil_type");
    }
    let info = contains_str(&l, "\"_template.community_translations.info.");
    if info || contains_str(&l, "\"_template.cti.") {
        if info {
            if contains_str(&l, "info.1\"") || contains_str(&l, "info.2\"") {
                return String::from_str("CTI_contribution");
            }
            if contains_str(&l, "info.3\"") {
                return String::from_str("CTI_datagen");
            }
        }
        return joined("CTI_", functionality);
    }
    if let Some(u) = unified_match_of(&f) {
        return u;
    }
    if battery(&f) {
        return String::from_str("UNIFIED_battery");
    }
    if contains_str(&f, "plant_growth_chamber_") {
        return String::from_str("plant_growth_chamber");
    }
    if general_tooltip(&f) {
        return String::from_str("UNIFIED_general_tooltips");
    }
    if equals_str(&f, "iron_fluid_pipe") {
        return String::from_str("fluid_pipe");
    }
    if equals_str(&f, "fluid_pipe") && contains_str(&l, "tooltip") {
        return String::from_str("fluid_pipe_tooltip");
    }
    if equals_str(&f, "auto_crafter") && contains_str(&l, "tooltip") {
        return String::from_str("auto_crafter_tooltip");
    }
    if equals_str(&f, "charger") && contains_str(&l, "emi.category") {
        return String::from_str("chargers");
    }
    if equals_str(&f, "crusher") && contains_str(&l, "emi.category") {
        return String::from_str("crushers");
    }
    String::from_str(functionality)
}

/// A line that is neither blank nor untyped.
pub proof fn lemma_not_blank_or_untyped(line: Seq<char>)
    ensures
        !crate::text::is_blank(line) && first_type_prefix(line) is Some ==> !is_blank_or_untyped(line),
{
}

} // verus!
