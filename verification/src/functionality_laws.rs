use vstd::prelude::*;
use crate::functionality::{
    first_type_prefix, first_type_prefix_from, is_general_tooltip, type_prefix, unified_functionality,
    unified_match, unified_name,
};
use crate::text::contains;

verus! {

/// A line holds the type prefix with index `k` right after a double quote.
pub open spec fn holds_prefix(line: Seq<char>, k: int) -> bool {
    contains(line, "\""@ + type_prefix(k))
}

/// Trying the type prefixes from index `i` on finds the first of them, in
/// table order, that the line holds; none when it holds none of them.
proof fn lemma_first_type_prefix_from_is_first(line: Seq<char>, i: int)
    requires
        0 <= i <= 27,
    ensures
        match first_type_prefix_from(line, i) {
            Some(k) => i <= k < 27 && holds_prefix(line, k) && forall|j: int|
                i <= j < k ==> !#[trigger] holds_prefix(line, j),
            None => forall|j: int| i <= j < 27 ==> !#[trigger] holds_prefix(line, j),
        },
    decreases 27 - i,
{
    if i < 27 {
        lemma_first_type_prefix_from_is_first(line, i + 1);
    }
}

/// The type prefix of a line is the first in table order that the line
/// holds right after a double quote; a line without one holds none of them.
pub proof fn lemma_first_type_prefix_is_first(line: Seq<char>)
    ensures
        match first_type_prefix(line) {
            Some(k) => 0 <= k < 27 && holds_prefix(line, k) && forall|j: int|
                0 <= j < k ==> !#[trigger] holds_prefix(line, j),
            None => forall|j: int| 0 <= j < 27 ==> !#[trigger] holds_prefix(line, j),
        },
{
    lemma_first_type_prefix_from_is_first(line, 0);
}

/// A line that holds a type prefix has one, and it comes no later in the
/// table than that prefix: a book page line never gets the shorter book
/// prefix that comes after the book page prefix.
pub proof fn lemma_type_prefix_no_later_than_held(line: Seq<char>, j: int)
    requires
        0 <= j < 27,
        holds_prefix(line, j),
    ensures
        first_type_prefix(line) matches Some(k) && k <= j,
{
    lemma_first_type_prefix_is_first(line);
}

/// The unified names that are unified without any exception.
pub open spec fn unified_without_exception(j: int) -> bool {
    0 <= j < 27 && j != 0 && j != 1 && j != 2 && j != 5 && j != 20 && j != 25
}

/// When no name from index `i` on gives a unified name, none from a later
/// index does: an exception only skips its own name, and the search goes
/// on with the next.
pub proof fn lemma_unified_match_none_stays_none(f: Seq<char>, i: int, j: int)
    requires
        0 <= i <= j,
        unified_match(f, i) is None,
    ensures
        unified_match(f, j) is None,
    decreases j - i,
{
    if i < j {
        if i < 27 {
            assert(unified_match(f, i + 1) is None);
        }
        lemma_unified_match_none_stays_none(f, i + 1, j);
    }
}

/// A functionality name that holds a name unified without exception is
/// unified, whatever names before it it holds.
pub proof fn lemma_plain_name_unifies(f: Seq<char>, i: int, j: int)
    requires
        0 <= i <= j,
        unified_without_exception(j),
        contains(f, unified_name(j)),
    ensures
        unified_match(f, i) is Some,
    decreases j - i,
{
    if i < j {
        lemma_plain_name_unifies(f, i + 1, j);
    }
}

/// The first name from index `i` on that the functionality name holds is
/// the one it is unified under, when that name has no exception.
pub proof fn lemma_first_plain_name_wins(f: Seq<char>, i: int, j: int)
    requires
        0 <= i <= j,
        unified_without_exception(j),
        contains(f, unified_name(j)),
        forall|m: int| i <= m < j ==> !contains(f, #[trigger] unified_name(m)),
    ensures
        unified_match(f, i) == Some("UNIFIED_"@ + unified_name(j)),
    decreases j - i,
{
    if i < j {
        assert(!contains(f, unified_name(i)));
        lemma_first_plain_name_wins(f, i + 1, j);
    }
}

/// The exception of the unified name with index `m` makes the search skip
/// that name for the functionality name `f`.
pub open spec fn exception_skips(f: Seq<char>, m: int) -> bool {
    ||| m == 0 && contains(f, "plant_growth_chamber"@)
    ||| m == 1 && contains(f, "maker"@)
    ||| m == 2 && (contains(f, "sawdust"@) || contains(f, "charcoal"@))
    ||| m == 5 && contains(f, "prod"@)
    ||| m == 20 && contains(f, "stonecutter"@)
    ||| m == 25 && f == "transformer_connection"@
}

/// An exception only skips its own name: the names before index `j` that
/// the functionality name holds being all skipped by their exceptions, it
/// is unified under the name with index `j` when it holds it and that
/// name's exception does not keep it away.
pub proof fn lemma_skipped_names_pass_on(f: Seq<char>, i: int, j: int)
    requires
        0 <= i <= j < 27,
        contains(f, unified_name(j)),
        exception_allows(f, j),
        forall|m: int| i <= m < j && contains(f, #[trigger] unified_name(m)) ==> exception_skips(f, m),
    ensures
        unified_match(f, i) == Some("UNIFIED_"@ + unified_name(j)),
    decreases j - i,
{
    if i < j {
        lemma_skipped_names_pass_on(f, i + 1, j);
        if contains(f, unified_name(i)) {
            assert(exception_skips(f, i));
        }
    }
}

/// The exception of the unified name with index `j` does not keep the
/// functionality name `f` from it.
pub open spec fn exception_allows(f: Seq<char>, j: int) -> bool {
    &&& j == 0 ==> !contains(f, "plant_growth_chamber"@)
    &&& j == 1 ==> !contains(f, "maker"@) && !contains(f, "raw"@)
    &&& j == 2 ==> !contains(f, "sawdust"@) && !contains(f, "charcoal"@)
    &&& j == 5 ==> !contains(f, "prod"@)
    &&& j == 20 ==> !contains(f, "stonecutter"@)
    &&& j != 25
}

/// What a unified name can be: the raw press molds, for a name that holds
/// `press_mold` and `raw` but not `maker`; the medium voltage transformers,
/// for a name that holds `transformer_` and is not the transformer
/// connection; or `UNIFIED_` and a name from index `i` on that the name
/// holds and whose exception does not keep it away.
pub proof fn lemma_unified_match_result(f: Seq<char>, i: int)
    ensures
        unified_match(f, i) matches Some(u) ==> {
            ||| u == "UNIFIED_raw_press_mold"@ && contains(f, "press_mold"@) && contains(f, "raw"@) && !contains(
                f,
                "maker"@,
            )
            ||| u == "UNIFIED_mv_transformer"@ && contains(f, "transformer_"@) && f != "transformer_connection"@
            ||| exists|j: int|
                i <= j < 27 && contains(f, #[trigger] unified_name(j)) && exception_allows(f, j) && u == "UNIFIED_"@
                    + unified_name(j)
        },
    decreases 27 - i,
{
    if 0 <= i < 27 {
        lemma_unified_match_result(f, i + 1);
        if let Some(u) = unified_match(f, i) {
            if u == "UNIFIED_"@ + unified_name(i) && contains(f, unified_name(i)) && exception_allows(f, i) {
                assert(u == "UNIFIED_"@ + unified_name(i));
            }
        }
    }
}

/// The general tooltips: exactly these twelve names.
pub open spec fn general_tooltip_names() -> Set<Seq<char>> {
    set![
        "energy_meter"@,
        "fluid_meter"@,
        "energy_consumption_per_tick"@,
        "energy_production_per_tick"@,
        "recipe"@,
        "shift_details"@,
        "capacity"@,
        "transfer_rate"@,
        "tank_capacity"@,
        "not_enough_energy"@,
        "ready"@,
        "infinite"@,
    ]
}

/// The general tooltips are exactly the twelve listed names: a name that
/// merely holds one of them is not one.
pub proof fn lemma_general_tooltips_are_listed(f: Seq<char>)
    ensures
        is_general_tooltip(f) <==> general_tooltip_names().contains(f),
{
}

/// No unified name is `general_tooltips`: none of sixteen characters starts
/// with `g`.
proof fn lemma_unified_names_not_g()
    ensures
        forall|j: int| 0 <= j < 27 ==> #[trigger] unified_name(j).len() > 0 && (unified_name(j).len() != 16 || unified_name(j)[0] != 'g'),
{
    reveal_strlit("fertilizer");
    reveal_strlit("press_mold");
    reveal_strlit("dust");
    reveal_strlit("nugget");
    reveal_strlit("gear");
    reveal_strlit("rod");
    reveal_strlit("dirty_water");
    reveal_strlit("liquid_xp");
    reveal_strlit("speed_upgrade");
    reveal_strlit("energy_efficiency_upgrade");
    reveal_strlit("energy_production_upgrade");
    reveal_strlit("energy_capacity_upgrade");
    reveal_strlit("duration_upgrade");
    reveal_strlit("extraction_range_upgrade");
    reveal_strlit("range_upgrade");
    reveal_strlit("extraction_depth_upgrade");
    reveal_strlit("moon_light_upgrade");
    reveal_strlit("item_ejector_upgrade");
    reveal_strlit("item_pulling_upgrade");
    reveal_strlit("hammer");
    reveal_strlit("cutter");
    reveal_strlit("ehv_transformer");
    reveal_strlit("hv_transformer");
    reveal_strlit("lv_transformer");
    reveal_strlit("mv_transformer");
    reveal_strlit("transformer_");
    reveal_strlit("solar_panel");
    assert forall|j: int| 0 <= j < 27 implies #[trigger] unified_name(j).len() > 0 && (unified_name(j).len() != 16 || unified_name(j)[0] != 'g') by {
        if j == 0 {
            assert(unified_name(j) == "fertilizer"@);
            assert(unified_name(j).len() == 10 && unified_name(j)[0] == 'f');
        } else if j == 1 {
            assert(unified_name(j) == "press_mold"@);
            assert(unified_name(j).len() == 10 && unified_name(j)[0] == 'p');
        } else if j == 2 {
            assert(unified_name(j) == "dust"@);
            assert(unified_name(j).len() == 4 && unified_name(j)[0] == 'd');
        } else if j == 3 {
            assert(unified_name(j) == "nugget"@);
            assert(unified_name(j).len() == 6 && unified_name(j)[0] == 'n');
        } else if j == 4 {
            assert(unified_name(j) == "gear"@);
            assert(unified_name(j).len() == 4 && unified_name(j)[0] == 'g');
        } else if j == 5 {
            assert(unified_name(j) == "rod"@);
            assert(unified_name(j).len() == 3 && unified_name(j)[0] == 'r');
        } else if j == 6 {
            assert(unified_name(j) == "dirty_water"@);
            assert(unified_name(j).len() == 11 && unified_name(j)[0] == 'd');
        } else if j == 7 {
            assert(unified_name(j) == "liquid_xp"@);
            assert(unified_name(j).len() == 9 && unified_name(j)[0] == 'l');
        } else if j == 8 {
            assert(unified_name(j) == "speed_upgrade"@);
            assert(unified_name(j).len() == 13 && unified_name(j)[0] == 's');
        } else if j == 9 {
            assert(unified_name(j) == "energy_efficiency_upgrade"@);
            assert(unified_name(j).len() == 25 && unified_name(j)[0] == 'e');
        } else if j == 10 {
            assert(unified_name(j) == "energy_production_upgrade"@);
            assert(unified_name(j).len() == 25 && unified_name(j)[0] == 'e');
        } else if j == 11 {
            assert(unified_name(j) == "energy_capacity_upgrade"@);
            assert(unified_name(j).len() == 23 && unified_name(j)[0] == 'e');
        } else if j == 12 {
            assert(unified_name(j) == "duration_upgrade"@);
            assert(unified_name(j).len() == 16 && unified_name(j)[0] == 'd');
        } else if j == 13 {
            assert(unified_name(j) == "extraction_range_upgrade"@);
            assert(unified_name(j).len() == 24 && unified_name(j)[0] == 'e');
        } else if j == 14 {
            assert(unified_name(j) == "range_upgrade"@);
            assert(unified_name(j).len() == 13 && unified_name(j)[0] == 'r');
        } else if j == 15 {
            assert(unified_name(j) == "extraction_depth_upgrade"@);
            assert(unified_name(j).len() == 24 && unified_name(j)[0] == 'e');
        } else if j == 16 {
            assert(unified_name(j) == "moon_light_upgrade"@);
            assert(unified_name(j).len() == 18 && unified_name(j)[0] == 'm');
        } else if j == 17 {
            assert(unified_name(j) == "item_ejector_upgrade"@);
            assert(unified_name(j).len() == 20 && unified_name(j)[0] == 'i');
        } else if j == 18 {
            assert(unified_name(j) == "item_pulling_upgrade"@);
            assert(unified_name(j).len() == 20 && unified_name(j)[0] == 'i');
        } else if j == 19 {
            assert(unified_name(j) == "hammer"@);
            assert(unified_name(j).len() == 6 && unified_name(j)[0] == 'h');
        } else if j == 20 {
            assert(unified_name(j) == "cutter"@);
            assert(unified_name(j).len() == 6 && unified_name(j)[0] == 'c');
        } else if j == 21 {
            assert(unified_name(j) == "ehv_transformer"@);
            assert(unified_name(j).len() == 15 && unified_name(j)[0] == 'e');
        } else if j == 22 {
            assert(unified_name(j) == "hv_transformer"@);
            assert(unified_name(j).len() == 14 && unified_name(j)[0] == 'h');
        } else if j == 23 {
            assert(unified_name(j) == "lv_transformer"@);
            assert(unified_name(j).len() == 14 && unified_name(j)[0] == 'l');
        } else if j == 24 {
            assert(unified_name(j) == "mv_transformer"@);
            assert(unified_name(j).len() == 14 && unified_name(j)[0] == 'm');
        } else if j == 25 {
            assert(unified_name(j) == "transformer_"@);
            assert(unified_name(j).len() == 12 && unified_name(j)[0] == 't');
        } else if j == 26 {
            assert(unified_name(j) == "solar_panel"@);
            assert(unified_name(j).len() == 11 && unified_name(j)[0] == 's');
        }
    }
}

/// A translation line is grouped with the general tooltips only when its
/// functionality name is one of the twelve listed names (or is that
/// group's own name).
pub proof fn lemma_general_tooltips_group(line: Seq<char>, f: Seq<char>)
    requires
        unified_functionality(line, f) == "UNIFIED_general_tooltips"@,
    ensures
        general_tooltip_names().contains(f) || f == "UNIFIED_general_tooltips"@,
{
    let g = "UNIFIED_general_tooltips"@;
    reveal_strlit("UNIFIED_general_tooltips");
    reveal_strlit("painting");
    reveal_strlit("UNIFIED_soil_type");
    reveal_strlit("CTI_contribution");
    reveal_strlit("CTI_datagen");
    reveal_strlit("CTI_");
    reveal_strlit("UNIFIED_raw_press_mold");
    reveal_strlit("UNIFIED_mv_transformer");
    reveal_strlit("UNIFIED_battery");
    reveal_strlit("plant_growth_chamber");
    reveal_strlit("fluid_pipe");
    reveal_strlit("fluid_pipe_tooltip");
    reveal_strlit("auto_crafter_tooltip");
    reveal_strlit("chargers");
    reveal_strlit("crushers");
    reveal_strlit("UNIFIED_");
    assert(("painting"@ + f)[0] == 'p');
    assert(("CTI_"@ + f)[0] == 'C');
    assert(g[0] == 'U' && g[8] == 'g');
    lemma_unified_match_result(f, 0);
    lemma_unified_names_not_g();
    if let Some(u) = unified_match(f, 0) {
        if u != "UNIFIED_raw_press_mold"@ && u != "UNIFIED_mv_transformer"@ {
            let j = choose|j: int|
                0 <= j < 27 && contains(f, #[trigger] unified_name(j)) && exception_allows(f, j) && u == "UNIFIED_"@
                    + unified_name(j);
            assert(u[8] == unified_name(j)[0]);
            assert(u.len() == 8 + unified_name(j).len());
        }
    }
    lemma_general_tooltips_are_listed(f);
}

} // verus!
