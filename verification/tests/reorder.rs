use lib::functionality::unify_and_separate_functionalities;
use lib::reorder::{first_malformed_line, reorder_translations};

fn lines(v: &[&str]) -> Vec<String> {
    v.iter().map(|s| s.to_string()).collect()
}

#[test]
fn lines_are_grouped_by_functionality() {
    let input = lines(&[
        "{",
        "  \"item.energizedpower.battery_1\": \"Battery 1\",",
        "  \"block.energizedpower.charger\": \"Charger\",",
        "  \"item.energizedpower.battery_2\": \"Battery 2\",",
        "  \"tooltip.energizedpower.charger.txt\": \"Charges\",",
        "  \"block.energizedpower.advanced_charger\": \"Advanced Charger\",",
        "  \"emi.category.energizedpower.charger\": \"Charger\",",
        "",
        "}",
    ]);
    assert_eq!(
        reorder_translations(&input),
        lines(&[
            "{",
            "  \"item.energizedpower.battery_1\": \"Battery 1\",",
            "  \"item.energizedpower.battery_2\": \"Battery 2\",",
            "",
            "  \"block.energizedpower.charger\": \"Charger\",",
            "  \"tooltip.energizedpower.charger.txt\": \"Charges\",",
            "",
            "  \"block.energizedpower.advanced_charger\": \"Advanced Charger\",",
            "",
            "  \"emi.category.energizedpower.charger\": \"Charger\",",
            "}",
        ])
    );
}

#[test]
fn book_pages_move_after_the_highest_tier() {
    let input = lines(&[
        "{",
        "  \"emi.category.energizedpower.charger\": \"Charger\",",
        "  \"block.energizedpower.charger\": \"Charger\",",
        "  \"block.energizedpower.advanced_charger\": \"Advanced Charger\",",
        "  \"block.energizedpower.cable\": \"Cable\",",
        "  \"block.energizedpower.energized_crystal_matrix_cable\": \"ECM Cable\",",
        "}",
    ]);
    assert_eq!(
        reorder_translations(&input),
        lines(&[
            "{",
            "  \"block.energizedpower.charger\": \"Charger\",",
            "",
            "  \"block.energizedpower.advanced_charger\": \"Advanced Charger\",",
            "",
            "  \"emi.category.energizedpower.charger\": \"Charger\",",
            "",
            "  \"block.energizedpower.energized_crystal_matrix_cable\": \"ECM Cable\",",
            "",
            "  \"block.energizedpower.cable\": \"Cable\",",
            "}",
        ])
    );
}

#[test]
fn community_translation_notes_get_two_more_blank_lines() {
    let input = lines(&[
        "{",
        "  \"_template.community_translations.info.1\": \"a\",",
        "  \"_template.community_translations.info.2\": \"b\",",
        "  \"_template.community_translations.info.3\": \"c\",",
        "  \"item.energizedpower.gear\": \"Gear\",",
        "  \"item.energizedpower.iron_gear\": \"Iron Gear\",",
        "}",
    ]);
    assert_eq!(
        reorder_translations(&input),
        lines(&[
            "{",
            "  \"_template.community_translations.info.1\": \"a\",",
            "  \"_template.community_translations.info.2\": \"b\",",
            "",
            "  \"_template.community_translations.info.3\": \"c\",",
            "",
            "",
            "",
            "  \"item.energizedpower.gear\": \"Gear\",",
            "  \"item.energizedpower.iron_gear\": \"Iron Gear\",",
            "}",
        ])
    );
}

#[test]
fn untyped_lines_stand_alone() {
    let input = lines(&["a", "b", "c"]);
    // Three groups: only the middle one is the last but one.
    assert_eq!(reorder_translations(&input), lines(&["a", "", "b", "c", ""]));
}

#[test]
fn empty_file_stays_empty() {
    let input: Vec<String> = Vec::new();
    assert!(reorder_translations(&input).is_empty());
}

#[test]
fn dummy_named_functionality_is_replaced() {
    let input = lines(&["{", "  \"item.energizedpower.DUMMY_1\": \"x\",", "}", "end"]);
    // The second untyped line takes the functionality DUMMY_1 and replaces
    // its group, which is then written twice.
    assert_eq!(reorder_translations(&input), lines(&["{", "}", "}", "end", ""]));
}

#[test]
fn malformed_line_is_found() {
    let input = lines(&["{", "  \"item.energizedpower.broken", "}"]);
    assert_eq!(first_malformed_line(&input), Some(1));
    let good = lines(&["{", "  \"item.energizedpower.ok\": \"x\"", "}"]);
    assert_eq!(first_malformed_line(&good), None);
}

#[test]
fn blank_and_untyped_lines_are_never_malformed() {
    let input = lines(&["", "   ", "item.energizedpower.x", "no prefix"]);
    assert_eq!(first_malformed_line(&input), None);
}

fn unify(line: &str, f: &str) -> String {
    unify_and_separate_functionalities(line, f)
}

#[test]
fn paintings_soil_and_community_notes() {
    assert_eq!(unify("\"painting.energizedpower.a\"", "a"), "paintinga");
    assert_eq!(unify("\"soil_type.energizedpower.clay\"", "clay"), "UNIFIED_soil_type");
    assert_eq!(unify("\"_template.community_translations.info.1\"", "info"), "CTI_contribution");
    assert_eq!(unify("\"_template.community_translations.info.2\"", "info"), "CTI_contribution");
    assert_eq!(unify("\"_template.community_translations.info.3\"", "info"), "CTI_datagen");
    assert_eq!(unify("\"_template.community_translations.info.4\"", "info"), "CTI_info");
    assert_eq!(unify("\"_template.cti.x\"", "x"), "CTI_x");
}

#[test]
fn unified_names_and_their_exceptions() {
    assert_eq!(unify("", "basic_fertilizer"), "UNIFIED_fertilizer");
    assert_eq!(unify("", "plant_growth_chamber_fertilizer"), "plant_growth_chamber");
    assert_eq!(unify("", "press_mold_maker"), "press_mold_maker");
    assert_eq!(unify("", "raw_gear_press_mold"), "UNIFIED_raw_press_mold");
    assert_eq!(unify("", "gear_press_mold"), "UNIFIED_press_mold");
    assert_eq!(unify("", "iron_dust"), "UNIFIED_dust");
    assert_eq!(unify("", "sawdust"), "sawdust");
    assert_eq!(unify("", "charcoal_dust"), "charcoal_dust");
    assert_eq!(unify("", "iron_rod"), "UNIFIED_rod");
    assert_eq!(unify("", "production"), "production");
    assert_eq!(unify("", "wood_cutter"), "UNIFIED_cutter");
    assert_eq!(unify("", "auto_stonecutter"), "auto_stonecutter");
    assert_eq!(unify("", "mv_transformer_1_to_n"), "UNIFIED_mv_transformer");
    assert_eq!(unify("", "transformer_1_to_n"), "UNIFIED_mv_transformer");
    assert_eq!(unify("", "transformer_connection"), "transformer_connection");
    assert_eq!(unify("", "ehv_transformer_n_to_1"), "UNIFIED_ehv_transformer");
    assert_eq!(unify("", "solar_panel_3"), "UNIFIED_solar_panel");
    assert_eq!(unify("", "energy_range_upgrade_module"), "UNIFIED_range_upgrade");
}

#[test]
fn batteries_tooltips_and_special_cases() {
    assert_eq!(unify("", "battery"), "UNIFIED_battery");
    assert_eq!(unify("", "battery_8"), "UNIFIED_battery");
    assert_eq!(unify("", "battery_+8"), "UNIFIED_battery");
    assert_eq!(unify("", "battery_255"), "UNIFIED_battery");
    assert_eq!(unify("", "battery_256"), "battery_256");
    assert_eq!(unify("", "battery_"), "battery_");
    assert_eq!(unify("", "battery_-1"), "battery_-1");
    assert_eq!(unify("", "battery_8_fully_charged"), "UNIFIED_battery");
    assert_eq!(unify("", "batteries"), "UNIFIED_battery");
    assert_eq!(unify("", "battery_box"), "battery_box");
    assert_eq!(unify("", "plant_growth_chamber_recipe"), "plant_growth_chamber");
    assert_eq!(unify("", "recipe"), "UNIFIED_general_tooltips");
    assert_eq!(unify("", "infinite"), "UNIFIED_general_tooltips");
    assert_eq!(unify("", "iron_fluid_pipe"), "fluid_pipe");
    assert_eq!(unify("\"tooltip.energizedpower.fluid_pipe\"", "fluid_pipe"), "fluid_pipe_tooltip");
    assert_eq!(unify("\"block.energizedpower.fluid_pipe\"", "fluid_pipe"), "fluid_pipe");
    assert_eq!(unify("\"tooltip.x\"", "auto_crafter"), "auto_crafter_tooltip");
    assert_eq!(unify("\"emi.category.x\"", "charger"), "chargers");
    assert_eq!(unify("\"emi.category.x\"", "crusher"), "crushers");
    assert_eq!(unify("", "crusher"), "crusher");
}

#[test]
fn battery_suffix_parses_like_u8() {
    for n in 0..400u32 {
        let suffix = format!("{n}");
        let expected = if suffix.parse::<u8>().is_ok() { "UNIFIED_battery".to_string() } else { format!("battery_{suffix}") };
        assert_eq!(unify("", &format!("battery_{suffix}")), expected);
    }
    for suffix in ["007", "0000000000255", "+", "+0", "1a", " 1", "٣"] {
        let f = format!("battery_{suffix}");
        let expected = if suffix.parse::<u8>().is_ok() { "UNIFIED_battery".to_string() } else { f.clone() };
        assert_eq!(unify("", &f), expected);
    }
}

#[test]
fn dummy_functionalities_count_in_decimal() {
    let mut input: Vec<String> = (0..12).map(|i| format!("l{i}")).collect();
    input.push("  \"item.energizedpower.DUMMY_11\": \"x\",".to_string());
    let mut expected = Vec::new();
    for i in 0..12 {
        expected.push(format!("l{i}"));
        if i == 11 {
            expected.push("  \"item.energizedpower.DUMMY_11\": \"x\",".to_string());
        }
        if i != 10 {
            expected.push(String::new());
        }
    }
    assert_eq!(reorder_translations(&input), expected);
}

#[test]
fn reordering_keeps_every_non_blank_line() {
    let input = lines(&[
        "{",
        "  \"block.energizedpower.crusher\": \"Crusher\",",
        "",
        "  \"item.energizedpower.iron_dust\": \"Iron Dust\",",
        "  \"tooltip.energizedpower.crusher.txt\": \"Crushes\",",
        "  \"item.energizedpower.copper_dust\": \"Copper Dust\",",
        "}",
    ]);
    let out = reorder_translations(&input);
    let mut a: Vec<String> = input.iter().filter(|l| !l.trim().is_empty()).cloned().collect();
    let mut b: Vec<String> = out.iter().filter(|l| !l.trim().is_empty()).cloned().collect();
    a.sort();
    b.sort();
    assert_eq!(a, b);
    assert_eq!(reorder_translations(&out), out);
}

#[test]
fn reordering_twice_changes_nothing() {
    let input = lines(&[
        "{",
        "  \"book.energizedpower.page.auto_crafters.title\": \"Auto Crafters\",",
        "  \"tooltip.energizedpower.auto_crafter.txt\": \"Crafts\",",
        "  \"block.energizedpower.advanced_auto_crafter\": \"Advanced Auto Crafter\",",
        "  \"book.energizedpower.page.cables.title\": \"Cables\",",
        "  \"block.energizedpower.cable\": \"Cable\",",
        "  \"block.energizedpower.energized_crystal_matrix_cable\": \"ECM Cable\",",
        "  \"item.energizedpower.cable\": \"Cable Item\",",
        "}",
    ]);
    let once = reorder_translations(&input);
    assert_ne!(once, input);
    let twice = reorder_translations(&once);
    assert_eq!(twice, once);
}
