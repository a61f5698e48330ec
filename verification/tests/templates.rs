use lib::templates::{update_templates, write_and_clear_combined_translations_line_buffer};

fn lines(v: &[&str]) -> Vec<String> {
    v.iter().map(|s| s.to_string()).collect()
}

#[test]
fn item_and_block_become_block_template() {
    let input = lines(&[
        "{",
        "  \"item.energizedpower.crusher\": \"Crusher\",",
        "  \"block.energizedpower.crusher\": \"Crusher\",",
        "  \"tooltip.energizedpower.crusher.txt\": \"Crushes\",",
        "}",
    ]);
    assert_eq!(
        update_templates(&input),
        lines(&[
            "{",
            "  \"_template.epblock.crusher\": \"Crusher\",",
            "  \"tooltip.energizedpower.crusher.txt\": \"Crushes\",",
            "}",
        ])
    );
}

#[test]
fn item_block_and_container_become_container_template() {
    let input = lines(&[
        "  \"block.energizedpower.charger\": \"Charger\",",
        "  \"item.energizedpower.charger\": \"Charger\",",
        "  \"container.energizedpower.charger\": \"Charger\",",
    ]);
    assert_eq!(update_templates(&input), lines(&["  \"_template.epcontainer.charger\": \"Charger\","]));
}

#[test]
fn conveyor_belt_containers_stay_apart() {
    let input = lines(&[
        "  \"item.energizedpower.item_conveyor_belt\": \"Belt\",",
        "  \"block.energizedpower.item_conveyor_belt\": \"Belt\",",
        "  \"container.energizedpower.item_conveyor_belt_loader\": \"Loader\",",
    ]);
    assert_eq!(
        update_templates(&input),
        lines(&[
            "  \"_template.epblock.item_conveyor_belt\": \"Belt\",",
            "  \"container.energizedpower.item_conveyor_belt_loader\": \"Loader\",",
        ])
    );
}

#[test]
fn item_without_block_is_kept() {
    let input = lines(&[
        "  \"item.energizedpower.gear\": \"Gear\",",
        "  \"item.energizedpower.rod\": \"Rod\",",
        "  \"container.energizedpower.press\": \"Press\",",
        "}",
    ]);
    assert_eq!(update_templates(&input), input);
}

#[test]
fn file_without_blocks_is_unchanged() {
    let input = lines(&["{", "  \"item.energizedpower.a\": \"A\",", "  \"item.energizedpower.b\": \"B\",", "}"]);
    assert_eq!(update_templates(&input), input);
}

#[test]
fn file_without_items_is_unchanged() {
    let input = lines(&[
        "  \"block.energizedpower.a\": \"A\",",
        "  \"container.energizedpower.a\": \"A\",",
        "  \"block.energizedpower.b\": \"B\",",
    ]);
    assert_eq!(update_templates(&input), input);
}

#[test]
fn second_item_writes_out_the_first() {
    let input = lines(&[
        "  \"item.energizedpower.a\": \"A\",",
        "  \"item.energizedpower.b\": \"B\",",
        "  \"block.energizedpower.b\": \"B\",",
    ]);
    assert_eq!(
        update_templates(&input),
        lines(&["  \"item.energizedpower.a\": \"A\",", "  \"_template.epblock.b\": \"B\","])
    );
}

#[test]
fn every_block_key_in_the_line_is_replaced() {
    let input = lines(&[
        "\"item.energizedpower.x\": \"x\"",
        "\"block.energizedpower.x\": \"see \\\"block.energizedpower.y\"",
    ]);
    assert_eq!(
        update_templates(&input),
        lines(&["\"_template.epblock.x\": \"see \\\"_template.epblock.y\""])
    );
}

#[test]
fn output_is_never_longer() {
    let input = lines(&[
        "\"item.energizedpower.x\": \"x\"",
        "\"block.energizedpower.x\": \"x\"",
        "\"container.energizedpower.x\": \"x\"",
        "\"item.energizedpower.y\": \"y\"",
        "plain",
    ]);
    assert!(update_templates(&input).len() <= input.len());
}

#[test]
fn flush_writes_buffer_when_not_combined() {
    let mut output = lines(&["before"]);
    let mut buffer = lines(&["\"block.energizedpower.a\"", "\"container.energizedpower.a\""]);
    let (mut has_item, mut has_block, mut has_container) = (false, true, true);
    write_and_clear_combined_translations_line_buffer(
        &mut output, &mut buffer, &mut has_item, &mut has_block, &mut has_container,
    );
    assert_eq!(output, lines(&["before", "\"block.energizedpower.a\"", "\"container.energizedpower.a\""]));
    assert!(buffer.is_empty());
    assert!(!has_item && !has_block && !has_container);
}

#[test]
fn flush_combines_into_first_block_line() {
    let mut output = Vec::new();
    let mut buffer = lines(&["\"item.energizedpower.a\"", "\"block.energizedpower.a\""]);
    let (mut has_item, mut has_block, mut has_container) = (true, true, false);
    write_and_clear_combined_translations_line_buffer(
        &mut output, &mut buffer, &mut has_item, &mut has_block, &mut has_container,
    );
    assert_eq!(output, lines(&["\"_template.epblock.a\""]));
    assert!(buffer.is_empty());
}

#[test]
fn second_run_combines_nothing_more() {
    let input = lines(&[
        "{",
        "  \"item.energizedpower.a\": \"A\",",
        "  \"container.energizedpower.b\": \"B\",",
        "  \"item.energizedpower.c\": \"C\",",
        "  \"block.energizedpower.c\": \"C\",",
        "  \"container.energizedpower.c\": \"C\",",
        "  \"block.energizedpower.d\": \"D\",",
        "  \"block.energizedpower.e\": \"E\",",
        "  \"item.energizedpower.e\": \"E\",",
        "}",
    ]);
    let once = update_templates(&input);
    assert_eq!(
        once,
        lines(&[
            "{",
            "  \"item.energizedpower.a\": \"A\",",
            "  \"container.energizedpower.b\": \"B\",",
            "  \"_template.epcontainer.c\": \"C\",",
            "  \"block.energizedpower.d\": \"D\",",
            "  \"_template.epblock.e\": \"E\",",
            "}",
        ])
    );
    assert_eq!(update_templates(&once), once);
}
