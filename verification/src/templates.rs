use vstd::prelude::*;
use crate::text::{chars_of, contains, contains_str, replace, replace_str};

verus! {

/// The start of a block translation key.
pub open spec fn block_key() -> Seq<char> {
    "\"block.energizedpower."@
}

/// The start of an item translation key.
pub open spec fn item_key() -> Seq<char> {
    "\"item.energizedpower."@
}

/// The start of a container translation key.
pub open spec fn container_key() -> Seq<char> {
    "\"container.energizedpower."@
}

/// The machine whose container translations stay apart.
pub open spec fn conveyor_belt() -> Seq<char> {
    "item_conveyor_belt"@
}

/// The key start that replaces a block key shared by an item and a block.
pub open spec fn block_template_key() -> Seq<char> {
    "\"_template.epblock."@
}

/// The key start that replaces a block key shared by an item, a block and
/// a container.
pub open spec fn container_template_key() -> Seq<char> {
    "\"_template.epcontainer."@
}

/// What has been written so far, the lines held back, and which kinds of
/// translation the held-back lines hold.
pub struct TemplateState {
    pub output: Seq<Seq<char>>,
    pub buffer: Seq<Seq<char>>,
    pub has_item: bool,
    pub has_block: bool,
    pub has_container: bool,
}

/// The state made of its parts.
pub open spec fn template_state(
    output: Seq<Seq<char>>,
    buffer: Seq<Seq<char>>,
    has_item: bool,
    has_block: bool,
    has_container: bool,
) -> TemplateState {
    TemplateState { output, buffer, has_item, has_block, has_container }
}

/// The index of the first line of `lines` that contains `key`.
pub open spec fn first_line_with(lines: Seq<Seq<char>>, key: Seq<char>) -> Option<int>
    decreases lines.len(),
{
    if lines.len() == 0 {
        None
    } else if contains(lines[0], key) {
        Some(0)
    } else {
        match first_line_with(lines.drop_first(), key) {
            Some(k) => Some(k + 1),
            None => None,
        }
    }
}

/// The held-back lines written out: when they hold both an item and a
/// block translation, only the block line is written, with its key turned
/// into a template key (a container template key when a container
/// translation was held back too); otherwise all of them, in order. The
/// state then holds nothing back.
pub open spec fn flushed(st: TemplateState) -> TemplateState {
    let output = if st.has_item && st.has_block {
        match first_line_with(st.buffer, block_key()) {
            Some(k) => st.output.push(
                replace(
                    st.buffer[k],
                    block_key(),
                    if st.has_container {
                        container_template_key()
                    } else {
                        block_template_key()
                    },
                ),
            ),
            None => st.output + st.buffer,
        }
    } else {
        st.output + st.buffer
    };
    template_state(output, seq![], false, false, false)
}

/// The state after one more input line. An item, block or container line
/// is held back, after the held-back lines are written out if one of its
/// kind is held already; any other line is written after the held-back
/// lines.
pub open spec fn template_step(st: TemplateState, line: Seq<char>) -> TemplateState {
    if contains(line, item_key()) {
        let s = if st.has_item { flushed(st) } else { st };
        template_state(s.output, s.buffer.push(line), true, s.has_block, s.has_container)
    } else if contains(line, block_key()) {
        let s = if st.has_block { flushed(st) } else { st };
        template_state(s.output, s.buffer.push(line), s.has_item, true, s.has_container)
    } else if contains(line, container_key()) && !contains(line, conveyor_belt()) {
        let s = if st.has_container { flushed(st) } else { st };
        template_state(s.output, s.buffer.push(line), s.has_item, s.has_block, true)
    } else {
        let s = if st.has_item || st.has_block || st.has_container { flushed(st) } else { st };
        template_state(s.output.push(line), s.buffer, s.has_item, s.has_block, s.has_container)
    }
}

/// The state after all of `lines`, starting from nothing.
pub open spec fn template_run(lines: Seq<Seq<char>>) -> TemplateState
    decreases lines.len(),
{
    if lines.len() == 0 {
        template_state(seq![], seq![], false, false, false)
    } else {
        template_step(template_run(lines.drop_last()), lines.last())
    }
}

/// The lines of a translation file with item and block (and container)
/// translations of one thing combined into one template translation.
pub open spec fn templated_lines(lines: Seq<Seq<char>>) -> Seq<Seq<char>> {
    flushed(template_run(lines)).output
}

/// The index of the first of `lines` that contains `key`.
pub fn first_line_containing(lines: &Vec<String>, key: &str) -> (r: Option<usize>)
    ensures
        match r {
            Some(k) => first_line_with(lines.deep_view(), key@) == Some(k as int) && k < lines.len(),
            None => first_line_with(lines.deep_view(), key@) is None,
        },
{
    let ghost lv = lines.deep_view();
    let mut k: usize = 0;
    assert(lv.skip(0) =~= lv);
    while k < lines.len()
        invariant
            lv == lines.deep_view(),
            k <= lines.len(),
            first_line_with(lv, key@) == match first_line_with(lv.skip(k as int), key@) {
                Some(m) => Some(m + k),
                None => None,
            },
        decreases lines.len() - k,
    {
        assert(lv.skip(k as int)[0] == lv[k as int]);
        assert(lv.skip(k as int).drop_first() =~= lv.skip(k + 1));
        let chars = chars_of(lines[k].as_str());
        if contains_str(&chars, key) {
            return Some(k);
        }
        k = k + 1;
    }
    assert(lv.skip(k as int) =~= Seq::<Seq<char>>::empty());
    None
}

/// Writes the held-back lines to `output` as `flushed` says, and clears
/// the held-back lines and the three flags.
pub fn write_and_clear_combined_translations_line_buffer(
    output: &mut Vec<String>,
    line_buffer: &mut Vec<String>,
    has_item: &mut bool,
    has_block: &mut bool,
    has_container: &mut bool,
)
    ensures
        template_state(
            final(output).deep_view(),
            final(line_buffer).deep_view(),
            *final(has_item),
            *final(has_block),
            *final(has_container),
        ) == flushed(
            template_state(
                old(output).deep_view(),
                old(line_buffer).deep_view(),
                *old(has_item),
                *old(has_block),
                *old(has_container),
            ),
        ),
{
    let mut combined = false;
    if *has_item && *has_block {
        if let Some(k) = first_line_containing(line_buffer, "\"block.energizedpower.") {
            proof {
                reveal_strlit("\"block.energizedpower.");
            }
            let line = if *has_container {
                replace_str(line_buffer[k].as_str(), "\"block.energizedpower.", "\"_template.epcontainer.")
            } else {
                replace_str(line_buffer[k].as_str(), "\"block.energizedpower.", "\"_template.epblock.")
            };
            let ghost before = output.deep_view();
            output.push(line);
            assert(output.deep_view() =~= before.push(line@));
            line_buffer.clear();
            assert(line_buffer.deep_view() =~= Seq::<Seq<char>>::empty());
            combined = true;
        }
    }
    if !combined {
        let ghost before = output.deep_view();
        let ghost bv = line_buffer.deep_view();
        output.append(line_buffer);
        assert(output.deep_view() =~= before + bv);
        assert(line_buffer.deep_view() =~= Seq::<Seq<char>>::empty());
    }
    *has_item = false;
    *has_block = false;
    *has_container = false;
}

/// Combines the item and block (and container) translations of one thing
/// into one template translation, as `templated_lines` says.
pub fn update_templates(input: &Vec<String>) -> (output: Vec<String>)
    ensures
        output.deep_view() == templated_lines(input.deep_view()),
{
    let ghost iv = input.deep_view();
    let mut output: Vec<String> = Vec::new();
    let mut line_buffer: Vec<String> = Vec::new();
    let mut has_item = false;
    let mut has_block = false;
    let mut has_container = false;
    let mut i: usize = 0;
    assert(iv.take(0) =~= Seq::<Seq<char>>::empty());
    assert(output.deep_view() =~= Seq::<Seq<char>>::empty());
    assert(line_buffer.deep_view() =~= Seq::<Seq<char>>::empty());
    while i < input.len()
        invariant
            iv == input.deep_view(),
            i <= input.len(),
            template_state(
                output.deep_view(),
                line_buffer.deep_view(),
                has_item,
                has_block,
                has_container,
            ) == template_run(iv.take(i as int)),
        decreases input.len() - i,
    {
        let ghost line_v = iv[i as int];
        assert(iv.take(i + 1).drop_last() =~= iv.take(i as int));
        assert(iv.take(i + 1).last() == line_v);
        let chars = chars_of(input[i].as_str());
        if contains_str(&chars, "\"item.energizedpower.") {
            if has_item {
                write_and_clear_combined_translations_line_buffer(
                    &mut output, &mut line_buffer, &mut has_item, &mut has_block, &mut has_container,
                );
            }
            has_item = true;
            let ghost before = line_buffer.deep_view();
            line_buffer.push(input[i].clone());
            assert(line_buffer.deep_view() =~= before.push(line_v));
        } else if contains_str(&chars, "\"block.energizedpower.") {
            if has_block {
                write_and_clear_combined_translations_line_buffer(
                    &mut output, &mut line_buffer, &mut has_item, &mut has_block, &mut has_container,
                );
            }
            has_block = true;
            let ghost before = line_buffer.deep_view();
            line_buffer.push(input[i].clone());
            assert(line_buffer.deep_view() =~= before.push(line_v));
        } else if contains_str(&chars, "\"container.energizedpower.") && !contains_str(
            &chars,
            "item_conveyor_belt",
        ) {
            if has_container {
                write_and_clear_combined_translations_line_buffer(
                    &mut output, &mut line_buffer, &mut has_item, &mut has_block, &mut has_container,
                );
            }
            has_container = true;
            let ghost before = line_buffer.deep_view();
            line_buffer.push(input[i].clone());
            assert(line_buffer.deep_view() =~= before.push(line_v));
        } else {
            if has_item || has_block || has_container {
                write_and_clear_combined_translations_line_buffer(
                    &mut output, &mut line_buffer, &mut has_item, &mut has_block, &mut has_container,
                );
            }
            let ghost before = output.deep_view();
            output.push(input[i].clone());
            assert(output.deep_view() =~= before.push(line_v));
        }
        i = i + 1;
    }
    assert(iv.take(i as int) =~= iv);
    write_and_clear_combined_translations_line_buffer(
        &mut output, &mut line_buffer, &mut has_item, &mut has_block, &mut has_container,
    );
    output
}

/// The index of the first line with `key` in them, when there is one,
/// lies inside `lines`.
proof fn lemma_first_line_with_bounds(lines: Seq<Seq<char>>, key: Seq<char>)
    ensures
        first_line_with(lines, key) matches Some(k) ==> 0 <= k < lines.len(),
    decreases lines.len(),
{
    if lines.len() > 0 && !contains(lines[0], key) {
        lemma_first_line_with_bounds(lines.drop_first(), key);
    }
}

/// Writing out the held-back lines never writes more lines than were held
/// back.
proof fn lemma_flushed_length(st: TemplateState)
    ensures
        flushed(st).output.len() <= st.output.len() + st.buffer.len(),
        flushed(st).buffer.len() == 0,
{
    lemma_first_line_with_bounds(st.buffer, block_key());
}

/// While lines are read, the written and held-back lines are never more
/// than the lines read.
proof fn lemma_template_run_length(lines: Seq<Seq<char>>)
    ensures
        template_run(lines).output.len() + template_run(lines).buffer.len() <= lines.len(),
    decreases lines.len(),
{
    if lines.len() > 0 {
        let st = template_run(lines.drop_last());
        lemma_template_run_length(lines.drop_last());
        lemma_flushed_length(st);
    }
}

/// Combining translations never makes a file longer.
pub proof fn lemma_templated_lines_length(lines: Seq<Seq<char>>)
    ensures
        templated_lines(lines).len() <= lines.len(),
{
    lemma_template_run_length(lines);
    lemma_flushed_length(template_run(lines));
}

/// The state after lines of which none has an item key, or none has a
/// block key: nothing has been combined, nothing is held back without a
/// flag, and the written lines followed by the held-back ones are the lines
/// read.
proof fn lemma_template_run_uncombined(lines: Seq<Seq<char>>, no_item: bool)
    requires
        no_item ==> forall|k: int| 0 <= k < lines.len() ==> !contains(#[trigger] lines[k], item_key()),
        !no_item ==> forall|k: int| 0 <= k < lines.len() ==> !contains(#[trigger] lines[k], block_key()),
    ensures
        no_item ==> !template_run(lines).has_item,
        !no_item ==> !template_run(lines).has_block,
        template_run(lines).buffer.len() > 0 ==> (template_run(lines).has_item
            || template_run(lines).has_block || template_run(lines).has_container),
        template_run(lines).output + template_run(lines).buffer == lines,
    decreases lines.len(),
{
    if lines.len() == 0 {
        assert(Seq::<Seq<char>>::empty() + Seq::<Seq<char>>::empty() =~= lines);
    } else {
        let prev = lines.drop_last();
        let line = lines.last();
        assert forall|k: int| 0 <= k < prev.len() implies #[trigger] prev[k] == lines[k] by {}
        lemma_template_run_uncombined(prev, no_item);
        let st = template_run(prev);
        let f = flushed(st);
        assert(f.output == st.output + st.buffer);
        assert(f.output + f.buffer =~= prev);
        assert(lines[lines.len() - 1] == line);
        assert(lines =~= prev.push(line));
        let next = template_run(lines);
        assert(next == template_step(st, line));
        if contains(line, item_key()) {
            let s = if st.has_item { f } else { st };
            assert(s.output + s.buffer.push(line) =~= lines);
        } else if contains(line, block_key()) {
            let s = if st.has_block { f } else { st };
            assert(s.output + s.buffer == prev);
            assert(s.output + s.buffer.push(line) =~= (s.output + s.buffer).push(line));
        } else if contains(line, container_key()) && !contains(line, conveyor_belt()) {
            let s = if st.has_container { f } else { st };
            assert(s.output + s.buffer == prev);
            assert(s.output + s.buffer.push(line) =~= (s.output + s.buffer).push(line));
        } else {
            let s = if st.has_item || st.has_block || st.has_container { f } else { st };
            assert(s.buffer.len() == 0);
            assert(s.output.push(line) + s.buffer =~= lines);
        }
    }
}

/// A file in which no line has an item key is left as it is.
pub proof fn lemma_templated_without_items(lines: Seq<Seq<char>>)
    requires
        forall|k: int| 0 <= k < lines.len() ==> !contains(#[trigger] lines[k], item_key()),
    ensures
        templated_lines(lines) == lines,
{
    lemma_template_run_uncombined(lines, true);
}

/// A file in which no line has a block key is left as it is.
pub proof fn lemma_templated_without_blocks(lines: Seq<Seq<char>>)
    requires
        forall|k: int| 0 <= k < lines.len() ==> !contains(#[trigger] lines[k], block_key()),
    ensures
        templated_lines(lines) == lines,
{
    lemma_template_run_uncombined(lines, false);
}


/// Adding a line at the end keeps a found line, and finds the added line
/// when it has the key.
proof fn lemma_first_line_with_push(lines: Seq<Seq<char>>, key: Seq<char>, line: Seq<char>)
    ensures
        first_line_with(lines, key) is Some ==> first_line_with(lines.push(line), key) is Some,
        contains(line, key) ==> first_line_with(lines.push(line), key) is Some,
    decreases lines.len(),
{
    if lines.len() > 0 {
        assert(lines.push(line)[0] == lines[0]);
        assert(lines.push(line).drop_first() =~= lines.drop_first().push(line));
        lemma_first_line_with_push(lines.drop_first(), key, line);
    } else {
        assert(lines.push(line)[0] == line);
    }
}

/// While a block translation is held back, a held-back line has a block
/// key, so the combined line can always be made.
pub proof fn lemma_template_run_holds_block_line(lines: Seq<Seq<char>>)
    ensures
        template_run(lines).has_block ==> first_line_with(template_run(lines).buffer, block_key()) is Some,
    decreases lines.len(),
{
    if lines.len() > 0 {
        let prev = lines.drop_last();
        let line = lines.last();
        lemma_template_run_holds_block_line(prev);
        let st = template_run(prev);
        let f = flushed(st);
        let s = if contains(line, item_key()) {
            if st.has_item { f } else { st }
        } else if contains(line, block_key()) {
            if st.has_block { f } else { st }
        } else if contains(line, container_key()) && !contains(line, conveyor_belt()) {
            if st.has_container { f } else { st }
        } else {
            if st.has_item || st.has_block || st.has_container { f } else { st }
        };
        lemma_first_line_with_push(s.buffer, block_key(), line);
    }
}

} // verus!
