use vstd::prelude::*;
use crate::functionality::{
    first_type_prefix, functionality_span, line_functionality_span, line_type_prefix,
    unified_functionality, unify_and_separate_functionalities, well_formed_line,
};
use crate::text::{blank, chars_of, is_blank, same_chars, trim};

verus! {

/// The character of a decimal digit.
pub open spec fn digit_char(d: nat) -> char {
    if d == 0 {
        '0'
    } else if d == 1 {
        '1'
    } else if d == 2 {
        '2'
    } else if d == 3 {
        '3'
    } else if d == 4 {
        '4'
    } else if d == 5 {
        '5'
    } else if d == 6 {
        '6'
    } else if d == 7 {
        '7'
    } else if d == 8 {
        '8'
    } else {
        '9'
    }
}

/// The decimal notation of `n`, as `format!` writes it.
pub open spec fn decimal(n: nat) -> Seq<char>
    decreases n,
{
    if n < 10 {
        seq![digit_char(n)]
    } else {
        decimal(n / 10).push(digit_char(n % 10))
    }
}

/// Appends the decimal notation of `n` to `out`.
fn push_decimal(n: usize, out: &mut Vec<char>)
    ensures
        final(out)@ == old(out)@ + decimal(n as nat),
    decreases n,
{
    if n >= 10 {
        push_decimal(n / 10, out);
    }
    let d = n % 10;
    let c = if d == 0 {
        '0'
    } else if d == 1 {
        '1'
    } else if d == 2 {
        '2'
    } else if d == 3 {
        '3'
    } else if d == 4 {
        '4'
    } else if d == 5 {
        '5'
    } else if d == 6 {
        '6'
    } else if d == 7 {
        '7'
    } else if d == 8 {
        '8'
    } else {
        '9'
    };
    out.push(c);
    assert(out@ =~= old(out)@ + decimal(n as nat));
}

/// The functionality of a line that has no type prefix: the `n`-th such
/// line gets a functionality of its own.
pub open spec fn dummy_key(n: nat) -> Seq<char> {
    "DUMMY_"@ + decimal(n)
}

/// The index of the first occurrence of `k` in `keys`.
pub open spec fn index_of(keys: Seq<Seq<char>>, k: Seq<char>) -> Option<int>
    decreases keys.len(),
{
    if keys.len() == 0 {
        None
    } else if keys[0] == k {
        Some(0)
    } else {
        match index_of(keys.drop_first(), k) {
            Some(j) => Some(j + 1),
            None => None,
        }
    }
}

/// A found index lies in range and holds the key; without one, no entry
/// holds it.
pub proof fn lemma_index_of(keys: Seq<Seq<char>>, k: Seq<char>)
    ensures
        index_of(keys, k) matches Some(j) ==> 0 <= j < keys.len() && keys[j] == k && forall|m: int|
            0 <= m < j ==> keys[m] != k,
        index_of(keys, k) is None ==> forall|m: int| 0 <= m < keys.len() ==> keys[m] != k,
    decreases keys.len(),
{
    if keys.len() > 0 {
        lemma_index_of(keys.drop_first(), k);
        if keys[0] != k {
            assert forall|m: int| 1 <= m < keys.len() implies keys[m] == keys.drop_first()[m - 1] by {}
        }
    }
}

/// The character sequences held in a list of character vectors.
pub open spec fn char_rows(rows: Seq<Vec<char>>) -> Seq<Seq<char>> {
    rows.map_values(|r: Vec<char>| r@)
}

/// The index of the first entry of `keys` equal to `k`.
pub fn index_of_key(keys: &Vec<Vec<char>>, k: &Vec<char>) -> (r: Option<usize>)
    ensures
        match r {
            Some(j) => index_of(char_rows(keys@), k@) == Some(j as int) && j < keys.len(),
            None => index_of(char_rows(keys@), k@) is None,
        },
{
    let ghost kv = char_rows(keys@);
    let mut j: usize = 0;
    assert(kv.skip(0) =~= kv);
    while j < keys.len()
        invariant
            kv == char_rows(keys@),
            j <= keys.len(),
            index_of(kv, k@) == match index_of(kv.skip(j as int), k@) {
                Some(m) => Some(m + j),
                None => None,
            },
        decreases keys.len() - j,
    {
        assert(kv.skip(j as int)[0] == kv[j as int]);
        assert(kv.skip(j as int).drop_first() =~= kv.skip(j + 1));
        if same_chars(&keys[j], k) {
            return Some(j);
        }
        j = j + 1;
    }
    assert(kv.skip(j as int) =~= Seq::<Seq<char>>::empty());
    None
}

/// The functionalities in the order they are written, the functionalities
/// that have a group, the lines of each group (with the functionality at
/// the same index), and the number of lines without a type prefix seen.
pub struct Grouping {
    pub order: Seq<Seq<char>>,
    pub keys: Seq<Seq<char>>,
    pub members: Seq<Seq<Seq<char>>>,
    pub dummies: nat,
}

/// The grouping made of its parts.
pub open spec fn grouping(
    order: Seq<Seq<char>>,
    keys: Seq<Seq<char>>,
    members: Seq<Seq<Seq<char>>>,
    dummies: nat,
) -> Grouping {
    Grouping { order, keys, members, dummies }
}

/// The functionality of a line with a type prefix.
pub open spec fn line_functionality(line: Seq<char>) -> Seq<char> {
    match functionality_span(line, first_type_prefix(line)->0) {
        Some((s, e)) => unified_functionality(line, line.subrange(s, e)),
        None => seq![],
    }
}

/// `line` added at the end of the group of `key`, or as the first line of
/// a new group that comes last in the order.
pub open spec fn add_to_group(g: Grouping, key: Seq<char>, line: Seq<char>) -> Grouping {
    match index_of(g.keys, key) {
        Some(j) => grouping(g.order, g.keys, g.members.update(j, g.members[j].push(line)), g.dummies),
        None => grouping(g.order.push(key), g.keys.push(key), g.members.push(seq![line]), g.dummies),
    }
}

/// A line without a type prefix put in a group of its own under the next
/// dummy functionality, which comes last in the order. A group that
/// already has that functionality is replaced.
pub open spec fn put_alone(g: Grouping, line: Seq<char>) -> Grouping {
    let key = dummy_key(g.dummies);
    match index_of(g.keys, key) {
        Some(j) => grouping(g.order.push(key), g.keys, g.members.update(j, seq![line]), g.dummies + 1),
        None => grouping(g.order.push(key), g.keys.push(key), g.members.push(seq![line]), g.dummies + 1),
    }
}

/// The grouping after one more line: blank lines are dropped, a line with
/// a type prefix joins the group of its functionality, and any other line
/// is put alone.
pub open spec fn group_step(g: Grouping, line: Seq<char>) -> Grouping {
    if is_blank(line) {
        g
    } else if first_type_prefix(line) is Some {
        add_to_group(g, line_functionality(line), line)
    } else {
        put_alone(g, line)
    }
}

/// The grouping of `lines`, read in order.
pub open spec fn grouped(lines: Seq<Seq<char>>) -> Grouping
    decreases lines.len(),
{
    if lines.len() == 0 {
        grouping(seq![], seq![], seq![], 0)
    } else {
        group_step(grouped(lines.drop_last()), lines.last())
    }
}

/// Every line can be sorted.
pub open spec fn all_well_formed(lines: Seq<Seq<char>>) -> bool {
    forall|i: int| 0 <= i < lines.len() ==> well_formed_line(#[trigger] lines[i])
}

/// The functionality of a line with a type prefix, as characters.
fn functionality_of(line: &String, chars: &Vec<char>, k: usize) -> (r: Vec<char>)
    requires
        chars@ == line@,
        k < 27,
        first_type_prefix(line@) == Some(k as int),
        well_formed_line(line@),
        !is_blank(line@),
    ensures
        r@ == line_functionality(line@),
{
    match line_functionality_span(chars, k) {
        Some((s, e)) => {
            let f = line.as_str().substring_char(s, e);
            let u = unify_and_separate_functionalities(line.as_str(), f);
            chars_of(u.as_str())
        },
        None => {
            proof {
                crate::functionality::lemma_not_blank_or_untyped(line@);
            }
            Vec::new()
        },
    }
}

/// A copy of a character vector.
fn copy_chars(v: &Vec<char>) -> (r: Vec<char>)
    ensures
        r@ == v@,
{
    let mut r: Vec<char> = Vec::new();
    let mut k: usize = 0;
    while k < v.len()
        invariant
            k <= v@.len(),
            r@ == v@.take(k as int),
        decreases v@.len() - k,
    {
        r.push(v[k]);
        k = k + 1;
        assert(r@ =~= v@.take(k as int));
    }
    assert(r@ =~= v@);
    r
}

/// Groups the non-blank lines by functionality, as `grouped` says.
fn group_lines(lines: &Vec<String>) -> (r: (Vec<Vec<char>>, Vec<Vec<char>>, Vec<Vec<String>>, usize))
    requires
        all_well_formed(lines.deep_view()),
    ensures
        r.1.len() == r.2.len(),
        grouping(char_rows(r.0@), char_rows(r.1@), r.2.deep_view(), r.3 as nat) == grouped(
            lines.deep_view(),
        ),
{
    let ghost lv = lines.deep_view();
    let mut order: Vec<Vec<char>> = Vec::new();
    let mut keys: Vec<Vec<char>> = Vec::new();
    let mut members: Vec<Vec<String>> = Vec::new();
    let mut dummies: usize = 0;
    let mut i: usize = 0;
    assert(lv.take(0) =~= Seq::<Seq<char>>::empty());
    assert(char_rows(order@) =~= Seq::<Seq<char>>::empty());
    assert(members.deep_view() =~= Seq::<Seq<Seq<char>>>::empty());
    while i < lines.len()
        invariant
            lv == lines.deep_view(),
            all_well_formed(lv),
            i <= lines.len(),
            dummies <= i,
            keys.len() == members.len(),
            grouping(char_rows(order@), char_rows(keys@), members.deep_view(), dummies as nat)
                == grouped(lv.take(i as int)),
        decreases lines.len() - i,
    {
        let ghost line = lv[i as int];
        assert(lv.take(i + 1).drop_last() =~= lv.take(i as int));
        assert(lv.take(i + 1).last() == line);
        assert(well_formed_line(line));
        let chars = chars_of(lines[i].as_str());
        if !blank(&chars) {
            let key = match line_type_prefix(&chars) {
                Some(k) => functionality_of(&lines[i], &chars, k),
                None => {
                    let mut key = chars_of("DUMMY_");
                    push_decimal(dummies, &mut key);
                    key
                },
            };
            let is_dummy = line_type_prefix(&chars).is_none();
            match index_of_key(&keys, &key) {
                Some(j) => {
                    proof {
                        lemma_index_of(char_rows(keys@), key@);
                    }
                    let ghost old_members = members.deep_view();
                    if is_dummy {
                        let one = vec![lines[i].clone()];
                        assert(one.deep_view() =~= seq![line]);
                        members.set(j, one);
                        assert(members.deep_view() =~= old_members.update(j as int, seq![line]));
                        let ghost old_order = char_rows(order@);
                        order.push(key);
                        assert(char_rows(order@) =~= old_order.push(dummy_key(dummies as nat)));
                        dummies = dummies + 1;
                    } else {
                        let mut group: Vec<String> = Vec::new();
                        members.set_and_swap(j, &mut group);
                        let ghost taken = group.deep_view();
                        assert(taken == old_members[j as int]);
                        group.push(lines[i].clone());
                        assert(group.deep_view() =~= taken.push(line));
                        members.set_and_swap(j, &mut group);
                        assert(members.deep_view() =~= old_members.update(
                            j as int,
                            old_members[j as int].push(line),
                        ));
                    }
                },
                None => {
                    let ghost old_members = members.deep_view();
                    let ghost old_order = char_rows(order@);
                    let ghost old_keys = char_rows(keys@);
                    let ghost kv = key@;
                    order.push(copy_chars(&key));
                    keys.push(key);
                    let one = vec![lines[i].clone()];
                    assert(one.deep_view() =~= seq![line]);
                    members.push(one);
                    assert(char_rows(order@) =~= old_order.push(kv));
                    assert(char_rows(keys@) =~= old_keys.push(kv));
                    assert(members.deep_view() =~= old_members.push(seq![line]));
                    if is_dummy {
                        dummies = dummies + 1;
                    }
                },
            }
        }
        i = i + 1;
    }
    assert(lv.take(i as int) =~= lv);
    (order, keys, members, dummies)
}

/// The functionalities that are moved, in the order in which they are moved.
pub open spec fn move_source(i: int) -> Seq<char> {
    if i == 0 {
        "cable"@
    } else if i == 1 {
        "cables"@
    } else if i == 2 {
        "transformer"@
    } else if i == 3 {
        "configurable_transformer"@
    } else if i == 4 {
        "transformers"@
    } else if i == 5 {
        "furnace_mode_upgrades"@
    } else if i == 6 {
        "circuits"@
    } else if i == 7 {
        "solar_cells"@
    } else if i == 8 {
        "machine_frames"@
    } else if i == 9 {
        "powered_furnaces"@
    } else if i == 10 {
        "auto_crafters"@
    } else if i == 11 {
        "crushers"@
    } else if i == 12 {
        "pulverizers"@
    } else if i == 13 {
        "fluid_pumps"@
    } else if i == 14 {
        "fluid_pipes"@
    } else if i == 15 {
        "item_silos"@
    } else if i == 16 {
        "charger_uncharger"@
    } else if i == 17 {
        "minecart_charger_uncharger"@
    } else if i == 18 {
        "fluid_filler_fluid_drainer"@
    } else if i == 19 {
        "battery_box_minecarts"@
    } else if i == 20 {
        "auto_crafter_tooltip"@
    } else if i == 21 {
        "chargers"@
    } else {
        seq![]
    }
}

/// The functionality after which the functionality `move_source(i)` is moved.
pub open spec fn move_target(i: int) -> Seq<char> {
    if i == 0 {
        "energized_crystal_matrix_cable"@
    } else if i == 1 {
        "cable"@
    } else if i == 2 {
        "UNIFIED_ehv_transformer"@
    } else if i == 3 {
        "transformer"@
    } else if i == 4 {
        "configurable_transformer"@
    } else if i == 5 {
        "smoker_upgrade_module"@
    } else if i == 6 {
        "quantum_processing_unit"@
    } else if i == 7 {
        "elite_solar_cell"@
    } else if i == 8 {
        "reinforced_advanced_machine_frame"@
    } else if i == 9 {
        "advanced_powered_furnace"@
    } else if i == 10 {
        "advanced_auto_crafter"@
    } else if i == 11 {
        "advanced_crusher"@
    } else if i == 12 {
        "advanced_pulverizer"@
    } else if i == 13 {
        "advanced_fluid_pump"@
    } else if i == 14 {
        "fluid_pipe_tooltip"@
    } else if i == 15 {
        "item_silo_capacity"@
    } else if i == 16 {
        "advanced_uncharger"@
    } else if i == 17 {
        "advanced_minecart_uncharger"@
    } else if i == 18 {
        "fluid_drainer"@
    } else if i == 19 {
        "advanced_battery_box_minecart"@
    } else if i == 20 {
        "advanced_auto_crafter"@
    } else if i == 21 {
        "advanced_charger"@
    } else {
        seq![]
    }
}

/// The functionality moved in move `i` and the one it is moved after.
pub fn move_pair(i: usize) -> (r: (&'static str, &'static str))
    requires
        i < 22,
    ensures
        r.0@ == move_source(i as int),
        r.1@ == move_target(i as int),
{
    match i {
        0 => ("cable", "energized_crystal_matrix_cable"),
        1 => ("cables", "cable"),
        2 => ("transformer", "UNIFIED_ehv_transformer"),
        3 => ("configurable_transformer", "transformer"),
        4 => ("transformers", "configurable_transformer"),
        5 => ("furnace_mode_upgrades", "smoker_upgrade_module"),
        6 => ("circuits", "quantum_processing_unit"),
        7 => ("solar_cells", "elite_solar_cell"),
        8 => ("machine_frames", "reinforced_advanced_machine_frame"),
        9 => ("powered_furnaces", "advanced_powered_furnace"),
        10 => ("auto_crafters", "advanced_auto_crafter"),
        11 => ("crushers", "advanced_crusher"),
        12 => ("pulverizers", "advanced_pulverizer"),
        13 => ("fluid_pumps", "advanced_fluid_pump"),
        14 => ("fluid_pipes", "fluid_pipe_tooltip"),
        15 => ("item_silos", "item_silo_capacity"),
        16 => ("charger_uncharger", "advanced_uncharger"),
        17 => ("minecart_charger_uncharger", "advanced_minecart_uncharger"),
        18 => ("fluid_filler_fluid_drainer", "fluid_drainer"),
        19 => ("battery_box_minecarts", "advanced_battery_box_minecart"),
        20 => ("auto_crafter_tooltip", "advanced_auto_crafter"),
        _ => ("chargers", "advanced_charger"),
    }
}

/// `order` with the first `from` moved to right after the first `to`,
/// when both occur.
pub open spec fn move_after(order: Seq<Seq<char>>, from: Seq<char>, to: Seq<char>) -> Seq<Seq<char>> {
    match (index_of(order, from), index_of(order, to)) {
        (Some(a), Some(b)) => order.remove(a).insert(if a > b { b + 1 } else { b }, order[a]),
        _ => order,
    }
}

/// `order` after the first `n` moves.
pub open spec fn moved(order: Seq<Seq<char>>, n: int) -> Seq<Seq<char>>
    decreases n,
{
    if n <= 0 {
        order
    } else {
        move_after(moved(order, n - 1), move_source(n - 1), move_target(n - 1))
    }
}

/// Moves the functionalities that belong after others, as `moved` says
/// for all the moves.
fn move_functionalities(order: &mut Vec<Vec<char>>)
    ensures
        char_rows(final(order)@) == moved(char_rows(old(order)@), 22),
{
    let ghost start = char_rows(order@);
    let mut i: usize = 0;
    while i < 22
        invariant
            i <= 22,
            char_rows(order@) == moved(start, i as int),
        decreases 22 - i,
    {
        let (from, to) = move_pair(i);
        let from_chars = chars_of(from);
        let to_chars = chars_of(to);
        let ghost before = char_rows(order@);
        let index_from = index_of_key(order, &from_chars);
        let index_to = index_of_key(order, &to_chars);
        if let Some(a) = index_from {
            if let Some(b) = index_to {
                let target = if a > b { b + 1 } else { b };
                let f = order.remove(a);
                assert(char_rows(order@) =~= before.remove(a as int));
                assert(f@ == before[a as int]);
                order.insert(target, f);
                assert(char_rows(order@) =~= before.remove(a as int).insert(target as int, before[a as int]));
            }
        }
        i = i + 1;
    }
}


/// The lines of the group of `key`.
pub open spec fn group_of(keys: Seq<Seq<char>>, members: Seq<Seq<Seq<char>>>, key: Seq<char>) -> Seq<
    Seq<char>,
> {
    match index_of(keys, key) {
        Some(j) => members[j],
        None => seq![],
    }
}

/// A line that is an opening or a closing brace, give or take white space.
pub open spec fn is_brace_line(line: Seq<char>) -> bool {
    trim(line) == "{"@ || trim(line) == "}"@
}

/// An empty line follows the group `lines` written at index `idx` of
/// `count` groups: none of its lines is a brace and, when it has lines, it
/// is not the last group but one.
pub open spec fn blank_line_after(lines: Seq<Seq<char>>, idx: int, count: int) -> bool {
    (forall|m: int| 0 <= m < lines.len() ==> !is_brace_line(#[trigger] lines[m])) && (lines.len()
        == 0 || idx + 2 != count)
}

/// The lines written for the groups in `order` from index `idx` on: each
/// group's lines, an empty line where `blank_line_after` says so, and two
/// more empty lines after the community translation notes.
pub open spec fn rendered_from(
    order: Seq<Seq<char>>,
    keys: Seq<Seq<char>>,
    members: Seq<Seq<Seq<char>>>,
    idx: int,
) -> Seq<Seq<char>>
    decreases order.len() - idx,
{
    if idx < 0 || idx >= order.len() {
        seq![]
    } else {
        let lines = group_of(keys, members, order[idx]);
        lines + (if blank_line_after(lines, idx, order.len() as int) {
            seq![Seq::<char>::empty()]
        } else {
            seq![]
        }) + (if order[idx] == "CTI_datagen"@ {
            seq![Seq::<char>::empty(), Seq::<char>::empty()]
        } else {
            seq![]
        }) + rendered_from(order, keys, members, idx + 1)
    }
}

/// The lines of a translation file grouped by functionality, with the
/// groups in the order in which their functionalities first occur, after
/// the moves.
pub open spec fn reordered_lines(lines: Seq<Seq<char>>) -> Seq<Seq<char>> {
    let g = grouped(lines);
    rendered_from(moved(g.order, 22), g.keys, g.members, 0)
}

/// Whether `line` is a brace line.
fn brace_line(line: &String) -> (r: bool)
    ensures
        r == is_brace_line(line@),
{
    let chars = chars_of(line.as_str());
    let t = crate::text::trimmed(&chars);
    crate::text::equals_str(&t, "{") || crate::text::equals_str(&t, "}")
}

/// Appends `n` empty lines.
fn push_empty_lines(output: &mut Vec<String>, n: usize)
    ensures
        final(output).deep_view() == old(output).deep_view() + Seq::new(n as nat, |m: int| Seq::<char>::empty()),
{
    let mut k: usize = 0;
    while k < n
        invariant
            k <= n,
            output.deep_view() == old(output).deep_view() + Seq::new(k as nat, |m: int| Seq::<char>::empty()),
        decreases n - k,
    {
        let ghost before = output.deep_view();
        output.push(String::new());
        assert(output.deep_view() =~= before.push(Seq::<char>::empty()));
        k = k + 1;
        assert(output.deep_view() =~= old(output).deep_view() + Seq::new(k as nat, |m: int| Seq::<char>::empty()));
    }
}

/// Writes the groups in `order`, as `rendered_from` says.
fn render(order: &Vec<Vec<char>>, keys: &Vec<Vec<char>>, members: &Vec<Vec<String>>) -> (output: Vec<
    String,
>)
    requires
        keys.len() == members.len(),
    ensures
        output.deep_view() == rendered_from(char_rows(order@), char_rows(keys@), members.deep_view(), 0),
{
    let ghost ov = char_rows(order@);
    let ghost kv = char_rows(keys@);
    let ghost mv = members.deep_view();
    let count = order.len();
    let mut output: Vec<String> = Vec::new();
    let mut idx: usize = 0;
    assert(output.deep_view() =~= Seq::<Seq<char>>::empty());
    while idx < count
        invariant
            count == order.len(),
            ov == char_rows(order@),
            kv == char_rows(keys@),
            mv == members.deep_view(),
            keys.len() == members.len(),
            idx <= count,
            rendered_from(ov, kv, mv, 0) == output.deep_view() + rendered_from(ov, kv, mv, idx as int),
        decreases count - idx,
    {
        let ghost out0 = output.deep_view();
        let ghost lines = group_of(kv, mv, ov[idx as int]);
        let mut should_append = true;
        match index_of_key(keys, &order[idx]) {
            Some(j) => {
                let group = &members[j];
                assert(group.deep_view() == lines);
                let mut k: usize = 0;
                while k < group.len()
                    invariant
                        group.deep_view() == lines,
                        count == order.len(),
                        idx < count,
                        k <= group.len(),
                        output.deep_view() == out0 + lines.take(k as int),
                        should_append == ((forall|m: int| 0 <= m < k ==> !is_brace_line(#[trigger] lines[m]))
                            && (k == 0 || idx + 2 != count)),
                    decreases group.len() - k,
                {
                    let ghost before = output.deep_view();
                    output.push(group[k].clone());
                    assert(output.deep_view() =~= before.push(lines[k as int]));
                    assert(lines.take(k + 1) =~= lines.take(k as int).push(lines[k as int]));
                    assert(output.deep_view() =~= out0 + lines.take(k + 1));
                    if brace_line(&group[k]) || (count >= 2 && idx == count - 2) {
                        should_append = false;
                    }
                    k = k + 1;
                }
                assert(lines.take(k as int) =~= lines);
            },
            None => {
                assert(output.deep_view() =~= out0 + lines);
            },
        }
        assert(should_append == blank_line_after(lines, idx as int, count as int));
        if should_append {
            push_empty_lines(&mut output, 1);
        } else {
            push_empty_lines(&mut output, 0);
        }
        let datagen = crate::text::equals_str(&order[idx], "CTI_datagen");
        if datagen {
            push_empty_lines(&mut output, 2);
        } else {
            push_empty_lines(&mut output, 0);
        }
        let ghost b1 = if should_append { seq![Seq::<char>::empty()] } else { Seq::<Seq<char>>::empty() };
        let ghost b2 = if datagen { seq![Seq::<char>::empty(), Seq::<char>::empty()] } else { Seq::<Seq<char>>::empty() };
        assert(output.deep_view() =~= out0 + lines + b1 + b2);
        assert(rendered_from(ov, kv, mv, idx as int) == lines + b1 + b2 + rendered_from(ov, kv, mv, idx + 1));
        assert(out0 + (lines + b1 + b2 + rendered_from(ov, kv, mv, idx + 1)) =~= output.deep_view()
            + rendered_from(ov, kv, mv, idx + 1));
        idx = idx + 1;
    }
    assert(output.deep_view() + Seq::<Seq<char>>::empty() =~= output.deep_view());
    output
}

/// Regroups the translations by functionality, as `reordered_lines` says:
/// the lines of one functionality come together, in their order, and the
/// groups come in the order in which their functionalities first occur,
/// after some groups are moved behind others.
///
/// A line without a type prefix gets the functionality `DUMMY_n`, where
/// `n` counts such lines before it. Where a typed line's functionality is
/// itself named `DUMMY_n`, the `n`-th untyped line replaces that group
/// (`put_alone`): the typed lines collected there are lost, and the
/// untyped line is written once for each time `DUMMY_n` is in the order.
pub fn reorder_translations(input: &Vec<String>) -> (output: Vec<String>)
    requires
        all_well_formed(input.deep_view()),
    ensures
        output.deep_view() == reordered_lines(input.deep_view()),
{
    let (mut order, keys, members, _dummies) = group_lines(input);
    move_functionalities(&mut order);
    render(&order, &keys, &members)
}

/// The first line that cannot be sorted because its functionality name
/// does not end, if any.
pub fn first_malformed_line(input: &Vec<String>) -> (r: Option<usize>)
    ensures
        match r {
            Some(i) => i < input.len() && !well_formed_line(input.deep_view()[i as int]) && forall|m: int|
                0 <= m < i ==> well_formed_line(#[trigger] input.deep_view()[m]),
            None => all_well_formed(input.deep_view()),
        },
{
    let ghost lv = input.deep_view();
    let mut i: usize = 0;
    while i < input.len()
        invariant
            lv == input.deep_view(),
            i <= input.len(),
            forall|m: int| 0 <= m < i ==> well_formed_line(#[trigger] lv[m]),
        decreases input.len() - i,
    {
        let chars = chars_of(input[i].as_str());
        if !blank(&chars) {
            if let Some(k) = line_type_prefix(&chars) {
                if line_functionality_span(&chars, k).is_none() {
                    return Some(i);
                }
            }
        }
        i = i + 1;
    }
    None
}


/// Moving a functionality keeps all functionalities: only their order
/// changes. When both occur and differ, the moved functionality comes
/// right after the first occurrence of the one it is moved after.
pub proof fn lemma_move_after(order: Seq<Seq<char>>, from: Seq<char>, to: Seq<char>)
    ensures
        move_after(order, from, to).to_multiset() == order.to_multiset(),
        move_after(order, from, to).len() == order.len(),
        index_of(order, from) is Some && index_of(order, to) is Some && from != to ==> ({
            let r = move_after(order, from, to);
            &&& index_of(r, to) is Some
            &&& index_of(r, to)->0 + 1 < r.len()
            &&& r[index_of(r, to)->0 + 1] == from
        }),
{
    broadcast use vstd::multiset::group_multiset_axioms;

    lemma_index_of(order, from);
    lemma_index_of(order, to);
    if let (Some(a), Some(b)) = (index_of(order, from), index_of(order, to)) {
        let x = order[a];
        let rest = order.remove(a);
        let t = if a > b { b + 1 } else { b };
        let r = rest.insert(t, x);
        vstd::seq_lib::to_multiset_remove(order, a);
        vstd::seq_lib::to_multiset_insert(rest, t, x);
        assert(order.to_multiset().remove(x).insert(x) =~= order.to_multiset()) by {
            vstd::seq_lib::to_multiset_contains(order, x);
        }
        if from != to {
            let tpos = if a > b { b } else { b - 1 };
            assert(r[tpos] == to);
            assert(r[tpos + 1] == from);
            assert forall|m: int| 0 <= m < tpos implies r[m] != to by {
                if m < a {
                    assert(r[m] == order[m]);
                } else {
                    assert(r[m] == order[m + 1]);
                }
            }
            lemma_index_of(r, to);
            if let Some(q) = index_of(r, to) {
                assert(q == tpos);
            }
        }
    }
}

/// All the moves keep the functionalities: only their order changes.
pub proof fn lemma_moved_permutation(order: Seq<Seq<char>>, n: int)
    ensures
        moved(order, n).to_multiset() == order.to_multiset(),
    decreases n,
{
    if n > 0 {
        lemma_moved_permutation(order, n - 1);
        lemma_move_after(moved(order, n - 1), move_source(n - 1), move_target(n - 1));
    }
}


/// Adding a different key at the end does not change where a key is found;
/// adding a key that was not there finds it at the end.
pub proof fn lemma_index_of_push(keys: Seq<Seq<char>>, k: Seq<char>, f: Seq<char>)
    ensures
        k != f ==> index_of(keys.push(k), f) == index_of(keys, f),
        index_of(keys, k) is None ==> index_of(keys.push(k), k) == Some(keys.len() as int),
{
    lemma_index_of(keys, f);
    lemma_index_of(keys.push(k), f);
    lemma_index_of(keys, k);
    lemma_index_of(keys.push(k), k);
    if k != f {
        if let Some(j) = index_of(keys.push(k), f) {
            assert(keys.push(k)[j] == keys[j]);
            if let Some(i) = index_of(keys, f) {
                assert(keys.push(k)[i] == keys[i]);
            }
        } else {
            if let Some(i) = index_of(keys, f) {
                assert(keys.push(k)[i] == keys[i]);
            }
        }
    }
    if index_of(keys, k) is None {
        assert(keys.push(k)[keys.len() as int] == k);
        if let Some(j) = index_of(keys.push(k), k) {
            if j < keys.len() {
                assert(keys.push(k)[j] == keys[j]);
            }
        }
    }
}

/// The lines of `lines` that join the group of functionality `f`, in
/// their order: the non-blank lines with a type prefix whose functionality
/// is `f`.
pub open spec fn lines_of_functionality(lines: Seq<Seq<char>>, f: Seq<char>) -> Seq<Seq<char>>
    decreases lines.len(),
{
    if lines.len() == 0 {
        seq![]
    } else {
        let prev = lines_of_functionality(lines.drop_last(), f);
        let l = lines.last();
        if !is_blank(l) && first_type_prefix(l) is Some && line_functionality(l) == f {
            prev.push(l)
        } else {
            prev
        }
    }
}

/// Each group holds exactly the lines of its functionality, in the order
/// in which they come in the file (for any functionality that no line
/// without a type prefix is given).
pub proof fn lemma_grouped_functionality(lines: Seq<Seq<char>>, f: Seq<char>)
    requires
        forall|n: nat| f != #[trigger] dummy_key(n),
    ensures
        grouped(lines).keys.len() == grouped(lines).members.len(),
        group_of(grouped(lines).keys, grouped(lines).members, f) == lines_of_functionality(lines, f),
    decreases lines.len(),
{
    if lines.len() > 0 {
        let prev = lines.drop_last();
        let l = lines.last();
        lemma_grouped_functionality(prev, f);
        let g = grouped(prev);
        let g2 = grouped(lines);
        assert(g2 == group_step(g, l));
        lemma_index_of(g.keys, f);
        if is_blank(l) {
        } else {
            let k = if first_type_prefix(l) is Some { line_functionality(l) } else { dummy_key(g.dummies) };
            if first_type_prefix(l) is None {
                assert(f != dummy_key(g.dummies));
            }
            lemma_index_of(g.keys, k);
            lemma_index_of_push(g.keys, k, f);
            match index_of(g.keys, k) {
                Some(j) => {
                    if let Some(j2) = index_of(g.keys, f) {
                        if k != f {
                            assert(j2 != j);
                        }
                    }
                },
                None => {},
            }
        }
    }
}


/// Every functionality that has a group is in the order.
proof fn lemma_grouped_keys_in_order(lines: Seq<Seq<char>>)
    ensures
        forall|j: int|
            0 <= j < grouped(lines).keys.len() ==> grouped(lines).order.contains(
                #[trigger] grouped(lines).keys[j],
            ),
    decreases lines.len(),
{
    if lines.len() > 0 {
        let prev = lines.drop_last();
        let l = lines.last();
        lemma_grouped_keys_in_order(prev);
        let g = grouped(prev);
        let g2 = grouped(lines);
        assert(g2 == group_step(g, l));
        if !is_blank(l) {
            let k = if first_type_prefix(l) is Some { line_functionality(l) } else { dummy_key(g.dummies) };
            assert forall|j: int| 0 <= j < g2.keys.len() implies g2.order.contains(#[trigger] g2.keys[j]) by {
                if j < g.keys.len() {
                    assert(g2.keys[j] == g.keys[j]);
                    let w = choose|w: int| 0 <= w < g.order.len() && g.order[w] == g.keys[j];
                    assert(g2.order[w] == g.order[w]);
                } else {
                    assert(g2.keys[j] == k);
                    assert(g2.order[g2.order.len() - 1] == k);
                }
            }
        }
    }
}

/// The lines written for the groups in `order` from index `s` on hold
/// the lines of the group at any index from `s` on, one after another.
proof fn lemma_rendered_holds_group(
    order: Seq<Seq<char>>,
    keys: Seq<Seq<char>>,
    members: Seq<Seq<Seq<char>>>,
    s: int,
    idx: int,
)
    requires
        0 <= s <= idx < order.len(),
    ensures
        ({
            let g = group_of(keys, members, order[idx]);
            let r = rendered_from(order, keys, members, s);
            exists|p: int| 0 <= p && p + g.len() <= r.len() && #[trigger] r.subrange(p, p + g.len()) == g
        }),
    decreases idx - s,
{
    let g = group_of(keys, members, order[idx]);
    let r = rendered_from(order, keys, members, s);
    let lines = group_of(keys, members, order[s]);
    let b1 = if blank_line_after(lines, s, order.len() as int) {
        seq![Seq::<char>::empty()]
    } else {
        Seq::<Seq<char>>::empty()
    };
    let b2 = if order[s] == "CTI_datagen"@ {
        seq![Seq::<char>::empty(), Seq::<char>::empty()]
    } else {
        Seq::<Seq<char>>::empty()
    };
    let rest = rendered_from(order, keys, members, s + 1);
    assert(r == lines + b1 + b2 + rest);
    if s == idx {
        let p: int = 0;
        assert(r.subrange(p, p + g.len()) =~= g);
        assert(0 <= p && p + g.len() <= r.len() && r.subrange(p, p + g.len()) == g);
    } else {
        lemma_rendered_holds_group(order, keys, members, s + 1, idx);
        let q = choose|q: int| 0 <= q && q + g.len() <= rest.len() && #[trigger] rest.subrange(q, q + g.len()) == g;
        let head = lines + b1 + b2;
        let p = head.len() + q;
        assert(r.subrange(p, p + g.len()) =~= rest.subrange(q, q + g.len()));
        assert(0 <= p && p + g.len() <= r.len() && r.subrange(p, p + g.len()) == g);
    }
}

/// The lines of one functionality are written one after another, in the
/// order in which they come in the file, so none of them is lost (for any
/// functionality that no line without a type prefix is given).
pub proof fn lemma_functionality_lines_together(lines: Seq<Seq<char>>, f: Seq<char>)
    requires
        forall|n: nat| f != #[trigger] dummy_key(n),
        lines_of_functionality(lines, f).len() > 0,
    ensures
        ({
            let out = reordered_lines(lines);
            let l = lines_of_functionality(lines, f);
            exists|p: int| 0 <= p && p + l.len() <= out.len() && #[trigger] out.subrange(p, p + l.len()) == l
        }),
{
    let g = grouped(lines);
    lemma_grouped_functionality(lines, f);
    lemma_index_of(g.keys, f);
    lemma_grouped_keys_in_order(lines);
    let j = index_of(g.keys, f)->0;
    assert(g.keys[j] == f);
    assert(g.order.contains(g.keys[j]));
    let o = moved(g.order, 22);
    lemma_moved_permutation(g.order, 22);
    vstd::seq_lib::to_multiset_contains(g.order, f);
    vstd::seq_lib::to_multiset_contains(o, f);
    assert(o.contains(f));
    let idx = choose|i: int| 0 <= i < o.len() && o[i] == f;
    lemma_rendered_holds_group(o, g.keys, g.members, 0, idx);
    let l = lines_of_functionality(lines, f);
    let r = rendered_from(o, g.keys, g.members, 0);
    assert(group_of(g.keys, g.members, o[idx]) == l);
    assert(reordered_lines(lines) == r);
    let p = choose|p: int| 0 <= p && p + l.len() <= r.len() && #[trigger] r.subrange(p, p + l.len()) == l;
    assert(0 <= p && p + l.len() <= r.len() && r.subrange(p, p + l.len()) == l);
}


/// Every functionality in the order has a group.
proof fn lemma_grouped_order_in_keys(lines: Seq<Seq<char>>)
    ensures
        forall|i: int|
            0 <= i < grouped(lines).order.len() ==> index_of(grouped(lines).keys, #[trigger] grouped(lines).order[i])
                is Some,
    decreases lines.len(),
{
    if lines.len() > 0 {
        let prev = lines.drop_last();
        let l = lines.last();
        lemma_grouped_order_in_keys(prev);
        let g = grouped(prev);
        let g2 = grouped(lines);
        assert(g2 == group_step(g, l));
        if !is_blank(l) {
            let k = if first_type_prefix(l) is Some { line_functionality(l) } else { dummy_key(g.dummies) };
            assert forall|i: int| 0 <= i < g2.order.len() implies index_of(g2.keys, #[trigger] g2.order[i]) is Some by {
                lemma_index_of_push(g.keys, k, g2.order[i]);
                lemma_index_of_push(g.keys, k, k);
                if i < g.order.len() {
                    assert(g2.order[i] == g.order[i]);
                }
            }
        }
    }
}

/// Every functionality written, after the moves, has a group.
pub proof fn lemma_every_functionality_has_group(lines: Seq<Seq<char>>)
    ensures
        forall|i: int|
            0 <= i < moved(grouped(lines).order, 22).len() ==> index_of(
                grouped(lines).keys,
                #[trigger] moved(grouped(lines).order, 22)[i],
            ) is Some,
{
    let g = grouped(lines);
    let o = moved(g.order, 22);
    lemma_grouped_order_in_keys(lines);
    lemma_moved_permutation(g.order, 22);
    assert forall|i: int| 0 <= i < o.len() implies index_of(g.keys, #[trigger] o[i]) is Some by {
        vstd::seq_lib::to_multiset_contains(o, o[i]);
        vstd::seq_lib::to_multiset_contains(g.order, o[i]);
        assert(o.contains(o[i]));
        let w = choose|w: int| 0 <= w < g.order.len() && g.order[w] == o[i];
        assert(index_of(g.keys, g.order[w]) is Some);
    }
}

} // verus!
