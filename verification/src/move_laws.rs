use vstd::prelude::*;
use crate::reorder::{index_of, lemma_index_of, move_after, move_source, move_target, moved};

verus! {

/// A number for a name, made of its length, its first character and its
/// fourth character from the end: the names of the moves all get different
/// numbers.
pub open spec fn name_code(s: Seq<char>) -> int {
    (s.len() * 200 + (s[0] as int)) * 200 + (s[s.len() - 4] as int)
}

/// The number of the name moved in move `i`.
pub open spec fn source_code(i: int) -> int {
    if i == 0 {
        219897
    } else if i == 1 {
        259898
    } else if i == 2 {
        463314
    } else if i == 3 {
        979914
    } else if i == 4 {
        503309
    } else if i == 5 {
        860497
    } else if i == 6 {
        339917
    } else if i == 7 {
        463101
    } else if i == 8 {
        581897
    } else if i == 9 {
        662497
    } else if i == 10 {
        539516
    } else if i == 11 {
        339904
    } else if i == 12 {
        462522
    } else if i == 13 {
        460517
    } else if i == 14 {
        460505
    } else if i == 15 {
        421105
    } else if i == 16 {
        699914
    } else if i == 17 {
        1061914
    } else if i == 18 {
        1060505
    } else if i == 19 {
        859697
    } else if i == 20 {
        819508
    } else if i == 21 {
        339903
    } else {
        -1
    }
}

/// The number of the target of move `i`.
pub open spec fn target_code(i: int) -> int {
    if i == 0 {
        1220297
    } else if i == 1 {
        219897
    } else if i == 2 {
        937114
    } else if i == 3 {
        463314
    } else if i == 4 {
        979914
    } else if i == 5 {
        863100
    } else if i == 6 {
        942717
    } else if i == 7 {
        660299
    } else if i == 8 {
        1342914
    } else if i == 9 {
        979510
    } else if i == 10 {
        859502
    } else if i == 11 {
        659515
    } else if i == 12 {
        779505
    } else if i == 13 {
        779512
    } else if i == 14 {
        740508
    } else if i == 15 {
        741099
    } else if i == 16 {
        739514
    } else if i == 17 {
        1099514
    } else if i == 18 {
        540505
    } else if i == 19 {
        1179499
    } else if i == 20 {
        859502
    } else if i == 21 {
        659514
    } else {
        -1
    }
}

/// The number of the name and of the target of each move.
proof fn lemma_move_codes()
    ensures
        forall|i: int| 0 <= i < 22 ==> name_code(#[trigger] move_source(i)) == source_code(i),
        forall|i: int| 0 <= i < 22 ==> name_code(#[trigger] move_target(i)) == target_code(i),
{
    reveal_strlit("UNIFIED_ehv_transformer");
    reveal_strlit("advanced_auto_crafter");
    reveal_strlit("advanced_battery_box_minecart");
    reveal_strlit("advanced_charger");
    reveal_strlit("advanced_crusher");
    reveal_strlit("advanced_fluid_pump");
    reveal_strlit("advanced_minecart_uncharger");
    reveal_strlit("advanced_powered_furnace");
    reveal_strlit("advanced_pulverizer");
    reveal_strlit("advanced_uncharger");
    reveal_strlit("auto_crafter_tooltip");
    reveal_strlit("auto_crafters");
    reveal_strlit("battery_box_minecarts");
    reveal_strlit("cable");
    reveal_strlit("cables");
    reveal_strlit("charger_uncharger");
    reveal_strlit("chargers");
    reveal_strlit("circuits");
    reveal_strlit("configurable_transformer");
    reveal_strlit("crushers");
    reveal_strlit("elite_solar_cell");
    reveal_strlit("energized_crystal_matrix_cable");
    reveal_strlit("fluid_drainer");
    reveal_strlit("fluid_filler_fluid_drainer");
    reveal_strlit("fluid_pipe_tooltip");
    reveal_strlit("fluid_pipes");
    reveal_strlit("fluid_pumps");
    reveal_strlit("furnace_mode_upgrades");
    reveal_strlit("item_silo_capacity");
    reveal_strlit("item_silos");
    reveal_strlit("machine_frames");
    reveal_strlit("minecart_charger_uncharger");
    reveal_strlit("powered_furnaces");
    reveal_strlit("pulverizers");
    reveal_strlit("quantum_processing_unit");
    reveal_strlit("reinforced_advanced_machine_frame");
    reveal_strlit("smoker_upgrade_module");
    reveal_strlit("solar_cells");
    reveal_strlit("transformer");
    reveal_strlit("transformers");
    assert(name_code("UNIFIED_ehv_transformer"@) == 937114);
    assert(name_code("advanced_auto_crafter"@) == 859502);
    assert(name_code("advanced_battery_box_minecart"@) == 1179499);
    assert(name_code("advanced_charger"@) == 659514);
    assert(name_code("advanced_crusher"@) == 659515);
    assert(name_code("advanced_fluid_pump"@) == 779512);
    assert(name_code("advanced_minecart_uncharger"@) == 1099514);
    assert(name_code("advanced_powered_furnace"@) == 979510);
    assert(name_code("advanced_pulverizer"@) == 779505);
    assert(name_code("advanced_uncharger"@) == 739514);
    assert(name_code("auto_crafter_tooltip"@) == 819508);
    assert(name_code("auto_crafters"@) == 539516);
    assert(name_code("battery_box_minecarts"@) == 859697);
    assert(name_code("cable"@) == 219897);
    assert(name_code("cables"@) == 259898);
    assert(name_code("charger_uncharger"@) == 699914);
    assert(name_code("chargers"@) == 339903);
    assert(name_code("circuits"@) == 339917);
    assert(name_code("configurable_transformer"@) == 979914);
    assert(name_code("crushers"@) == 339904);
    assert(name_code("elite_solar_cell"@) == 660299);
    assert(name_code("energized_crystal_matrix_cable"@) == 1220297);
    assert(name_code("fluid_drainer"@) == 540505);
    assert(name_code("fluid_filler_fluid_drainer"@) == 1060505);
    assert(name_code("fluid_pipe_tooltip"@) == 740508);
    assert(name_code("fluid_pipes"@) == 460505);
    assert(name_code("fluid_pumps"@) == 460517);
    assert(name_code("furnace_mode_upgrades"@) == 860497);
    assert(name_code("item_silo_capacity"@) == 741099);
    assert(name_code("item_silos"@) == 421105);
    assert(name_code("machine_frames"@) == 581897);
    assert(name_code("minecart_charger_uncharger"@) == 1061914);
    assert(name_code("powered_furnaces"@) == 662497);
    assert(name_code("pulverizers"@) == 462522);
    assert(name_code("quantum_processing_unit"@) == 942717);
    assert(name_code("reinforced_advanced_machine_frame"@) == 1342914);
    assert(name_code("smoker_upgrade_module"@) == 863100);
    assert(name_code("solar_cells"@) == 463101);
    assert(name_code("transformer"@) == 463314);
    assert(name_code("transformers"@) == 503309);
}

/// What the moves' names share: each source is moved once; only the two
/// moves of auto crafter pages share a target; and only three sources are
/// targets of the move after them.
pub proof fn lemma_move_facts()
    ensures
        forall|i: int, j: int| 0 <= i < 22 && 0 <= j < 22 && i != j ==> move_source(i) != move_source(j),
        forall|i: int, j: int|
            0 <= i < 22 && 0 <= j < 22 && i != j && !(i == 10 && j == 20) && !(i == 20 && j == 10)
                ==> move_target(i) != move_target(j),
        move_target(10) == move_target(20),
        forall|i: int, j: int|
            0 <= i < 22 && 0 <= j < 22 && !(j == 0 && i == 1) && !(j == 2 && i == 3) && !(j == 3 && i == 4)
                ==> move_source(j) != move_target(i),
{
    lemma_move_codes();
    assert forall|i: int, j: int| 0 <= i < 22 && 0 <= j < 22 && i != j implies move_source(i) != move_source(j) by {
        assert(name_code(move_source(i)) == source_code(i));
        assert(name_code(move_source(j)) == source_code(j));
    }
    assert forall|i: int, j: int|
        0 <= i < 22 && 0 <= j < 22 && i != j && !(i == 10 && j == 20) && !(i == 20 && j == 10)
        implies move_target(i) != move_target(j) by {
        assert(name_code(move_target(i)) == target_code(i));
        assert(name_code(move_target(j)) == target_code(j));
    }
    assert forall|i: int, j: int|
        0 <= i < 22 && 0 <= j < 22 && !(j == 0 && i == 1) && !(j == 2 && i == 3) && !(j == 3 && i == 4)
        implies move_source(j) != move_target(i) by {
        assert(name_code(move_source(j)) == source_code(j));
        assert(name_code(move_target(i)) == target_code(i));
    }
}


/// No name occurs twice.
pub open spec fn distinct_names(s: Seq<Seq<char>>) -> bool {
    forall|i: int, j: int| 0 <= i < s.len() && 0 <= j < s.len() && i != j ==> s[i] != s[j]
}

/// `x` comes right after `t`.
pub open spec fn right_after(s: Seq<Seq<char>>, t: Seq<char>, x: Seq<char>) -> bool {
    exists|p: int| 0 <= p && p + 1 < s.len() && #[trigger] s[p] == t && s[p + 1] == x
}

/// In a list without repeated names, a name is found where it stands.
pub(crate) proof fn lemma_index_of_distinct(s: Seq<Seq<char>>, p: int)
    requires
        distinct_names(s),
        0 <= p < s.len(),
    ensures
        index_of(s, s[p]) == Some(p),
{
    lemma_index_of(s, s[p]);
    if let Some(q) = index_of(s, s[p]) {
        assert(s[q] == s[p]);
    }
}

/// A move keeps the names, each once, and where a name was found.
proof fn lemma_move_keeps_names(s: Seq<Seq<char>>, x: Seq<char>, t: Seq<char>)
    requires
        distinct_names(s),
    ensures
        distinct_names(move_after(s, x, t)),
        move_after(s, x, t).len() == s.len(),
        forall|y: Seq<char>| #[trigger] move_after(s, x, t).contains(y) == s.contains(y),
{
    lemma_index_of(s, x);
    lemma_index_of(s, t);
    crate::reorder::lemma_move_after(s, x, t);
    let r = move_after(s, x, t);
    assert forall|y: Seq<char>| #[trigger] r.contains(y) == s.contains(y) by {
        vstd::seq_lib::to_multiset_contains(r, y);
        vstd::seq_lib::to_multiset_contains(s, y);
    }
    if let (Some(a), Some(b)) = (index_of(s, x), index_of(s, t)) {
        let tt = if a > b { b + 1 } else { b };
        let rem = s.remove(a);
        assert forall|i: int, j: int| 0 <= i < r.len() && 0 <= j < r.len() && i != j implies r[i] != r[j] by {
            let si = if i < tt { rem[i] } else if i == tt { s[a] } else { rem[i - 1] };
            assert(r[i] == si);
            let sj = if j < tt { rem[j] } else if j == tt { s[a] } else { rem[j - 1] };
            assert(r[j] == sj);
            let oi = if i < tt { if i < a { i } else { i + 1 } } else if i == tt { a } else { if i - 1 < a { i - 1 } else { i } };
            let oj = if j < tt { if j < a { j } else { j + 1 } } else if j == tt { a } else { if j - 1 < a { j - 1 } else { j } };
            assert(r[i] == s[oi]);
            assert(r[j] == s[oj]);
        }
    }
}

/// A name already right after its target is not moved.
proof fn lemma_move_in_place(s: Seq<Seq<char>>, x: Seq<char>, t: Seq<char>)
    requires
        distinct_names(s),
        right_after(s, t, x),
    ensures
        move_after(s, x, t) == s,
{
    let p = choose|p: int| 0 <= p && p + 1 < s.len() && #[trigger] s[p] == t && s[p + 1] == x;
    lemma_index_of_distinct(s, p);
    lemma_index_of_distinct(s, p + 1);
    assert(s.remove(p + 1).insert(p + 1, s[p + 1]) =~= s);
}

/// A moved name comes right after its target.
proof fn lemma_move_places(s: Seq<Seq<char>>, x: Seq<char>, t: Seq<char>)
    requires
        distinct_names(s),
        s.contains(x),
        s.contains(t),
        x != t,
    ensures
        right_after(move_after(s, x, t), t, x),
{
    lemma_index_of(s, x);
    lemma_index_of(s, t);
    crate::reorder::lemma_move_after(s, x, t);
    let r = move_after(s, x, t);
    let q = index_of(r, t)->0;
    lemma_index_of(r, t);
    assert(r[q] == t && r[q + 1] == x);
}

/// Where the name `t` stands after the moved name `x` is taken out, and
/// where `x` is put back: right after `t`.
proof fn lemma_move_positions(s: Seq<Seq<char>>, x: Seq<char>, t: Seq<char>)
    requires
        distinct_names(s),
        s.contains(x),
        s.contains(t),
        x != t,
    ensures
        ({
            let a = index_of(s, x)->0;
            let b = index_of(s, t)->0;
            let bb = if a < b { b - 1 } else { b };
            &&& move_after(s, x, t) == s.remove(a).insert(bb + 1, x)
            &&& s.remove(a)[bb] == t
            &&& 0 <= bb < s.remove(a).len()
        }),
{
    lemma_index_of(s, x);
    lemma_index_of(s, t);
}

/// A move keeps a name right after another, unless it moves one of them
/// or puts its name right after the first.
proof fn lemma_move_keeps_pair(s: Seq<Seq<char>>, x: Seq<char>, t: Seq<char>, t2: Seq<char>, x2: Seq<char>)
    requires
        distinct_names(s),
        right_after(s, t2, x2),
        x != t2,
        x != x2,
        t != t2,
    ensures
        right_after(move_after(s, x, t), t2, x2),
{
    let p = choose|p: int| 0 <= p && p + 1 < s.len() && #[trigger] s[p] == t2 && s[p + 1] == x2;
    lemma_index_of(s, x);
    lemma_index_of(s, t);
    if s.contains(x) && s.contains(t) && x != t {
        lemma_move_positions(s, x, t);
        let a = index_of(s, x)->0;
        let b = index_of(s, t)->0;
        let bb = if a < b { b - 1 } else { b };
        let rem = s.remove(a);
        let q = if a < p { p - 1 } else { p };
        assert(a != p && a != p + 1);
        assert(rem[q] == t2 && rem[q + 1] == x2);
        assert(bb != q);
        let r = rem.insert(bb + 1, x);
        if bb + 1 <= q {
            assert(r[q + 1] == t2 && r[q + 2] == x2);
        } else {
            assert(bb + 1 > q + 1);
            assert(r[q] == t2 && r[q + 1] == x2);
        }
    } else {
        if index_of(s, x) is Some && index_of(s, t) is Some {
            assert(x == t);
            let a = index_of(s, x)->0;
            assert(s.remove(a).insert(a, s[a]) =~= s);
        }
        assert(move_after(s, x, t) == s);
    }
}

/// Moving a name right after `t` puts it right before what followed `t`.
proof fn lemma_move_in_front_of(s: Seq<Seq<char>>, x: Seq<char>, t: Seq<char>, y: Seq<char>)
    requires
        distinct_names(s),
        right_after(s, t, y),
        s.contains(x),
        x != t,
        x != y,
    ensures
        right_after(move_after(s, x, t), x, y),
{
    let p = choose|p: int| 0 <= p && p + 1 < s.len() && #[trigger] s[p] == t && s[p + 1] == y;
    assert(s.contains(t));
    lemma_move_positions(s, x, t);
    lemma_index_of_distinct(s, p);
    lemma_index_of(s, x);
    let a = index_of(s, x)->0;
    let b = index_of(s, t)->0;
    let bb = if a < b { b - 1 } else { b };
    let rem = s.remove(a);
    assert(a != p + 1);
    assert(a != p);
    assert(b == p);
    assert(rem[bb + 1] == y);
    let r = rem.insert(bb + 1, x);
    assert(r[bb + 1] == x && r[bb + 2] == y);
}


/// When the name to move or its target is missing, nothing moves.
proof fn lemma_move_missing(s: Seq<Seq<char>>, x: Seq<char>, t: Seq<char>)
    requires
        !(s.contains(x) && s.contains(t)),
    ensures
        move_after(s, x, t) == s,
{
    lemma_index_of(s, x);
    lemma_index_of(s, t);
    if let Some(a) = index_of(s, x) {
        assert(s.contains(x));
    }
    if let Some(b) = index_of(s, t) {
        assert(s.contains(t));
    }
}

/// Move `i` has been made: its name comes right after its target, when both
/// are there.
pub open spec fn placed(s: Seq<Seq<char>>, i: int) -> bool {
    s.contains(move_source(i)) && s.contains(move_target(i)) ==> right_after(
        s,
        move_target(i),
        move_source(i),
    )
}

/// After the first `k` moves: each move made stays made, but for the two
/// pages moved after the advanced auto crafter, where the one moved last
/// stands in between.
pub open spec fn moves_made(s: Seq<Seq<char>>, k: int) -> bool {
    &&& forall|i: int| 0 <= i < k && i != 10 ==> #[trigger] placed(s, i)
    &&& 10 < k ==> if 20 < k && s.contains(move_source(20)) && s.contains(move_target(10)) && s.contains(
        move_source(10),
    ) {
        right_after(s, move_target(10), move_source(20)) && right_after(s, move_source(20), move_source(10))
    } else {
        placed(s, 10)
    }
}

/// A move keeps move `i` made, when it neither moves the name or the target
/// of move `i` nor puts its name after the same target.
proof fn lemma_keeps_placed(s: Seq<Seq<char>>, j: int, i: int)
    requires
        distinct_names(s),
        placed(s, i),
        0 <= i < 22,
        0 <= j < 22,
        i != j,
        move_source(j) != move_target(i),
        move_target(j) != move_target(i),
    ensures
        placed(move_after(s, move_source(j), move_target(j)), i),
{
    lemma_move_facts();
    lemma_move_keeps_names(s, move_source(j), move_target(j));
    let r = move_after(s, move_source(j), move_target(j));
    assert(r.contains(move_source(i)) == s.contains(move_source(i)));
    assert(r.contains(move_target(i)) == s.contains(move_target(i)));
    if s.contains(move_source(i)) && s.contains(move_target(i)) {
        lemma_move_keeps_pair(s, move_source(j), move_target(j), move_target(i), move_source(i));
    }
}

/// A move is made once it is done.
proof fn lemma_placed_now(s: Seq<Seq<char>>, j: int)
    requires
        distinct_names(s),
        0 <= j < 22,
    ensures
        placed(move_after(s, move_source(j), move_target(j)), j),
{
    lemma_move_facts();
    lemma_move_keeps_names(s, move_source(j), move_target(j));
    let r = move_after(s, move_source(j), move_target(j));
    assert(r.contains(move_source(j)) == s.contains(move_source(j)));
    assert(r.contains(move_target(j)) == s.contains(move_target(j)));
    if s.contains(move_source(j)) && s.contains(move_target(j)) {
        lemma_move_places(s, move_source(j), move_target(j));
    }
}

/// The first `k` moves keep the names, each once, and leave the moves made.
pub(crate) proof fn lemma_first_run(o: Seq<Seq<char>>, k: int)
    requires
        distinct_names(o),
        0 <= k <= 22,
    ensures
        distinct_names(moved(o, k)),
        forall|y: Seq<char>| #[trigger] moved(o, k).contains(y) == o.contains(y),
        moves_made(moved(o, k), k),
    decreases k,
{
    if k > 0 {
        lemma_first_run(o, k - 1);
        lemma_move_facts();
        let j = k - 1;
        let s = moved(o, j);
        let x = move_source(j);
        let t = move_target(j);
        let r = move_after(s, x, t);
        assert(moved(o, k) == r);
        lemma_move_keeps_names(s, x, t);
        lemma_placed_now(s, j);
        assert forall|i: int| 0 <= i < k && i != 10 implies #[trigger] placed(r, i) by {
            if i != j {
                lemma_keeps_placed(s, j, i);
            }
        }
        if 10 < k {
            let a = move_target(10);
            let b = move_source(20);
            let c = move_source(10);
            let all_three = r.contains(b) && r.contains(a) && r.contains(c);
            assert(r.contains(b) == s.contains(b));
            assert(r.contains(a) == s.contains(a));
            assert(r.contains(c) == s.contains(c));
            if j < 20 {
                if j != 10 {
                    lemma_keeps_placed(s, j, 10);
                }
            } else if j == 20 {
                if all_three {
                    assert(right_after(s, a, c));
                    lemma_move_places(s, b, a);
                    lemma_move_in_front_of(s, b, a, c);
                } else if !s.contains(b) {
                    lemma_move_missing(s, b, a);
                }
            } else {
                if all_three {
                    lemma_move_keeps_pair(s, x, t, a, b);
                    lemma_move_keeps_pair(s, x, t, b, c);
                } else {
                    lemma_keeps_placed(s, j, 10);
                }
            }
        }
    }
}

/// Moves that are made already leave the names where they are.
proof fn lemma_made_moves_stay(s: Seq<Seq<char>>, from: int, k: int)
    requires
        distinct_names(s),
        0 <= from <= k <= 22,
        forall|i: int| from <= i < k ==> #[trigger] placed(s, i),
    ensures
        forall|r: Seq<Seq<char>>| #[trigger] moved(r, from) == s ==> moved(r, k) == s,
    decreases k,
{
    if k > from {
        lemma_made_moves_stay(s, from, k - 1);
        assert forall|r: Seq<Seq<char>>| #[trigger] moved(r, from) == s implies moved(r, k) == s by {
            assert(moved(r, k - 1) == s);
            assert(placed(s, k - 1));
            if s.contains(move_source(k - 1)) && s.contains(move_target(k - 1)) {
                lemma_move_in_place(s, move_source(k - 1), move_target(k - 1));
            } else {
                lemma_move_missing(s, move_source(k - 1), move_target(k - 1));
            }
        }
    }
}

/// Moving the functionalities of an order that was moved already changes
/// nothing, when no functionality occurs twice in it.
pub proof fn lemma_moved_twice(o: Seq<Seq<char>>)
    requires
        distinct_names(o),
    ensures
        moved(moved(o, 22), 22) == moved(o, 22),
{
    lemma_first_run(o, 22);
    lemma_move_facts();
    let m = moved(o, 22);
    assert(moved(m, 0) == m);
    let a = move_target(10);
    let b = move_source(20);
    let c = move_source(10);
    if m.contains(b) && m.contains(a) && m.contains(c) {
        assert(right_after(m, a, b) && right_after(m, b, c));
        let p = choose|p: int| 0 <= p && p + 1 < m.len() && #[trigger] m[p] == a && m[p + 1] == b;
        let q = choose|q: int| 0 <= q && q + 1 < m.len() && #[trigger] m[q] == b && m[q + 1] == c;
        assert(q == p + 1);
        assert forall|i: int| 0 <= i < 10 implies #[trigger] placed(m, i) by {}
        lemma_made_moves_stay(m, 0, 10);
        assert(moved(m, 10) == m);
        lemma_index_of_distinct(m, p);
        lemma_index_of_distinct(m, p + 2);
        let r = m.remove(p + 2).insert(p + 1, c);
        assert(move_after(m, c, a) == r);
        assert(moved(m, 11) == r);
        lemma_move_keeps_names(m, c, a);
        assert(r[p] == a && r[p + 1] == c && r[p + 2] == b);
        assert forall|i: int| 11 <= i < 20 implies #[trigger] placed(r, i) by {
            assert(placed(m, i));
            lemma_keeps_placed(m, 10, i);
        }
        lemma_made_moves_stay(r, 11, 20);
        assert(moved(m, 20) == r);
        lemma_index_of_distinct(r, p);
        lemma_index_of_distinct(r, p + 2);
        assert(r.remove(p + 2).insert(p + 1, b) =~= m);
        assert(moved(m, 21) == m);
        assert(placed(m, 21));
        lemma_made_moves_stay(m, 21, 22);
    } else {
        assert(placed(m, 10));
        assert forall|i: int| 0 <= i < 22 implies #[trigger] placed(m, i) by {
            if i == 10 {
            }
        }
        lemma_made_moves_stay(m, 0, 22);
    }
}

} // verus!
