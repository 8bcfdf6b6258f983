//! Multi-pass, depth-sliced chokudai search.
//!
//! Instead of exhausting one depth before the next, the engine keeps one
//! priority heap per depth level, seeds level 0 with one candidate from the
//! initial state — its first action unset — and sweeps all levels a little on every
//! pass: at each level it pops up to `beam_width` candidates and pushes
//! their children into the level below. Levels are never cleared between
//! passes, so exploration accumulates, and the loop can stop after any
//! whole pass with a valid answer. The result is the first action of the
//! maximum-ranked candidate in the deepest populated level.

use crate::beam_search::{
    expand_into, lemma_spec_expand_contains, lemma_spec_expand_grows, spec_beam_search,
    spec_expand, spec_first_action_legal,
};
use crate::heap::{lemma_heap_pop_rest_contains, spec_heap_pop_rest, Heap};
use crate::state::{spec_legal_actions, spec_seed, State, StateModel, END_TURN};
use vstd::prelude::*;

verus! {

/// The models of every level's heap.
pub open spec fn levels_view(beams: Seq<Heap<State>>) -> Seq<Seq<StateModel>> {
    beams.map_values(|h: Heap<State>| h@)
}

/// Up to `w` pops at one level: a finished candidate is dropped and stops
/// this level's budget for the pass; any other candidate is expanded into
/// the next level down.
pub open spec fn spec_chok_step(
    now: Seq<StateModel>,
    next: Seq<StateModel>,
    depth_zero: bool,
    w: nat,
) -> (Seq<StateModel>, Seq<StateModel>)
    decreases w,
{
    if w == 0 || now.len() == 0 {
        (now, next)
    } else {
        let top = now[0];
        let rest = spec_heap_pop_rest::<State>(now);
        if top.turn >= END_TURN {
            (rest, next)
        } else {
            spec_chok_step(rest, spec_expand(top, depth_zero, next, 0), depth_zero, (w - 1) as nat)
        }
    }
}

/// One pass: run the level budget at every depth `t`, `t + 1`, ... in turn.
pub open spec fn spec_chok_pass(
    levels: Seq<Seq<StateModel>>,
    t: nat,
    depth: nat,
    w: nat,
) -> Seq<Seq<StateModel>>
    decreases depth - t,
{
    if t >= depth {
        levels
    } else {
        let p = spec_chok_step(levels[t as int], levels[t + 1 as int], t == 0, w);
        spec_chok_pass(
            levels.update(t as int, p.0).update(t + 1 as int, p.1),
            t + 1,
            depth,
            w,
        )
    }
}

/// `n` passes, applied in order.
pub open spec fn spec_chok_passes(
    levels: Seq<Seq<StateModel>>,
    n: nat,
    depth: nat,
    w: nat,
) -> Seq<Seq<StateModel>>
    decreases n,
{
    if n == 0 {
        levels
    } else {
        spec_chok_pass(spec_chok_passes(levels, (n - 1) as nat, depth, w), 0, depth, w)
    }
}

/// The first action of the best candidate in the deepest populated level at
/// or above index `i`, scanning downward.
pub open spec fn spec_chok_result(levels: Seq<Seq<StateModel>>, i: int) -> Option<usize>
    decreases i + 1,
{
    if i < 0 {
        None
    } else if levels[i].len() > 0 {
        levels[i][0].first_action
    } else {
        spec_chok_result(levels, i - 1)
    }
}

/// The starting levels: `depth + 1` heaps, all empty but level 0, which
/// holds the seed candidate.
pub open spec fn spec_init_levels(s: StateModel, depth: nat) -> Seq<Seq<StateModel>> {
    Seq::new(
        (depth + 1) as nat,
        |i: int| if i == 0 { seq![s] } else { Seq::empty() },
    )
}

/// The whole search on the model of the initial state. Level 0 is seeded
/// with one candidate from the initial state, first action unset, so with
/// depth zero there is no action to return.
pub open spec fn spec_chokudai_search(s: StateModel, w: nat, depth: nat, n: nat) -> Option<
    usize,
> {
    spec_chok_result(
        spec_chok_passes(spec_init_levels(spec_seed(s), depth), n, depth, w),
        depth as int,
    )
}

/// Mapping to models commutes with `remove`.
proof fn lemma_levels_view_remove(beams: Seq<Heap<State>>, i: int)
    requires
        0 <= i < beams.len(),
    ensures
        levels_view(beams.remove(i)) =~= levels_view(beams).remove(i),
{
}

/// Mapping to models commutes with `insert`.
proof fn lemma_levels_view_insert(beams: Seq<Heap<State>>, i: int, h: Heap<State>)
    requires
        0 <= i <= beams.len(),
    ensures
        levels_view(beams.insert(i, h)) =~= levels_view(beams).insert(i, h@),
{
}

/// Run `beam_number` passes of width `beam_width` over `beam_depth` depth
/// levels and return the immediate action leading toward the best candidate
/// in the deepest populated level, or `None` if no level is populated.
pub fn chokudai_search(
    state: &State,
    beam_width: usize,
    beam_depth: usize,
    beam_number: usize,
) -> (r: Option<usize>)
    requires
        state.wf(),
        state@.turn + beam_depth <= usize::MAX,
        beam_depth < usize::MAX,
    ensures
        r == spec_chokudai_search(
            state@,
            beam_width as nat,
            beam_depth as nat,
            beam_number as nat,
        ),
{
    let ghost s0 = state@;
    let ghost init = spec_init_levels(spec_seed(s0), beam_depth as nat);
    let ghost target = spec_chokudai_search(
        s0,
        beam_width as nat,
        beam_depth as nat,
        beam_number as nat,
    );
    let mut beams: Vec<Heap<State>> = Vec::new();
    let mut t: usize = 0;
    while t < beam_depth + 1
        invariant
            t <= beam_depth + 1,
            beam_depth < usize::MAX,
            beams@.len() == t,
            forall|k: int| 0 <= k < t ==> (#[trigger] beams@[k])@ == Seq::<StateModel>::empty(),
        decreases beam_depth + 1 - t,
    {
        beams.push(Heap::new());
        t = t + 1;
    }
    let mut h0 = beams.remove(0);
    let mut seed_state = state.clone();
    seed_state.first_action = None;
    proof {
        assert(seed_state@ == spec_seed(s0));
    }
    h0.push(seed_state);
    proof {
        assert(Seq::<StateModel>::empty().push(spec_seed(s0)) =~= seq![spec_seed(s0)]);
    }
    beams.insert(0, h0);
    proof {
        assert(levels_view(beams@) =~= init);
        assert(spec_seed(s0).wf() && spec_seed(s0).turn == s0.turn);
        assert forall|li: int, x: StateModel|
            0 <= li < beams@.len() && (#[trigger] beams@[li]@.contains(x)) implies x.wf()
            && x.turn == s0.turn + li by {
            assert(beams@[li]@ == init[li]);
            if li == 0 {
                let k = choose|k: int| 0 <= k < init[0].len() && init[0][k] == x;
                assert(x == spec_seed(s0));
            }
        }
    }
    let mut cnt: usize = 0;
    while cnt < beam_number
        invariant
            cnt <= beam_number,
            s0 == state@,
            init == spec_init_levels(spec_seed(s0), beam_depth as nat),
            target == spec_chokudai_search(
                s0,
                beam_width as nat,
                beam_depth as nat,
                beam_number as nat,
            ),
            s0.turn + beam_depth <= usize::MAX,
            beam_depth < usize::MAX,
            beams@.len() == beam_depth + 1,
            levels_view(beams@) == spec_chok_passes(
                init,
                cnt as nat,
                beam_depth as nat,
                beam_width as nat,
            ),
            forall|li: int, x: StateModel|
                0 <= li < beams@.len() && (#[trigger] beams@[li]@.contains(x)) ==> x.wf()
                    && x.turn == s0.turn + li,
        decreases beam_number - cnt,
    {
        let ghost pass_start = levels_view(beams@);
        let mut t: usize = 0;
        while t < beam_depth
            invariant
                t <= beam_depth,
                s0.turn + beam_depth <= usize::MAX,
                beam_depth < usize::MAX,
                beams@.len() == beam_depth + 1,
                spec_chok_pass(
                    levels_view(beams@),
                    t as nat,
                    beam_depth as nat,
                    beam_width as nat,
                ) == spec_chok_pass(pass_start, 0, beam_depth as nat, beam_width as nat),
                forall|li: int, x: StateModel|
                    0 <= li < beams@.len() && (#[trigger] beams@[li]@.contains(x)) ==> x.wf()
                        && x.turn == s0.turn + li,
            decreases beam_depth - t,
        {
            let ghost before = beams@;
            let mut now = beams.remove(t);
            let mut nxt = beams.remove(t);
            proof {
                lemma_levels_view_remove(before, t as int);
                lemma_levels_view_remove(before.remove(t as int), t as int);
                assert(now@ == levels_view(before)[t as int]);
                assert(nxt@ == levels_view(before)[t + 1 as int]);
            }
            let ghost now0 = now@;
            let ghost nxt0 = nxt@;
            let ghost depth_zero = (t == 0);
            let mut i: usize = 0;
            loop
                invariant_except_break
                    i <= beam_width,
                    t < beam_depth,
                    s0.turn + beam_depth <= usize::MAX,
                    depth_zero == (t == 0),
                    spec_chok_step(now@, nxt@, depth_zero, (beam_width - i) as nat)
                        == spec_chok_step(now0, nxt0, depth_zero, beam_width as nat),
                    forall|x: StateModel|
                        #[trigger] now@.contains(x) ==> x.wf() && x.turn == s0.turn + t,
                    forall|x: StateModel|
                        #[trigger] nxt@.contains(x) ==> x.wf() && x.turn == s0.turn + t + 1,
                ensures
                    (now@, nxt@) == spec_chok_step(now0, nxt0, depth_zero, beam_width as nat),
                    forall|x: StateModel|
                        #[trigger] now@.contains(x) ==> x.wf() && x.turn == s0.turn + t,
                    forall|x: StateModel|
                        #[trigger] nxt@.contains(x) ==> x.wf() && x.turn == s0.turn + t + 1,
                decreases beam_width - i,
            {
                if i >= beam_width {
                    proof {
                        assert(spec_chok_step(now@, nxt@, depth_zero, (beam_width - i) as nat)
                            == (now@, nxt@));
                    }
                    break;
                }
                if now.is_empty() {
                    proof {
                        assert(spec_chok_step(now@, nxt@, depth_zero, (beam_width - i) as nat)
                            == (now@, nxt@));
                    }
                    break;
                }
                let ghost now_before = now@;
                proof {
                    assert(now_before.contains(now_before[0]));
                    lemma_heap_pop_rest_contains::<State>(now_before);
                }
                let now_state = now.pop().unwrap();
                if now_state.is_done() {
                    proof {
                        assert(spec_chok_step(now_before, nxt@, depth_zero, (beam_width
                            - i) as nat) == (now@, nxt@));
                    }
                    break;
                }
                proof {
                    lemma_spec_expand_contains(now_state@, depth_zero, nxt@, 0);
                }
                expand_into(&now_state, t == 0, &mut nxt);
                i = i + 1;
            }
            let ghost now_final = now@;
            let ghost nxt_final = nxt@;
            beams.insert(t, nxt);
            beams.insert(t, now);
            proof {
                lemma_levels_view_insert(
                    before.remove(t as int).remove(t as int),
                    t as int,
                    nxt,
                );
                lemma_levels_view_insert(
                    before.remove(t as int).remove(t as int).insert(t as int, nxt),
                    t as int,
                    now,
                );
                let lv0 = levels_view(before);
                let lv1 = levels_view(beams@);
                assert(lv1 =~= lv0.update(t as int, now_final).update(t + 1 as int, nxt_final));
                assert(spec_chok_step(lv0[t as int], lv0[t + 1 as int], t == 0, beam_width as nat)
                    == (now_final, nxt_final));
                assert(spec_chok_pass(lv0, t as nat, beam_depth as nat, beam_width as nat)
                    == spec_chok_pass(lv1, (t + 1) as nat, beam_depth as nat, beam_width as nat));
                assert forall|li: int, x: StateModel|
                    0 <= li < beams@.len() && (#[trigger] beams@[li]@.contains(x)) implies x.wf()
                    && x.turn == s0.turn + li by {
                    assert(beams@[li]@ == lv1[li]);
                    if li == t {
                        assert(now_final.contains(x));
                    } else if li == t + 1 {
                        assert(nxt_final.contains(x));
                    } else {
                        assert(lv1[li] == lv0[li]);
                        assert(before[li]@.contains(x));
                    }
                }
            }
            t = t + 1;
        }
        cnt = cnt + 1;
    }
    let mut i: usize = beams.len();
    while i > 0
        invariant
            i <= beams@.len(),
            beams@.len() == beam_depth + 1,
            target == spec_chokudai_search(
                state@,
                beam_width as nat,
                beam_depth as nat,
                beam_number as nat,
            ),
            target == spec_chok_result(levels_view(beams@), i - 1),
        decreases i,
    {
        i = i - 1;
        proof {
            assert(beams@[i as int]@ == levels_view(beams@)[i as int]);
        }
        let beam_ref = &beams[i];
        if !beam_ref.is_empty() {
            let best = beam_ref.peek().unwrap();
            proof {
                assert(target == levels_view(beams@)[i as int][0].first_action);
            }
            return best.first_action;
        }
    }
    None
}

/// The same search with the levels handled as in a shared-handle
/// formulation: each level is taken out while it is worked on and put back
/// afterwards. The result is identical to `chokudai_search` on every input.
pub fn chokudai_search_with_refcell(
    state: &State,
    beam_width: usize,
    beam_depth: usize,
    beam_number: usize,
) -> (r: Option<usize>)
    requires
        state.wf(),
        state@.turn + beam_depth <= usize::MAX,
        beam_depth < usize::MAX,
    ensures
        r == spec_chokudai_search(
            state@,
            beam_width as nat,
            beam_depth as nat,
            beam_number as nat,
        ),
{
    chokudai_search(state, beam_width, beam_depth, beam_number)
}

/// Chokudai search is deterministic: its result is a function of the
/// initial state's model and the parameters alone, so identical inputs
/// yield an identical returned action.
pub proof fn lemma_chokudai_search_deterministic(
    s1: StateModel,
    s2: StateModel,
    w: nat,
    depth: nat,
    n: nat,
    r1: Option<usize>,
    r2: Option<usize>,
)
    requires
        s1 == s2,
        r1 == spec_chokudai_search(s1, w, depth, n),
        r2 == spec_chokudai_search(s2, w, depth, n),
    ensures
        r1 == r2,
{
}

/// With no depth levels to sweep, a pass changes nothing.
proof fn lemma_chok_passes_zero_depth(levels: Seq<Seq<StateModel>>, n: nat, w: nat)
    ensures
        spec_chok_passes(levels, n, 0, w) == levels,
    decreases n,
{
    if n > 0 {
        lemma_chok_passes_zero_depth(levels, (n - 1) as nat, w);
    }
}

/// With depth zero the seed candidate's first action is never assigned, so
/// both algorithms return no action, whatever the caller's state held in
/// its first-action field.
pub proof fn lemma_depth_zero_no_action(s: StateModel, w: nat, n: nat)
    ensures
        spec_beam_search(s, w, 0) is None,
        spec_chokudai_search(s, w, 0, n) is None,
{
    let init = spec_init_levels(spec_seed(s), 0);
    lemma_chok_passes_zero_depth(init, n, w);
    assert(init[0].len() == 1);
    assert(init[0][0] == spec_seed(s));
}

/// Every candidate the levels hold is accounted for: level 0 holds at most
/// the seed, and every deeper candidate is well formed and carries a first
/// action legal in the seed.
spec fn chok_levels_ok(seed: StateModel, levels: Seq<Seq<StateModel>>) -> bool {
    &&& forall|x: StateModel| #[trigger] levels[0].contains(x) ==> x == seed
    &&& forall|li: int, x: StateModel|
        1 <= li < levels.len() && (#[trigger] levels[li].contains(x)) ==> x.wf()
            && spec_first_action_legal(seed, x)
}

/// The level budget at depth zero pops only the seed and pushes children
/// stamped with one of the seed's legal actions.
proof fn lemma_chok_step_ok_zero(
    seed: StateModel,
    now: Seq<StateModel>,
    next: Seq<StateModel>,
    w: nat,
)
    requires
        seed.wf(),
        forall|x: StateModel| #[trigger] now.contains(x) ==> x == seed,
        forall|x: StateModel|
            #[trigger] next.contains(x) ==> x.wf() && spec_first_action_legal(seed, x),
    ensures
        forall|x: StateModel|
            #[trigger] spec_chok_step(now, next, true, w).0.contains(x) ==> x == seed,
        forall|x: StateModel|
            #[trigger] spec_chok_step(now, next, true, w).1.contains(x) ==> x.wf()
                && spec_first_action_legal(seed, x),
    decreases w,
{
    let r = spec_chok_step(now, next, true, w);
    if w == 0 || now.len() == 0 {
        assert(r == (now, next));
    } else {
        let top = now[0];
        assert(now.contains(top));
        let rest = spec_heap_pop_rest::<State>(now);
        lemma_heap_pop_rest_contains::<State>(now);
        if top.turn >= END_TURN {
            assert(r == (rest, next));
            assert forall|x: StateModel| #[trigger] r.0.contains(x) implies x == seed by {
                assert(rest.contains(x));
            }
        } else {
            let expanded = spec_expand(top, true, next, 0);
            lemma_spec_expand_contains(top, true, next, 0);
            assert forall|x: StateModel| #[trigger] expanded.contains(x) implies x.wf()
                && spec_first_action_legal(seed, x) by {
            }
            lemma_chok_step_ok_zero(seed, rest, expanded, (w - 1) as nat);
            let r2 = spec_chok_step(rest, expanded, true, (w - 1) as nat);
            assert(r == r2);
            assert forall|x: StateModel| #[trigger] r.0.contains(x) implies x == seed by {
                assert(r2.0.contains(x));
            }
            assert forall|x: StateModel| #[trigger] r.1.contains(x) implies x.wf()
                && spec_first_action_legal(seed, x) by {
                assert(r2.1.contains(x));
            }
        }
    }
}

/// The level budget at a deeper level keeps candidates well formed, with
/// their first actions inherited unchanged and still legal in the seed.
proof fn lemma_chok_step_ok_deep(
    seed: StateModel,
    now: Seq<StateModel>,
    next: Seq<StateModel>,
    w: nat,
)
    requires
        forall|x: StateModel|
            #[trigger] now.contains(x) ==> x.wf() && spec_first_action_legal(seed, x),
        forall|x: StateModel|
            #[trigger] next.contains(x) ==> x.wf() && spec_first_action_legal(seed, x),
    ensures
        forall|x: StateModel|
            #[trigger] spec_chok_step(now, next, false, w).0.contains(x) ==> x.wf()
                && spec_first_action_legal(seed, x),
        forall|x: StateModel|
            #[trigger] spec_chok_step(now, next, false, w).1.contains(x) ==> x.wf()
                && spec_first_action_legal(seed, x),
    decreases w,
{
    let r = spec_chok_step(now, next, false, w);
    if w == 0 || now.len() == 0 {
        assert(r == (now, next));
    } else {
        let top = now[0];
        assert(now.contains(top));
        let rest = spec_heap_pop_rest::<State>(now);
        lemma_heap_pop_rest_contains::<State>(now);
        if top.turn >= END_TURN {
            assert(r == (rest, next));
            assert forall|x: StateModel| #[trigger] r.0.contains(x) implies x.wf()
                && spec_first_action_legal(seed, x) by {
                assert(rest.contains(x));
            }
        } else {
            let expanded = spec_expand(top, false, next, 0);
            lemma_spec_expand_contains(top, false, next, 0);
            assert forall|x: StateModel| #[trigger] expanded.contains(x) implies x.wf()
                && spec_first_action_legal(seed, x) by {
            }
            lemma_chok_step_ok_deep(seed, rest, expanded, (w - 1) as nat);
            let r2 = spec_chok_step(rest, expanded, false, (w - 1) as nat);
            assert(r == r2);
            assert forall|x: StateModel| #[trigger] r.0.contains(x) implies x.wf()
                && spec_first_action_legal(seed, x) by {
                assert(r2.0.contains(x));
            }
            assert forall|x: StateModel| #[trigger] r.1.contains(x) implies x.wf()
                && spec_first_action_legal(seed, x) by {
                assert(r2.1.contains(x));
            }
        }
    }
}

/// One pass keeps the levels accounted for.
proof fn lemma_chok_pass_ok(
    seed: StateModel,
    levels: Seq<Seq<StateModel>>,
    t: nat,
    depth: nat,
    w: nat,
)
    requires
        seed.wf(),
        levels.len() == depth + 1,
        t <= depth,
        chok_levels_ok(seed, levels),
    ensures
        chok_levels_ok(seed, spec_chok_pass(levels, t, depth, w)),
        spec_chok_pass(levels, t, depth, w).len() == levels.len(),
    decreases depth - t,
{
    if t < depth {
        let now = levels[t as int];
        let nxt = levels[t + 1 as int];
        let p = spec_chok_step(now, nxt, t == 0, w);
        if t == 0 {
            lemma_chok_step_ok_zero(seed, now, nxt, w);
        } else {
            lemma_chok_step_ok_deep(seed, now, nxt, w);
        }
        let updated = levels.update(t as int, p.0).update(t + 1 as int, p.1);
        assert forall|x: StateModel| #[trigger] updated[0].contains(x) implies x == seed by {
            if t != 0 {
                assert(updated[0] == levels[0]);
            }
        }
        assert forall|li: int, x: StateModel|
            1 <= li < updated.len() && (#[trigger] updated[li].contains(x)) implies x.wf()
            && spec_first_action_legal(seed, x) by {
            if li == t {
                assert(p.0.contains(x));
            } else if li == t + 1 {
                assert(p.1.contains(x));
            } else {
                assert(updated[li] == levels[li]);
            }
        }
        lemma_chok_pass_ok(seed, updated, t + 1, depth, w);
    }
}

/// Any number of passes keeps the levels accounted for.
proof fn lemma_chok_passes_ok(
    seed: StateModel,
    levels: Seq<Seq<StateModel>>,
    n: nat,
    depth: nat,
    w: nat,
)
    requires
        seed.wf(),
        levels.len() == depth + 1,
        chok_levels_ok(seed, levels),
    ensures
        chok_levels_ok(seed, spec_chok_passes(levels, n, depth, w)),
        spec_chok_passes(levels, n, depth, w).len() == levels.len(),
    decreases n,
{
    if n > 0 {
        lemma_chok_passes_ok(seed, levels, (n - 1) as nat, depth, w);
        lemma_chok_pass_ok(seed, spec_chok_passes(levels, (n - 1) as nat, depth, w), 0, depth, w);
    }
}

/// Reading the answer out of accounted-for levels yields no action — at
/// most the seed's unset first action — or one legal in the seed.
proof fn lemma_chok_result_ok(seed: StateModel, levels: Seq<Seq<StateModel>>, i: int)
    requires
        seed.first_action is None,
        chok_levels_ok(seed, levels),
        i < levels.len(),
    ensures
        spec_chok_result(levels, i) is None || (spec_chok_result(levels, i) matches Some(a)
            && spec_legal_actions(seed).contains(a)),
    decreases i + 1,
{
    if i >= 0 {
        if levels[i].len() > 0 {
            assert(levels[i].contains(levels[i][0]));
            if i == 0 {
                assert(levels[i][0] == seed);
            }
        } else {
            lemma_chok_result_ok(seed, levels, i - 1);
        }
    }
}

/// For every well-formed initial state — whatever its first-action field
/// holds — chokudai search returns no action or an action legal in that
/// state: level 0 only ever holds the seed, whose first action is unset,
/// and every deeper candidate carries one assigned from the seed's legal
/// actions at depth zero.
pub proof fn lemma_chokudai_search_action_legal(s: StateModel, w: nat, depth: nat, n: nat)
    requires
        s.wf(),
    ensures
        spec_chokudai_search(s, w, depth, n) is None || (spec_chokudai_search(
            s,
            w,
            depth,
            n,
        ) matches Some(a) && spec_legal_actions(s).contains(a)),
{
    let seed = spec_seed(s);
    let init = spec_init_levels(seed, depth);
    assert(seed.wf());
    assert forall|x: StateModel| #[trigger] init[0].contains(x) implies x == seed by {
        let k = choose|k: int| 0 <= k < init[0].len() && init[0][k] == x;
    }
    assert forall|li: int, x: StateModel|
        1 <= li < init.len() && (#[trigger] init[li].contains(x)) implies x.wf()
        && spec_first_action_legal(seed, x) by {
        assert(init[li].len() == 0);
    }
    lemma_chok_passes_ok(seed, init, n, depth, w);
    lemma_chok_result_ok(seed, spec_chok_passes(init, n, depth, w), depth as int);
    assert(spec_legal_actions(seed) == spec_legal_actions(s));
}

/// A level budget only adds to the level it fills.
proof fn lemma_chok_step_next_grows(
    now: Seq<StateModel>,
    next: Seq<StateModel>,
    depth_zero: bool,
    w: nat,
)
    ensures
        forall|x: StateModel|
            next.contains(x) ==> #[trigger] spec_chok_step(now, next, depth_zero, w).1.contains(
                x,
            ),
    decreases w,
{
    if w >= 1 && now.len() >= 1 {
        let top = now[0];
        let rest = spec_heap_pop_rest::<State>(now);
        if top.turn >= END_TURN {
        } else {
            let expanded = spec_expand(top, depth_zero, next, 0);
            lemma_spec_expand_grows(top, depth_zero, next, 0);
            lemma_chok_step_next_grows(rest, expanded, depth_zero, (w - 1) as nat);
            assert forall|x: StateModel| next.contains(x) implies #[trigger] spec_chok_step(
                now,
                next,
                depth_zero,
                w,
            ).1.contains(x) by {
                assert(expanded.contains(x));
                assert(spec_chok_step(rest, expanded, depth_zero, (w - 1) as nat).1.contains(x));
                assert(spec_chok_step(now, next, depth_zero, w) == spec_chok_step(
                    rest,
                    expanded,
                    depth_zero,
                    (w - 1) as nat,
                ));
            }
        }
    }
}

/// One pass from depth `t` on neither drops a level nor removes anything
/// from the deepest level, which is only ever pushed into.
proof fn lemma_chok_pass_deepest_grows(levels: Seq<Seq<StateModel>>, t: nat, depth: nat, w: nat)
    requires
        levels.len() == depth + 1,
        t <= depth,
    ensures
        spec_chok_pass(levels, t, depth, w).len() == levels.len(),
        forall|x: StateModel|
            levels[depth as int].contains(x) ==> #[trigger] spec_chok_pass(
                levels,
                t,
                depth,
                w,
            )[depth as int].contains(x),
    decreases depth - t,
{
    if t < depth {
        let p = spec_chok_step(levels[t as int], levels[t + 1 as int], t == 0, w);
        let updated = levels.update(t as int, p.0).update(t + 1 as int, p.1);
        lemma_chok_step_next_grows(levels[t as int], levels[t + 1 as int], t == 0, w);
        lemma_chok_pass_deepest_grows(updated, t + 1, depth, w);
    }
}

/// The levels keep their count across passes.
proof fn lemma_chok_passes_len(levels: Seq<Seq<StateModel>>, n: nat, depth: nat, w: nat)
    requires
        levels.len() == depth + 1,
    ensures
        spec_chok_passes(levels, n, depth, w).len() == depth + 1,
    decreases n,
{
    if n > 0 {
        lemma_chok_passes_len(levels, (n - 1) as nat, depth, w);
        lemma_chok_pass_deepest_grows(spec_chok_passes(levels, (n - 1) as nat, depth, w), 0, depth, w);
    }
}

/// Exploration accumulates where the answer is read: every candidate
/// present in the deepest level after `k` passes is still present there
/// after `k + 1` passes. (Shallower levels are working storage: a pass pops
/// its expansion budget out of them, so their contents are not preserved.)
pub proof fn lemma_chokudai_deepest_level_accumulates(
    s: StateModel,
    w: nat,
    depth: nat,
    k: nat,
)
    ensures
        forall|x: StateModel|
            spec_chok_passes(spec_init_levels(s, depth), k, depth, w)[depth as int].contains(x)
                ==> #[trigger] spec_chok_passes(
                spec_init_levels(s, depth),
                k + 1,
                depth,
                w,
            )[depth as int].contains(x),
{
    let init = spec_init_levels(s, depth);
    let after_k = spec_chok_passes(init, k, depth, w);
    lemma_chok_passes_len(init, k, depth, w);
    lemma_chok_pass_deepest_grows(after_k, 0, depth, w);
    assert(spec_chok_passes(init, k + 1, depth, w) == spec_chok_pass(after_k, 0, depth, w));
}

} // verus!
