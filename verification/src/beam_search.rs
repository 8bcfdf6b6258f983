//! Single-pass beam search: fixed width, fixed depth.
//!
//! The engine seeds a heap with one candidate built from the initial state,
//! its first action unset — whatever a caller left in that field is never
//! returned. At each depth it pops up to `beam_width` candidates, expands every legal
//! action of each into an independently owned child, and collects the
//! children in the next depth's heap. The action taken at depth zero is
//! recorded as each child's first action and inherited unchanged by all its
//! descendants; the result is the first action of the maximum-ranked
//! candidate in the final beam, or no action at all if that beam is empty.
//!
//! The specification functions below pin the whole run, including the order
//! in which equal-ranked candidates are popped, so the returned action is a
//! function of the initial state and the parameters alone.

use crate::heap::{
    lemma_heap_pop_rest_contains, lemma_heap_push_contains, spec_heap_pop_rest, spec_heap_push,
    Heap,
};
use crate::state::{
    lemma_legal_actions_legal, lemma_move_wf, lemma_wf_has_legal_action, spec_action_legal,
    spec_eval, spec_legal_actions, spec_move, spec_seed, State, StateModel, END_TURN,
};
use vstd::prelude::*;

verus! {

/// The child produced by expanding `parent` with `action`: advance, refresh
/// the rank key, and (only at depth zero) stamp the action taken as the
/// child's first action.
pub open spec fn spec_child(parent: StateModel, action: usize, depth_zero: bool) -> StateModel {
    let c = spec_eval(spec_move(parent, action));
    StateModel { first_action: if depth_zero { Some(action) } else { parent.first_action }, ..c }
}

/// Push the children of `parent` for its legal actions from index `k` on
/// into `beam`.
pub open spec fn spec_expand(
    parent: StateModel,
    depth_zero: bool,
    beam: Seq<StateModel>,
    k: nat,
) -> Seq<StateModel>
    decreases spec_legal_actions(parent).len() - k,
{
    let acts = spec_legal_actions(parent);
    if k >= acts.len() {
        beam
    } else {
        spec_expand(
            parent,
            depth_zero,
            spec_heap_push::<State>(beam, spec_child(parent, acts[k as int], depth_zero)),
            k + 1,
        )
    }
}

/// One depth of beam search: pop up to `w` candidates from `now` and expand
/// each into `next`; a pop from an empty beam simply stops.
pub open spec fn spec_beam_step(
    now: Seq<StateModel>,
    next: Seq<StateModel>,
    depth_zero: bool,
    w: nat,
) -> Seq<StateModel>
    decreases w,
{
    if w == 0 || now.len() == 0 {
        next
    } else {
        spec_beam_step(
            spec_heap_pop_rest::<State>(now),
            spec_expand(now[0], depth_zero, next, 0),
            depth_zero,
            (w - 1) as nat,
        )
    }
}

/// The depth loop from depth `t` on, with `best_action` the first action of
/// the current best candidate. An empty next beam yields no action; a
/// finished best candidate stops the loop early.
pub open spec fn spec_beam_loop(
    now: Seq<StateModel>,
    best_action: Option<usize>,
    t: nat,
    depth: nat,
    w: nat,
) -> Option<usize>
    decreases depth - t,
{
    if t >= depth {
        best_action
    } else {
        let next = spec_beam_step(now, Seq::empty(), t == 0, w);
        if next.len() == 0 {
            None
        } else if next[0].turn >= END_TURN {
            next[0].first_action
        } else {
            spec_beam_loop(next, next[0].first_action, (t + 1) as nat, depth, w)
        }
    }
}

/// The whole search on the model of the initial state. The beam is seeded
/// with one candidate from the initial state, first action unset, so with
/// depth zero there is no action to return.
pub open spec fn spec_beam_search(s: StateModel, w: nat, depth: nat) -> Option<usize> {
    spec_beam_loop(seq![spec_seed(s)], None, 0, depth, w)
}

/// Expanding adds only children of `parent`: anything in the expanded beam
/// was already there, or is a well-formed state one turn past its parent
/// whose first action is the recorded one.
pub proof fn lemma_spec_expand_contains(
    parent: StateModel,
    depth_zero: bool,
    beam: Seq<StateModel>,
    k: nat,
)
    requires
        parent.wf(),
    ensures
        forall|x: StateModel|
            #[trigger] spec_expand(parent, depth_zero, beam, k).contains(x) ==> (beam.contains(x)
                || (x.wf() && x.turn == ((parent.turn + 1) as usize) && (if depth_zero {
                x.first_action matches Some(a) && spec_legal_actions(parent).contains(a)
            } else {
                x.first_action == parent.first_action
            }))),
        spec_expand(parent, depth_zero, beam, k).len() == beam.len() + (
        if k >= spec_legal_actions(parent).len() {
            0
        } else {
            spec_legal_actions(parent).len() - k
        }),
    decreases spec_legal_actions(parent).len() - k,
{
    let acts = spec_legal_actions(parent);
    if k < acts.len() {
        let a = acts[k as int];
        lemma_legal_actions_legal(parent);
        lemma_move_wf(parent, a);
        let child = spec_child(parent, a, depth_zero);
        lemma_heap_push_contains::<State>(beam, child);
        lemma_spec_expand_contains(parent, depth_zero, spec_heap_push::<State>(beam, child), k
            + 1);
    }
}

/// Expanding never drops what was already in the beam.
pub proof fn lemma_spec_expand_grows(
    parent: StateModel,
    depth_zero: bool,
    beam: Seq<StateModel>,
    k: nat,
)
    ensures
        forall|x: StateModel|
            beam.contains(x) ==> #[trigger] spec_expand(parent, depth_zero, beam, k).contains(x),
    decreases spec_legal_actions(parent).len() - k,
{
    let acts = spec_legal_actions(parent);
    if k < acts.len() {
        let child = spec_child(parent, acts[k as int], depth_zero);
        let pushed = spec_heap_push::<State>(beam, child);
        lemma_heap_push_contains::<State>(beam, child);
        lemma_spec_expand_grows(parent, depth_zero, pushed, k + 1);
        assert forall|x: StateModel| beam.contains(x) implies #[trigger] spec_expand(
            parent,
            depth_zero,
            beam,
            k,
        ).contains(x) by {
            assert(pushed.contains(x));
            assert(spec_expand(parent, depth_zero, pushed, k + 1).contains(x));
            assert(spec_expand(parent, depth_zero, beam, k) == spec_expand(
                parent,
                depth_zero,
                pushed,
                k + 1,
            ));
        }
    }
}

/// `x` carries a first action that is legal in `init`.
pub open spec fn spec_first_action_legal(init: StateModel, x: StateModel) -> bool {
    x.first_action matches Some(a) && spec_legal_actions(init).contains(a)
}

/// A beam-search step at a depth past zero keeps every candidate well
/// formed with a legal first action, never shrinks the beam it fills, and
/// fills it with at least one candidate whenever it has one to pop.
proof fn lemma_beam_step_deep(init: StateModel, now: Seq<StateModel>, next: Seq<StateModel>, w: nat)
    requires
        forall|x: StateModel|
            #[trigger] now.contains(x) ==> x.wf() && spec_first_action_legal(init, x),
        forall|x: StateModel|
            #[trigger] next.contains(x) ==> x.wf() && spec_first_action_legal(init, x),
    ensures
        forall|x: StateModel|
            #[trigger] spec_beam_step(now, next, false, w).contains(x) ==> x.wf()
                && spec_first_action_legal(init, x),
        spec_beam_step(now, next, false, w).len() >= next.len(),
        w >= 1 && now.len() >= 1 ==> spec_beam_step(now, next, false, w).len() >= 1,
    decreases w,
{
    if w >= 1 && now.len() >= 1 {
        let top = now[0];
        assert(now.contains(top));
        let rest = spec_heap_pop_rest::<State>(now);
        lemma_heap_pop_rest_contains::<State>(now);
        let expanded = spec_expand(top, false, next, 0);
        lemma_spec_expand_contains(top, false, next, 0);
        lemma_spec_expand_grows(top, false, next, 0);
        lemma_wf_has_legal_action(top);
        lemma_beam_step_deep(init, rest, expanded, (w - 1) as nat);
    }
}

/// The depth loop, entered past depth zero with a well-formed, populated
/// beam of legally-stamped candidates, returns a legal first action.
proof fn lemma_beam_loop_some_legal(
    init: StateModel,
    beam: Seq<StateModel>,
    fa: Option<usize>,
    t: nat,
    depth: nat,
    w: nat,
)
    requires
        1 <= t <= depth,
        w >= 1,
        beam.len() >= 1,
        forall|x: StateModel|
            #[trigger] beam.contains(x) ==> x.wf() && spec_first_action_legal(init, x),
        fa matches Some(a) && spec_legal_actions(init).contains(a),
    ensures
        spec_beam_loop(beam, fa, t, depth, w) matches Some(a) && spec_legal_actions(
            init,
        ).contains(a),
    decreases depth - t,
{
    if t < depth {
        let next = spec_beam_step(beam, Seq::empty(), false, w);
        lemma_beam_step_deep(init, beam, Seq::empty(), w);
        assert(next.contains(next[0]));
        if next[0].turn >= END_TURN {
        } else {
            lemma_beam_loop_some_legal(init, next, next[0].first_action, t + 1, depth, w);
        }
    }
}

/// For any width and depth of at least one and an initial state with at
/// least one legal action, beam search returns an action, and that action
/// is legal in the initial state.
pub proof fn lemma_beam_search_returns_legal_action(s: StateModel, w: nat, depth: nat)
    requires
        s.wf(),
        w >= 1,
        depth >= 1,
        spec_legal_actions(s).len() >= 1,
    ensures
        spec_beam_search(s, w, depth) matches Some(a) && spec_legal_actions(s).contains(a),
{
    let root = spec_seed(s);
    let seed = seq![root];
    assert(seed.contains(root)) by {
        assert(seed[0] == root);
    }
    let rest = spec_heap_pop_rest::<State>(seed);
    lemma_heap_pop_rest_contains::<State>(seed);
    let next = spec_expand(root, true, Seq::<StateModel>::empty(), 0);
    lemma_spec_expand_contains(root, true, Seq::<StateModel>::empty(), 0);
    assert(rest.len() == 0);
    assert(spec_beam_step(rest, next, true, (w - 1) as nat) == next);
    assert(spec_beam_step(seed, Seq::<StateModel>::empty(), true, w) == next);
    assert(spec_legal_actions(root) == spec_legal_actions(s));
    assert(next.len() >= 1);
    assert(next.contains(next[0]));
    if next[0].turn >= END_TURN {
    } else {
        lemma_beam_loop_some_legal(s, next, next[0].first_action, 1, depth, w);
    }
}

/// For every well-formed initial state — whatever its first-action field
/// holds — beam search returns no action or an action legal in that state:
/// the engine seeds its beam with the first action unset, and every later
/// candidate carries one assigned from the seed's legal actions at depth
/// zero.
pub proof fn lemma_beam_search_action_legal(s: StateModel, w: nat, depth: nat)
    requires
        s.wf(),
    ensures
        spec_beam_search(s, w, depth) is None || (spec_beam_search(s, w, depth) matches Some(a)
            && spec_legal_actions(s).contains(a)),
{
    let root = spec_seed(s);
    let seed = seq![root];
    if depth == 0 {
    } else {
        if w == 0 {
            assert(spec_beam_step(seed, Seq::<StateModel>::empty(), true, w)
                == Seq::<StateModel>::empty());
        } else {
            assert(seed.contains(root)) by {
                assert(seed[0] == root);
            }
            let rest = spec_heap_pop_rest::<State>(seed);
            lemma_heap_pop_rest_contains::<State>(seed);
            let next = spec_expand(root, true, Seq::<StateModel>::empty(), 0);
            lemma_spec_expand_contains(root, true, Seq::<StateModel>::empty(), 0);
            assert(rest.len() == 0);
            assert(spec_beam_step(rest, next, true, (w - 1) as nat) == next);
            assert(spec_beam_step(seed, Seq::<StateModel>::empty(), true, w) == next);
            assert(spec_legal_actions(root) == spec_legal_actions(s));
            if next.len() == 0 {
            } else {
                assert(next.contains(next[0]));
                if next[0].turn >= END_TURN {
                } else {
                    lemma_beam_loop_some_legal(s, next, next[0].first_action, 1, depth, w);
                }
            }
        }
    }
}

/// Beam search is deterministic: its result is a function of the initial
/// state's model and the parameters alone, so identical inputs yield an
/// identical returned action.
pub proof fn lemma_beam_search_deterministic(
    s1: StateModel,
    s2: StateModel,
    w: nat,
    depth: nat,
    r1: Option<usize>,
    r2: Option<usize>,
)
    requires
        s1 == s2,
        r1 == spec_beam_search(s1, w, depth),
        r2 == spec_beam_search(s2, w, depth),
    ensures
        r1 == r2,
{
}

/// Expand `now_state` by every legal action, pushing each child into
/// `next_beam`; at depth zero the child's first action becomes the action
/// just taken, otherwise it stays the parent's.
pub(crate) fn expand_into(now_state: &State, depth_zero_flag: bool, next_beam: &mut Heap<State>)
    requires
        now_state.wf(),
        now_state@.turn < usize::MAX,
    ensures
        final(next_beam)@ == spec_expand(now_state@, depth_zero_flag, old(next_beam)@, 0),
{
    let ghost parent = now_state@;
    let ghost next0 = next_beam@;
    let legal = now_state.legal_actions();
    let mut j: usize = 0;
    while j < legal.len()
        invariant
            j <= legal@.len(),
            legal@ == spec_legal_actions(parent),
            forall|k: int| 0 <= k < legal@.len() ==> spec_action_legal(
                parent,
                #[trigger] legal@[k],
            ),
            now_state@ == parent,
            parent.wf(),
            parent.turn < usize::MAX,
            spec_expand(parent, depth_zero_flag, next_beam@, j as nat) == spec_expand(
                parent,
                depth_zero_flag,
                next0,
                0,
            ),
        decreases legal@.len() - j,
    {
        let action = legal[j];
        let mut next_state = now_state.clone();
        proof {
            lemma_move_wf(parent, action);
        }
        next_state.advance(action);
        next_state.evaluate_score();
        if depth_zero_flag {
            next_state.first_action = Some(action);
        }
        proof {
            assert(next_state@ == spec_child(parent, action, depth_zero_flag));
        }
        next_beam.push(next_state);
        j = j + 1;
    }
}

/// Explore up to `beam_depth` steps ahead, keeping at most `beam_width`
/// candidates per depth, and return the immediate action leading toward the
/// best candidate found, or `None` if nothing was reachable.
pub fn beam_search(state: &State, beam_width: usize, beam_depth: usize) -> (r: Option<usize>)
    requires
        state.wf(),
        state@.turn + beam_depth <= usize::MAX,
    ensures
        r == spec_beam_search(state@, beam_width as nat, beam_depth as nat),
{
    let ghost s0 = state@;
    let ghost root = spec_seed(s0);
    let ghost target = spec_beam_search(s0, beam_width as nat, beam_depth as nat);
    let mut now_beam: Heap<State> = Heap::new();
    let mut initial_state = state.clone();
    initial_state.first_action = None;
    let mut best_state = state.clone();
    best_state.first_action = None;
    proof {
        assert(initial_state@ == root);
        assert(best_state@.first_action is None);
    }
    now_beam.push(initial_state);
    proof {
        assert(Seq::<StateModel>::empty().push(root) =~= seq![root]);
        assert(now_beam@ == seq![root]);
        assert(root.wf() && root.turn == s0.turn);
        assert forall|x: StateModel| seq![root].contains(x) implies x == root by {
            let k = choose|k: int| 0 <= k < seq![root].len() && seq![root][k] == x;
        }
    }
    let mut t: usize = 0;
    while t < beam_depth
        invariant_except_break
            t <= beam_depth,
            s0 == state@,
            target == spec_beam_search(s0, beam_width as nat, beam_depth as nat),
            s0.turn + beam_depth <= usize::MAX,
            spec_beam_loop(
                now_beam@,
                best_state@.first_action,
                t as nat,
                beam_depth as nat,
                beam_width as nat,
            ) == target,
            forall|x: StateModel|
                #[trigger] now_beam@.contains(x) ==> x.wf() && x.turn == s0.turn + t,
        ensures
            best_state@.first_action == target,
        decreases beam_depth - t,
    {
        let ghost now0 = now_beam@;
        let ghost fa0 = best_state@.first_action;
        let ghost depth_zero = (t == 0);
        let mut next_beam: Heap<State> = Heap::new();
        let mut i: usize = 0;
        loop
            invariant_except_break
                i <= beam_width,
                t < beam_depth,
                s0.turn + beam_depth <= usize::MAX,
                depth_zero == (t == 0),
                spec_beam_step(now_beam@, next_beam@, depth_zero, (beam_width - i) as nat)
                    == spec_beam_step(now0, Seq::empty(), depth_zero, beam_width as nat),
                forall|x: StateModel|
                    #[trigger] now_beam@.contains(x) ==> x.wf() && x.turn == s0.turn + t,
                forall|x: StateModel|
                    #[trigger] next_beam@.contains(x) ==> x.wf() && x.turn == s0.turn + t + 1,
            ensures
                next_beam@ == spec_beam_step(now0, Seq::empty(), depth_zero, beam_width as nat),
                forall|x: StateModel|
                    #[trigger] next_beam@.contains(x) ==> x.wf() && x.turn == s0.turn + t + 1,
            decreases beam_width - i,
        {
            if i >= beam_width {
                proof {
                    assert(spec_beam_step(
                        now_beam@,
                        next_beam@,
                        depth_zero,
                        (beam_width - i) as nat,
                    ) == next_beam@);
                }
                break;
            }
            if now_beam.is_empty() {
                proof {
                    assert(spec_beam_step(
                        now_beam@,
                        next_beam@,
                        depth_zero,
                        (beam_width - i) as nat,
                    ) == next_beam@);
                }
                break;
            }
            let ghost now_before = now_beam@;
            proof {
                assert(now_before.contains(now_before[0]));
                lemma_heap_pop_rest_contains::<State>(now_before);
            }
            let now_state = now_beam.pop().unwrap();
            let ghost next0 = next_beam@;
            proof {
                lemma_spec_expand_contains(now_state@, depth_zero, next0, 0);
            }
            expand_into(&now_state, t == 0, &mut next_beam);
            i = i + 1;
        }
        now_beam = next_beam;
        proof {
            assert(spec_beam_loop(now0, fa0, t as nat, beam_depth as nat, beam_width as nat)
                == target);
        }
        if now_beam.is_empty() {
            proof {
                assert(target is None);
            }
            return None;
        }
        let best_ref = now_beam.peek().unwrap();
        best_state = best_ref.clone();
        proof {
            assert(now_beam@.contains(now_beam@[0]));
        }
        if best_state.is_done() {
            break;
        }
        t = t + 1;
    }
    best_state.first_action
}

} // verus!
