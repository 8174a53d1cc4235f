//! The choices the settings page offers.

use vstd::prelude::*;

verus! {

/// The order retention choices are listed in: never first, then by days.
pub open spec fn days_key(days: Option<u32>) -> u32 {
    match days {
        Some(d) => d,
        None => 0,
    }
}

/// The key a choice is ordered by.
fn days_of(days: Option<u32>) -> (r: u32)
    ensures
        r == days_key(days),
{
    match days {
        Some(d) => d,
        None => 0,
    }
}

/// The preset choices of how long a copy is kept, in days.
pub open spec fn presets() -> Seq<Option<u32>> {
    seq![None, Some(1u32), Some(7u32), Some(30u32)]
}

/// Where `current` goes among `options`, kept in order: after every choice
/// that comes before it or ties with it.
pub open spec fn slot_for(options: Seq<Option<u32>>, current: Option<u32>) -> int
    decreases options.len(),
{
    if options.len() == 0 {
        0
    } else if days_key(options.last()) <= days_key(current) {
        options.len() as int
    } else {
        slot_for(options.drop_last(), current)
    }
}

/// The retention choices: the presets, and the current value among them
/// where it is none of them, all in order.
pub open spec fn retention_spec(current: Option<u32>) -> Seq<Option<u32>> {
    if presets().contains(current) {
        presets()
    } else {
        presets().insert(slot_for(presets(), current), current)
    }
}

/// The choices of how long a copy is kept, in days (`None` for never): the
/// presets, with a value set by hand slotted in where it belongs.
pub fn retention_options(current: Option<u32>) -> (r: Vec<Option<u32>>)
    ensures
        r@ == retention_spec(current),
{
    let mut options: Vec<Option<u32>> = vec![None, Some(1), Some(7), Some(30)];
    assert(options@ =~= presets());
    let listed = match current {
        None => true,
        Some(d) => d == 1 || d == 7 || d == 30,
    };
    assert(listed == presets().contains(current)) by {
        if presets().contains(current) {
            let k = presets().index_of(current);
            assert(0 <= k < 4);
        }
        if listed {
            match current {
                None => assert(presets()[0] == current),
                Some(d) => if d == 1 {
                    assert(presets()[1] == current);
                } else if d == 7 {
                    assert(presets()[2] == current);
                } else {
                    assert(presets()[3] == current);
                },
            }
        }
    }
    if listed {
        return options;
    }
    let key = days_of(current);
    let mut at: usize = 4;
    assert(presets().take(4) =~= presets());
    while at > 0 && days_of(options[at - 1]) > key
        invariant
            at <= 4,
            options@ == presets(),
            key == days_key(current),
            slot_for(presets().take(at as int), current) == slot_for(presets(), current),
        decreases at,
    {
        proof {
            assert(presets().take(at as int).drop_last() =~= presets().take(at - 1));
            assert(presets().take(at as int).last() == presets()[at - 1]);
        }
        at -= 1;
    }
    proof {
        if at > 0 {
            assert(presets().take(at as int).last() == presets()[at - 1]);
        } else {
            assert(presets().take(0) =~= Seq::<Option<u32>>::empty());
        }
    }
    options.insert(at, current);
    options
}

/// The choices climb from never through ever more days, and the current
/// value is always among them.
pub proof fn retention_choices_climb(current: Option<u32>)
    ensures
        retention_spec(current).contains(current),
        forall|a: int, b: int|
            0 <= a < b < retention_spec(current).len() ==> days_key(#[trigger] retention_spec(current)[a])
                <= days_key(#[trigger] retention_spec(current)[b]),
{
    let p = presets();
    if !p.contains(current) {
        let at = slot_for(p, current);
        assert forall|a: int, b: int| 0 <= a < b < p.len() implies days_key(#[trigger] p[a])
            <= days_key(#[trigger] p[b]) by {}
        lemma_slot_for(p, current);
        let r = p.insert(at, current);
        assert(r[at] == current);
        assert forall|a: int, b: int| 0 <= a < b < r.len() implies days_key(#[trigger] r[a]) <= days_key(
            #[trigger] r[b],
        ) by {
            if b < at {
                assert(r[a] == p[a] && r[b] == p[b]);
            } else if b == at {
                assert(r[a] == p[a]);
            } else if a == at {
                assert(r[b] == p[b - 1]);
            } else if a < at {
                assert(r[a] == p[a] && r[b] == p[b - 1]);
            } else {
                assert(r[a] == p[a - 1] && r[b] == p[b - 1]);
            }
        }
    } else {
        assert forall|a: int, b: int| 0 <= a < b < p.len() implies days_key(#[trigger] p[a]) <= days_key(
            #[trigger] p[b],
        ) by {}
    }
}

proof fn lemma_slot_for(options: Seq<Option<u32>>, current: Option<u32>)
    requires
        forall|a: int, b: int|
            0 <= a < b < options.len() ==> days_key(#[trigger] options[a]) <= days_key(
                #[trigger] options[b],
            ),
    ensures
        0 <= slot_for(options, current) <= options.len(),
        forall|k: int| 0 <= k < slot_for(options, current) ==> days_key(#[trigger] options[k]) <= days_key(current),
        forall|k: int| slot_for(options, current) <= k < options.len() ==> days_key(current) < days_key(#[trigger] options[k]),
    decreases options.len(),
{
    if options.len() > 0 {
        let rest = options.drop_last();
        assert forall|a: int, b: int| 0 <= a < b < rest.len() implies days_key(#[trigger] rest[a])
            <= days_key(#[trigger] rest[b]) by {
            assert(rest[a] == options[a] && rest[b] == options[b]);
        }
        lemma_slot_for(rest, current);
        if days_key(options.last()) <= days_key(current) {
            assert forall|k: int| 0 <= k < options.len() implies days_key(#[trigger] options[k]) <= days_key(current) by {
                if k < options.len() - 1 {
                    assert(days_key(options[k]) <= days_key(options[options.len() - 1]));
                }
            }
        } else {
            assert forall|k: int| slot_for(options, current) <= k < options.len() implies days_key(current) < days_key(#[trigger] options[k]) by {
                if k < options.len() - 1 {
                    assert(options[k] == rest[k]);
                }
            }
            assert forall|k: int| 0 <= k < slot_for(options, current) implies days_key(#[trigger] options[k]) <= days_key(current) by {
                assert(options[k] == rest[k]);
            }
        }
    }
}

} // verus!
