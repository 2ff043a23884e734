//! The keyboard controls: which pressed keys move the camera and which turn it.
use vstd::prelude::*;

verus! {

/// What one pressed key asks of the camera.
#[derive(PartialEq, Eq, Structural, Clone, Copy, Debug)]
pub enum KeyAction {
    /// "ArrowUp" or "z": move forward.
    Forward,
    /// "ArrowDown" or "s": move backward.
    Backward,
    /// "ArrowLeft" or "q": turn counter-clockwise.
    TurnLeft,
    /// "ArrowRight" or "d": turn clockwise.
    TurnRight,
    /// Any other key.
    Ignored,
}

/// The action bound to the key named `key`.
pub open spec fn key_action_of(key: Seq<char>) -> KeyAction {
    if key == "ArrowUp"@ || key == "z"@ {
        KeyAction::Forward
    } else if key == "ArrowDown"@ || key == "s"@ {
        KeyAction::Backward
    } else if key == "ArrowLeft"@ || key == "q"@ {
        KeyAction::TurnLeft
    } else if key == "ArrowRight"@ || key == "d"@ {
        KeyAction::TurnRight
    } else {
        KeyAction::Ignored
    }
}

/// `key` is one of the eight names the controls respond to.
pub open spec fn is_bound_key(key: Seq<char>) -> bool {
    ||| key == "ArrowUp"@
    ||| key == "z"@
    ||| key == "ArrowDown"@
    ||| key == "s"@
    ||| key == "ArrowLeft"@
    ||| key == "q"@
    ||| key == "ArrowRight"@
    ||| key == "d"@
}

/// The key bindings: "ArrowUp" and "z" move forward, "ArrowDown" and "s" move
/// backward, "ArrowLeft" and "q" turn counter-clockwise, "ArrowRight" and "d"
/// turn clockwise, and every other key name is ignored.
pub proof fn lemma_key_bindings(key: Seq<char>)
    ensures
        key == "ArrowUp"@ ==> key_action_of(key) == KeyAction::Forward,
        key == "z"@ ==> key_action_of(key) == KeyAction::Forward,
        key == "ArrowDown"@ ==> key_action_of(key) == KeyAction::Backward,
        key == "s"@ ==> key_action_of(key) == KeyAction::Backward,
        key == "ArrowLeft"@ ==> key_action_of(key) == KeyAction::TurnLeft,
        key == "q"@ ==> key_action_of(key) == KeyAction::TurnLeft,
        key == "ArrowRight"@ ==> key_action_of(key) == KeyAction::TurnRight,
        key == "d"@ ==> key_action_of(key) == KeyAction::TurnRight,
        (key != "ArrowUp"@ && key != "z"@ && key != "ArrowDown"@ && key != "s"@ && key
            != "ArrowLeft"@ && key != "q"@ && key != "ArrowRight"@ && key != "d"@) ==> key_action_of(
            key,
        ) == KeyAction::Ignored,
        (key != "ArrowUp"@ && key != "z"@ && key != "ArrowDown"@ && key != "s"@ && key
            != "ArrowLeft"@ && key != "q"@ && key != "ArrowRight"@ && key != "d"@) ==> key_thrust(key) == 0
            && key_rotation(key) == 0,
{
    reveal_strlit("ArrowUp");
    reveal_strlit("z");
    reveal_strlit("ArrowDown");
    reveal_strlit("s");
    reveal_strlit("ArrowLeft");
    reveal_strlit("q");
    reveal_strlit("ArrowRight");
    reveal_strlit("d");
    assert("z"@[0] != "s"@[0] && "z"@[0] != "q"@[0] && "z"@[0] != "d"@[0] && "s"@[0] != "q"@[0]
        && "s"@[0] != "d"@[0] && "q"@[0] != "d"@[0]);
    assert("ArrowDown"@[5] != "ArrowLeft"@[5]);
    assert("ArrowUp"@.len() != "ArrowDown"@.len() && "ArrowUp"@.len() != "ArrowRight"@.len()
        && "ArrowDown"@.len() != "ArrowRight"@.len());
}

/// Keys bound to nothing neither move nor turn the camera: pressing only such
/// keys gives no thrust and no turn, and adding such a key to any keys changes
/// neither total.
pub proof fn lemma_unbound_keys_do_nothing(keys: Seq<Seq<char>>, extra: Seq<char>)
    ensures
        (forall|i: int| 0 <= i < keys.len() ==> !is_bound_key(#[trigger] keys[i])) ==> thrust_of(
            keys,
        ) == 0 && rotation_of(keys) == 0,
        !is_bound_key(extra) ==> thrust_of(keys.push(extra)) == thrust_of(keys) && rotation_of(
            keys.push(extra),
        ) == rotation_of(keys),
    decreases keys.len(),
{
    lemma_key_bindings(extra);
    assert(keys.push(extra).drop_last() =~= keys);
    if keys.len() > 0 {
        lemma_unbound_keys_do_nothing(keys.drop_last(), keys.last());
        if forall|i: int| 0 <= i < keys.len() ==> !is_bound_key(#[trigger] keys[i]) {
            assert(!is_bound_key(keys[keys.len() - 1]));
            assert(forall|i: int|
                0 <= i < keys.drop_last().len() ==> keys.drop_last()[i] == keys[i]);
            lemma_key_bindings(keys.last());
        }
    }
}

/// The steps of forward movement that one key asks for (backward is negative).
pub open spec fn key_thrust(key: Seq<char>) -> int {
    match key_action_of(key) {
        KeyAction::Forward => 1,
        KeyAction::Backward => -1,
        _ => 0,
    }
}

/// The heading steps that one key turns by; each turning key turns by two
/// steps, counter-clockwise positive.
pub open spec fn key_rotation(key: Seq<char>) -> int {
    match key_action_of(key) {
        KeyAction::TurnLeft => 2,
        KeyAction::TurnRight => -2,
        _ => 0,
    }
}

/// The net forward steps that all pressed keys ask for.
pub open spec fn thrust_of(keys: Seq<Seq<char>>) -> int
    decreases keys.len(),
{
    if keys.len() == 0 {
        0
    } else {
        thrust_of(keys.drop_last()) + key_thrust(keys.last())
    }
}

/// The net heading steps that all pressed keys turn by.
pub open spec fn rotation_of(keys: Seq<Seq<char>>) -> int
    decreases keys.len(),
{
    if keys.len() == 0 {
        0
    } else {
        rotation_of(keys.drop_last()) + key_rotation(keys.last())
    }
}

/// Compares two string slices by their characters.
///
/// Calls `<str as PartialEq>::eq`; trusted to return whether the two slices
/// hold the same characters.
#[verifier::external_body]
fn str_eq(a: &str, b: &str) -> (same: bool)
    ensures
        same == (a@ == b@),
{
    a == b
}

/// The action bound to a key name, as a browser reports it in `KeyboardEvent.key`.
pub fn key_action(key: &str) -> (action: KeyAction)
    ensures
        action == key_action_of(key@),
        is_bound_key(key@) || action == KeyAction::Ignored,
{
    proof {
        lemma_key_bindings(key@);
    }
    if str_eq(key, "ArrowUp") || str_eq(key, "z") {
        KeyAction::Forward
    } else if str_eq(key, "ArrowDown") || str_eq(key, "s") {
        KeyAction::Backward
    } else if str_eq(key, "ArrowLeft") || str_eq(key, "q") {
        KeyAction::TurnLeft
    } else if str_eq(key, "ArrowRight") || str_eq(key, "d") {
        KeyAction::TurnRight
    } else {
        KeyAction::Ignored
    }
}

/// The net thrust and heading change of a set of pressed keys, both bounded
/// by the number of keys.
pub proof fn lemma_key_totals_bounded(keys: Seq<Seq<char>>)
    ensures
        -(keys.len() as int) <= thrust_of(keys) <= keys.len(),
        -2 * keys.len() <= rotation_of(keys) <= 2 * keys.len(),
    decreases keys.len(),
{
    if keys.len() > 0 {
        lemma_key_totals_bounded(keys.drop_last());
    }
}

/// Pressing more keys adds up: the totals of two lists of keys pressed together
/// are the sums of their totals, whatever the order.
pub proof fn lemma_key_totals_add(a: Seq<Seq<char>>, b: Seq<Seq<char>>)
    ensures
        thrust_of(a + b) == thrust_of(a) + thrust_of(b),
        rotation_of(a + b) == rotation_of(a) + rotation_of(b),
        thrust_of(a + b) == thrust_of(b + a),
        rotation_of(a + b) == rotation_of(b + a),
{
    lemma_totals_concat(a, b);
    lemma_totals_concat(b, a);
}

proof fn lemma_totals_concat(a: Seq<Seq<char>>, b: Seq<Seq<char>>)
    ensures
        thrust_of(a + b) == thrust_of(a) + thrust_of(b),
        rotation_of(a + b) == rotation_of(a) + rotation_of(b),
    decreases b.len(),
{
    if b.len() == 0 {
        assert(a + b =~= a);
    } else {
        lemma_totals_concat(a, b.drop_last());
        assert((a + b).drop_last() =~= a + b.drop_last());
        assert((a + b).last() == b.last());
    }
}

/// The number of pressed keys bound to `action`.
pub open spec fn action_count(keys: Seq<Seq<char>>, action: KeyAction) -> nat {
    keys.map_values(|k: Seq<char>| key_action_of(k)).to_multiset().count(action)
}

/// The totals depend only on how many keys ask for each action: aliases
/// count alike, keys bound to nothing count for nothing, and order does not
/// matter.
pub proof fn lemma_key_totals_count_actions(keys: Seq<Seq<char>>)
    ensures
        thrust_of(keys) == action_count(keys, KeyAction::Forward) - action_count(
            keys,
            KeyAction::Backward,
        ),
        rotation_of(keys) == 2 * (action_count(keys, KeyAction::TurnLeft) - action_count(
            keys,
            KeyAction::TurnRight,
        )),
    decreases keys.len(),
{
    broadcast use vstd::seq_lib::group_to_multiset_ensures;

    let f = |k: Seq<char>| key_action_of(k);
    if keys.len() == 0 {
        assert(keys.map_values(f) =~= Seq::<KeyAction>::empty());
        assert(keys.map_values(f).to_multiset() =~= vstd::multiset::Multiset::<KeyAction>::empty());
    } else {
        let rest = keys.drop_last();
        lemma_key_totals_count_actions(rest);
        assert(keys.map_values(f) =~= rest.map_values(f).push(key_action_of(keys.last())));
    }
}

/// Pressing the same keys in any order gives the same totals.
pub proof fn lemma_key_totals_permutation(a: Seq<Seq<char>>, b: Seq<Seq<char>>)
    requires
        a.to_multiset() == b.to_multiset(),
    ensures
        thrust_of(a) == thrust_of(b),
        rotation_of(a) == rotation_of(b),
    decreases a.len(),
{
    broadcast use vstd::seq_lib::group_to_multiset_ensures;

    if a.len() == 0 {
        assert(a.to_multiset().len() == 0);
        assert(b.to_multiset().len() == 0);
    } else {
        let x = a.last();
        assert(a.drop_last().push(x) =~= a);
        assert(a.to_multiset().count(x) > 0);
        assert(b.contains(x));
        let i = choose|i: int| 0 <= i < b.len() && b[i] == x;
        assert(b.remove(i).to_multiset() =~= a.drop_last().to_multiset());
        lemma_key_totals_permutation(a.drop_last(), b.remove(i));
        lemma_totals_remove(b, i);
    }
}

/// Removing one key takes its part out of the totals.
proof fn lemma_totals_remove(keys: Seq<Seq<char>>, i: int)
    requires
        0 <= i < keys.len(),
    ensures
        thrust_of(keys) == thrust_of(keys.remove(i)) + key_thrust(keys[i]),
        rotation_of(keys) == rotation_of(keys.remove(i)) + key_rotation(keys[i]),
{
    let one = seq![keys[i]];
    assert(one.drop_last() =~= Seq::<Seq<char>>::empty());
    assert(one.len() == 1 && one.last() == keys[i]);
    assert(thrust_of(one.drop_last()) == 0 && rotation_of(one.drop_last()) == 0);
    assert(thrust_of(one) == key_thrust(keys[i]));
    assert(rotation_of(one) == key_rotation(keys[i]));
    assert(keys =~= keys.take(i) + (one + keys.skip(i + 1)));
    assert(keys.remove(i) =~= keys.take(i) + keys.skip(i + 1));
    lemma_totals_concat(keys.take(i), one + keys.skip(i + 1));
    lemma_totals_concat(one, keys.skip(i + 1));
    lemma_totals_concat(keys.take(i), keys.skip(i + 1));
}

} // verus!
