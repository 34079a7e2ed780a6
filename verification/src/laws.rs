//! What holds of every key combination and of every configuration.

use crate::config::{
    combination_of, command_line, command_of, is_chord, is_media_alone, keybinding_line,
    line_combination, read_line, read_lines, resolve, tokens_of, valid_keybinding,
};
use crate::key::{token_keys, Key};
use crate::text::trim;
use vstd::multiset::*;
use vstd::prelude::*;
use vstd::seq_lib::*;

verus! {

/// The keys of tokens written one after another are the keys of the first ones followed by
/// the keys of the others.
pub proof fn lemma_resolve_concat(a: Seq<Seq<char>>, b: Seq<Seq<char>>)
    ensures
        resolve(a + b) == resolve(a) + resolve(b),
    decreases b.len(),
{
    if b.len() == 0 {
        assert(a + b =~= a);
        assert(resolve(a) + resolve(b) =~= resolve(a));
    } else {
        lemma_resolve_concat(a, b.drop_last());
        assert((a + b).drop_last() =~= a + b.drop_last());
        assert(resolve(a + b) =~= resolve(a) + resolve(b));
    }
}

/// The same tokens in another order stand for the same keys in another order.
pub proof fn lemma_resolve_reordered(a: Seq<Seq<char>>, b: Seq<Seq<char>>)
    requires
        a.to_multiset() == b.to_multiset(),
    ensures
        resolve(a).to_multiset() == resolve(b).to_multiset(),
    decreases a.len(),
{
    broadcast use group_multiset_axioms;

    to_multiset_len(a);
    to_multiset_len(b);
    if a.len() == 0 {
        assert(a =~= b);
    } else {
        let x = a.last();
        let a1 = a.drop_last();
        assert(a =~= a1.push(x));
        to_multiset_build(a1, x);
        to_multiset_contains(a, x);
        to_multiset_contains(b, x);
        assert(a[a.len() - 1] == x);
        let j = choose|j: int| 0 <= j < b.len() && b[j] == x;
        let b1 = b.remove(j);
        to_multiset_remove(b, j);
        assert(a1.to_multiset() =~= b1.to_multiset());
        lemma_resolve_reordered(a1, b1);
        let p = b.take(j);
        let q = b.skip(j + 1);
        assert(b =~= p.push(x) + q);
        assert(b1 =~= p + q);
        lemma_resolve_concat(p.push(x), q);
        lemma_resolve_concat(p, q);
        assert(p.push(x).drop_last() =~= p);
        lemma_multiset_commutative(resolve(p) + token_keys(x), resolve(q));
        lemma_multiset_commutative(resolve(p), token_keys(x));
        lemma_multiset_commutative(resolve(p), resolve(q));
        lemma_multiset_commutative(resolve(a1), token_keys(x));
        assert(resolve(b).to_multiset() =~= resolve(a).to_multiset());
    }
}

/// A chord stands for the same combination in whatever order its modifiers are written.
///
/// `first` and `second` hold the same tokens in two orders, and `action` is the token that
/// follows them and names a key. Where the tokens of `first`, followed by `action`, stand
/// for a combination, so do those of `second`, and it is the same one.
pub proof fn lemma_modifier_order(
    first: Seq<Seq<char>>,
    second: Seq<Seq<char>>,
    action: Seq<char>,
)
    requires
        first.to_multiset() == second.to_multiset(),
        token_keys(action).len() > 0,
        combination_of(resolve(first.push(action))) is Some,
    ensures
        combination_of(resolve(second.push(action))) == combination_of(
            resolve(first.push(action)),
        ),
{
    broadcast use group_multiset_axioms;

    let last = token_keys(action);
    let one = resolve(first) + last;
    let two = resolve(second) + last;
    assert(first.push(action).drop_last() =~= first);
    assert(second.push(action).drop_last() =~= second);
    assert(resolve(first.push(action)) == one);
    assert(resolve(second.push(action)) == two);
    lemma_resolve_reordered(first, second);
    lemma_multiset_commutative(resolve(first), last);
    lemma_multiset_commutative(resolve(second), last);
    assert(one.to_multiset() =~= two.to_multiset());
    to_multiset_len(resolve(first));
    to_multiset_len(resolve(second));
    assert(resolve(first).len() == resolve(second).len());
    // The same keys.
    assert(one.to_set() =~= two.to_set()) by {
        assert forall|k: Key| one.to_set().contains(k) == two.to_set().contains(k) by {
            to_multiset_contains(one, k);
            to_multiset_contains(two, k);
        }
    }
    // None of them twice.
    one.lemma_multiset_has_no_duplicates();
    two.lemma_multiset_has_no_duplicates_conv();
    // The same shape.
    if is_media_alone(one) {
        assert(resolve(second).len() == 0);
        assert(two =~= one);
    } else {
        assert(is_chord(one));
        assert forall|i: int| 0 <= i < two.len() - 1 implies (#[trigger] two[i]).modifier() by {
            if i < resolve(second).len() {
                let k = resolve(second)[i];
                assert(resolve(second).contains(k));
                to_multiset_contains(resolve(second), k);
                to_multiset_contains(resolve(first), k);
                let j = choose|j: int| 0 <= j < resolve(first).len() && resolve(first)[j] == k;
                assert(one[j] == k);
            } else {
                assert(two[i] == one[i]);
            }
        }
        assert(two.last() == one.last());
        assert(is_chord(two));
    }
}

/// The same law for lines: two lines whose last tokens are the same and name a key, and
/// whose other tokens are the same in two orders, stand for the same combination, where
/// the first stands for one.
pub proof fn lemma_modifier_order_in_lines(one: Seq<char>, two: Seq<char>)
    requires
        tokens_of(one).len() > 0,
        tokens_of(two).len() > 0,
        tokens_of(one).last() == tokens_of(two).last(),
        tokens_of(one).drop_last().to_multiset() == tokens_of(two).drop_last().to_multiset(),
        token_keys(tokens_of(one).last()).len() > 0,
        line_combination(one) is Some,
    ensures
        line_combination(two) == line_combination(one),
{
    let action = tokens_of(one).last();
    assert(tokens_of(one) =~= tokens_of(one).drop_last().push(action));
    assert(tokens_of(two) =~= tokens_of(two).drop_last().push(action));
    lemma_modifier_order(tokens_of(one).drop_last(), tokens_of(two).drop_last(), action);
}

/// Keys of which one is written twice make no combination, whatever else holds of them.
pub proof fn lemma_repeated_key_refused(keys: Seq<Key>, i: int, j: int)
    requires
        0 <= i < j < keys.len(),
        keys[i] == keys[j],
    ensures
        combination_of(keys) is None,
{
}

/// A line whose tokens name a key twice stands for no combination.
pub proof fn lemma_repeated_key_refuses_line(line: Seq<char>)
    requires
        !resolve(tokens_of(line)).no_duplicates(),
    ensures
        line_combination(line) is None,
{
}

/// A media-control key makes a combination on its own, and only on its own: together with
/// any other key, modifier or not, before it or after it, the keys have no valid shape.
pub proof fn lemma_media_key_stands_alone(keys: Seq<Key>, i: int)
    requires
        0 <= i < keys.len(),
        keys[i].media_control(),
    ensures
        valid_keybinding(keys) <==> keys.len() == 1,
        keys.len() == 1 ==> combination_of(keys) == Some(keys.to_set()),
        keys.len() != 1 ==> combination_of(keys) is None,
{
    if keys.len() >= 2 {
        if is_chord(keys) {
            if i < keys.len() - 1 {
                assert(keys[i].modifier());
            }
        }
    }
}

/// Modifiers alone, however many, have no valid shape.
pub proof fn lemma_modifiers_alone_refused(keys: Seq<Key>)
    requires
        forall|i: int| 0 <= i < keys.len() ==> (#[trigger] keys[i]).modifier(),
    ensures
        !valid_keybinding(keys),
        combination_of(keys) is None,
{
    if keys.len() >= 1 {
        assert(keys[keys.len() - 1].modifier());
        assert(keys[0].modifier());
    }
}

/// Keys of which two are no modifiers have no valid shape.
pub proof fn lemma_two_actions_refused(keys: Seq<Key>, i: int, j: int)
    requires
        0 <= i < j < keys.len(),
        !keys[i].modifier(),
        !keys[j].modifier(),
    ensures
        !valid_keybinding(keys),
        combination_of(keys) is None,
{
    if is_chord(keys) {
        assert(keys[i].modifier());
    }
}

/// Keys of which a modifier is written after a key that is none have no valid shape.
pub proof fn lemma_modifier_after_action_refused(keys: Seq<Key>, i: int, j: int)
    requires
        0 <= i < j < keys.len(),
        !keys[i].modifier(),
        keys[j].modifier(),
    ensures
        !valid_keybinding(keys),
        combination_of(keys) is None,
{
    if is_chord(keys) {
        assert(keys[i].modifier());
    }
}

/// Keys that begin with a key that is neither a modifier nor a media-control key have no
/// valid shape: a chord needs a modifier before its action key.
pub proof fn lemma_action_alone_refused(keys: Seq<Key>)
    requires
        keys.len() > 0,
        !keys[0].modifier(),
        !keys[0].media_control(),
    ensures
        !valid_keybinding(keys),
        combination_of(keys) is None,
{
    if is_chord(keys) {
        assert(keys[0].modifier());
    }
}

/// Whether a set of keys is one that some keys, written in some order, make as a
/// combination.
pub open spec fn is_combination(keys: Set<Key>) -> bool {
    exists|written: Seq<Key>| combination_of(written) == Some(keys)
}

/// A combination is finite and not empty, and it is either one media-control key or
/// modifiers with exactly one action key.
pub proof fn lemma_combination_shape(keys: Set<Key>)
    requires
        is_combination(keys),
    ensures
        keys.finite(),
        keys.len() >= 1,
        (exists|k: Key| keys == set![k] && k.media_control()) || (exists|k: Key|
            #![trigger k.action()]
            keys.contains(k) && k.action() && keys.len() >= 2 && forall|m: Key|
                keys.contains(m) && m != k ==> m.modifier()),
{
    let written = choose|written: Seq<Key>| combination_of(written) == Some(keys);
    written.unique_seq_to_set();
    seq_to_set_is_finite(written);
    if is_media_alone(written) {
        assert(written.to_set() =~= set![written[0]]);
    } else {
        let k = written.last();
        assert(written.to_set().contains(k));
        assert forall|m: Key| keys.contains(m) && m != k implies m.modifier() by {
            let j = choose|j: int| 0 <= j < written.len() && written[j] == m;
            assert(written[j].modifier());
        }
    }
}

/// Whatever lines a configuration has, every set of keys that its table binds is a
/// combination, and so is the one that waits for its command.
pub proof fn lemma_bound_keys_are_combinations(lines: Seq<Seq<char>>)
    ensures
        forall|keys: Set<Key>| #[trigger]
            read_lines(lines).table.contains_key(keys) ==> is_combination(keys),
        read_lines(lines).pending matches Some(keys) ==> is_combination(keys),
    decreases lines.len(),
{
    if lines.len() > 0 {
        lemma_bound_keys_are_combinations(lines.drop_last());
        let before = read_lines(lines.drop_last());
        let line = lines.last();
        let after = read_line(before, line);
        if line_combination(line) is Some {
            assert(combination_of(resolve(tokens_of(line))) == line_combination(line));
        }
    }
}

/// A line that stands for a combination, followed by an indented line, binds the command
/// of the indented line to the combination, in place of a command bound to it before, and
/// leaves nothing waiting.
pub proof fn lemma_binding_read(lines: Seq<Seq<char>>, keys: Seq<char>, command: Seq<char>)
    requires
        keybinding_line(keys),
        command_line(command),
        line_combination(keys) is Some,
    ensures
        read_lines(lines.push(keys).push(command)).table == read_lines(lines).table.insert(
            line_combination(keys)->0,
            command_of(trim(command)),
        ),
        read_lines(lines.push(keys).push(command)).pending is None,
{
    let one = lines.push(keys);
    let two = one.push(command);
    assert(one.drop_last() =~= lines);
    assert(two.drop_last() =~= one);
    assert(read_lines(one) == read_line(read_lines(lines), keys));
    assert(read_lines(two) == read_line(read_lines(one), command));
}

/// A line that begins a combination and stands for none binds nothing, and neither does
/// the line after it, whatever that line is.
pub proof fn lemma_refused_line_binds_nothing(
    lines: Seq<Seq<char>>,
    keys: Seq<char>,
    next: Seq<char>,
)
    requires
        keybinding_line(keys),
        line_combination(keys) is None,
    ensures
        read_lines(lines.push(keys)).table == read_lines(lines).table,
        read_lines(lines.push(keys).push(next)).table == read_lines(lines).table,
{
    let one = lines.push(keys);
    let two = one.push(next);
    assert(one.drop_last() =~= lines);
    assert(two.drop_last() =~= one);
    assert(read_lines(one) == read_line(read_lines(lines), keys));
    assert(read_lines(two) == read_line(read_lines(one), next));
}

/// After a command line nothing waits: a second indented line in a row binds nothing.
pub proof fn lemma_one_command_per_combination(
    lines: Seq<Seq<char>>,
    command: Seq<char>,
    next: Seq<char>,
)
    requires
        command_line(command),
        command_line(next),
    ensures
        read_lines(lines.push(command)).pending is None,
        read_lines(lines.push(command).push(next)) == read_lines(lines.push(command)),
{
    let one = lines.push(command);
    let two = one.push(next);
    assert(one.drop_last() =~= lines);
    assert(two.drop_last() =~= one);
    assert(read_lines(one) == read_line(read_lines(lines), command));
    assert(read_lines(two) == read_line(read_lines(one), next));
}

} // verus!
