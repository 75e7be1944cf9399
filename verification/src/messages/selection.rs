//! Which messages are retained after a merge, told by their places.

use vstd::prelude::*;

use crate::messages;
use crate::messages::merge;
use crate::messages::Message;

verus! {

// Selections.

/// How many of the first `n` places are picked.
pub open spec fn picked_before(picked: spec_fn(int) -> bool, n: int) -> nat
    decreases n,
{
    if n <= 0 {
        0
    } else {
        picked_before(picked, n - 1) + if picked(n - 1) {
            1nat
        } else {
            0
        }
    }
}

/// The messages at the picked places, in order.
pub open spec fn selection(messages: Seq<Message>, picked: spec_fn(int) -> bool) -> Seq<Message>
    decreases messages.len(),
{
    if messages.len() == 0 {
        messages
    } else {
        let before = selection(messages.drop_last(), picked);
        if picked(messages.len() - 1) {
            before.push(messages[messages.len() - 1])
        } else {
            before
        }
    }
}

/// A selection has the message of every picked place, behind those of the picked places before it,
/// and no others.
pub proof fn selections_are_picked(messages: Seq<Message>, picked: spec_fn(int) -> bool)
    ensures
        selection(messages, picked).len() == picked_before(picked, messages.len() as int),
        forall|i: int|
            #![trigger picked(i)]
            0 <= i < messages.len() && picked(i) ==> picked_before(picked, i) < selection(
                messages,
                picked,
            ).len() && selection(messages, picked)[picked_before(picked, i) as int] == messages[i],
    decreases messages.len(),
{
    if messages.len() > 0 {
        let init = messages.drop_last();
        selections_are_picked(init, picked);
        assert forall|i: int|
            #![trigger picked(i)]
            0 <= i < messages.len() && picked(i) implies picked_before(picked, i) < selection(
            messages,
            picked,
        ).len() && selection(messages, picked)[picked_before(picked, i) as int] == messages[i] by {
            if i < init.len() {
                assert(init[i] == messages[i]);
            }
        }
    }
}

proof fn same_selections(
    messages: Seq<Message>,
    others: Seq<Message>,
    one: spec_fn(int) -> bool,
    other: spec_fn(int) -> bool,
)
    requires
        messages == others,
        forall|i: int| #![trigger one(i)] 0 <= i < messages.len() ==> one(i) == other(i),
    ensures
        selection(messages, one) == selection(others, other),
    decreases messages.len(),
{
    if messages.len() > 0 {
        let init = messages.drop_last();
        assert forall|i: int| #![trigger one(i)] 0 <= i < init.len() implies one(i) == other(i) by {
        }
        same_selections(init, init, one, other);
        assert(messages[messages.len() - 1] == others[others.len() - 1]);
    }
}

proof fn nothing_selected(messages: Seq<Message>, picked: spec_fn(int) -> bool)
    requires
        forall|i: int| #![trigger picked(i)] 0 <= i < messages.len() ==> !picked(i),
    ensures
        selection(messages, picked).len() == 0,
    decreases messages.len(),
{
    if messages.len() > 0 {
        let init = messages.drop_last();
        assert forall|i: int| #![trigger picked(i)] 0 <= i < init.len() implies !picked(i) by {
        }
        nothing_selected(init, picked);
        assert(!picked(messages.len() - 1));
    }
}

proof fn all_selected(messages: Seq<Message>, picked: spec_fn(int) -> bool)
    requires
        forall|i: int| #![trigger picked(i)] 0 <= i < messages.len() ==> picked(i),
    ensures
        selection(messages, picked) == messages,
    decreases messages.len(),
{
    if messages.len() > 0 {
        let init = messages.drop_last();
        assert forall|i: int| #![trigger picked(i)] 0 <= i < init.len() implies picked(i) by {
        }
        all_selected(init, picked);
        assert(init.push(messages[messages.len() - 1]) =~= messages);
    }
}

proof fn picked_grow(picked: spec_fn(int) -> bool, m: int, n: int)
    requires
        m <= n,
    ensures
        picked_before(picked, m) <= picked_before(picked, n),
    decreases n - m,
{
    if m < n {
        picked_grow(picked, m, n - 1);
    }
}

proof fn same_picked(one: spec_fn(int) -> bool, other: spec_fn(int) -> bool, n: int)
    requires
        forall|i: int| #![trigger one(i)] 0 <= i < n ==> one(i) == other(i),
    ensures
        picked_before(one, n) == picked_before(other, n),
    decreases n,
{
    if n > 0 {
        same_picked(one, other, n - 1);
        assert(one(n - 1) == other(n - 1));
    }
}

/// Leaving out the first messages of a selection is picking those places only that come behind them.
proof fn later_selected(messages: Seq<Message>, picked: spec_fn(int) -> bool, n: int)
    requires
        0 <= n <= selection(messages, picked).len(),
    ensures
        selection(messages, picked).skip(n) == selection(
            messages,
            |i: int| picked(i) && picked_before(picked, i) >= n,
        ),
    decreases messages.len(),
{
    let later = |i: int| picked(i) && picked_before(picked, i) >= n;
    selections_are_picked(messages, picked);
    if messages.len() > 0 {
        let init = messages.drop_last();
        let last = messages[messages.len() - 1];
        selections_are_picked(init, picked);
        if n <= selection(init, picked).len() {
            later_selected(init, picked, n);
            assert(selection(messages, picked).skip(n) =~= selection(messages, later));
        } else {
            assert forall|i: int| #![trigger later(i)] 0 <= i < messages.len() implies !later(
                i,
            ) by {
                picked_grow(picked, i, messages.len() - 1);
            }
            nothing_selected(messages, later);
            assert(selection(messages, picked).skip(n) =~= selection(messages, later));
        }
    } else {
        assert(selection(messages, picked).skip(n) =~= selection(messages, later));
    }
}

// Places of incoming messages.

/// Whether no earlier one of the `incoming` messages has the content of the `i`th one.
pub open spec fn is_first(incoming: Seq<Message>, i: int) -> bool {
    forall|j: int| 0 <= j < i ==> !(#[trigger] incoming[j]).same(incoming[i])
}

/// How many different contents come first at the `i`th of the `incoming` messages or behind it.
pub open spec fn contents_from(incoming: Seq<Message>, i: int) -> int {
    picked_before(|j: int| is_first(incoming, j), incoming.len() as int) - picked_before(
        |j: int| is_first(incoming, j),
        i,
    )
}

/// Whether the `i`th of the `incoming` messages is to be retained: it is the first one with its
/// content, and of these among the last ones, as many as there can be.
pub open spec fn is_wanted(incoming: Seq<Message>, capacity: usize, i: int) -> bool {
    &&& is_first(incoming, i)
    &&& contents_from(incoming, i) <= capacity
}

/// Whether the `i`th of the `incoming` messages is to be retained and is not.
pub open spec fn is_new(
    messages: Seq<Message>,
    capacity: usize,
    incoming: Seq<Message>,
    i: int,
) -> bool {
    &&& is_wanted(incoming, capacity, i)
    &&& forall|j: int| 0 <= j < messages.len() ==> !(#[trigger] messages[j]).same(incoming[i])
}

/// Whether a message has the content of one of the `incoming` ones that is to be retained.
pub open spec fn has_wanted_content(
    incoming: Seq<Message>,
    capacity: usize,
    message: Message,
) -> bool {
    exists|i: int|
        0 <= i < incoming.len() && is_wanted(incoming, capacity, i) && (
        #[trigger] incoming[i]).same(message)
}

/// Whether the `i`th of the retained `messages` can give way: its content is not that of an incoming
/// one that is to be retained, or a later one of the retained ones has it too.
pub open spec fn can_go(
    messages: Seq<Message>,
    capacity: usize,
    incoming: Seq<Message>,
    i: int,
) -> bool {
    ||| !has_wanted_content(incoming, capacity, messages[i])
    ||| exists|j: int| i < j < messages.len() && (#[trigger] messages[j]).same(messages[i])
}

/// How many of the `incoming` messages are new.
pub open spec fn new_messages(
    messages: Seq<Message>,
    capacity: usize,
    incoming: Seq<Message>,
) -> nat {
    picked_before(|i: int| is_new(messages, capacity, incoming, i), incoming.len() as int)
}

/// Whether the `i`th of the retained `messages` stays: it cannot go, or as many older ones can as
/// there is no room for.
pub open spec fn stays(
    messages: Seq<Message>,
    capacity: usize,
    incoming: Seq<Message>,
    i: int,
) -> bool {
    ||| !can_go(messages, capacity, incoming, i)
    ||| picked_before(|j: int| can_go(messages, capacity, incoming, j), i) >= messages.len()
        + new_messages(messages, capacity, incoming) - capacity
}

// What merging does.

proof fn first_ones(incoming: Seq<Message>)
    ensures
        merge::distinct(incoming) == selection(incoming, |i: int| is_first(incoming, i)),
    decreases incoming.len(),
{
    let picked = |i: int| is_first(incoming, i);
    if incoming.len() > 0 {
        let init = incoming.drop_last();
        let n = incoming.len() - 1;
        let before = |i: int| is_first(init, i);
        first_ones(init);
        assert forall|i: int| #![trigger picked(i)] 0 <= i < init.len() implies picked(i) == before(
            i,
        ) by {
            first_in_part(incoming, i);
        }
        same_selections(init, init, picked, before);
        merge::distinct_meaning(init);
        assert(incoming.last() == incoming[n]);
        assert(messages::retains(merge::distinct(init), incoming[n]) <==> messages::retains(
            init,
            incoming[n],
        ));
        if messages::retains(init, incoming[n]) {
            let i = choose|i: int| 0 <= i < init.len() && (#[trigger] init[i]).same(incoming[n]);
            assert(incoming[i].same(incoming[n]));
            assert(!picked(n));
        } else {
            assert forall|j: int| 0 <= j < n implies !(#[trigger] incoming[j]).same(
                incoming[n],
            ) by {
                assert(init[j] == incoming[j]);
            }
            assert(picked(n));
        }
    }
}

proof fn first_in_part(incoming: Seq<Message>, i: int)
    requires
        0 <= i < incoming.len() - 1,
    ensures
        is_first(incoming, i) == is_first(incoming.drop_last(), i),
{
    let init = incoming.drop_last();
    if is_first(incoming, i) {
        assert forall|j: int| 0 <= j < i implies !(#[trigger] init[j]).same(init[i]) by {
            assert(!incoming[j].same(incoming[i]));
        }
    }
    if is_first(init, i) {
        assert forall|j: int| 0 <= j < i implies !(#[trigger] incoming[j]).same(incoming[i]) by {
            assert(!init[j].same(init[i]));
        }
    }
}

proof fn wanted_ones(capacity: usize, incoming: Seq<Message>)
    ensures
        merge::wanted(capacity, incoming) == selection(
            incoming,
            |i: int| is_wanted(incoming, capacity, i),
        ),
{
    let first = |i: int| is_first(incoming, i);
    let picked = |i: int| is_wanted(incoming, capacity, i);
    first_ones(incoming);
    selections_are_picked(incoming, first);
    let total = picked_before(first, incoming.len() as int);
    if total <= capacity {
        same_selections(incoming, incoming, first, picked);
    } else {
        let n = total - capacity;
        let later = |i: int| first(i) && picked_before(first, i) >= n;
        later_selected(incoming, first, n);
        same_selections(incoming, incoming, later, picked);
    }
}

proof fn missing_ones(
    messages: Seq<Message>,
    incoming: Seq<Message>,
    wanted: spec_fn(int) -> bool,
    picked: spec_fn(int) -> bool,
)
    requires
        forall|i: int|
            #![trigger picked(i)]
            0 <= i < incoming.len() ==> (picked(i) <==> wanted(i) && !messages::retains(
                messages,
                incoming[i],
            )),
    ensures
        merge::missing(messages, selection(incoming, wanted)) == selection(incoming, picked),
    decreases incoming.len(),
{
    if incoming.len() > 0 {
        let init = incoming.drop_last();
        let last = incoming[incoming.len() - 1];
        assert forall|i: int| #![trigger picked(i)] 0 <= i < init.len() implies (picked(i)
            <==> wanted(i) && !messages::retains(messages, init[i])) by {
            assert(init[i] == incoming[i]);
        }
        missing_ones(messages, init, wanted, picked);
        assert(picked(incoming.len() - 1) <==> wanted(incoming.len() - 1) && !messages::retains(
            messages,
            last,
        ));
        if wanted(incoming.len() - 1) {
            let all = selection(incoming, wanted);
            assert(all.drop_last() =~= selection(init, wanted));
            assert(all.last() == last);
        }
    }
}

proof fn new_ones(messages: Seq<Message>, capacity: usize, incoming: Seq<Message>)
    ensures
        merge::missing(messages, merge::wanted(capacity, incoming)) == selection(
            incoming,
            |i: int| is_new(messages, capacity, incoming, i),
        ),
        merge::missing(messages, merge::wanted(capacity, incoming)).len() == new_messages(
            messages,
            capacity,
            incoming,
        ),
{
    let wanted = |i: int| is_wanted(incoming, capacity, i);
    let picked = |i: int| is_new(messages, capacity, incoming, i);
    wanted_ones(capacity, incoming);
    missing_ones(messages, incoming, wanted, picked);
    selections_are_picked(incoming, picked);
}

proof fn without_one(
    messages: Seq<Message>,
    n: int,
    picked: spec_fn(int) -> bool,
    rest: spec_fn(int) -> bool,
)
    requires
        0 <= n < messages.len(),
        !picked(n),
        forall|i: int| #![trigger picked(i)] 0 <= i < n ==> picked(i) == rest(i),
        forall|i: int| #![trigger picked(i)] n < i < messages.len() ==> picked(i) == rest(i - 1),
    ensures
        selection(messages.remove(n), rest) == selection(messages, picked),
    decreases messages.len(),
{
    let init = messages.drop_last();
    let removed = messages.remove(n);
    if n == messages.len() - 1 {
        assert(removed =~= init);
        assert forall|i: int| #![trigger rest(i)] 0 <= i < init.len() implies rest(i) == picked(
            i,
        ) by {
            assert(picked(i) == rest(i));
        }
        same_selections(init, init, rest, picked);
    } else {
        without_one(init, n, picked, rest);
        assert(removed.drop_last() =~= init.remove(n));
        assert(removed[removed.len() - 1] == messages[messages.len() - 1]);
        assert(picked(messages.len() - 1) == rest(removed.len() - 1));
    }
}

proof fn picked_without_one(
    n: int,
    picked: spec_fn(int) -> bool,
    rest: spec_fn(int) -> bool,
    i: int,
    len: int,
)
    requires
        0 <= n < len,
        n < i < len,
        picked(n),
        forall|j: int| #![trigger picked(j)] 0 <= j < n ==> picked(j) == rest(j),
        forall|j: int| #![trigger picked(j)] n < j < len ==> picked(j) == rest(j - 1),
    ensures
        picked_before(picked, i) == picked_before(rest, i - 1) + 1,
    decreases i,
{
    if i == n + 1 {
        same_picked(picked, rest, n);
    } else {
        picked_without_one(n, picked, rest, i - 1, len);
        assert(picked(i - 1) == rest(i - 2));
    }
}

/// Thinning out takes the oldest messages that can give way.
proof fn oldest_go(messages: Seq<Message>, wanted: Seq<Message>, n: int)
    requires
        n <= picked_before(
            |i: int| merge::expendable(messages, wanted, i),
            messages.len() as int,
        ),
    ensures
        merge::thinned(messages, wanted, n) == selection(
            messages,
            |i: int|
                !(merge::expendable(messages, wanted, i) && picked_before(
                    |j: int| merge::expendable(messages, wanted, j),
                    i,
                ) < n),
        ),
    decreases n,
{
    let goes = |i: int| merge::expendable(messages, wanted, i);
    let kept = |i: int| !(goes(i) && picked_before(goes, i) < n);
    let stated = |i: int|
        !(merge::expendable(messages, wanted, i) && picked_before(
            |j: int| merge::expendable(messages, wanted, j),
            i,
        ) < n);
    same_selections(messages, messages, kept, stated);
    if n <= 0 {
        all_selected(messages, kept);
    } else {
        let at = first_picked(goes, messages.len() as int);
        assert(merge::gives_way(messages, wanted, at)) by {
            assert forall|j: int| 0 <= j < at implies !#[trigger] merge::expendable(
                messages,
                wanted,
                j,
            ) by {
                assert(!goes(j));
            }
        }
        merge::one_gives_way(messages, wanted, at);
        let rest = messages.remove(at);
        let goes_then = |i: int| merge::expendable(rest, wanted, i);
        let kept_then = |i: int| !(goes_then(i) && picked_before(goes_then, i) < n - 1);
        assert forall|i: int| #![trigger goes(i)] 0 <= i < at implies goes(i) == goes_then(i) by {
            assert(!goes(i));
            expendable_then(messages, wanted, at, i);
        }
        assert forall|i: int| #![trigger goes(i)] at < i < messages.len() implies goes(i)
            == goes_then(i - 1) by {
            expendable_then(messages, wanted, at, i);
        }
        assert(picked_before(goes_then, rest.len() as int) >= n - 1) by {
            if at < messages.len() - 1 {
                picked_without_one(at, goes, goes_then, messages.len() - 1, messages.len() as int);
                assert(goes(messages.len() - 1) == goes_then(messages.len() - 2));
            } else {
                same_picked(goes, goes_then, at);
            }
        }
        oldest_go(rest, wanted, n - 1);
        let stated_then = |i: int|
            !(merge::expendable(rest, wanted, i) && picked_before(
                |j: int| merge::expendable(rest, wanted, j),
                i,
            ) < n - 1);
        same_selections(rest, rest, kept_then, stated_then);
        none_before(goes, at);
        assert forall|i: int| #![trigger kept(i)] 0 <= i < at implies kept(i) == kept_then(i) by {
            assert(!goes(i));
            assert(goes(i) == goes_then(i));
        }
        assert forall|i: int| #![trigger kept(i)] at < i < messages.len() implies kept(i)
            == kept_then(i - 1) by {
            picked_without_one(at, goes, goes_then, i, messages.len() as int);
            assert(goes(i) == goes_then(i - 1));
        }
        without_one(messages, at, kept, kept_then);
    }
}

proof fn first_picked(picked: spec_fn(int) -> bool, n: int) -> (at: int)
    requires
        picked_before(picked, n) > 0,
    ensures
        0 <= at < n,
        picked(at),
        forall|i: int| #![trigger picked(i)] 0 <= i < at ==> !picked(i),
    decreases n,
{
    if picked_before(picked, n - 1) > 0 {
        first_picked(picked, n - 1)
    } else {
        assert forall|i: int| #![trigger picked(i)] 0 <= i < n - 1 implies !picked(i) by {
            picked_grow(picked, i + 1, n - 1);
        }
        n - 1
    }
}

proof fn none_before(picked: spec_fn(int) -> bool, n: int)
    requires
        forall|i: int| #![trigger picked(i)] 0 <= i < n ==> !picked(i),
    ensures
        picked_before(picked, n) == 0,
    decreases n,
{
    if n > 0 {
        none_before(picked, n - 1);
        assert(!picked(n - 1));
    }
}

proof fn expendable_then(messages: Seq<Message>, wanted: Seq<Message>, at: int, i: int)
    requires
        merge::gives_way(messages, wanted, at),
        0 <= i < messages.len(),
        i != at,
    ensures
        merge::expendable(messages.remove(at), wanted, if i < at {
            i
        } else {
            i - 1
        }) == merge::expendable(messages, wanted, i),
{
    let rest = messages.remove(at);
    let then = if i < at {
        i
    } else {
        i - 1
    };
    assert(rest[then] == messages[i]);
    if merge::comes_again(messages, i) {
        let j = choose|j: int| i < j < messages.len() && (#[trigger] messages[j]).same(messages[i]);
        if i < at {
            assert(!merge::expendable(messages, wanted, i));
        } else {
            assert(rest[j - 1].same(rest[then]));
        }
    }
    if merge::comes_again(rest, then) {
        let j = choose|j: int| then < j < rest.len() && (#[trigger] rest[j]).same(rest[then]);
        if j < at {
            assert(messages[j].same(messages[i]));
        } else {
            assert(messages[j + 1].same(messages[i]));
        }
    }
}

/// Merging messages keeps those that stay, and puts those that are new behind them. The incoming
/// ones to be retained are, of each content, the first one, and of these the last ones, as many as
/// there can be. Those of them that are not retained are new. Where there is no room for them, the
/// oldest ones go whose content is not to be retained or comes again.
pub proof fn merging_keeps_and_adds(messages: Seq<Message>, capacity: usize, incoming: Seq<Message>)
    requires
        messages.len() <= capacity,
    ensures
        merge::combined(messages, capacity, incoming) == selection(
            messages,
            |i: int| stays(messages, capacity, incoming, i),
        ) + selection(incoming, |i: int| is_new(messages, capacity, incoming, i)),
        merge::missing(messages, merge::wanted(capacity, incoming)).len() == new_messages(
            messages,
            capacity,
            incoming,
        ),
{
    let wanted = merge::wanted(capacity, incoming);
    let new = merge::missing(messages, wanted);
    let n = messages.len() + new.len() - capacity;
    let goes = |i: int| merge::expendable(messages, wanted, i);
    let can = |i: int| can_go(messages, capacity, incoming, i);
    let kept = |i: int| stays(messages, capacity, incoming, i);
    let left = |i: int|
        !(merge::expendable(messages, wanted, i) && picked_before(
            |j: int| merge::expendable(messages, wanted, j),
            i,
        ) < n);
    new_ones(messages, capacity, incoming);
    wanted_ones(capacity, incoming);
    assert forall|i: int| #![trigger goes(i)] 0 <= i < messages.len() implies goes(i) == can(i) by {
        wanted_content(capacity, incoming, messages[i]);
    }
    enough_can_go(messages, capacity, incoming);
    oldest_go(messages, wanted, n);
    assert forall|i: int| #![trigger left(i)] 0 <= i < messages.len() implies left(i) == kept(
        i,
    ) by {
        assert(goes(i) == can(i));
        same_picked(goes, can, i);
    }
    same_selections(messages, messages, left, kept);
}

proof fn wanted_content(capacity: usize, incoming: Seq<Message>, message: Message)
    ensures
        messages::retains(merge::wanted(capacity, incoming), message) <==> has_wanted_content(
            incoming,
            capacity,
            message,
        ),
{
    let picked = |i: int| is_wanted(incoming, capacity, i);
    wanted_ones(capacity, incoming);
    selected_content(incoming, picked, message);
}

proof fn selected_content(messages: Seq<Message>, picked: spec_fn(int) -> bool, message: Message)
    ensures
        messages::retains(selection(messages, picked), message) <==> exists|i: int|
            0 <= i < messages.len() && picked(i) && (#[trigger] messages[i]).same(message),
    decreases messages.len(),
{
    if messages.len() > 0 {
        let init = messages.drop_last();
        let n = messages.len() - 1;
        let before = selection(init, picked);
        let all = selection(messages, picked);
        selected_content(init, picked, message);
        if messages::retains(all, message) {
            let k = choose|k: int| 0 <= k < all.len() && (#[trigger] all[k]).same(message);
            if k < before.len() {
                assert(before[k].same(message));
                let i = choose|i: int|
                    0 <= i < init.len() && picked(i) && (#[trigger] init[i]).same(message);
                assert(messages[i].same(message));
            } else {
                assert(messages[n].same(message));
            }
        }
        if exists|i: int|
            0 <= i < messages.len() && picked(i) && (#[trigger] messages[i]).same(message) {
            let i = choose|i: int|
                0 <= i < messages.len() && picked(i) && (#[trigger] messages[i]).same(message);
            if i < n {
                assert(init[i].same(message));
                let k = choose|k: int| 0 <= k < before.len() && (#[trigger] before[k]).same(message);
                assert(all[k].same(message));
            } else {
                assert(all[before.len() as int].same(message));
            }
        }
    }
}

/// As many messages can go as there is no room for.
proof fn enough_can_go(messages: Seq<Message>, capacity: usize, incoming: Seq<Message>)
    requires
        messages.len() <= capacity,
    ensures
        ({
            let wanted = merge::wanted(capacity, incoming);
            picked_before(
                |i: int| merge::expendable(messages, wanted, i),
                messages.len() as int,
            ) >= messages.len() + merge::missing(messages, wanted).len() - capacity
        }),
{
    let wanted = merge::wanted(capacity, incoming);
    let new = merge::missing(messages, wanted);
    let goes = |i: int| merge::expendable(messages, wanted, i);
    let needed = |i: int| !goes(i);
    merge::wanted_meaning(capacity, incoming);
    merge::missing_meaning(messages, wanted);
    let kept = selection(messages, needed);
    selections_are_picked(messages, needed);
    complement(goes, needed, messages.len() as int);
    let all = kept + new;
    assert(messages =~= messages.take(messages.len() as int));
    needed_are_wanted(messages, wanted, messages, needed);
    assert forall|i: int, j: int|
        #![trigger all[i], all[j]]
        0 <= i < j < all.len() implies !all[i].same(all[j]) by {
        if j < kept.len() {
            assert(kept[i] == all[i] && kept[j] == all[j]);
        } else if i < kept.len() {
            let message = new[j - kept.len()];
            assert(all[j] == message);
            assert(new[j - kept.len()].same(message));
            assert(messages::retains(new, message));
            assert(!messages::retains(messages, message));
            if all[i].same(message) {
                assert(kept[i].same(message));
                assert(messages::retains(kept, message));
                selected_content(messages, needed, message);
                let k = choose|k: int|
                    0 <= k < messages.len() && needed(k) && (#[trigger] messages[k]).same(message);
                assert(messages[k].same(message));
            }
        } else {
            assert(all[i] == new[i - kept.len()] && all[j] == new[j - kept.len()]);
        }
    }
    assert forall|i: int| #![trigger all[i]] 0 <= i < all.len() implies messages::retains(
        wanted,
        all[i],
    ) by {
        if i < kept.len() {
            assert(kept[i] == all[i]);
        } else {
            assert(all[i] == new[i - kept.len()]);
            assert(new[i - kept.len()].same(all[i]));
            assert(messages::retains(new, all[i]));
        }
    }
    merge::no_more_than(all, wanted);
}

proof fn complement(one: spec_fn(int) -> bool, other: spec_fn(int) -> bool, n: int)
    requires
        forall|i: int| #![trigger one(i)] other(i) == !one(i),
    ensures
        n >= 0 ==> picked_before(one, n) + picked_before(other, n) == n,
    decreases n,
{
    if n > 0 {
        complement(one, other, n - 1);
        assert(other(n - 1) == !one(n - 1));
    }
}

proof fn needed_are_wanted(
    messages: Seq<Message>,
    wanted: Seq<Message>,
    part: Seq<Message>,
    needed: spec_fn(int) -> bool,
)
    requires
        part.len() <= messages.len(),
        part == messages.take(part.len() as int),
        forall|i: int| #![trigger needed(i)] needed(i) == !merge::expendable(messages, wanted, i),
    ensures
        merge::no_repeats(selection(part, needed)),
        merge::all_among(selection(part, needed), wanted),
    decreases part.len(),
{
    if part.len() > 0 {
        let init = part.drop_last();
        let n = part.len() - 1;
        let before = selection(init, needed);
        let all = selection(part, needed);
        assert(init =~= messages.take(n));
        needed_are_wanted(messages, wanted, init, needed);
        if needed(n) {
            assert(part[n] == messages[n]);
            assert(messages::retains(wanted, messages[n]));
            assert forall|i: int, j: int|
                #![trigger all[i], all[j]]
                0 <= i < j < all.len() implies !all[i].same(all[j]) by {
                if j < before.len() {
                    assert(before[i] == all[i] && before[j] == all[j]);
                } else if all[i].same(all[j]) {
                    assert(before[i] == all[i]);
                    assert(before[i].same(messages[n]));
                    assert(messages::retains(before, messages[n]));
                    selected_content(init, needed, messages[n]);
                    let k = choose|k: int|
                        0 <= k < init.len() && needed(k) && (#[trigger] init[k]).same(messages[n]);
                    assert(init[k] == messages[k]);
                    assert(messages[n].same(messages[k]));
                    assert(merge::comes_again(messages, k));
                    assert(needed(k) == !merge::expendable(messages, wanted, k));
                }
            }
            assert forall|i: int| #![trigger all[i]] 0 <= i < all.len() implies messages::retains(
                wanted,
                all[i],
            ) by {
                if i < before.len() {
                    assert(before[i] == all[i]);
                }
            }
        }
    }
}

// With room for all.

/// With room for all of them, merging messages leaves all retained ones where they are, and puts
/// those with other contents behind them, of each content the first one, in order.
pub proof fn roomy_merging_adds(messages: Seq<Message>, capacity: usize, incoming: Seq<Message>)
    requires
        messages.len() + incoming.len() <= capacity,
    ensures
        ({
            let after = merge::combined(messages, capacity, incoming);
            &&& after.len() >= messages.len()
            &&& forall|i: int|
                #![trigger messages[i]]
                0 <= i < messages.len() ==> after[i] == messages[i]
            &&& forall|i: int|
                0 <= i < incoming.len() ==> messages::retains(after, #[trigger] incoming[i])
            &&& forall|k: int|
                #![trigger after[k]]
                messages.len() <= k < after.len() ==> incoming.contains(after[k])
                    && !messages::retains(messages, after[k])
            &&& forall|k: int, l: int|
                #![trigger after[k], after[l]]
                messages.len() <= k < l < after.len() ==> !after[k].same(after[l])
        }),
{
    merge::distinct_meaning(incoming);
    merge::roomy_merge(messages, capacity, incoming);
    let first = merge::distinct(incoming);
    let new = merge::missing(messages, first);
    let after = merge::combined(messages, capacity, incoming);
    merge::missing_meaning(messages, first);
    missing_among(messages, first);
    distinct_among(incoming);
    assert forall|i: int| 0 <= i < incoming.len() implies messages::retains(
        after,
        #[trigger] incoming[i],
    ) by {
        let message = incoming[i];
        assert(incoming[i].same(message));
        assert(messages::retains(incoming, message));
        assert(messages::retains(first, message));
        if messages::retains(messages, message) {
            let j = choose|j: int| 0 <= j < messages.len() && (#[trigger] messages[j]).same(message);
            assert(after[j].same(message));
        } else {
            assert(messages::retains(new, message));
            let j = choose|j: int| 0 <= j < new.len() && (#[trigger] new[j]).same(message);
            assert(after[messages.len() + j].same(message));
        }
    }
    assert forall|k: int|
        #![trigger after[k]]
        messages.len() <= k < after.len() implies incoming.contains(after[k]) && !messages::retains(
        messages,
        after[k],
    ) by {
        let message = new[k - messages.len()];
        assert(after[k] == message);
        assert(new[k - messages.len()].same(message));
        assert(messages::retains(new, message));
        assert(first.contains(message));
    }
    assert forall|k: int, l: int|
        #![trigger after[k], after[l]]
        messages.len() <= k < l < after.len() implies !after[k].same(after[l]) by {
        assert(after[k] == new[k - messages.len()] && after[l] == new[l - messages.len()]);
    }
}

proof fn missing_among(messages: Seq<Message>, wanted: Seq<Message>)
    ensures
        forall|i: int|
            #![trigger merge::missing(messages, wanted)[i]]
            0 <= i < merge::missing(messages, wanted).len() ==> wanted.contains(
                merge::missing(messages, wanted)[i],
            ),
    decreases wanted.len(),
{
    if wanted.len() > 0 {
        let init = wanted.drop_last();
        let before = merge::missing(messages, init);
        let all = merge::missing(messages, wanted);
        missing_among(messages, init);
        assert forall|i: int| #![trigger all[i]] 0 <= i < all.len() implies wanted.contains(
            all[i],
        ) by {
            if i < before.len() {
                assert(before[i] == all[i]);
                assert(init.contains(before[i]));
                let j = choose|j: int| 0 <= j < init.len() && init[j] == before[i];
                assert(wanted[j] == all[i]);
            } else {
                assert(wanted[wanted.len() - 1] == all[i]);
            }
        }
    }
}

proof fn distinct_among(incoming: Seq<Message>)
    ensures
        forall|message: Message| #[trigger]
            merge::distinct(incoming).contains(message) ==> incoming.contains(message),
    decreases incoming.len(),
{
    if incoming.len() > 0 {
        let init = incoming.drop_last();
        let before = merge::distinct(init);
        let all = merge::distinct(incoming);
        distinct_among(init);
        assert forall|message: Message| #[trigger] all.contains(message) implies incoming.contains(
            message,
        ) by {
            let k = choose|k: int| 0 <= k < all.len() && all[k] == message;
            if k < before.len() {
                assert(before[k] == message);
                assert(before.contains(message));
                let j = choose|j: int| 0 <= j < init.len() && init[j] == message;
                assert(incoming[j] == message);
            } else {
                assert(incoming[incoming.len() - 1] == message);
            }
        }
    }
}

} // verus!
