//! Merging messages into those that are retained, such that merging them again changes nothing.

use vstd::prelude::*;

use crate::messages;
use crate::messages::{Message, MessageRingBuffer};

verus! {

// What merging comes to.

/// `messages` without those whose content came before.
pub open spec fn distinct(messages: Seq<Message>) -> Seq<Message>
    decreases messages.len(),
{
    if messages.len() == 0 {
        messages
    } else {
        let before = distinct(messages.drop_last());
        if messages::retains(before, messages.last()) {
            before
        } else {
            before.push(messages.last())
        }
    }
}

/// The last `capacity` of `messages`.
pub open spec fn window(messages: Seq<Message>, capacity: usize) -> Seq<Message> {
    if messages.len() <= capacity {
        messages
    } else {
        messages.skip(messages.len() - capacity)
    }
}

/// Those of the `incoming` messages that are to be retained: of each content the first one, and of
/// these as many of the last ones as there can be.
pub open spec fn wanted(capacity: usize, incoming: Seq<Message>) -> Seq<Message> {
    window(distinct(incoming), capacity)
}

/// Those of the `wanted` messages that are not retained, in order.
pub open spec fn missing(messages: Seq<Message>, wanted: Seq<Message>) -> Seq<Message>
    decreases wanted.len(),
{
    if wanted.len() == 0 {
        wanted
    } else {
        let before = missing(messages, wanted.drop_last());
        if messages::retains(messages, wanted.last()) {
            before
        } else {
            before.push(wanted.last())
        }
    }
}

/// Whether a later one of `messages` has the content of the `i`th one.
pub open spec fn comes_again(messages: Seq<Message>, i: int) -> bool {
    exists|j: int| i < j < messages.len() && (#[trigger] messages[j]).same(messages[i])
}

/// Whether the `i`th message can give way: it is not wanted, or it comes again.
pub open spec fn expendable(messages: Seq<Message>, wanted: Seq<Message>, i: int) -> bool {
    !messages::retains(wanted, messages[i]) || comes_again(messages, i)
}

/// Whether the `i`th message is the oldest one that can give way.
pub open spec fn gives_way(messages: Seq<Message>, wanted: Seq<Message>, i: int) -> bool {
    &&& 0 <= i < messages.len()
    &&& expendable(messages, wanted, i)
    &&& forall|j: int| 0 <= j < i ==> !#[trigger] expendable(messages, wanted, j)
}

/// `messages` after `n` of them gave way, each time the oldest one that can.
pub open spec fn thinned(messages: Seq<Message>, wanted: Seq<Message>, n: int) -> Seq<Message>
    decreases n,
{
    if n <= 0 {
        messages
    } else {
        let i = choose|i: int| gives_way(messages, wanted, i);
        thinned(messages.remove(i), wanted, n - 1)
    }
}

/// The retained messages, of which there are at most `capacity`, after the `incoming` ones were
/// merged: those that are wanted and missing come behind the others, of which as many give way as
/// there is no room for.
pub open spec fn combined(
    messages: Seq<Message>,
    capacity: usize,
    incoming: Seq<Message>,
) -> Seq<Message> {
    let new = missing(messages, wanted(capacity, incoming));
    thinned(messages, wanted(capacity, incoming), messages.len() + new.len() - capacity) + new
}

// What holds of the parts.

/// Whether no two of `messages` have the same content.
pub open spec fn no_repeats(messages: Seq<Message>) -> bool {
    forall|i: int, j: int|
        #![trigger messages[i], messages[j]]
        0 <= i < j < messages.len() ==> !messages[i].same(messages[j])
}

/// Whether all of `messages` are among `others`, by their content.
pub open spec fn all_among(messages: Seq<Message>, others: Seq<Message>) -> bool {
    forall|i: int|
        #![trigger messages[i]]
        0 <= i < messages.len() ==> messages::retains(others, messages[i])
}

proof fn pushed_retains(messages: Seq<Message>, message: Message, other: Message)
    ensures
        messages::retains(messages.push(message), other) <==> messages::retains(messages, other)
            || message.same(other),
{
    let after = messages.push(message);
    if messages::retains(messages, other) {
        let i = choose|i: int| 0 <= i < messages.len() && (#[trigger] messages[i]).same(other);
        assert(after[i].same(other));
    }
    if message.same(other) {
        assert(after[messages.len() as int].same(other));
    }
    if messages::retains(after, other) {
        let i = choose|i: int| 0 <= i < after.len() && (#[trigger] after[i]).same(other);
        if i < messages.len() {
            assert(messages[i].same(other));
        }
    }
}

proof fn pushed_no_repeats(messages: Seq<Message>, message: Message)
    requires
        no_repeats(messages),
        !messages::retains(messages, message),
    ensures
        no_repeats(messages.push(message)),
{
}

/// Of each content there is one message.
pub proof fn distinct_meaning(messages: Seq<Message>)
    ensures
        no_repeats(distinct(messages)),
        distinct(messages).len() <= messages.len(),
        forall|message: Message|
            #![trigger messages::retains(distinct(messages), message)]
            messages::retains(distinct(messages), message) <==> messages::retains(
                messages,
                message,
            ),
    decreases messages.len(),
{
    if messages.len() > 0 {
        let init = messages.drop_last();
        let last = messages.last();
        distinct_meaning(init);
        if !messages::retains(distinct(init), last) {
            pushed_no_repeats(distinct(init), last);
        }
        assert forall|message: Message|
            #![trigger messages::retains(distinct(messages), message)]
            messages::retains(distinct(messages), message) <==> messages::retains(
                messages,
                message,
            ) by {
            assert(init.push(last) =~= messages);
            pushed_retains(init, last, message);
            pushed_retains(distinct(init), last, message);
            assert(messages::retains(distinct(init), message) <==> messages::retains(init, message));
            if last.same(message) && messages::retains(distinct(init), last) {
                let i = choose|i: int|
                    0 <= i < distinct(init).len() && (#[trigger] distinct(init)[i]).same(last);
                assert(distinct(init)[i].same(message));
            }
        }
    }
}

/// What is wanted has no repeats and can be retained all at once.
pub proof fn wanted_meaning(capacity: usize, incoming: Seq<Message>)
    ensures
        no_repeats(wanted(capacity, incoming)),
        wanted(capacity, incoming).len() <= capacity,
        wanted(capacity, incoming).len() <= incoming.len(),
        all_among(wanted(capacity, incoming), incoming),
        distinct(incoming).len() <= capacity ==> wanted(capacity, incoming) == distinct(incoming),
{
    distinct_meaning(incoming);
    let all = distinct(incoming);
    let some = wanted(capacity, incoming);
    assert forall|i: int| #![trigger some[i]] 0 <= i < some.len() implies messages::retains(
        incoming,
        some[i],
    ) by {
        let at = all.len() - some.len() + i;
        assert(all[at] == some[i]);
        assert(all[at].same(some[i]));
        assert(messages::retains(all, some[i]));
    }
}

/// What is missing is wanted and not retained, and all such messages are.
pub proof fn missing_meaning(messages: Seq<Message>, wanted: Seq<Message>)
    ensures
        missing(messages, wanted).len() <= wanted.len(),
        no_repeats(wanted) ==> no_repeats(missing(messages, wanted)),
        forall|message: Message|
            #![trigger messages::retains(missing(messages, wanted), message)]
            messages::retains(missing(messages, wanted), message) <==> messages::retains(
                wanted,
                message,
            ) && !messages::retains(messages, message),
    decreases wanted.len(),
{
    if wanted.len() > 0 {
        let init = wanted.drop_last();
        let last = wanted.last();
        let before = missing(messages, init);
        missing_meaning(messages, init);
        assert(init.push(last) =~= wanted);
        assert forall|message: Message|
            #![trigger messages::retains(missing(messages, wanted), message)]
            messages::retains(missing(messages, wanted), message) <==> messages::retains(
                wanted,
                message,
            ) && !messages::retains(messages, message) by {
            pushed_retains(init, last, message);
            pushed_retains(before, last, message);
            assert(messages::retains(before, message) <==> messages::retains(init, message)
                && !messages::retains(messages, message));
            if last.same(message) {
                retains_same(messages, last, message);
            }
        }
        if no_repeats(wanted) {
            assert forall|i: int, j: int|
                #![trigger init[i], init[j]]
                0 <= i < j < init.len() implies !init[i].same(init[j]) by {
                assert(wanted[i] == init[i] && wanted[j] == init[j]);
            }
            assert(!messages::retains(init, last)) by {
                if messages::retains(init, last) {
                    let i = choose|i: int| 0 <= i < init.len() && (#[trigger] init[i]).same(last);
                    assert(wanted[i].same(wanted[wanted.len() - 1]));
                }
            }
            assert(!messages::retains(before, last));
            pushed_no_repeats(before, last);
        }
    }
}

proof fn retains_same(messages: Seq<Message>, one: Message, other: Message)
    requires
        one.same(other),
    ensures
        messages::retains(messages, one) <==> messages::retains(messages, other),
{
    if messages::retains(messages, one) {
        let i = choose|i: int| 0 <= i < messages.len() && (#[trigger] messages[i]).same(one);
        assert(messages[i].same(other));
    }
    if messages::retains(messages, other) {
        let i = choose|i: int| 0 <= i < messages.len() && (#[trigger] messages[i]).same(other);
        assert(messages[i].same(one));
    }
}

/// Messages without repeats that are all among others are not more than these.
pub proof fn no_more_than(messages: Seq<Message>, others: Seq<Message>)
    requires
        no_repeats(messages),
        all_among(messages, others),
    ensures
        messages.len() <= others.len(),
    decreases messages.len(),
{
    if messages.len() > 0 {
        let init = messages.drop_last();
        let last = messages[messages.len() - 1];
        assert(messages::retains(others, last));
        let at = choose|j: int| 0 <= j < others.len() && (#[trigger] others[j]).same(last);
        let rest = others.remove(at);
        assert forall|i: int| #![trigger init[i]] 0 <= i < init.len() implies messages::retains(
            rest,
            init[i],
        ) by {
            assert(init[i] == messages[i]);
            let j = choose|j: int| 0 <= j < others.len() && (#[trigger] others[j]).same(messages[i]);
            assert(j != at);
            if j < at {
                assert(rest[j].same(init[i]));
            } else {
                assert(rest[j - 1].same(init[i]));
            }
        }
        assert forall|i: int, j: int|
            #![trigger init[i], init[j]]
            0 <= i < j < init.len() implies !init[i].same(init[j]) by {
            assert(messages[i] == init[i] && messages[j] == init[j]);
        }
        no_more_than(init, rest);
    }
}

/// Where there is no room, some message can give way.
proof fn some_gives_way(messages: Seq<Message>, wanted: Seq<Message>, new: Seq<Message>)
    requires
        no_repeats(new),
        all_among(new, wanted),
        forall|i: int|
            #![trigger new[i]]
            0 <= i < new.len() ==> !messages::retains(messages, new[i]),
        messages.len() + new.len() > wanted.len(),
    ensures
        exists|i: int| gives_way(messages, wanted, i),
{
    if forall|i: int| 0 <= i < messages.len() ==> !#[trigger] expendable(messages, wanted, i) {
        let all = messages + new;
        assert forall|i: int, j: int|
            #![trigger all[i], all[j]]
            0 <= i < j < all.len() implies !all[i].same(all[j]) by {
            if j < messages.len() {
                assert(!expendable(messages, wanted, i));
                assert(!comes_again(messages, i));
                if messages[i].same(messages[j]) {
                    assert(messages[j].same(messages[i]));
                }
            } else if i < messages.len() {
                assert(!messages::retains(messages, new[j - messages.len()]));
                assert(all[i] == messages[i]);
                assert(all[j] == new[j - messages.len()]);
            } else {
                assert(all[i] == new[i - messages.len()] && all[j] == new[j - messages.len()]);
            }
        }
        assert forall|i: int| #![trigger all[i]] 0 <= i < all.len() implies messages::retains(
            wanted,
            all[i],
        ) by {
            if i < messages.len() {
                assert(!expendable(messages, wanted, i));
            } else {
                assert(all[i] == new[i - messages.len()]);
            }
        }
        no_more_than(all, wanted);
    } else {
        let i = choose|i: int| 0 <= i < messages.len() && #[trigger] expendable(messages, wanted, i);
        let _ = oldest_expendable(messages, wanted, i);
    }
}

proof fn oldest_expendable(messages: Seq<Message>, wanted: Seq<Message>, i: int) -> (oldest: int)
    requires
        0 <= i < messages.len(),
        expendable(messages, wanted, i),
    ensures
        gives_way(messages, wanted, oldest),
    decreases i,
{
    if exists|j: int| 0 <= j < i && #[trigger] expendable(messages, wanted, j) {
        let j = choose|j: int| 0 <= j < i && #[trigger] expendable(messages, wanted, j);
        oldest_expendable(messages, wanted, j)
    } else {
        i
    }
}

pub proof fn one_gives_way(messages: Seq<Message>, wanted: Seq<Message>, i: int)
    requires
        gives_way(messages, wanted, i),
    ensures
        i == choose|i: int| gives_way(messages, wanted, i),
{
    let j = choose|i: int| gives_way(messages, wanted, i);
    assert(gives_way(messages, wanted, j));
    if i < j {
        assert(!expendable(messages, wanted, i));
    } else if j < i {
        assert(!expendable(messages, wanted, j));
    }
}

/// A message that gives way takes no wanted content with it.
proof fn giving_way(messages: Seq<Message>, wanted: Seq<Message>, i: int)
    requires
        gives_way(messages, wanted, i),
    ensures
        forall|message: Message|
            #![trigger messages::retains(messages.remove(i), message)]
            messages::retains(messages.remove(i), message) ==> messages::retains(messages, message),
        forall|message: Message|
            #![trigger messages::retains(messages.remove(i), message)]
            messages::retains(messages, message) && messages::retains(wanted, message)
                ==> messages::retains(messages.remove(i), message),
{
    let after = messages.remove(i);
    assert forall|message: Message|
        #![trigger messages::retains(messages.remove(i), message)]
        messages::retains(messages.remove(i), message) implies messages::retains(
        messages,
        message,
    ) by {
        let j = choose|j: int| 0 <= j < after.len() && (#[trigger] after[j]).same(message);
        if j < i {
            assert(messages[j].same(message));
        } else {
            assert(messages[j + 1].same(message));
        }
    }
    assert forall|message: Message|
        #![trigger messages::retains(messages.remove(i), message)]
        messages::retains(messages, message) && messages::retains(
            wanted,
            message,
        ) implies messages::retains(messages.remove(i), message) by {
        let j = choose|j: int| 0 <= j < messages.len() && (#[trigger] messages[j]).same(message);
        if j < i {
            assert(after[j].same(message));
        } else if j > i {
            assert(after[j - 1].same(message));
        } else {
            retains_same(wanted, messages[i], message);
            assert(comes_again(messages, i));
            let k = choose|k: int|
                i < k < messages.len() && (#[trigger] messages[k]).same(messages[i]);
            assert(after[k - 1].same(message));
        }
    }
}

/// Thinning out, as far as there is no room, takes that many messages and no wanted content.
proof fn thinned_meaning(messages: Seq<Message>, wanted: Seq<Message>, new: Seq<Message>, n: int)
    requires
        no_repeats(new),
        all_among(new, wanted),
        forall|i: int|
            #![trigger new[i]]
            0 <= i < new.len() ==> !messages::retains(messages, new[i]),
        n > 0 ==> messages.len() + new.len() - n >= wanted.len(),
    ensures
        thinned(messages, wanted, n).len() == (if n > 0 {
            messages.len() - n
        } else {
            messages.len() as int
        }),
        forall|message: Message|
            #![trigger messages::retains(thinned(messages, wanted, n), message)]
            messages::retains(thinned(messages, wanted, n), message) ==> messages::retains(
                messages,
                message,
            ),
        forall|message: Message|
            #![trigger messages::retains(thinned(messages, wanted, n), message)]
            messages::retains(messages, message) && messages::retains(wanted, message)
                ==> messages::retains(thinned(messages, wanted, n), message),
    decreases n,
{
    if n > 0 {
        some_gives_way(messages, wanted, new);
        let i = choose|i: int| gives_way(messages, wanted, i);
        assert(gives_way(messages, wanted, i));
        let rest = messages.remove(i);
        giving_way(messages, wanted, i);
        assert forall|j: int| #![trigger new[j]] 0 <= j < new.len() implies !messages::retains(
            rest,
            new[j],
        ) by {
            assert(!messages::retains(messages, new[j]));
        }
        thinned_meaning(rest, wanted, new, n - 1);
        assert forall|message: Message|
            #![trigger messages::retains(thinned(messages, wanted, n), message)]
            messages::retains(thinned(messages, wanted, n), message) implies messages::retains(
            messages,
            message,
        ) by {
            assert(messages::retains(thinned(rest, wanted, n - 1), message));
            assert(messages::retains(rest, message));
        }
        assert forall|message: Message|
            #![trigger messages::retains(thinned(messages, wanted, n), message)]
            messages::retains(messages, message) && messages::retains(
                wanted,
                message,
            ) implies messages::retains(thinned(messages, wanted, n), message) by {
            assert(messages::retains(rest, message));
            assert(messages::retains(thinned(rest, wanted, n - 1), message));
        }
    }
}

// Laws.

/// After a merge all wanted messages are retained, and no more than there can be.
pub proof fn wanted_are_retained(messages: Seq<Message>, capacity: usize, incoming: Seq<Message>)
    requires
        messages.len() <= capacity,
    ensures
        all_among(wanted(capacity, incoming), combined(messages, capacity, incoming)),
        combined(messages, capacity, incoming).len() <= capacity,
{
    let wanted = wanted(capacity, incoming);
    let new = missing(messages, wanted);
    let n = messages.len() + new.len() - capacity;
    let kept = thinned(messages, wanted, n);
    let after = combined(messages, capacity, incoming);
    missing_is_fit(messages, capacity, incoming);
    missing_meaning(messages, wanted);
    thinned_meaning(messages, wanted, new, n);
    assert forall|i: int| #![trigger wanted[i]] 0 <= i < wanted.len() implies messages::retains(
        after,
        wanted[i],
    ) by {
        let message = wanted[i];
        assert(wanted[i].same(message));
        assert(messages::retains(wanted, message));
        if messages::retains(messages, message) {
            assert(messages::retains(kept, message));
            let j = choose|j: int| 0 <= j < kept.len() && (#[trigger] kept[j]).same(message);
            assert(after[j].same(message));
        } else {
            assert(messages::retains(new, message));
            let j = choose|j: int| 0 <= j < new.len() && (#[trigger] new[j]).same(message);
            assert(after[kept.len() + j].same(message));
        }
    }
}

proof fn missing_is_fit(messages: Seq<Message>, capacity: usize, incoming: Seq<Message>)
    ensures
        ({
            let wanted = wanted(capacity, incoming);
            let new = missing(messages, wanted);
            &&& no_repeats(new)
            &&& all_among(new, wanted)
            &&& forall|i: int|
                #![trigger new[i]]
                0 <= i < new.len() ==> !messages::retains(messages, new[i])
            &&& new.len() <= wanted.len() <= capacity
            &&& wanted.len() <= incoming.len()
        }),
{
    wanted_meaning(capacity, incoming);
    let wanted = wanted(capacity, incoming);
    let new = missing(messages, wanted);
    missing_meaning(messages, wanted);
    assert forall|i: int| #![trigger new[i]] 0 <= i < new.len() implies messages::retains(
        wanted,
        new[i],
    ) && !messages::retains(messages, new[i]) by {
        assert(new[i].same(new[i]));
        assert(messages::retains(new, new[i]));
    }
}

/// Merging messages whose wanted ones are all retained changes nothing.
pub proof fn retained_change_nothing(messages: Seq<Message>, capacity: usize, incoming: Seq<Message>)
    requires
        messages.len() <= capacity,
        all_among(wanted(capacity, incoming), messages),
    ensures
        combined(messages, capacity, incoming) == messages,
        missing(messages, wanted(capacity, incoming)).len() == 0,
{
    let wanted = wanted(capacity, incoming);
    let new = missing(messages, wanted);
    missing_meaning(messages, wanted);
    if new.len() > 0 {
        let message = new[0];
        assert(new[0].same(message));
        assert(messages::retains(new, message));
        let i = choose|i: int| 0 <= i < wanted.len() && (#[trigger] wanted[i]).same(message);
        assert(messages::retains(messages, wanted[i]));
        retains_same(messages, wanted[i], message);
    }
    assert(messages + new =~= messages);
}

/// Merging the same messages again changes nothing, and none is missing then.
pub proof fn merging_again(messages: Seq<Message>, capacity: usize, incoming: Seq<Message>)
    requires
        messages.len() <= capacity,
    ensures
        ({
            let once = combined(messages, capacity, incoming);
            &&& combined(once, capacity, incoming) == once
            &&& missing(once, wanted(capacity, incoming)).len() == 0
        }),
{
    wanted_are_retained(messages, capacity, incoming);
    retained_change_nothing(combined(messages, capacity, incoming), capacity, incoming);
}

/// With room for all that is missing, it comes behind the retained messages and none gives way.
pub proof fn roomy_merge(messages: Seq<Message>, capacity: usize, incoming: Seq<Message>)
    requires
        messages.len() + distinct(incoming).len() <= capacity,
    ensures
        combined(messages, capacity, incoming) == messages + missing(messages, distinct(incoming)),
{
    missing_meaning(messages, distinct(incoming));
}

/// If no retained message is wanted, the oldest ones give way.
pub proof fn unseen_push_out_the_oldest(
    messages: Seq<Message>,
    capacity: usize,
    incoming: Seq<Message>,
)
    requires
        messages.len() <= capacity,
        forall|i: int|
            #![trigger messages[i]]
            0 <= i < messages.len() ==> !messages::retains(incoming, messages[i]),
    ensures
        combined(messages, capacity, incoming) == window(
            messages + wanted(capacity, incoming),
            capacity,
        ),
{
    let wanted = wanted(capacity, incoming);
    wanted_meaning(capacity, incoming);
    assert forall|i: int| #![trigger messages[i]] 0 <= i < messages.len() implies !messages::retains(
        wanted,
        messages[i],
    ) by {
        if messages::retains(wanted, messages[i]) {
            let j = choose|j: int| 0 <= j < wanted.len() && (#[trigger] wanted[j]).same(messages[i]);
            assert(messages::retains(incoming, wanted[j]));
            retains_same(incoming, wanted[j], messages[i]);
        }
    }
    all_missing(messages, wanted);
    let n = messages.len() + wanted.len() - capacity;
    thinned_oldest(messages, wanted, n);
    assert(combined(messages, capacity, incoming) =~= window(messages + wanted, capacity));
}

proof fn all_missing(messages: Seq<Message>, wanted: Seq<Message>)
    requires
        forall|i: int|
            #![trigger messages[i]]
            0 <= i < messages.len() ==> !messages::retains(wanted, messages[i]),
    ensures
        missing(messages, wanted) == wanted,
    decreases wanted.len(),
{
    if wanted.len() > 0 {
        let init = wanted.drop_last();
        let last = wanted[wanted.len() - 1];
        assert forall|i: int|
            #![trigger messages[i]]
            0 <= i < messages.len() implies !messages::retains(init, messages[i]) by {
            if messages::retains(init, messages[i]) {
                let j = choose|j: int| 0 <= j < init.len() && (#[trigger] init[j]).same(messages[i]);
                assert(wanted[j].same(messages[i]));
            }
        }
        all_missing(messages, init);
        if messages::retains(messages, last) {
            let i = choose|i: int| 0 <= i < messages.len() && (#[trigger] messages[i]).same(last);
            assert(last.same(messages[i]));
            assert(messages::retains(wanted, messages[i]));
        }
        assert(init.push(last) =~= wanted);
    }
}

proof fn thinned_oldest(messages: Seq<Message>, wanted: Seq<Message>, n: int)
    requires
        n <= messages.len(),
        forall|i: int|
            #![trigger messages[i]]
            0 <= i < messages.len() ==> !messages::retains(wanted, messages[i]),
    ensures
        thinned(messages, wanted, n) == (if n > 0 {
            messages.skip(n)
        } else {
            messages
        }),
    decreases n,
{
    if n > 0 {
        assert(!messages::retains(wanted, messages[0]));
        assert(gives_way(messages, wanted, 0));
        one_gives_way(messages, wanted, 0);
        let rest = messages.remove(0);
        assert forall|i: int| #![trigger rest[i]] 0 <= i < rest.len() implies !messages::retains(
            wanted,
            rest[i],
        ) by {
            assert(rest[i] == messages[i + 1]);
        }
        thinned_oldest(rest, wanted, n - 1);
        assert(thinned(messages, wanted, n) =~= messages.skip(n));
    } else {
        assert(messages.skip(0) =~= messages);
    }
}

// Merging.

fn holds(list: &Vec<Message>, message: &Message) -> (res: bool)
    ensures
        res == messages::retains(list@, *message),
{
    for i in 0..list.len()
        invariant
            forall|j: int| 0 <= j < i ==> !(#[trigger] list@[j]).same(*message),
    {
        if list[i].is_same(message) {
            assert(list@[i as int].same(*message));
            return true;
        }
    }
    false
}

fn without_repeats(incoming: &Vec<Message>) -> (res: Vec<Message>)
    ensures
        res@ == distinct(incoming@),
{
    let mut res: Vec<Message> = Vec::new();
    for i in 0..incoming.len()
        invariant
            res@ == distinct(incoming@.take(i as int)),
    {
        assert(incoming@.take(i + 1).drop_last() =~= incoming@.take(i as int));
        assert(incoming@.take(i + 1).last() == incoming@[i as int]);
        if !holds(&res, &incoming[i]) {
            res.push(incoming[i].clone());
        }
    }
    assert(incoming@.take(incoming@.len() as int) =~= incoming@);
    res
}

fn last_of(messages: Vec<Message>, capacity: usize) -> (res: Vec<Message>)
    ensures
        res@ == window(messages@, capacity),
{
    if messages.len() <= capacity {
        return messages;
    }
    let start: usize = messages.len() - capacity;
    let mut res: Vec<Message> = Vec::new();
    for i in start..messages.len()
        invariant
            start == messages@.len() - capacity,
            start <= i <= messages@.len(),
            res@ == messages@.subrange(start as int, i as int),
    {
        res.push(messages[i].clone());
        assert(res@ =~= messages@.subrange(start as int, i + 1));
    }
    assert(res@ =~= messages@.skip(start as int));
    res
}

impl MessageRingBuffer {
    fn missing_of(&self, wanted: &Vec<Message>) -> (res: Vec<Message>)
        ensures
            res@ == missing(self@, wanted@),
    {
        let mut res: Vec<Message> = Vec::new();
        for i in 0..wanted.len()
            invariant
                res@ == missing(self@, wanted@.take(i as int)),
        {
            assert(wanted@.take(i + 1).drop_last() =~= wanted@.take(i as int));
            assert(wanted@.take(i + 1).last() == wanted@[i as int]);
            if !self.contains(&wanted[i]) {
                res.push(wanted[i].clone());
            }
        }
        assert(wanted@.take(wanted@.len() as int) =~= wanted@);
        res
    }

    fn is_expendable(&self, wanted: &Vec<Message>, i: usize) -> (res: bool)
        requires
            i < self@.len(),
        ensures
            res == expendable(self@, wanted@, i as int),
    {
        if !holds(wanted, &self.buf[i]) {
            return true;
        }
        for j in i + 1..self.buf.len()
            invariant
                i < self@.len(),
                messages::retains(wanted@, self@[i as int]),
                forall|k: int|
                    i < k < j ==> !(#[trigger] self@[k]).same(self@[i as int]),
        {
            if self.buf[j].is_same(&self.buf[i]) {
                assert(self@[j as int].same(self@[i as int]));
                assert(comes_again(self@, i as int));
                return true;
            }
        }
        false
    }

    /// Have the oldest message that can give way do so.
    fn give_way(&mut self, wanted: &Vec<Message>)
        requires
            exists|i: int| gives_way(old(self)@, wanted@, i),
        ensures
            final(self).limit() == old(self).limit(),
            final(self)@ == thinned(old(self)@, wanted@, 1),
    {
        let ghost before = self@;
        let ghost oldest = choose|i: int| gives_way(before, wanted@, i);
        let mut i: usize = 0;
        while !self.is_expendable(wanted, i)
            invariant
                self@ == before,
                self.limit() == old(self).limit(),
                gives_way(before, wanted@, oldest),
                i <= oldest < before.len(),
                forall|j: int| 0 <= j < i ==> !#[trigger] expendable(before, wanted@, j),
            decreases before.len() - i,
        {
            assert(i != oldest);
            assert(self.buf.len() == before.len());
            i = i + 1;
        }
        assert(gives_way(before, wanted@, i as int));
        proof {
            one_gives_way(before, wanted@, i as int);
            reveal_with_fuel(thinned, 2);
        }
        let _ = self.buf.remove(i);
    }

    /// Retain the `incoming` messages that are wanted, and return how many were missing. Where there
    /// is no room for them, the oldest ones that can give way do.
    pub fn merge(&mut self, incoming: &Vec<Message>) -> (res: usize)
        requires
            old(self).wf(),
        ensures
            final(self).wf(),
            final(self).limit() == old(self).limit(),
            final(self)@ == combined(old(self)@, old(self).limit(), incoming@),
            res == missing(old(self)@, wanted(old(self).limit(), incoming@)).len(),
            res <= incoming@.len(),
    {
        let ghost before = self@;
        let wanted = last_of(without_repeats(incoming), self.capacity);
        let missing = self.missing_of(&wanted);
        proof {
            missing_is_fit(before, self.capacity, incoming@);
            wanted_are_retained(before, self.capacity, incoming@);
        }
        let ghost n = before.len() + missing@.len() - self.capacity;
        let ghost mut gone: int = 0;
        while self.buf.len() > self.capacity - missing.len()
            invariant
                self.capacity == old(self).limit(),
                missing@.len() <= wanted@.len() <= self.capacity,
                no_repeats(missing@),
                all_among(missing@, wanted@),
                forall|i: int|
                    #![trigger missing@[i]]
                    0 <= i < missing@.len() ==> !messages::retains(self@, missing@[i]),
                0 <= gone,
                self@.len() == before.len() - gone,
                n == before.len() + missing@.len() - self.capacity,
                thinned(before, wanted@, n) == thinned(self@, wanted@, n - gone),
            decreases self@.len(),
        {
            let ghost now = self@;
            proof {
                some_gives_way(now, wanted@, missing@);
                let i = choose|i: int| gives_way(now, wanted@, i);
                giving_way(now, wanted@, i);
                reveal_with_fuel(thinned, 2);
            }
            self.give_way(&wanted);
            proof {
                assert forall|j: int|
                    #![trigger missing@[j]]
                    0 <= j < missing@.len() implies !messages::retains(self@, missing@[j]) by {
                    assert(!messages::retains(now, missing@[j]));
                }
                gone = gone + 1;
            }
        }
        let ghost kept = self@;
        for i in 0..missing.len()
            invariant
                self.capacity == old(self).limit(),
                self@ == kept + missing@.take(i as int),
        {
            self.buf.push_back(missing[i].clone());
            assert(self@ =~= kept + missing@.take(i + 1));
        }
        assert(missing@.take(missing@.len() as int) =~= missing@);
        missing.len()
    }
}

} // verus!
