//! What holds of rooms and routes together.

use vstd::prelude::*;

use crate::room_v1;
use crate::room_v1::state::{PhaseView, RoomView, Step};
use crate::rooms::{
    Origin, RoomCommand, RoomErrorCode, RoomErrorView, RoomEventView, TargetsView,
};

use super::routes::{RouteView, RoutesView};

verus! {

/// Every user who is in a room is in one there is.
pub open spec fn consistent<H>(table: RoutesView<H>) -> bool {
    forall|user: i32| #[trigger]
        table.routes.contains_key(user) ==> table.rooms.contains_key(table.routes[user])
}

/// Whether an event lets someone into the room.
pub open spec fn lets_in(event: RoomEventView) -> bool {
    event is RoomCreated || event is UserJoined
}

/// Whether no one comes in after the room is closed.
pub open spec fn orderly(events: Seq<RoomEventView>) -> bool {
    forall|i: int, j: int|
        0 <= i < j < events.len() && (#[trigger] events[i]) is RoomClosed ==> !lets_in(
            #[trigger] events[j],
        )
}

/// Whether an event changes nothing in the table.
pub open spec fn neutral(event: RoomEventView) -> bool {
    !(lets_in(event) || event is UserLeft || event is RoomClosed)
}

/// Whether all events change nothing in the table.
pub open spec fn all_neutral(events: Seq<RoomEventView>) -> bool {
    forall|i: int| 0 <= i < events.len() ==> neutral(#[trigger] events[i])
}

/// A table without rooms is consistent.
pub proof fn empty_is_consistent<H>()
    ensures
        consistent(RoutesView::<H>::empty()),
{
}

/// Opening a room keeps the table consistent.
pub proof fn opening_is_consistent<H>(table: RoutesView<H>, id: Seq<char>, handle: H)
    requires
        consistent(table),
    ensures
        consistent(RoutesView { rooms: table.rooms.insert(id, handle), ..table }),
{
}

proof fn lemma_front_orderly(events: Seq<RoomEventView>)
    requires
        orderly(events),
        events.len() > 0,
    ensures
        orderly(events.drop_last()),
{
    let front = events.drop_last();
    assert forall|i: int, j: int|
        0 <= i < j < front.len() && (#[trigger] front[i]) is RoomClosed implies !lets_in(
        #[trigger] front[j],
    ) by {
        assert(events[i] is RoomClosed && !lets_in(events[j]));
    }
}

proof fn lemma_closes_last(events: Seq<RoomEventView>)
    requires
        events.len() > 0,
    ensures
        super::routes::closes(events) <==> super::routes::closes(events.drop_last())
            || events.last() is RoomClosed,
{
    let front = events.drop_last();
    assert(events[events.len() - 1] == events.last());
    if super::routes::closes(front) {
        let i = choose|i: int| 0 <= i < front.len() && (#[trigger] front[i]) is RoomClosed;
        assert(events[i] is RoomClosed);
    }
    if super::routes::closes(events) && !(events.last() is RoomClosed) {
        let i = choose|i: int| 0 <= i < events.len() && (#[trigger] events[i]) is RoomClosed;
        assert(front[i] is RoomClosed);
    }
}

/// Dealing with the events of a room keeps the table consistent, and closes no other room. A room
/// that is closed is gone then, and no one is in it.
pub proof fn processing_is_consistent<H>(
    table: RoutesView<H>,
    room: Seq<char>,
    events: Seq<RoomEventView>,
)
    requires
        consistent(table),
        table.rooms.contains_key(room),
        orderly(events),
    ensures
        ({
            let after = table.applied_all(room, events);
            &&& consistent(after)
            &&& after.rooms == if super::routes::closes(events) {
                table.rooms.remove(room)
            } else {
                table.rooms
            }
            &&& super::routes::closes(events) ==> forall|user: i32| #[trigger]
                after.routes.contains_key(user) ==> after.routes[user] != room
        }),
    decreases events.len(),
{
    if events.len() > 0 {
        let front = events.drop_last();
        lemma_front_orderly(events);
        processing_is_consistent(table, room, front);
        lemma_closes_last(events);
        let before = table.applied_all(room, front);
        let after = table.applied_all(room, events);
        if super::routes::closes(front) {
            let i = choose|i: int| 0 <= i < front.len() && (#[trigger] front[i]) is RoomClosed;
            assert(events[i] is RoomClosed);
            assert(!lets_in(events[events.len() - 1]));
            assert(table.rooms.remove(room).remove(room) =~= table.rooms.remove(room));
        }
        assert forall|user: i32| #[trigger] after.routes.contains_key(
            user,
        ) implies after.rooms.contains_key(after.routes[user]) by {
            if before.routes.contains_key(user) {
                assert(before.rooms.contains_key(before.routes[user]));
            }
        }
    }
}

/// In a consistent table no command of a user is lost: it goes to a room there is, or it is refused
/// for a reason that the user can see.
pub proof fn no_route_is_stale<H>(
    table: RoutesView<H>,
    user: i32,
    target: Seq<char>,
    cmd: RoomCommand,
)
    requires
        consistent(table),
    ensures
        match table.routed(Origin::Client { user_id: user }, target, cmd) {
            Ok(RouteView::Existing(id)) => table.rooms.contains_key(id),
            Ok(RouteView::Create(id)) => !table.rooms.contains_key(id),
            Err(err) => err is Business,
        },
{
}

/// A user who is in a room can neither create nor join one.
pub proof fn no_one_is_in_two_rooms<H>(
    table: RoutesView<H>,
    user: i32,
    target: Seq<char>,
    cmd: RoomCommand,
)
    requires
        table.routes.contains_key(user),
        cmd is CreateRoom || cmd is JoinRoom,
    ensures
        table.routed(Origin::Client { user_id: user }, target, cmd) == Err::<
            RouteView,
            RoomErrorView,
        >(
            RoomErrorView::Business {
                code: RoomErrorCode::AlreadyInRoom,
                msg: "already in room"@,
            },
        ),
{
}

/// A user who has joined a room can go on at once: any other command goes there.
pub proof fn joined_user_is_routed<H>(
    table: RoutesView<H>,
    room: Seq<char>,
    event: RoomEventView,
    target: Seq<char>,
    cmd: RoomCommand,
)
    requires
        table.rooms.contains_key(room),
        lets_in(event),
        !(cmd is CreateRoom),
        !(cmd is JoinRoom),
    ensures
        ({
            let user = match event {
                RoomEventView::RoomCreated { host, .. } => host,
                RoomEventView::UserJoined { user, .. } => user.id,
                _ => 0,
            };
            table.applied(room, event).routed(Origin::Client { user_id: user }, target, cmd) == Ok::<
                RouteView,
                RoomErrorView,
            >(RouteView::Existing(room))
        }),
{
}

/// What is told of one event stays told, whatever other events come after it.
proof fn lemma_deliveries_grow(
    routes: Map<i32, Seq<char>>,
    room: Seq<char>,
    events: Seq<RoomEventView>,
    i: int,
    user: i32,
)
    requires
        0 <= i < events.len(),
        super::routes::receivers(routes, room, events[i]).contains(user),
        events.len() <= usize::MAX,
    ensures
        super::routes::deliveries(routes, room, events).contains((user, i as usize)),
    decreases events.len(),
{
    let all = super::routes::deliveries(routes, room, events);
    let front = super::routes::deliveries(routes, room, events.drop_last());
    let last = super::routes::receivers(routes, room, events.last());
    if i < events.len() - 1 {
        assert(events.drop_last()[i] == events[i]);
        lemma_deliveries_grow(routes, room, events.drop_last(), i, user);
        let k = front.index_of((user, i as usize));
        assert(all[k] == (user, i as usize));
    } else {
        let k = last.index_of(user);
        assert(all[front.len() + k] == (user, i as usize));
    }
}

/// Everyone in a room hears of what happens in it, and of its own leaving too: those who are in the
/// room when the events are dealt with hear of every event but relays and the closing of the room.
pub proof fn members_hear_of_events(
    routes: Map<i32, Seq<char>>,
    room: Seq<char>,
    events: Seq<RoomEventView>,
    i: int,
    user: i32,
)
    requires
        routes.dom().finite(),
        routes.contains_key(user),
        routes[user] == room,
        0 <= i < events.len() <= usize::MAX,
        super::routes::is_observed(events[i]),
    ensures
        super::routes::deliveries(routes, room, events).contains((user, i as usize)),
{
    super::routes::lemma_members(routes, room, user);
    let there = super::routes::members(routes, room);
    let k = there.index_of(user);
    assert(super::routes::receivers(routes, room, events[i])[k] == user);
    lemma_deliveries_grow(routes, room, events, i, user);
}

/// Who comes into a room hears of it.
pub proof fn newcomers_hear_of_themselves(
    routes: Map<i32, Seq<char>>,
    room: Seq<char>,
    events: Seq<RoomEventView>,
    i: int,
)
    requires
        0 <= i < events.len() <= usize::MAX,
        lets_in(events[i]),
    ensures
        ({
            let user = match events[i] {
                RoomEventView::RoomCreated { host, .. } => host,
                RoomEventView::UserJoined { user, .. } => user.id,
                _ => 0,
            };
            super::routes::deliveries(routes, room, events).contains((user, i as usize))
        }),
{
    let user = match events[i] {
        RoomEventView::RoomCreated { host, .. } => host,
        RoomEventView::UserJoined { user, .. } => user.id,
        _ => 0,
    };
    let there = super::routes::members(routes, room);
    assert(super::routes::receivers(routes, room, events[i])[there.len() as int] == user);
    lemma_deliveries_grow(routes, room, events, i, user);
}

/// What is relayed to some users is told to no one else.
pub proof fn relays_reach_their_targets_only(
    routes: Map<i32, Seq<char>>,
    room: Seq<char>,
    events: Seq<RoomEventView>,
    k: int,
)
    requires
        events.len() <= usize::MAX,
        0 <= k < super::routes::deliveries(routes, room, events).len(),
    ensures
        ({
            let (user, i) = super::routes::deliveries(routes, room, events)[k];
            &&& i < events.len()
            &&& super::routes::receivers(routes, room, events[i as int]).contains(user)
            &&& events[i as int] matches RoomEventView::RelayTouches {
                targets: TargetsView::Specific(ids),
                ..
            } ==> ids.contains(user)
            &&& events[i as int] matches RoomEventView::RelayJudges {
                targets: TargetsView::Specific(ids),
                ..
            } ==> ids.contains(user)
            &&& !(events[i as int] is RoomClosed)
        }),
    decreases events.len(),
{
    let all = super::routes::deliveries(routes, room, events);
    if events.len() > 0 {
        let front = super::routes::deliveries(routes, room, events.drop_last());
        let last = super::routes::receivers(routes, room, events.last());
        if k < front.len() {
            relays_reach_their_targets_only(routes, room, events.drop_last(), k);
            assert(all[k] == front[k]);
            assert(events.drop_last()[front[k].1 as int] == events[front[k].1 as int]);
        } else {
            assert(all[k] == (last[k - front.len()], (events.len() - 1) as usize));
            assert(last.contains(last[k - front.len()]));
        }
    }
}

proof fn lemma_applied_concat<H>(
    table: RoutesView<H>,
    room: Seq<char>,
    a: Seq<RoomEventView>,
    b: Seq<RoomEventView>,
)
    ensures
        table.applied_all(room, a + b) == table.applied_all(room, a).applied_all(room, b),
    decreases b.len(),
{
    if b.len() == 0 {
        assert(a + b =~= a);
    } else {
        assert((a + b).drop_last() =~= a + b.drop_last());
        lemma_applied_concat(table, room, a, b.drop_last());
    }
}

proof fn lemma_neutral<H>(table: RoutesView<H>, room: Seq<char>, events: Seq<RoomEventView>)
    requires
        all_neutral(events),
    ensures
        table.applied_all(room, events) == table,
        !super::routes::closes(events),
    decreases events.len(),
{
    if events.len() > 0 {
        let front = events.drop_last();
        assert forall|i: int| 0 <= i < front.len() implies neutral(#[trigger] front[i]) by {
            assert(neutral(events[i]));
        }
        lemma_neutral(table, room, front);
        assert(neutral(events[events.len() - 1]));
        lemma_closes_last(events);
    }
}

proof fn lemma_closes_concat(a: Seq<RoomEventView>, b: Seq<RoomEventView>)
    ensures
        super::routes::closes(a + b) <==> super::routes::closes(a) || super::routes::closes(b),
{
    let both = a + b;
    if super::routes::closes(a) {
        let i = choose|i: int| 0 <= i < a.len() && (#[trigger] a[i]) is RoomClosed;
        assert(both[i] is RoomClosed);
    }
    if super::routes::closes(b) {
        let i = choose|i: int| 0 <= i < b.len() && (#[trigger] b[i]) is RoomClosed;
        assert(both[a.len() + i] is RoomClosed);
    }
    if super::routes::closes(both) {
        let i = choose|i: int| 0 <= i < both.len() && (#[trigger] both[i]) is RoomClosed;
        if i < a.len() {
            assert(a[i] is RoomClosed);
        } else {
            assert(b[i - a.len()] is RoomClosed);
        }
    }
}

/// A room and the table agree on who is in the room.
pub open spec fn agree<H>(table: RoutesView<H>, room: RoomView) -> bool {
    forall|user: i32| #[trigger]
        room.in_room(user) <==> table.routes.contains_key(user) && table.routes[user] == room.id
}

/// A room and the table agree still, unless the room is closed, and no other room is touched.
pub open spec fn agree_after<H>(
    before: RoutesView<H>,
    room: RoomView,
    after_room: RoomView,
    events: Seq<RoomEventView>,
) -> bool {
    let after = before.applied_all(room.id, events);
    &&& after_room.id == room.id
    &&& !super::routes::closes(events) ==> agree(after, after_room)
    &&& forall|user: i32|
        #![trigger after.routes.contains_key(user)]
        #![trigger before.routes.contains_key(user)]
        (before.routes.contains_key(user) && before.routes[user] != room.id)
            == (after.routes.contains_key(user) && after.routes[user] != room.id) && (
        before.routes.contains_key(user) && before.routes[user] != room.id ==> after.routes[user]
            == before.routes[user])
}

proof fn lemma_agree_neutral<H>(
    table: RoutesView<H>,
    room: RoomView,
    after_room: RoomView,
    events: Seq<RoomEventView>,
)
    requires
        agree(table, room),
        all_neutral(events),
        after_room.id == room.id,
        forall|user: i32| #[trigger] after_room.in_room(user) == room.in_room(user),
    ensures
        agree_after(table, room, after_room, events),
{
    lemma_neutral(table, room.id, events);
}

proof fn lemma_advanced_neutral(room: RoomView)
    ensures
        all_neutral(room.advanced().events),
        room.advanced().room.id == room.id,
        room.advanced().room.users == room.users,
        room.advanced().room.monitors == room.monitors,
{
    room_v1::laws::advanced_is_sound(room);
}

/// What leaving does to the table. If the room closes, no one is routed to it.
proof fn lemma_evicted_agrees<H>(
    table: RoutesView<H>,
    room: RoomView,
    user: i32,
    pick: Option<usize>,
)
    requires
        table.routes.contains_key(user) ==> table.routes[user] == room.id,
    ensures
        ({
            let step = room.evicted(user, pick);
            let after = table.applied_all(room.id, step.events);
            &&& step.room.id == room.id
            &&& after.routes == if super::routes::closes(step.events) {
                super::routes::routes_without(table.routes, room.id)
            } else {
                table.routes.remove(user)
            }
            &&& forall|other: i32| #[trigger]
                step.room.in_room(other) <==> room.in_room(other) && other != user
        }),
{
    let left = room.without(user);
    let hosted = if room.is_host(user) {
        left.with_host(user, left.drawn_player(pick))
    } else {
        Step { room: left, events: Seq::empty() }
    };
    let told = seq![
        RoomEventView::UserLeft { room_id: room.id, user, name: room.name_of(user) },
    ];
    let gone = table.applied(room.id, told[0]);
    assert(told.drop_last() =~= Seq::empty());
    assert(table.applied_all(room.id, told.drop_last()) == table);
    assert(table.applied_all(room.id, told) == gone);
    assert(all_neutral(hosted.events));
    lemma_applied_concat(table, room.id, told, hosted.events);
    lemma_neutral(gone, room.id, hosted.events);
    let head = told + hosted.events;
    assert(table.applied_all(room.id, head) == gone);
    lemma_closes_concat(told, hosted.events);
    assert(!super::routes::closes(told));
    lemma_advanced_neutral(hosted.room);
    if hosted.room.users.dom().is_empty() {
        let closing = seq![RoomEventView::RoomClosed { room_id: room.id }];
        lemma_applied_concat(table, room.id, head, closing);
        assert(closing.drop_last() =~= Seq::empty());
        assert(gone.applied_all(room.id, closing.drop_last()) == gone);
        assert(gone.applied_all(room.id, closing) == gone.closed(room.id));
        lemma_closes_concat(head, closing);
        assert(closing[0] is RoomClosed);
        assert(super::routes::routes_without(gone.routes, room.id)
            =~= super::routes::routes_without(table.routes, room.id));
    } else {
        let next = hosted.room.advanced().events;
        lemma_applied_concat(table, room.id, head, next);
        lemma_neutral(gone, room.id, next);
        lemma_closes_concat(head, next);
    }
    let step = room.evicted(user, pick);
    assert forall|other: i32| #[trigger] step.room.in_room(other) <==> room.in_room(other) && other
        != user by {
        assert(left.in_room(other) <==> room.in_room(other) && other != user);
    }
}

proof fn lemma_agree_evicted<H>(table: RoutesView<H>, room: RoomView, user: i32, pick: Option<usize>)
    requires
        agree(table, room),
        room.in_room(user),
    ensures
        agree_after(table, room, room.evicted(user, pick).room, room.evicted(user, pick).events),
{
    lemma_evicted_agrees(table, room, user, pick);
    let step = room.evicted(user, pick);
    let after = table.applied_all(room.id, step.events);
    if !super::routes::closes(step.events) {
        assert forall|other: i32| #[trigger] step.room.in_room(other) <==> after.routes.contains_key(
            other,
        ) && after.routes[other] == room.id by {
            assert(room.in_room(other) <==> table.routes.contains_key(other)
                && table.routes[other] == room.id);
        }
    }
}

/// What the leaving of several users does to the table.
proof fn lemma_agree_evicted_all<H>(
    table: RoutesView<H>,
    room: RoomView,
    users: Seq<i32>,
    picks: Seq<Option<usize>>,
)
    requires
        agree(table, room),
        forall|i: int| 0 <= i < users.len() ==> room.in_room(#[trigger] users[i]),
    ensures
        agree_after(
            table,
            room,
            room.evicted_all(users, picks).room,
            room.evicted_all(users, picks).events,
        ),
    decreases users.len(),
{
    if users.len() == 0 {
        lemma_agree_neutral(table, room, room, Seq::empty());
    } else {
        let front = users.drop_last();
        let user = users.last();
        assert forall|i: int| 0 <= i < front.len() implies room.in_room(#[trigger] front[i]) by {
            assert(room.in_room(users[i]));
        }
        lemma_agree_evicted_all(table, room, front, picks.drop_last());
        let before = room.evicted_all(front, picks.drop_last());
        let mid = table.applied_all(room.id, before.events);
        let last = before.room.evicted(user, picks.last());
        let after = mid.applied_all(room.id, last.events);
        lemma_applied_concat(table, room.id, before.events, last.events);
        lemma_closes_concat(before.events, last.events);
        assert(room.in_room(users[users.len() - 1]));
        assert(table.routes.contains_key(user) && table.routes[user] == room.id);
        lemma_evicted_agrees(mid, before.room, user, picks.last());
        if !super::routes::closes(before.events + last.events) {
            assert forall|other: i32| #[trigger] last.room.in_room(
                other,
            ) <==> after.routes.contains_key(other) && after.routes[other] == room.id by {
                assert(before.room.in_room(other) <==> mid.routes.contains_key(other)
                    && mid.routes[other] == room.id);
            }
        }
        assert forall|other: i32|
            #![trigger after.routes.contains_key(other)]
            #![trigger table.routes.contains_key(other)]
            (table.routes.contains_key(other) && table.routes[other] != room.id)
                == (after.routes.contains_key(other) && after.routes[other] != room.id) && (
            table.routes.contains_key(other) && table.routes[other] != room.id
                ==> after.routes[other] == table.routes[other]) by {
            assert((table.routes.contains_key(other) && table.routes[other] != room.id) == (
            mid.routes.contains_key(other) && mid.routes[other] != room.id));
        }
    }
}

proof fn lemma_agree_more<H>(
    table: RoutesView<H>,
    room: RoomView,
    mid: RoomView,
    after: RoomView,
    events: Seq<RoomEventView>,
    more: Seq<RoomEventView>,
)
    requires
        agree_after(table, room, mid, events),
        all_neutral(more),
        after.id == room.id,
        forall|user: i32| #[trigger] after.in_room(user) == mid.in_room(user),
    ensures
        agree_after(table, room, after, events + more),
{
    lemma_applied_concat(table, room.id, events, more);
    lemma_neutral(table.applied_all(room.id, events), room.id, more);
    lemma_closes_concat(events, more);
    let t = table.applied_all(room.id, events);
    if !super::routes::closes(events + more) {
        assert forall|user: i32| #[trigger] after.in_room(user) <==> t.routes.contains_key(user)
            && t.routes[user] == after.id by {
            assert(after.in_room(user) == mid.in_room(user));
        }
    }
}

proof fn lemma_agree_ticked<H>(
    table: RoutesView<H>,
    room: RoomView,
    now: u64,
    picks: Seq<Option<usize>>,
)
    requires
        agree(table, room),
        room.users.dom().finite(),
        room.monitors.dom().finite(),
    ensures
        agree_after(table, room, room.ticked(now, picks).room, room.ticked(now, picks).events),
{
    let flushed = room.flushed();
    let after = room.ticked(now, picks);
    assert(all_neutral(flushed.events));
    assert forall|user: i32| #[trigger] flushed.room.in_room(user) <==> table.routes.contains_key(
        user,
    ) && table.routes[user] == flushed.room.id by {
        assert(room.in_room(user) <==> flushed.room.in_room(user));
    }
    match flushed.room.phase {
        PhaseView::WaitForReady { started, deadline: Some(deadline) } if now >= deadline => {
            let unready = flushed.room.not_ready(started);
            assert forall|i: int| 0 <= i < unready.len() implies flushed.room.in_room(
                #[trigger] unready[i],
            ) by {
                lemma_unready_in_room(flushed.room, started, i);
            }
            lemma_agree_evicted_all(table, flushed.room, unready, picks);
            let evicted = flushed.room.evicted_all(unready, picks);
            lemma_applied_concat(table, room.id, flushed.events, evicted.events);
            lemma_neutral(table, room.id, flushed.events);
            lemma_closes_concat(flushed.events, evicted.events);
            let events = flushed.events + evicted.events;
            assert(agree_after(table, room, evicted.room, events));
            if evicted.room.phase is WaitForReady {
                lemma_advanced_neutral(evicted.room);
                let next = evicted.room.advanced();
                assert forall|user: i32| #[trigger] next.room.in_room(user) == evicted.room.in_room(
                    user,
                ) by {}
                lemma_agree_more(table, room, evicted.room, next.room, events, next.events);
            }
        },
        _ => {
            assert forall|user: i32| #[trigger] after.room.in_room(user) == room.in_room(user) by {}
            lemma_agree_neutral(table, room, after.room, after.events);
        },
    }
}

/// Who has to leave for not being ready is in the room.
proof fn lemma_unready_in_room(room: RoomView, started: Set<i32>, i: int)
    requires
        0 <= i < room.not_ready(started).len(),
        room.users.dom().finite(),
        room.monitors.dom().finite(),
    ensures
        room.in_room(room.not_ready(started)[i]),
{
    let players = room_v1::state::ids_in_order(room.users.dom());
    let watchers = room_v1::state::ids_in_order(room.monitors.dom());
    let a = RoomView::unready(players, started);
    let b = RoomView::unready(watchers, started);
    crate::binary::map::lemma_sorted_keys(room.users.dom());
    crate::binary::map::lemma_sorted_keys(room.monitors.dom());
    let id = room.not_ready(started)[i];
    if i < a.len() {
        assert(a.contains(id));
        super::routes::lemma_filter_has(players, room_v1::state::outside(started), id);
        assert(players.to_set().contains(id));
    } else {
        assert(b[i - a.len()] == id);
        assert(b.contains(id));
        super::routes::lemma_filter_has(watchers, room_v1::state::outside(started), id);
        assert(watchers.to_set().contains(id));
    }
}

/// What a command does, a room and the table agree on who is in the room, unless the room is
/// closed, and users in other rooms stay where they are.
pub proof fn rooms_and_routes_agree<H>(
    table: RoutesView<H>,
    room: RoomView,
    origin: Origin,
    cmd: RoomCommand,
    picks: Seq<Option<usize>>,
)
    requires
        agree(table, room),
        room_v1::laws::sound(room),
        (cmd is CreateRoom || cmd is JoinRoom) && (origin matches Origin::Client { user_id }
            ==> !table.routes.contains_key(user_id)) || !(cmd is CreateRoom || cmd is JoinRoom),
    ensures
        agree_after(
            table,
            room,
            room.told(origin, cmd, picks).room,
            room.told(origin, cmd, picks).events,
        ),
{
    let out = room.told(origin, cmd, picks);
    match (cmd, origin) {
        (RoomCommand::Tick { now }, _) => {
            lemma_agree_ticked(table, room, now, picks);
        },
        (RoomCommand::UserDangleExpired { user_id }, _) => {
            if room.absent.contains(user_id) {
                assert(room.in_room(user_id));
                lemma_agree_evicted(table, room, user_id, picks[0]);
            } else {
                lemma_agree_neutral(table, room, out.room, out.events);
            }
        },
        (RoomCommand::LeaveRoom, Origin::Client { user_id }) => {
            if room.in_room(user_id) {
                lemma_agree_evicted(table, room, user_id, picks[0]);
            } else {
                lemma_agree_neutral(table, room, out.room, out.events);
            }
        },
        (RoomCommand::AdminKick { user_id }, Origin::System) => {
            if room.in_room(user_id) {
                lemma_agree_evicted(table, room, user_id, picks[0]);
            } else {
                lemma_agree_neutral(table, room, out.room, out.events);
            }
        },
        (RoomCommand::CreateRoom { .. }, Origin::Client { user_id }) => {
            lemma_agree_entered(table, room, user_id, out.room, out.events);
        },
        (RoomCommand::JoinRoom { monitor, .. }, Origin::Client { user_id }) => {
            if room.join_refusal(user_id, monitor) is None {
                lemma_agree_entered(table, room, user_id, out.room, out.events);
            } else {
                lemma_agree_neutral(table, room, out.room, out.events);
            }
        },
        _ => {
            lemma_told_neutral(room, origin, cmd, picks);
            lemma_agree_neutral(table, room, out.room, out.events);
        },
    }
}

proof fn lemma_agree_entered<H>(
    table: RoutesView<H>,
    room: RoomView,
    user: i32,
    after_room: RoomView,
    events: Seq<RoomEventView>,
)
    requires
        agree(table, room),
        !table.routes.contains_key(user),
        after_room.id == room.id,
        forall|other: i32| #[trigger]
            after_room.in_room(other) <==> room.in_room(other) || other == user,
        events.len() == 1,
        match events[0] {
            RoomEventView::RoomCreated { host, .. } => host == user,
            RoomEventView::UserJoined { user: info, .. } => info.id == user,
            _ => false,
        },
    ensures
        agree_after(table, room, after_room, events),
{
    let after = table.applied_all(room.id, events);
    assert(events.drop_last() =~= Seq::empty());
    assert(table.applied_all(room.id, events.drop_last()) == table);
    assert(after.routes == table.routes.insert(user, room.id));
    assert forall|other: i32| #[trigger] after_room.in_room(other) <==> after.routes.contains_key(
        other,
    ) && after.routes[other] == room.id by {
        assert(room.in_room(other) <==> table.routes.contains_key(other) && table.routes[other]
            == room.id);
    }
}

/// Every other command changes nothing in the table, and no one comes or goes.
proof fn lemma_told_neutral(
    room: RoomView,
    origin: Origin,
    cmd: RoomCommand,
    picks: Seq<Option<usize>>,
)
    requires
        !(cmd is Tick),
        !(cmd is UserDangleExpired),
        origin is Client ==> !(cmd is LeaveRoom || cmd is CreateRoom || cmd is JoinRoom),
        origin is System ==> !(cmd is AdminKick),
    ensures
        all_neutral(room.told(origin, cmd, picks).events),
        room.told(origin, cmd, picks).room.id == room.id,
        forall|user: i32| #[trigger]
            room.told(origin, cmd, picks).room.in_room(user) == room.in_room(user),
{
    match (cmd, origin) {
        (RoomCommand::RequestStart, Origin::Client { user_id }) => {
            lemma_advanced_neutral(
                RoomView {
                    phase: PhaseView::WaitForReady {
                        started: Set::empty().insert(user_id),
                        deadline: None,
                    },
                    game_time: Map::empty(),
                    ..room
                },
            );
        },
        (RoomCommand::Ready, Origin::Client { user_id }) => {
            if let PhaseView::WaitForReady { started, deadline } = room.phase {
                lemma_advanced_neutral(
                    RoomView {
                        phase: PhaseView::WaitForReady {
                            started: started.insert(user_id),
                            deadline,
                        },
                        ..room
                    },
                );
            }
        },
        (RoomCommand::Abort, Origin::Client { user_id }) => {
            lemma_abort_neutral(room, user_id);
        },
        (RoomCommand::RecordFetched { user_id, record_id, record }, Origin::System) => {
            let taken = RoomView { inflight: room.inflight.remove(user_id), ..room };
            lemma_abort_neutral(taken, user_id);
            if let (Ok(record), PhaseView::Playing { results, aborted }) = (record, taken.phase) {
                lemma_advanced_neutral(
                    RoomView {
                        phase: PhaseView::Playing {
                            results: results.insert(user_id, record),
                            aborted,
                        },
                        ..taken
                    },
                );
            }
        },
        _ => {},
    }
}

proof fn lemma_abort_neutral(room: RoomView, user: i32)
    ensures
        all_neutral(room.with_abort(user).events),
        room.with_abort(user).room.id == room.id,
        room.with_abort(user).room.users == room.users,
        room.with_abort(user).room.monitors == room.monitors,
{
    if let PhaseView::Playing { results, aborted } = room.phase {
        lemma_advanced_neutral(
            RoomView {
                phase: PhaseView::Playing { results, aborted: aborted.insert(user) },
                ..room.without_play_of(user)
            },
        );
    }
}

/// Whether the events let no one in.
pub open spec fn lets_no_one_in(events: Seq<RoomEventView>) -> bool {
    forall|i: int| 0 <= i < events.len() ==> !lets_in(#[trigger] events[i])
}

proof fn lemma_evicted_lets_no_one_in(room: RoomView, user: i32, pick: Option<usize>)
    ensures
        lets_no_one_in(room.evicted(user, pick).events),
{
    let left = room.without(user);
    let hosted = if room.is_host(user) {
        left.with_host(user, left.drawn_player(pick))
    } else {
        Step { room: left, events: Seq::empty() }
    };
    lemma_advanced_neutral(hosted.room);
    let head = seq![
        RoomEventView::UserLeft { room_id: room.id, user, name: room.name_of(user) },
    ] + hosted.events;
    let next = hosted.room.advanced().events;
    let events = room.evicted(user, pick).events;
    assert forall|i: int| 0 <= i < events.len() implies !lets_in(#[trigger] events[i]) by {
        if i < head.len() {
            assert(events[i] == head[i]);
        } else if !hosted.room.users.dom().is_empty() {
            assert(events[i] == next[i - head.len()]);
            assert(neutral(next[i - head.len()]));
        }
    }
}

proof fn lemma_evicted_all_lets_no_one_in(
    room: RoomView,
    users: Seq<i32>,
    picks: Seq<Option<usize>>,
)
    ensures
        lets_no_one_in(room.evicted_all(users, picks).events),
    decreases users.len(),
{
    if users.len() > 0 {
        let before = room.evicted_all(users.drop_last(), picks.drop_last());
        lemma_evicted_all_lets_no_one_in(room, users.drop_last(), picks.drop_last());
        lemma_evicted_lets_no_one_in(before.room, users.last(), picks.last());
    }
}

/// A room lets no one in after it has closed.
pub proof fn rooms_are_orderly(
    room: RoomView,
    origin: Origin,
    cmd: RoomCommand,
    picks: Seq<Option<usize>>,
)
    ensures
        orderly(room.told(origin, cmd, picks).events),
{
    match (cmd, origin) {
        (RoomCommand::Tick { now }, _) => {
            let flushed = room.flushed();
            assert(all_neutral(flushed.events));
            if let PhaseView::WaitForReady { started, deadline: Some(deadline) } =
                flushed.room.phase {
                let unready = flushed.room.not_ready(started);
                lemma_evicted_all_lets_no_one_in(flushed.room, unready, picks);
                let evicted = flushed.room.evicted_all(unready, picks);
                lemma_advanced_neutral(evicted.room);
                let events = flushed.events + evicted.events;
                assert(lets_no_one_in(events));
                let all = events + evicted.room.advanced().events;
                assert forall|i: int| 0 <= i < all.len() implies !lets_in(#[trigger] all[i]) by {
                    if i < events.len() {
                        assert(all[i] == events[i]);
                    } else {
                        assert(neutral(evicted.room.advanced().events[i - events.len()]));
                    }
                }
            }
        },
        (RoomCommand::UserDangleExpired { user_id }, _) => {
            lemma_evicted_lets_no_one_in(room, user_id, picks[0]);
        },
        (RoomCommand::LeaveRoom, Origin::Client { user_id }) => {
            lemma_evicted_lets_no_one_in(room, user_id, picks[0]);
        },
        (RoomCommand::AdminKick { user_id }, Origin::System) => {
            lemma_evicted_lets_no_one_in(room, user_id, picks[0]);
        },
        (RoomCommand::CreateRoom { .. }, Origin::Client { .. }) => {},
        (RoomCommand::JoinRoom { .. }, Origin::Client { .. }) => {},
        _ => {
            lemma_told_neutral(room, origin, cmd, picks);
            let events = room.told(origin, cmd, picks).events;
            assert forall|i: int| 0 <= i < events.len() implies !lets_in(#[trigger] events[i]) by {
                assert(neutral(events[i]));
            }
        },
    }
}

} // verus!
