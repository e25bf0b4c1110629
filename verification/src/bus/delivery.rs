//! Laws of the table of routes: who hears of what, where commands go, and what becomes of users
//! and rooms.

use vstd::prelude::*;

use crate::model::HasModel;
use crate::rooms::{
    Origin, RoomCommand, RoomErrorCode, RoomErrorView, RoomEventView, RoomId, TargetsView,
    UserInfoView,
};

use super::routes::{Route, RouteView, RoutesView};

verus! {

/// Whom an event lets into the room.
pub open spec fn newcomer(event: RoomEventView) -> Option<i32> {
    match event {
        RoomEventView::RoomCreated { host, .. } => Some(host),
        RoomEventView::UserJoined { user, .. } => Some(user.id),
        _ => None,
    }
}

/// Whom an event is relayed to, if it is relayed to named users.
pub open spec fn named(event: RoomEventView) -> Option<Seq<i32>> {
    match event {
        RoomEventView::RelayTouches { targets: TargetsView::Specific(ids), .. } => Some(ids),
        RoomEventView::RelayJudges { targets: TargetsView::Specific(ids), .. } => Some(ids),
        _ => None,
    }
}

/// Whether a user hears of an event in a room: of a relay those whom it names, of the closing of
/// the room no one, and of everything else those in the room, and who has just come.
pub open spec fn hears(
    routes: Map<i32, Seq<char>>,
    room: Seq<char>,
    event: RoomEventView,
    user: i32,
) -> bool {
    match named(event) {
        Some(ids) => ids.contains(user),
        None => !(event is RoomClosed) && ((routes.contains_key(user) && routes[user] == room)
            || newcomer(event) == Some(user)),
    }
}

proof fn lemma_receivers(
    routes: Map<i32, Seq<char>>,
    room: Seq<char>,
    event: RoomEventView,
    user: i32,
)
    requires
        routes.dom().finite(),
    ensures
        super::routes::receivers(routes, room, event).contains(user) <==> hears(
            routes,
            room,
            event,
            user,
        ),
{
    super::routes::lemma_members(routes, room, user);
    let there = super::routes::members(routes, room);
    if let Some(new) = newcomer(event) {
        let all = there.push(new);
        assert(all[there.len() as int] == new);
        if there.contains(user) {
            let i = there.index_of(user);
            assert(all[i] == user);
        }
        if all.contains(user) && user != new {
            let i = all.index_of(user);
            assert(there[i] == user);
        }
    }
}

/// What a delivery of an event is about: an event that there is, and a user who hears of it. An
/// event that is not relayed to named users is delivered only to those who were in the room before,
/// and to the one whom it lets in.
pub proof fn deliveries_stay_in_the_room(
    routes: Map<i32, Seq<char>>,
    room: Seq<char>,
    events: Seq<RoomEventView>,
    i: int,
)
    requires
        routes.dom().finite(),
        events.len() <= usize::MAX,
        0 <= i < super::routes::deliveries(routes, room, events).len(),
    ensures
        ({
            let (user, at) = super::routes::deliveries(routes, room, events)[i];
            let event = events[at as int];
            &&& at < events.len()
            &&& !(event is RoomClosed)
            &&& match event {
                RoomEventView::RelayTouches { targets: TargetsView::Specific(ids), .. }
                | RoomEventView::RelayJudges { targets: TargetsView::Specific(ids), .. } =>
                    ids.contains(user),
                RoomEventView::RoomCreated { host, .. } => user == host || (routes.contains_key(
                    user,
                ) && routes[user] == room),
                RoomEventView::UserJoined { user: new, .. } => user == new.id || (
                routes.contains_key(user) && routes[user] == room),
                _ => routes.contains_key(user) && routes[user] == room,
            }
        }),
    decreases events.len(),
{
    let front = events.drop_last();
    let before = super::routes::deliveries(routes, room, front);
    if i < before.len() {
        deliveries_stay_in_the_room(routes, room, front, i);
        assert(super::routes::deliveries(routes, room, events)[i] == before[i]);
    } else {
        let last = super::routes::receivers(routes, room, events.last());
        let user = last[i - before.len()];
        assert(last.contains(user));
        lemma_receivers(routes, room, events.last(), user);
    }
}

/// Everyone who hears of an event gets it, and no one else: those in the room before the events
/// and the newcomer, or the users to whom it is relayed.
pub proof fn deliveries_are_exact(
    routes: Map<i32, Seq<char>>,
    room: Seq<char>,
    events: Seq<RoomEventView>,
    user: i32,
    at: usize,
)
    requires
        routes.dom().finite(),
        events.len() <= usize::MAX,
    ensures
        super::routes::deliveries(routes, room, events).contains((user, at)) <==> at < events.len()
            && hears(routes, room, events[at as int], user),
    decreases events.len(),
{
    if events.len() > 0 {
        let front = events.drop_last();
        let before = super::routes::deliveries(routes, room, front);
        let last = super::routes::receivers(routes, room, events.last());
        let told = Seq::new(last.len(), |j: int| (last[j], (events.len() - 1) as usize));
        let all = super::routes::deliveries(routes, room, events);
        assert(all == before + told);
        deliveries_are_exact(routes, room, front, user, at);
        lemma_receivers(routes, room, events.last(), user);
        if before.contains((user, at)) {
            let i = before.index_of((user, at));
            assert(all[i] == (user, at));
        }
        if at == events.len() - 1 && last.contains(user) {
            let j = last.index_of(user);
            assert(all[before.len() + j] == (user, at));
        }
        if all.contains((user, at)) {
            let i = all.index_of((user, at));
            if i < before.len() {
                assert(before[i] == (user, at));
            } else {
                assert(told[i - before.len()] == (user, at));
                assert(last[i - before.len()] == user);
            }
        }
    }
}

/// Events are delivered in their order: what is delivered of more events is what was delivered of
/// the others, and then the last event. It goes to those whom it names in that order, or to those
/// in the room in ascending order of their ids, and then to the newcomer.
pub proof fn events_are_delivered_in_order(
    routes: Map<i32, Seq<char>>,
    room: Seq<char>,
    events: Seq<RoomEventView>,
    event: RoomEventView,
)
    requires
        routes.dom().finite(),
        events.len() < usize::MAX,
    ensures
        super::routes::deliveries(routes, room, Seq::empty()).len() == 0,
        ({
            let before = super::routes::deliveries(routes, room, events);
            let after = super::routes::deliveries(routes, room, events.push(event));
            let last = after.skip(before.len() as int);
            &&& after.len() >= before.len()
            &&& after.take(before.len() as int) == before
            &&& forall|i: int| 0 <= i < last.len() ==> (#[trigger] last[i]).1 == events.len()
            &&& match named(event) {
                Some(ids) => {
                    &&& last.len() == ids.len()
                    &&& forall|i: int| 0 <= i < last.len() ==> (#[trigger] last[i]).0 == ids[i]
                },
                None => {
                    let there = if newcomer(event) is Some {
                        last.len() - 1
                    } else {
                        last.len() as int
                    };
                    &&& forall|i: int, j: int|
                        0 <= i < j < there ==> (#[trigger] last[i]).0 < (#[trigger] last[j]).0
                    &&& newcomer(event) matches Some(new) ==> there >= 0 && last[there].0 == new
                },
            }
        }),
{
    let before = super::routes::deliveries(routes, room, events);
    let after = super::routes::deliveries(routes, room, events.push(event));
    let told = super::routes::receivers(routes, room, event);
    assert(events.push(event).drop_last() =~= events);
    let more = Seq::new(told.len(), |j: int| (told[j], events.len() as usize));
    assert(after =~= before + more);
    assert(after.take(before.len() as int) =~= before);
    assert(after.skip(before.len() as int) =~= more);
    lemma_members_ascend(routes, room);
}

proof fn lemma_members_ascend(routes: Map<i32, Seq<char>>, room: Seq<char>)
    requires
        routes.dom().finite(),
    ensures
        forall|i: int, j: int|
            0 <= i < j < super::routes::members(routes, room).len() ==> (
            #[trigger] super::routes::members(routes, room)[i]) < (
            #[trigger] super::routes::members(routes, room)[j]),
{
    let ids = crate::binary::map::sorted_keys(routes.dom());
    crate::binary::map::lemma_sorted_keys(routes.dom());
    assert forall|i: int, j: int| 0 <= i < j < ids.len() implies (#[trigger] ids[i]) < (
    #[trigger] ids[j]) by {
        assert(crate::binary::map::MapKey::rank(&ids[i]) < crate::binary::map::MapKey::rank(
            &ids[j],
        ));
    }
    lemma_filter_ascends(ids, super::routes::routed_to(routes, room));
}

proof fn lemma_filter_ascends(ids: Seq<i32>, keep: spec_fn(i32) -> bool)
    requires
        forall|i: int, j: int|
            0 <= i < j < ids.len() ==> (#[trigger] ids[i]) < (#[trigger] ids[j]),
    ensures
        forall|i: int, j: int|
            0 <= i < j < ids.filter(keep).len() ==> (#[trigger] ids.filter(keep)[i]) < (
            #[trigger] ids.filter(keep)[j]),
    decreases ids.len(),
{
    reveal(Seq::filter);
    if ids.len() > 0 {
        let front = ids.drop_last();
        assert forall|i: int, j: int| 0 <= i < j < front.len() implies (#[trigger] front[i]) < (
        #[trigger] front[j]) by {
            assert(ids[i] < ids[j]);
        }
        lemma_filter_ascends(front, keep);
        let kept = front.filter(keep);
        assert forall|i: int| 0 <= i < kept.len() implies (#[trigger] kept[i]) < ids.last() by {
            assert(kept.contains(kept[i]));
            super::routes::lemma_filter_has(front, keep, kept[i]);
            let k = front.index_of(kept[i]);
            assert(ids[k] < ids[ids.len() - 1]);
        }
    }
}

/// Observers hear of every event in its order, but of no relays and not of the closing of a room.
pub proof fn observers_hear_of_events(events: Seq<RoomEventView>, event: RoomEventView)
    requires
        events.len() < usize::MAX,
    ensures
        super::routes::observed(Seq::empty()).len() == 0,
        match event {
            RoomEventView::RelayTouches { .. }
            | RoomEventView::RelayJudges { .. }
            | RoomEventView::RoomClosed { .. } => super::routes::observed(events.push(event))
                == super::routes::observed(events),
            _ => super::routes::observed(events.push(event)) == super::routes::observed(
                events,
            ).push(events.len() as usize),
        },
{
    assert(events.push(event).drop_last() =~= events);
}

/// The position of each event that observers hear of is among what they hear of, and no other.
pub proof fn observers_hear_of_nothing_else(events: Seq<RoomEventView>, at: usize)
    requires
        events.len() <= usize::MAX,
    ensures
        super::routes::observed(events).contains(at) <==> at < events.len()
            && match events[at as int] {
            RoomEventView::RelayTouches { .. }
            | RoomEventView::RelayJudges { .. }
            | RoomEventView::RoomClosed { .. } => false,
            _ => true,
        },
    decreases events.len(),
{
    if events.len() > 0 {
        let front = events.drop_last();
        observers_hear_of_nothing_else(front, at);
        let before = super::routes::observed(front);
        let more = before.push((events.len() - 1) as usize);
        assert(more[before.len() as int] == events.len() - 1);
        if before.contains(at) {
            let i = before.index_of(at);
            assert(more[i] == at);
        }
        if more.contains(at) && at != events.len() - 1 {
            let i = more.index_of(at);
            assert(before[i] == at);
        }
    }
}

/// A room counts as closed after some events if and only if one of them is its closing.
pub proof fn rooms_close_by_events(events: Seq<RoomEventView>, event: RoomEventView)
    ensures
        !super::routes::closes(Seq::empty()),
        super::routes::closes(events.push(event)) == (super::routes::closes(events)
            || event is RoomClosed),
{
    let more = events.push(event);
    assert(more[events.len() as int] == event);
    if super::routes::closes(events) {
        let i = choose|i: int| 0 <= i < events.len() && (#[trigger] events[i]) is RoomClosed;
        assert(more[i] is RoomClosed);
    }
    if super::routes::closes(more) && !(event is RoomClosed) {
        let i = choose|i: int| 0 <= i < more.len() && (#[trigger] more[i]) is RoomClosed;
        assert(events[i] is RoomClosed);
    }
}

/// What an event makes of the room of each user: who is let in is in the room then, who left is in
/// none, and everyone stays where they were otherwise. When the room closes, it is gone, and no one
/// is in it.
pub proof fn events_move_users<H>(
    table: RoutesView<H>,
    room: Seq<char>,
    event: RoomEventView,
    user: i32,
    other: Seq<char>,
)
    ensures
        ({
            let after = table.applied(room, event);
            let kept = after.routes.contains_key(user) == table.routes.contains_key(user) && (
            table.routes.contains_key(user) ==> after.routes[user] == table.routes[user]);
            &&& match event {
                RoomEventView::RoomCreated { host: new, .. }
                | RoomEventView::UserJoined { user: UserInfoView { id: new, .. }, .. } => if user
                    == new {
                    after.routes.contains_key(user) && after.routes[user] == room
                } else {
                    kept
                },
                RoomEventView::UserLeft { user: gone, .. } => if user == gone {
                    !after.routes.contains_key(user)
                } else {
                    kept
                },
                RoomEventView::RoomClosed { .. } => if table.routes.contains_key(user)
                    && table.routes[user] == room {
                    !after.routes.contains_key(user)
                } else {
                    kept
                },
                _ => kept,
            }
            &&& if event is RoomClosed && other == room {
                !after.rooms.contains_key(other)
            } else {
                after.rooms.contains_key(other) == table.rooms.contains_key(other) && (
                table.rooms.contains_key(other) ==> after.rooms[other] == table.rooms[other])
            }
        }),
{
}

/// Events change the table one after the other.
pub proof fn events_count_in_order<H>(
    table: RoutesView<H>,
    room: Seq<char>,
    events: Seq<RoomEventView>,
    event: RoomEventView,
)
    ensures
        table.applied_all(room, Seq::empty()) == table,
        table.applied_all(room, events.push(event)) == table.applied_all(room, events).applied(
            room,
            event,
        ),
{
    assert(events.push(event).drop_last() =~= events);
}

/// Closing a room takes it off the table with everyone in it, and nothing else.
pub proof fn closing_takes_the_room<H>(
    table: RoutesView<H>,
    room: Seq<char>,
    user: i32,
    other: Seq<char>,
)
    ensures
        !table.closed(room).rooms.contains_key(room),
        other != room ==> table.closed(room).rooms.contains_key(other)
            == table.rooms.contains_key(other) && table.closed(room).rooms[other]
            == table.rooms[other],
        table.closed(room).routes.contains_key(user) <==> table.routes.contains_key(user)
            && table.routes[user] != room,
        table.closed(room).routes.contains_key(user) ==> table.closed(room).routes[user]
            == table.routes[user],
{
}

/// A new table has no rooms, and no one in them.
pub proof fn new_tables_are_empty<H>(user: i32, room: Seq<char>)
    ensures
        !RoutesView::<H>::empty().rooms.contains_key(room),
        !RoutesView::<H>::empty().routes.contains_key(user),
{
}

/// Whether a command of a user or of the server was refused for a reason in words.
pub open spec fn refused_with(
    res: Result<RouteView, RoomErrorView>,
    code: RoomErrorCode,
    msg: Seq<char>,
) -> bool {
    res == Err::<RouteView, _>(RoomErrorView::Business { code, msg })
}

/// A user creates a room if the user is in none and there is none with its id.
pub proof fn creating_needs_a_free_id<H>(
    table: RoutesView<H>,
    origin: Origin,
    target: Seq<char>,
    cmd: RoomCommand,
)
    requires
        cmd is CreateRoom,
    ensures
        ({
            let res = table.routed(origin, target, cmd);
            let id = cmd->CreateRoom_id@;
            if origin is Client && table.routes.contains_key(origin->user_id) {
                refused_with(res, RoomErrorCode::AlreadyInRoom, "already in room"@)
            } else if table.rooms.contains_key(id) {
                refused_with(res, RoomErrorCode::RoomIdOccupied, "room id occupied"@)
            } else {
                res == Ok::<_, RoomErrorView>(RouteView::Create(id))
            }
        }),
{
}

/// A user joins a room if the user is in none and there is one with its id.
pub proof fn joining_needs_a_room<H>(
    table: RoutesView<H>,
    origin: Origin,
    target: Seq<char>,
    cmd: RoomCommand,
)
    requires
        cmd is JoinRoom,
    ensures
        ({
            let res = table.routed(origin, target, cmd);
            let id = cmd->JoinRoom_id@;
            if origin is Client && table.routes.contains_key(origin->user_id) {
                refused_with(res, RoomErrorCode::AlreadyInRoom, "already in room"@)
            } else if !table.rooms.contains_key(id) {
                refused_with(res, RoomErrorCode::RoomNotFound, "room not found"@)
            } else {
                res == Ok::<_, RoomErrorView>(RouteView::Existing(id))
            }
        }),
{
}

/// Any other command of a user goes to the room of the user, wherever it is meant to go.
pub proof fn users_speak_to_their_room<H>(
    table: RoutesView<H>,
    user: i32,
    target: Seq<char>,
    cmd: RoomCommand,
)
    requires
        !(cmd is CreateRoom || cmd is JoinRoom),
    ensures
        ({
            let res = table.routed(Origin::Client { user_id: user }, target, cmd);
            if !table.routes.contains_key(user) {
                refused_with(res, RoomErrorCode::NotInRoom, "not in room"@)
            } else if !table.rooms.contains_key(table.routes[user]) {
                res == Err::<RouteView, _>(RoomErrorView::Internal { msg: "route table stale"@ })
            } else {
                res == Ok::<_, RoomErrorView>(RouteView::Existing(table.routes[user]))
            }
        }),
{
}

/// Any other command of the server goes to the room it is meant for.
pub proof fn servers_speak_to_any_room<H>(
    table: RoutesView<H>,
    target: Seq<char>,
    cmd: RoomCommand,
)
    requires
        !(cmd is CreateRoom || cmd is JoinRoom),
    ensures
        ({
            let res = table.routed(Origin::System, target, cmd);
            if table.rooms.contains_key(target) {
                res == Ok::<_, RoomErrorView>(RouteView::Existing(target))
            } else {
                res == Err::<RouteView, _>(RoomErrorView::Internal { msg: "room not found"@ })
            }
        }),
{
}

/// What a route and a list of rooms say, one by one.
pub proof fn routes_and_rooms_are_told_as_they_are<H>(
    id: RoomId,
    rooms: Seq<(RoomId, H)>,
    i: int,
    j: int,
)
    requires
        0 <= i < j < rooms.len(),
    ensures
        Route::Create(id).model() == RouteView::Create(id@),
        Route::Existing(id).model() == RouteView::Existing(id@),
        super::routes::rooms_view(rooms).len() == rooms.len(),
        super::routes::rooms_view(rooms)[i].0 == rooms[i].0@,
        super::routes::rooms_view(rooms)[i].1 == rooms[i].1,
        super::routes::distinct_rooms(rooms) ==> rooms[i].0@ != rooms[j].0@,
{
}

/// A list of rooms with different ids has each of its rooms under its id, and no other.
pub proof fn lists_of_rooms_are_complete<H>(rooms: Seq<(RoomId, H)>, i: int, id: Seq<char>)
    requires
        super::routes::distinct_rooms(rooms),
    ensures
        ({
            let map = crate::binary::map::map_of(super::routes::rooms_view(rooms));
            &&& 0 <= i < rooms.len() ==> map.contains_key(rooms[i].0@) && map[rooms[i].0@]
                == rooms[i].1
            &&& map.contains_key(id) ==> exists|j: int|
                0 <= j < rooms.len() && (#[trigger] rooms[j]).0@ == id
        }),
{
    let entries = super::routes::rooms_view(rooms);
    crate::binary::map::lemma_map_of(entries);
    assert forall|a: int, b: int| 0 <= a < b < entries.len() implies (#[trigger] entries[a]).0 != (
    #[trigger] entries[b]).0 by {
        assert(rooms[a].0@ != rooms[b].0@);
    }
    if 0 <= i < rooms.len() {
        assert(entries[i].0 == rooms[i].0@);
    }
    if crate::binary::map::map_of(entries).contains_key(id) {
        let j = choose|j: int| 0 <= j < entries.len() && (#[trigger] entries[j]).0 == id;
        assert(rooms[j].0@ == id);
    }
}

} // verus!
