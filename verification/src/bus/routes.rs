//! Which rooms there are, which user is in which, and what the events of a room make of that.
//!
//! The events of one command are dealt with in this order. First it is found out who hears of
//! them, so that a user who leaves still hears of it. Then the table is brought up to date. Only
//! then the command is answered, so that a user who has joined can go on at once.

use std::collections::HashMap;

use vstd::prelude::*;
use vstd::std_specs::hash::*;

use crate::binary::map::keys_in_order;
use crate::model::HasModel;
use crate::rooms::{
    business, internal, Origin, RoomCommand, RoomError, RoomErrorCode, RoomErrorView, RoomEvent,
    RoomEventView, RoomId, Targets, TargetsView,
};

verus! {

broadcast use {vstd::std_specs::hash::group_hash_axioms, crate::model::group_models};

/// A list of rooms with different ids, each with the handle by which it is reached.
struct RoomList<H> {
    list: Vec<(RoomId, H)>,
}

/// The rooms there are, each with the handle by which it is reached, and the room of each user.
pub struct RouteTable<H> {
    rooms: RoomList<H>,
    routes: HashMap<i32, RoomId>,
}

/// The mathematical content of a [`RouteTable`].
#[verifier::ext_equal]
#[verifier::reject_recursive_types(H)]
pub struct RoutesView<H> {
    pub rooms: Map<Seq<char>, H>,
    pub routes: Map<i32, Seq<char>>,
}

/// Where a command goes.
#[derive(Debug, PartialEq, Eq)]
pub enum Route {
    /// To a room that has to be created first.
    Create(RoomId),
    /// To a room there is.
    Existing(RoomId),
}

/// The mathematical content of a [`Route`].
#[verifier::ext_equal]
pub enum RouteView {
    Create(Seq<char>),
    Existing(Seq<char>),
}

impl HasModel for Route {
    type Model = RouteView;

    open spec fn model(&self) -> RouteView {
        match self {
            Route::Create(id) => RouteView::Create(id@),
            Route::Existing(id) => RouteView::Existing(id@),
        }
    }
}

/// What is to be done with the events of a command.
#[derive(Debug, PartialEq, Eq)]
pub struct EventPlan {
    /// Who hears of which event: users, and positions in the list of events.
    pub deliveries: Vec<(i32, usize)>,
    /// The positions of the events that observers hear of.
    pub observed: Vec<usize>,
    /// Whether the room is closed now. Observers of rooms hear of that last.
    pub closed: bool,
}

/// The rooms of a list of rooms.
pub open spec fn rooms_view<H>(rooms: Seq<(RoomId, H)>) -> Seq<(Seq<char>, H)> {
    Seq::new(rooms.len(), |i: int| (rooms[i].0@, rooms[i].1))
}

/// Whether no two rooms of a list have the same id.
pub open spec fn distinct_rooms<H>(rooms: Seq<(RoomId, H)>) -> bool {
    forall|i: int, j: int|
        0 <= i < j < rooms.len() ==> (#[trigger] rooms[i]).0@ != (#[trigger] rooms[j]).0@
}

impl<H> View for RouteTable<H> {
    type V = RoutesView<H>;

    closed spec fn view(&self) -> RoutesView<H> {
        RoutesView {
            rooms: self.rooms.view(),
            routes: self.routes.model(),
        }
    }
}

/// Every user who is in the room.
pub open spec fn routed_to(routes: Map<i32, Seq<char>>, room: Seq<char>) -> spec_fn(i32) -> bool {
    |user: i32| routes[user] == room
}

/// The users in a room, in ascending order of their ids.
pub open spec fn members(routes: Map<i32, Seq<char>>, room: Seq<char>) -> Seq<i32> {
    crate::binary::map::sorted_keys(routes.dom()).filter(routed_to(routes, room))
}

/// The users and rooms without those in a room.
pub open spec fn routes_without(routes: Map<i32, Seq<char>>, room: Seq<char>) -> Map<
    i32,
    Seq<char>,
> {
    Map::new(|user: i32| routes.contains_key(user) && routes[user] != room, |user: i32| routes[user])
}

/// Who hears of an event: everyone in the room, and who has just come; of a relay those it names;
/// of the closing of a room no one.
pub open spec fn receivers(routes: Map<i32, Seq<char>>, room: Seq<char>, event: RoomEventView) -> Seq<
    i32,
> {
    match event {
        RoomEventView::RoomClosed { .. } => Seq::empty(),
        RoomEventView::RelayTouches { targets: TargetsView::Specific(ids), .. } => ids,
        RoomEventView::RelayJudges { targets: TargetsView::Specific(ids), .. } => ids,
        RoomEventView::RoomCreated { host, .. } => members(routes, room).push(host),
        RoomEventView::UserJoined { user, .. } => members(routes, room).push(user.id),
        _ => members(routes, room),
    }
}

/// Who hears of which of several events.
pub open spec fn deliveries(
    routes: Map<i32, Seq<char>>,
    room: Seq<char>,
    events: Seq<RoomEventView>,
) -> Seq<(i32, usize)>
    decreases events.len(),
{
    if events.len() == 0 {
        Seq::empty()
    } else {
        let last = receivers(routes, room, events.last());
        deliveries(routes, room, events.drop_last()) + Seq::new(
            last.len(),
            |i: int| (last[i], (events.len() - 1) as usize),
        )
    }
}

/// Whether observers hear of an event: they hear neither of relays nor of the closing of a room.
pub open spec fn is_observed(event: RoomEventView) -> bool {
    !(event is RelayTouches || event is RelayJudges || event is RoomClosed)
}

/// The positions of the events that observers hear of.
pub open spec fn observed(events: Seq<RoomEventView>) -> Seq<usize>
    decreases events.len(),
{
    if events.len() == 0 {
        Seq::empty()
    } else if is_observed(events.last()) {
        observed(events.drop_last()).push((events.len() - 1) as usize)
    } else {
        observed(events.drop_last())
    }
}

/// Whether one of the events is the closing of the room.
pub open spec fn closes(events: Seq<RoomEventView>) -> bool {
    exists|i: int| 0 <= i < events.len() && (#[trigger] events[i]) is RoomClosed
}

impl<H> RoutesView<H> {
    /// No rooms, and no users in them.
    pub open spec fn empty() -> RoutesView<H> {
        RoutesView { rooms: Map::empty(), routes: Map::empty() }
    }

    /// The table without a room, and without those in it.
    pub open spec fn closed(self, room: Seq<char>) -> RoutesView<H> {
        RoutesView {
            rooms: self.rooms.remove(room),
            routes: routes_without(self.routes, room),
        }
    }

    /// The table after an event in a room.
    pub open spec fn applied(self, room: Seq<char>, event: RoomEventView) -> RoutesView<H> {
        match event {
            RoomEventView::RoomCreated { host, .. } => RoutesView {
                routes: self.routes.insert(host, room),
                ..self
            },
            RoomEventView::UserJoined { user, .. } => RoutesView {
                routes: self.routes.insert(user.id, room),
                ..self
            },
            RoomEventView::UserLeft { user, .. } => RoutesView {
                routes: self.routes.remove(user),
                ..self
            },
            RoomEventView::RoomClosed { .. } => self.closed(room),
            _ => self,
        }
    }

    /// The table after several events in a room.
    pub open spec fn applied_all(self, room: Seq<char>, events: Seq<RoomEventView>) -> RoutesView<H>
        decreases events.len(),
    {
        if events.len() == 0 {
            self
        } else {
            self.applied_all(room, events.drop_last()).applied(room, events.last())
        }
    }

    /// Where a command goes: to the room it names if it is to create or join one, which is not for
    /// users who are in a room; a command of the server to the room it is meant for; any other
    /// command of a user to the room of the user.
    pub open spec fn routed(
        self,
        origin: Origin,
        target: Seq<char>,
        cmd: RoomCommand,
    ) -> Result<RouteView, RoomErrorView> {
        if (cmd is CreateRoom || cmd is JoinRoom) && (origin matches Origin::Client { user_id }
            && self.routes.contains_key(user_id)) {
            Err(
                RoomErrorView::Business {
                    code: RoomErrorCode::AlreadyInRoom,
                    msg: "already in room"@,
                },
            )
        } else {
            match (cmd, origin) {
                (RoomCommand::CreateRoom { id, .. }, _) => if self.rooms.contains_key(id@) {
                    Err(
                        RoomErrorView::Business {
                            code: RoomErrorCode::RoomIdOccupied,
                            msg: "room id occupied"@,
                        },
                    )
                } else {
                    Ok(RouteView::Create(id@))
                },
                (RoomCommand::JoinRoom { id, .. }, _) => if self.rooms.contains_key(id@) {
                    Ok(RouteView::Existing(id@))
                } else {
                    Err(
                        RoomErrorView::Business {
                            code: RoomErrorCode::RoomNotFound,
                            msg: "room not found"@,
                        },
                    )
                },
                (_, Origin::System) => if self.rooms.contains_key(target) {
                    Ok(RouteView::Existing(target))
                } else {
                    Err(RoomErrorView::Internal { msg: "room not found"@ })
                },
                (_, Origin::Client { user_id }) => if !self.routes.contains_key(user_id) {
                    Err(
                        RoomErrorView::Business {
                            code: RoomErrorCode::NotInRoom,
                            msg: "not in room"@,
                        },
                    )
                } else if self.rooms.contains_key(self.routes[user_id]) {
                    Ok(RouteView::Existing(self.routes[user_id]))
                } else {
                    Err(RoomErrorView::Internal { msg: "route table stale"@ })
                },
            }
        }
    }
}

impl<H> RoomList<H> {
    spec fn view(&self) -> Map<Seq<char>, H> {
        crate::binary::map::map_of(rooms_view(self.list@))
    }

    #[verifier::type_invariant]
    spec fn distinct(&self) -> bool {
        distinct_rooms(self.list@)
    }

    fn new() -> (res: Self)
        ensures
            res.view() == Map::<Seq<char>, H>::empty(),
    {
        let res = RoomList { list: Vec::new() };
        assert(rooms_view(res.list@) =~= Seq::empty());
        assert(res.view() =~= Map::<Seq<char>, H>::empty());
        res
    }

    /// The position of a room.
    fn find(&self, id: &RoomId) -> (res: Option<usize>)
        ensures
            match res {
                Some(i) => i < self.list@.len() && self.list@[i as int].0@ == id@
                    && self.view().contains_key(id@) && self.view()[id@] == self.list@[i as int].1,
                None => !self.view().contains_key(id@),
            },
    {
        proof {
            use_type_invariant(self);
            lemma_rooms(self.list@);
        }
        let mut i: usize = 0;
        while i < self.list.len()
            invariant
                i <= self.list.len(),
                forall|j: int| 0 <= j < i ==> (#[trigger] self.list@[j]).0@ != id@,
            decreases self.list.len() - i,
        {
            if self.list[i].0.same(id) {
                proof {
                    use_type_invariant(self);
                    lemma_rooms(self.list@);
                }
                return Some(i);
            }
            i = i + 1;
        }
        None
    }

    /// Adds a room.
    fn add_room(&mut self, id: RoomId, handle: H)
        requires
            !old(self).view().contains_key(id@),
        ensures
            final(self).view() == old(self).view().insert(id@, handle),
    {
        proof {
            use_type_invariant(&*self);
            lemma_rooms(self.list@);
        }
        let mut list: Vec<(RoomId, H)> = Vec::new();
        std::mem::swap(&mut list, &mut self.list);
        let ghost before = list@;
        list.push((id, handle));
        proof {
            assert(rooms_view(list@) =~= rooms_view(before).push((id@, handle)));
            assert(rooms_view(before).push((id@, handle)).drop_last() =~= rooms_view(before));
            assert(distinct_rooms(list@));
        }
        self.list = list;
    }

    /// Removes a room, if it is there.
    fn remove_room(&mut self, id: &RoomId)
        ensures
            final(self).view() == old(self).view().remove(id@),
    {
        let ghost start = self.view();
        if let Some(at) = self.find(id) {
            proof {
                use_type_invariant(&*self);
            }
            let mut list: Vec<(RoomId, H)> = Vec::new();
            std::mem::swap(&mut list, &mut self.list);
            proof {
                lemma_remove_room(list@, at as int);
            }
            let _ = list.remove(at);
            self.list = list;
        }
        assert(self.view() =~= start.remove(id@));
    }
}

/// The routes of a table are finite.
proof fn lemma_routes_finite<H>(table: RouteTable<H>)
    ensures
        table@.routes.dom().finite(),
{
    assert(table@.routes.dom() =~= table.routes@.dom());
}

impl<H> RouteTable<H> {
    /// No rooms, and no users in them.
    pub fn new() -> (table: Self)
        ensures
            table@ == RoutesView::<H>::empty(),
    {
        let table = RouteTable { rooms: RoomList::new(), routes: HashMap::new() };
        assert(table@ =~= RoutesView::<H>::empty());
        table
    }

    /// Whether there is a room with this id.
    pub fn has_room(&self, id: &RoomId) -> (res: bool)
        ensures
            res == self@.rooms.contains_key(id@),
    {
        self.rooms.find(id).is_some()
    }

    /// The handle by which a room is reached.
    pub fn handle_of(&self, id: &RoomId) -> (res: Option<&H>)
        ensures
            match res {
                Some(handle) => self@.rooms.contains_key(id@) && *handle == self@.rooms[id@],
                None => !self@.rooms.contains_key(id@),
            },
    {
        match self.rooms.find(id) {
            Some(i) => Some(&self.rooms.list[i].1),
            None => None,
        }
    }

    /// All rooms with their handles.
    pub fn rooms(&self) -> (res: &Vec<(RoomId, H)>)
        ensures
            distinct_rooms(res@),
            crate::binary::map::map_of(rooms_view(res@)) == self@.rooms,
    {
        proof {
            use_type_invariant(&self.rooms);
        }
        &self.rooms.list
    }

    /// The room of a user.
    pub fn room_of(&self, user_id: i32) -> (res: Option<RoomId>)
        ensures
            res.model() == if self@.routes.contains_key(user_id) {
                Some(self@.routes[user_id])
            } else {
                None
            },
            self@.routes.dom().finite(),
    {
        proof {
            lemma_routes_finite(*self);
        }
        match self.routes.get(&user_id) {
            Some(id) => Some(id.clone()),
            None => None,
        }
    }

    /// Adds a room, unless there is one with this id, and tells whether it did.
    pub fn open(&mut self, id: RoomId, handle: H) -> (res: bool)
        ensures
            res == !old(self)@.rooms.contains_key(id@),
            final(self)@ == if old(self)@.rooms.contains_key(id@) {
                old(self)@
            } else {
                RoutesView { rooms: old(self)@.rooms.insert(id@, handle), ..old(self)@ }
            },
    {
        if self.has_room(&id) {
            return false;
        }
        self.rooms.add_room(id, handle);
        true
    }
}

impl<H> RouteTable<H> {
    /// Finds out where a command goes.
    pub fn route(&self, origin: Origin, target: &RoomId, cmd: &RoomCommand) -> (res: Result<
        Route,
        RoomError,
    >)
        ensures
            res.model() == self@.routed(origin, target@, *cmd),
            self@.routes.dom().finite(),
    {
        proof {
            lemma_routes_finite(*self);
        }
        let user: Option<i32> = match origin {
            Origin::Client { user_id } => Some(user_id),
            Origin::System => None,
        };
        let enters: bool = match cmd {
            RoomCommand::CreateRoom { .. } | RoomCommand::JoinRoom { .. } => true,
            _ => false,
        };
        if let Some(user_id) = user {
            if enters && self.routes.contains_key(&user_id) {
                return Err(business(RoomErrorCode::AlreadyInRoom, "already in room"));
            }
        }
        match cmd {
            RoomCommand::CreateRoom { id, .. } => if self.has_room(id) {
                Err(business(RoomErrorCode::RoomIdOccupied, "room id occupied"))
            } else {
                Ok(Route::Create(id.clone()))
            },
            RoomCommand::JoinRoom { id, .. } => if self.has_room(id) {
                Ok(Route::Existing(id.clone()))
            } else {
                Err(business(RoomErrorCode::RoomNotFound, "room not found"))
            },
            _ => match user {
                None => if self.has_room(target) {
                    Ok(Route::Existing(target.clone()))
                } else {
                    Err(internal("room not found"))
                },
                Some(user_id) => match self.routes.get(&user_id) {
                    None => Err(business(RoomErrorCode::NotInRoom, "not in room")),
                    Some(id) => if self.has_room(id) {
                        Ok(Route::Existing(id.clone()))
                    } else {
                        Err(internal("route table stale"))
                    },
                },
            },
        }
    }

    /// The users in a room, in ascending order of their ids.
    fn members(&self, room: &RoomId) -> (res: Vec<i32>)
        ensures
            res@ == members(self@.routes, room@),
    {
        let ids = keys_in_order(&self.routes);
        proof {
            crate::binary::map::lemma_sorted_keys(self.routes@.dom());
            assert(self.routes.model().dom() =~= self.routes@.dom());
            reveal(Seq::filter);
            assert(ids@.take(0) =~= Seq::<i32>::empty());
        }
        let mut res: Vec<i32> = Vec::new();
        let mut i: usize = 0;
        while i < ids.len()
            invariant
                i <= ids.len(),
                ids@.to_set() == self.routes@.dom(),
                res@ == ids@.take(i as int).filter(routed_to(self@.routes, room@)),
            decreases ids.len() - i,
        {
            let id: i32 = ids[i];
            proof {
                reveal(Seq::filter);
                assert(ids@.take(i + 1).drop_last() =~= ids@.take(i as int));
                assert(ids@.contains(id));
                assert(ids@.to_set().contains(id));
            }
            if let Some(there) = self.routes.get(&id) {
                if there.same(room) {
                    res.push(id);
                }
            }
            i = i + 1;
        }
        assert(ids@.take(i as int) =~= ids@);
        res
    }

    /// Removes a room, and all users from it.
    pub fn close(&mut self, room: &RoomId)
        ensures
            final(self)@ == old(self)@.closed(room@),
    {
        let ghost start = self@;
        assert(start.routes.dom() =~= self.routes@.dom());
        self.rooms.remove_room(room);
        assert(self@.rooms =~= start.rooms.remove(room@));
        let ids = self.members(room);
        let mut i: usize = 0;
        while i < ids.len()
            invariant
                i <= ids.len(),
                self@.rooms == start.rooms.remove(room@),
                forall|user: i32| #[trigger]
                    self.routes@.contains_key(user) <==> start.routes.contains_key(user)
                        && !ids@.take(i as int).contains(user),
                forall|user: i32| #[trigger]
                    self.routes@.contains_key(user) ==> self.routes@[user]@ == start.routes[user],
            decreases ids.len() - i,
        {
            let ghost before = self.routes@;
            let id: i32 = ids[i];
            self.routes.remove(&id);
            proof {
                assert(ids@.take(i + 1) =~= ids@.take(i as int).push(id));
                assert forall|user: i32| ids@.take(i + 1).contains(user) <==> (ids@.take(
                    i as int,
                ).contains(user) || user == id) by {
                    if ids@.take(i as int).contains(user) {
                        let j = ids@.take(i as int).index_of(user);
                        assert(ids@.take(i + 1)[j] == user);
                    }
                    assert(ids@.take(i + 1)[i as int] == id);
                }
            }
            i = i + 1;
        }
        proof {
            assert(ids@.take(i as int) =~= ids@);
            assert forall|user: i32| ids@.contains(user) <==> start.routes.contains_key(user)
                && start.routes[user] == room@ by {
                lemma_members(start.routes, room@, user);
            }
            assert(self@.routes =~= routes_without(start.routes, room@));
        }
    }

    /// Finds out who hears of an event.
    fn receivers(&self, room: &RoomId, event: &RoomEvent) -> (res: Vec<i32>)
        ensures
            res@ == receivers(self@.routes, room@, event.model()),
    {
        match event {
            RoomEvent::RoomClosed { .. } => Vec::new(),
            RoomEvent::RelayTouches { targets: Targets::Specific(ids), .. } => {
                crate::rooms::copy_ids(ids)
            },
            RoomEvent::RelayJudges { targets: Targets::Specific(ids), .. } => {
                crate::rooms::copy_ids(ids)
            },
            RoomEvent::RoomCreated { host, .. } => {
                let mut res = self.members(room);
                res.push(*host);
                res
            },
            RoomEvent::UserJoined { user, .. } => {
                let mut res = self.members(room);
                res.push(user.id);
                res
            },
            _ => self.members(room),
        }
    }

    /// Finds out who hears of which of several events.
    fn deliveries(&self, room: &RoomId, events: &Vec<RoomEvent>) -> (res: Vec<(i32, usize)>)
        ensures
            res@ == deliveries(self@.routes, room@, events.model()),
    {
        let mut res: Vec<(i32, usize)> = Vec::new();
        let ghost all = events.model();
        let mut i: usize = 0;
        assert(all.take(0) =~= Seq::empty());
        while i < events.len()
            invariant
                i <= events.len(),
                all == events.model(),
                res@ == deliveries(self@.routes, room@, all.take(i as int)),
            decreases events.len() - i,
        {
            let users = self.receivers(room, &events[i]);
            let ghost before = res@;
            let ghost told = Seq::new(users@.len(), |j: int| (users@[j], i));
            let mut j: usize = 0;
            assert(before =~= before + told.take(0));
            while j < users.len()
                invariant
                    j <= users.len(),
                    told == Seq::new(users@.len(), |j: int| (users@[j], i)),
                    res@ == before + told.take(j as int),
                decreases users.len() - j,
            {
                res.push((users[j], i));
                assert(told.take(j + 1) =~= told.take(j as int).push((users@[j as int], i)));
                assert(res@ =~= before + told.take(j + 1));
                j = j + 1;
            }
            proof {
                assert(told.take(j as int) =~= told);
                assert(all.take(i + 1).drop_last() =~= all.take(i as int));
                assert(all.take(i + 1).last() == events@[i as int].model());
                let last = receivers(self@.routes, room@, all.take(i + 1).last());
                assert(told =~= Seq::new(
                    last.len(),
                    |j: int| (last[j], (all.take(i + 1).len() - 1) as usize),
                ));
            }
            i = i + 1;
        }
        assert(all.take(i as int) =~= all);
        res
    }

    /// Brings the table up to date after an event.
    fn apply(&mut self, room: &RoomId, event: &RoomEvent)
        ensures
            final(self)@ == old(self)@.applied(room@, event.model()),
    {
        match event {
            RoomEvent::RoomCreated { host, .. } => {
                self.routes.insert(*host, room.clone());
            },
            RoomEvent::UserJoined { user, .. } => {
                self.routes.insert(user.id, room.clone());
            },
            RoomEvent::UserLeft { user, .. } => {
                self.routes.remove(user);
            },
            RoomEvent::RoomClosed { .. } => {
                self.close(room);
            },
            _ => {},
        }
    }

    /// Deals with the events of a command: finds out who hears of them, and brings the table up to
    /// date.
    pub fn process_events(&mut self, room: &RoomId, events: &Vec<RoomEvent>) -> (plan: EventPlan)
        ensures
            plan.deliveries@ == deliveries(old(self)@.routes, room@, events.model()),
            plan.observed@ == observed(events.model()),
            plan.closed == closes(events.model()),
            final(self)@ == old(self)@.applied_all(room@, events.model()),
            old(self)@.routes.dom().finite(),
            final(self)@.routes.dom().finite(),
    {
        proof {
            lemma_routes_finite(*self);
        }
        let to_users = self.deliveries(room, events);
        let ghost start = self@;
        let ghost all = events.model();
        let mut to_observers: Vec<usize> = Vec::new();
        let mut closed: bool = false;
        let mut i: usize = 0;
        assert(all.take(0) =~= Seq::empty());
        while i < events.len()
            invariant
                i <= events.len(),
                all == events.model(),
                self@ == start.applied_all(room@, all.take(i as int)),
                to_observers@ == observed(all.take(i as int)),
                closed == closes(all.take(i as int)),
            decreases events.len() - i,
        {
            proof {
                assert(all.take(i + 1).drop_last() =~= all.take(i as int));
                assert(all.take(i + 1).last() == events@[i as int].model());
                lemma_closes_more(all, i as int);
            }
            self.apply(room, &events[i]);
            match &events[i] {
                RoomEvent::RelayTouches { .. } | RoomEvent::RelayJudges { .. } => {},
                RoomEvent::RoomClosed { .. } => {
                    closed = true;
                },
                _ => {
                    to_observers.push(i);
                },
            }
            i = i + 1;
        }
        proof {
            assert(all.take(i as int) =~= all);
            lemma_routes_finite(*self);
        }
        EventPlan { deliveries: to_users, observed: to_observers, closed }
    }

    /// The rooms that someone is in, each of them once.
    pub fn active_rooms(&self) -> (res: Vec<RoomId>)
        ensures
            res.model().no_duplicates(),
            res.model().to_set() == self@.routes.values(),
    {
        let ids = keys_in_order(&self.routes);
        proof {
            crate::binary::map::lemma_sorted_keys(self.routes@.dom());
        }
        let mut res: Vec<RoomId> = Vec::new();
        let mut i: usize = 0;
        while i < ids.len()
            invariant
                i <= ids.len(),
                ids@.to_set() == self.routes@.dom(),
                res.model().no_duplicates(),
                forall|room: Seq<char>| #[trigger]
                    res.model().contains(room) <==> exists|j: int|
                        0 <= j < i && self.routes@[#[trigger] ids@[j]]@ == room,
            decreases ids.len() - i,
        {
            let id: i32 = ids[i];
            assert(ids@.to_set().contains(id)) by {
                assert(ids@.contains(id));
            }
            let ghost before = res.model();
            if let Some(room) = self.routes.get(&id) {
                let known: bool = holds_room(&res, room);
                if !known {
                    res.push(room.clone());
                }
                proof {
                    assert forall|other: Seq<char>| #[trigger] res.model().contains(other) <==> (
                    before.contains(other) || other == room@) by {
                        if before.contains(other) {
                            let k = before.index_of(other);
                            assert(res.model()[k] == other);
                        }
                        if !known {
                            assert(res.model()[before.len() as int] == room@);
                        }
                    }
                    assert forall|other: Seq<char>| #[trigger] res.model().contains(
                        other,
                    ) <==> exists|j: int|
                        0 <= j < i + 1 && self.routes@[#[trigger] ids@[j]]@ == other by {
                        if before.contains(other) {
                            let j = choose|j: int|
                                0 <= j < i && self.routes@[#[trigger] ids@[j]]@ == other;
                            assert(self.routes@[ids@[j]]@ == other);
                        }
                        if other == room@ {
                            assert(self.routes@[ids@[i as int]]@ == other);
                        }
                    }
                }
            }
            i = i + 1;
        }
        proof {
            assert forall|room: Seq<char>| res.model().to_set().contains(room)
                <==> self@.routes.values().contains(room) by {
                if res.model().contains(room) {
                    let j = choose|j: int|
                        0 <= j < ids@.len() && self.routes@[#[trigger] ids@[j]]@ == room;
                    assert(ids@.contains(ids@[j]));
                    assert(ids@.to_set().contains(ids@[j]));
                    assert(self@.routes.contains_key(ids@[j]) && self@.routes[ids@[j]] == room);
                }
                if self@.routes.values().contains(room) {
                    let user = choose|user: i32| #[trigger]
                        self@.routes.contains_key(user) && self@.routes[user] == room;
                    assert(ids@.to_set().contains(user));
                    let j = ids@.index_of(user);
                    assert(self.routes@[ids@[j]]@ == room);
                }
            }
            assert(res.model().to_set() =~= self@.routes.values());
        }
        res
    }
}

/// Whether a room is in a list of rooms.
fn holds_room(rooms: &Vec<RoomId>, room: &RoomId) -> (res: bool)
    ensures
        res == rooms.model().contains(room@),
{
    let mut i: usize = 0;
    while i < rooms.len()
        invariant
            i <= rooms.len(),
            forall|j: int| 0 <= j < i ==> #[trigger] rooms.model()[j] != room@,
        decreases rooms.len() - i,
    {
        if rooms[i].same(room) {
            assert(rooms.model()[i as int] == room@);
            return true;
        }
        i = i + 1;
    }
    false
}

proof fn lemma_closes_more(events: Seq<RoomEventView>, i: int)
    requires
        0 <= i < events.len(),
    ensures
        closes(events.take(i + 1)) == (closes(events.take(i)) || events[i] is RoomClosed),
{
    let more = events.take(i + 1);
    assert(more[i] == events[i]);
    if closes(events.take(i)) {
        let j = choose|j: int| 0 <= j < i && (#[trigger] events.take(i)[j]) is RoomClosed;
        assert(more[j] is RoomClosed);
    }
    if closes(more) && !(events[i] is RoomClosed) {
        let j = choose|j: int| 0 <= j < i + 1 && (#[trigger] more[j]) is RoomClosed;
        assert(events.take(i)[j] is RoomClosed);
    }
}

/// Who the members of a room are.
pub proof fn lemma_members(routes: Map<i32, Seq<char>>, room: Seq<char>, user: i32)
    requires
        routes.dom().finite(),
    ensures
        members(routes, room).contains(user) <==> routes.contains_key(user) && routes[user] == room,
{
    crate::binary::map::lemma_sorted_keys(routes.dom());
    let ids = crate::binary::map::sorted_keys(routes.dom());
    lemma_filter_has(ids, routed_to(routes, room), user);
    assert(ids.to_set().contains(user) <==> ids.contains(user));
}

/// What filtering keeps.
pub proof fn lemma_filter_has(ids: Seq<i32>, keep: spec_fn(i32) -> bool, id: i32)
    ensures
        ids.filter(keep).contains(id) <==> ids.contains(id) && keep(id),
    decreases ids.len(),
{
    reveal(Seq::filter);
    if ids.len() > 0 {
        let front = ids.drop_last();
        lemma_filter_has(front, keep, id);
        if front.contains(id) {
            let i = front.index_of(id);
            assert(ids[i] == id);
        }
        if ids.contains(id) && id != ids.last() {
            let i = ids.index_of(id);
            assert(front[i] == id);
        }
        assert(ids.contains(ids.last())) by {
            assert(ids[ids.len() - 1] == ids.last());
        }
        let kept = front.filter(keep);
        if keep(ids.last()) {
            assert(kept.push(ids.last())[kept.len() as int] == ids.last());
            if kept.contains(id) {
                let i = kept.index_of(id);
                assert(kept.push(ids.last())[i] == id);
            }
            if kept.push(ids.last()).contains(id) && id != ids.last() {
                let i = kept.push(ids.last()).index_of(id);
                assert(kept[i] == id);
            }
        }
    }
}

/// Removing a room from a list of distinct rooms.
proof fn lemma_remove_room<H>(rooms: Seq<(RoomId, H)>, at: int)
    requires
        distinct_rooms(rooms),
        0 <= at < rooms.len(),
    ensures
        distinct_rooms(rooms.remove(at)),
        crate::binary::map::map_of(rooms_view(rooms.remove(at))) == crate::binary::map::map_of(
            rooms_view(rooms),
        ).remove(rooms[at].0@),
{
    let rest = rooms.remove(at);
    assert forall|i: int, j: int| 0 <= i < j < rest.len() implies (#[trigger] rest[i]).0@ != (
    #[trigger] rest[j]).0@ by {
        let a = if i < at {
            i
        } else {
            i + 1
        };
        let b = if j < at {
            j
        } else {
            j + 1
        };
        assert(rooms[a].0@ != rooms[b].0@);
    }
    lemma_rooms(rooms);
    lemma_rooms(rest);
    let before = crate::binary::map::map_of(rooms_view(rooms));
    let after = crate::binary::map::map_of(rooms_view(rest));
    assert forall|id: Seq<char>| after.contains_key(id) == before.remove(
        rooms[at].0@,
    ).contains_key(id) by {
        if after.contains_key(id) {
            let i = choose|i: int| 0 <= i < rest.len() && (#[trigger] rest[i]).0@ == id;
            let a = if i < at {
                i
            } else {
                i + 1
            };
            assert(rooms[a].0@ == id);
            assert(rooms[a].0@ != rooms[at].0@);
        }
        if before.contains_key(id) && id != rooms[at].0@ {
            let i = choose|i: int| 0 <= i < rooms.len() && (#[trigger] rooms[i]).0@ == id;
            let a = if i < at {
                i
            } else {
                i - 1
            };
            assert(rest[a].0@ == id);
        }
    }
    assert forall|id: Seq<char>| #[trigger] after.contains_key(id) implies after[id]
        == before[id] by {
        let i = choose|i: int| 0 <= i < rest.len() && (#[trigger] rest[i]).0@ == id;
        let a = if i < at {
            i
        } else {
            i + 1
        };
        assert(rooms[a].0@ == id);
    }
    assert(after =~= before.remove(rooms[at].0@));
}

/// What it means that the rooms of a list are distinct.
proof fn lemma_rooms<H>(rooms: Seq<(RoomId, H)>)
    requires
        distinct_rooms(rooms),
    ensures
        forall|i: int|
            0 <= i < rooms.len() ==> crate::binary::map::map_of(rooms_view(rooms)).contains_key(
                (#[trigger] rooms[i]).0@,
            ) && crate::binary::map::map_of(rooms_view(rooms))[rooms[i].0@] == rooms[i].1,
        forall|id: Seq<char>| #[trigger]
            crate::binary::map::map_of(rooms_view(rooms)).contains_key(id) ==> exists|i: int|
                0 <= i < rooms.len() && (#[trigger] rooms[i]).0@ == id,
{
    let entries = rooms_view(rooms);
    crate::binary::map::lemma_map_of(entries);
    assert forall|i: int, j: int| 0 <= i < j < entries.len() implies (#[trigger] entries[i]).0 != (
    #[trigger] entries[j]).0 by {
        assert(rooms[i].0@ != rooms[j].0@);
    }
    assert forall|i: int| 0 <= i < rooms.len() implies crate::binary::map::map_of(
        entries,
    ).contains_key((#[trigger] rooms[i]).0@) && crate::binary::map::map_of(entries)[rooms[i].0@]
        == rooms[i].1 by {
        assert(entries[i].0 == rooms[i].0@);
    }
    assert forall|id: Seq<char>| #[trigger] crate::binary::map::map_of(entries).contains_key(
        id,
    ) implies exists|i: int| 0 <= i < rooms.len() && (#[trigger] rooms[i]).0@ == id by {
        let i = choose|i: int| 0 <= i < entries.len() && (#[trigger] entries[i]).0 == id;
        assert(rooms[i].0@ == id);
    }
}

} // verus!
