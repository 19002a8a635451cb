//! The server's rooms, each under its code: opening a room, finding one,
//! listing them for the lobby, and closing those that everyone has left.
use vstd::prelude::*;
use crate::board::BoardConfig;
use crate::protocol::RoomSummary;
use crate::room::{Room, unique_ids};
use crate::text::str_eq;

verus! {

pub struct RoomManager {
    pub rooms: Vec<Room>,
}

/// `r` has at least one player.
pub open spec fn occupied(r: Room) -> bool {
    r.players@.len() > 0
}

/// The rooms of `rooms` that have a player, in their order.
pub open spec fn occupied_rooms(rooms: Seq<Room>) -> Seq<Room> {
    rooms.filter(|r: Room| occupied(r))
}

impl RoomManager {
    /// Every room keeps its invariant, and no code names two rooms.
    pub open spec fn wf(self) -> bool {
        &&& forall|i: int| 0 <= i < self.rooms@.len() ==> (#[trigger] self.rooms@[i]).wf()
        &&& forall|i: int, j: int| 0 <= i < j < self.rooms@.len() ==> (#[trigger] self.rooms@[i]).id@ != (#[trigger] self.rooms@[j]).id@
    }

    /// The index of the room under `code`.
    pub open spec fn index_of(self, code: Seq<char>) -> Option<int> {
        if exists|i: int| 0 <= i < self.rooms@.len() && (#[trigger] self.rooms@[i]).id@ == code {
            Some(choose|i: int| 0 <= i < self.rooms@.len() && (#[trigger] self.rooms@[i]).id@ == code)
        } else {
            None
        }
    }

    pub fn new() -> (d: Self)
        ensures
            d.wf(),
            d.rooms@.len() == 0,
    {
        RoomManager { rooms: Vec::new() }
    }

    /// A code for a new room: six characters drawn at random from the letters
    /// and digits that cannot be mistaken for one another.
    pub fn generate_room_code() -> (code: String)
        ensures
            code@.len() == 6,
            forall|i: int| 0 <= i < 6 ==> "ABCDEFGHJKLMNPQRSTUVWXYZ23456789"@.contains(#[trigger] code@[i]),
    {
        let charset = "ABCDEFGHJKLMNPQRSTUVWXYZ23456789";
        proof {
            reveal_strlit("ABCDEFGHJKLMNPQRSTUVWXYZ23456789");
        }
        let mut code = String::new();
        let mut t: usize = 0;
        while t < 6
            invariant
                t <= 6,
                charset@ == "ABCDEFGHJKLMNPQRSTUVWXYZ23456789"@,
                charset@.len() == 32,
                code@.len() == t,
                forall|i: int| 0 <= i < t ==> charset@.contains(#[trigger] code@[i]),
            decreases 6 - t,
        {
            let idx = crate::chance::index_below(32);
            let piece = charset.substring_char(idx, idx + 1);
            let ghost before = code@;
            code.append(piece);
            proof {
                assert(piece@[0] == charset@[idx as int]);
                assert forall|i: int| 0 <= i < t + 1 implies charset@.contains(#[trigger] code@[i]) by {
                    if i < t {
                        assert(code@[i] == before[i]);
                    } else {
                        assert(code@[i] == charset@[idx as int]);
                    }
                }
            }
            t = t + 1;
        }
        code
    }

    /// Where the room under `code` stands.
    pub fn position(&self, code: &str) -> (r: Option<usize>)
        ensures
            r matches Some(i) ==> i < self.rooms@.len() && self.rooms@[i as int].id@ == code@,
            r is None ==> forall|i: int| 0 <= i < self.rooms@.len() ==> (#[trigger] self.rooms@[i]).id@ != code@,
    {
        let mut i: usize = 0;
        while i < self.rooms.len()
            invariant
                i <= self.rooms@.len(),
                forall|k: int| 0 <= k < i ==> (#[trigger] self.rooms@[k]).id@ != code@,
            decreases self.rooms@.len() - i,
        {
            if str_eq(self.rooms[i].id.as_str(), code) {
                return Some(i);
            }
            i = i + 1;
        }
        None
    }

    /// The room under `code`, if there is one.
    pub fn get_room(&self, code: &str) -> (r: Option<&Room>)
        requires
            self.wf(),
        ensures
            r is None <==> self.index_of(code@) is None,
            r matches Some(room) ==> *room == self.rooms@[self.index_of(code@)->Some_0],
    {
        match self.position(code) {
            Some(i) => {
                proof {
                    let j = choose|j: int| 0 <= j < self.rooms@.len() && (#[trigger] self.rooms@[j]).id@ == code@;
                    if j != i as int {
                        if j < i as int {
                            assert(self.rooms@[j].id@ != self.rooms@[i as int].id@);
                        } else {
                            assert(self.rooms@[i as int].id@ != self.rooms@[j].id@);
                        }
                    }
                }
                Some(&self.rooms[i])
            }
            None => None,
        }
    }

    /// Opens a room named `name` with `host_id` as host and a fresh board of
    /// `config`, under a new random code, which is returned. A room that had
    /// drawn the same code is replaced; every other room stays.
    pub fn create_room(&mut self, name: String, host_id: String, config: BoardConfig) -> (code: String)
        requires
            old(self).wf(),
            config.spec_dims().fits_usize(),
            config.spec_dims().fits_i32(),
            config.mines <= config.spec_dims().total(),
            config.spec_dims().total() <= u32::MAX,
        ensures
            final(self).wf(),
            code@.len() == 6,
            final(self).index_of(code@) matches Some(i) && {
                let r = final(self).rooms@[i];
                &&& r.id@ == code@
                &&& r.name == name
                &&& r.host_id == host_id
                &&& r.config == config
                &&& r.players@.len() == 0
            },
            forall|i: int| 0 <= i < old(self).rooms@.len() && (#[trigger] old(self).rooms@[i]).id@ != code@
                ==> (final(self).index_of(old(self).rooms@[i].id@) matches Some(j) && final(self).rooms@[j] == old(self).rooms@[i]),
            final(self).rooms@.len() <= old(self).rooms@.len() + 1,
    {
        let code = Self::generate_room_code();
        let room = Room::new(code.clone(), name, host_id, config);
        let ghost before = self.rooms@;
        let at = self.position(code.as_str());
        match at {
            Some(i) => {
                self.rooms.set(i, room);
            }
            None => {
                self.rooms.push(room);
            }
        }
        proof {
            let k: int = match at { Some(i) => i as int, None => before.len() as int };
            assert(self.rooms@[k].id@ == code@);
            assert forall|a: int, b: int| 0 <= a < b < self.rooms@.len() implies (#[trigger] self.rooms@[a]).id@ != (#[trigger] self.rooms@[b]).id@ by {
                if a != k && b != k {
                    assert(self.rooms@[a] == before[a] && self.rooms@[b] == before[b]);
                } else if a == k {
                    assert(self.rooms@[b] == before[b]);
                } else {
                    assert(self.rooms@[a] == before[a]);
                }
            }
            assert forall|i: int| 0 <= i < self.rooms@.len() implies (#[trigger] self.rooms@[i]).wf() by {
                if i != k {
                    assert(self.rooms@[i] == before[i]);
                }
            }
            lemma_index_of(*self, k);
            assert forall|i: int| 0 <= i < before.len() && (#[trigger] before[i]).id@ != code@
                implies (self.index_of(before[i].id@) matches Some(j) && self.rooms@[j] == before[i]) by {
                assert(i != k);
                assert(self.rooms@[i] == before[i]);
                lemma_index_of(*self, i);
            }
        }
        code
    }

    /// The lobby's list: a summary of each room, in order.
    pub fn list_rooms(&self) -> (v: Vec<RoomSummary>)
        requires
            self.wf(),
        ensures
            v@.len() == self.rooms@.len(),
            forall|i: int| 0 <= i < v@.len() ==> {
                &&& (#[trigger] v@[i]).id == self.rooms@[i].id
                &&& v@[i].name == self.rooms@[i].name
                &&& v@[i].player_count == self.rooms@[i].players@.len()
                &&& v@[i].status == self.rooms@[i].status
                &&& v@[i].difficulty == self.rooms@[i].config.difficulty
            },
    {
        let mut v: Vec<RoomSummary> = Vec::new();
        let mut i: usize = 0;
        while i < self.rooms.len()
            invariant
                self.wf(),
                i <= self.rooms@.len(),
                v@.len() == i,
                forall|k: int| 0 <= k < i ==> {
                    &&& (#[trigger] v@[k]).id == self.rooms@[k].id
                    &&& v@[k].name == self.rooms@[k].name
                    &&& v@[k].player_count == self.rooms@[k].players@.len()
                    &&& v@[k].status == self.rooms@[k].status
                    &&& v@[k].difficulty == self.rooms@[k].config.difficulty
                },
            decreases self.rooms@.len() - i,
        {
            proof {
                assert(self.rooms@[i as int].wf());
                assert(unique_ids(self.rooms@[i as int].players@));
            }
            v.push(self.rooms[i].summary());
            i = i + 1;
        }
        v
    }

    /// Closes every room that has no player left; the others stay, in order.
    pub fn clean_empty_rooms(&mut self)
        requires
            old(self).wf(),
        ensures
            final(self).wf(),
            final(self).rooms@ == occupied_rooms(old(self).rooms@),
            forall|i: int| 0 <= i < final(self).rooms@.len() ==> occupied(#[trigger] final(self).rooms@[i]),
    {
        let ghost before = self.rooms@;
        let mut kept: Vec<Room> = Vec::new();
        let mut rooms: Vec<Room> = Vec::new();
        std::mem::swap(&mut rooms, &mut self.rooms);
        let mut taken: usize = 0;
        let n = rooms.len();
        while rooms.len() > 0
            invariant
                n == before.len(),
                taken + rooms@.len() == before.len(),
                rooms@ == before.subrange(taken as int, before.len() as int),
                kept@ == before.take(taken as int).filter(|r: Room| occupied(r)),
            decreases rooms@.len(),
        {
            let r = rooms.remove(0);
            proof {
                assert(before.take(taken + 1).drop_last() =~= before.take(taken as int));
                assert(before.take(taken + 1).last() == r);
                reveal_with_fuel(Seq::<Room>::filter, 1);
            }
            if r.players.len() > 0 {
                kept.push(r);
            }
            taken = taken + 1;
            proof {
                assert(rooms@ =~= before.subrange(taken as int, before.len() as int));
            }
        }
        proof {
            assert(before.take(taken as int) =~= before);
        }
        self.rooms = kept;
        proof {
            lemma_filter_keeps(before, |r: Room| occupied(r));
            assert forall|i: int| 0 <= i < self.rooms@.len() implies occupied(#[trigger] self.rooms@[i]) by {
                before.lemma_filter_pred(|r: Room| occupied(r), i);
            }
            assert forall|i: int| 0 <= i < self.rooms@.len() implies (#[trigger] self.rooms@[i]).wf() by {
                assert(before.contains(self.rooms@[i]));
            }
            assert forall|a: int, b: int| 0 <= a < b < self.rooms@.len() implies (#[trigger] self.rooms@[a]).id@ != (#[trigger] self.rooms@[b]).id@ by {
                lemma_filter_order(before, |r: Room| occupied(r), a, b);
            }
        }
    }
}

/// The room at `k` is the one `index_of` finds under its code.
proof fn lemma_index_of(d: RoomManager, k: int)
    requires
        d.wf(),
        0 <= k < d.rooms@.len(),
    ensures
        d.index_of(d.rooms@[k].id@) == Some(k),
{
    let code = d.rooms@[k].id@;
    assert(exists|i: int| 0 <= i < d.rooms@.len() && (#[trigger] d.rooms@[i]).id@ == code);
    let j = choose|i: int| 0 <= i < d.rooms@.len() && (#[trigger] d.rooms@[i]).id@ == code;
    if j != k {
        if j < k {
            assert(d.rooms@[j].id@ != d.rooms@[k].id@);
        } else {
            assert(d.rooms@[k].id@ != d.rooms@[j].id@);
        }
    }
}

/// Every element kept by a filter was in the sequence.
proof fn lemma_filter_keeps(s: Seq<Room>, p: spec_fn(Room) -> bool)
    ensures
        forall|i: int| 0 <= i < s.filter(p).len() ==> s.contains(#[trigger] s.filter(p)[i]),
    decreases s.len(),
{
    reveal_with_fuel(Seq::<Room>::filter, 1);
    if s.len() > 0 {
        lemma_filter_keeps(s.drop_last(), p);
        assert forall|i: int| 0 <= i < s.filter(p).len() implies s.contains(#[trigger] s.filter(p)[i]) by {
            let t = s.drop_last();
            if i < t.filter(p).len() {
                let x = t.filter(p)[i];
                assert(t.contains(x));
                let j = choose|j: int| 0 <= j < t.len() && t[j] == x;
                assert(s[j] == x);
            } else {
                assert(s.filter(p)[i] == s.last());
                assert(s[s.len() - 1] == s.last());
            }
        }
    }
}

/// Two places of a filtered sequence come from two places of the unfiltered one,
/// in the same order.
proof fn lemma_filter_order(s: Seq<Room>, p: spec_fn(Room) -> bool, a: int, b: int)
    requires
        0 <= a < b < s.filter(p).len(),
    ensures
        exists|i: int, j: int| 0 <= i < j < s.len() && s[i] == #[trigger] s.filter(p)[a] && s[j] == #[trigger] s.filter(p)[b],
    decreases s.len(),
{
    reveal_with_fuel(Seq::<Room>::filter, 1);
    let t = s.drop_last();
    if b < t.filter(p).len() {
        lemma_filter_order(t, p, a, b);
        let (i, j) = choose|i: int, j: int| 0 <= i < j < t.len() && t[i] == #[trigger] t.filter(p)[a] && t[j] == #[trigger] t.filter(p)[b];
        assert(s[i] == t[i] && s[j] == t[j]);
    } else {
        assert(s.filter(p)[b] == s.last());
        assert(s.filter(p)[a] == t.filter(p)[a]);
        lemma_filter_keeps(t, p);
        let x = t.filter(p)[a];
        assert(t.contains(x));
        let i = choose|i: int| 0 <= i < t.len() && t[i] == x;
        assert(s[i] == x);
        assert(s[s.len() - 1] == s.last());
    }
}

} // verus!
