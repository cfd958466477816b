//! The live-room hub: who is connected to each room's WebSocket channel, by
//! what link, and with what pending disconnect. A room exists exactly while
//! it has members; within a room each participant appears once, however
//! often they reconnect.
use vstd::prelude::*;

use crate::text::str_eq;

verus! {

/// A connected participant: who they are, the link messages reach them by,
/// and the timer that will drop them after a disconnect, if one runs.
pub struct Member<L, T> {
    pub id: String,
    pub name: String,
    pub role: String,
    pub link: L,
    pub timer: Option<T>,
}

/// One room's members, in the order they first connected.
pub struct HubRoom<L, T> {
    pub slug: String,
    pub members: Vec<Member<L, T>>,
}

/// A member as the roster shows it: id, name and role.
pub open spec fn member_view<L, T>(m: Member<L, T>) -> (Seq<char>, Seq<char>, Seq<char>) {
    (m.id@, m.name@, m.role@)
}

pub open spec fn members_view<L, T>(ms: Seq<Member<L, T>>) -> Seq<(Seq<char>, Seq<char>, Seq<char>)> {
    ms.map_values(|m: Member<L, T>| member_view(m))
}

/// No participant appears twice.
pub open spec fn ids_unique<L, T>(ms: Seq<Member<L, T>>) -> bool {
    forall|a: int, b: int|
        0 <= a < ms.len() && 0 <= b < ms.len() && a != b ==> #[trigger] ms[a].id@ != #[trigger] ms[b].id@
}

/// No slug appears twice, and every room has members, each once.
pub open spec fn rooms_wf<L, T>(rs: Seq<HubRoom<L, T>>) -> bool {
    &&& forall|a: int, b: int|
        0 <= a < rs.len() && 0 <= b < rs.len() && a != b ==> #[trigger] rs[a].slug@ != #[trigger] rs[b].slug@
    &&& forall|a: int|
        0 <= a < rs.len() ==> #[trigger] rs[a].members@.len() > 0 && ids_unique(rs[a].members@)
}

/// Where the room `slug` is, or -1.
pub open spec fn room_index<L, T>(rs: Seq<HubRoom<L, T>>, slug: Seq<char>) -> int {
    if exists|i: int| 0 <= i < rs.len() && #[trigger] rs[i].slug@ == slug {
        choose|i: int| 0 <= i < rs.len() && #[trigger] rs[i].slug@ == slug
    } else {
        -1
    }
}

/// Where the member `id` is, or -1.
pub open spec fn member_index<L, T>(ms: Seq<Member<L, T>>, id: Seq<char>) -> int {
    if exists|i: int| 0 <= i < ms.len() && #[trigger] ms[i].id@ == id {
        choose|i: int| 0 <= i < ms.len() && #[trigger] ms[i].id@ == id
    } else {
        -1
    }
}

/// The members of room `slug` in `rs` (none when there is no such room).
pub open spec fn room_in<L, T>(rs: Seq<HubRoom<L, T>>, slug: Seq<char>) -> Seq<Member<L, T>> {
    let i = room_index(rs, slug);
    if 0 <= i {
        rs[i].members@
    } else {
        Seq::empty()
    }
}

/// The record of member `id` in `ms`, if present.
pub open spec fn entry_in<L, T>(ms: Seq<Member<L, T>>, id: Seq<char>) -> Option<Member<L, T>> {
    let k = member_index(ms, id);
    if 0 <= k {
        Some(ms[k])
    } else {
        None
    }
}

proof fn lemma_room_index<L, T>(rs: Seq<HubRoom<L, T>>, slug: Seq<char>, i: int)
    requires
        rooms_wf(rs),
        0 <= i < rs.len(),
        rs[i].slug@ == slug,
    ensures
        room_index(rs, slug) == i,
{
    let c = choose|j: int| 0 <= j < rs.len() && #[trigger] rs[j].slug@ == slug;
    assert(rs[c].slug@ == slug);
}

proof fn lemma_room_absent<L, T>(rs: Seq<HubRoom<L, T>>, slug: Seq<char>)
    requires
        forall|j: int| 0 <= j < rs.len() ==> #[trigger] rs[j].slug@ != slug,
    ensures
        room_index(rs, slug) == -1,
        room_in(rs, slug) == Seq::<Member<L, T>>::empty(),
{
}

proof fn lemma_member_index<L, T>(ms: Seq<Member<L, T>>, id: Seq<char>, k: int)
    requires
        ids_unique(ms),
        0 <= k < ms.len(),
        ms[k].id@ == id,
    ensures
        member_index(ms, id) == k,
        entry_in(ms, id) == Some(ms[k]),
{
    let c = choose|j: int| 0 <= j < ms.len() && #[trigger] ms[j].id@ == id;
    assert(ms[c].id@ == id);
}

proof fn lemma_member_absent<L, T>(ms: Seq<Member<L, T>>, id: Seq<char>)
    requires
        forall|j: int| 0 <= j < ms.len() ==> #[trigger] ms[j].id@ != id,
    ensures
        member_index(ms, id) == -1,
        entry_in(ms, id) is None,
{
}

/// The rooms of `rs` other than `slug` are those of `rs2`, with the same
/// members.
pub open spec fn others_same<L, T>(rs: Seq<HubRoom<L, T>>, rs2: Seq<HubRoom<L, T>>, slug: Seq<char>) -> bool {
    forall|s: Seq<char>| s != slug ==> #[trigger] room_in(rs2, s) == room_in(rs, s)
}

/// Replacing room `r` (whose slug stays) leaves the other rooms as they
/// were.
proof fn lemma_update_room<L, T>(rs: Seq<HubRoom<L, T>>, r: int, room: HubRoom<L, T>)
    requires
        rooms_wf(rs),
        0 <= r < rs.len(),
        room.slug@ == rs[r].slug@,
        room.members@.len() > 0,
        ids_unique(room.members@),
    ensures
        rooms_wf(rs.update(r, room)),
        room_in(rs.update(r, room), room.slug@) == room.members@,
        others_same(rs, rs.update(r, room), room.slug@),
{
    let rs2 = rs.update(r, room);
    assert forall|a: int, b: int|
        0 <= a < rs2.len() && 0 <= b < rs2.len() && a != b implies #[trigger] rs2[a].slug@
        != #[trigger] rs2[b].slug@ by {
        assert(rs[a].slug@ != rs[b].slug@);
    }
    assert forall|a: int| 0 <= a < rs2.len() implies #[trigger] rs2[a].members@.len() > 0
        && ids_unique(rs2[a].members@) by {
        if a != r {
            assert(rs[a].members@.len() > 0);
        }
    }
    lemma_room_index(rs2, room.slug@, r);
    assert forall|s: Seq<char>| s != room.slug@ implies #[trigger] room_in(rs2, s) == room_in(
        rs,
        s,
    ) by {
        if exists|j: int| 0 <= j < rs.len() && #[trigger] rs[j].slug@ == s {
            let j = choose|j: int| 0 <= j < rs.len() && #[trigger] rs[j].slug@ == s;
            lemma_room_index(rs, s, j);
            assert(j != r);
            assert(rs2[j] == rs[j]);
            lemma_room_index(rs2, s, j);
        } else {
            assert forall|j: int| 0 <= j < rs2.len() implies #[trigger] rs2[j].slug@ != s by {
                if j != r {
                    assert(rs2[j] == rs[j]);
                }
            }
            lemma_room_absent(rs2, s);
            lemma_room_absent(rs, s);
        }
    }
}

/// Removing room `r` leaves the other rooms as they were.
proof fn lemma_remove_room<L, T>(rs: Seq<HubRoom<L, T>>, r: int)
    requires
        rooms_wf(rs),
        0 <= r < rs.len(),
    ensures
        rooms_wf(rs.remove(r)),
        room_in(rs.remove(r), rs[r].slug@) == Seq::<Member<L, T>>::empty(),
        others_same(rs, rs.remove(r), rs[r].slug@),
{
    let rs2 = rs.remove(r);
    let slug = rs[r].slug@;
    assert forall|a: int, b: int|
        0 <= a < rs2.len() && 0 <= b < rs2.len() && a != b implies #[trigger] rs2[a].slug@
        != #[trigger] rs2[b].slug@ by {
        let a0 = if a < r { a } else { a + 1 };
        let b0 = if b < r { b } else { b + 1 };
        assert(rs2[a] == rs[a0]);
        assert(rs2[b] == rs[b0]);
        assert(rs[a0].slug@ != rs[b0].slug@);
    }
    assert forall|a: int| 0 <= a < rs2.len() implies #[trigger] rs2[a].members@.len() > 0
        && ids_unique(rs2[a].members@) by {
        let a0 = if a < r { a } else { a + 1 };
        assert(rs2[a] == rs[a0]);
        assert(rs[a0].members@.len() > 0);
    }
    assert forall|j: int| 0 <= j < rs2.len() implies #[trigger] rs2[j].slug@ != slug by {
        let j0 = if j < r { j } else { j + 1 };
        assert(rs2[j] == rs[j0]);
        assert(rs[j0].slug@ != rs[r].slug@);
    }
    lemma_room_absent(rs2, slug);
    assert forall|s: Seq<char>| s != slug implies #[trigger] room_in(rs2, s) == room_in(rs, s) by {
        if exists|j: int| 0 <= j < rs.len() && #[trigger] rs[j].slug@ == s {
            let j = choose|j: int| 0 <= j < rs.len() && #[trigger] rs[j].slug@ == s;
            lemma_room_index(rs, s, j);
            assert(j != r);
            let j2 = if j < r { j } else { j - 1 };
            assert(rs2[j2] == rs[j]);
            lemma_room_index(rs2, s, j2);
        } else {
            assert forall|j: int| 0 <= j < rs2.len() implies #[trigger] rs2[j].slug@ != s by {
                let j0 = if j < r { j } else { j + 1 };
                assert(rs2[j] == rs[j0]);
            }
            lemma_room_absent(rs2, s);
            lemma_room_absent(rs, s);
        }
    }
}

/// Adding a room for a new slug leaves the other rooms as they were.
proof fn lemma_push_room<L, T>(rs: Seq<HubRoom<L, T>>, room: HubRoom<L, T>)
    requires
        rooms_wf(rs),
        forall|j: int| 0 <= j < rs.len() ==> #[trigger] rs[j].slug@ != room.slug@,
        room.members@.len() > 0,
        ids_unique(room.members@),
    ensures
        rooms_wf(rs.push(room)),
        room_in(rs.push(room), room.slug@) == room.members@,
        others_same(rs, rs.push(room), room.slug@),
{
    let rs2 = rs.push(room);
    assert forall|a: int, b: int|
        0 <= a < rs2.len() && 0 <= b < rs2.len() && a != b implies #[trigger] rs2[a].slug@
        != #[trigger] rs2[b].slug@ by {
        if a < rs.len() && b < rs.len() {
            assert(rs[a].slug@ != rs[b].slug@);
        } else if a < rs.len() {
            assert(rs[a].slug@ != room.slug@);
        } else if b < rs.len() {
            assert(rs[b].slug@ != room.slug@);
        }
    }
    assert forall|a: int| 0 <= a < rs2.len() implies #[trigger] rs2[a].members@.len() > 0
        && ids_unique(rs2[a].members@) by {
        if a < rs.len() {
            assert(rs[a].members@.len() > 0);
        }
    }
    lemma_room_index(rs2, room.slug@, rs.len() as int);
    assert forall|s: Seq<char>| s != room.slug@ implies #[trigger] room_in(rs2, s) == room_in(
        rs,
        s,
    ) by {
        if exists|j: int| 0 <= j < rs.len() && #[trigger] rs[j].slug@ == s {
            let j = choose|j: int| 0 <= j < rs.len() && #[trigger] rs[j].slug@ == s;
            lemma_room_index(rs, s, j);
            assert(rs2[j] == rs[j]);
            lemma_room_index(rs2, s, j);
        } else {
            assert forall|j: int| 0 <= j < rs2.len() implies #[trigger] rs2[j].slug@ != s by {
                if j < rs.len() {
                    assert(rs2[j] == rs[j]);
                }
            }
            lemma_room_absent(rs2, s);
            lemma_room_absent(rs, s);
        }
    }
}

/// Removing member `k` keeps ids unique and every other member's record.
proof fn lemma_remove_member<L, T>(ms: Seq<Member<L, T>>, k: int)
    requires
        ids_unique(ms),
        0 <= k < ms.len(),
    ensures
        ids_unique(ms.remove(k)),
        entry_in(ms.remove(k), ms[k].id@) is None,
        forall|id: Seq<char>| id != ms[k].id@ ==> #[trigger] entry_in(ms.remove(k), id) == entry_in(
            ms,
            id,
        ),
{
    let ms2 = ms.remove(k);
    assert forall|a: int, b: int|
        0 <= a < ms2.len() && 0 <= b < ms2.len() && a != b implies #[trigger] ms2[a].id@
        != #[trigger] ms2[b].id@ by {
        let a0 = if a < k { a } else { a + 1 };
        let b0 = if b < k { b } else { b + 1 };
        assert(ms2[a] == ms[a0]);
        assert(ms2[b] == ms[b0]);
        assert(ms[a0].id@ != ms[b0].id@);
    }
    assert forall|j: int| 0 <= j < ms2.len() implies #[trigger] ms2[j].id@ != ms[k].id@ by {
        let j0 = if j < k { j } else { j + 1 };
        assert(ms2[j] == ms[j0]);
        assert(ms[j0].id@ != ms[k].id@);
    }
    lemma_member_absent(ms2, ms[k].id@);
    assert forall|id: Seq<char>| id != ms[k].id@ implies #[trigger] entry_in(ms2, id) == entry_in(
        ms,
        id,
    ) by {
        if exists|j: int| 0 <= j < ms.len() && #[trigger] ms[j].id@ == id {
            let j = choose|j: int| 0 <= j < ms.len() && #[trigger] ms[j].id@ == id;
            lemma_member_index(ms, id, j);
            assert(j != k);
            let j2 = if j < k { j } else { j - 1 };
            assert(ms2[j2] == ms[j]);
            lemma_member_index(ms2, id, j2);
        } else {
            assert forall|j: int| 0 <= j < ms2.len() implies #[trigger] ms2[j].id@ != id by {
                let j0 = if j < k { j } else { j + 1 };
                assert(ms2[j] == ms[j0]);
            }
            lemma_member_absent(ms2, id);
            lemma_member_absent(ms, id);
        }
    }
}

/// Replacing member `k` by one with the same id keeps ids unique and every
/// other member's record.
proof fn lemma_update_member<L, T>(ms: Seq<Member<L, T>>, k: int, m: Member<L, T>)
    requires
        ids_unique(ms),
        0 <= k < ms.len(),
        m.id@ == ms[k].id@,
    ensures
        ids_unique(ms.update(k, m)),
        entry_in(ms.update(k, m), m.id@) == Some(m),
        forall|id: Seq<char>| id != m.id@ ==> #[trigger] entry_in(ms.update(k, m), id) == entry_in(
            ms,
            id,
        ),
{
    let ms2 = ms.update(k, m);
    assert forall|a: int, b: int|
        0 <= a < ms2.len() && 0 <= b < ms2.len() && a != b implies #[trigger] ms2[a].id@
        != #[trigger] ms2[b].id@ by {
        assert(ms[a].id@ != ms[b].id@);
    }
    lemma_member_index(ms2, m.id@, k);
    assert forall|id: Seq<char>| id != m.id@ implies #[trigger] entry_in(ms2, id) == entry_in(
        ms,
        id,
    ) by {
        if exists|j: int| 0 <= j < ms.len() && #[trigger] ms[j].id@ == id {
            let j = choose|j: int| 0 <= j < ms.len() && #[trigger] ms[j].id@ == id;
            lemma_member_index(ms, id, j);
            assert(ms2[j] == ms[j]);
            lemma_member_index(ms2, id, j);
        } else {
            assert forall|j: int| 0 <= j < ms2.len() implies #[trigger] ms2[j].id@ != id by {
                if j != k {
                    assert(ms2[j] == ms[j]);
                }
            }
            lemma_member_absent(ms2, id);
            lemma_member_absent(ms, id);
        }
    }
}

/// Appending a member with a new id keeps ids unique and every other
/// member's record.
proof fn lemma_push_member<L, T>(ms: Seq<Member<L, T>>, m: Member<L, T>)
    requires
        ids_unique(ms),
        forall|j: int| 0 <= j < ms.len() ==> #[trigger] ms[j].id@ != m.id@,
    ensures
        ids_unique(ms.push(m)),
        entry_in(ms.push(m), m.id@) == Some(m),
        forall|id: Seq<char>| id != m.id@ ==> #[trigger] entry_in(ms.push(m), id) == entry_in(ms, id),
{
    let ms2 = ms.push(m);
    assert forall|a: int, b: int|
        0 <= a < ms2.len() && 0 <= b < ms2.len() && a != b implies #[trigger] ms2[a].id@
        != #[trigger] ms2[b].id@ by {
        if a < ms.len() && b < ms.len() {
            assert(ms[a].id@ != ms[b].id@);
        } else if a < ms.len() {
            assert(ms[a].id@ != m.id@);
        } else if b < ms.len() {
            assert(ms[b].id@ != m.id@);
        }
    }
    lemma_member_index(ms2, m.id@, ms.len() as int);
    assert forall|id: Seq<char>| id != m.id@ implies #[trigger] entry_in(ms2, id) == entry_in(
        ms,
        id,
    ) by {
        if exists|j: int| 0 <= j < ms.len() && #[trigger] ms[j].id@ == id {
            let j = choose|j: int| 0 <= j < ms.len() && #[trigger] ms[j].id@ == id;
            lemma_member_index(ms, id, j);
            assert(ms2[j] == ms[j]);
            lemma_member_index(ms2, id, j);
        } else {
            assert forall|j: int| 0 <= j < ms2.len() implies #[trigger] ms2[j].id@ != id by {
                if j < ms.len() {
                    assert(ms2[j] == ms[j]);
                }
            }
            lemma_member_absent(ms2, id);
            lemma_member_absent(ms, id);
        }
    }
}

fn find_room<L, T>(rooms: &Vec<HubRoom<L, T>>, slug: &str) -> (res: Option<usize>)
    requires
        rooms_wf(rooms@),
    ensures
        match res {
            Some(i) => i < rooms@.len() && rooms@[i as int].slug@ == slug@ && room_index(
                rooms@,
                slug@,
            ) == i,
            None => forall|j: int| 0 <= j < rooms@.len() ==> #[trigger] rooms@[j].slug@ != slug@,
        },
{
    let mut i: usize = 0;
    while i < rooms.len()
        invariant
            rooms_wf(rooms@),
            i <= rooms@.len(),
            forall|j: int| 0 <= j < i ==> #[trigger] rooms@[j].slug@ != slug@,
        decreases rooms@.len() - i,
    {
        if str_eq(rooms[i].slug.as_str(), slug) {
            proof {
                lemma_room_index(rooms@, slug@, i as int);
            }
            return Some(i);
        }
        i += 1;
    }
    None
}

fn find_member<L, T>(ms: &Vec<Member<L, T>>, id: &str) -> (res: Option<usize>)
    requires
        ids_unique(ms@),
    ensures
        match res {
            Some(k) => k < ms@.len() && ms@[k as int].id@ == id@ && entry_in(ms@, id@) == Some(
                ms@[k as int],
            ),
            None => (forall|j: int| 0 <= j < ms@.len() ==> #[trigger] ms@[j].id@ != id@) && entry_in(
                ms@,
                id@,
            ) is None,
        },
{
    let mut k: usize = 0;
    while k < ms.len()
        invariant
            ids_unique(ms@),
            k <= ms@.len(),
            forall|j: int| 0 <= j < k ==> #[trigger] ms@[j].id@ != id@,
        decreases ms@.len() - k,
    {
        if str_eq(ms[k].id.as_str(), id) {
            proof {
                lemma_member_index(ms@, id@, k as int);
            }
            return Some(k);
        }
        k += 1;
    }
    proof {
        lemma_member_absent(ms@, id@);
    }
    None
}

/// The rooms with live connections, each with its members.
pub struct Hub<L, T> {
    rooms: Vec<HubRoom<L, T>>,
}

impl<L, T> Hub<L, T> {
    #[verifier::type_invariant]
    spec fn inv(&self) -> bool {
        rooms_wf(self.rooms@)
    }

    /// The members of room `slug`, in the order they first connected;
    /// empty when nobody is connected there.
    pub closed spec fn room(&self, slug: Seq<char>) -> Seq<Member<L, T>> {
        room_in(self.rooms@, slug)
    }

    /// The roster of room `slug`: each member's id, name and role.
    pub open spec fn roster(&self, slug: Seq<char>) -> Seq<(Seq<char>, Seq<char>, Seq<char>)> {
        members_view(self.room(slug))
    }

    /// The record of participant `id` in room `slug`, if connected there.
    pub open spec fn entry(&self, slug: Seq<char>, id: Seq<char>) -> Option<Member<L, T>> {
        entry_in(self.room(slug), id)
    }

    /// An empty hub.
    pub fn new() -> (h: Self)
        ensures
            forall|s: Seq<char>| #[trigger] h.room(s).len() == 0,
    {
        Hub { rooms: Vec::new() }
    }

    /// Registers an authenticated connection of participant `id` to room
    /// `slug`. A participant already there keeps their place, name and
    /// role; their link is replaced and their pending disconnect, returned
    /// for the caller to cancel, is dropped. A new participant joins the end
    /// of the roster. Other rooms and members are untouched.
    pub fn connect(&mut self, slug: &str, id: &str, name: &str, role: &str, link: L) -> (cancelled:
        Option<T>)
        ensures
            old(self).entry(slug@, id@) matches Some(m) ==> {
                &&& final(self).room(slug@) == old(self).room(slug@).update(
                    member_index(old(self).room(slug@), id@),
                    Member { link: link, timer: None, ..m },
                )
                &&& cancelled == m.timer
            },
            old(self).entry(slug@, id@) is None ==> {
                &&& final(self).room(slug@).drop_last() == old(self).room(slug@)
                &&& member_view(final(self).room(slug@).last()) == (id@, name@, role@)
                &&& cancelled is None
            },
            final(self).entry(slug@, id@) matches Some(m) && m.link == link && m.timer is None,
            ids_unique(final(self).room(slug@)),
            final(self).roster(slug@).len() == old(self).roster(slug@).len() + if old(self).entry(
                slug@,
                id@,
            ) is Some {
                0int
            } else {
                1int
            },
            forall|i: Seq<char>| i != id@ ==> #[trigger] final(self).entry(slug@, i) == old(
                self,
            ).entry(slug@, i),
            forall|s: Seq<char>| s != slug@ ==> #[trigger] final(self).room(s) == old(self).room(s),
    {
        proof {
            use_type_invariant(&*self);
        }
        let mut rooms: Vec<HubRoom<L, T>> = Vec::new();
        std::mem::swap(&mut rooms, &mut self.rooms);
        let ghost rs = rooms@;
        let cancelled = match find_room(&rooms, slug) {
            Some(r) => {
                let mut room = rooms.remove(r);
                let ghost ms = room.members@;
                assert(rs[r as int] == room);
                assert(room.members@.len() > 0 && ids_unique(room.members@));
                let cancelled = match find_member(&room.members, id) {
                    Some(k) => {
                        let mut m = room.members.remove(k);
                        let ghost m0 = m;
                        m.link = link;
                        let t = m.timer.take();
                        assert(m == Member { link: link, timer: None, ..m0 });
                        room.members.insert(k, m);
                        assert(room.members@ =~= ms.update(k as int, m));
                        proof {
                            lemma_member_index(ms, id@, k as int);
                            lemma_update_member(ms, k as int, m);
                        }
                        t
                    },
                    None => {
                        let m = Member {
                            id: id.to_owned(),
                            name: name.to_owned(),
                            role: role.to_owned(),
                            link,
                            timer: None,
                        };
                        room.members.push(m);
                        proof {
                            lemma_push_member(ms, m);
                        }
                        None
                    },
                };
                rooms.insert(r, room);
                assert(rooms@ =~= rs.update(r as int, room));
                proof {
                    lemma_update_room(rs, r as int, room);
                }
                cancelled
            },
            None => {
                let m = Member {
                    id: id.to_owned(),
                    name: name.to_owned(),
                    role: role.to_owned(),
                    link,
                    timer: None,
                };
                let mut members: Vec<Member<L, T>> = Vec::new();
                members.push(m);
                let room = HubRoom { slug: slug.to_owned(), members };
                proof {
                    lemma_push_member(Seq::<Member<L, T>>::empty(), m);
                    assert(Seq::<Member<L, T>>::empty().push(m) =~= room.members@);
                    lemma_push_room(rs, room);
                    lemma_room_absent(rs, slug@);
                    lemma_member_absent(Seq::<Member<L, T>>::empty(), id@);
                }
                rooms.push(room);
                None
            },
        };
        self.rooms = rooms;
        cancelled
    }

    /// Stores the timer that will drop participant `id` of room `slug`
    /// after a disconnect. Returns what the caller is left holding: the
    /// timer it replaced, or the given timer when the participant is no
    /// longer connected. Nobody's membership changes.
    pub fn set_disconnect_timer(&mut self, slug: &str, id: &str, timer: T) -> (back: Option<T>)
        ensures
            old(self).entry(slug@, id@) matches Some(m) ==> {
                &&& final(self).entry(slug@, id@) == Some(Member { timer: Some(timer), ..m })
                &&& back == m.timer
            },
            old(self).entry(slug@, id@) is None ==> back == Some(timer),
            final(self).roster(slug@) == old(self).roster(slug@),
            forall|i: Seq<char>| i != id@ ==> #[trigger] final(self).entry(slug@, i) == old(
                self,
            ).entry(slug@, i),
            forall|s: Seq<char>| s != slug@ ==> #[trigger] final(self).room(s) == old(self).room(s),
    {
        proof {
            use_type_invariant(&*self);
        }
        let mut rooms: Vec<HubRoom<L, T>> = Vec::new();
        std::mem::swap(&mut rooms, &mut self.rooms);
        let ghost rs = rooms@;
        let back = match find_room(&rooms, slug) {
            Some(r) => {
                let ghost ms = rs[r as int].members@;
                assert(ms.len() > 0 && ids_unique(ms));
                match find_member(&rooms[r].members, id) {
                    Some(k) => {
                        let mut room = rooms.remove(r);
                        let mut m = room.members.remove(k);
                        let ghost m0 = m;
                        let prev = m.timer.take();
                        m.timer = Some(timer);
                        assert(m == Member { timer: Some(timer), ..m0 });
                        room.members.insert(k, m);
                        assert(room.members@ =~= ms.update(k as int, m));
                        assert(members_view(ms.update(k as int, m)) =~= members_view(ms));
                        proof {
                            lemma_update_member(ms, k as int, m);
                        }
                        rooms.insert(r, room);
                        assert(rooms@ =~= rs.update(r as int, room));
                        proof {
                            lemma_update_room(rs, r as int, room);
                        }
                        prev
                    },
                    None => {
                        proof {
                            lemma_room_index(rs, slug@, r as int);
                        }
                        Some(timer)
                    },
                }
            },
            None => {
                proof {
                    lemma_room_absent(rs, slug@);
                }
                Some(timer)
            },
        };
        self.rooms = rooms;
        back
    }

    /// Drops participant `id` from room `slug`, and the room with its last
    /// member; returns the dropped record, if the participant was there.
    /// The others keep their order and records.
    pub fn remove_member(&mut self, slug: &str, id: &str) -> (removed: Option<Member<L, T>>)
        ensures
            removed == old(self).entry(slug@, id@),
            final(self).entry(slug@, id@) is None,
            removed is None ==> final(self).room(slug@) == old(self).room(slug@),
            removed is Some ==> final(self).room(slug@) == old(self).room(slug@).remove(
                member_index(old(self).room(slug@), id@),
            ),
            forall|i: Seq<char>| i != id@ ==> #[trigger] final(self).entry(slug@, i) == old(
                self,
            ).entry(slug@, i),
            forall|s: Seq<char>| s != slug@ ==> #[trigger] final(self).room(s) == old(self).room(s),
    {
        proof {
            use_type_invariant(&*self);
        }
        let mut rooms: Vec<HubRoom<L, T>> = Vec::new();
        std::mem::swap(&mut rooms, &mut self.rooms);
        let ghost rs = rooms@;
        let removed = match find_room(&rooms, slug) {
            Some(r) => {
                let ghost ms = rs[r as int].members@;
                assert(ms.len() > 0 && ids_unique(ms));
                match find_member(&rooms[r].members, id) {
                    Some(k) => {
                        let mut room = rooms.remove(r);
                        let m = room.members.remove(k);
                        proof {
                            lemma_member_index(ms, id@, k as int);
                            lemma_remove_member(ms, k as int);
                        }
                        if room.members.len() == 0 {
                            proof {
                                lemma_remove_room(rs, r as int);
                                lemma_member_absent(room.members@, id@);
                                assert forall|i: Seq<char>| i != id@ implies #[trigger] entry_in(
                                    ms.remove(k as int),
                                    i,
                                ) == entry_in(ms, i) by {}
                                assert(ms.remove(k as int) =~= Seq::<Member<L, T>>::empty());
                            }
                        } else {
                            rooms.insert(r, room);
                            assert(rooms@ =~= rs.remove(r as int).insert(r as int, room));
                            assert(rooms@ =~= rs.update(r as int, room));
                            proof {
                                lemma_update_room(rs, r as int, room);
                            }
                        }
                        Some(m)
                    },
                    None => {
                        proof {
                            lemma_room_index(rs, slug@, r as int);
                        }
                        None
                    },
                }
            },
            None => {
                proof {
                    lemma_room_absent(rs, slug@);
                }
                None
            },
        };
        self.rooms = rooms;
        removed
    }

    /// Closes room `slug`: everybody in it is dropped and returned, in
    /// roster order.
    pub fn end_room(&mut self, slug: &str) -> (gone: Vec<Member<L, T>>)
        ensures
            gone@ == old(self).room(slug@),
            final(self).room(slug@).len() == 0,
            forall|s: Seq<char>| s != slug@ ==> #[trigger] final(self).room(s) == old(self).room(s),
    {
        proof {
            use_type_invariant(&*self);
        }
        let mut rooms: Vec<HubRoom<L, T>> = Vec::new();
        std::mem::swap(&mut rooms, &mut self.rooms);
        let ghost rs = rooms@;
        let gone = match find_room(&rooms, slug) {
            Some(r) => {
                let room = rooms.remove(r);
                proof {
                    lemma_remove_room(rs, r as int);
                }
                room.members
            },
            None => {
                proof {
                    lemma_room_absent(rs, slug@);
                }
                Vec::new()
            },
        };
        self.rooms = rooms;
        gone
    }

    /// The members of room `slug`, to reach them all; `None` when nobody is
    /// connected there.
    pub fn members_of(&self, slug: &str) -> (res: Option<&Vec<Member<L, T>>>)
        ensures
            res is None <==> self.room(slug@).len() == 0,
            res matches Some(v) ==> v@ == self.room(slug@) && ids_unique(v@),
    {
        proof {
            use_type_invariant(self);
        }
        match find_room(&self.rooms, slug) {
            Some(r) => {
                assert(self.rooms@[r as int].members@.len() > 0);
                Some(&self.rooms[r].members)
            },
            None => {
                proof {
                    lemma_room_absent(self.rooms@, slug@);
                }
                None
            },
        }
    }
}

} // verus!
