//! Draft draws: a proposed allocation of spar participants to rooms, panels
//! and teams, which administrators edit (swap two people, remove a person)
//! before confirming it.

use std::collections::{HashMap, HashSet};
use vstd::prelude::*;
use vstd::std_specs::iter::IteratorSpec;

verus! {

broadcast use vstd::std_specs::hash::group_hash_axioms;

/// The four teams of a British Parliamentary debate.
#[derive(Hash, Eq, PartialEq, PartialOrd, Ord, Clone, Copy, Debug, Structural)]
pub enum Team {
    Og,
    Oo,
    Cg,
    Co,
}

/// A place in a room: the adjudication panel or one of the four teams.
#[derive(Eq, PartialEq, Debug, Copy, Clone, Structural)]
pub enum DrawLoc {
    Panel,
    Team(Team),
}

/// An edit that an administrator requests on a draft draw. The numbers are
/// the short identifiers that `DraftDrawData::id_map` hands out.
#[derive(Copy, Clone, Debug, PartialEq, Eq, Structural)]
pub enum EditAction {
    Swap(u64, u64),
    Remove(u64),
}

/// Why an edit could not be carried out.
#[derive(Debug, Clone, PartialEq, Eq)]
pub enum EditError {
    NoPersonWithId,
    ParseErr(String),
}

impl EditError {
    /// The message shown to the administrator.
    pub fn to_string(&self) -> (s: String)
        ensures
            match self {
                EditError::NoPersonWithId => s@ == "invalid ID provided"@,
                EditError::ParseErr(err) => s@ == "parse error: "@ + err@,
            },
    {
        match self {
            EditError::NoPersonWithId => String::from_str("invalid ID provided"),
            EditError::ParseErr(err) => {
                let mut s = String::from_str("parse error: ");
                s.append(err.as_str());
                s
            },
        }
    }
}

/// The participants of one room, as mathematical sets.
#[verifier::ext_equal]
pub struct RoomSets {
    pub panel: Set<i64>,
    pub og: Set<i64>,
    pub oo: Set<i64>,
    pub cg: Set<i64>,
    pub co: Set<i64>,
}

impl RoomSets {
    /// The participants at the given place.
    pub open spec fn get(self, loc: DrawLoc) -> Set<i64> {
        match loc {
            DrawLoc::Panel => self.panel,
            DrawLoc::Team(Team::Og) => self.og,
            DrawLoc::Team(Team::Oo) => self.oo,
            DrawLoc::Team(Team::Cg) => self.cg,
            DrawLoc::Team(Team::Co) => self.co,
        }
    }

    /// The room with the participants at `loc` replaced by `s`.
    pub open spec fn with(self, loc: DrawLoc, s: Set<i64>) -> RoomSets {
        match loc {
            DrawLoc::Panel => RoomSets { panel: s, og: self.og, oo: self.oo, cg: self.cg, co: self.co },
            DrawLoc::Team(Team::Og) => RoomSets { panel: self.panel, og: s, oo: self.oo, cg: self.cg, co: self.co },
            DrawLoc::Team(Team::Oo) => RoomSets { panel: self.panel, og: self.og, oo: s, cg: self.cg, co: self.co },
            DrawLoc::Team(Team::Cg) => RoomSets { panel: self.panel, og: self.og, oo: self.oo, cg: s, co: self.co },
            DrawLoc::Team(Team::Co) => RoomSets { panel: self.panel, og: self.og, oo: self.oo, cg: self.cg, co: s },
        }
    }

    /// The first place of the room, in the order panel, OG, OO, CG, CO,
    /// that holds `p`.
    pub open spec fn loc_of(self, p: i64) -> Option<DrawLoc> {
        if self.panel.contains(p) {
            Some(DrawLoc::Panel)
        } else if self.og.contains(p) {
            Some(DrawLoc::Team(Team::Og))
        } else if self.oo.contains(p) {
            Some(DrawLoc::Team(Team::Oo))
        } else if self.cg.contains(p) {
            Some(DrawLoc::Team(Team::Cg))
        } else if self.co.contains(p) {
            Some(DrawLoc::Team(Team::Co))
        } else {
            None
        }
    }

    /// Everyone in the room, whatever their place.
    pub open spec fn everyone(self) -> Set<i64> {
        self.panel + self.og + self.oo + self.cg + self.co
    }

    /// The room with `p` taken out of every place.
    pub open spec fn without(self, p: i64) -> RoomSets {
        RoomSets {
            panel: self.panel.remove(p),
            og: self.og.remove(p),
            oo: self.oo.remove(p),
            cg: self.cg.remove(p),
            co: self.co.remove(p),
        }
    }

    /// The number of seats the room fills, counted per place.
    pub open spec fn seats(self) -> nat {
        self.panel.len() + self.og.len() + self.oo.len() + self.cg.len() + self.co.len()
    }
}

/// The number of seats that a sequence of rooms fills.
pub open spec fn seat_count(rooms: Seq<RoomSets>) -> nat
    decreases rooms.len(),
{
    if rooms.len() == 0 {
        0
    } else {
        seat_count(rooms.drop_last()) + rooms.last().seats()
    }
}

/// Everyone in the first `n` rooms.
pub open spec fn people_in_first(rooms: Seq<RoomSets>, n: int) -> Set<i64> {
    Set::new(|p: i64| exists|j: int| 0 <= j < n && (#[trigger] rooms[j]).loc_of(p) is Some)
}

/// A draft draw as mathematics: its rooms and its map of short identifiers.
#[verifier::ext_equal]
pub struct DrawModel {
    pub rooms: Seq<RoomSets>,
    pub id_map: Map<i64, u64>,
}

impl DrawModel {
    /// Some room of the draw holds `p`.
    pub open spec fn holds(self, p: i64) -> bool {
        exists|i: int| 0 <= i < self.rooms.len() && (#[trigger] self.rooms[i]).loc_of(p) is Some
    }

    /// Room `i`, at `loc`, is where `p` is first found: no earlier room holds
    /// `p`, and `loc` is the first place of room `i` that does.
    pub open spec fn is_first_loc(self, p: i64, i: int, loc: DrawLoc) -> bool {
        &&& 0 <= i < self.rooms.len()
        &&& self.rooms[i].loc_of(p) == Some(loc)
        &&& forall|j: int| 0 <= j < i ==> (#[trigger] self.rooms[j]).loc_of(p) is None
    }

    /// Where `p` is first found.
    pub open spec fn first_loc(self, p: i64) -> (int, DrawLoc) {
        choose|i: int, loc: DrawLoc| self.is_first_loc(p, i, loc)
    }

    /// The draw with the participants of room `i` at `loc` replaced by `s`.
    pub open spec fn replace(self, i: int, loc: DrawLoc, s: Set<i64>) -> DrawModel {
        DrawModel { rooms: self.rooms.update(i, self.rooms[i].with(loc, s)), id_map: self.id_map }
    }

    /// The draw in which `pa` takes the place where `pb` is first found and
    /// `pb` the place where `pa` is first found; unchanged when both are
    /// first found at the same place.
    pub open spec fn swap_people(self, pa: i64, pb: i64) -> DrawModel {
        let (ia, la) = self.first_loc(pa);
        let (ib, lb) = self.first_loc(pb);
        if ia == ib && la == lb {
            self
        } else {
            let d = self.replace(ia, la, self.rooms[ia].get(la).remove(pa).insert(pb));
            d.replace(ib, lb, d.rooms[ib].get(lb).remove(pb).insert(pa))
        }
    }

    /// The draw with `p` taken out of every room.
    pub open spec fn without(self, p: i64) -> DrawModel {
        DrawModel { rooms: self.rooms.map_values(|r: RoomSets| r.without(p)), id_map: self.id_map }
    }

    /// Some participant has the short identifier `idx`.
    pub open spec fn has_id(self, idx: u64) -> bool {
        exists|k: i64| #[trigger] self.id_map.contains_key(k) && self.id_map[k] == idx
    }

    /// `pa` (and `pb`) are people whom the short ids of `action` name.
    pub open spec fn resolves(self, action: EditAction, pa: i64, pb: i64) -> bool {
        match action {
            EditAction::Swap(a, b) => a == b || (self.id_map.contains_key(pa) && self.id_map[pa] == a
                && self.id_map.contains_key(pb) && self.id_map[pb] == b),
            EditAction::Remove(m) => self.id_map.contains_key(pa) && self.id_map[pa] == m,
        }
    }

    /// What applying `action` yields, when `action` names people by short
    /// identifiers `pa` (and `pb`) resolve to.
    pub open spec fn applied(self, action: EditAction, pa: i64, pb: i64) -> DrawModel {
        match action {
            EditAction::Swap(a, b) => if a == b { self } else { self.swap_people(pa, pb) },
            EditAction::Remove(_) => self.without(pa),
        }
    }
}

/// The first location of a participant is the unique one.
pub proof fn lemma_first_loc_unique(d: DrawModel, p: i64, i: int, loc: DrawLoc)
    requires
        d.is_first_loc(p, i, loc),
    ensures
        d.first_loc(p) == (i, loc),
{
    let (i2, l2) = d.first_loc(p);
    assert(d.is_first_loc(p, i2, l2));
    if i2 < i {
        assert(d.rooms[i2].loc_of(p) is None);
    }
    if i < i2 {
        assert(d.rooms[i].loc_of(p) is None);
    }
}

/// `p` is found at exactly one place of exactly one room.
pub open spec fn placed_once(d: DrawModel, p: i64) -> bool {
    exists|i: int, loc: DrawLoc| #[trigger] d.rooms[i].get(loc).contains(p) && only_place(d, p, i, loc)
}

/// Room `i`, at `loc`, is the one place of the draw that holds `p`.
pub open spec fn only_place(d: DrawModel, p: i64, i: int, loc: DrawLoc) -> bool {
    &&& 0 <= i < d.rooms.len()
    &&& d.rooms[i].get(loc).contains(p)
    &&& forall|j: int, l: DrawLoc|
        0 <= j < d.rooms.len() && #[trigger] d.rooms[j].get(l).contains(p) ==> j == i && l == loc
}

proof fn lemma_only_place_is_first(d: DrawModel, p: i64, i: int, loc: DrawLoc)
    requires
        only_place(d, p, i, loc),
    ensures
        d.is_first_loc(p, i, loc),
        d.first_loc(p) == (i, loc),
{
    let r = d.rooms[i];
    assert(r.get(DrawLoc::Panel).contains(p) ==> DrawLoc::Panel == loc);
    assert(r.get(DrawLoc::Team(Team::Og)).contains(p) ==> DrawLoc::Team(Team::Og) == loc);
    assert(r.get(DrawLoc::Team(Team::Oo)).contains(p) ==> DrawLoc::Team(Team::Oo) == loc);
    assert(r.get(DrawLoc::Team(Team::Cg)).contains(p) ==> DrawLoc::Team(Team::Cg) == loc);
    assert(r.get(DrawLoc::Team(Team::Co)).contains(p) ==> DrawLoc::Team(Team::Co) == loc);
    assert forall|j: int| 0 <= j < i implies (#[trigger] d.rooms[j]).loc_of(p) is None by {
        assert(!d.rooms[j].get(DrawLoc::Panel).contains(p));
        assert(!d.rooms[j].get(DrawLoc::Team(Team::Og)).contains(p));
        assert(!d.rooms[j].get(DrawLoc::Team(Team::Oo)).contains(p));
        assert(!d.rooms[j].get(DrawLoc::Team(Team::Cg)).contains(p));
        assert(!d.rooms[j].get(DrawLoc::Team(Team::Co)).contains(p));
    }
    lemma_first_loc_unique(d, p, i, loc);
}

proof fn lemma_get_with(r: RoomSets, loc: DrawLoc, s: Set<i64>, l: DrawLoc)
    ensures
        r.with(loc, s).get(l) == if l == loc { s } else { r.get(l) },
{
}

/// Swapping an identifier with itself leaves the draw as it was.
pub proof fn lemma_swap_with_self_changes_nothing(d: DrawModel, a: u64, pa: i64, pb: i64)
    ensures
        d.applied(EditAction::Swap(a, a), pa, pb) == d,
{
}

/// A swap neither brings anyone into the draw nor drops anyone from it,
/// and leaves the short identifiers alone.
pub proof fn lemma_swap_keeps_everyone(d: DrawModel, pa: i64, pb: i64, q: i64)
    requires
        d.holds(pa),
        d.holds(pb),
    ensures
        d.swap_people(pa, pb).holds(q) == d.holds(q),
        d.swap_people(pa, pb).id_map == d.id_map,
        d.swap_people(pa, pb).rooms.len() == d.rooms.len(),
{
    let (ia, la) = d.first_loc(pa);
    let (ib, lb) = d.first_loc(pb);
    let ka = choose|i: int| 0 <= i < d.rooms.len() && (#[trigger] d.rooms[i]).loc_of(pa) is Some;
    let kb = choose|i: int| 0 <= i < d.rooms.len() && (#[trigger] d.rooms[i]).loc_of(pb) is Some;
    lemma_exists_first_loc(d, pa, ka);
    lemma_exists_first_loc(d, pb, kb);
    if !(ia == ib && la == lb) {
        let sa = d.rooms[ia].get(la).remove(pa).insert(pb);
        let d1 = d.replace(ia, la, sa);
        let sb = d1.rooms[ib].get(lb).remove(pb).insert(pa);
        let d2 = d1.replace(ib, lb, sb);
        assert(d2 == d.swap_people(pa, pb));
        assert forall|j: int, l: DrawLoc| 0 <= j < d.rooms.len() implies
            #[trigger] d2.rooms[j].get(l) == if j == ib && l == lb { sb } else if j == ia && l == la { sa } else { d.rooms[j].get(l) } by {
            lemma_get_with(d.rooms[ia], la, sa, l);
            lemma_get_with(d1.rooms[ib], lb, sb, l);
        }
        assert(d2.rooms[ia].get(la).contains(pb));
        assert(d2.rooms[ib].get(lb).contains(pa));
        if d.holds(q) {
            let j = choose|j: int| 0 <= j < d.rooms.len() && (#[trigger] d.rooms[j]).loc_of(q) is Some;
            let l = d.rooms[j].loc_of(q).unwrap();
            if q == pa {
                lemma_held_at(d2, pa, ib, lb);
            } else if q == pb {
                lemma_held_at(d2, pb, ia, la);
            } else {
                lemma_loc_of_contains(d.rooms[j], q);
                assert(d2.rooms[j].get(l).contains(q));
                lemma_held_at(d2, q, j, l);
            }
        }
        if d2.holds(q) && q != pa && q != pb {
            let j = choose|j: int| 0 <= j < d2.rooms.len() && (#[trigger] d2.rooms[j]).loc_of(q) is Some;
            let l = d2.rooms[j].loc_of(q).unwrap();
            lemma_loc_of_contains(d2.rooms[j], q);
            assert(d.rooms[j].get(l).contains(q));
            lemma_held_at(d, q, j, l);
        }
    }
}

/// Swapping two people who each have one place, and then swapping them
/// again, gives back the draw one started from.
pub proof fn lemma_swap_twice_restores(d: DrawModel, pa: i64, pb: i64)
    requires
        placed_once(d, pa),
        placed_once(d, pb),
        pa != pb,
    ensures
        d.swap_people(pa, pb).swap_people(pa, pb) == d,
{
    let (ia, la) = choose|i: int, loc: DrawLoc| #[trigger] d.rooms[i].get(loc).contains(pa) && only_place(d, pa, i, loc);
    let (ib, lb) = choose|i: int, loc: DrawLoc| #[trigger] d.rooms[i].get(loc).contains(pb) && only_place(d, pb, i, loc);
    lemma_only_place_is_first(d, pa, ia, la);
    lemma_only_place_is_first(d, pb, ib, lb);
    if ia == ib && la == lb {
        return;
    }
    let sa = d.rooms[ia].get(la).remove(pa).insert(pb);
    let d1a = d.replace(ia, la, sa);
    let sb = d1a.rooms[ib].get(lb).remove(pb).insert(pa);
    let d1 = d1a.replace(ib, lb, sb);
    assert(d1 == d.swap_people(pa, pb));
    assert forall|j: int, l: DrawLoc| 0 <= j < d.rooms.len() implies
        #[trigger] d1.rooms[j].get(l) == if j == ib && l == lb { sb } else if j == ia && l == la { sa } else { d.rooms[j].get(l) } by {
        lemma_get_with(d.rooms[ia], la, sa, l);
        lemma_get_with(d1a.rooms[ib], lb, sb, l);
    }
    assert(sb == d.rooms[ib].get(lb).remove(pb).insert(pa));
    assert(only_place(d1, pa, ib, lb)) by {
        assert forall|j: int, l: DrawLoc| 0 <= j < d1.rooms.len() && #[trigger] d1.rooms[j].get(l).contains(pa) implies j == ib && l == lb by {
            if !(j == ib && l == lb) && !(j == ia && l == la) {
                assert(d.rooms[j].get(l).contains(pa));
            }
        }
    }
    assert(only_place(d1, pb, ia, la)) by {
        assert forall|j: int, l: DrawLoc| 0 <= j < d1.rooms.len() && #[trigger] d1.rooms[j].get(l).contains(pb) implies j == ia && l == la by {
            if !(j == ib && l == lb) && !(j == ia && l == la) {
                assert(d.rooms[j].get(l).contains(pb));
            }
        }
    }
    lemma_only_place_is_first(d1, pa, ib, lb);
    lemma_only_place_is_first(d1, pb, ia, la);
    let tb = d1.rooms[ib].get(lb).remove(pa).insert(pb);
    let d2a = d1.replace(ib, lb, tb);
    let ta = d2a.rooms[ia].get(la).remove(pb).insert(pa);
    let d2 = d2a.replace(ia, la, ta);
    assert(d2 == d1.swap_people(pa, pb));
    assert(!d.rooms[ib].get(lb).contains(pa));
    assert(!d.rooms[ia].get(la).contains(pb));
    assert(tb =~= d.rooms[ib].get(lb));
    assert forall|j: int, l: DrawLoc| 0 <= j < d.rooms.len() implies
        #[trigger] d2.rooms[j].get(l) == d.rooms[j].get(l) by {
        lemma_get_with(d1.rooms[ib], lb, tb, l);
        lemma_get_with(d2a.rooms[ia], la, ta, l);
        if j == ia && l == la {
            assert(ta =~= d.rooms[ia].get(la));
        }
    }
    assert forall|j: int| 0 <= j < d.rooms.len() implies #[trigger] d2.rooms[j] == d.rooms[j] by {
        assert(d2.rooms[j].get(DrawLoc::Panel) == d.rooms[j].get(DrawLoc::Panel));
        assert(d2.rooms[j].get(DrawLoc::Team(Team::Og)) == d.rooms[j].get(DrawLoc::Team(Team::Og)));
        assert(d2.rooms[j].get(DrawLoc::Team(Team::Oo)) == d.rooms[j].get(DrawLoc::Team(Team::Oo)));
        assert(d2.rooms[j].get(DrawLoc::Team(Team::Cg)) == d.rooms[j].get(DrawLoc::Team(Team::Cg)));
        assert(d2.rooms[j].get(DrawLoc::Team(Team::Co)) == d.rooms[j].get(DrawLoc::Team(Team::Co)));
    }
    assert(d2.rooms =~= d.rooms);
}

/// No two people share a short identifier.
pub open spec fn ids_distinct(id_map: Map<i64, u64>) -> bool {
    forall|k1: i64, k2: i64|
        #[trigger] id_map.contains_key(k1) && #[trigger] id_map.contains_key(k2) && k1 != k2
            ==> id_map[k1] != id_map[k2]
}

/// Applying the same swap twice gives back the draw one started from, when
/// the two people swapped each have one place and the second swap names
/// the same two people as the first: as it must when no two people share a
/// short identifier, and as it may when some do.
pub proof fn lemma_swap_edit_twice_restores(
    d: DrawModel,
    a: u64,
    b: u64,
    pa: i64,
    pb: i64,
    qa: i64,
    qb: i64,
)
    requires
        d.resolves(EditAction::Swap(a, b), pa, pb),
        placed_once(d, pa),
        placed_once(d, pb),
        d.applied(EditAction::Swap(a, b), pa, pb).resolves(EditAction::Swap(a, b), qa, qb),
        ids_distinct(d.id_map) || (qa == pa && qb == pb),
    ensures
        d.applied(EditAction::Swap(a, b), pa, pb).applied(EditAction::Swap(a, b), qa, qb) == d,
{
    if a != b {
        let d1 = d.applied(EditAction::Swap(a, b), pa, pb);
        assert(pa != pb);
        assert(d1.id_map == d.id_map);
        assert(qa == pa);
        assert(qb == pb);
        lemma_swap_twice_restores(d, pa, pb);
    }
}

/// A swap that `DraftDrawData::apply` carried out, applied again to its
/// result, gives back the draw one started from, when no two people share
/// a short identifier and everyone holding one of the two ids has one
/// place: `e1` and `e2` are the entries of the two maps in the order they
/// are walked, as `apply` reads them.
pub proof fn lemma_apply_swap_twice_restores(
    d: DrawModel,
    e1: Seq<(&i64, &u64)>,
    d1: DrawModel,
    e2: Seq<(&i64, &u64)>,
    d2: DrawModel,
    a: u64,
    b: u64,
)
    requires
        ids_distinct(d.id_map),
        forall|k: i64|
            #[trigger] d.id_map.contains_key(k) && (d.id_map[k] == a || d.id_map[k] == b) ==> placed_once(
                d,
                k,
            ),
        edit_result(d, e1, EditAction::Swap(a, b), d1),
        edit_result(d1, e2, EditAction::Swap(a, b), d2),
    ensures
        d2 == d,
{
    if a != b {
        let (ja, jb) = choose|ja: int, jb: int|
            #[trigger] is_first_entry(e1, a, ja) && #[trigger] is_first_entry(e1, b, jb) && d.resolves(
                EditAction::Swap(a, b),
                *e1[ja].0,
                *e1[jb].0,
            ) && d1 == d.applied(EditAction::Swap(a, b), *e1[ja].0, *e1[jb].0);
        let (ka, kb) = choose|ka: int, kb: int|
            #[trigger] is_first_entry(e2, a, ka) && #[trigger] is_first_entry(e2, b, kb) && d1.resolves(
                EditAction::Swap(a, b),
                *e2[ka].0,
                *e2[kb].0,
            ) && d2 == d1.applied(EditAction::Swap(a, b), *e2[ka].0, *e2[kb].0);
        let pa = *e1[ja].0;
        let pb = *e1[jb].0;
        assert(d.id_map.contains_key(pa) && d.id_map[pa] == a);
        assert(d.id_map.contains_key(pb) && d.id_map[pb] == b);
        lemma_swap_edit_twice_restores(d, a, b, pa, pb, *e2[ka].0, *e2[kb].0);
    }
}

/// Removing someone takes exactly that person out of the draw.
pub proof fn lemma_remove_drops_only_that_person(d: DrawModel, p: i64, q: i64)
    ensures
        d.without(p).holds(q) == (d.holds(q) && q != p),
        d.without(p).id_map == d.id_map,
{
    let w = d.without(p);
    if w.holds(q) {
        let j = choose|j: int| 0 <= j < w.rooms.len() && (#[trigger] w.rooms[j]).loc_of(q) is Some;
        let l = w.rooms[j].loc_of(q).unwrap();
        lemma_loc_of_contains(w.rooms[j], q);
        assert(d.rooms[j].get(l).contains(q));
        lemma_held_at(d, q, j, l);
    }
    if d.holds(q) && q != p {
        let j = choose|j: int| 0 <= j < d.rooms.len() && (#[trigger] d.rooms[j]).loc_of(q) is Some;
        let l = d.rooms[j].loc_of(q).unwrap();
        lemma_loc_of_contains(d.rooms[j], q);
        assert(w.rooms[j].get(l).contains(q));
        lemma_held_at(w, q, j, l);
    }
}

proof fn lemma_loc_of_contains(r: RoomSets, p: i64)
    requires
        r.loc_of(p) is Some,
    ensures
        r.get(r.loc_of(p).unwrap()).contains(p),
{
}

proof fn lemma_held_at(d: DrawModel, p: i64, i: int, loc: DrawLoc)
    requires
        0 <= i < d.rooms.len(),
        d.rooms[i].get(loc).contains(p),
    ensures
        d.holds(p),
{
    assert(d.rooms[i].loc_of(p) is Some);
}

proof fn lemma_exists_first_loc(d: DrawModel, p: i64, k: int)
    requires
        0 <= k < d.rooms.len(),
        d.rooms[k].loc_of(p) is Some,
    ensures
        d.is_first_loc(p, d.first_loc(p).0, d.first_loc(p).1),
    decreases k,
{
    let earlier = exists|j: int| 0 <= j < k && (#[trigger] d.rooms[j]).loc_of(p) is Some;
    if earlier {
        let j = choose|j: int| 0 <= j < k && (#[trigger] d.rooms[j]).loc_of(p) is Some;
        lemma_exists_first_loc(d, p, j);
    } else {
        lemma_first_loc_unique(d, p, k, d.rooms[k].loc_of(p).unwrap());
    }
}

/// Entry `j` is the first of `entries` that holds the short id `idx`.
pub open spec fn is_first_entry(entries: Seq<(&i64, &u64)>, idx: u64, j: int) -> bool {
    &&& 0 <= j < entries.len()
    &&& *entries[j].1 == idx
    &&& forall|k: int| 0 <= k < j ==> *(#[trigger] entries[k]).1 != idx
}

/// No entry holds the short id `idx`.
pub open spec fn id_absent(entries: Seq<(&i64, &u64)>, idx: u64) -> bool {
    forall|j: int| 0 <= j < entries.len() ==> *(#[trigger] entries[j]).1 != idx
}

/// The people whom the first entries holding the ids of a swap name are in
/// the draw, so that they can be found there.
pub open spec fn found_people_held(d: DrawModel, entries: Seq<(&i64, &u64)>, action: EditAction) -> bool {
    match action {
        EditAction::Swap(a, b) => a != b ==> forall|ja: int, jb: int|
            #[trigger] is_first_entry(entries, a, ja) && #[trigger] is_first_entry(entries, b, jb)
                ==> d.holds(*entries[ja].0) && d.holds(*entries[jb].0),
        EditAction::Remove(_) => true,
    }
}

/// `after` is the draw `d` after `action`, with each id resolved to the
/// person of the first entry that holds it.
pub open spec fn edit_result(d: DrawModel, entries: Seq<(&i64, &u64)>, action: EditAction, after: DrawModel) -> bool {
    match action {
        EditAction::Swap(a, b) => if a == b {
            after == d
        } else {
            exists|ja: int, jb: int|
                #[trigger] is_first_entry(entries, a, ja) && #[trigger] is_first_entry(entries, b, jb)
                    && d.resolves(action, *entries[ja].0, *entries[jb].0) && after == d.applied(
                    action,
                    *entries[ja].0,
                    *entries[jb].0,
                )
        },
        EditAction::Remove(m) => exists|j: int|
            #[trigger] is_first_entry(entries, m, j) && d.resolves(action, *entries[j].0, *entries[j].0)
                && after == d.applied(action, *entries[j].0, *entries[j].0),
    }
}

/// The participants of one room, with the four teams as separate sets: a
/// map keyed by `Team` would rest on a derived hash that the verifier does
/// not read, while a field per team is reached directly.
#[derive(Debug, PartialEq, Eq)]
pub struct DraftDrawRoom {
    pub panel: HashSet<i64>,
    pub og: HashSet<i64>,
    pub oo: HashSet<i64>,
    pub cg: HashSet<i64>,
    pub co: HashSet<i64>,
}

impl View for DraftDrawRoom {
    type V = RoomSets;

    open spec fn view(&self) -> RoomSets {
        RoomSets { panel: self.panel@, og: self.og@, oo: self.oo@, cg: self.cg@, co: self.co@ }
    }
}

/// A copy of a set of participants.
pub fn copy_set(s: &HashSet<i64>) -> (r: HashSet<i64>)
    ensures
        r@ == s@,
{
    let v = set_elements(s);
    let mut r: HashSet<i64> = HashSet::new();
    for i in 0..v.len()
        invariant
            r@ == v@.take(i as int).to_set(),
    {
        proof {
            assert(v@.take(i + 1) =~= v@.take(i as int) + seq![v@[i as int]]);
            Seq::<i64>::lemma_to_set_insert_commutes(v@.take(i as int), v@[i as int]);
        }
        r.insert(v[i]);
    }
    proof {
        assert(v@.take(v.len() as int) == v@);
    }
    r
}

impl Clone for DraftDrawRoom {
    fn clone(&self) -> (r: Self)
        ensures
            r@ == self@,
    {
        self.duplicate()
    }
}

impl DraftDrawRoom {
    /// The members of one team of the room.
    pub fn team(&self, team: Team) -> (s: &HashSet<i64>)
        ensures
            s@ == self@.get(DrawLoc::Team(team)),
    {
        match team {
            Team::Og => &self.og,
            Team::Oo => &self.oo,
            Team::Cg => &self.cg,
            Team::Co => &self.co,
        }
    }

    /// A copy of the room.
    pub fn duplicate(&self) -> (r: DraftDrawRoom)
        ensures
            r@ == self@,
    {
        DraftDrawRoom {
            panel: copy_set(&self.panel),
            og: copy_set(&self.og),
            oo: copy_set(&self.oo),
            cg: copy_set(&self.cg),
            co: copy_set(&self.co),
        }
    }

    fn remove_member(&mut self, p: i64)
        ensures
            final(self)@ == old(self)@.without(p),
    {
        self.panel.remove(&p);
        self.og.remove(&p);
        self.oo.remove(&p);
        self.cg.remove(&p);
        self.co.remove(&p);
    }

    fn set_at_mut(&mut self, loc: DrawLoc) -> (s: &mut HashSet<i64>)
        ensures
            s@ == old(self)@.get(loc),
            final(self)@ == old(self)@.with(loc, final(s)@),
    {
        match loc {
            DrawLoc::Panel => &mut self.panel,
            DrawLoc::Team(Team::Og) => &mut self.og,
            DrawLoc::Team(Team::Oo) => &mut self.oo,
            DrawLoc::Team(Team::Cg) => &mut self.cg,
            DrawLoc::Team(Team::Co) => &mut self.co,
        }
    }
}

/// A draft draw: the rooms, and the short identifiers under which
/// administrators name participants when editing.
#[derive(Debug, PartialEq, Eq)]
pub struct DraftDrawData {
    pub rooms: Vec<DraftDrawRoom>,
    /// Maps individual participants to unique short ids.
    pub id_map: HashMap<i64, u64>,
}

impl View for DraftDrawData {
    type V = DrawModel;

    open spec fn view(&self) -> DrawModel {
        DrawModel { rooms: self.rooms@.map_values(|r: DraftDrawRoom| r@), id_map: self.id_map@ }
    }
}

impl Clone for DraftDrawData {
    fn clone(&self) -> (r: Self)
        ensures
            r@ == self@,
    {
        self.duplicate()
    }
}

impl DraftDrawData {
    /// A copy of the draw.
    pub fn duplicate(&self) -> (r: DraftDrawData)
        ensures
            r@ == self@,
    {
        let mut rooms: Vec<DraftDrawRoom> = Vec::new();
        for i in 0..self.rooms.len()
            invariant
                rooms@.len() == i,
                forall|j: int| 0 <= j < i ==> (#[trigger] rooms@[j])@ == self.rooms@[j]@,
        {
            rooms.push(self.rooms[i].duplicate());
        }
        let r = DraftDrawData { rooms, id_map: self.id_map.clone() };
        assert(r@.rooms =~= self@.rooms);
        r
    }

    /// Assigns every participant of the draw a short id, replacing the old
    /// map: the participants are numbered from zero in the order in which
    /// the rooms, and within a room the panel and then OG, OO, CG and CO,
    /// are walked. The map then holds exactly the participants, and no two
    /// of them share an id. When nobody holds two places, the ids are
    /// exactly those below the number of seats, and the people of each place
    /// hold the consecutive block of ids that the walk reaches them at.
    pub fn generate_map(&mut self)
        requires
            seat_count(old(self)@.rooms) <= u64::MAX,
        ensures
            final(self)@.rooms == old(self)@.rooms,
            forall|p: i64| #[trigger] final(self)@.id_map.contains_key(p) == old(self)@.holds(p),
            ids_distinct(final(self)@.id_map),
            forall|p: i64|
                #[trigger] final(self)@.id_map.contains_key(p) ==> final(self)@.id_map[p] < seat_count(
                    old(self)@.rooms,
                ),
            placed_uniquely(old(self)@.rooms) ==> forall|i: int, loc: DrawLoc, p: i64|
                0 <= i < old(self)@.rooms.len() && #[trigger] old(self)@.rooms[i].get(loc).contains(p)
                    ==> block_start(old(self)@.rooms, i, loc) <= final(self)@.id_map[p] < block_start(
                    old(self)@.rooms,
                    i,
                    loc,
                ) + old(self)@.rooms[i].get(loc).len(),
            placed_uniquely(old(self)@.rooms) ==> forall|v: u64|
                v < seat_count(old(self)@.rooms) ==> #[trigger] id_taken(
                    final(self)@.id_map,
                    final(self)@.id_map.dom(),
                    v,
                ),
    {
        let ghost rooms = self@.rooms;
        let ghost uniq = placed_uniquely(rooms);
        self.id_map.clear();
        let mut id: u64 = 0;
        let mut i: usize = 0;
        proof {
            assert(self.id_map@.dom() =~= people_in_first(rooms, 0));
            assert(rooms.take(0) =~= Seq::<RoomSets>::empty());
        }
        while i < self.rooms.len()
            invariant
                self@.rooms == rooms,
                uniq == placed_uniquely(rooms),
                seat_count(rooms) <= u64::MAX,
                0 <= i <= rooms.len(),
                id == seat_count(rooms.take(i as int)),
                self.id_map@.dom() == people_in_first(rooms, i as int),
                forall|k: i64| #[trigger] self.id_map@.contains_key(k) ==> self.id_map@[k] < id,
                ids_distinct(self.id_map@),
                uniq ==> forall|j: int, loc: DrawLoc, p: i64|
                    0 <= j < i && #[trigger] rooms[j].get(loc).contains(p) ==> block_start(rooms, j, loc)
                        <= self.id_map@[p] < block_start(rooms, j, loc) + rooms[j].get(loc).len(),
                uniq ==> forall|v: u64|
                    v < id ==> #[trigger] id_taken(self.id_map@, people_in_first(rooms, i as int), v),
            decreases rooms.len() - i,
        {
            proof {
                lemma_seat_count_prefix(rooms, i + 1);
                assert(rooms.take(i + 1).drop_last() =~= rooms.take(i as int));
            }
            let ghost seen0 = people_in_first(rooms, i as int);
            let ghost m0 = self.id_map@;
            let ghost id0 = id;
            let room = &self.rooms[i];
            let ghost r = room@;
            assert(r == rooms[i as int]);
            number_room(&mut self.id_map, room, &mut id, Ghost(seen0));
            proof {
                let m1 = self.id_map@;
                let seen1 = people_in_first(rooms, i + 1);
                assert(seen1 =~= seen0 + r.everyone()) by {
                    assert forall|p: i64| seen1.contains(p) implies (seen0 + r.everyone()).contains(p) by {
                        let j = choose|j: int| 0 <= j < i + 1 && (#[trigger] rooms[j]).loc_of(p) is Some;
                        if j < i {
                            assert(seen0.contains(p));
                        }
                    }
                    assert forall|p: i64| (seen0 + r.everyone()).contains(p) implies seen1.contains(p) by {
                        if seen0.contains(p) {
                            let j = choose|j: int| 0 <= j < i && (#[trigger] rooms[j]).loc_of(p) is Some;
                            assert(0 <= j < i + 1 && rooms[j].loc_of(p) is Some);
                        } else {
                            assert(rooms[i as int].loc_of(p) is Some);
                        }
                    }
                }
                if uniq {
                    assert(places_unique(r)) by {
                        assert forall|l1: DrawLoc, l2: DrawLoc, p: i64|
                            #[trigger] r.get(l1).contains(p) && #[trigger] r.get(l2).contains(p) implies l1
                            == l2 by {
                            assert(rooms[i as int].get(l1).contains(p) && rooms[i as int].get(l2).contains(p));
                        }
                    }
                    assert forall|p: i64| #[trigger] seen0.contains(p) implies !r.everyone().contains(p) by {
                        let j = choose|j: int| 0 <= j < i && (#[trigger] rooms[j]).loc_of(p) is Some;
                        lemma_loc_of_contains(rooms[j], p);
                        let l = rooms[j].loc_of(p).unwrap();
                        if r.everyone().contains(p) {
                            assert(r.loc_of(p) is Some);
                            lemma_loc_of_contains(r, p);
                            let l2 = r.loc_of(p).unwrap();
                            assert(rooms[j].get(l).contains(p) && rooms[i as int].get(l2).contains(p));
                        }
                    }
                    assert forall|j: int, loc: DrawLoc, p: i64|
                        0 <= j < i + 1 && #[trigger] rooms[j].get(loc).contains(p) implies block_start(
                        rooms,
                        j,
                        loc,
                    ) <= m1[p] < block_start(rooms, j, loc) + rooms[j].get(loc).len() by {
                        if j < i {
                            assert(rooms[j].loc_of(p) is Some);
                            assert(seen0.contains(p));
                            assert(m1[p] == m0[p]);
                        } else {
                            assert(r.get(loc).contains(p));
                        }
                    }
                    assert forall|v: u64| v < id implies #[trigger] id_taken(m1, seen1, v) by {
                        if v < id0 {
                            assert(id_taken(m0, seen0, v));
                            let k = choose|k: i64| #[trigger] seen0.contains(k) && m0[k] == v;
                            assert(m1[k] == m0[k]);
                            assert(seen1.contains(k));
                        } else {
                            assert(id_taken(m1, r.everyone(), v));
                            let k = choose|k: i64| #[trigger] r.everyone().contains(k) && m1[k] == v;
                            assert(seen1.contains(k));
                        }
                    }
                }
            }
            i = i + 1;
        }
        proof {
            assert(rooms.take(rooms.len() as int) =~= rooms);
            assert forall|p: i64| #[trigger] self.id_map@.contains_key(p) == old(self)@.holds(p) by {
                if old(self)@.holds(p) {
                    let j = choose|j: int| 0 <= j < rooms.len() && (#[trigger] rooms[j]).loc_of(p) is Some;
                    assert(people_in_first(rooms, rooms.len() as int).contains(p));
                }
            }
        }
    }

    /// Applies the given edit to a copy of the draw.
    ///
    /// `Swap(a, b)` exchanges the places of the people with short ids `a`
    /// and `b`; `Remove(m)` takes the person with short id `m` out of every
    /// room. Ids are resolved as `lookup_idx` resolves them. An id that
    /// nobody has gives `NoPersonWithId`; swapping an id with itself changes
    /// nothing and looks nothing up.
    pub fn apply(&self, action: EditAction) -> (r: Result<DraftDrawData, EditError>)
        requires
            found_people_held(
                self@,
                vstd::std_specs::hash::spec_hash_map_iter(&self.id_map).remaining(),
                action,
            ),
        ensures
            match action {
                EditAction::Swap(a, b) => a != b && (id_absent(
                    vstd::std_specs::hash::spec_hash_map_iter(&self.id_map).remaining(),
                    a,
                ) || id_absent(vstd::std_specs::hash::spec_hash_map_iter(&self.id_map).remaining(), b))
                    <==> r is Err,
                EditAction::Remove(m) => id_absent(
                    vstd::std_specs::hash::spec_hash_map_iter(&self.id_map).remaining(),
                    m,
                ) <==> r is Err,
            },
            r matches Err(e) ==> e == EditError::NoPersonWithId,
            r matches Ok(d) ==> edit_result(
                self@,
                vstd::std_specs::hash::spec_hash_map_iter(&self.id_map).remaining(),
                action,
                d@,
            ),
    {
        let mut new_draw = self.duplicate();
        match action {
            EditAction::Swap(a, b) => {
                if a != b {
                    let a = self.lookup_idx(a)?;
                    let b = self.lookup_idx(b)?;

                    let (a_idx, a_loc) = new_draw.find_loc(a);
                    let (b_idx, b_loc) = new_draw.find_loc(b);
                    proof {
                        lemma_first_loc_unique(self@, a, a_idx as int, a_loc);
                        lemma_first_loc_unique(self@, b, b_idx as int, b_loc);
                    }

                    if (a_loc != b_loc) || (a_idx != b_idx) {
                        let ghost d0 = new_draw@;
                        let a_set = new_draw.get_team_or_panel_set_mut(a_idx, a_loc);
                        a_set.remove(&a);
                        a_set.insert(b);
                        let ghost d1 = new_draw@;
                        assert(d1 == d0.replace(a_idx as int, a_loc, d0.rooms[a_idx as int].get(a_loc).remove(a).insert(b)));
                        assert(new_draw.rooms@.len() == d1.rooms.len());

                        let b_set = new_draw.get_team_or_panel_set_mut(b_idx, b_loc);
                        b_set.remove(&b);
                        b_set.insert(a);
                    }
                    assert(self@.resolves(action, a, b));
                    assert(new_draw@ == self@.applied(action, a, b));
                    return Ok(new_draw);
                }
                assert(self@.resolves(action, 0, 0));
                assert(new_draw@ == self@.applied(action, 0, 0));
            },
            EditAction::Remove(member) => {
                let member = self.lookup_idx(member)?;
                let mut i: usize = 0;
                while i < new_draw.rooms.len()
                    invariant
                        new_draw@.id_map == self@.id_map,
                        new_draw@.rooms.len() == self@.rooms.len(),
                        0 <= i <= self@.rooms.len(),
                        forall|j: int|
                            0 <= j < i ==> (#[trigger] new_draw@.rooms[j]) == self@.rooms[j].without(member),
                        forall|j: int|
                            i <= j < self@.rooms.len() ==> (#[trigger] new_draw@.rooms[j]) == self@.rooms[j],
                    decreases self@.rooms.len() - i,
                {
                    let ghost before = new_draw.rooms@;
                    let ghost bview = new_draw@;
                    let room = &mut new_draw.rooms[i];
                    room.remove_member(member);
                    assert(new_draw.rooms@.len() == before.len());
                    assert(new_draw.rooms@[i as int]@ == before[i as int]@.without(member));
                    assert(forall|j: int| 0 <= j < before.len() && j != i ==> new_draw.rooms@[j] == before[j]);
                    assert forall|j: int| 0 <= j < before.len() implies #[trigger] new_draw@.rooms[j]
                        == (if j == i { bview.rooms[j].without(member) } else { bview.rooms[j] }) by {
                        assert(new_draw@.rooms[j] == new_draw.rooms@[j]@);
                        assert(bview.rooms[j] == before[j]@);
                    }
                    i = i + 1;
                }
                assert(new_draw@.rooms =~= self@.without(member).rooms);
                assert(self@.resolves(action, member, member));
                assert(new_draw@ == self@.applied(action, member, member));
            },
        };
        Ok(new_draw)
    }

    /// Finds the participant whose short id is `idx`: the first entry of
    /// the map, in the order in which the map is walked, that holds `idx`.
    pub fn lookup_idx(&self, idx: u64) -> (r: Result<i64, EditError>)
        ensures
            match r {
                Ok(k) => exists|j: int|
                    is_first_entry(vstd::std_specs::hash::spec_hash_map_iter(&self.id_map).remaining(), idx, j)
                        && *vstd::std_specs::hash::spec_hash_map_iter(&self.id_map).remaining()[j].0 == k,
                Err(e) => e == EditError::NoPersonWithId && forall|j: int|
                    0 <= j < vstd::std_specs::hash::spec_hash_map_iter(&self.id_map).remaining().len()
                        ==> *(#[trigger] vstd::std_specs::hash::spec_hash_map_iter(&self.id_map).remaining()[j]).1 != idx,
            },
            match r {
                Ok(k) => self@.id_map.contains_key(k) && self@.id_map[k] == idx,
                Err(_) => !self@.has_id(idx),
            },
    {
        let ghost entries = vstd::std_specs::hash::spec_hash_map_iter(&self.id_map).remaining();
        for entry in it: self.id_map.iter()
            invariant
                it.seq() == entries,
                entries == vstd::std_specs::hash::spec_hash_map_iter(&self.id_map).remaining(),
                forall|j: int| 0 <= j < it.index() ==> *(#[trigger] entries[j]).1 != idx,
        {
            let (k, v) = entry;
            if *v == idx {
                proof {
                    let j = it.index();
                    assert(entries[j] == entry);
                    assert(is_first_entry(entries, idx, j));
                }
                return Ok(*k);
            }
        }
        proof {
            assert forall|k: i64| #[trigger] self@.id_map.contains_key(k) implies self@.id_map[k] != idx by {
                assert(entries.contains((&k, &self@.id_map[k])));
                let j = choose|j: int| 0 <= j < entries.len() && entries[j] == (&k, &self@.id_map[k]);
                assert(*entries[j].1 != idx);
            }
        }
        Err(EditError::NoPersonWithId)
    }

    /// Finds where the given participant is first found (rooms in order,
    /// and within a room the panel, then OG, OO, CG and CO).
    fn find_loc(&self, a: i64) -> (r: (usize, DrawLoc))
        requires
            self@.holds(a),
        ensures
            self@.is_first_loc(a, r.0 as int, r.1),
    {
        let mut idx: usize = 0;
        while idx < self.rooms.len()
            invariant
                0 <= idx <= self.rooms.len(),
                self@.holds(a),
                forall|j: int| 0 <= j < idx ==> (#[trigger] self@.rooms[j]).loc_of(a) is None,
            decreases self.rooms.len() - idx,
        {
            let room = &self.rooms[idx];
            assert(self@.rooms[idx as int] == room@);
            if room.panel.contains(&a) {
                return (idx, DrawLoc::Panel);
            }
            if room.og.contains(&a) {
                return (idx, DrawLoc::Team(Team::Og));
            }
            if room.oo.contains(&a) {
                return (idx, DrawLoc::Team(Team::Oo));
            }
            if room.cg.contains(&a) {
                return (idx, DrawLoc::Team(Team::Cg));
            }
            if room.co.contains(&a) {
                return (idx, DrawLoc::Team(Team::Co));
            }
            idx = idx + 1;
        }
        proof {
            let i = choose|i: int| 0 <= i < self@.rooms.len() && (#[trigger] self@.rooms[i]).loc_of(a) is Some;
            assert(self@.rooms[i].loc_of(a) is None);
        }
        (0, DrawLoc::Panel)
    }

    /// The set of participants at `loc` in room `room`, for changing it.
    fn get_team_or_panel_set_mut(&mut self, room: usize, loc: DrawLoc) -> (s: &mut HashSet<i64>)
        requires
            room < old(self).rooms.len(),
        ensures
            s@ == old(self)@.rooms[room as int].get(loc),
            final(self)@ == old(self)@.replace(room as int, loc, final(s)@),
    {
        let r = &mut self.rooms[room];
        r.set_at_mut(loc)
    }
}

/// Nobody holds two places of the room.
pub open spec fn places_unique(r: RoomSets) -> bool {
    forall|l1: DrawLoc, l2: DrawLoc, p: i64|
        #[trigger] r.get(l1).contains(p) && #[trigger] r.get(l2).contains(p) ==> l1 == l2
}

/// How many seats of the room come before `loc`, in the order panel, OG,
/// OO, CG, CO.
pub open spec fn place_offset(r: RoomSets, loc: DrawLoc) -> nat {
    match loc {
        DrawLoc::Panel => 0,
        DrawLoc::Team(Team::Og) => r.panel.len(),
        DrawLoc::Team(Team::Oo) => r.panel.len() + r.og.len(),
        DrawLoc::Team(Team::Cg) => r.panel.len() + r.og.len() + r.oo.len(),
        DrawLoc::Team(Team::Co) => r.panel.len() + r.og.len() + r.oo.len() + r.cg.len(),
    }
}

/// The first short identifier given to the people at `loc` of room `i`
/// when the rooms are walked in order, and each room's places in the order
/// panel, OG, OO, CG, CO.
pub open spec fn block_start(rooms: Seq<RoomSets>, i: int, loc: DrawLoc) -> nat {
    seat_count(rooms.take(i)) + place_offset(rooms[i], loc)
}

/// Nobody holds two places in the draw.
pub open spec fn placed_uniquely(rooms: Seq<RoomSets>) -> bool {
    forall|i: int, j: int, l1: DrawLoc, l2: DrawLoc, p: i64|
        0 <= i < rooms.len() && 0 <= j < rooms.len() && #[trigger] rooms[i].get(l1).contains(p)
            && #[trigger] rooms[j].get(l2).contains(p) ==> i == j && l1 == l2
}

proof fn lemma_only_here(r: RoomSets, loc: DrawLoc, p: i64)
    requires
        places_unique(r),
        r.get(loc).contains(p),
    ensures
        loc != DrawLoc::Panel ==> !r.panel.contains(p),
        loc != DrawLoc::Team(Team::Og) ==> !r.og.contains(p),
        loc != DrawLoc::Team(Team::Oo) ==> !r.oo.contains(p),
        loc != DrawLoc::Team(Team::Cg) ==> !r.cg.contains(p),
        loc != DrawLoc::Team(Team::Co) ==> !r.co.contains(p),
{
    assert(r.get(DrawLoc::Panel) == r.panel);
    assert(r.get(DrawLoc::Team(Team::Og)) == r.og);
    assert(r.get(DrawLoc::Team(Team::Oo)) == r.oo);
    assert(r.get(DrawLoc::Team(Team::Cg)) == r.cg);
    assert(r.get(DrawLoc::Team(Team::Co)) == r.co);
}

/// Numbers the participants of one room consecutively from `*next`: the
/// panel first, then OG, OO, CG and CO; the map held the people of `seen`
/// before, with ids below `*next`.
fn number_room(
    id_map: &mut HashMap<i64, u64>,
    room: &DraftDrawRoom,
    next: &mut u64,
    Ghost(seen): Ghost<Set<i64>>,
)
    requires
        *old(next) + room@.seats() <= u64::MAX,
        old(id_map)@.dom() == seen,
        forall|k: i64| #[trigger] old(id_map)@.contains_key(k) ==> old(id_map)@[k] < *old(next),
        ids_distinct(old(id_map)@),
    ensures
        *final(next) == *old(next) + room@.seats(),
        final(id_map)@.dom() == seen + room@.everyone(),
        forall|k: i64| #[trigger] final(id_map)@.contains_key(k) ==> final(id_map)@[k] < *final(next),
        ids_distinct(final(id_map)@),
        forall|k: i64|
            seen.contains(k) && !(#[trigger] room@.everyone().contains(k)) ==> final(id_map)@[k]
                == old(id_map)@[k],
        places_unique(room@) ==> forall|loc: DrawLoc, p: i64|
            #[trigger] room@.get(loc).contains(p) ==> *old(next) + place_offset(room@, loc)
                <= final(id_map)@[p] < *old(next) + place_offset(room@, loc) + room@.get(loc).len(),
        places_unique(room@) ==> forall|v: u64|
            *old(next) <= v < *final(next) ==> #[trigger] id_taken(final(id_map)@, room@.everyone(), v),
{
    let ghost r = room@;
    let ghost n0 = *next;
    let ghost m0 = id_map@;
    assign_ids(id_map, &room.panel, next, Ghost(seen));
    let ghost m1 = id_map@;
    assign_ids(id_map, &room.og, next, Ghost(seen + r.panel));
    let ghost m2 = id_map@;
    assign_ids(id_map, &room.oo, next, Ghost(seen + r.panel + r.og));
    let ghost m3 = id_map@;
    assign_ids(id_map, &room.cg, next, Ghost(seen + r.panel + r.og + r.oo));
    let ghost m4 = id_map@;
    assign_ids(id_map, &room.co, next, Ghost(seen + r.panel + r.og + r.oo + r.cg));
    let ghost m5 = id_map@;
    proof {
        assert(r.everyone() == r.panel + r.og + r.oo + r.cg + r.co);
        assert(m5.dom() =~= seen + r.everyone());
        assert forall|k: i64| seen.contains(k) && !(#[trigger] r.everyone().contains(k)) implies m5[k]
            == m0[k] by {
            assert(!r.panel.contains(k) && !r.og.contains(k) && !r.oo.contains(k) && !r.cg.contains(k)
                && !r.co.contains(k));
        }
        if places_unique(r) {
            let n1 = n0 + r.panel.len();
            let n2 = n1 + r.og.len();
            let n3 = n2 + r.oo.len();
            let n4 = n3 + r.cg.len();
            assert forall|loc: DrawLoc, p: i64| #[trigger] r.get(loc).contains(p) implies n0 + place_offset(
                r,
                loc,
            ) <= m5[p] < n0 + place_offset(r, loc) + r.get(loc).len() by {
                lemma_only_here(r, loc, p);
                match loc {
                    DrawLoc::Panel => {
                        assert(r.panel.contains(p));
                    },
                    DrawLoc::Team(Team::Og) => {
                        assert(r.og.contains(p));
                    },
                    DrawLoc::Team(Team::Oo) => {
                        assert(r.oo.contains(p));
                    },
                    DrawLoc::Team(Team::Cg) => {
                        assert(r.cg.contains(p));
                    },
                    DrawLoc::Team(Team::Co) => {
                        assert(r.co.contains(p));
                    },
                }
            }
            assert forall|v: u64| n0 <= v < *next implies #[trigger] id_taken(m5, r.everyone(), v) by {
                if v < n1 {
                    assert(id_taken(m1, r.panel, v));
                    let k = choose|k: i64| #[trigger] r.panel.contains(k) && m1[k] == v;
                    lemma_only_here(r, DrawLoc::Panel, k);
                    assert(r.everyone().contains(k));
                } else if v < n2 {
                    assert(id_taken(m2, r.og, v));
                    let k = choose|k: i64| #[trigger] r.og.contains(k) && m2[k] == v;
                    lemma_only_here(r, DrawLoc::Team(Team::Og), k);
                    assert(r.everyone().contains(k));
                } else if v < n3 {
                    assert(id_taken(m3, r.oo, v));
                    let k = choose|k: i64| #[trigger] r.oo.contains(k) && m3[k] == v;
                    lemma_only_here(r, DrawLoc::Team(Team::Oo), k);
                    assert(r.everyone().contains(k));
                } else if v < n4 {
                    assert(id_taken(m4, r.cg, v));
                    let k = choose|k: i64| #[trigger] r.cg.contains(k) && m4[k] == v;
                    lemma_only_here(r, DrawLoc::Team(Team::Cg), k);
                    assert(r.everyone().contains(k));
                } else {
                    assert(id_taken(m5, r.co, v));
                    let k = choose|k: i64| #[trigger] r.co.contains(k) && m5[k] == v;
                    assert(r.everyone().contains(k));
                }
            }
        }
    }
}

/// Someone of `s` has the short identifier `v`.
pub open spec fn id_taken(m: Map<i64, u64>, s: Set<i64>, v: u64) -> bool {
    exists|k: i64| #[trigger] s.contains(k) && m[k] == v
}

/// Numbers the members of `members` consecutively from `*next`; the map
/// held the people of `seen` before, with ids below `*next`.
fn assign_ids(
    id_map: &mut HashMap<i64, u64>,
    members: &HashSet<i64>,
    next: &mut u64,
    Ghost(seen): Ghost<Set<i64>>,
)
    requires
        *old(next) + members@.len() <= u64::MAX,
        old(id_map)@.dom() == seen,
        forall|k: i64| #[trigger] old(id_map)@.contains_key(k) ==> old(id_map)@[k] < *old(next),
        ids_distinct(old(id_map)@),
    ensures
        *final(next) == *old(next) + members@.len(),
        final(id_map)@.dom() == seen + members@,
        forall|k: i64| #[trigger] final(id_map)@.contains_key(k) ==> final(id_map)@[k] < *final(next),
        ids_distinct(final(id_map)@),
        forall|k: i64|
            #[trigger] members@.contains(k) ==> *old(next) <= final(id_map)@[k] < *final(next),
        forall|k: i64|
            seen.contains(k) && !(#[trigger] members@.contains(k)) ==> final(id_map)@[k]
                == old(id_map)@[k],
        forall|v: u64| *old(next) <= v < *final(next) ==> #[trigger] id_taken(final(id_map)@, members@, v),
{
    let v = set_elements(members);
    proof {
        v@.unique_seq_to_set();
    }
    let ghost start = *next;
    let ghost map0 = id_map@;
    let mut i: usize = 0;
    proof {
        assert(v@.take(0).to_set() =~= Set::<i64>::empty());
        assert(id_map@.dom() =~= seen + v@.take(0).to_set());
    }
    while i < v.len()
        invariant
            0 <= i <= v@.len(),
            v@.no_duplicates(),
            v@.to_set() == members@,
            v@.len() == members@.len(),
            start + members@.len() <= u64::MAX,
            *next == start + i,
            map0.dom() == seen,
            forall|k: i64| #[trigger] map0.contains_key(k) ==> map0[k] < start,
            id_map@.dom() == seen + v@.take(i as int).to_set(),
            forall|k: i64| #[trigger] id_map@.contains_key(k) ==> id_map@[k] < *next,
            ids_distinct(id_map@),
            forall|j: int| 0 <= j < i ==> id_map@[#[trigger] v@[j]] == start + j,
            forall|k: i64|
                seen.contains(k) && !(#[trigger] v@.take(i as int).to_set().contains(k))
                    ==> id_map@[k] == map0[k],
        decreases v@.len() - i,
    {
        let ghost before = id_map@;
        proof {
            assert(v@.take(i + 1) =~= v@.take(i as int) + seq![v@[i as int]]);
            Seq::<i64>::lemma_to_set_insert_commutes(v@.take(i as int), v@[i as int]);
        }
        let x = v[i];
        let n = *next;
        id_map.insert(x, n);
        *next = n + 1;
        proof {
            assert(id_map@.dom() =~= seen + v@.take(i + 1).to_set());
            assert forall|k1: i64, k2: i64|
                #[trigger] id_map@.contains_key(k1) && #[trigger] id_map@.contains_key(k2) && k1 != k2
                implies id_map@[k1] != id_map@[k2] by {
                if k1 != x && k2 != x {
                    assert(before.contains_key(k1) && before.contains_key(k2));
                } else if k1 == x {
                    assert(before.contains_key(k2));
                } else {
                    assert(before.contains_key(k1));
                }
            }
            assert forall|j: int| 0 <= j < i + 1 implies id_map@[#[trigger] v@[j]] == start + j by {
                if j < i {
                    assert(v@[j] != x);
                }
            }
            assert forall|k: i64|
                seen.contains(k) && !(#[trigger] v@.take(i + 1).to_set().contains(k)) implies id_map@[k]
                == map0[k] by {
                assert(v@.take(i + 1).to_set().contains(x));
                assert(!v@.take(i as int).to_set().contains(k));
            }
        }
        i = i + 1;
    }
    proof {
        assert(v@.take(v.len() as int) =~= v@);
        assert forall|k: i64| #[trigger] members@.contains(k) implies start <= id_map@[k] < *next by {
            assert(v@.to_set().contains(k));
            let j = choose|j: int| 0 <= j < v@.len() && v@[j] == k;
            assert(id_map@[v@[j]] == start + j);
        }
        assert forall|val: u64| start <= val < *next implies #[trigger] id_taken(id_map@, members@, val) by {
            let j = val - start;
            assert(id_map@[v@[j]] == start + j);
            assert(v@.to_set().contains(v@[j]));
        }
    }
}

/// Prefixes of a sequence of rooms fill no more seats than the whole.
pub proof fn lemma_seat_count_prefix(rooms: Seq<RoomSets>, n: int)
    requires
        0 <= n <= rooms.len(),
    ensures
        seat_count(rooms.take(n)) <= seat_count(rooms),
    decreases rooms.len(),
{
    if n < rooms.len() {
        assert(rooms.drop_last().take(n) =~= rooms.take(n));
        lemma_seat_count_prefix(rooms.drop_last(), n);
    } else {
        assert(rooms.take(n) =~= rooms);
    }
}

/// The elements of a set of participants, each once, in the set's own order.
pub fn set_elements(s: &HashSet<i64>) -> (v: Vec<i64>)
    ensures
        v@.no_duplicates(),
        v@.to_set() == s@,
{
    let mut v: Vec<i64> = Vec::new();
    for x in it: s.iter()
        invariant
            v@ == it.seq().take(it.index()).unref(),
            it.seq() == vstd::std_specs::hash::spec_hash_keys_iter(s).remaining(),
    {
        v.push(*x);
    }
    proof {
        let whole = vstd::std_specs::hash::spec_hash_keys_iter(s).remaining();
        assert(whole.take(whole.len() as int) == whole);
    }
    v
}

} // verus!
