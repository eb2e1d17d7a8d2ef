//! The mathematical model of a room: its occupants, in the order they joined.
//!
//! Everything here is specification. The executable room and registry state
//! their contracts over these functions.

use vstd::prelude::*;

verus! {

/// One occupant of a room as contracts see it: a name and the outbound
/// endpoint that belongs to it.
pub struct Seat<S> {
    pub name: Seq<char>,
    pub sender: S,
}

/// The predicate "is not called `name`".
pub open spec fn not_named<S>(name: Seq<char>) -> spec_fn(Seat<S>) -> bool {
    |seat: Seat<S>| seat.name != name
}

/// The projection of a seat to its name.
pub open spec fn name_of<S>() -> spec_fn(Seat<S>) -> Seq<char> {
    |seat: Seat<S>| seat.name
}

/// Whether some occupant is called `name`.
pub open spec fn has_name<S>(seats: Seq<Seat<S>>, name: Seq<char>) -> bool {
    exists|i: int| 0 <= i < seats.len() && (#[trigger] seats[i]).name == name
}

/// The place of an occupant called `name`; meaningful when there is one.
pub open spec fn seat_of<S>(seats: Seq<Seat<S>>, name: Seq<char>) -> int {
    choose|i: int| 0 <= i < seats.len() && (#[trigger] seats[i]).name == name
}

/// The endpoint registered under `name`, if any.
pub open spec fn sender_of<S>(seats: Seq<Seat<S>>, name: Seq<char>) -> Option<S> {
    if has_name(seats, name) {
        Some(seats[seat_of(seats, name)].sender)
    } else {
        None
    }
}

/// No two occupants share a name.
pub open spec fn distinct<S>(seats: Seq<Seat<S>>) -> bool {
    forall|i: int, j: int|
        0 <= i < j < seats.len() ==> (#[trigger] seats[i]).name != (#[trigger] seats[j]).name
}

/// The names of the occupants, in joining order.
pub open spec fn names_of<S>(seats: Seq<Seat<S>>) -> Seq<Seq<char>> {
    seats.map_values(name_of())
}

/// The room after `name` asks to join with `sender`: a name that is already
/// taken keeps its first holder and the newcomer is not seated.
pub open spec fn joined<S>(seats: Seq<Seat<S>>, name: Seq<char>, sender: S) -> Seq<Seat<S>> {
    if has_name(seats, name) {
        seats
    } else {
        seats.push(Seat { name, sender })
    }
}

/// The room after `name` leaves: everyone else, in the same order.
pub open spec fn left<S>(seats: Seq<Seat<S>>, name: Seq<char>) -> Seq<Seat<S>> {
    seats.filter(not_named(name))
}

/// The names of everyone but `name`, in joining order.
pub open spec fn others<S>(seats: Seq<Seat<S>>, name: Seq<char>) -> Seq<Seq<char>> {
    names_of(left(seats, name))
}

/// In a room without repeated names, the endpoint found under a name is the
/// one of the only seat that carries it.
pub proof fn lemma_sender_at<S>(seats: Seq<Seat<S>>, i: int)
    requires
        distinct(seats),
        0 <= i < seats.len(),
    ensures
        has_name(seats, seats[i].name),
        seat_of(seats, seats[i].name) == i,
        sender_of(seats, seats[i].name) == Some(seats[i].sender),
{
    let name = seats[i].name;
    assert(has_name(seats, name));
    let k = seat_of(seats, name);
    assert(0 <= k < seats.len() && seats[k].name == name);
    if k < i {
        assert(seats[k].name != seats[i].name);
    } else if i < k {
        assert(seats[i].name != seats[k].name);
    }
}

/// Joining keeps names unrepeated.
pub proof fn lemma_joined_distinct<S>(seats: Seq<Seat<S>>, name: Seq<char>, sender: S)
    requires
        distinct(seats),
    ensures
        distinct(joined(seats, name, sender)),
{
    if !has_name(seats, name) {
        let after = seats.push(Seat { name, sender });
        assert forall|i: int, j: int| 0 <= i < j < after.len() implies (#[trigger] after[i]).name
            != (#[trigger] after[j]).name by {
            if j == seats.len() {
                assert(after[i] == seats[i]);
                assert(seats[i].name != name);
            } else {
                assert(after[i] == seats[i] && after[j] == seats[j]);
            }
        }
    }
}

/// Whoever asked to join, the name is held afterwards.
pub proof fn lemma_joined_has_name<S>(seats: Seq<Seat<S>>, name: Seq<char>, sender: S)
    ensures
        has_name(joined(seats, name, sender), name),
{
    if !has_name(seats, name) {
        let after = seats.push(Seat { name, sender });
        assert(after[seats.len() as int].name == name);
    }
}

/// Leaving keeps names unrepeated.
pub proof fn lemma_left_distinct<S>(seats: Seq<Seat<S>>, name: Seq<char>)
    requires
        distinct(seats),
    ensures
        distinct(left(seats, name)),
{
    if has_name(seats, name) {
        let i = seat_of(seats, name);
        lemma_left_at(seats, i);
        let after = seats.remove(i);
        assert forall|a: int, b: int| 0 <= a < b < after.len() implies (#[trigger] after[a]).name
            != (#[trigger] after[b]).name by {
            let x = if a < i { a } else { a + 1 };
            let y = if b < i { b } else { b + 1 };
            assert(after[a] == seats[x] && after[b] == seats[y]);
        }
    } else {
        lemma_left_absent(seats, name);
    }
}

/// Leaving a room in which nobody carries the name changes nothing.
pub proof fn lemma_left_absent<S>(seats: Seq<Seat<S>>, name: Seq<char>)
    requires
        !has_name(seats, name),
    ensures
        left(seats, name) == seats,
    decreases seats.len(),
{
    if seats.len() > 0 {
        let front = seats.drop_last();
        assert forall|i: int| 0 <= i < front.len() implies (#[trigger] front[i]).name != name by {
            assert(front[i] == seats[i]);
        }
        lemma_left_absent(front, name);
        assert(seats.last() == seats[seats.len() - 1]);
        assert(not_named::<S>(name)(seats.last()));
        assert(front.push(seats.last()) =~= seats);
        front.lemma_filter_push(seats.last(), not_named(name));
    }
}

/// Leaving removes exactly the one seat that carries the name.
pub proof fn lemma_left_at<S>(seats: Seq<Seat<S>>, i: int)
    requires
        distinct(seats),
        0 <= i < seats.len(),
    ensures
        left(seats, seats[i].name) == seats.remove(i),
    decreases seats.len(),
{
    let name = seats[i].name;
    let front = seats.drop_last();
    let last = seats.last();
    assert(front.push(last) =~= seats);
    front.lemma_filter_push(last, not_named(name));
    if i == seats.len() - 1 {
        assert forall|k: int| 0 <= k < front.len() implies (#[trigger] front[k]).name != name by {
            assert(front[k] == seats[k]);
            assert(seats[k].name != seats[i].name);
        }
        lemma_left_absent(front, name);
        assert(!not_named::<S>(name)(last));
        assert(seats.remove(i) =~= front);
    } else {
        assert(distinct(front)) by {
            assert forall|a: int, b: int| 0 <= a < b < front.len() implies (#[trigger] front[a]).name
                != (#[trigger] front[b]).name by {
                assert(front[a] == seats[a] && front[b] == seats[b]);
            }
        }
        assert(front[i] == seats[i]);
        lemma_left_at(front, i);
        assert(seats[i].name != seats[seats.len() - 1].name);
        assert(not_named::<S>(name)(last));
        assert(front.remove(i).push(last) =~= seats.remove(i));
    }
}

/// The occupants of the room called `code`; a room that does not exist has
/// none.
pub open spec fn room_at<S>(rooms: Map<Seq<char>, Seq<Seat<S>>>, code: Seq<char>) -> Seq<Seat<S>> {
    if rooms.contains_key(code) {
        rooms[code]
    } else {
        Seq::empty()
    }
}

/// Names are unique within every room.
pub open spec fn all_distinct<S>(rooms: Map<Seq<char>, Seq<Seat<S>>>) -> bool {
    forall|code: Seq<char>| rooms.contains_key(code) ==> distinct(#[trigger] rooms[code])
}

/// The rooms after `name` asks to join the room called `code`, which comes
/// into being if it was not there.
pub open spec fn after_join<S>(
    rooms: Map<Seq<char>, Seq<Seat<S>>>,
    code: Seq<char>,
    name: Seq<char>,
    sender: S,
) -> Map<Seq<char>, Seq<Seat<S>>> {
    rooms.insert(code, joined(room_at(rooms, code), name, sender))
}

/// The rooms after `name` leaves the room called `code`. A room stays when
/// its last occupant leaves.
pub open spec fn after_leave<S>(
    rooms: Map<Seq<char>, Seq<Seat<S>>>,
    code: Seq<char>,
    name: Seq<char>,
) -> Map<Seq<char>, Seq<Seat<S>>> {
    if rooms.contains_key(code) {
        rooms.insert(code, left(rooms[code], name))
    } else {
        rooms
    }
}

/// The endpoint that a message to `name` in the room called `code` reaches,
/// if any.
pub open spec fn recipient_of<S>(
    rooms: Map<Seq<char>, Seq<Seat<S>>>,
    code: Seq<char>,
    name: Seq<char>,
) -> Option<S> {
    sender_of(room_at(rooms, code), name)
}

/// The rooms after the `joiners` have asked, one after the other, to join
/// the room called `code`.
pub open spec fn after_joins<S>(
    rooms: Map<Seq<char>, Seq<Seat<S>>>,
    code: Seq<char>,
    joiners: Seq<Seat<S>>,
) -> Map<Seq<char>, Seq<Seat<S>>>
    decreases joiners.len(),
{
    if joiners.len() == 0 {
        rooms
    } else {
        after_join(
            after_joins(rooms, code, joiners.drop_last()),
            code,
            joiners.last().name,
            joiners.last().sender,
        )
    }
}

/// Nobody who leaves can be found afterwards.
pub proof fn lemma_left_is_gone<S>(seats: Seq<Seat<S>>, name: Seq<char>)
    ensures
        !has_name(left(seats, name), name),
        sender_of(left(seats, name), name) is None,
{
    let kept = left(seats, name);
    assert forall|i: int| 0 <= i < kept.len() implies (#[trigger] kept[i]).name != name by {
        seats.lemma_filter_pred(not_named(name), i);
    }
}

/// A departure leaves everyone else where they were: whoever is found under
/// another name is found there afterwards, with the same endpoint.
pub proof fn lemma_left_keeps_others<S>(seats: Seq<Seat<S>>, name: Seq<char>, other: Seq<char>)
    requires
        distinct(seats),
        other != name,
    ensures
        sender_of(left(seats, name), other) == sender_of(seats, other),
{
    let kept = left(seats, name);
    lemma_left_distinct(seats, name);
    if has_name(seats, other) {
        let i = seat_of(seats, other);
        lemma_sender_at(seats, i);
        assert(not_named::<S>(name)(seats[i]));
        seats.lemma_filter_contains(not_named(name), i);
        let k = choose|k: int| 0 <= k < kept.len() && kept[k] == seats[i];
        lemma_sender_at(kept, k);
    } else {
        if has_name(kept, other) {
            let k = seat_of(kept, other);
            assert(kept.contains(kept[k]));
            seats.lemma_filter_contains_rev(not_named(name), kept[k]);
            let i = choose|i: int| 0 <= i < seats.len() && seats[i] == kept[k];
            assert(seats[i].name == other);
        }
    }
}

/// A join leaves everyone else where they were.
pub proof fn lemma_joined_keeps_others<S>(
    seats: Seq<Seat<S>>,
    name: Seq<char>,
    sender: S,
    other: Seq<char>,
)
    requires
        distinct(seats),
        other != name,
    ensures
        sender_of(joined(seats, name, sender), other) == sender_of(seats, other),
{
    let after = joined(seats, name, sender);
    lemma_joined_distinct(seats, name, sender);
    if has_name(seats, other) {
        let i = seat_of(seats, other);
        lemma_sender_at(seats, i);
        assert(after[i] == seats[i]);
        lemma_sender_at(after, i);
    } else {
        if has_name(after, other) {
            let k = seat_of(after, other);
            if k < seats.len() {
                assert(seats[k] == after[k]);
            }
        }
    }
}

/// After a join the name is held: by the newcomer where it was free, by its
/// first holder where it was taken.
pub proof fn lemma_joined_holder<S>(seats: Seq<Seat<S>>, name: Seq<char>, sender: S)
    requires
        distinct(seats),
    ensures
        sender_of(joined(seats, name, sender), name) == Some(
            match sender_of(seats, name) {
                Some(first) => first,
                None => sender,
            },
        ),
{
    if !has_name(seats, name) {
        let after = seats.push(Seat { name, sender });
        lemma_joined_distinct(seats, name, sender);
        lemma_sender_at(after, seats.len() as int);
    }
}

/// The names in a room after a join are the names before it and the
/// joiner's.
pub proof fn lemma_joined_names<S>(seats: Seq<Seat<S>>, name: Seq<char>, sender: S)
    ensures
        names_of(joined(seats, name, sender)).to_set() == names_of(seats).to_set().insert(name),
{
    let before = names_of(seats);
    let after = names_of(joined(seats, name, sender));
    if has_name(seats, name) {
        let i = seat_of(seats, name);
        assert(before[i] == name);
        assert(before.to_set() =~= before.to_set().insert(name));
    } else {
        assert(after =~= before.push(name));
        assert forall|n: Seq<char>| after.to_set().contains(n) <==> before.to_set().insert(
            name,
        ).contains(n) by {
            if after.contains(n) {
                let i = choose|i: int| 0 <= i < after.len() && after[i] == n;
                if i < before.len() {
                    assert(before[i] == n);
                }
            }
            if before.contains(n) {
                let i = choose|i: int| 0 <= i < before.len() && before[i] == n;
                assert(after[i] == n);
            }
            if n == name {
                assert(after[before.len() as int] == n);
            }
        }
        assert(after.to_set() =~= before.to_set().insert(name));
    }
}

/// The list of the others holds everyone's name but one's own: it never
/// holds `name`, it holds every other name of the room and no name from
/// elsewhere, and where the room's names are unrepeated, so are the list's.
pub proof fn lemma_others_are_the_rest<S>(seats: Seq<Seat<S>>, name: Seq<char>)
    ensures
        !others(seats, name).contains(name),
        others(seats, name).to_set() == names_of(seats).to_set().remove(name),
        distinct(seats) ==> others(seats, name).no_duplicates(),
{
    let kept = left(seats, name);
    let rest = others(seats, name);
    let all = names_of(seats);
    assert forall|i: int| 0 <= i < kept.len() implies (#[trigger] kept[i]).name != name by {
        seats.lemma_filter_pred(not_named(name), i);
    }
    assert(!rest.contains(name)) by {
        if rest.contains(name) {
            let i = choose|i: int| 0 <= i < rest.len() && rest[i] == name;
            assert(kept[i].name == name);
        }
    }
    assert forall|n: Seq<char>| rest.to_set().contains(n) <==> all.to_set().remove(name).contains(
        n,
    ) by {
        if rest.contains(n) {
            let i = choose|i: int| 0 <= i < rest.len() && rest[i] == n;
            assert(kept[i].name == n);
            assert(kept.contains(kept[i]));
            seats.lemma_filter_contains_rev(not_named(name), kept[i]);
            let j = choose|j: int| 0 <= j < seats.len() && seats[j] == kept[i];
            assert(all[j] == n);
        }
        if all.contains(n) && n != name {
            let j = choose|j: int| 0 <= j < all.len() && all[j] == n;
            assert(not_named::<S>(name)(seats[j]));
            seats.lemma_filter_contains(not_named(name), j);
            let i = choose|i: int| 0 <= i < kept.len() && kept[i] == seats[j];
            assert(rest[i] == n);
        }
    }
    assert(rest.to_set() =~= all.to_set().remove(name));
    if distinct(seats) {
        lemma_left_distinct(seats, name);
        assert forall|a: int, b: int| 0 <= a < rest.len() && 0 <= b < rest.len() && a != b implies rest[a]
            != rest[b] by {
            if a < b {
                assert(kept[a].name != kept[b].name);
            } else {
                assert(kept[b].name != kept[a].name);
            }
        }
    }
}

/// However many clients ask to join one room, and in whatever order their
/// requests are taken, nobody is lost and nothing is made twice: afterwards
/// there is exactly one room under the code, every other room is as it was,
/// and the room holds the names it held before and the name of every joiner.
pub proof fn lemma_joins_lose_nobody<S>(
    rooms: Map<Seq<char>, Seq<Seat<S>>>,
    code: Seq<char>,
    joiners: Seq<Seat<S>>,
)
    requires
        joiners.len() > 0,
    ensures
        after_joins(rooms, code, joiners).dom() == rooms.dom().insert(code),
        after_joins(rooms, code, joiners).remove(code) == rooms.remove(code),
        names_of(after_joins(rooms, code, joiners)[code]).to_set() == names_of(
            room_at(rooms, code),
        ).to_set().union(names_of(joiners).to_set()),
        distinct(room_at(rooms, code)) ==> distinct(after_joins(rooms, code, joiners)[code]),
    decreases joiners.len(),
{
    let earlier = joiners.drop_last();
    let last = joiners.last();
    let before = after_joins(rooms, code, earlier);
    let after = after_joins(rooms, code, joiners);
    let start = names_of(room_at(rooms, code)).to_set();
    assert(names_of(joiners) =~= names_of(earlier).push(last.name));
    assert(names_of(joiners).to_set() =~= names_of(earlier).to_set().insert(last.name)) by {
        let a = names_of(joiners);
        let b = names_of(earlier);
        assert forall|n: Seq<char>| a.to_set().contains(n) <==> b.to_set().insert(
            last.name,
        ).contains(n) by {
            if a.contains(n) {
                let i = choose|i: int| 0 <= i < a.len() && a[i] == n;
                if i < b.len() {
                    assert(b[i] == n);
                }
            }
            if b.contains(n) {
                let i = choose|i: int| 0 <= i < b.len() && b[i] == n;
                assert(a[i] == n);
            }
            if n == last.name {
                assert(a[b.len() as int] == n);
            }
        }
    }
    lemma_joined_names(room_at(before, code), last.name, last.sender);
    if earlier.len() == 0 {
        assert(before == rooms);
        assert(names_of(earlier).to_set() =~= Set::<Seq<char>>::empty());
        assert(after.dom() =~= rooms.dom().insert(code));
        assert(after.remove(code) =~= rooms.remove(code));
        assert(start.insert(last.name) =~= start.union(names_of(joiners).to_set()));
        if distinct(room_at(rooms, code)) {
            lemma_joined_distinct(room_at(rooms, code), last.name, last.sender);
        }
    } else {
        lemma_joins_lose_nobody(rooms, code, earlier);
        assert(before.contains_key(code));
        assert(after.dom() =~= rooms.dom().insert(code));
        assert(after.remove(code) =~= before.remove(code));
        assert(start.union(names_of(earlier).to_set()).insert(last.name) =~= start.union(
            names_of(joiners).to_set(),
        ));
        if distinct(room_at(rooms, code)) {
            lemma_joined_distinct(before[code], last.name, last.sender);
        }
    }
}

} // verus!
