//! JSON values. Parsing and printing are the `serde_json` crate's; this module
//! holds the value in between.

use vstd::prelude::*;
use vstd::string::*;

use crate::numerals;
use crate::order;
use crate::text;

verus! {

/// A JSON value. A number is held as its text; the members of an object are held
/// in the order in which they were given.
#[derive(Debug, PartialEq, Eq)]
pub enum Json {
    Null,
    Bool(bool),
    Number(String),
    Str(String),
    Array(Vec<Json>),
    Object(Vec<(String, Json)>),
}

/// The mathematical model of a JSON value.
pub enum JsonV {
    Null,
    Bool(bool),
    Number(Seq<char>),
    Str(Seq<char>),
    Array(Seq<JsonV>),
    Object(Seq<(Seq<char>, JsonV)>),
}

/// What a JSON value holds.
pub open spec fn json_view(json: Json) -> JsonV
    decreases json,
{
    match json {
        Json::Null => JsonV::Null,
        Json::Bool(b) => JsonV::Bool(b),
        Json::Number(n) => JsonV::Number(n@),
        Json::Str(s) => JsonV::Str(s@),
        Json::Array(items) => JsonV::Array(
            Seq::new(
                items@.len(),
                |i: int|
                    if 0 <= i < items@.len() {
                        json_view(items@[i])
                    } else {
                        JsonV::Null
                    },
            ),
        ),
        Json::Object(members) => JsonV::Object(
            Seq::new(
                members@.len(),
                |i: int|
                    if 0 <= i < members@.len() {
                        (members@[i].0@, json_view(members@[i].1))
                    } else {
                        (Seq::<char>::empty(), JsonV::Null)
                    },
            ),
        ),
    }
}

impl View for Json {
    type V = JsonV;

    open spec fn view(&self) -> JsonV {
        json_view(*self)
    }
}

/// The values of the elements of a list.
pub open spec fn views(items: Seq<Json>) -> Seq<JsonV> {
    Seq::new(items.len(), |i: int| items[i]@)
}

/// The names and values of a list of members.
pub open spec fn member_views(members: Seq<(String, Json)>) -> Seq<(Seq<char>, JsonV)> {
    Seq::new(members.len(), |i: int| (members[i].0@, members[i].1@))
}

/// An array holds the values of its elements, an object those of its members.
pub broadcast proof fn lemma_views(json: Json)
    ensures
        json matches Json::Array(items) ==> #[trigger] json@ == JsonV::Array(views(items@)),
        json matches Json::Object(members) ==> json@ == JsonV::Object(member_views(members@)),
{
    match json {
        Json::Array(items) => {
            assert(json@->Array_0 =~= views(items@));
        },
        Json::Object(members) => {
            assert(json@->Object_0 =~= member_views(members@));
        },
        _ => {},
    }
}

/// The value of the first member with the given name.
pub open spec fn member(members: Seq<(Seq<char>, JsonV)>, name: Seq<char>) -> Option<JsonV>
    decreases members.len(),
{
    if members.len() == 0 {
        None
    } else if members[0].0 == name {
        Some(members[0].1)
    } else {
        member(members.drop_first(), name)
    }
}

/// One member more at the end is found under its name where there was none before, and hides
/// no other.
pub broadcast proof fn lemma_member_push(
    members: Seq<(Seq<char>, JsonV)>,
    added: (Seq<char>, JsonV),
    name: Seq<char>,
)
    ensures
        #[trigger] member(members.push(added), name) == (if added.0 == name && member(
            members,
            name,
        ) is None {
            Some(added.1)
        } else {
            member(members, name)
        }),
    decreases members.len(),
{
    let longer = members.push(added);
    if members.len() > 0 {
        assert(longer.drop_first() =~= members.drop_first().push(added));
        lemma_member_push(members.drop_first(), added, name);
    } else {
        reveal_with_fuel(member, 2);
        assert(longer[0] == added);
    }
}

/// The first of at most eight members with the given name.
pub open spec fn among(members: Seq<(Seq<char>, JsonV)>, name: Seq<char>) -> Option<JsonV> {
    if members.len() > 0 && members[0].0 == name {
        Some(members[0].1)
    } else if members.len() > 1 && members[1].0 == name {
        Some(members[1].1)
    } else if members.len() > 2 && members[2].0 == name {
        Some(members[2].1)
    } else if members.len() > 3 && members[3].0 == name {
        Some(members[3].1)
    } else if members.len() > 4 && members[4].0 == name {
        Some(members[4].1)
    } else if members.len() > 5 && members[5].0 == name {
        Some(members[5].1)
    } else if members.len() > 6 && members[6].0 == name {
        Some(members[6].1)
    } else if members.len() > 7 && members[7].0 == name {
        Some(members[7].1)
    } else {
        None
    }
}

/// A short object holds under a name the first member with it.
pub broadcast proof fn lemma_member_short(members: Seq<(Seq<char>, JsonV)>, name: Seq<char>)
    ensures
        members.len() <= 8 ==> #[trigger] member(members, name) == among(members, name),
{
    reveal_with_fuel(member, 9);
}

/// Of two lists of members in a row, the first with a name is found.
pub proof fn lemma_member_add(
    first: Seq<(Seq<char>, JsonV)>,
    second: Seq<(Seq<char>, JsonV)>,
    name: Seq<char>,
)
    ensures
        member(first + second, name) == (if member(first, name) is Some {
            member(first, name)
        } else {
            member(second, name)
        }),
    decreases first.len(),
{
    let all = first + second;
    if first.len() > 0 {
        assert(all.drop_first() =~= first.drop_first() + second);
        lemma_member_add(first.drop_first(), second, name);
    } else {
        assert(all =~= second);
    }
}

impl JsonV {
    /// The member of an object with the given name.
    pub open spec fn get(self, name: Seq<char>) -> Option<JsonV> {
        match self {
            JsonV::Object(members) => member(members, name),
            _ => None,
        }
    }
}

impl Json {
    /// The member of an object with the given name.
    pub fn get(&self, name: &str) -> (found: Option<&Json>)
        ensures
            match found {
                Some(value) => self@.get(name@) == Some(value@),
                None => self@.get(name@) is None,
            },
    {
        broadcast use lemma_views;

        match self {
            Json::Object(members) => {
                let ghost all = member_views(members@);
                assert(self@ == JsonV::Object(all));
                let mut i: usize = 0;
                assert(all.skip(0) =~= all);
                while i < members.len()
                    invariant
                        i <= members@.len(),
                        all == member_views(members@),
                        self@ == JsonV::Object(all),
                        member(all, name@) == member(all.skip(i as int), name@),
                    decreases members.len() - i,
                {
                    assert(all.skip(i as int).drop_first() =~= all.skip(i + 1));
                    if text::same_text(members[i].0.as_str(), name) {
                        return Some(&members[i].1);
                    }
                    i += 1;
                }
                None
            },
            _ => None,
        }
    }
}

impl Json {
    /// A copy of the value.
    pub fn copy(&self) -> (json: Json)
        ensures
            json@ == self@,
        decreases self,
    {
        broadcast use lemma_views;

        match self {
            Json::Null => Json::Null,
            Json::Bool(b) => Json::Bool(*b),
            Json::Number(n) => Json::Number(n.clone()),
            Json::Str(s) => Json::Str(s.clone()),
            Json::Array(items) => {
                let mut copies: Vec<Json> = Vec::new();
                let mut i: usize = 0;
                while i < items.len()
                    invariant
                        i <= items@.len(),
                        *self == Json::Array(*items),
                        views(copies@) == views(items@).take(i as int),
                    decreases items.len() - i,
                {
                    assert(decreases_to!(*self => self->Array_0@[i as int]));
                    push(&mut copies, items[i].copy());
                    i += 1;
                    assert(views(copies@) =~= views(items@).take(i as int));
                }
                assert(views(items@).take(i as int) =~= views(items@));
                array(copies)
            },
            Json::Object(members) => {
                let mut copies: Vec<(String, Json)> = Vec::new();
                let mut i: usize = 0;
                while i < members.len()
                    invariant
                        i <= members@.len(),
                        *self == Json::Object(*members),
                        member_views(copies@) == member_views(members@).take(i as int),
                    decreases members.len() - i,
                {
                    assert(decreases_to!(*self => self->Object_0@[i as int].1));
                    put(&mut copies, members[i].0.as_str(), members[i].1.copy());
                    i += 1;
                    assert(member_views(copies@) =~= member_views(members@).take(i as int));
                }
                assert(member_views(members@).take(i as int) =~= member_views(members@));
                object(copies)
            },
        }
    }
}

/// A JSON string.
pub fn string(s: &str) -> (json: Json)
    ensures
        json@ == JsonV::Str(s@),
{
    Json::Str(s.to_owned())
}

/// A JSON number.
pub fn number(n: i64) -> (json: Json)
    ensures
        json@ == int_view(n as int),
{
    Json::Number(numerals::numeral_int(n))
}

/// A JSON number that is not negative.
pub fn natural(n: u64) -> (json: Json)
    ensures
        json@ == int_view(n as int),
{
    Json::Number(numerals::numeral(n))
}

/// What the JSON number of an integer holds.
pub open spec fn int_view(n: int) -> JsonV {
    JsonV::Number(numerals::decimal_int(n))
}

/// A JSON array.
pub fn array(items: Vec<Json>) -> (json: Json)
    ensures
        json@ == JsonV::Array(views(items@)),
{
    broadcast use lemma_views;

    let json = Json::Array(items);
    json
}

/// A JSON object.
pub fn object(members: Vec<(String, Json)>) -> (json: Json)
    ensures
        json@ == JsonV::Object(member_views(members@)),
{
    broadcast use lemma_views;

    let json = Json::Object(members);
    json
}

/// Adds a member at the end.
pub fn put(members: &mut Vec<(String, Json)>, name: &str, value: Json)
    ensures
        member_views(final(members)@) == member_views(old(members)@).push((name@, value@)),
{
    let ghost before = members@;
    members.push((name.to_owned(), value));
    assert(member_views(members@) =~= member_views(before).push((name@, value@)));
}

/// An object with one member.
pub fn single(name: &str, value: Json) -> (object: Json)
    ensures
        object@ == JsonV::Object(seq![(name@, value@)]),
{
    let mut members: Vec<(String, Json)> = Vec::new();
    let ghost v = value@;
    put(&mut members, name, value);
    assert(member_views(members@) =~= seq![(name@, v)]);
    object(members)
}

/// An object with two members.
pub fn pair(first: &str, value: Json, second: &str, other: Json) -> (object: Json)
    ensures
        object@ == JsonV::Object(seq![(first@, value@), (second@, other@)]),
{
    let mut members: Vec<(String, Json)> = Vec::new();
    let ghost v = value@;
    let ghost w = other@;
    put(&mut members, first, value);
    put(&mut members, second, other);
    assert(member_views(members@) =~= seq![(first@, v), (second@, w)]);
    object(members)
}

/// Adds an element at the end.
pub fn push(items: &mut Vec<Json>, item: Json)
    ensures
        views(final(items)@) == views(old(items)@).push(item@),
{
    let ghost before = items@;
    items.push(item);
    assert(views(items@) =~= views(before).push(item@));
}

/// A JSON array of strings.
pub fn strings(list: &[String]) -> (json: Json)
    ensures
        json@ == strings_view(text::texts(list@)),
{
    let mut items: Vec<Json> = Vec::new();
    let mut i: usize = 0;
    while i < list.len()
        invariant
            i <= list.len(),
            views(items@) == Seq::new(i as nat, |j: int| JsonV::Str(list@[j]@)),
        decreases list.len() - i,
    {
        push(&mut items, string(list[i].as_str()));
        i += 1;
        assert(views(items@) =~= Seq::new(i as nat, |j: int| JsonV::Str(list@[j]@)));
    }
    let json = array(items);
    assert(json@->Array_0 =~= strings_view(text::texts(list@))->Array_0);
    json
}

/// What the JSON array of a list of strings holds.
pub open spec fn strings_view(list: Seq<Seq<char>>) -> JsonV {
    JsonV::Array(list.map_values(|s: Seq<char>| JsonV::Str(s)))
}

/// The JSON array of a list of strings holds each of them, in order.
pub proof fn law_strings_shown(list: Seq<String>)
    ensures
        strings_view(text::texts(list)) matches JsonV::Array(items) && items.len() == list.len()
            && forall|k: int|
            0 <= k < list.len() ==> #[trigger] items[k] == JsonV::Str(list[k]@),
{
}

/// What `serde_json::from_slice` makes of a text: the value, or the message of
/// the error.
pub uninterp spec fn parsed(bytes: Seq<u8>) -> Result<JsonV, Seq<char>>;

/// What `serde_json::to_vec` writes for a value.
pub uninterp spec fn printed(value: JsonV) -> Seq<u8>;

/// How deep the arrays and objects of a plain value may lie in each other.
pub open spec fn plain_depth() -> nat {
    100
}

/// A text denotes a value.
pub open spec fn denotes(bytes: Seq<u8>, value: JsonV) -> bool {
    parsed(bytes) == Ok::<JsonV, Seq<char>>(value)
}

/// A plain value that is printed can be read back.
pub open spec fn reads_back(bytes: Seq<u8>, value: JsonV) -> bool {
    plain(value, plain_depth()) ==> denotes(bytes, value)
}

/// A number that is written as an integer of 64 bits.
pub open spec fn plain_number(n: Seq<char>) -> bool {
    exists|i: int| i64::MIN <= i <= u64::MAX && n == #[trigger] numerals::decimal_int(i)
}

/// The names of a list of members.
pub open spec fn names(members: Seq<(Seq<char>, JsonV)>) -> Seq<Seq<char>> {
    members.map_values(|m: (Seq<char>, JsonV)| m.0)
}

/// A value that stays the same when it is printed and parsed: its numbers are integers,
/// the names in each of its objects differ, and it is not nested too deeply.
pub open spec fn plain(value: JsonV, depth: nat) -> bool
    decreases value,
{
    match value {
        JsonV::Number(n) => plain_number(n),
        JsonV::Array(items) => depth > 0 && forall|i: int|
            0 <= i < items.len() ==> plain(#[trigger] items[i], (depth - 1) as nat),
        JsonV::Object(members) => {
            &&& depth > 0
            &&& names(members).no_duplicates()
            &&& forall|i: int|
                0 <= i < members.len() ==> plain((#[trigger] members[i]).1, (depth - 1) as nat)
        },
        _ => true,
    }
}

/// An integer of 64 bits is a plain number.
pub proof fn lemma_int_plain(n: int, depth: nat)
    requires
        i64::MIN <= n <= u64::MAX,
    ensures
        plain(int_view(n), depth),
{
}

/// A list of members in name order with one more member, behind those whose names do not
/// come after its own.
pub open spec fn placed(
    list: Seq<(Seq<char>, JsonV)>,
    member: (Seq<char>, JsonV),
) -> Seq<(Seq<char>, JsonV)>
    decreases list.len(),
{
    if list.len() == 0 || !order::before(member.0, list.last().0) {
        list.push(member)
    } else {
        placed(list.drop_last(), member).push(list.last())
    }
}

/// Members in the order of their names.
pub open spec fn sorted_members(members: Seq<(Seq<char>, JsonV)>) -> Seq<(Seq<char>, JsonV)>
    decreases members.len(),
{
    if members.len() == 0 {
        seq![]
    } else {
        placed(sorted_members(members.drop_last()), members.last())
    }
}

/// A value with the members of each of its objects in name order.
pub open spec fn sorted(value: JsonV) -> JsonV
    decreases value,
{
    match value {
        JsonV::Array(items) => JsonV::Array(
            Seq::new(
                items.len(),
                |i: int|
                    if 0 <= i < items.len() {
                        sorted(items[i])
                    } else {
                        JsonV::Null
                    },
            ),
        ),
        JsonV::Object(members) => JsonV::Object(sorted_members(values_sorted(members))),
        _ => value,
    }
}

/// The members of an object with their values sorted.
pub open spec fn values_sorted(members: Seq<(Seq<char>, JsonV)>) -> Seq<(Seq<char>, JsonV)>
    decreases members,
{
    Seq::new(
        members.len(),
        |i: int|
            if 0 <= i < members.len() {
                (members[i].0, sorted(members[i].1))
            } else {
                (Seq::<char>::empty(), JsonV::Null)
            },
    )
}

/// The sorted values of a list.
pub open spec fn all_sorted(items: Seq<JsonV>) -> Seq<JsonV> {
    items.map_values(|item: JsonV| sorted(item))
}

proof fn lemma_sorted(value: JsonV)
    ensures
        value matches JsonV::Array(items) ==> sorted(value) == JsonV::Array(all_sorted(items)),
        value matches JsonV::Object(members) ==> sorted(value) == JsonV::Object(
            sorted_members(values_sorted(members)),
        ),
{
    match value {
        JsonV::Array(items) => {
            assert(sorted(value)->Array_0 =~= all_sorted(items));
        },
        _ => {},
    }
}

proof fn lemma_placed(list: Seq<(Seq<char>, JsonV)>, member: (Seq<char>, JsonV))
    requires
        order::strictly_sorted(names(list)),
        !names(list).contains(member.0),
    ensures
        order::strictly_sorted(names(placed(list, member))),
        forall|m: (Seq<char>, JsonV)| #[trigger]
            placed(list, member).contains(m) <==> list.contains(m) || m == member,
        placed(list, member).len() == list.len() + 1,
    decreases list.len(),
{
    let all = placed(list, member);
    if list.len() == 0 || !order::before(member.0, list.last().0) {
        assert forall|i: int, j: int| 0 <= i < j < all.len() implies order::before(
            #[trigger] names(all)[i],
            #[trigger] names(all)[j],
        ) by {
            if j == list.len() {
                let last = list.last().0;
                assert(names(list)[list.len() - 1] == last);
                assert(names(list).contains(last));
                order::lemma_before_total(member.0, last);
                if i < list.len() - 1 {
                    assert(order::before(names(list)[i], names(list)[list.len() - 1]));
                    order::lemma_before_transitive(names(list)[i], last, member.0);
                }
            } else {
                assert(names(list)[i] == names(all)[i] && names(list)[j] == names(all)[j]);
            }
        }
        assert forall|m: (Seq<char>, JsonV)| #[trigger] all.contains(m) <==> list.contains(m) || m
            == member by {
            if list.contains(m) {
                assert(all[list.index_of(m)] == m);
            }
            assert(all[list.len() as int] == member);
            if all.contains(m) && m != member {
                assert(list[all.index_of(m)] == m);
            }
        }
    } else {
        let rest = list.drop_last();
        let last = list.last();
        assert forall|i: int, j: int| 0 <= i < j < rest.len() implies order::before(
            #[trigger] names(rest)[i],
            #[trigger] names(rest)[j],
        ) by {
            assert(names(rest)[i] == names(list)[i] && names(rest)[j] == names(list)[j]);
        }
        if names(rest).contains(member.0) {
            let i = names(rest).index_of(member.0);
            assert(names(list)[i] == member.0);
        }
        lemma_placed(rest, member);
        let front = placed(rest, member);
        assert(all == front.push(last));
        assert forall|i: int, j: int| 0 <= i < j < all.len() implies order::before(
            #[trigger] names(all)[i],
            #[trigger] names(all)[j],
        ) by {
            if j == front.len() {
                let m = front[i];
                assert(front.contains(m));
                if m != member {
                    let k = rest.index_of(m);
                    assert(names(list)[k] == m.0 && names(list)[list.len() - 1] == last.0);
                }
            } else {
                assert(names(front)[i] == names(all)[i] && names(front)[j] == names(all)[j]);
            }
        }
        assert forall|m: (Seq<char>, JsonV)| #[trigger] all.contains(m) <==> list.contains(m) || m
            == member by {
            if front.contains(m) {
                assert(all[front.index_of(m)] == m);
            }
            if rest.contains(m) {
                assert(list[rest.index_of(m)] == m);
            }
            assert(all[front.len() as int] == last);
            assert(list[list.len() - 1] == last);
            if all.contains(m) && m != last {
                assert(front[all.index_of(m)] == m);
            }
            if list.contains(m) && m != last {
                assert(rest[list.index_of(m)] == m);
            }
        }
    }
}

proof fn lemma_sorted_members(members: Seq<(Seq<char>, JsonV)>)
    requires
        names(members).no_duplicates(),
    ensures
        order::strictly_sorted(names(sorted_members(members))),
        forall|m: (Seq<char>, JsonV)| #[trigger]
            sorted_members(members).contains(m) <==> members.contains(m),
        sorted_members(members).len() == members.len(),
    decreases members.len(),
{
    if members.len() > 0 {
        let rest = members.drop_last();
        let last = members.last();
        assert(names(rest) =~= names(members).drop_last());
        lemma_sorted_members(rest);
        let front = sorted_members(rest);
        if names(front).contains(last.0) {
            let m = front[names(front).index_of(last.0)];
            assert(front.contains(m));
            let k = rest.index_of(m);
            assert(names(members)[k] == last.0 && names(members)[members.len() - 1] == last.0);
        }
        lemma_placed(front, last);
        assert forall|m: (Seq<char>, JsonV)| #[trigger]
            sorted_members(members).contains(m) <==> members.contains(m) by {
            if rest.contains(m) {
                assert(members[rest.index_of(m)] == m);
            }
            assert(members[members.len() - 1] == last);
            if members.contains(m) && m != last {
                assert(rest[members.index_of(m)] == m);
            }
        }
    }
}

/// Sorting changes nothing but the order of members: an array keeps its items, each sorted, in
/// their places, and what has no members stays as it is.
pub proof fn law_sorted_items_stay(value: JsonV)
    ensures
        match value {
            JsonV::Array(items) => sorted(value) matches JsonV::Array(after) && after.len()
                == items.len() && forall|k: int|
                0 <= k < items.len() ==> #[trigger] after[k] == sorted(items[k]),
            JsonV::Object(_) => sorted(value) is Object,
            _ => sorted(value) == value,
        },
{
    lemma_sorted(value);
}

/// Sorting keeps a plain value plain, and puts the names of its members in order.
pub proof fn law_sorted_plain(value: JsonV, depth: nat)
    requires
        plain(value, depth),
    ensures
        plain(sorted(value), depth),
        sorted(value) matches JsonV::Object(members) ==> order::strictly_sorted(names(members)),
    decreases value,
{
    lemma_sorted(value);
    match value {
        JsonV::Array(items) => {
            assert forall|i: int| 0 <= i < items.len() implies plain(
                #[trigger] all_sorted(items)[i],
                (depth - 1) as nat,
            ) by {
                assert(plain(items[i], (depth - 1) as nat));
                law_sorted_plain(items[i], (depth - 1) as nat);
            }
        },
        JsonV::Object(members) => {
            let given = values_sorted(members);
            let after = sorted_members(given);
            assert(names(given) =~= names(members));
            lemma_sorted_members(given);
            order::lemma_sorted_distinct(names(after));
            assert forall|i: int| 0 <= i < after.len() implies plain(
                (#[trigger] after[i]).1,
                (depth - 1) as nat,
            ) by {
                assert(after.contains(after[i]));
                let k = given.index_of(after[i]);
                assert(given[k] == (members[k].0, sorted(members[k].1)));
                assert(plain(members[k].1, (depth - 1) as nat));
                law_sorted_plain(members[k].1, (depth - 1) as nat);
            }
        },
        _ => {},
    }
}

/// The first member with a name is the only one where the names differ.
proof fn lemma_member(members: Seq<(Seq<char>, JsonV)>, name: Seq<char>)
    requires
        names(members).no_duplicates(),
    ensures
        match member(members, name) {
            Some(value) => members.contains((name, value)),
            None => !names(members).contains(name),
        },
        forall|value: JsonV| #[trigger]
            members.contains((name, value)) ==> member(members, name) == Some(value),
    decreases members.len(),
{
    if members.len() > 0 {
        let rest = members.drop_first();
        assert(names(rest) =~= names(members).drop_first());
        lemma_member(rest, name);
        assert(names(members)[0] == members[0].0);
        if members[0].0 == name {
            assert forall|value: JsonV| #[trigger] members.contains((name, value)) implies members[0]
                == (name, value) by {
                let k = members.index_of((name, value));
                assert(names(members)[k] == name);
            }
            assert(members[0] == (name, members[0].1));
        } else {
            assert forall|value: JsonV| #[trigger] members.contains((name, value)) implies rest.contains(
                (name, value),
            ) by {
                let k = members.index_of((name, value));
                assert(rest[k - 1] == (name, value));
            }
            match member(rest, name) {
                Some(value) => {
                    assert(members[rest.index_of((name, value)) + 1] == (name, value));
                },
                None => {
                    if names(members).contains(name) {
                        let k = names(members).index_of(name);
                        assert(names(rest)[k - 1] == name);
                    }
                },
            }
        }
    }
}

/// Sorting an object whose names differ changes no member but for the order inside of it.
pub proof fn law_sorted_members_stay(members: Seq<(Seq<char>, JsonV)>, name: Seq<char>)
    requires
        names(members).no_duplicates(),
    ensures
        sorted(JsonV::Object(members)).get(name) == (match JsonV::Object(members).get(name) {
            Some(value) => Some(sorted(value)),
            None => None,
        }),
{
    lemma_sorted(JsonV::Object(members));
    let given = values_sorted(members);
    let after = sorted_members(given);
    assert(names(given) =~= names(members));
    lemma_sorted_members(given);
    order::lemma_sorted_distinct(names(after));
    lemma_member(members, name);
    lemma_member(after, name);
    match member(members, name) {
        Some(value) => {
            let k = members.index_of((name, value));
            assert(given[k] == (name, sorted(value)));
            assert(given.contains((name, sorted(value))));
            assert(after.contains((name, sorted(value))));
        },
        None => {
            match member(after, name) {
                Some(value) => {
                    assert(given.contains((name, value)));
                    let k = given.index_of((name, value));
                    assert(names(members)[k] == name);
                },
                None => {},
            }
        },
    }
}

fn place(list: &mut Vec<(String, Json)>, name: String, value: Json)
    ensures
        member_views(final(list)@) == placed(member_views(old(list)@), (name@, value@)),
{
    let ghost all = member_views(list@);
    let ghost before = list@;
    let ghost m = (name@, value@);
    let mut i: usize = list.len();
    assert(all.take(i as int) =~= all);
    assert(placed(all, m) =~= placed(all.take(i as int), m) + all.skip(i as int));
    while i > 0 && order::is_before(name.as_str(), list[i - 1].0.as_str())
        invariant
            i <= list@.len(),
            list@ == before,
            all == member_views(before),
            m == (name@, value@),
            placed(all, m) == placed(all.take(i as int), m) + all.skip(i as int),
        decreases i,
    {
        assert(all.take(i as int).last() == all[i - 1]);
        assert(all.take(i as int).drop_last() =~= all.take(i - 1));
        assert(placed(all.take(i - 1), m).push(all[i - 1]) + all.skip(i as int) =~= placed(
            all.take(i - 1),
            m,
        ) + all.skip(i - 1));
        i -= 1;
    }
    list.insert(i, (name, value));
    assert(member_views(list@) =~= all.take(i as int).push(m) + all.skip(i as int));
}

impl Json {
    /// The value with the members of each of its objects in name order.
    pub fn sorted(&self) -> (json: Json)
        ensures
            json@ == self::sorted(self@),
        decreases self,
    {
        broadcast use lemma_views;

        proof {
            lemma_sorted(self@);
        }
        match self {
            Json::Array(items) => {
                let ghost all = all_sorted(views(items@));
                let mut list: Vec<Json> = Vec::new();
                let mut i: usize = 0;
                assert(views(list@) =~= all.take(0));
                while i < items.len()
                    invariant
                        i <= items@.len(),
                        *self == Json::Array(*items),
                        all == all_sorted(views(items@)),
                        views(list@) == all.take(i as int),
                    decreases items.len() - i,
                {
                    assert(decreases_to!(*self => self->Array_0@[i as int]));
                    push(&mut list, items[i].sorted());
                    i += 1;
                    assert(all.take(i as int) =~= all.take(i - 1).push(all[i - 1]));
                }
                assert(all.take(i as int) =~= all);
                array(list)
            },
            Json::Object(members) => {
                let ghost all = values_sorted(member_views(members@));
                let mut list: Vec<(String, Json)> = Vec::new();
                let mut i: usize = 0;
                assert(member_views(list@) =~= sorted_members(all.take(0)));
                while i < members.len()
                    invariant
                        i <= members@.len(),
                        *self == Json::Object(*members),
                        all == values_sorted(member_views(members@)),
                        member_views(list@) == sorted_members(all.take(i as int)),
                    decreases members.len() - i,
                {
                    assert(decreases_to!(*self => self->Object_0@[i as int].1));
                    place(&mut list, members[i].0.clone(), members[i].1.sorted());
                    i += 1;
                    assert(all.take(i as int).drop_last() =~= all.take(i - 1));
                    assert(all.take(i as int).last() == all[i - 1]);
                }
                assert(all.take(i as int) =~= all);
                object(list)
            },
            _ => self.copy(),
        }
    }
}

/// `serde_json::Value`. Its objects keep the order of their members.
#[verifier::external_type_specification]
#[verifier::external_body]
pub struct ExValue(serde_json::Value);

/// Turns a `serde_json::Value` into a [`Json`], variant by variant. It carries no
/// contract; [`parse`] is what the library calls.
#[verifier::external_body]
fn from_value(value: serde_json::Value) -> (json: Json) {
    match value {
        serde_json::Value::Null => Json::Null,
        serde_json::Value::Bool(b) => Json::Bool(b),
        serde_json::Value::Number(n) => Json::Number(n.to_string()),
        serde_json::Value::String(s) => Json::Str(s),
        serde_json::Value::Array(items) => Json::Array(items.into_iter().map(from_value).collect()),
        serde_json::Value::Object(map) => {
            Json::Object(map.into_iter().map(|(name, value)| (name, from_value(value))).collect())
        },
    }
}

/// Turns a [`Json`] into a `serde_json::Value`, variant by variant. It carries no
/// contract; [`print`] is what the library calls.
#[verifier::external_body]
fn to_value(json: &Json) -> (value: serde_json::Value) {
    match json {
        Json::Null => serde_json::Value::Null,
        Json::Bool(b) => serde_json::Value::Bool(*b),
        Json::Number(n) => serde_json::from_str(n).unwrap_or(serde_json::Value::Null),
        Json::Str(s) => serde_json::Value::String(s.clone()),
        Json::Array(items) => serde_json::Value::Array(items.iter().map(to_value).collect()),
        Json::Object(members) => serde_json::Value::Object(
            members.iter().map(|(name, value)| (name.clone(), to_value(value))).collect(),
        ),
    }
}

/// `serde_json::from_slice::<serde_json::Value>`: the value that the bytes denote,
/// or the text of the error. The result is named, not stated.
#[verifier::external_body]
pub(crate) fn parse(bytes: &[u8]) -> (result: Result<Json, String>)
    ensures
        match result {
            Ok(json) => parsed(bytes@) == Ok::<JsonV, Seq<char>>(json@),
            Err(message) => parsed(bytes@) == Err::<JsonV, Seq<char>>(message@),
        },
{
    match serde_json::from_slice::<serde_json::Value>(bytes) {
        Ok(value) => Ok(from_value(value)),
        Err(error) => Err(error.to_string()),
    }
}

/// `serde_json::to_vec` of a value. The bytes are UTF-8, and parsing those of a plain
/// value gives it back, with the members of its objects in the same order; which they are
/// is named, not stated. Printing a
/// `serde_json::Value`, whose keys are strings, does not fail.
#[verifier::external_body]
pub(crate) fn print(json: &Json) -> (bytes: Vec<u8>)
    ensures
        bytes@ == printed(json@),
        vstd::utf8::valid_utf8(bytes@),
        reads_back(bytes@, json@),
{
    serde_json::to_vec(&to_value(json)).expect("a JSON value prints")
}

/// The bytes of a JSON value. Decoding those of a plain value gives it back.
pub fn encode(json: &Json) -> (bytes: Vec<u8>)
    ensures
        bytes@ == printed(json@),
        reads_back(bytes@, json@),
{
    print(json)
}

/// The text of a JSON value.
pub fn to_text(json: &Json) -> (s: String)
    ensures
        vstd::utf8::encode_utf8(s@) == printed(json@),
{
    let bytes = print(json);
    match text::text_of(bytes.as_slice()) {
        Some(s) => s.to_owned(),
        None => String::new(),
    }
}

/// The JSON value that a text denotes, or the message of the error.
pub fn decode(bytes: &[u8]) -> (result: Result<Json, String>)
    ensures
        match result {
            Ok(json) => parsed(bytes@) == Ok::<JsonV, Seq<char>>(json@),
            Err(message) => parsed(bytes@) == Err::<JsonV, Seq<char>>(message@),
        },
{
    parse(bytes)
}

} // verus!
