use crate::json::OrInsertJsonValue;
use vstd::prelude::*;

verus! {

/// The members of a JSON object, in insertion order: each a key with its value.
pub type Members = Seq<(Seq<char>, Json)>;

/// A JSON document as a mathematical value.
pub enum Json {
    Null,
    Bool(bool),
    Number(serde_json::Number),
    String(Seq<char>),
    Array(Seq<Json>),
    Object(Members),
}

/// No key occurs twice among the members.
pub open spec fn distinct_keys(members: Members) -> bool {
    forall|i: int, j: int| 0 <= i < j < members.len() ==> members[i].0 != members[j].0
}

impl Json {
    /// Every object in the document, at any depth, has distinct keys.
    pub open spec fn well_formed(self) -> bool
        decreases self,
    {
        match self {
            Json::Array(items) => forall|i: int|
                0 <= i < items.len() ==> (#[trigger] items[i]).well_formed(),
            Json::Object(members) => distinct_keys(members) && forall|i: int|
                0 <= i < members.len() ==> (#[trigger] members[i]).1.well_formed(),
            _ => true,
        }
    }
}

/// The position of the first member whose key is `key`, or the number of members if
/// there is none.
pub open spec fn key_index(members: Members, key: Seq<char>) -> int
    decreases members.len(),
{
    if members.len() == 0 {
        0
    } else if members[0].0 == key {
        0
    } else {
        1 + key_index(members.drop_first(), key)
    }
}

/// Whether some member has the key `key`.
pub open spec fn has_key(members: Members, key: Seq<char>) -> bool {
    key_index(members, key) < members.len()
}

/// What `key_index` finds: a position in range that holds the key, with no earlier
/// occurrence; or the length, when the key does not occur at all.
pub proof fn lemma_key_index(members: Members, key: Seq<char>)
    ensures
        0 <= key_index(members, key) <= members.len(),
        has_key(members, key) ==> members[key_index(members, key)].0 == key,
        forall|j: int| 0 <= j < key_index(members, key) ==> (#[trigger] members[j]).0 != key,
    decreases members.len(),
{
    if members.len() > 0 && members[0].0 != key {
        let rest = members.drop_first();
        lemma_key_index(rest, key);
        assert forall|j: int| 0 <= j < key_index(members, key) implies (#[trigger] members[j]).0
            != key by {
            if j > 0 {
                assert(members[j] == rest[j - 1]);
            }
        }
    }
}

/// A position that holds the key and has no earlier occurrence before it is the one
/// that `key_index` finds.
pub proof fn lemma_key_index_is(members: Members, key: Seq<char>, at: int)
    requires
        0 <= at <= members.len(),
        at < members.len() ==> members[at].0 == key,
        forall|j: int| 0 <= j < at ==> (#[trigger] members[j]).0 != key,
    ensures
        key_index(members, key) == at,
{
    lemma_key_index(members, key);
    let found = key_index(members, key);
    if found < at {
        assert(members[found].0 != key);
    } else if at < found {
        assert(members[at].0 != key);
    }
}

/// The value stored under `key`, or `otherwise` when the key does not occur.
pub open spec fn member_or(members: Members, key: Seq<char>, otherwise: Json) -> Json {
    if has_key(members, key) {
        members[key_index(members, key)].1
    } else {
        otherwise
    }
}

/// The members with `value` stored under `key`: in place where the key occurs,
/// appended at the end where it does not.
pub open spec fn with_member(members: Members, key: Seq<char>, value: Json) -> Members {
    if has_key(members, key) {
        members.update(key_index(members, key), (key, value))
    } else {
        members.push((key, value))
    }
}

/// After a value has been stored under a key, the key occurs where `with_member`
/// put it, and holds that value.
pub proof fn lemma_with_member_has(members: Members, key: Seq<char>, value: Json)
    ensures
        has_key(with_member(members, key, value), key),
        key_index(with_member(members, key, value), key) == key_index(members, key),
        member_or(with_member(members, key, value), key, Json::Null) == value,
        with_member(members, key, value).len() == if has_key(members, key) {
            members.len()
        } else {
            members.len() + 1
        },
{
    lemma_key_index(members, key);
    lemma_key_index_is(with_member(members, key, value), key, key_index(members, key));
}

/// Storing twice under one key leaves what storing the second value alone leaves.
pub proof fn lemma_with_member_twice(members: Members, key: Seq<char>, first: Json, second: Json)
    ensures
        with_member(with_member(members, key, first), key, second) == with_member(
            members,
            key,
            second,
        ),
{
    lemma_key_index(members, key);
    lemma_with_member_has(members, key, first);
    assert(with_member(with_member(members, key, first), key, second) =~= with_member(
        members,
        key,
        second,
    ));
}

/// Storing a well-formed value under a key of well-formed members keeps them
/// well-formed: no key comes to occur twice.
pub proof fn lemma_with_member_well_formed(members: Members, key: Seq<char>, value: Json)
    requires
        Json::Object(members).well_formed(),
        value.well_formed(),
    ensures
        Json::Object(with_member(members, key, value)).well_formed(),
{
    lemma_key_index(members, key);
    let after = with_member(members, key, value);
    assert forall|i: int, j: int| 0 <= i < j < after.len() implies after[i].0 != after[j].0 by {
        if has_key(members, key) {
            assert(after[i].0 == members[i].0);
            assert(after[j].0 == members[j].0);
        } else if j == members.len() {
            assert(after[i] == members[i]);
        } else {
            assert(after[i] == members[i]);
            assert(after[j] == members[j]);
        }
    }
    assert forall|i: int| 0 <= i < after.len() implies (#[trigger] after[i]).1.well_formed() by {
        if i != key_index(members, key) {
            assert(after[i] == members[i]);
        }
    }
}

/// The items of an array made long enough to have position `index`: unchanged when
/// it already has one, else extended by `Null` up to `index` and by `fill` at `index`.
pub open spec fn padded(items: Seq<Json>, index: nat, fill: Json) -> Seq<Json> {
    if index < items.len() {
        items
    } else {
        items + Seq::new((index - items.len()) as nat, |j: int| Json::Null).push(fill)
    }
}

/// One step of a path, as a mathematical value.
pub enum Segment {
    Key(Seq<char>),
    Index(nat),
}

/// Why a path could not be followed, as a mathematical value.
pub enum PathFault {
    MissingKey(Seq<char>),
    MissingIndex(nat),
    TypeMismatch,
}

/// The value found by following `path` down from `node`, or the fault at the first
/// step that cannot be taken.  The empty path finds `node` itself.
pub open spec fn read(node: Json, path: Seq<Segment>) -> Result<Json, PathFault>
    decreases path.len(),
{
    if path.len() == 0 {
        Ok(node)
    } else {
        match (path[0], node) {
            (Segment::Key(key), Json::Object(members)) => if has_key(members, key) {
                read(members[key_index(members, key)].1, path.drop_first())
            } else {
                Err(PathFault::MissingKey(key))
            },
            (Segment::Index(index), Json::Array(items)) => if index < items.len() {
                read(items[index as int], path.drop_first())
            } else {
                Err(PathFault::MissingIndex(index))
            },
            _ => Err(PathFault::TypeMismatch),
        }
    }
}

/// The kind of value that the first step of `path` creates where its location is
/// missing: a container fit for the step that follows, or `Null` at the last step.
pub open spec fn kind_after(path: Seq<Segment>) -> OrInsertJsonValue {
    if path.len() < 2 {
        OrInsertJsonValue::Null
    } else {
        match path[1] {
            Segment::Key(_) => OrInsertJsonValue::Object,
            Segment::Index(_) => OrInsertJsonValue::Array,
        }
    }
}

/// The value that the first step of `path` leads to from `node`, once the location
/// has been created where it was missing.  Only meaningful where the step fits the
/// node: a key on an object, an index on an array.
pub open spec fn step_into(node: Json, path: Seq<Segment>) -> Json {
    match (path[0], node) {
        (Segment::Key(key), Json::Object(members)) => member_or(
            members,
            key,
            kind_after(path).spec_concrete(),
        ),
        (Segment::Index(index), Json::Array(items)) => padded(
            items,
            index,
            kind_after(path).spec_concrete(),
        )[index as int],
        _ => Json::Null,
    }
}

/// `node` with `child` put where the first step of `path` leads, the location being
/// created where it was missing.  A node that the step does not fit stays as it is.
pub open spec fn step_back(node: Json, path: Seq<Segment>, child: Json) -> Json {
    match (path[0], node) {
        (Segment::Key(key), Json::Object(members)) => Json::Object(with_member(members, key, child)),
        (Segment::Index(index), Json::Array(items)) => Json::Array(
            padded(items, index, kind_after(path).spec_concrete()).update(index as int, child),
        ),
        _ => node,
    }
}

/// Whether the first step of `path` fits `node`: a key on an object, an index on an
/// array.
pub open spec fn step_fits(node: Json, path: Seq<Segment>) -> bool {
    match (path[0], node) {
        (Segment::Key(_), Json::Object(_)) => true,
        (Segment::Index(_), Json::Array(_)) => true,
        _ => false,
    }
}

/// Whether `path` can be materialized from `node` down: every step fits the value
/// that it meets, be that value found or freshly created.
pub open spec fn writable(node: Json, path: Seq<Segment>) -> bool
    decreases path.len(),
{
    if path.len() == 0 {
        true
    } else {
        step_fits(node, path) && writable(step_into(node, path), path.drop_first())
    }
}

/// What the location at the end of `path` holds once the path has been materialized,
/// before anything is assigned to it: the value that was there, or `Null`.
pub open spec fn slot(node: Json, path: Seq<Segment>) -> Json
    decreases path.len(),
{
    if path.len() == 0 {
        node
    } else {
        slot(step_into(node, path), path.drop_first())
    }
}

/// `node` after `path` has been materialized from it and `value` assigned to the
/// location at its end.  Where a step does not fit, what was created before that
/// step stays and nothing is assigned.
pub open spec fn written(node: Json, path: Seq<Segment>, value: Json) -> Json
    decreases path.len(),
{
    if path.len() == 0 {
        value
    } else if step_fits(node, path) {
        step_back(node, path, written(step_into(node, path), path.drop_first(), value))
    } else {
        node
    }
}

/// A value that a step has just created can take all the steps that follow: it was
/// made to fit the next one, and so is everything created below it.
pub proof fn lemma_fresh_is_writable(path: Seq<Segment>)
    requires
        path.len() > 0,
    ensures
        writable(kind_after(path).spec_concrete(), path.drop_first()),
    decreases path.len(),
{
    let rest = path.drop_first();
    if rest.len() > 0 {
        let fresh = kind_after(path).spec_concrete();
        assert(rest[0] == path[1]);
        lemma_fresh_is_writable(rest);
        match rest[0] {
            Segment::Key(key) => {
                assert(key_index(Seq::<(Seq<char>, Json)>::empty(), key) == 0);
            },
            Segment::Index(index) => {},
        }
    }
}

/// A write that cannot get to the end of its path changes nothing: a step can fail
/// only on a value that was there before, and all that is created fits.
pub proof fn lemma_unwritable_is_unchanged(node: Json, path: Seq<Segment>, value: Json)
    ensures
        !writable(node, path) ==> written(node, path, value) == node,
    decreases path.len(),
{
    if path.len() > 0 && step_fits(node, path) && !writable(node, path) {
        let rest = path.drop_first();
        let below = step_into(node, path);
        lemma_unwritable_is_unchanged(below, rest, value);
        lemma_fresh_is_writable(path);
        match (path[0], node) {
            (Segment::Key(key), Json::Object(members)) => {
                lemma_key_index(members, key);
                assert(with_member(members, key, below) =~= members);
            },
            (Segment::Index(index), Json::Array(items)) => {
                assert(items.update(index as int, below) =~= items);
            },
            _ => {},
        }
    }
}

} // verus!
