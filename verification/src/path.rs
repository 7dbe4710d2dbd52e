use crate::json::{
    array_get_or_insert_mut, lemma_items_view, JsonObject, JsonValue, OrInsertJsonValue,
};
use crate::model::{
    kind_after, lemma_unwritable_is_unchanged, read, slot, step_into, writable, written, Json,
    Members, PathFault, Segment,
};
use vstd::prelude::*;

verus! {

/// One step of a path into a document: the key of an object's member, or the
/// position of an array's item.
#[derive(Debug, PartialEq, Eq)]
pub enum PathSegment {
    Key(String),
    Index(usize),
}

/// A path into a document, from its root down.
pub type JsonPath = Vec<PathSegment>;

impl View for PathSegment {
    type V = Segment;

    open spec fn view(&self) -> Segment {
        match self {
            PathSegment::Key(key) => Segment::Key(key@),
            PathSegment::Index(index) => Segment::Index(*index as nat),
        }
    }
}

impl Clone for PathSegment {
    fn clone(&self) -> (copy: Self)
        ensures
            copy@ == self@,
    {
        match self {
            PathSegment::Key(key) => PathSegment::Key(key.clone()),
            PathSegment::Index(index) => PathSegment::Index(*index),
        }
    }
}

/// The model of a path: the model of each of its segments, in order.
pub open spec fn path_view(path: Seq<PathSegment>) -> Seq<Segment> {
    Seq::new(path.len(), |i: int| path[i]@)
}

/// Why a path could not be followed.
#[derive(Debug, PartialEq, Eq)]
pub enum PathError {
    /// An object has no member with this key.
    MissingKey(String),
    /// An array has no item at this position.
    MissingIndex(usize),
    /// A key met a value that is no object, or an index one that is no array; or the
    /// path is empty or does not start with a key.
    TypeMismatch,
}

impl View for PathError {
    type V = PathFault;

    open spec fn view(&self) -> PathFault {
        match self {
            PathError::MissingKey(key) => PathFault::MissingKey(key@),
            PathError::MissingIndex(index) => PathFault::MissingIndex(*index as nat),
            PathError::TypeMismatch => PathFault::TypeMismatch,
        }
    }
}

/// What reading `path` from a document with these members gives: the value at the
/// path, or the fault at the first step that cannot be taken.  A path must have a
/// first step; on the document, which is an object, only a key can be one.
pub open spec fn read_document(document: Members, path: Seq<Segment>) -> Result<Json, PathFault> {
    if path.len() == 0 {
        Err(PathFault::TypeMismatch)
    } else {
        read(Json::Object(document), path)
    }
}

/// The value at `path` in `document`, borrowed from it.
///
/// Each key is looked up in the object that the path has reached and each index in
/// the array; the first step that cannot be taken ends the read with its fault.
pub fn resolve_read<'a>(path: &JsonPath, document: &'a JsonObject) -> (found: Result<
    &'a JsonValue,
    PathError,
>)
    ensures
        match found {
            Ok(value) => read_document(document@, path_view(path@)) == Ok::<Json, PathFault>(value@),
            Err(error) => read_document(document@, path_view(path@)) == Err::<Json, PathFault>(
                error@,
            ),
        },
{
    let ghost steps = path_view(path@);
    if path.len() == 0 {
        return Err(PathError::TypeMismatch);
    }
    let mut from: &JsonValue = match &path[0] {
        PathSegment::Key(key) => match document.get(key.as_str()) {
            Some(value) => value,
            None => {
                return Err(PathError::MissingKey(key.clone()));
            },
        },
        PathSegment::Index(_) => {
            return Err(PathError::TypeMismatch);
        },
    };
    let mut at: usize = 1;
    assert(steps.skip(1) =~= steps.drop_first());
    while at < path.len()
        invariant
            1 <= at <= path.len(),
            steps == path_view(path@),
            read_document(document@, steps) == read(from@, steps.skip(at as int)),
        decreases path.len() - at,
    {
        let ghost rest = steps.skip(at as int);
        assert(rest.drop_first() =~= steps.skip(at + 1));
        assert(rest[0] == path@[at as int]@);
        match &path[at] {
            PathSegment::Key(key) => match from {
                JsonValue::Object(object) => match object.get(key.as_str()) {
                    Some(value) => {
                        from = value;
                    },
                    None => {
                        return Err(PathError::MissingKey(key.clone()));
                    },
                },
                _ => {
                    return Err(PathError::TypeMismatch);
                },
            },
            PathSegment::Index(index) => match from {
                JsonValue::Array(items) => {
                    proof {
                        lemma_items_view(items@);
                    }
                    if *index < items.len() {
                        from = &items[*index];
                    } else {
                        return Err(PathError::MissingIndex(*index));
                    }
                },
                _ => {
                    return Err(PathError::TypeMismatch);
                },
            },
        }
        at = at + 1;
    }
    assert(steps.skip(at as int) =~= Seq::empty());
    Ok(from)
}

/// Whether `path` can be materialized in a document with these members: it has a
/// first step, and every step fits the value that it meets.
pub open spec fn document_writable(document: Members, path: Seq<Segment>) -> bool {
    path.len() > 0 && writable(Json::Object(document), path)
}

/// What the location at the end of `path` holds once the path has been materialized
/// in a document with these members, before anything is assigned to it.
pub open spec fn document_slot(document: Members, path: Seq<Segment>) -> Json {
    slot(Json::Object(document), path)
}

/// The members of a document after `path` has been materialized in it and `value`
/// assigned to the location at its end.  An empty path changes nothing.
pub open spec fn written_document(document: Members, path: Seq<Segment>, value: Json) -> Members {
    if path.len() == 0 {
        document
    } else {
        written(Json::Object(document), path, value)->Object_0
    }
}

/// The kind of value to create at the location of segment `at`, by a look at the
/// segment that follows it.
fn peek_kind(path: &JsonPath, at: usize) -> (kind: OrInsertJsonValue)
    requires
        at < path.len(),
    ensures
        kind == kind_after(path_view(path@).skip(at as int)),
{
    if at + 1 < path.len() {
        match &path[at + 1] {
            PathSegment::Key(_) => OrInsertJsonValue::Object,
            PathSegment::Index(_) => OrInsertJsonValue::Array,
        }
    } else {
        OrInsertJsonValue::Null
    }
}

/// Materializes the segments of `path` from position `at` on, starting at `node`,
/// and hands out the location at the end.
fn materialize<'a>(node: &'a mut JsonValue, path: &JsonPath, at: usize) -> (reached: Result<
    &'a mut JsonValue,
    PathError,
>)
    requires
        at <= path.len(),
    ensures
        match reached {
            Ok(location) => {
                &&& writable(old(node)@, path_view(path@).skip(at as int))
                &&& location@ == slot(old(node)@, path_view(path@).skip(at as int))
                &&& final(node)@ == written(
                    old(node)@,
                    path_view(path@).skip(at as int),
                    final(location)@,
                )
            },
            Err(error) => {
                &&& !writable(old(node)@, path_view(path@).skip(at as int))
                &&& error@ == PathFault::TypeMismatch
                &&& final(node)@ == old(node)@
            },
        },
    decreases path.len() - at,
{
    let ghost rest = path_view(path@).skip(at as int);
    if at == path.len() {
        return Ok(node);
    }
    assert(rest.drop_first() =~= path_view(path@).skip(at + 1));
    assert(rest[0] == path@[at as int]@);
    let kind = peek_kind(path, at);
    proof {
        lemma_unwritable_is_unchanged(node@, rest, Json::Null);
        lemma_unwritable_is_unchanged(step_into(node@, rest), rest.drop_first(), Json::Null);
    }
    match &path[at] {
        PathSegment::Key(key) => match node {
            JsonValue::Object(object) => {
                let child = object.get_or_insert_mut(key.as_str(), kind);
                materialize(child, path, at + 1)
            },
            _ => Err(PathError::TypeMismatch),
        },
        PathSegment::Index(index) => match node {
            JsonValue::Array(items) => {
                let child = array_get_or_insert_mut(items, *index, kind);
                materialize(child, path, at + 1)
            },
            _ => Err(PathError::TypeMismatch),
        },
    }
}

/// The location at `path` in `document`, for the caller to assign to.
///
/// Missing locations on the way are created: an object where a key follows, an
/// array where an index follows, `null` at the end of the path.  An array that is
/// too short for an index `i` is extended to `i + 1` items, by `null` before the
/// new item; an index equal to the array's length appends one item.  Containers
/// that exist are used as they are.
///
/// Fails with `TypeMismatch`, and only so, where the path is empty, does not start
/// with a key, or meets a value that its next step does not fit.  The document is
/// then as it was: a step can fail only on a value that was there before.
pub fn resolve_write<'a>(path: &JsonPath, document: &'a mut JsonObject) -> (reached: Result<
    &'a mut JsonValue,
    PathError,
>)
    ensures
        match reached {
            Ok(location) => {
                &&& document_writable(old(document)@, path_view(path@))
                &&& location@ == document_slot(old(document)@, path_view(path@))
                &&& final(document)@ == written_document(
                    old(document)@,
                    path_view(path@),
                    final(location)@,
                )
            },
            Err(error) => {
                &&& !document_writable(old(document)@, path_view(path@))
                &&& error@ == PathFault::TypeMismatch
                &&& final(document)@ == old(document)@
            },
        },
{
    let ghost steps = path_view(path@);
    if path.len() == 0 {
        return Err(PathError::TypeMismatch);
    }
    assert(steps.skip(0) =~= steps);
    assert(steps.drop_first() =~= steps.skip(1));
    let kind = peek_kind(path, 0);
    proof {
        lemma_unwritable_is_unchanged(Json::Object(document@), steps, Json::Null);
        lemma_unwritable_is_unchanged(
            step_into(Json::Object(document@), steps),
            steps.drop_first(),
            Json::Null,
        );
    }
    match &path[0] {
        PathSegment::Key(key) => {
            let child = document.get_or_insert_mut(key.as_str(), kind);
            materialize(child, path, 1)
        },
        PathSegment::Index(_) => Err(PathError::TypeMismatch),
    }
}

/// Assigns `value` to the location at `path` in `document`, materializing the path
/// first.  A value that the location held before is replaced.
///
/// Fails with `TypeMismatch`, and only so, where `resolve_write` does; the document
/// is then as it was.
pub fn write_value(path: &JsonPath, document: &mut JsonObject, value: JsonValue) -> (done: Result<
    (),
    PathError,
>)
    ensures
        match done {
            Ok(_) => {
                &&& document_writable(old(document)@, path_view(path@))
                &&& final(document)@ == written_document(old(document)@, path_view(path@), value@)
            },
            Err(error) => {
                &&& !document_writable(old(document)@, path_view(path@))
                &&& error@ == PathFault::TypeMismatch
                &&& final(document)@ == old(document)@
            },
        },
{
    match resolve_write(path, document) {
        Ok(location) => {
            *location = value;
            Ok(())
        },
        Err(error) => Err(error),
    }
}

} // verus!
