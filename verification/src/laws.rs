use crate::config::{FieldRule, Service};
use crate::dispatch::{built, lemma_built_fails_on, plan, response, Plan};
use crate::model::{
    has_key, key_index, kind_after, lemma_key_index, lemma_with_member_has,
    lemma_with_member_twice, lemma_with_member_well_formed, padded, read, step_fits, step_into,
    writable, written, Json, Members, PathFault, Segment,
};
use crate::path::{document_writable, read_document, written_document};
use vstd::prelude::*;

verus! {

/// Reading a path made of two parts is reading the second part from what the first
/// part finds.
pub proof fn lemma_read_concat(node: Json, first: Seq<Segment>, second: Seq<Segment>)
    ensures
        read(node, first + second) == match read(node, first) {
            Ok(found) => read(found, second),
            Err(fault) => Err(fault),
        },
    decreases first.len(),
{
    if first.len() == 0 {
        assert(first + second =~= second);
    } else {
        let whole = first + second;
        assert(whole[0] == first[0]);
        assert(whole.drop_first() =~= first.drop_first() + second);
        match (first[0], node) {
            (Segment::Key(key), Json::Object(members)) => {
                if has_key(members, key) {
                    lemma_read_concat(
                        members[key_index(members, key)].1,
                        first.drop_first(),
                        second,
                    );
                }
            },
            (Segment::Index(index), Json::Array(items)) => {
                if index < items.len() {
                    lemma_read_concat(items[index as int], first.drop_first(), second);
                }
            },
            _ => {},
        }
    }
}

/// A value that was written at a path is the value that reading the path finds.
pub proof fn lemma_read_after_write(node: Json, path: Seq<Segment>, value: Json)
    requires
        writable(node, path),
    ensures
        read(written(node, path, value), path) == Ok::<Json, PathFault>(value),
    decreases path.len(),
{
    if path.len() > 0 {
        let child = written(step_into(node, path), path.drop_first(), value);
        lemma_read_after_write(step_into(node, path), path.drop_first(), value);
        match (path[0], node) {
            (Segment::Key(key), Json::Object(members)) => {
                lemma_with_member_has(members, key, child);
            },
            (Segment::Index(index), Json::Array(items)) => {},
            _ => {},
        }
    }
}

/// Writing twice at one path leaves what writing the second value alone leaves:
/// the containers that the first write made are used again, and the value at the
/// end is replaced.
pub proof fn lemma_overwrite(node: Json, path: Seq<Segment>, first: Json, second: Json)
    requires
        writable(node, path),
    ensures
        writable(written(node, path, first), path),
        written(written(node, path, first), path, second) == written(node, path, second),
    decreases path.len(),
{
    if path.len() > 0 {
        let rest = path.drop_first();
        let below = step_into(node, path);
        let once = written(below, rest, first);
        lemma_overwrite(below, rest, first, second);
        match (path[0], node) {
            (Segment::Key(key), Json::Object(members)) => {
                lemma_with_member_has(members, key, once);
                lemma_with_member_twice(members, key, once, written(below, rest, second));
            },
            (Segment::Index(index), Json::Array(items)) => {
                let fill = kind_after(path).spec_concrete();
                let wide = padded(items, index, fill);
                assert(padded(wide.update(index as int, once), index, fill) =~= wide.update(
                    index as int,
                    once,
                ));
                assert(wide.update(index as int, once).update(
                    index as int,
                    written(below, rest, second),
                ) =~= wide.update(index as int, written(below, rest, second)));
            },
            _ => {},
        }
    }
}

/// What is read from a well-formed document is well-formed.
pub proof fn lemma_read_well_formed(node: Json, path: Seq<Segment>)
    requires
        node.well_formed(),
    ensures
        read(node, path) matches Ok(found) ==> found.well_formed(),
    decreases path.len(),
{
    if path.len() > 0 {
        match (path[0], node) {
            (Segment::Key(key), Json::Object(members)) => {
                lemma_key_index(members, key);
                if has_key(members, key) {
                    let at = key_index(members, key);
                    assert(members[at].1.well_formed());
                    lemma_read_well_formed(members[at].1, path.drop_first());
                }
            },
            (Segment::Index(index), Json::Array(items)) => {
                if index < items.len() {
                    assert(items[index as int].well_formed());
                    lemma_read_well_formed(items[index as int], path.drop_first());
                }
            },
            _ => {},
        }
    }
}

/// Writing a well-formed value into a well-formed document leaves it well-formed,
/// whether or not the write gets to the end of its path.
pub proof fn lemma_written_well_formed(node: Json, path: Seq<Segment>, value: Json)
    requires
        node.well_formed(),
        value.well_formed(),
    ensures
        written(node, path, value).well_formed(),
    decreases path.len(),
{
    if path.len() > 0 && step_fits(node, path) {
        let fill = kind_after(path).spec_concrete();
        let below = step_into(node, path);
        let child = written(below, path.drop_first(), value);
        match (path[0], node) {
            (Segment::Key(key), Json::Object(members)) => {
                lemma_key_index(members, key);
                if has_key(members, key) {
                    assert(members[key_index(members, key)].1.well_formed());
                }
                lemma_written_well_formed(below, path.drop_first(), value);
                lemma_with_member_well_formed(members, key, child);
            },
            (Segment::Index(index), Json::Array(items)) => {
                let wide = padded(items, index, fill);
                assert forall|i: int| 0 <= i < wide.len() implies (#[trigger] wide[i]).well_formed() by {
                    if i < items.len() {
                        assert(wide[i] == items[i]);
                    }
                }
                assert(wide[index as int].well_formed());
                lemma_written_well_formed(below, path.drop_first(), value);
                let after = wide.update(index as int, child);
                assert forall|i: int| 0 <= i < after.len() implies (#[trigger] after[i]).well_formed() by {
                    if i != index {
                        assert(after[i] == wide[i]);
                    }
                }
            },
            _ => {},
        }
    }
}

/// The outgoing document that is built from a well-formed body is well-formed.
pub proof fn lemma_built_well_formed(rules: Seq<FieldRule>, body: Members)
    requires
        Json::Object(body).well_formed(),
    ensures
        built(rules, body) matches Ok(outgoing) ==> Json::Object(outgoing).well_formed(),
    decreases rules.len(),
{
    if rules.len() > 0 {
        lemma_built_well_formed(rules.drop_last(), body);
        let rule = rules.last();
        if built(rules.drop_last(), body) is Ok && read_document(body, rule.from) is Ok {
            let before = built(rules.drop_last(), body)->Ok_0;
            let value = read_document(body, rule.from)->Ok_0;
            lemma_read_well_formed(Json::Object(body), rule.from);
            if rule.to.len() > 0 {
                lemma_written_document(before, rule.to, value);
                lemma_written_well_formed(Json::Object(before), rule.to, value);
            }
        }
    }
}

/// A document after a write is the object that the write leaves at its root.
pub proof fn lemma_written_document(document: Members, path: Seq<Segment>, value: Json)
    requires
        path.len() > 0,
    ensures
        written(Json::Object(document), path, value) == Json::Object(
            written_document(document, path, value),
        ),
{
}

/// In a document, too, a value that was written at a path is the value that reading
/// the path finds.
pub proof fn lemma_document_read_after_write(document: Members, path: Seq<Segment>, value: Json)
    requires
        document_writable(document, path),
    ensures
        read_document(written_document(document, path, value), path) == Ok::<Json, PathFault>(
            value,
        ),
{
    lemma_written_document(document, path, value);
    lemma_read_after_write(Json::Object(document), path, value);
}

/// In a document, too, writing twice at one path leaves what writing the second
/// value alone leaves.
pub proof fn lemma_document_overwrite(
    document: Members,
    path: Seq<Segment>,
    first: Json,
    second: Json,
)
    requires
        document_writable(document, path),
    ensures
        document_writable(written_document(document, path, first), path),
        written_document(written_document(document, path, first), path, second)
            == written_document(document, path, second),
{
    lemma_written_document(document, path, first);
    lemma_written_document(document, path, second);
    lemma_written_document(written_document(document, path, first), path, second);
    lemma_overwrite(Json::Object(document), path, first, second);
}

/// An optional rule whose source cannot be read is passed over: the build goes as
/// it goes without the rule, to the same document or the same fault.
pub proof fn lemma_optional_missing_is_skipped(rules: Seq<FieldRule>, body: Members, at: int)
    requires
        0 <= at < rules.len(),
        rules[at].optional,
        read_document(body, rules[at].from) is Err,
    ensures
        built(rules, body) == built(rules.remove(at), body),
    decreases rules.len(),
{
    if at == rules.len() - 1 {
        assert(rules.remove(at) =~= rules.drop_last());
    } else {
        assert(rules.remove(at).drop_last() =~= rules.drop_last().remove(at));
        assert(rules.remove(at).last() == rules.last());
        lemma_optional_missing_is_skipped(rules.drop_last(), body, at);
    }
}

/// A required rule whose source cannot be read fails the build, whatever the other
/// rules are.
pub proof fn lemma_required_missing_fails(rules: Seq<FieldRule>, body: Members, at: int)
    requires
        0 <= at < rules.len(),
        !rules[at].optional,
        read_document(body, rules[at].from) is Err,
    ensures
        built(rules, body) is Err,
{
    let upto = rules.take(at + 1);
    assert(upto.last() == rules[at]);
    lemma_built_fails_on(rules, body, at + 1);
}

/// With such a rule on its route a request is rejected: nothing is answered from
/// the document and nothing is sent upstream.
pub proof fn lemma_required_missing_aborts(
    service: Service,
    id: Seq<char>,
    body: Members,
    at: int,
)
    requires
        service.routes.contains_key(id),
        0 <= at < service.routes[id].fields.len(),
        !service.routes[id].fields[at].optional,
        read_document(body, service.routes[id].fields[at].from) is Err,
    ensures
        plan(service, id, body) is Fail,
{
    lemma_required_missing_fails(service.routes[id].fields, body, at);
}

/// Of two rules in a row that write to the same location, only the later one shows:
/// the build ends as it does without the earlier rule, and the location holds what
/// the later rule read.
pub proof fn lemma_later_mapping_wins(
    rules: Seq<FieldRule>,
    earlier: FieldRule,
    later: FieldRule,
    body: Members,
)
    requires
        earlier.to == later.to,
        built(rules.push(earlier), body) is Ok,
        read_document(body, later.from) is Ok,
    ensures
        built(rules.push(earlier).push(later), body) == built(rules.push(later), body),
        built(rules.push(later), body) matches Ok(outgoing) ==> read_document(outgoing, later.to)
            == read_document(body, later.from),
{
    let both = rules.push(earlier).push(later);
    assert(both.drop_last() =~= rules.push(earlier));
    assert(rules.push(earlier).drop_last() =~= rules);
    assert(rules.push(later).drop_last() =~= rules);
    let before = built(rules, body)->Ok_0;
    let value = read_document(body, later.from)->Ok_0;
    if read_document(body, earlier.from) is Ok {
        let first = read_document(body, earlier.from)->Ok_0;
        lemma_document_overwrite(before, later.to, first, value);
    }
    if document_writable(before, later.to) {
        lemma_document_read_after_write(before, later.to, value);
    }
}

/// A document goes upstream only whole: where a delivery is decided, the service is
/// not in debug mode, the route exists, and the body of the delivery is the document
/// that all of the route's rules built.
pub proof fn lemma_forward_only_after_build(service: Service, id: Seq<char>, body: Members)
    ensures
        plan(service, id, body) matches Plan::Forward(delivery) ==> {
            &&& !service.debug
            &&& service.routes.contains_key(id)
            &&& built(service.routes[id].fields, body) == Ok::<Members, PathFault>(delivery.body)
        },
{
}

/// In debug mode nothing is delivered: the answer does not depend on how a delivery
/// would have ended.
pub proof fn lemma_debug_never_forwards(service: Service, id: Seq<char>, body: Members)
    requires
        service.debug,
    ensures
        !(plan(service, id, body) is Forward),
        response(service, id, body, true) == response(service, id, body, false),
{
}

/// The decisions for a batch of requests, each with its route's identifier and its
/// body: one for each request, in their order.
pub open spec fn decisions(service: Service, requests: Seq<(Seq<char>, Members)>) -> Seq<Plan> {
    Seq::new(requests.len(), |i: int| plan(service, requests[i].0, requests[i].1))
}

/// No request's decision depends on another request: replacing one request of a
/// batch changes its own decision and no other.
pub proof fn lemma_requests_are_independent(
    service: Service,
    requests: Seq<(Seq<char>, Members)>,
    at: int,
    other: (Seq<char>, Members),
)
    requires
        0 <= at < requests.len(),
    ensures
        decisions(service, requests.update(at, other)) == decisions(service, requests).update(
            at,
            plan(service, other.0, other.1),
        ),
{
    assert(decisions(service, requests.update(at, other)) =~= decisions(service, requests).update(
        at,
        plan(service, other.0, other.1),
    ));
}

/// Nor does it depend on the order in which the batch is taken: exchanging two
/// requests exchanges their decisions.
pub proof fn lemma_decisions_follow_order(
    service: Service,
    requests: Seq<(Seq<char>, Members)>,
    one: int,
    other: int,
)
    requires
        0 <= one < requests.len(),
        0 <= other < requests.len(),
    ensures
        decisions(service, requests.update(one, requests[other]).update(other, requests[one]))
            == decisions(service, requests).update(
            one,
            decisions(service, requests)[other],
        ).update(other, decisions(service, requests)[one]),
{
    assert(decisions(service, requests.update(one, requests[other]).update(other, requests[one]))
        =~= decisions(service, requests).update(one, decisions(service, requests)[other]).update(
        other,
        decisions(service, requests)[one],
    ));
}

} // verus!
