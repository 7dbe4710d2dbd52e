use crate::config::{
    rules_view, FieldMapping, FieldRule, Method, Route, Service, ServiceConfig,
};
use crate::json::JsonObject;
use crate::model::{Members, PathFault};
use crate::path::{
    document_writable, read_document, resolve_read, write_value, written_document, PathError,
};
use vstd::prelude::*;

verus! {

/// Why a request was not answered.
#[derive(Debug, PartialEq, Eq)]
pub enum DispatchError {
    /// No route has the identifier of the request.
    RouteNotFound,
    /// A field mapping of the route could not be applied to the request's body.
    Field(PathError),
    /// The document could not be delivered upstream.
    UpstreamError,
}

/// The model of a dispatch error.
pub enum DispatchFault {
    RouteNotFound,
    Field(PathFault),
    UpstreamError,
}

impl View for DispatchError {
    type V = DispatchFault;

    open spec fn view(&self) -> DispatchFault {
        match self {
            DispatchError::RouteNotFound => DispatchFault::RouteNotFound,
            DispatchError::Field(error) => DispatchFault::Field(error@),
            DispatchError::UpstreamError => DispatchFault::UpstreamError,
        }
    }
}

/// The fault, if any, with which a rule fails on the outgoing document built so far:
/// that of reading `from` in the body, unless the rule is optional; else
/// `TypeMismatch` where `to` cannot be materialized in the outgoing document.
pub open spec fn field_fault(outgoing: Members, rule: FieldRule, body: Members) -> Option<PathFault> {
    match read_document(body, rule.from) {
        Ok(_) => if document_writable(outgoing, rule.to) {
            None
        } else {
            Some(PathFault::TypeMismatch)
        },
        Err(fault) => if rule.optional {
            None
        } else {
            Some(fault)
        },
    }
}

/// The outgoing document after a rule: with the value read at `from` in the body
/// written at `to`; as it was, where nothing could be read or written.
pub open spec fn field_applied(outgoing: Members, rule: FieldRule, body: Members) -> Members {
    match read_document(body, rule.from) {
        Ok(value) => if document_writable(outgoing, rule.to) {
            written_document(outgoing, rule.to, value)
        } else {
            outgoing
        },
        Err(_) => outgoing,
    }
}

/// The outgoing document that the rules build from the body, one after the other
/// from an empty object; or the fault of the first rule that fails.
pub open spec fn built(rules: Seq<FieldRule>, body: Members) -> Result<Members, PathFault>
    decreases rules.len(),
{
    if rules.len() == 0 {
        Ok(Seq::empty())
    } else {
        match built(rules.drop_last(), body) {
            Ok(outgoing) => match field_fault(outgoing, rules.last(), body) {
                None => Ok(field_applied(outgoing, rules.last(), body)),
                Some(fault) => Err(fault),
            },
            Err(fault) => Err(fault),
        }
    }
}

/// Applies one field mapping: reads `from` in `body` and writes a copy of what it
/// found at `to` in `outgoing`.
///
/// A read that fails is an error unless the mapping is optional.  A write that fails
/// is a `TypeMismatch`, optional or not.  Either way `outgoing` is then as it was.
pub fn apply_field(field: &FieldMapping, body: &JsonObject, outgoing: &mut JsonObject) -> (done:
    Result<(), PathError>)
    ensures
        final(outgoing)@ == field_applied(old(outgoing)@, field@, body@),
        match done {
            Ok(_) => field_fault(old(outgoing)@, field@, body@) is None,
            Err(error) => field_fault(old(outgoing)@, field@, body@) == Some(error@),
        },
{
    match resolve_read(&field.from, body) {
        Ok(value) => write_value(&field.to, outgoing, value.clone()),
        Err(error) => {
            if field.optional {
                Ok(())
            } else {
                Err(error)
            }
        },
    }
}

/// Builds the outgoing document of a request: the mappings applied in order to an
/// empty object.  The first mapping that fails ends the build with its error, and
/// what was built is dropped.
pub fn build_document(fields: &Vec<FieldMapping>, body: &JsonObject) -> (outcome: Result<
    JsonObject,
    PathError,
>)
    ensures
        match outcome {
            Ok(outgoing) => built(rules_view(fields@), body@) == Ok::<Members, PathFault>(
                outgoing@,
            ),
            Err(error) => built(rules_view(fields@), body@) == Err::<Members, PathFault>(error@),
        },
{
    let ghost rules = rules_view(fields@);
    let mut outgoing = JsonObject::new();
    let mut at: usize = 0;
    assert(rules.take(0) =~= Seq::empty());
    while at < fields.len()
        invariant
            at <= fields.len(),
            rules == rules_view(fields@),
            built(rules.take(at as int), body@) == Ok::<Members, PathFault>(outgoing@),
        decreases fields.len() - at,
    {
        let ghost next = rules.take(at + 1);
        assert(next.drop_last() =~= rules.take(at as int));
        assert(next.last() == fields@[at as int]@);
        match apply_field(&fields[at], body, &mut outgoing) {
            Ok(_) => {},
            Err(error) => {
                proof {
                    lemma_built_fails_on(rules, body@, at + 1);
                }
                return Err(error);
            },
        }
        at = at + 1;
    }
    assert(rules.take(at as int) =~= rules);
    Ok(outgoing)
}

/// A build that fails on the first `upto` rules fails in the same way on all of
/// them.
pub proof fn lemma_built_fails_on(rules: Seq<FieldRule>, body: Members, upto: int)
    requires
        0 <= upto <= rules.len(),
        built(rules.take(upto), body) is Err,
    ensures
        built(rules, body) == built(rules.take(upto), body),
    decreases rules.len(),
{
    if upto < rules.len() {
        assert(rules.drop_last().take(upto) =~= rules.take(upto));
        lemma_built_fails_on(rules.drop_last(), body, upto);
    } else {
        assert(rules.take(upto) =~= rules);
    }
}

/// A document on its way upstream, and what is answered once it has arrived.
#[derive(Debug, PartialEq, Eq)]
pub struct Forward {
    pub method: Method,
    pub url: String,
    /// The outgoing document, sent as the body of the request.
    pub body: JsonObject,
    /// The answer to the inbound request if the delivery succeeds.
    pub reply: JsonObject,
}

/// The model of a document on its way upstream.
pub struct Delivery {
    pub method: Method,
    pub url: Seq<char>,
    pub body: Members,
    pub reply: Members,
}

impl View for Forward {
    type V = Delivery;

    open spec fn view(&self) -> Delivery {
        Delivery { method: self.method, url: self.url@, body: self.body@, reply: self.reply@ }
    }
}

/// What the handler decided for a request.
#[derive(Debug, PartialEq, Eq)]
pub enum Dispatch {
    /// Answer with this document; nothing is sent upstream.
    Respond(JsonObject),
    /// Send the document upstream, then settle with the outcome of the delivery.
    Forward(Forward),
    /// Reject the request; nothing is sent upstream.
    Fail(DispatchError),
}

/// The model of a handler's decision.
pub enum Plan {
    Respond(Members),
    Forward(Delivery),
    Fail(DispatchFault),
}

impl View for Dispatch {
    type V = Plan;

    open spec fn view(&self) -> Plan {
        match self {
            Dispatch::Respond(document) => Plan::Respond(document@),
            Dispatch::Forward(forward) => Plan::Forward(forward@),
            Dispatch::Fail(error) => Plan::Fail(error@),
        }
    }
}

/// What is answered after a delivery on this route: its reply, or an empty object
/// where it has none.
pub open spec fn reply_of(route: Route) -> Members {
    match route.reply {
        Some(reply) => reply,
        None => Seq::empty(),
    }
}

/// The decision for a request: rejection where no route has its identifier or a
/// rule fails on its body; else, with the document that the route's rules build, an
/// answer in debug mode and a delivery otherwise.
pub open spec fn plan(service: Service, id: Seq<char>, body: Members) -> Plan {
    if !service.routes.contains_key(id) {
        Plan::Fail(DispatchFault::RouteNotFound)
    } else {
        let route = service.routes[id];
        match built(route.fields, body) {
            Err(fault) => Plan::Fail(DispatchFault::Field(fault)),
            Ok(outgoing) => if service.debug {
                Plan::Respond(outgoing)
            } else {
                Plan::Forward(
                    Delivery {
                        method: route.forward_method,
                        url: route.forward_url,
                        body: outgoing,
                        reply: reply_of(route),
                    },
                )
            },
        }
    }
}

/// How a delivery ends: with its reply where the document arrived, with
/// `UpstreamError` where it did not.
pub open spec fn settled(delivery: Delivery, delivered: bool) -> Result<Members, DispatchFault> {
    if delivered {
        Ok(delivery.reply)
    } else {
        Err(DispatchFault::UpstreamError)
    }
}

/// The answer to a request, given whether a delivery, should one be made, succeeds.
pub open spec fn response(service: Service, id: Seq<char>, body: Members, delivered: bool) -> Result<
    Members,
    DispatchFault,
> {
    match plan(service, id, body) {
        Plan::Respond(document) => Ok(document),
        Plan::Forward(delivery) => settled(delivery, delivered),
        Plan::Fail(fault) => Err(fault),
    }
}

/// Decides what to do with the inbound request for the route `id`.
///
/// The route is looked up and its mappings build the outgoing document from `body`.
/// In debug mode that document is the answer.  Otherwise it is to be sent to the
/// route's URL by the route's method, and `Forward::settle` gives the answer once
/// the outcome of the delivery is known.
pub fn handler(id: &str, body: &JsonObject, config: &ServiceConfig) -> (decision: Dispatch)
    ensures
        decision@ == plan(config@, id@, body@),
{
    let route = match config.route(id) {
        Some(route) => route,
        None => {
            return Dispatch::Fail(DispatchError::RouteNotFound);
        },
    };
    let forwarded = match build_document(&route.fields, body) {
        Ok(forwarded) => forwarded,
        Err(error) => {
            return Dispatch::Fail(DispatchError::Field(error));
        },
    };
    if config.debug() {
        Dispatch::Respond(forwarded)
    } else {
        let reply = match &route.reply {
            Some(reply) => reply.clone(),
            None => JsonObject::new(),
        };
        Dispatch::Forward(
            Forward {
                method: route.forward_method,
                url: route.forward_url.clone(),
                body: forwarded,
                reply,
            },
        )
    }
}

impl Forward {
    /// The answer to the inbound request once the delivery has ended.
    pub fn settle(self, delivered: bool) -> (answer: Result<JsonObject, DispatchError>)
        ensures
            match answer {
                Ok(reply) => settled(self@, delivered) == Ok::<Members, DispatchFault>(reply@),
                Err(error) => settled(self@, delivered) == Err::<Members, DispatchFault>(error@),
            },
    {
        if delivered {
            Ok(self.reply)
        } else {
            Err(DispatchError::UpstreamError)
        }
    }
}

} // verus!
