use crate::json::JsonObject;
use crate::model::{Members, Segment};
use crate::path::{path_view, JsonPath};
use vstd::hash_map::StringHashMap;
use vstd::prelude::*;

verus! {

/// The HTTP method by which a document is forwarded.
#[derive(Clone, Copy, Debug, PartialEq, Eq)]
pub enum Method {
    Post,
    Put,
    Patch,
}

impl Default for Method {
    /// A route that names no method forwards by `POST`.
    fn default() -> (method: Self)
        ensures
            method == Method::Post,
    {
        Method::Post
    }
}

/// One rule of a route: the value at `from` in the inbound body goes to `to` in the
/// outgoing document.
#[derive(Debug, PartialEq, Eq)]
pub struct FieldMapping {
    pub from: JsonPath,
    pub to: JsonPath,
    /// Whether the rule is passed over when `from` cannot be read.
    pub optional: bool,
}

/// The model of a field mapping.
pub struct FieldRule {
    pub from: Seq<Segment>,
    pub to: Seq<Segment>,
    pub optional: bool,
}

impl View for FieldMapping {
    type V = FieldRule;

    open spec fn view(&self) -> FieldRule {
        FieldRule { from: path_view(self.from@), to: path_view(self.to@), optional: self.optional }
    }
}

/// The model of a list of field mappings: the model of each, in order.
pub open spec fn rules_view(fields: Seq<FieldMapping>) -> Seq<FieldRule> {
    Seq::new(fields.len(), |i: int| fields[i]@)
}

/// How the requests of one route are remapped and where they are forwarded.
#[derive(Debug, PartialEq, Eq)]
pub struct RouteConfig {
    pub forward_url: String,
    pub forward_method: Method,
    /// The rules, applied in this order: a later one overwrites what an earlier one
    /// wrote to the same location.
    pub fields: Vec<FieldMapping>,
    /// What is answered once the document has been forwarded; an empty object where
    /// none is given.
    pub reply: Option<JsonObject>,
}

/// The model of a route's configuration.
pub struct Route {
    pub forward_url: Seq<char>,
    pub forward_method: Method,
    pub fields: Seq<FieldRule>,
    pub reply: Option<Members>,
}

impl View for RouteConfig {
    type V = Route;

    open spec fn view(&self) -> Route {
        Route {
            forward_url: self.forward_url@,
            forward_method: self.forward_method,
            fields: rules_view(self.fields@),
            reply: match self.reply {
                Some(reply) => Some(reply@),
                None => None,
            },
        }
    }
}

/// The configuration of the service: built once, then only read.
pub struct ServiceConfig {
    port: u16,
    user_agent: Option<String>,
    debug: bool,
    routes: StringHashMap<RouteConfig>,
}

/// The model of the service's configuration.
pub struct Service {
    pub port: u16,
    pub user_agent: Option<Seq<char>>,
    pub debug: bool,
    pub routes: Map<Seq<char>, Route>,
}

impl View for ServiceConfig {
    type V = Service;

    closed spec fn view(&self) -> Service {
        Service {
            port: self.port,
            user_agent: match self.user_agent {
                Some(agent) => Some(agent@),
                None => None,
            },
            debug: self.debug,
            routes: self.routes@.map_values(|route: RouteConfig| route@),
        }
    }
}

impl ServiceConfig {
    /// A configuration without routes.
    pub fn new(port: u16, user_agent: Option<String>, debug: bool) -> (config: Self)
        ensures
            config@.port == port,
            config@.user_agent == match user_agent {
                Some(agent) => Some(agent@),
                None => None,
            },
            config@.debug == debug,
            config@.routes == Map::<Seq<char>, Route>::empty(),
    {
        let config = ServiceConfig { port, user_agent, debug, routes: StringHashMap::new() };
        assert(config@.routes =~= Map::empty());
        config
    }

    /// Sets the route with the identifier `id`, in place of one that had it before.
    pub fn add_route(&mut self, id: String, route: RouteConfig)
        ensures
            final(self)@ == (Service { routes: old(self)@.routes.insert(id@, route@), ..old(self)@ }),
    {
        self.routes.insert(id, route);
        assert(self@.routes =~= old(self)@.routes.insert(id@, route@));
    }

    /// The route with the identifier `id`, if there is one.
    pub fn route(&self, id: &str) -> (found: Option<&RouteConfig>)
        ensures
            match found {
                Some(route) => self@.routes.contains_key(id@) && route@ == self@.routes[id@],
                None => !self@.routes.contains_key(id@),
            },
    {
        self.routes.get(id)
    }

    /// The port to listen on.
    pub fn port(&self) -> (port: u16)
        ensures
            port == self@.port,
    {
        self.port
    }

    /// The user agent to forward under, if one is configured.
    pub fn user_agent(&self) -> (agent: Option<&str>)
        ensures
            match agent {
                Some(agent) => self@.user_agent == Some(agent@),
                None => self@.user_agent is None,
            },
    {
        match &self.user_agent {
            Some(agent) => Some(agent.as_str()),
            None => None,
        }
    }

    /// Whether the outgoing document is answered instead of being forwarded.
    pub fn debug(&self) -> (debug: bool)
        ensures
            debug == self@.debug,
    {
        self.debug
    }
}

} // verus!
