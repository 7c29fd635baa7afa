//! Operation identity: what an endpoint or a call is matched on.

use vstd::prelude::*;

use crate::text;

verus! {

/// The three GraphQL root operation kinds.
#[derive(Clone, Copy, PartialEq, Eq, Structural, Debug)]
pub enum GraphqlOperationKind {
    Query,
    Mutation,
    Subscription,
}

/// Which way a Socket.IO event travels.
#[derive(Clone, Copy, PartialEq, Eq, Structural, Debug)]
pub enum SocketDirection {
    ServerToClient,
    ClientToServer,
}

/// Which side of a topic an operation is on.
#[derive(Clone, Copy, PartialEq, Eq, Structural, Debug)]
pub enum PubsubRole {
    Subscriber,
    Publisher,
}

/// The identity of an operation, by protocol.
#[derive(Debug)]
pub enum OperationKey {
    Http { method: String, path: String },
    Socket { event: String, direction: SocketDirection },
    Graphql { kind: GraphqlOperationKind, field: String },
    Pubsub { topic: String },
}

/// The model of an [`OperationKey`].
pub enum KeyModel {
    Http { method: Seq<char>, path: Seq<char> },
    Socket { event: Seq<char>, direction: SocketDirection },
    Graphql { kind: GraphqlOperationKind, field: Seq<char> },
    Pubsub { topic: Seq<char> },
}

impl View for OperationKey {
    type V = KeyModel;

    open spec fn view(&self) -> KeyModel {
        match *self {
            OperationKey::Http { method, path } => KeyModel::Http { method: method@, path: path@ },
            OperationKey::Socket { event, direction } => KeyModel::Socket {
                event: event@,
                direction,
            },
            OperationKey::Graphql { kind, field } => KeyModel::Graphql { kind, field: field@ },
            OperationKey::Pubsub { topic } => KeyModel::Pubsub { topic: topic@ },
        }
    }
}

/// The lower-case name of a GraphQL operation kind.
pub open spec fn kind_name(kind: GraphqlOperationKind) -> Seq<char> {
    match kind {
        GraphqlOperationKind::Query => "query"@,
        GraphqlOperationKind::Mutation => "mutation"@,
        GraphqlOperationKind::Subscription => "subscription"@,
    }
}

/// The label of a socket direction.
pub open spec fn direction_label(direction: SocketDirection) -> Seq<char> {
    match direction {
        SocketDirection::ServerToClient => "SERVER->CLIENT"@,
        SocketDirection::ClientToServer => "CLIENT->SERVER"@,
    }
}

/// The text form of a key: the protocol and its parts, separated by `|`.
pub open spec fn canonical_spec(key: KeyModel) -> Seq<char> {
    match key {
        KeyModel::Http { method, path } => "http|"@ + method + "|"@ + path,
        KeyModel::Socket { event, direction } => "socket|"@ + direction_label(direction) + "|"@
            + event,
        KeyModel::Graphql { kind, field } => "graphql|"@ + kind_name(kind) + "|"@ + field,
        KeyModel::Pubsub { topic } => "pubsub|"@ + topic,
    }
}

/// How an operation is shown to people: what it is, and its name.
pub open spec fn labels(key: KeyModel) -> (Seq<char>, Seq<char>) {
    match key {
        KeyModel::Http { method, path } => (method, path),
        KeyModel::Socket { event, direction } => (direction_label(direction), event),
        KeyModel::Graphql { kind, field } => (kind_name(kind), field),
        KeyModel::Pubsub { topic } => ("pubsub"@, topic),
    }
}

impl GraphqlOperationKind {
    /// The lower-case name of the kind.
    pub fn as_str(&self) -> (r: &'static str)
        ensures
            r@ == kind_name(*self),
    {
        match self {
            GraphqlOperationKind::Query => "query",
            GraphqlOperationKind::Mutation => "mutation",
            GraphqlOperationKind::Subscription => "subscription",
        }
    }
}

impl SocketDirection {
    /// The label of the direction.
    pub fn label(&self) -> (r: &'static str)
        ensures
            r@ == direction_label(*self),
    {
        match self {
            SocketDirection::ServerToClient => "SERVER->CLIENT",
            SocketDirection::ClientToServer => "CLIENT->SERVER",
        }
    }
}

impl Clone for OperationKey {
    fn clone(&self) -> (r: Self)
        ensures
            r == *self,
    {
        match self {
            OperationKey::Http { method, path } => OperationKey::Http {
                method: method.clone(),
                path: path.clone(),
            },
            OperationKey::Socket { event, direction } => OperationKey::Socket {
                event: event.clone(),
                direction: *direction,
            },
            OperationKey::Graphql { kind, field } => OperationKey::Graphql {
                kind: *kind,
                field: field.clone(),
            },
            OperationKey::Pubsub { topic } => OperationKey::Pubsub { topic: topic.clone() },
        }
    }
}

impl OperationKey {
    /// An HTTP operation.
    pub fn http(method: &str, path: &str) -> (r: Self)
        ensures
            r@ == (KeyModel::Http { method: method@, path: path@ }),
    {
        OperationKey::Http { method: text::owned(method), path: text::owned(path) }
    }

    /// A Socket.IO event.
    pub fn socket(event: &str, direction: SocketDirection) -> (r: Self)
        ensures
            r@ == (KeyModel::Socket { event: event@, direction }),
    {
        OperationKey::Socket { event: text::owned(event), direction }
    }

    /// A GraphQL root field.
    pub fn graphql(kind: GraphqlOperationKind, field: &str) -> (r: Self)
        ensures
            r@ == (KeyModel::Graphql { kind, field: field@ }),
    {
        OperationKey::Graphql { kind, field: text::owned(field) }
    }

    /// A pub/sub topic.
    pub fn pubsub(topic: &str) -> (r: Self)
        ensures
            r@ == (KeyModel::Pubsub { topic: topic@ }),
    {
        OperationKey::Pubsub { topic: text::owned(topic) }
    }

    /// How the operation is shown to people: what it is, and its name.
    pub fn display_labels(&self) -> (r: (String, String))
        ensures
            (r.0@, r.1@) == labels(self@),
    {
        match self {
            OperationKey::Http { method, path } => (method.clone(), path.clone()),
            OperationKey::Socket { event, direction } => (
                text::owned(direction.label()),
                event.clone(),
            ),
            OperationKey::Graphql { kind, field } => (text::owned(kind.as_str()), field.clone()),
            OperationKey::Pubsub { topic } => (text::owned("pubsub"), topic.clone()),
        }
    }

    /// The text form of the key.
    pub fn canonical(&self) -> (r: String)
        ensures
            r@ == canonical_spec(self@),
    {
        match self {
            OperationKey::Http { method, path } => text::cat4("http|", method, "|", path),
            OperationKey::Socket { event, direction } => text::cat4(
                "socket|",
                direction.label(),
                "|",
                event,
            ),
            OperationKey::Graphql { kind, field } => text::cat4(
                "graphql|",
                kind.as_str(),
                "|",
                field,
            ),
            OperationKey::Pubsub { topic } => text::cat2("pubsub|", topic),
        }
    }

    /// Whether two keys identify the same operation.
    pub fn same(&self, other: &OperationKey) -> (r: bool)
        ensures
            r == (self@ == other@),
    {
        match (self, other) {
            (
                OperationKey::Http { method: m, path: p },
                OperationKey::Http { method: n, path: q },
            ) => text::same_text(m, n) && text::same_text(p, q),
            (
                OperationKey::Socket { event: e, direction: d },
                OperationKey::Socket { event: f, direction: g },
            ) => text::same_text(e, f) && *d == *g,
            (
                OperationKey::Graphql { kind: k, field: f },
                OperationKey::Graphql { kind: l, field: g },
            ) => *k == *l && text::same_text(f, g),
            (OperationKey::Pubsub { topic: t }, OperationKey::Pubsub { topic: u }) => {
                text::same_text(t, u)
            },
            _ => false,
        }
    }

    /// The event name of a socket operation.
    pub fn socket_event(&self) -> (r: Option<&String>)
        ensures
            match r {
                Some(e) => self@ matches KeyModel::Socket { event, .. } && event == e@,
                None => !(self@ is Socket),
            },
    {
        match self {
            OperationKey::Socket { event, .. } => Some(event),
            _ => None,
        }
    }

    /// The method and path of an HTTP operation.
    pub fn as_http(&self) -> (r: Option<(&String, &String)>)
        ensures
            match r {
                Some((m, p)) => self@ == (KeyModel::Http { method: m@, path: p@ }),
                None => !(self@ is Http),
            },
    {
        match self {
            OperationKey::Http { method, path } => Some((method, path)),
            _ => None,
        }
    }
}

} // verus!
