//! Bookkeeping of the peer-to-peer connections that the debugger observes.
//!
//! Each connection is identified by its socket. A connection is registered
//! when it opens, provided a node identity is available to decrypt its
//! traffic; a second connection on the same socket displaces the first,
//! whose final report is archived. Closing a socket removes its connection
//! and archives its report. Captured data goes to the connection of its
//! socket, or nowhere when the socket is not registered.
use vstd::prelude::*;
use std::collections::HashMap;
use std::collections::hash_map::Entry;
use vstd::string::StringExecFns;

verus! {

broadcast use vstd::std_specs::hash::group_hash_axioms;

/// A command that the debugger sends to every working connection.
#[derive(Debug, Clone, Copy, PartialEq, Eq, Structural)]
pub enum Command {
    /// Every connection reports its current state.
    GetReport,
    /// Every connection finishes.
    Terminate,
}

/// Whether a new connection could be followed, which needs an identity.
#[derive(Debug, Clone, Copy, PartialEq, Eq, Structural)]
pub struct ProcessingConnectionResult {
    pub have_identity: bool,
}

/// The files where a node identity is looked for, in the order they are
/// tried: two fixed locations in the shared volume, then the identity of a
/// node run by the user whose home directory is `home`.
pub fn identity_paths(home: &str) -> (r: Vec<String>)
    ensures
        r@.len() == 3,
        r@[0]@ == "/tmp/volume/identity.json"@,
        r@[1]@ == "/tmp/volume/data/identity.json"@,
        r@[2]@ == home@ + "/.tezos-node/identity.json"@,
{
    let mut r: Vec<String> = Vec::new();
    r.push(String::from_str("/tmp/volume/identity.json"));
    r.push(String::from_str("/tmp/volume/data/identity.json"));
    r.push(String::from_str(home).concat("/.tezos-node/identity.json"));
    r
}

/// Connection lifetime law: registering a connection on a free socket and
/// then closing that socket leaves the working connections as they were,
/// and closing hands back the registered connection.
pub proof fn lemma_register_then_close<C>(working: Map<u64, C>, socket: u64, connection: C)
    requires
        !working.contains_key(socket),
    ensures
        working.insert(socket, connection).remove(socket) == working,
        working.insert(socket, connection).get(socket) == Some(connection),
{
    assert(working.insert(socket, connection).remove(socket) =~= working);
}

/// Reconnection law: registering on a socket that is already in use
/// displaces its connection, and the socket then holds the new one only.
pub proof fn lemma_reconnect_displaces<C>(working: Map<u64, C>, socket: u64, first: C, second: C)
    ensures
        working.insert(socket, first).get(socket) == Some(first),
        working.insert(socket, first).insert(socket, second) == working.insert(socket, second),
        working.insert(socket, first).insert(socket, second).dom() == working.insert(socket, first).dom(),
{
    assert(working.insert(socket, first).insert(socket, second) =~= working.insert(socket, second));
    assert(working.insert(socket, first).insert(socket, second).dom() =~= working.insert(socket, first).dom());
}

/// The abstract state of a parser: the cached identity, the working
/// connections by socket, and the reports of the closed connections in the
/// order they were archived.
pub struct ParserView<I, C, R> {
    pub identity: Option<I>,
    pub working: Map<u64, C>,
    pub closed: Seq<R>,
}

/// Registry of the connections of one capture session. `I` is the node
/// identity, `C` a running connection and `R` a connection report.
#[verifier::reject_recursive_types(C)]
pub struct Parser<I, C, R> {
    identity_cache: Option<I>,
    working_connections: HashMap<u64, C>,
    closed_connections: Vec<R>,
}

impl<I, C, R> View for Parser<I, C, R> {
    type V = ParserView<I, C, R>;

    closed spec fn view(&self) -> ParserView<I, C, R> {
        ParserView {
            identity: self.identity_cache,
            working: self.working_connections@,
            closed: self.closed_connections@,
        }
    }
}

impl<I, C, R> Parser<I, C, R> {
    /// A parser with no identity, no connection and no report.
    pub fn new() -> (r: Self)
        ensures
            r@.identity is None,
            r@.working == Map::<u64, C>::empty(),
            r@.closed == Seq::<R>::empty(),
    {
        Parser {
            identity_cache: None,
            working_connections: HashMap::new(),
            closed_connections: Vec::new(),
        }
    }

    /// Whether no identity is cached yet, so that one should be loaded.
    pub fn needs_identity(&self) -> (r: bool)
        ensures
            r == (self@.identity is None),
    {
        self.identity_cache.is_none()
    }

    /// Caches the result of loading the identity. An identity that is
    /// already cached stays: loading is only attempted while none is.
    pub fn cache_identity(&mut self, loaded: Option<I>)
        ensures
            final(self)@ == (ParserView {
                identity: if old(self)@.identity is None { loaded } else { old(self)@.identity },
                ..old(self)@
            }),
    {
        if self.identity_cache.is_none() {
            self.identity_cache = loaded;
        }
    }

    /// The answer to a new connection: whether an identity is available to
    /// follow it.
    pub fn connection_result(&self) -> (r: ProcessingConnectionResult)
        ensures
            r.have_identity == (self@.identity is Some),
    {
        ProcessingConnectionResult { have_identity: self.identity_cache.is_some() }
    }

    /// The cached identity.
    pub fn identity(&self) -> (r: Option<&I>)
        ensures
            r == match self@.identity {
                Some(i) => Some(&i),
                None => None::<&I>,
            },
    {
        match &self.identity_cache {
            Some(i) => Some(i),
            None => None,
        }
    }

    /// Registers `connection` as the one working on `socket`, and returns
    /// the connection that it displaces, if one was working there.
    pub fn register_connection(&mut self, socket: u64, connection: C) -> (displaced: Option<C>)
        ensures
            final(self)@ == (ParserView { working: old(self)@.working.insert(socket, connection), ..old(self)@ }),
            displaced == old(self)@.working.get(socket),
    {
        self.working_connections.insert(socket, connection)
    }

    /// Removes and returns the connection working on `socket`, if any.
    pub fn remove_connection(&mut self, socket: u64) -> (removed: Option<C>)
        ensures
            final(self)@ == (ParserView { working: old(self)@.working.remove(socket), ..old(self)@ }),
            removed == old(self)@.working.get(socket),
    {
        self.working_connections.remove(&socket)
    }

    /// Whether a connection works on `socket`.
    pub fn has_connection(&self, socket: u64) -> (r: bool)
        ensures
            r == self@.working.contains_key(socket),
    {
        self.working_connections.contains_key(&socket)
    }

    /// The connection working on `socket`, to hand it captured data; `None`
    /// when no connection works there. Whatever the caller does to the
    /// connection is what the registry holds for `socket` afterwards.
    pub fn connection_mut(&mut self, socket: u64) -> (r: Option<&mut C>)
        ensures
            (r is Some) == old(self)@.working.contains_key(socket),
            r matches Some(c) ==> *c == old(self)@.working[socket] && final(self)@ == (ParserView {
                working: old(self)@.working.insert(socket, *final(c)),
                ..old(self)@
            }),
            r is None ==> final(self)@ == old(self)@,
    {
        if !self.working_connections.contains_key(&socket) {
            return None;
        }
        match self.working_connections.entry(socket) {
            Entry::Occupied(o) => Some(o.into_mut()),
            Entry::Vacant(_) => {
                assert(false);
                None
            },
        }
    }

    /// The sockets of all working connections, each once, in no particular
    /// order.
    pub fn socket_ids(&self) -> (r: Vec<u64>)
        ensures
            r@.to_set() == self@.working.dom(),
            r@.no_duplicates(),
    {
        let mut r: Vec<u64> = Vec::new();
        let ghost keys = vstd::std_specs::iter::IteratorSpec::remaining(&self.working_connections.keys());
        for k in it: self.working_connections.keys()
            invariant
                it.seq() == keys,
                r@ == keys.take(it.index()).unref(),
        {
            r.push(*k);
            assert(r@ =~= keys.take(it.index() + 1).unref());
        }
        assert(keys.take(keys.len() as int) =~= keys);
        r
    }

    /// Appends the final report of a connection to the closed reports.
    pub fn archive_report(&mut self, report: R)
        ensures
            final(self)@ == (ParserView { closed: old(self)@.closed.push(report), ..old(self)@ }),
    {
        self.closed_connections.push(report);
    }

    /// The reports of the closed connections, oldest first.
    pub fn closed_reports(&self) -> (r: &[R])
        ensures
            r@ == self@.closed,
    {
        self.closed_connections.as_slice()
    }

    /// The number of working connections.
    pub fn working_count(&self) -> (r: usize)
        ensures
            r == self@.working.len(),
    {
        self.working_connections.len()
    }
}

} // verus!
