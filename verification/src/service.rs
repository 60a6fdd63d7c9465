//! The listing service: what to ask of the backend next, and when the
//! listing is done.
//!
//! One request runs through the phases resolving, fetching the parent,
//! fetching the children and assembled. The caller does the backend's
//! work: it carries out the action that a turn names and comes back with
//! the event that tells how it went. Records are normalized in the turn
//! that takes in the children. Nothing is kept between requests.

use vstd::prelude::*;

use crate::listing::{
    containers_listing, directory_listing, list_containers, list_directory, list_objects, objects_listing,
    ObjectRecord,
};
use crate::model::{opt_text, ListRequest, ListResponse, Listing, Request};
use crate::navigator::{
    canonical, container_of, locate, object_prefix_of, relocate, relocated, resolve, Location, Resolved,
};
use crate::normalizer::{Backend, Record, Stat};

verus! {

/// Where a request goes.
#[derive(Debug)]
pub enum Route {
    /// To the listing service.
    List(ListRequest),
    /// Nowhere: the request is answered as not found.
    NotFound,
}

/// Routes a request. Listing is the one operation that is served; every
/// other request is answered as not found.
pub fn dispatch(request: Request) -> (out: Route)
    ensures
        match request {
            Request::List(list) => out == Route::List(list),
            _ => out == Route::NotFound,
        },
{
    match request {
        Request::List(list) => Route::List(list),
        _ => Route::NotFound,
    }
}

/// Why a request was given up.
#[derive(Clone, Copy, Debug, PartialEq, Eq, Structural)]
pub enum ListError {
    /// The path could not be made canonical: it does not exist or cannot
    /// be reached.
    Resolution,
    /// The backend failed while the parent or the children were read.
    Transport,
    /// An event arrived that the phase does not wait for.
    OutOfTurn,
}

/// How far a request has come.
#[derive(Clone, Copy, Debug, PartialEq, Eq, Structural)]
pub enum Phase {
    Resolving,
    FetchingParent,
    FetchingChildren,
    Assembled,
    Failed,
}

/// The state of one request.
#[derive(Debug)]
pub struct Session {
    pub backend: Backend,
    pub phase: Phase,
    pub location: Resolved,
    /// The metadata of the parent, once it has been fetched.
    pub parent: Option<Stat>,
}

/// What the backend reports back.
#[derive(Debug)]
pub enum Event {
    /// The path under which the filesystem knows the location.
    Located(String),
    /// The metadata of the parent directory; none where it could not be
    /// read.
    ParentRead(Option<Stat>),
    /// The children of the location.
    ChildrenRead(Vec<Record>),
    /// The names of the containers of the object store.
    ContainersRead(Vec<String>),
    /// The common prefixes and the objects under the location's prefix.
    ObjectsRead { prefixes: Vec<String>, objects: Vec<ObjectRecord> },
    /// The work failed as a whole.
    Failed,
}

/// What the caller is to do next.
#[derive(Debug)]
pub enum Action {
    /// Ask the filesystem for the canonical form of `path`.
    Locate { path: String },
    /// Read the metadata of the directory at `path`.
    StatParent { path: String },
    /// Read the children of the directory at `path`.
    ReadChildren { path: String },
    /// List the containers of the object store.
    ReadContainers,
    /// List `container` by `prefix`, with the separator as delimiter.
    ReadObjects { container: String, prefix: String },
    /// Answer the request.
    Respond(ListResponse),
    /// Give the request up.
    Fail(ListError),
}

/// A session as plain mathematical data.
pub struct SessionView {
    pub backend: Backend,
    pub phase: Phase,
    pub location: Location,
    pub parent: Option<Stat>,
}

impl View for Session {
    type V = SessionView;

    open spec fn view(&self) -> SessionView {
        SessionView {
            backend: self.backend,
            phase: self.phase,
            location: self.location@,
            parent: self.parent,
        }
    }
}

/// An action as plain mathematical data.
pub enum ActionView {
    Locate { path: Seq<char> },
    StatParent { path: Seq<char> },
    ReadChildren { path: Seq<char> },
    ReadContainers,
    ReadObjects { container: Seq<char>, prefix: Seq<char> },
    Respond(Listing),
    Fail(ListError),
}

impl View for Action {
    type V = ActionView;

    open spec fn view(&self) -> ActionView {
        match *self {
            Action::Locate { path } => ActionView::Locate { path: path@ },
            Action::StatParent { path } => ActionView::StatParent { path: path@ },
            Action::ReadChildren { path } => ActionView::ReadChildren { path: path@ },
            Action::ReadContainers => ActionView::ReadContainers,
            Action::ReadObjects { container, prefix } => ActionView::ReadObjects {
                container: container@,
                prefix: prefix@,
            },
            Action::Respond(response) => ActionView::Respond(response@),
            Action::Fail(error) => ActionView::Fail(error),
        }
    }
}

/// One turn of the service: the state it leaves and the action it asks for.
pub struct Turn {
    pub session: SessionView,
    pub action: ActionView,
}

/// The turn that follows once the location is settled. The object store
/// needs no parent: at the root its containers are listed, inside a
/// container the objects under the location's prefix. A hierarchical
/// backend reads the parent first where there is one.
pub open spec fn settled(backend: Backend, location: Location) -> Turn {
    let session = SessionView { backend, phase: Phase::FetchingChildren, location, parent: None };
    match backend {
        Backend::ObjectStore => Turn {
            session,
            action: match container_of(location.segments) {
                Some(container) => ActionView::ReadObjects {
                    container,
                    prefix: object_prefix_of(location.segments),
                },
                None => ActionView::ReadContainers,
            },
        },
        _ => if location.segments.len() > 0 {
            Turn {
                session: SessionView { phase: Phase::FetchingParent, ..session },
                action: ActionView::StatParent { path: canonical(location.segments.drop_last()) },
            }
        } else {
            Turn { session, action: ActionView::ReadChildren { path: canonical(location.segments) } }
        },
    }
}

/// The first turn of a request. The local backend has the filesystem
/// confirm the resolved path; the others go on with it as it is.
pub open spec fn opened(backend: Backend, path: Option<Seq<char>>, key: Option<Seq<char>>) -> Turn {
    let location = locate(path, key);
    match backend {
        Backend::Local => Turn {
            session: SessionView { backend, phase: Phase::Resolving, location, parent: None },
            action: ActionView::Locate { path: canonical(location.segments) },
        },
        _ => settled(backend, location),
    }
}

/// The turn that gives the request up.
pub open spec fn failed(session: SessionView, error: ListError) -> Turn {
    Turn { session: SessionView { phase: Phase::Failed, ..session }, action: ActionView::Fail(error) }
}

/// The turn that answers the request.
pub open spec fn answered(session: SessionView, listing: Listing) -> Turn {
    Turn {
        session: SessionView { phase: Phase::Assembled, ..session },
        action: ActionView::Respond(listing),
    }
}

/// The turn that `event` leads to from `session`.
///
/// A failure while resolving is a resolution error, a failure while
/// fetching is a transport error, and either ends the request. An event
/// that the phase does not wait for ends it out of turn.
pub open spec fn advanced(session: SessionView, event: Event) -> Turn {
    match (session.phase, event) {
        (Phase::Resolving, Event::Located(real_path)) => settled(
            session.backend,
            relocated(session.location, real_path@),
        ),
        (Phase::Resolving, Event::Failed) => failed(session, ListError::Resolution),
        (Phase::FetchingParent, Event::ParentRead(stat)) => Turn {
            session: SessionView { phase: Phase::FetchingChildren, parent: stat, ..session },
            action: ActionView::ReadChildren { path: canonical(session.location.segments) },
        },
        (Phase::FetchingParent, Event::Failed) => failed(session, ListError::Transport),
        (Phase::FetchingChildren, Event::ChildrenRead(children)) => if session.backend
            != Backend::ObjectStore {
            answered(
                session,
                directory_listing(session.backend, session.location, session.parent, children@),
            )
        } else {
            failed(session, ListError::OutOfTurn)
        },
        (Phase::FetchingChildren, Event::ContainersRead(names)) => if session.backend
            == Backend::ObjectStore && session.location.segments.len() == 0 {
            answered(session, containers_listing(session.location.active_key, names@))
        } else {
            failed(session, ListError::OutOfTurn)
        },
        (Phase::FetchingChildren, Event::ObjectsRead { prefixes, objects }) => if session.backend
            == Backend::ObjectStore && session.location.segments.len() > 0 {
            answered(session, objects_listing(session.location, prefixes@, objects@))
        } else {
            failed(session, ListError::OutOfTurn)
        },
        (Phase::FetchingChildren, Event::Failed) => failed(session, ListError::Transport),
        _ => failed(session, ListError::OutOfTurn),
    }
}

fn settle(backend: Backend, location: Resolved) -> (out: (Session, Action))
    ensures
        out.0@ == settled(backend, location@).session,
        out.1@ == settled(backend, location@).action,
{
    match backend {
        Backend::ObjectStore => {
            let action = match location.container() {
                Some(container) => Action::ReadObjects { container, prefix: location.object_prefix() },
                None => Action::ReadContainers,
            };
            (Session { backend, phase: Phase::FetchingChildren, location, parent: None }, action)
        },
        _ => match location.parent_path() {
            Some(path) => (
                Session { backend, phase: Phase::FetchingParent, location, parent: None },
                Action::StatParent { path },
            ),
            None => {
                let path = location.canonical_path();
                (
                    Session { backend, phase: Phase::FetchingChildren, location, parent: None },
                    Action::ReadChildren { path },
                )
            },
        },
    }
}

fn fail(session: Session, error: ListError) -> (out: (Session, Action))
    ensures
        out.0@ == failed(session@, error).session,
        out.1@ == failed(session@, error).action,
{
    (
        Session {
            backend: session.backend,
            phase: Phase::Failed,
            location: session.location,
            parent: session.parent,
        },
        Action::Fail(error),
    )
}

fn answer(session: Session, response: ListResponse) -> (out: (Session, Action))
    ensures
        out.0@ == answered(session@, response@).session,
        out.1@ == answered(session@, response@).action,
{
    (
        Session {
            backend: session.backend,
            phase: Phase::Assembled,
            location: session.location,
            parent: session.parent,
        },
        Action::Respond(response),
    )
}

impl Session {
    /// Opens the session of a request and names the first action.
    pub fn begin(backend: Backend, request: &ListRequest) -> (out: (Session, Action))
        ensures
            out.0@ == opened(backend, opt_text(request.path), opt_text(request.key)).session,
            out.1@ == opened(backend, opt_text(request.path), opt_text(request.key)).action,
    {
        let location = resolve(request);
        match backend {
            Backend::Local => {
                let path = location.canonical_path();
                (
                    Session { backend, phase: Phase::Resolving, location, parent: None },
                    Action::Locate { path },
                )
            },
            _ => settle(backend, location),
        }
    }

    /// Takes in what the backend reports and names the next action.
    pub fn advance(self, event: Event) -> (out: (Session, Action))
        ensures
            out.0@ == advanced(self@, event).session,
            out.1@ == advanced(self@, event).action,
    {
        match self.phase {
            Phase::Resolving => match event {
                Event::Located(real_path) => {
                    let location = relocate(self.location, real_path.as_str());
                    settle(self.backend, location)
                },
                Event::Failed => fail(self, ListError::Resolution),
                _ => fail(self, ListError::OutOfTurn),
            },
            Phase::FetchingParent => match event {
                Event::ParentRead(stat) => {
                    let path = self.location.canonical_path();
                    (
                        Session {
                            backend: self.backend,
                            phase: Phase::FetchingChildren,
                            location: self.location,
                            parent: stat,
                        },
                        Action::ReadChildren { path },
                    )
                },
                Event::Failed => fail(self, ListError::Transport),
                _ => fail(self, ListError::OutOfTurn),
            },
            Phase::FetchingChildren => match event {
                Event::ChildrenRead(children) => {
                    if self.backend != Backend::ObjectStore {
                        let response = list_directory(self.backend, &self.location, self.parent, &children);
                        answer(self, response)
                    } else {
                        fail(self, ListError::OutOfTurn)
                    }
                },
                Event::ContainersRead(names) => {
                    if self.backend == Backend::ObjectStore && !self.location.has_parent() {
                        let active = match &self.location.active_key {
                            Some(key) => Some(key.as_str()),
                            None => None,
                        };
                        let response = list_containers(active, &names);
                        answer(self, response)
                    } else {
                        fail(self, ListError::OutOfTurn)
                    }
                },
                Event::ObjectsRead { prefixes, objects } => {
                    if self.backend == Backend::ObjectStore && self.location.has_parent() {
                        let response = list_objects(&self.location, &prefixes, &objects);
                        answer(self, response)
                    } else {
                        fail(self, ListError::OutOfTurn)
                    }
                },
                Event::Failed => fail(self, ListError::Transport),
                _ => fail(self, ListError::OutOfTurn),
            },
            _ => fail(self, ListError::OutOfTurn),
        }
    }
}

/// A request to a hierarchical backend that meets no failure is answered
/// with the directory listing of its location. Below the root the parent
/// is read first, then the children; at the root the children alone.
pub proof fn lemma_directory_run(
    backend: Backend,
    location: Location,
    stat: Option<Stat>,
    children: Vec<Record>,
)
    requires
        backend != Backend::ObjectStore,
    ensures
        ({
            let first = settled(backend, location);
            if location.segments.len() > 0 {
                let second = advanced(first.session, Event::ParentRead(stat));
                let last = advanced(second.session, Event::ChildrenRead(children));
                &&& first.action == (ActionView::StatParent { path: canonical(location.segments.drop_last()) })
                &&& second.action == (ActionView::ReadChildren { path: canonical(location.segments) })
                &&& last.action == ActionView::Respond(directory_listing(backend, location, stat, children@))
                &&& last.session.phase == Phase::Assembled
            } else {
                let last = advanced(first.session, Event::ChildrenRead(children));
                &&& first.action == (ActionView::ReadChildren { path: canonical(location.segments) })
                &&& last.action == ActionView::Respond(directory_listing(backend, location, None, children@))
                &&& last.session.phase == Phase::Assembled
            }
        }),
{
}

/// A local request is settled at the place that the filesystem names for
/// its resolved path, under the active key of the request.
pub proof fn lemma_local_run(path: Option<Seq<char>>, key: Option<Seq<char>>, real_path: String)
    ensures
        ({
            let first = opened(Backend::Local, path, key);
            let second = advanced(first.session, Event::Located(real_path));
            &&& first.action == (ActionView::Locate { path: canonical(locate(path, key).segments) })
            &&& second == settled(Backend::Local, relocated(locate(path, key), real_path@))
            &&& second.session.location.active_key == locate(path, key).active_key
        }),
{
}

/// A request to the object store that meets no failure is answered with
/// the containers at the root, and inside a container with what the store
/// holds under the location's prefix.
pub proof fn lemma_store_run(
    path: Option<Seq<char>>,
    key: Option<Seq<char>>,
    names: Vec<String>,
    prefixes: Vec<String>,
    objects: Vec<ObjectRecord>,
)
    ensures
        ({
            let location = locate(path, key);
            let first = opened(Backend::ObjectStore, path, key);
            if location.segments.len() == 0 {
                let last = advanced(first.session, Event::ContainersRead(names));
                &&& first.action == ActionView::ReadContainers
                &&& last.action == ActionView::Respond(containers_listing(location.active_key, names@))
            } else {
                let last = advanced(first.session, Event::ObjectsRead { prefixes, objects });
                &&& first.action == (ActionView::ReadObjects {
                    container: location.segments[0],
                    prefix: object_prefix_of(location.segments),
                })
                &&& last.action == ActionView::Respond(objects_listing(location, prefixes@, objects@))
            }
        }),
{
}

} // verus!
