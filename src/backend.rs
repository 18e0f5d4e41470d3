use vstd::prelude::*;
use crate::registry::SessionRegistry;
use crate::session::{SessionState, SessionModel, StudioError, shown_layers};
use crate::store::{MockStore, SeedBundle, ProfileBundle, ProfileModel, initial_state};
use crate::models::{layers_view, opt_state};

verus! {

/// Relies on uuid::Uuid::new_v4 and its text form: a fresh random session id.
/// Nothing is promised of its value.
#[verifier::external_body]
fn fresh_session_id() -> (r: String) {
    uuid::Uuid::new_v4().to_string()
}

/// The file-backed backend: a store and the registry of live sessions.
pub struct MockBackend {
    pub store: MockStore,
    pub sessions: SessionRegistry,
}

/// The record a session starts from: the persisted one, else the bundle's baseline.
pub open spec fn opened_state(
    device_id: Seq<char>,
    seeds: SeedBundle,
    existing: Option<SessionState>,
    session_id: Seq<char>,
) -> SessionModel {
    let base = match existing {
        Some(s) => s@,
        None => initial_state(device_id, seeds),
    };
    SessionModel { session_id, ..base }
}

/// On first use of a device (no persisted record) the opened record has committed,
/// applied and staged equal, at revision 0, whenever the bundle's own committed
/// state, if it has one, is at revision 0.
pub proof fn lemma_first_open_tiers_equal(
    device_id: Seq<char>,
    seeds: SeedBundle,
    session_id: Seq<char>,
)
    requires
        seeds.committed_state matches Some(c) ==> c.revision == Some(0i32),
    ensures
        ({
            let s = opened_state(device_id, seeds, None, session_id);
            &&& s.committed is Some
            &&& s.applied == s.committed
            &&& s.staged == s.committed
            &&& s.committed->Some_0.revision == Some(0i32)
        }),
{
}

impl MockBackend {
    pub open spec fn wf(&self) -> bool {
        self.sessions.wf()
    }

    pub fn new(seed_root: String, data_root: String) -> (r: MockBackend)
        ensures
            r.wf(),
            r.sessions@ == Map::<Seq<char>, Seq<char>>::empty(),
            r.store.seed_root@ == seed_root@,
            r.store.data_root@ == data_root@,
    {
        MockBackend { store: MockStore::new(seed_root, data_root), sessions: SessionRegistry::new() }
    }

    /// The device a live session acts on; `UnknownSession` when it is not registered.
    pub fn device_for_session(&self, session_id: &String) -> (r: Result<String, StudioError>)
        requires
            self.wf(),
        ensures
            match r {
                Ok(d) => self.sessions@.contains_key(session_id@) && self.sessions@[session_id@]
                    == d@,
                Err(e) => !self.sessions@.contains_key(session_id@) && e
                    == StudioError::UnknownSession,
            },
    {
        match self.sessions.resolve(session_id) {
            Some(d) => Ok(d),
            None => Err(StudioError::UnknownSession),
        }
    }

    /// Opens a session on `device_id` under `session_id`: the persisted record (or the
    /// bundle's baseline) takes the new id, the id is bound to the device, and the
    /// bundle for the caller is built. The returned record is to be persisted.
    pub fn open_session_with_id(
        &mut self,
        device_id: String,
        session_id: String,
        seeds: &SeedBundle,
        existing: Option<SessionState>,
    ) -> (r: (SessionState, ProfileBundle))
        requires
            old(self).wf(),
        ensures
            final(self).wf(),
            final(self).sessions@ == old(self).sessions@.insert(session_id@, device_id@),
            final(self).store == old(self).store,
            r.0@ == opened_state(device_id@, *seeds, existing, session_id@),
            r.1.session_id@ == session_id@,
            r.1.profile@ == (ProfileModel {
                layers: shown_layers(r.0@, layers_view(seeds.profile.layers@)),
                ..seeds.profile@
            }),
            opt_state(r.1.committed_state) == r.0@.committed,
            opt_state(r.1.applied_state) == r.0@.applied,
            opt_state(r.1.staged_state) == r.0@.staged,
    {
        let mut state = match existing {
            Some(s) => s,
            None => self.store.initial_state_from_bundle(device_id.as_str(), seeds),
        };
        state.session_id = session_id.clone();
        self.sessions.register(session_id.clone(), device_id);
        let bundle = seeds.to_profile_bundle(session_id, &state);
        (state, bundle)
    }

    /// Opens a session on `device_id` under a fresh random id; see `open_session_with_id`.
    pub fn open_session(
        &mut self,
        device_id: String,
        seeds: &SeedBundle,
        existing: Option<SessionState>,
    ) -> (r: (SessionState, ProfileBundle))
        requires
            old(self).wf(),
        ensures
            final(self).wf(),
            final(self).sessions@ == old(self).sessions@.insert(r.1.session_id@, device_id@),
            final(self).store == old(self).store,
            r.0@ == opened_state(device_id@, *seeds, existing, r.1.session_id@),
            r.1.profile@ == (ProfileModel {
                layers: shown_layers(r.0@, layers_view(seeds.profile.layers@)),
                ..seeds.profile@
            }),
            opt_state(r.1.committed_state) == r.0@.committed,
            opt_state(r.1.applied_state) == r.0@.applied,
            opt_state(r.1.staged_state) == r.0@.staged,
    {
        let session_id = fresh_session_id();
        self.open_session_with_id(device_id, session_id, seeds, existing)
    }

    /// Ends a session; closing an unknown one does nothing.
    pub fn close_session(&mut self, session_id: &String)
        requires
            old(self).wf(),
        ensures
            final(self).wf(),
            final(self).sessions@ == old(self).sessions@.remove(session_id@),
            final(self).store == old(self).store,
    {
        self.sessions.unregister(session_id);
    }

    /// Running a script is delegated elsewhere; here only the session is checked.
    pub fn run(&self, session_id: &String, script_id: &String) -> (r: Result<(), StudioError>)
        requires
            self.wf(),
        ensures
            r is Ok <==> self.sessions@.contains_key(session_id@),
            r matches Err(e) ==> e == StudioError::UnknownSession,
    {
        match self.device_for_session(session_id) {
            Ok(_) => Ok(()),
            Err(e) => Err(e),
        }
    }

    /// Stopping scripts is delegated elsewhere; here only the session is checked.
    pub fn stop_all(&self, session_id: &String) -> (r: Result<(), StudioError>)
        requires
            self.wf(),
        ensures
            r is Ok <==> self.sessions@.contains_key(session_id@),
            r matches Err(e) ==> e == StudioError::UnknownSession,
    {
        match self.device_for_session(session_id) {
            Ok(_) => Ok(()),
            Err(e) => Err(e),
        }
    }
}

} // verus!
