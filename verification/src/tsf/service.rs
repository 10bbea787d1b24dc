//! The text service's state behind its COM interfaces: activation by the
//! host, the key-event sink, the composition session and the document the
//! session edits, and the routing of a key through them.
use crate::tsf::document::{doc_steps, window_hidden, DocView, TsfDocumentEditor, TsfEditContext};
use crate::tsf::edit_session::{plan_operations, plan_spec, EditOperation};
use crate::tsf::key_event::{key_down, test_key_down, test_key_down_spec, KeyTestResult};
use crate::tsf::keymap::map_vk_spec;
use crate::tsf::session::{
    cleared, composing, key_action, key_step, logs_key, ActionView, EngineClient, InputSession, SessionAction,
    StateView,
};
use crate::tsf::sink::SinkState;
use vstd::prelude::*;

verus! {

/// The cookie under which the key-event sink is advised on activation.
pub const KEY_EVENT_COOKIE: u32 = 1;

/// The text service's state.
pub struct TextService<C: EngineClient> {
    thread_mgr: usize,
    client_id: u32,
    activated: bool,
    sinks: SinkState,
    session: InputSession<C>,
    document: TsfDocumentEditor,
}

impl<C: EngineClient> TextService<C> {
    /// The host thread manager's address (zero when not activated).
    pub closed spec fn thread_mgr_value(&self) -> usize {
        self.thread_mgr
    }

    /// The host's client id (zero when not activated).
    pub closed spec fn client_id_value(&self) -> u32 {
        self.client_id
    }

    /// Whether the host has activated the service.
    pub closed spec fn activated_value(&self) -> bool {
        self.activated
    }

    /// The key-event sink cookie.
    pub closed spec fn cookie_value(&self) -> Option<u32> {
        self.sinks.cookie()
    }

    /// The session state.
    pub closed spec fn session_state(&self) -> StateView {
        self.session.state()
    }

    /// The session's engine client.
    pub closed spec fn client_value(&self) -> C {
        self.session.client_value()
    }

    /// The document as plain values.
    pub closed spec fn doc_value(&self) -> DocView {
        self.document.doc_view()
    }

    /// The service's invariant: the session's.
    pub closed spec fn wf(&self) -> bool {
        self.session.wf()
    }

    /// Whether the service eats virtual key `vk` in this state.
    pub open spec fn eats(&self, vk: u32) -> bool {
        test_key_down_spec(
            self.activated_value(),
            self.cookie_value() is Some,
            composing(self.session_state()),
            vk,
        ) == KeyTestResult::Eat
    }

    /// A service not yet activated, with an empty composition over `client`.
    pub fn new(client: C) -> (r: Self)
        ensures
            r.wf(),
            !r.activated_value(),
            r.thread_mgr_value() == 0,
            r.client_id_value() == 0,
            r.cookie_value() is None,
            cleared(r.session_state()),
            r.doc_value().0 is None,
            r.doc_value().1 == Seq::<char>::empty(),
            r.doc_value().2 == Seq::<char>::empty(),
            r.doc_value().3 is None,
            !r.doc_value().4.1,
    {
        let session = InputSession::new(client);
        TextService {
            thread_mgr: 0,
            client_id: 0,
            activated: false,
            sinks: SinkState::new(),
            session,
            document: TsfDocumentEditor::new(),
        }
    }

    /// Activation by the host: records the host's handles, advises the
    /// key-event sink and attaches the document to the host context.
    pub fn activate(&mut self, thread_mgr: usize, client_id: u32)
        requires
            old(self).wf(),
        ensures
            final(self).wf(),
            final(self).activated_value(),
            final(self).thread_mgr_value() == thread_mgr,
            final(self).client_id_value() == client_id,
            final(self).cookie_value() == Some(KEY_EVENT_COOKIE),
            final(self).session_state() == old(self).session_state(),
            final(self).doc_value() == (
                Some(TsfEditContext { thread_mgr, client_id, edit_cookie: 0 }),
                old(self).doc_value().1,
                old(self).doc_value().2,
                old(self).doc_value().3,
                old(self).doc_value().4,
                old(self).doc_value().5,
                old(self).doc_value().6,
            ),
    {
        self.thread_mgr = thread_mgr;
        self.client_id = client_id;
        self.activated = true;
        self.sinks.advise_key_event(KEY_EVENT_COOKIE);
        self.document.attach_context(TsfEditContext { thread_mgr, client_id, edit_cookie: 0 });
    }

    /// Deactivation by the host: forgets the host's handles, unadvises the
    /// key-event sink and detaches the document.
    pub fn deactivate(&mut self)
        requires
            old(self).wf(),
        ensures
            final(self).wf(),
            !final(self).activated_value(),
            final(self).thread_mgr_value() == 0,
            final(self).client_id_value() == 0,
            final(self).cookie_value() is None,
            final(self).session_state() == old(self).session_state(),
            final(self).doc_value() == (
                None::<TsfEditContext>,
                Seq::<char>::empty(),
                old(self).doc_value().2,
                None::<crate::tsf::session::SnapshotView>,
                window_hidden(old(self).doc_value().4),
                old(self).doc_value().5,
                old(self).doc_value().6,
            ),
    {
        self.thread_mgr = 0;
        self.client_id = 0;
        self.activated = false;
        self.sinks.unadvise_key_event();
        self.document.detach_context();
    }

    /// Whether the service eats virtual key `vk`: letters while active,
    /// control keys only while composing.
    pub fn test_key_down(&self, vk: u32) -> (r: bool)
        ensures
            r == self.eats(vk),
    {
        test_key_down(
            self.activated,
            self.sinks.key_event_active(),
            self.session.is_composing(),
            vk,
        ) == KeyTestResult::Eat
    }

    /// The operations a key produces: none of the service's business (pass
    /// through) unless activated with the sink advised; otherwise the
    /// session handles the key.
    pub fn key_operations(&mut self, vk: u32) -> (r: Vec<EditOperation>)
        requires
            old(self).wf(),
        ensures
            final(self).wf(),
            final(self).doc_value() == old(self).doc_value(),
            final(self).activated_value() == old(self).activated_value(),
            final(self).cookie_value() == old(self).cookie_value(),
            !(old(self).activated_value() && old(self).cookie_value() is Some) ==> {
                &&& r.deep_view() == plan_spec(ActionView::PassThrough)
                &&& final(self).session_state() == old(self).session_state()
                &&& final(self).client_value() == old(self).client_value()
            },
            old(self).activated_value() && old(self).cookie_value() is Some ==> match map_vk_spec(
                vk,
            ) {
                None => {
                    &&& r.deep_view() == plan_spec(ActionView::PassThrough)
                    &&& final(self).session_state() == old(self).session_state()
                    &&& final(self).client_value() == old(self).client_value()
                },
                Some(key) => {
                    &&& key_step(old(self).session_state(), final(self).session_state(), key)
                    &&& r.deep_view() == plan_spec(
                        key_action(old(self).session_state(), final(self).session_state(), key),
                    )
                    &&& logs_key(
                        old(self).session_state(),
                        final(self).session_state(),
                        key,
                        old(self).client_value(),
                        final(self).client_value(),
                    )
                },
            },
    {
        if !self.activated || !self.sinks.key_event_active() {
            return plan_operations(SessionAction::PassThrough);
        }
        key_down(&mut self.session, vk)
    }

    /// Handles a key the host delivers: when the service eats it, the
    /// session handles it and the planned operations are applied to the
    /// document. Returns whether the key was eaten.
    pub fn key_down(&mut self, vk: u32) -> (r: bool)
        requires
            old(self).wf(),
        ensures
            final(self).wf(),
            r == old(self).eats(vk),
            final(self).activated_value() == old(self).activated_value(),
            final(self).cookie_value() == old(self).cookie_value(),
            !r ==> final(self).session_state() == old(self).session_state(),
            !r ==> final(self).doc_value() == old(self).doc_value(),
            !r ==> final(self).client_value() == old(self).client_value(),
            r ==> match map_vk_spec(vk) {
                None => false,
                Some(key) => {
                    &&& key_step(old(self).session_state(), final(self).session_state(), key)
                    &&& logs_key(
                        old(self).session_state(),
                        final(self).session_state(),
                        key,
                        old(self).client_value(),
                        final(self).client_value(),
                    )
                    &&& final(self).doc_value() == doc_steps(
                        old(self).doc_value(),
                        plan_spec(
                            key_action(old(self).session_state(), final(self).session_state(), key),
                        ),
                    )
                },
            },
    {
        let eaten = self.test_key_down(vk);
        if eaten {
            let operations = key_down(&mut self.session, vk);
            self.document.apply_operations(operations.as_slice());
        }
        eaten
    }

    /// Whether the host has activated the service.
    pub fn is_activated(&self) -> (r: bool)
        ensures
            r == self.activated_value(),
    {
        self.activated
    }

    /// The host's client id.
    pub fn client_id(&self) -> (r: u32)
        ensures
            r == self.client_id_value(),
    {
        self.client_id
    }

    /// The host thread manager's address.
    pub fn thread_mgr(&self) -> (r: usize)
        ensures
            r == self.thread_mgr_value(),
    {
        self.thread_mgr
    }

    /// The sink state.
    pub fn sinks(&self) -> (r: &SinkState)
        ensures
            r.cookie() == self.cookie_value(),
    {
        &self.sinks
    }

    /// The composition session.
    pub fn session(&self) -> (r: &InputSession<C>)
        ensures
            r.state() == self.session_state(),
    {
        &self.session
    }

    /// The document the session edits.
    pub fn document(&self) -> (r: &TsfDocumentEditor)
        ensures
            r.doc_view() == self.doc_value(),
    {
        &self.document
    }
}

} // verus!
