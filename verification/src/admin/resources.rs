//! The resources of the runtime services: how they are shown and changed.

use vstd::prelude::*;
use super::answers;
use super::answers::{json_response, json_runtime_service_error};
use super::calls::{Action, AdminCall, AdminCallView};
use super::report;
use super::report::{
    render_runtime_state_status_metrics, render_runtime_target_metrics, RuntimeStateStatus,
};
use super::targets;
use super::targets::{
    handle_delete_target, handle_get_target, handle_list_route_targets, handle_list_targets,
    handle_put_service, TargetStatus, TargetStatusView,
};
use crate::data::Data;
use crate::hoops::metrics;
use crate::hoops::metrics::Metrics;
use crate::message;
use crate::message::{Headers, Response, ResponseView};
use crate::proxy::activity::BackendActivityTracker;
use crate::runtime_services::laws;
use crate::runtime_services::messages;
use crate::runtime_services::state;
use crate::runtime_services::validity;
use crate::runtime_services::state::Change;
use crate::runtime_services::types::{
    RuntimeListener, RuntimeListenerPatch, RuntimeListenerPatchView, RuntimeListenerView,
    RuntimeRoute, RuntimeRoutePatch, RuntimeRoutePatchView, RuntimeRouteView, RuntimeService,
    RuntimeServiceError, RuntimeServiceErrorView, RuntimeServicePatch, RuntimeServicePatchView,
    RuntimeServiceView, RuntimeState, RuntimeStateView, RuntimeTarget, RuntimeTargetGroupView,
    RuntimeTargetPatch, RuntimeTargetPatchView, RuntimeTargetRefView, RuntimeTargetView,
};
use crate::sorted_map;
use crate::text;

verus! {

/// The plain values of a [`Resource`].
#[verifier::ext_equal]
pub enum ResourceView {
    Services(Seq<RuntimeServiceView>),
    Service(RuntimeServiceView),
    Listeners(Seq<RuntimeListenerView>),
    Listener(RuntimeListenerView),
    Routes(Seq<RuntimeRouteView>),
    Route(RuntimeRouteView),
    Targets(Seq<TargetStatusView>),
    Target(TargetStatusView),
}

/// What is shown.
#[derive(Debug, PartialEq, Eq)]
pub enum Resource {
    Services(Vec<RuntimeService>),
    Service(RuntimeService),
    Listeners(Vec<RuntimeListener>),
    Listener(RuntimeListener),
    Routes(Vec<RuntimeRoute>),
    Route(RuntimeRoute),
    Targets(Vec<TargetStatus>),
    Target(TargetStatus),
}

impl DeepView for Resource {
    type V = ResourceView;

    open spec fn deep_view(&self) -> ResourceView {
        match self {
            Resource::Services(a) => ResourceView::Services(a.deep_view()),
            Resource::Service(a) => ResourceView::Service(a.deep_view()),
            Resource::Listeners(a) => ResourceView::Listeners(a.deep_view()),
            Resource::Listener(a) => ResourceView::Listener(a.deep_view()),
            Resource::Routes(a) => ResourceView::Routes(a.deep_view()),
            Resource::Route(a) => ResourceView::Route(a.deep_view()),
            Resource::Targets(a) => ResourceView::Targets(a.deep_view()),
            Resource::Target(a) => ResourceView::Target(a.deep_view()),
        }
    }
}

impl Data for Resource {
    fn duplicate(&self) -> (r: Resource) {
        match self {
            Resource::Services(a) => Resource::Services(a.duplicate()),
            Resource::Service(a) => Resource::Service(a.duplicate()),
            Resource::Listeners(a) => Resource::Listeners(a.duplicate()),
            Resource::Listener(a) => Resource::Listener(a.duplicate()),
            Resource::Routes(a) => Resource::Routes(a.duplicate()),
            Resource::Route(a) => Resource::Route(a.duplicate()),
            Resource::Targets(a) => Resource::Targets(a.duplicate()),
            Resource::Target(a) => Resource::Target(a.duplicate()),
        }
    }

    fn same_as(&self, other: &Resource) -> (r: bool) {
        match (self, other) {
            (Resource::Services(a), Resource::Services(b_a)) => a.same_as(b_a),
            (Resource::Service(a), Resource::Service(b_a)) => a.same_as(b_a),
            (Resource::Listeners(a), Resource::Listeners(b_a)) => a.same_as(b_a),
            (Resource::Listener(a), Resource::Listener(b_a)) => a.same_as(b_a),
            (Resource::Routes(a), Resource::Routes(b_a)) => a.same_as(b_a),
            (Resource::Route(a), Resource::Route(b_a)) => a.same_as(b_a),
            (Resource::Targets(a), Resource::Targets(b_a)) => a.same_as(b_a),
            (Resource::Target(a), Resource::Target(b_a)) => a.same_as(b_a),
            _ => false,
        }
    }
}

impl Clone for Resource {
    fn clone(&self) -> (r: Resource)
        ensures
            r.deep_view() == self.deep_view(),
    {
        self.duplicate()
    }
}

/// What is shown, or the answer to a question for what there is not.
pub open spec fn shown(r: Result<ResourceView, RuntimeServiceErrorView>) -> Result<
    ResourceView,
    ResponseView,
> {
    match r {
        Ok(x) => Ok(x),
        Err(e) => Err(
            answers::json(
                messages::refusal_status(e),
                answers::error_body(messages::refusal_message(e)),
            ),
        ),
    }
}

/// What is shown for a call that reads a resource; nothing for any other call.
pub open spec fn resource_of(
    st: RuntimeStateView,
    m: Map<Seq<char>, Seq<u128>>,
    call: AdminCallView,
) -> Option<Result<ResourceView, ResponseView>> {
    match call {
        AdminCallView::ListServices => Some(
            Ok(
                ResourceView::Services(
                    st.services.map_values(|e: (Seq<char>, RuntimeServiceView)| e.1),
                ),
            ),
        ),
        AdminCallView::Service(Action::Read, id) => match sorted_map::lookup(st.services, id) {
            Some(s) => Some(Ok(ResourceView::Service(s))),
            None => Some(Err(answers::json(404, "{\"error\":\"service not found\"}"@))),
        },
        AdminCallView::ListListeners(sid) => Some(
            shown(
                state::also(
                    state::found_service(st, sid),
                    |s: RuntimeServiceView| ResourceView::Listeners(s.listeners),
                ),
            ),
        ),
        AdminCallView::Listener(Action::Read, sid, lid) => Some(
            shown(
                state::also(
                    state::found_listener(st, sid, lid),
                    |l: RuntimeListenerView| ResourceView::Listener(l),
                ),
            ),
        ),
        AdminCallView::ListRoutes(sid) => Some(
            shown(
                state::also(
                    state::found_service(st, sid),
                    |s: RuntimeServiceView| ResourceView::Routes(s.routes),
                ),
            ),
        ),
        AdminCallView::Route(Action::Read, sid, rid) => Some(
            shown(
                state::also(
                    state::found_route(st, sid, rid),
                    |r: RuntimeRouteView| ResourceView::Route(r),
                ),
            ),
        ),
        AdminCallView::ListRouteTargets(sid, rid) => Some(
            shown(
                state::also(
                    state::found_route(st, sid, rid),
                    |x: RuntimeRouteView|
                        ResourceView::Targets(
                            state::groups_refs(x.target_groups, 0).map_values(
                                |t: RuntimeTargetRefView|
                                    targets::status_of(m, sid, rid, t.group_id, t.target),
                            ),
                        ),
                ),
            ),
        ),
        AdminCallView::ListTargets(sid, rid, gid) => Some(
            shown(
                state::also(
                    state::found_group(st, sid, rid, gid),
                    |g: RuntimeTargetGroupView|
                        ResourceView::Targets(
                            g.targets.map_values(
                                |t: RuntimeTargetView| targets::status_of(m, sid, rid, gid, t),
                            ),
                        ),
                ),
            ),
        ),
        AdminCallView::Target(Action::Read, sid, rid, gid, tid) => Some(
            shown(
                state::also(
                    state::found_target(st, sid, rid, gid, tid),
                    |t: RuntimeTargetView|
                        ResourceView::Target(targets::status_of(m, sid, rid, gid, t)),
                ),
            ),
        ),
        _ => None,
    }
}

/// Shows what a call that reads a resource asks for.
pub fn read_resource(
    state: &RuntimeState,
    tracker: &BackendActivityTracker,
    call: &AdminCall,
) -> (r: Option<Result<Resource, Response>>)
    ensures
        match resource_of(state.deep_view(), tracker.deep_view(), call.deep_view()) {
            Some(x) => r matches Some(y) && crate::data::outcome(y) == x,
            None => r is None,
        },
{
    match call {
        AdminCall::ListServices => Some(Ok(Resource::Services(state.list_services()))),
        AdminCall::Service(Action::Read, id) => match state.get_service(id.as_str()) {
            Some(s) => Some(Ok(Resource::Service(s))),
            None => Some(Err(json_response(404, "{\"error\":\"service not found\"}"))),
        },
        AdminCall::ListListeners(sid) => match state.list_listeners(sid.as_str()) {
            Ok(v) => Some(Ok(Resource::Listeners(v))),
            Err(e) => Some(Err(json_runtime_service_error(&e))),
        },
        AdminCall::Listener(Action::Read, sid, lid) => match state.get_listener(
            sid.as_str(),
            lid.as_str(),
        ) {
            Ok(v) => Some(Ok(Resource::Listener(v))),
            Err(e) => Some(Err(json_runtime_service_error(&e))),
        },
        AdminCall::ListRoutes(sid) => match state.list_routes(sid.as_str()) {
            Ok(v) => Some(Ok(Resource::Routes(v))),
            Err(e) => Some(Err(json_runtime_service_error(&e))),
        },
        AdminCall::Route(Action::Read, sid, rid) => match state.get_route(
            sid.as_str(),
            rid.as_str(),
        ) {
            Ok(v) => Some(Ok(Resource::Route(v))),
            Err(e) => Some(Err(json_runtime_service_error(&e))),
        },
        AdminCall::ListRouteTargets(sid, rid) => match handle_list_route_targets(
            state,
            tracker,
            sid.as_str(),
            rid.as_str(),
        ) {
            Ok(v) => Some(Ok(Resource::Targets(v))),
            Err(e) => Some(Err(json_runtime_service_error(&e))),
        },
        AdminCall::ListTargets(sid, rid, gid) => match handle_list_targets(
            state,
            tracker,
            sid.as_str(),
            rid.as_str(),
            gid.as_str(),
        ) {
            Ok(v) => Some(Ok(Resource::Targets(v))),
            Err(e) => Some(Err(json_runtime_service_error(&e))),
        },
        AdminCall::Target(Action::Read, sid, rid, gid, tid) => match handle_get_target(
            state,
            tracker,
            sid.as_str(),
            rid.as_str(),
            gid.as_str(),
            tid.as_str(),
        ) {
            Ok(v) => Some(Ok(Resource::Target(v))),
            Err(e) => Some(Err(json_runtime_service_error(&e))),
        },
        _ => None,
    }
}

/// The plain values of a [`Payload`].
#[verifier::ext_equal]
pub enum PayloadView {
    Nothing,
    Service(RuntimeServiceView),
    ServicePatch(RuntimeServicePatchView),
    Listener(RuntimeListenerView),
    ListenerPatch(RuntimeListenerPatchView),
    Route(RuntimeRouteView),
    RoutePatch(RuntimeRoutePatchView),
    Target(RuntimeTargetView),
    TargetPatch(RuntimeTargetPatchView),
}

/// What a request that changes a resource carries.
#[derive(Debug, PartialEq, Eq)]
pub enum Payload {
    Nothing,
    Service(RuntimeService),
    ServicePatch(RuntimeServicePatch),
    Listener(RuntimeListener),
    ListenerPatch(RuntimeListenerPatch),
    Route(RuntimeRoute),
    RoutePatch(RuntimeRoutePatch),
    Target(RuntimeTarget),
    TargetPatch(RuntimeTargetPatch),
}

impl DeepView for Payload {
    type V = PayloadView;

    open spec fn deep_view(&self) -> PayloadView {
        match self {
            Payload::Nothing => PayloadView::Nothing,
            Payload::Service(a) => PayloadView::Service(a.deep_view()),
            Payload::ServicePatch(a) => PayloadView::ServicePatch(a.deep_view()),
            Payload::Listener(a) => PayloadView::Listener(a.deep_view()),
            Payload::ListenerPatch(a) => PayloadView::ListenerPatch(a.deep_view()),
            Payload::Route(a) => PayloadView::Route(a.deep_view()),
            Payload::RoutePatch(a) => PayloadView::RoutePatch(a.deep_view()),
            Payload::Target(a) => PayloadView::Target(a.deep_view()),
            Payload::TargetPatch(a) => PayloadView::TargetPatch(a.deep_view()),
        }
    }
}

impl Data for Payload {
    fn duplicate(&self) -> (r: Payload) {
        match self {
            Payload::Nothing => Payload::Nothing,
            Payload::Service(a) => Payload::Service(a.duplicate()),
            Payload::ServicePatch(a) => Payload::ServicePatch(a.duplicate()),
            Payload::Listener(a) => Payload::Listener(a.duplicate()),
            Payload::ListenerPatch(a) => Payload::ListenerPatch(a.duplicate()),
            Payload::Route(a) => Payload::Route(a.duplicate()),
            Payload::RoutePatch(a) => Payload::RoutePatch(a.duplicate()),
            Payload::Target(a) => Payload::Target(a.duplicate()),
            Payload::TargetPatch(a) => Payload::TargetPatch(a.duplicate()),
        }
    }

    fn same_as(&self, other: &Payload) -> (r: bool) {
        match (self, other) {
            (Payload::Nothing, Payload::Nothing) => true,
            (Payload::Service(a), Payload::Service(b_a)) => a.same_as(b_a),
            (Payload::ServicePatch(a), Payload::ServicePatch(b_a)) => a.same_as(b_a),
            (Payload::Listener(a), Payload::Listener(b_a)) => a.same_as(b_a),
            (Payload::ListenerPatch(a), Payload::ListenerPatch(b_a)) => a.same_as(b_a),
            (Payload::Route(a), Payload::Route(b_a)) => a.same_as(b_a),
            (Payload::RoutePatch(a), Payload::RoutePatch(b_a)) => a.same_as(b_a),
            (Payload::Target(a), Payload::Target(b_a)) => a.same_as(b_a),
            (Payload::TargetPatch(a), Payload::TargetPatch(b_a)) => a.same_as(b_a),
            _ => false,
        }
    }
}

impl Clone for Payload {
    fn clone(&self) -> (r: Payload)
        ensures
            r.deep_view() == self.deep_view(),
    {
        self.duplicate()
    }
}

/// The plain values of a [`Changed`].
#[verifier::ext_equal]
pub enum ChangedView {
    Service(RuntimeServiceView),
    Listener(RuntimeListenerView),
    Route(RuntimeRouteView),
    Target(RuntimeTargetView),
}

/// What a change hands back.
#[derive(Debug, PartialEq, Eq)]
pub enum Changed {
    Service(RuntimeService),
    Listener(RuntimeListener),
    Route(RuntimeRoute),
    Target(RuntimeTarget),
}

impl DeepView for Changed {
    type V = ChangedView;

    open spec fn deep_view(&self) -> ChangedView {
        match self {
            Changed::Service(a) => ChangedView::Service(a.deep_view()),
            Changed::Listener(a) => ChangedView::Listener(a.deep_view()),
            Changed::Route(a) => ChangedView::Route(a.deep_view()),
            Changed::Target(a) => ChangedView::Target(a.deep_view()),
        }
    }
}

impl Data for Changed {
    fn duplicate(&self) -> (r: Changed) {
        match self {
            Changed::Service(a) => Changed::Service(a.duplicate()),
            Changed::Listener(a) => Changed::Listener(a.duplicate()),
            Changed::Route(a) => Changed::Route(a.duplicate()),
            Changed::Target(a) => Changed::Target(a.duplicate()),
        }
    }

    fn same_as(&self, other: &Changed) -> (r: bool) {
        match (self, other) {
            (Changed::Service(a), Changed::Service(b_a)) => a.same_as(b_a),
            (Changed::Listener(a), Changed::Listener(b_a)) => a.same_as(b_a),
            (Changed::Route(a), Changed::Route(b_a)) => a.same_as(b_a),
            (Changed::Target(a), Changed::Target(b_a)) => a.same_as(b_a),
            _ => false,
        }
    }
}

impl Clone for Changed {
    fn clone(&self) -> (r: Changed)
        ensures
            r.deep_view() == self.deep_view(),
    {
        self.duplicate()
    }
}

/// A change with what it hands back seen in another way.
pub open spec fn seen<A>(c: Change<A>, f: spec_fn(A) -> ChangedView) -> Change<ChangedView> {
    match c {
        Ok((st, x)) => Ok((st, f(x))),
        Err(e) => Err(e),
    }
}

/// What comes of a call that changes a resource, with what it carries and the revision
/// that it expects; nothing where the call changes none, or carries something else.
pub open spec fn change_of(
    st: RuntimeStateView,
    call: AdminCallView,
    p: PayloadView,
    e: Option<u64>,
) -> Option<Change<ChangedView>> {
    match (call, p) {
        (AdminCallView::Service(Action::Replace, sid), PayloadView::Service(x)) => {
            Some(
                seen(
                    state::service_set(st, RuntimeServiceView { id: sid, ..x }, e),
                    |v: RuntimeServiceView| ChangedView::Service(v),
                ),
            )
        },
        (AdminCallView::Service(Action::Patch, sid), PayloadView::ServicePatch(x)) => {
            Some(
                seen(
                    state::service_patched(st, sid, x, e),
                    |v: RuntimeServiceView| ChangedView::Service(v),
                ),
            )
        },
        (AdminCallView::Service(Action::Remove, sid), PayloadView::Nothing) => {
            Some(
                seen(
                    state::service_removed(st, sid, e),
                    |v: RuntimeServiceView| ChangedView::Service(v),
                ),
            )
        },
        (AdminCallView::Listener(Action::Replace, sid, lid), PayloadView::Listener(x)) => {
            Some(
                seen(
                    state::listener_set(st, sid, lid, x, e),
                    |v: RuntimeListenerView| ChangedView::Listener(v),
                ),
            )
        },
        (AdminCallView::Listener(Action::Patch, sid, lid), PayloadView::ListenerPatch(x)) => {
            Some(
                seen(
                    state::listener_patched(st, sid, lid, x, e),
                    |v: RuntimeListenerView| ChangedView::Listener(v),
                ),
            )
        },
        (AdminCallView::Listener(Action::Remove, sid, lid), PayloadView::Nothing) => {
            Some(
                seen(
                    state::listener_removed(st, sid, lid, e),
                    |v: RuntimeListenerView| ChangedView::Listener(v),
                ),
            )
        },
        (AdminCallView::Route(Action::Replace, sid, rid), PayloadView::Route(x)) => {
            Some(
                seen(
                    state::route_set(st, sid, rid, x, e),
                    |v: RuntimeRouteView| ChangedView::Route(v),
                ),
            )
        },
        (AdminCallView::Route(Action::Patch, sid, rid), PayloadView::RoutePatch(x)) => {
            Some(
                seen(
                    state::route_patched(st, sid, rid, x, e),
                    |v: RuntimeRouteView| ChangedView::Route(v),
                ),
            )
        },
        (AdminCallView::Route(Action::Remove, sid, rid), PayloadView::Nothing) => {
            Some(
                seen(
                    state::route_removed(st, sid, rid, e),
                    |v: RuntimeRouteView| ChangedView::Route(v),
                ),
            )
        },
        (
            AdminCallView::Target(Action::Replace, sid, rid, gid, tid),
            PayloadView::Target(x),
        ) => {
            Some(
                seen(
                    state::target_set(st, sid, rid, gid, tid, x, e),
                    |v: RuntimeTargetView| ChangedView::Target(v),
                ),
            )
        },
        (
            AdminCallView::Target(Action::Patch, sid, rid, gid, tid),
            PayloadView::TargetPatch(x),
        ) => {
            Some(
                seen(
                    state::target_patched(st, sid, rid, gid, tid, x, e),
                    |v: RuntimeTargetView| ChangedView::Target(v),
                ),
            )
        },
        (AdminCallView::Target(Action::Remove, sid, rid, gid, tid), PayloadView::Nothing) => {
            Some(
                seen(
                    state::target_patched(st, sid, rid, gid, tid, targets::draining(), e),
                    |v: RuntimeTargetView| ChangedView::Target(v),
                ),
            )
        },
        _ => None,
    }
}

/// Does what a call that changes a resource asks for. The id in the path counts, not one
/// that the request carries.
pub fn change_resource(
    state: &mut RuntimeState,
    call: &AdminCall,
    payload: Payload,
    e: Option<u64>,
) -> (r: Option<Result<Changed, RuntimeServiceError>>)
    ensures
        match change_of(old(state).deep_view(), call.deep_view(), payload.deep_view(), e) {
            Some(out) => r matches Some(x) && state::came_out(
                old(state).deep_view(),
                final(state).deep_view(),
                x,
                out,
            ),
            None => r is None && final(state).deep_view() == old(state).deep_view(),
        },
{
    match (call, payload) {
        (
            AdminCall::Service(Action::Replace, sid),
            Payload::Service(x),
        ) => match handle_put_service(state, sid.as_str(), x, e) {
            Ok(v) => Some(Ok(Changed::Service(v))),
            Err(e) => Some(Err(e)),
        },
        (
            AdminCall::Service(Action::Patch, sid),
            Payload::ServicePatch(x),
        ) => match state.patch_service(sid.as_str(), x, e) {
            Ok(v) => Some(Ok(Changed::Service(v))),
            Err(e) => Some(Err(e)),
        },
        (
            AdminCall::Service(Action::Remove, sid),
            Payload::Nothing,
        ) => match state.remove_service(sid.as_str(), e) {
            Ok(v) => Some(Ok(Changed::Service(v))),
            Err(e) => Some(Err(e)),
        },
        (
            AdminCall::Listener(Action::Replace, sid, lid),
            Payload::Listener(x),
        ) => match state.upsert_listener(sid.as_str(), lid.as_str(), x, e) {
            Ok(v) => Some(Ok(Changed::Listener(v))),
            Err(e) => Some(Err(e)),
        },
        (
            AdminCall::Listener(Action::Patch, sid, lid),
            Payload::ListenerPatch(x),
        ) => match state.patch_listener(sid.as_str(), lid.as_str(), x, e) {
            Ok(v) => Some(Ok(Changed::Listener(v))),
            Err(e) => Some(Err(e)),
        },
        (
            AdminCall::Listener(Action::Remove, sid, lid),
            Payload::Nothing,
        ) => match state.remove_listener(sid.as_str(), lid.as_str(), e) {
            Ok(v) => Some(Ok(Changed::Listener(v))),
            Err(e) => Some(Err(e)),
        },
        (
            AdminCall::Route(Action::Replace, sid, rid),
            Payload::Route(x),
        ) => match state.upsert_route(sid.as_str(), rid.as_str(), x, e) {
            Ok(v) => Some(Ok(Changed::Route(v))),
            Err(e) => Some(Err(e)),
        },
        (
            AdminCall::Route(Action::Patch, sid, rid),
            Payload::RoutePatch(x),
        ) => match state.patch_route(sid.as_str(), rid.as_str(), x, e) {
            Ok(v) => Some(Ok(Changed::Route(v))),
            Err(e) => Some(Err(e)),
        },
        (
            AdminCall::Route(Action::Remove, sid, rid),
            Payload::Nothing,
        ) => match state.remove_route(sid.as_str(), rid.as_str(), e) {
            Ok(v) => Some(Ok(Changed::Route(v))),
            Err(e) => Some(Err(e)),
        },
        (
            AdminCall::Target(Action::Replace, sid, rid, gid, tid),
            Payload::Target(x),
        ) => match state.upsert_target(sid.as_str(), rid.as_str(), gid.as_str(), tid.as_str(), x, e) {
            Ok(v) => Some(Ok(Changed::Target(v))),
            Err(e) => Some(Err(e)),
        },
        (
            AdminCall::Target(Action::Patch, sid, rid, gid, tid),
            Payload::TargetPatch(x),
        ) => match state.patch_target(sid.as_str(), rid.as_str(), gid.as_str(), tid.as_str(), x, e) {
            Ok(v) => Some(Ok(Changed::Target(v))),
            Err(e) => Some(Err(e)),
        },
        (
            AdminCall::Target(Action::Remove, sid, rid, gid, tid),
            Payload::Nothing,
        ) => match handle_delete_target(state, sid.as_str(), rid.as_str(), gid.as_str(), tid.as_str(), e) {
            Ok(v) => Some(Ok(Changed::Target(v))),
            Err(e) => Some(Err(e)),
        },
        _ => None,
    }
}

/// The status of the answer to a change that came about.
pub open spec fn changed_status(call: AdminCallView) -> u16 {
    match call {
        AdminCallView::Target(Action::Remove, _, _, _, _) => 202,
        _ => 200,
    }
}

/// The status of the answer to a change that came about: a target that is removed is
/// drained first, so that its removal is only accepted.
pub fn status_of_change(call: &AdminCall) -> (r: u16)
    ensures
        r == changed_status(call.deep_view()),
{
    match call {
        AdminCall::Target(Action::Remove, _, _, _, _) => 202,
        _ => 200,
    }
}

/// The word for a change in the log.
pub open spec fn change_word(call: AdminCallView) -> Option<Seq<char>> {
    match call {
        AdminCallView::Service(Action::Replace, _) => Some("upsert_service"@),
        AdminCallView::Service(Action::Patch, _) => Some("patch_service"@),
        AdminCallView::Service(Action::Remove, _) => Some("remove_service"@),
        AdminCallView::Listener(Action::Replace, _, _) => Some("upsert_listener"@),
        AdminCallView::Listener(Action::Patch, _, _) => Some("patch_listener"@),
        AdminCallView::Listener(Action::Remove, _, _) => Some("remove_listener"@),
        AdminCallView::Route(Action::Replace, _, _) => Some("upsert_route"@),
        AdminCallView::Route(Action::Patch, _, _) => Some("patch_route"@),
        AdminCallView::Route(Action::Remove, _, _) => Some("remove_route"@),
        AdminCallView::Target(Action::Replace, _, _, _, _) => Some("upsert_target"@),
        AdminCallView::Target(Action::Patch, _, _, _, _) => Some("patch_target"@),
        AdminCallView::Target(Action::Remove, _, _, _, _) => Some("drain_target"@),
        _ => None,
    }
}

/// The word for a change in the log.
pub fn word_of_change(call: &AdminCall) -> (r: Option<&'static str>)
    ensures
        match r {
            Some(w) => change_word(call.deep_view()) == Some(w@),
            None => change_word(call.deep_view()) is None,
        },
{
    match call {
        AdminCall::Service(Action::Replace, _) => Some("upsert_service"),
        AdminCall::Service(Action::Patch, _) => Some("patch_service"),
        AdminCall::Service(Action::Remove, _) => Some("remove_service"),
        AdminCall::Listener(Action::Replace, _, _) => Some("upsert_listener"),
        AdminCall::Listener(Action::Patch, _, _) => Some("patch_listener"),
        AdminCall::Listener(Action::Remove, _, _) => Some("remove_listener"),
        AdminCall::Route(Action::Replace, _, _) => Some("upsert_route"),
        AdminCall::Route(Action::Patch, _, _) => Some("patch_route"),
        AdminCall::Route(Action::Remove, _, _) => Some("remove_route"),
        AdminCall::Target(Action::Replace, _, _, _, _) => Some("upsert_target"),
        AdminCall::Target(Action::Patch, _, _, _, _) => Some("patch_target"),
        AdminCall::Target(Action::Remove, _, _, _, _) => Some("drain_target"),
        _ => None,
    }
}

/// What is logged of a change.
pub open spec fn change_record(
    actor: Seq<char>,
    action: Seq<char>,
    before: RuntimeStateView,
    after: RuntimeStateView,
) -> Seq<char> {
    "runtime state mutated actor="@ + actor + " action="@ + action + " before_revision="@
        + text::decimal(before.revision as nat) + " after_revision="@ + text::decimal(
        after.revision as nat,
    ) + " diff="@ + report::runtime_diff(before, after)
}

/// Writes what is logged of a change.
pub fn log_runtime_mutation(
    actor: &str,
    action: &str,
    before: &RuntimeState,
    after: &RuntimeState,
) -> (r: String)
    ensures
        r@ == change_record(actor@, action@, before.deep_view(), after.deep_view()),
{
    let mut out = "runtime state mutated actor=".to_owned();
    out.append(actor);
    out.append(" action=");
    out.append(action);
    out.append(" before_revision=");
    out.append(text::number_text(before.revision as u128).as_str());
    out.append(" after_revision=");
    out.append(text::number_text(after.revision as u128).as_str());
    out.append(" diff=");
    out.append(report::summarize_runtime_diff(before, after).as_str());
    out
}

/// The answer with the measures: those of the requests, of the targets and of the state
/// that was written down.
pub open spec fn metrics_answer(
    requests: Seq<char>,
    targets: Seq<char>,
    status: RuntimeStateStatus,
) -> ResponseView {
    ResponseView {
        status: 200,
        headers: seq![
            (
                "content-type"@,
                vstd::utf8::encode_utf8("text/plain; version=0.0.4; charset=utf-8"@),
            ),
        ],
        body: vstd::utf8::encode_utf8(requests + targets + report::status_metrics(status)),
    }
}

/// Answers with the measures.
pub fn handle_metrics(
    metrics: &Metrics,
    state: &RuntimeState,
    tracker: &BackendActivityTracker,
    status: &RuntimeStateStatus,
) -> (r: Response)
    requires
        metrics.deep_view().wf(),
    ensures
        exists|requests: Seq<char>, targets: Seq<char>| #[trigger]
            metrics::renders(metrics.deep_view(), requests) && #[trigger]
            report::renders_targets(state.deep_view(), tracker.deep_view(), targets)
                && r.deep_view() == metrics_answer(requests, targets, *status),
{
    let requests = metrics.render_prometheus();
    let targets = render_runtime_target_metrics(state, tracker);
    proof {
        assert(metrics::renders(metrics.deep_view(), requests@));
        assert(report::renders_targets(state.deep_view(), tracker.deep_view(), targets@));
    }
    let ghost (a, b) = (requests@, targets@);
    let mut out = requests;
    out.append(targets.as_str());
    out.append(render_runtime_state_status_metrics(status).as_str());
    let mut headers = Headers::new();
    headers.append(
        "content-type",
        message::utf8("text/plain; version=0.0.4; charset=utf-8"),
    );
    proof {
        reveal_strlit("content-type");
        assert(text::lowered("content-type"@) =~= "content-type"@);
        assert(headers.deep_view() =~= metrics_answer(a, b, *status).headers);
    }
    Response { status: 200, headers, body: message::utf8(out.as_str()) }
}

/// A call that only reads changes nothing.
pub proof fn lemma_reads_change_nothing(
    st: RuntimeStateView,
    m: Map<Seq<char>, Seq<u128>>,
    call: AdminCallView,
    p: PayloadView,
    e: Option<u64>,
)
    requires
        resource_of(st, m, call) is Some,
    ensures
        change_of(st, call, p, e) is None,
{
}

/// Parts of a service that are changed leave a valid state.
proof fn lemma_parts_keep_valid<X>(st: RuntimeStateView, sid: Seq<char>)
    requires
        validity::in_form(st),
    ensures
        forall|s: RuntimeServiceView, x: X|
            s.id == sid && (#[trigger] state::committed(st, sid, s, x)) is Ok
                ==> validity::well_formed(state::committed(st, sid, s, x)->Ok_0.0),
{
    assert forall|s: RuntimeServiceView, x: X|
        s.id == sid && (#[trigger] state::committed(st, sid, s, x)) is Ok implies
        validity::well_formed(state::committed(st, sid, s, x)->Ok_0.0) by {
        validity::lemma_valid_when_committed(st, sid, s, x);
    }
}

/// Whatever is called for, a valid state stays valid, with its services under their
/// own ids and in order.
pub proof fn lemma_calls_keep_valid(
    st: RuntimeStateView,
    call: AdminCallView,
    p: PayloadView,
    e: Option<u64>,
)
    requires
        validity::well_formed(st),
    ensures
        change_of(st, call, p, e) matches Some(Ok((next, _))) ==> validity::well_formed(next),
{
    match call {
        AdminCallView::Service(_, sid) => {
            validity::lemma_valid_without_service(st, sid, e);
            if let PayloadView::Service(x) = p {
                validity::lemma_valid_with_service(st, RuntimeServiceView { id: sid, ..x }, e);
            }
            if let PayloadView::ServicePatch(x) = p {
                if let Ok(s) = state::opened(st, sid, e) {
                    validity::lemma_valid_with_service(
                        st,
                        state::patched_service(s, x),
                        Some(s.revision),
                    );
                }
            }
        },
        AdminCallView::Listener(_, sid, _) => {
            validity::lemma_found_under_id(st, sid);
            lemma_parts_keep_valid::<RuntimeListenerView>(st, sid);
        },
        AdminCallView::Route(_, sid, _) => {
            validity::lemma_found_under_id(st, sid);
            lemma_parts_keep_valid::<RuntimeRouteView>(st, sid);
        },
        AdminCallView::Target(_, sid, _, _, _) => {
            validity::lemma_found_under_id(st, sid);
            lemma_parts_keep_valid::<RuntimeTargetView>(st, sid);
        },
        _ => {},
    }
}

/// A service or listener that was set is shown as it was handed back when it is asked for
/// under the id of the call.
pub proof fn lemma_set_then_shown(
    st: RuntimeStateView,
    m: Map<Seq<char>, Seq<u128>>,
    sid: Seq<char>,
    lid: Seq<char>,
    s: RuntimeServiceView,
    l: RuntimeListenerView,
    e: Option<u64>,
)
    requires
        validity::well_formed(st),
    ensures
        change_of(
            st,
            AdminCallView::Service(Action::Replace, sid),
            PayloadView::Service(s),
            e,
        ) matches Some(c) && (c matches Ok((next, w)) ==> w matches ChangedView::Service(v) && v.id
            == text::trimmed(sid) && resource_of(
            next,
            m,
            AdminCallView::Service(Action::Read, v.id),
        ) == Some(Ok::<ResourceView, ResponseView>(ResourceView::Service(v)))),
        change_of(
            st,
            AdminCallView::Listener(Action::Replace, sid, lid),
            PayloadView::Listener(l),
            e,
        ) matches Some(c) && (c matches Ok((next, w)) ==> w matches ChangedView::Listener(v) && v.id
            == text::trimmed(lid) && resource_of(
            next,
            m,
            AdminCallView::Listener(Action::Read, sid, v.id),
        ) == Some(Ok::<ResourceView, ResponseView>(ResourceView::Listener(v)))),
{
    laws::lemma_set_service_then_get(st, RuntimeServiceView { id: sid, ..s }, e);
    laws::lemma_set_listener_then_get(st, sid, lid, l, e);
}

/// A route or target that was set is shown as it was handed back when it is asked for under
/// the id of the call.
pub proof fn lemma_set_part_then_shown(
    st: RuntimeStateView,
    m: Map<Seq<char>, Seq<u128>>,
    sid: Seq<char>,
    rid: Seq<char>,
    gid: Seq<char>,
    tid: Seq<char>,
    r: RuntimeRouteView,
    t: RuntimeTargetView,
    e: Option<u64>,
)
    ensures
        change_of(
            st,
            AdminCallView::Route(Action::Replace, sid, rid),
            PayloadView::Route(r),
            e,
        ) matches Some(c) && (c matches Ok((next, w)) ==> w matches ChangedView::Route(v) && v.id
            == text::trimmed(rid) && resource_of(
            next,
            m,
            AdminCallView::Route(Action::Read, sid, v.id),
        ) == Some(Ok::<ResourceView, ResponseView>(ResourceView::Route(v)))),
        change_of(
            st,
            AdminCallView::Target(Action::Replace, sid, rid, gid, tid),
            PayloadView::Target(t),
            e,
        ) matches Some(c) && (c matches Ok((next, w)) ==> w matches ChangedView::Target(v) && v.id
            == text::trimmed(tid) && resource_of(
            next,
            m,
            AdminCallView::Target(Action::Read, sid, rid, gid, v.id),
        ) == Some(
            Ok::<ResourceView, ResponseView>(
                ResourceView::Target(targets::status_of(m, sid, rid, gid, v)),
            ),
        )),
{
    laws::lemma_set_route_then_get(st, sid, rid, r, e);
    laws::lemma_set_target_then_get(st, sid, rid, gid, tid, t, e);
}

/// What was removed is not found when it is asked for, but for a target: it is still shown,
/// and drains.
pub proof fn lemma_removed_then_missing(
    st: RuntimeStateView,
    m: Map<Seq<char>, Seq<u128>>,
    sid: Seq<char>,
    id: Seq<char>,
    e: Option<u64>,
)
    requires
        validity::well_formed(st),
    ensures
        change_of(
            st,
            AdminCallView::Service(Action::Remove, sid),
            PayloadView::Nothing,
            e,
        ) matches Some(c) && (c matches Ok((next, _)) ==> resource_of(
            next,
            m,
            AdminCallView::Service(Action::Read, sid),
        ) matches Some(Err(a)) && a.status == 404),
        change_of(
            st,
            AdminCallView::Listener(Action::Remove, sid, id),
            PayloadView::Nothing,
            e,
        ) matches Some(c) && (c matches Ok((next, _)) ==> resource_of(
            next,
            m,
            AdminCallView::Listener(Action::Read, sid, id),
        ) matches Some(Err(a)) && a.status == 404),
        change_of(
            st,
            AdminCallView::Route(Action::Remove, sid, id),
            PayloadView::Nothing,
            e,
        ) matches Some(c) && (c matches Ok((next, _)) ==> resource_of(
            next,
            m,
            AdminCallView::Route(Action::Read, sid, id),
        ) matches Some(Err(a)) && a.status == 404),
{
    laws::lemma_removed_service_gone(st, sid, e);
    laws::lemma_removed_listener_gone(st, sid, id, e);
    laws::lemma_removed_route_gone(st, sid, id, e);
}

/// The lists show what is shown one by one: every service is in the list of the services, and
/// the lists of a service are the parts that it has.
pub proof fn lemma_lists_agree(
    st: RuntimeStateView,
    m: Map<Seq<char>, Seq<u128>>,
    sid: Seq<char>,
    s: RuntimeServiceView,
)
    requires
        resource_of(st, m, AdminCallView::Service(Action::Read, sid)) == Some(
            Ok::<ResourceView, ResponseView>(ResourceView::Service(s)),
        ),
    ensures
        resource_of(st, m, AdminCallView::ListServices) matches Some(Ok(ResourceView::Services(v)))
            && v.contains(s),
        resource_of(st, m, AdminCallView::ListListeners(sid)) == Some(
            Ok::<ResourceView, ResponseView>(ResourceView::Listeners(s.listeners)),
        ),
        resource_of(st, m, AdminCallView::ListRoutes(sid)) == Some(
            Ok::<ResourceView, ResponseView>(ResourceView::Routes(s.routes)),
        ),
{
    sorted_map::lemma_position(st.services, sid, 0);
    let i = sorted_map::position(st.services, sid, 0)->0;
    let v = st.services.map_values(|x: (Seq<char>, RuntimeServiceView)| x.1);
    assert(v[i] == s);
}

/// A change is answered as done, and only the removal of a target as begun.
pub proof fn lemma_change_answered(call: AdminCallView)
    ensures
        200 <= changed_status(call) < 300,
        changed_status(call) == 202 <==> (call is Target && call->Target_0 == Action::Remove),
{
}

} // verus!
