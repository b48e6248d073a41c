//! Shared connection admission and the bidirectional relay's decisions.
use vstd::prelude::*;
use crate::accounting::ConnStatus;
use crate::active_tracker;
use crate::active_tracker::{ActiveConnection, ActiveTracker};
use crate::config::Listener;
use crate::forward::Forwarding;
use crate::forward::group::SelectedTarget;
use crate::forward::health;
use crate::forward::route;
use crate::forward::route::{GroupRequest, GroupRequestModel};
use crate::hostutil::HostAndPort;
use crate::net::IpAddr;
use crate::request_id::RequestId;
use crate::resolver::Tables;
use crate::table::Key;
use crate::text;

verus! {

/// An address with a port.
pub struct SocketAddr {
    pub ip: IpAddr,
    pub port: u16,
}

/// Whether a connection to `upstream` arrives at a listener bound to `bind`:
/// the same port, and the same address or any local one.
pub open spec fn reaches(bind: SocketAddr, upstream: SocketAddr) -> bool {
    upstream.port == bind.port && (upstream.ip.same_as(bind.ip) || (bind.ip.unspecified() && upstream.ip.loopback()))
}

/// Whether an upstream that resolves to these addresses points back to the
/// listener. A bind address that is not known is no reason to refuse.
pub fn reject_obvious_self_connect(bind: &Option<SocketAddr>, upstream: &Vec<SocketAddr>) -> (r: bool)
    ensures
        r == (bind is Some && exists|i: int| 0 <= i < upstream@.len() && reaches(bind->0, #[trigger] upstream@[i])),
{
    let own = match bind {
        Some(b) => b,
        None => return false,
    };
    let mut i: usize = 0;
    while i < upstream.len()
        invariant
            i <= upstream@.len(),
            bind matches Some(b) && b == *own,
            forall|k: int| 0 <= k < i ==> !reaches(*own, #[trigger] upstream@[k]),
        decreases upstream@.len() - i,
    {
        let u = &upstream[i];
        if u.port == own.port && (u.ip.same(&own.ip) || (own.ip.is_unspecified() && u.ip.is_loopback())) {
            assert(reaches(*own, upstream@[i as int]));
            return true;
        }
        i = i + 1;
    }
    false
}

/// The address that a listener is bound to always points back to it.
pub proof fn a_listener_reaches_itself(bind: SocketAddr)
    ensures
        reaches(bind, bind),
{
}

/// Checks a host against the listener's access list. A connection to a host
/// that is not let through counts as denied.
pub fn check_acl(listener: &Listener, host: &str, tracker: &mut ActiveTracker, request_id: &RequestId) -> (r: Result<(), ()>)
    requires
        old(tracker).wf(),
    ensures
        final(tracker).wf(),
        r is Ok <==> listener.allows(host@),
        r is Ok ==> *final(tracker) == *old(tracker),
        active_tracker::only_changes(old(tracker)@, final(tracker)@, Key::id(request_id)),
        r is Err && old(tracker)@.dom().contains(Key::id(request_id)) ==> final(tracker)@[Key::id(request_id)] == (
        ActiveConnection { status: ConnStatus::Denied, ..old(tracker)@[Key::id(request_id)] }),
{
    if listener.is_allowed(host) {
        Ok(())
    } else {
        active_tracker::set_status(tracker, request_id, ConnStatus::Denied);
        Err(())
    }
}

/// Why there is no upstream for a host.
#[derive(Debug, Clone, Copy, PartialEq, Eq, Structural)]
pub enum TargetRefusal {
    /// The access list does not let the host through.
    Denied,
    /// The host has no endpoint.
    Unavailable,
}

/// The upstream that was found, if one was.
pub open spec fn target_of(r: Result<SelectedTarget, TargetRefusal>) -> Option<SelectedTarget> {
    match r {
        Ok(target) => Some(target),
        Err(_) => None,
    }
}

/// Selects the upstream of a connection that names its host: one that the
/// access list does not let through is denied, before anything is selected.
/// `tables` say where hosts really are, and `resolved` is what that resolves
/// to.
pub fn resolve_target(
    listener: &Listener,
    sni: &str,
    upstream_tls: bool,
    tls_name: &str,
    tracker: &mut ActiveTracker,
    request_id: &RequestId,
    forwarding: &mut Forwarding,
    tables: &Tables,
    resolved: &Vec<String>,
    now: u128,
) -> (r: Result<SelectedTarget, TargetRefusal>)
    requires
        old(tracker).wf(),
        old(forwarding).wf(),
        tables.exact_with_port.wf(),
        tables.exact_any_port.wf(),
    ensures
        final(tracker).wf(),
        final(forwarding).wf(),
        active_tracker::only_changes(old(tracker)@, final(tracker)@, Key::id(request_id)),
        !listener.allows(sni@) ==> {
            &&& r matches Err(e) && e == TargetRefusal::Denied
            &&& *final(forwarding) == *old(forwarding)
            &&& old(tracker)@.dom().contains(Key::id(request_id)) ==> final(tracker)@[Key::id(request_id)] == (
            ActiveConnection { status: ConnStatus::Denied, ..old(tracker)@[Key::id(request_id)] })
        },
        listener.allows(sni@) ==> {
            let q = GroupRequestModel {
                host: sni@,
                port: listener.target_port,
                upstream_tls,
                http_health: false,
                tls_server_name: tls_name@,
            };
            &&& r is Err ==> r->Err_0 == TargetRefusal::Unavailable
            &&& *final(tracker) == *old(tracker)
            &&& *final(forwarding) == (Forwarding { groups: final(forwarding).groups, ..*old(forwarding) })
            &&& route::drawn_by_name(
                *tables,
                old(forwarding).groups@,
                q,
                text::views(resolved@),
                now,
                target_of(r),
                final(forwarding).groups@,
            )
        },
{
    if check_acl(listener, sni, tracker, request_id).is_err() {
        return Err(TargetRefusal::Denied);
    }
    let effective = health::resolve_override_first(tables, sni, listener.target_port);
    let request = GroupRequest {
        requested: HostAndPort::new(text::owned(sni), listener.target_port),
        upstream_tls,
        http_health: false,
        tls_server_name: text::owned(tls_name),
    };
    let selected = forwarding.select_runtime_target(&request, &effective, resolved, now);
    proof {
        let q = GroupRequestModel {
            host: sni@,
            port: listener.target_port,
            upstream_tls,
            http_health: false,
            tls_server_name: tls_name@,
        };
        assert(request@ == q);
        assert(route::drawn_for(
            old(forwarding).groups@,
            q,
            effective,
            text::views(resolved@),
            now,
            selected,
            forwarding.groups@,
        ));
        assert(route::drawn_by_name(
            *tables,
            old(forwarding).groups@,
            q,
            text::views(resolved@),
            now,
            selected,
            forwarding.groups@,
        ));
    }
    match selected {
        Some(target) => Ok(target),
        None => Err(TargetRefusal::Unavailable),
    }
}

/// What the monitor of a relay does.
#[derive(Debug, Clone, Copy, PartialEq, Eq, Structural)]
pub enum MonitorStep {
    /// Look again after so many milliseconds.
    Wait { ms: u64 },
    /// Stop the directions that still run.
    Stop { abort_upload: bool, abort_download: bool },
}

/// Ends a relay once one direction ended or the connection was idle for too
/// long; a direction that still runs is aborted.
pub fn monitor(upload_finished: bool, download_finished: bool, idle_expired: bool) -> (r: MonitorStep)
    ensures
        r == if upload_finished || download_finished || idle_expired {
            MonitorStep::Stop { abort_upload: !upload_finished, abort_download: !download_finished }
        } else {
            MonitorStep::Wait { ms: 500 }
        },
{
    if upload_finished || download_finished || idle_expired {
        MonitorStep::Stop { abort_upload: !upload_finished, abort_download: !download_finished }
    } else {
        MonitorStep::Wait { ms: 500 }
    }
}

/// What one direction of a relay does after a read.
#[derive(Debug, Clone, Copy, PartialEq, Eq, Structural)]
pub enum PipeStep {
    /// The direction ends.
    End,
    /// So many bytes are counted, limited and written on.
    Forward { count: usize },
}

/// Decides on the outcome of a read: no bytes and a failed read end the
/// direction, anything else counts for the connection.
pub fn pipe(tracker: &mut ActiveTracker, request_id: &RequestId, upload: bool, read: Option<usize>) -> (r: PipeStep)
    requires
        old(tracker).wf(),
    ensures
        final(tracker).wf(),
        active_tracker::only_changes(old(tracker)@, final(tracker)@, Key::id(request_id)),
        old(tracker)@.dom().contains(Key::id(request_id)) ==> ({
            let before = old(tracker)@[Key::id(request_id)];
            let count = match read {
                Some(count) => count as int,
                None => 0,
            };
            final(tracker)@[Key::id(request_id)] == if upload {
                ActiveConnection {
                    uploaded_bytes: active_tracker::saturated(before.uploaded_bytes + count) as u64,
                    ..before
                }
            } else {
                ActiveConnection {
                    downloaded_bytes: active_tracker::saturated(before.downloaded_bytes + count) as u64,
                    ..before
                }
            }
        }),
        r == match read {
            Some(count) => if count == 0 {
                PipeStep::End
            } else {
                PipeStep::Forward { count }
            },
            None => PipeStep::End,
        },
{
    match read {
        Some(count) => if count == 0 {
            PipeStep::End
        } else {
            if upload {
                active_tracker::add_uploaded(tracker, request_id, count as u64);
            } else {
                active_tracker::add_downloaded(tracker, request_id, count as u64);
            }
            PipeStep::Forward { count }
        },
        None => PipeStep::End,
    }
}

/// A connection to the port of a listener points back to it if it is to the
/// listener's own address, or to a loopback address while the listener is bound
/// to every address; and no other does.
pub proof fn a_listener_is_reached_by_its_address_or_loopback(
    bind_port: u16,
    port: u16,
    a: u8,
    b: u8,
    c: u8,
    d: u8,
    w: u8,
    x: u8,
    y: u8,
    z: u8,
)
    ensures
        reaches(
            SocketAddr { ip: IpAddr::V4(a, b, c, d), port: bind_port },
            SocketAddr { ip: IpAddr::V4(w, x, y, z), port },
        ) <==> (port == bind_port && ((w == a && x == b && y == c && z == d) || (a == 0 && b == 0 && c == 0 && d == 0 && w
            == 127))),
{
}

/// A relay goes on until one direction ended or the connection was idle for too
/// long; what still runs then is aborted, and only that.
pub proof fn a_relay_goes_on_until_one_side_ends(upload: bool, download: bool, idle: bool, r: MonitorStep)
    requires
        call_ensures(monitor, (upload, download, idle), r),
    ensures
        r is Wait <==> !upload && !download && !idle,
        r matches MonitorStep::Stop { abort_upload, abort_download } ==> (abort_upload <==> !upload) && (abort_download
            <==> !download),
{
}

/// Every byte that is read is forwarded, and counts for its direction; a
/// direction ends when nothing more comes.
pub proof fn every_byte_is_forwarded_and_counted(
    tracker: &mut ActiveTracker,
    id: RequestId,
    upload: bool,
    count: usize,
    r: PipeStep,
)
    requires
        call_ensures(pipe, (tracker, &id, upload, Some(count)), r),
        old(tracker)@.dom().contains(Key::id(&id)),
    ensures
        count > 0 ==> r == (PipeStep::Forward { count }),
        count == 0 ==> r == PipeStep::End,
        ({
            let before = old(tracker)@[Key::id(&id)];
            let after = final(tracker)@[Key::id(&id)];
            &&& upload ==> after.downloaded_bytes == before.downloaded_bytes
            &&& !upload ==> after.uploaded_bytes == before.uploaded_bytes
            &&& upload && before.uploaded_bytes + count <= u64::MAX ==> after.uploaded_bytes == before.uploaded_bytes
                + count
            &&& !upload && before.downloaded_bytes + count <= u64::MAX ==> after.downloaded_bytes
                == before.downloaded_bytes + count
        }),
{
}

/// A host that the access list lets through leaves the record as it is; one that
/// it does not let through is recorded as denied.
pub proof fn only_a_refused_host_is_denied(
    listener: Listener,
    host: &str,
    tracker: &mut ActiveTracker,
    id: RequestId,
    r: Result<(), ()>,
)
    requires
        call_ensures(check_acl, (&listener, host, tracker, &id), r),
        old(tracker)@.dom().contains(Key::id(&id)),
        old(tracker)@[Key::id(&id)].status != ConnStatus::Denied,
    ensures
        r is Ok <==> listener.allows(host@),
        final(tracker)@[Key::id(&id)].status == ConnStatus::Denied <==> !listener.allows(host@),
{
}

} // verus!
