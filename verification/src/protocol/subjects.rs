//! Subject names of the Device Connect wire protocol.
//!
//! Every subject lives under `device-connect.{tenant}`; device subjects
//! continue with `.{device_id}`.

use vstd::prelude::*;
use vstd::string::*;

verus! {

/// `device-connect.{tenant}`
pub open spec fn tenant_root(tenant: Seq<char>) -> Seq<char> {
    "device-connect."@ + tenant
}

/// `device-connect.{tenant}.{device_id}`
pub open spec fn device_root(tenant: Seq<char>, device_id: Seq<char>) -> Seq<char> {
    tenant_root(tenant) + "."@ + device_id
}

pub open spec fn command_subject(tenant: Seq<char>, device_id: Seq<char>) -> Seq<char> {
    device_root(tenant, device_id) + ".cmd"@
}

pub open spec fn registry_subject(tenant: Seq<char>) -> Seq<char> {
    tenant_root(tenant) + ".registry"@
}

pub open spec fn heartbeat_subject(tenant: Seq<char>, device_id: Seq<char>) -> Seq<char> {
    device_root(tenant, device_id) + ".heartbeat"@
}

pub open spec fn presence_subject(tenant: Seq<char>, device_id: Seq<char>) -> Seq<char> {
    device_root(tenant, device_id) + ".presence"@
}

pub open spec fn presence_wildcard_subject(tenant: Seq<char>) -> Seq<char> {
    tenant_root(tenant) + ".*.presence"@
}

pub open spec fn event_subject(tenant: Seq<char>, device_id: Seq<char>, event_name: Seq<char>) -> Seq<char> {
    device_root(tenant, device_id) + ".event."@ + event_name
}

pub open spec fn broadcast_subject(tenant: Seq<char>) -> Seq<char> {
    tenant_root(tenant) + ".broadcast"@
}

pub open spec fn async_reply_subject(tenant: Seq<char>, device_id: Seq<char>, correlation_id: Seq<char>) -> Seq<char> {
    device_root(tenant, device_id) + ".event.async_reply."@ + correlation_id
}

pub open spec fn discovery_probe_subject(tenant: Seq<char>) -> Seq<char> {
    tenant_root(tenant) + ".discovery.probe"@
}

fn tenant_prefix(tenant: &str) -> (r: String)
    ensures
        r@ == tenant_root(tenant@),
{
    let mut r = String::from_str("device-connect.");
    r.append(tenant);
    r
}

fn device_prefix(tenant: &str, device_id: &str) -> (r: String)
    ensures
        r@ == device_root(tenant@, device_id@),
{
    let mut r = tenant_prefix(tenant);
    r.append(".");
    r.append(device_id);
    r
}

/// The subject on which a device receives JSON-RPC commands.
pub fn command(tenant: &str, device_id: &str) -> (r: String)
    ensures
        r@ == command_subject(tenant@, device_id@),
{
    let mut r = device_prefix(tenant, device_id);
    r.append(".cmd");
    r
}

/// The subject of the tenant's registry service.
pub fn registry(tenant: &str) -> (r: String)
    ensures
        r@ == registry_subject(tenant@),
{
    let mut r = tenant_prefix(tenant);
    r.append(".registry");
    r
}

/// The subject on which a device publishes heartbeats.
pub fn heartbeat(tenant: &str, device_id: &str) -> (r: String)
    ensures
        r@ == heartbeat_subject(tenant@, device_id@),
{
    let mut r = device_prefix(tenant, device_id);
    r.append(".heartbeat");
    r
}

/// The subject on which a device announces its presence.
pub fn presence(tenant: &str, device_id: &str) -> (r: String)
    ensures
        r@ == presence_subject(tenant@, device_id@),
{
    let mut r = device_prefix(tenant, device_id);
    r.append(".presence");
    r
}

/// The subject pattern that matches the presence of every device of a tenant.
pub fn presence_wildcard(tenant: &str) -> (r: String)
    ensures
        r@ == presence_wildcard_subject(tenant@),
{
    let mut r = tenant_prefix(tenant);
    r.append(".*.presence");
    r
}

/// The subject of an event emitted by a device.
pub fn event(tenant: &str, device_id: &str, event_name: &str) -> (r: String)
    ensures
        r@ == event_subject(tenant@, device_id@, event_name@),
{
    let mut r = device_prefix(tenant, device_id);
    r.append(".event.");
    r.append(event_name);
    r
}

/// The subject of the tenant's broadcasts.
pub fn broadcast(tenant: &str) -> (r: String)
    ensures
        r@ == broadcast_subject(tenant@),
{
    let mut r = tenant_prefix(tenant);
    r.append(".broadcast");
    r
}

/// The subject of a device's reply to a broadcast.
pub fn async_reply(tenant: &str, device_id: &str, correlation_id: &str) -> (r: String)
    ensures
        r@ == async_reply_subject(tenant@, device_id@, correlation_id@),
{
    let mut r = device_prefix(tenant, device_id);
    r.append(".event.async_reply.");
    r.append(correlation_id);
    r
}

/// The subject of the tenant's discovery probes.
pub fn discovery_probe(tenant: &str) -> (r: String)
    ensures
        r@ == discovery_probe_subject(tenant@),
{
    let mut r = tenant_prefix(tenant);
    r.append(".discovery.probe");
    r
}

/// A broadcast reply is an event of the replying device whose name is
/// `async_reply.` followed by the correlation id.
pub proof fn lemma_async_reply_is_event(tenant: Seq<char>, device_id: Seq<char>, correlation_id: Seq<char>)
    ensures
        async_reply_subject(tenant, device_id, correlation_id)
            == event_subject(tenant, device_id, "async_reply."@ + correlation_id),
{
    reveal_strlit(".event.async_reply.");
    reveal_strlit(".event.");
    reveal_strlit("async_reply.");
    assert(".event.async_reply."@ =~= ".event."@ + "async_reply."@);
    assert(device_root(tenant, device_id) + ".event.async_reply."@ + correlation_id
        =~= device_root(tenant, device_id) + ".event."@ + ("async_reply."@ + correlation_id));
}


/// Within one tenant, two devices share a command subject only if they are
/// the same device: commands for one device never reach another.
pub proof fn lemma_command_subject_names_one_device(tenant: Seq<char>, a: Seq<char>, b: Seq<char>)
    requires
        command_subject(tenant, a) == command_subject(tenant, b),
    ensures
        a == b,
{
    let pa = tenant_root(tenant) + "."@;
    let sa = command_subject(tenant, a);
    let sb = command_subject(tenant, b);
    assert(sa =~= pa + a + ".cmd"@);
    assert(sb =~= pa + b + ".cmd"@);
    assert(a.len() == b.len());
    assert forall|i: int| 0 <= i < a.len() implies a[i] == b[i] by {
        assert(sa[pa.len() + i] == a[i]);
        assert(sb[pa.len() + i] == b[i]);
    }
    assert(a =~= b);
}

} // verus!
