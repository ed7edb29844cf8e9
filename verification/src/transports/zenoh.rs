//! The Zenoh transport: its configuration and connection state.

use vstd::prelude::*;
use vstd::string::*;

use crate::errors::DeviceConnectError;
use crate::text::{
    chars_of, is_whitespace, lemma_trim_bounds, lemma_trim_fixed, text_eq, trim, trim_end,
    trim_start, trimmed_bounds,
};
use crate::transport::NoopSubscription;

verus! {

/// How to reach the Zenoh network.
#[derive(Clone, Debug)]
pub struct ZenohTransportConfig {
    pub endpoints: Vec<String>,
    pub listen: Vec<String>,
    pub multicast_interface: Option<String>,
    pub peer_mode: bool,
}

impl Default for ZenohTransportConfig {
    fn default() -> (r: Self)
        ensures
            r.endpoints@.len() == 0,
            r.listen@.len() == 0,
            r.multicast_interface is None,
            !r.peer_mode,
    {
        ZenohTransportConfig {
            endpoints: Vec::new(),
            listen: Vec::new(),
            multicast_interface: None,
            peer_mode: false,
        }
    }
}

/// `s` cut at every comma, from left to right; there is always at least one
/// field.
pub open spec fn split_commas(s: Seq<char>) -> Seq<Seq<char>>
    decreases s.len(),
{
    if s.len() == 0 {
        seq![Seq::empty()]
    } else {
        let prev = split_commas(s.drop_last());
        if s.last() == ',' {
            prev.push(Seq::empty())
        } else {
            prev.update(prev.len() - 1, prev.last().push(s.last()))
        }
    }
}

/// The fields, trimmed, without those that are empty after trimming.
pub open spec fn nonempty_trimmed(fields: Seq<Seq<char>>) -> Seq<Seq<char>>
    decreases fields.len(),
{
    if fields.len() == 0 {
        Seq::empty()
    } else {
        let rest = nonempty_trimmed(fields.drop_last());
        let t = trim(fields.last());
        if t.len() > 0 {
            rest.push(t)
        } else {
            rest
        }
    }
}

/// The entries of a comma-separated list: each field trimmed, empty ones
/// dropped.
pub open spec fn env_list(s: Seq<char>) -> Seq<Seq<char>> {
    nonempty_trimmed(split_commas(s))
}

proof fn lemma_split_commas_nonempty(s: Seq<char>)
    ensures
        split_commas(s).len() >= 1,
    decreases s.len(),
{
    if s.len() > 0 {
        lemma_split_commas_nonempty(s.drop_last());
    }
}

fn push_trimmed(out: &mut Vec<String>, value: &str, cs: &Vec<char>, start: usize, end: usize)
    requires
        start <= end <= cs@.len(),
        cs@ == value@,
    ensures
        final(out)@.map_values(|x: String| x@) == if trim(cs@.subrange(start as int, end as int)).len() > 0 {
            old(out)@.map_values(|x: String| x@).push(trim(cs@.subrange(start as int, end as int)))
        } else {
            old(out)@.map_values(|x: String| x@)
        },
{
    let (a, b) = trimmed_bounds(cs, start, end);
    if a < b {
        let piece = value.substring_char(a, b).to_string();
        let ghost pv = piece@;
        out.push(piece);
        proof {
            assert(final(out)@.map_values(|x: String| x@) =~= old(out)@.map_values(|x: String| x@).push(pv));
        }
    }
}

/// The entries of a comma-separated environment value: each field trimmed,
/// empty ones dropped.
pub fn split_env_list(value: &str) -> (r: Vec<String>)
    ensures
        r@.map_values(|x: String| x@) == env_list(value@),
{
    let cs = chars_of(value);
    let n = cs.len();
    let mut out: Vec<String> = Vec::new();
    let mut start: usize = 0;
    let mut i: usize = 0;
    proof {
        assert(cs@.take(0) =~= Seq::<char>::empty());
        assert(out@.map_values(|x: String| x@) =~= Seq::<Seq<char>>::empty());
    }
    while i < n
        invariant
            0 <= start <= i <= n,
            n == cs@.len(),
            cs@ == value@,
            split_commas(cs@.take(i as int)).len() >= 1,
            split_commas(cs@.take(i as int)).last() == cs@.subrange(start as int, i as int),
            out@.map_values(|x: String| x@) == nonempty_trimmed(split_commas(cs@.take(i as int)).drop_last()),
        decreases n - i,
    {
        let ghost f = split_commas(cs@.take(i as int));
        proof {
            assert(cs@.take(i + 1).drop_last() =~= cs@.take(i as int));
            assert(cs@.take(i + 1).last() == cs@[i as int]);
        }
        if cs[i] == ',' {
            push_trimmed(&mut out, value, &cs, start, i);
            proof {
                assert(split_commas(cs@.take(i + 1)) == f.push(Seq::empty()));
                assert(f.push(Seq::empty()).drop_last() =~= f);
                assert(cs@.subrange(i + 1, i + 1) =~= Seq::<char>::empty());
            }
            start = i + 1;
        } else {
            proof {
                let g = f.update(f.len() - 1, f.last().push(cs@[i as int]));
                assert(split_commas(cs@.take(i + 1)) == g);
                assert(g.drop_last() =~= f.drop_last());
                assert(cs@.subrange(start as int, i + 1) =~= cs@.subrange(start as int, i as int).push(cs@[i as int]));
            }
        }
        i = i + 1;
    }
    proof {
        assert(cs@.take(n as int) =~= cs@);
    }
    push_trimmed(&mut out, value, &cs, start, n);
    out
}

/// Whether a discovery mode asks for device-to-device (peer) operation.
pub open spec fn is_peer_discovery_mode(mode: Seq<char>) -> bool {
    mode == "d2d"@ || mode == "p2p"@
}

/// The configuration that the environment describes: `ZENOH_CONNECT`
/// (`connect`) and `ZENOH_LISTEN` (`listen`) are comma-separated lists,
/// `ZENOH_MULTICAST_INTERFACE` is taken as it is, and peer mode is on when
/// there are no endpoints or `DEVICE_CONNECT_DISCOVERY_MODE` is `d2d` or
/// `p2p`.
pub fn config_from_env(
    connect: Option<&str>,
    listen: Option<&str>,
    multicast_interface: Option<String>,
    discovery_mode: Option<&str>,
) -> (r: ZenohTransportConfig)
    ensures
        r.endpoints@.map_values(|x: String| x@) == match connect {
            Some(v) => env_list(v@),
            None => Seq::empty(),
        },
        r.listen@.map_values(|x: String| x@) == match listen {
            Some(v) => env_list(v@),
            None => Seq::empty(),
        },
        r.multicast_interface == multicast_interface,
        r.peer_mode == (r.endpoints@.len() == 0 || (discovery_mode matches Some(m)
            && is_peer_discovery_mode(m@))),
{
    let endpoints = match connect {
        Some(v) => split_env_list(v),
        None => {
            let e: Vec<String> = Vec::new();
            proof {
                assert(e@.map_values(|x: String| x@) =~= Seq::<Seq<char>>::empty());
            }
            e
        },
    };
    let listen = match listen {
        Some(v) => split_env_list(v),
        None => {
            let e: Vec<String> = Vec::new();
            proof {
                assert(e@.map_values(|x: String| x@) =~= Seq::<Seq<char>>::empty());
            }
            e
        },
    };
    let peer_by_mode = match discovery_mode {
        Some(m) => {
            let ms = m.to_string();
            let d2d = String::from_str("d2d");
            let p2p = String::from_str("p2p");
            text_eq(&ms, &d2d) || text_eq(&ms, &p2p)
        },
        None => false,
    };
    let peer_mode = endpoints.len() == 0 || peer_by_mode;
    ZenohTransportConfig { endpoints, listen, multicast_interface, peer_mode }
}

/// A Zenoh transport. Live sessions are not wired yet: connecting marks the
/// transport connected and reports the operation unsupported.
pub struct ZenohTransport {
    config: ZenohTransportConfig,
    connected: bool,
}

/// The message with which connecting is refused.
pub open spec fn connect_unsupported_message() -> Seq<char> {
    "live Zenoh transport wiring is not implemented in this first scaffold; inject a Transport implementation for tests or applications"@
}

/// The calls that can be made on a [`ZenohTransport`].
pub enum ZenohCall {
    Connect,
    Close,
    Publish,
    Subscribe,
    Request,
    IsConnected,
    Config,
}

/// Whether the transport counts as connected after `call`, given whether it
/// did before.
pub open spec fn connected_after_call(call: ZenohCall, connected: bool) -> bool {
    match call {
        ZenohCall::Connect => true,
        ZenohCall::Close => false,
        _ => connected,
    }
}

/// `after` is the transport `before` once `call` has returned: the same
/// configuration, and connected as [`connected_after_call`] says.
pub open spec fn is_call_result(call: ZenohCall, before: ZenohTransport, after: ZenohTransport) -> bool {
    &&& after.config_view() == before.config_view()
    &&& after.connected_view() == connected_after_call(call, before.connected_view())
}

/// Whether the transport counts as connected after the calls in order.
pub open spec fn connected_after_calls(calls: Seq<ZenohCall>, connected: bool) -> bool
    decreases calls.len(),
{
    if calls.len() == 0 {
        connected
    } else {
        connected_after_call(calls.last(), connected_after_calls(calls.drop_last(), connected))
    }
}

impl ZenohTransport {
    pub closed spec fn config_view(&self) -> ZenohTransportConfig {
        self.config
    }

    /// Whether the transport counts as connected.
    pub closed spec fn connected_view(&self) -> bool {
        self.connected
    }

    /// A transport with the given configuration, not connected.
    pub fn new(config: ZenohTransportConfig) -> (r: Self)
        ensures
            r.config_view() == config,
            !r.connected_view(),
    {
        ZenohTransport { config, connected: false }
    }

    /// The transport's configuration.
    pub fn config(&self) -> (r: &ZenohTransportConfig)
        ensures
            *r == self.config_view(),
    {
        &self.config
    }

    /// Whether the transport counts as connected.
    pub fn is_connected(&self) -> (r: bool)
        ensures
            r == self.connected_view(),
    {
        self.connected
    }

    /// Marks the transport connected and reports that live sessions are
    /// unsupported.
    pub fn connect(&mut self) -> (r: Result<(), DeviceConnectError>)
        ensures
            final(self).connected_view(),
            final(self).config_view() == old(self).config_view(),
            is_call_result(ZenohCall::Connect, *old(self), *final(self)),
            r matches Err(DeviceConnectError::Unsupported(m)) && m@ == connect_unsupported_message(),
    {
        self.connected = true;
        Err(DeviceConnectError::Unsupported(
            "live Zenoh transport wiring is not implemented in this first scaffold; inject a Transport implementation for tests or applications",
        ))
    }

    /// Publishing is unsupported.
    pub fn publish(&self, subject: &str, data: Vec<u8>) -> (r: Result<(), DeviceConnectError>)
        ensures
            r matches Err(DeviceConnectError::Unsupported(m)) && m@ == "Zenoh publish"@,
    {
        Err(DeviceConnectError::Unsupported("Zenoh publish"))
    }

    /// Subscribing succeeds with a subscription that holds nothing.
    pub fn subscribe(&self, subject: &str, subscribe_only: bool) -> (r: Result<NoopSubscription, DeviceConnectError>)
        ensures
            r is Ok,
    {
        Ok(NoopSubscription)
    }

    /// Requests are unsupported.
    pub fn request(&self, subject: &str, data: Vec<u8>) -> (r: Result<Vec<u8>, DeviceConnectError>)
        ensures
            r matches Err(DeviceConnectError::Unsupported(m)) && m@ == "Zenoh request"@,
    {
        Err(DeviceConnectError::Unsupported("Zenoh request"))
    }

    /// Marks the transport disconnected.
    pub fn close(&mut self) -> (r: Result<(), DeviceConnectError>)
        ensures
            !final(self).connected_view(),
            final(self).config_view() == old(self).config_view(),
            is_call_result(ZenohCall::Close, *old(self), *final(self)),
            r is Ok,
    {
        self.connected = false;
        Ok(())
    }
}


/// An entry of a comma-separated list as the split gives it: non-empty,
/// free of commas, and neither starting nor ending with whitespace.
pub open spec fn is_list_entry(e: Seq<char>) -> bool {
    &&& e.len() > 0
    &&& !e.contains(',')
    &&& !is_whitespace(e[0])
    &&& !is_whitespace(e.last())
}

/// The entries joined with commas between them (what `join(",")` gives).
pub open spec fn join_commas(es: Seq<Seq<char>>) -> Seq<char>
    decreases es.len(),
{
    if es.len() == 0 {
        Seq::empty()
    } else if es.len() == 1 {
        es[0]
    } else {
        join_commas(es.drop_last()).push(',') + es.last()
    }
}

proof fn lemma_split_commas_fields(s: Seq<char>)
    ensures
        split_commas(s).len() >= 1,
        forall|i: int| 0 <= i < split_commas(s).len() ==> !(#[trigger] split_commas(s)[i]).contains(','),
    decreases s.len(),
{
    if s.len() > 0 {
        let t = s.drop_last();
        lemma_split_commas_fields(t);
        let prev = split_commas(t);
        let r = split_commas(s);
        assert forall|i: int| 0 <= i < r.len() implies !(#[trigger] r[i]).contains(',') by {
            if i < prev.len() - 1 {
                assert(r[i] == prev[i]);
            } else if i == prev.len() - 1 && s.last() == ',' {
                assert(r[i] == prev[i]);
            } else if s.last() != ',' {
                let nl = prev.last().push(s.last());
                assert(r[i] == nl);
                if nl.contains(',') {
                    let j = choose|j: int| 0 <= j < nl.len() && nl[j] == ',';
                    if j < prev.last().len() {
                        assert(prev[prev.len() - 1][j] == ',');
                    }
                }
            } else {
                assert(r[i] =~= Seq::<char>::empty());
            }
        }
    }
}

proof fn lemma_nonempty_trimmed_entries(fields: Seq<Seq<char>>)
    requires
        forall|i: int| 0 <= i < fields.len() ==> !(#[trigger] fields[i]).contains(','),
    ensures
        forall|i: int| 0 <= i < nonempty_trimmed(fields).len() ==> is_list_entry(
            #[trigger] nonempty_trimmed(fields)[i],
        ),
    decreases fields.len(),
{
    if fields.len() > 0 {
        let init = fields.drop_last();
        assert forall|i: int| 0 <= i < init.len() implies !(#[trigger] init[i]).contains(',') by {
            assert(init[i] == fields[i]);
        }
        let rest = nonempty_trimmed(init);
        lemma_nonempty_trimmed_entries(init);
        let f = fields.last();
        lemma_trim_bounds(f);
        let t = trim(f);
        if t.contains(',') {
            let j = choose|j: int| 0 <= j < t.len() && t[j] == ',';
            assert(f.contains(t[j]));
            assert(fields[fields.len() - 1].contains(','));
        }
        let r = nonempty_trimmed(fields);
        assert forall|i: int| 0 <= i < r.len() implies is_list_entry(#[trigger] r[i]) by {
            if i < rest.len() {
                assert(r[i] == rest[i]);
            } else {
                assert(r[i] == t);
            }
        }
    }
}

/// Every entry of a split list is non-empty, holds no comma, and neither
/// starts nor ends with whitespace; so each is its own trim.
pub proof fn lemma_env_list_entries(s: Seq<char>)
    ensures
        forall|i: int| 0 <= i < env_list(s).len() ==> is_list_entry(#[trigger] env_list(s)[i]),
        forall|i: int| 0 <= i < env_list(s).len() ==> trim(#[trigger] env_list(s)[i]) == env_list(s)[i],
{
    lemma_split_commas_fields(s);
    lemma_nonempty_trimmed_entries(split_commas(s));
    assert forall|i: int| 0 <= i < env_list(s).len() implies trim(#[trigger] env_list(s)[i]) == env_list(s)[i] by {
        lemma_trim_fixed(env_list(s)[i]);
    }
}

proof fn lemma_split_commas_append(s: Seq<char>, t: Seq<char>)
    requires
        !t.contains(','),
    ensures
        split_commas(s + t) == split_commas(s).update(
            split_commas(s).len() - 1,
            split_commas(s).last() + t,
        ),
    decreases t.len(),
{
    lemma_split_commas_nonempty(s);
    let f = split_commas(s);
    if t.len() == 0 {
        assert(s + t =~= s);
        assert(f.last() + t =~= f.last());
        assert(f.update(f.len() - 1, f.last()) =~= f);
    } else {
        let t0 = t.drop_last();
        assert(!t0.contains(',')) by {
            if t0.contains(',') {
                let j = choose|j: int| 0 <= j < t0.len() && t0[j] == ',';
                assert(t[j] == ',');
            }
        }
        assert(t.last() != ',') by {
            assert(t[t.len() - 1] == t.last());
        }
        lemma_split_commas_append(s, t0);
        assert((s + t).drop_last() =~= s + t0);
        assert((s + t).last() == t.last());
        let g = split_commas(s + t0);
        assert(g.len() == f.len());
        assert(split_commas(s + t) == g.update(g.len() - 1, g.last().push(t.last())));
        assert(g.last() == f.last() + t0);
        assert((f.last() + t0).push(t.last()) =~= f.last() + t);
        assert(split_commas(s + t) =~= f.update(f.len() - 1, f.last() + t));
    }
}

proof fn lemma_split_join(es: Seq<Seq<char>>)
    requires
        es.len() >= 1,
        forall|i: int| 0 <= i < es.len() ==> !(#[trigger] es[i]).contains(','),
    ensures
        split_commas(join_commas(es)) == es,
    decreases es.len(),
{
    if es.len() == 1 {
        lemma_split_commas_append(Seq::empty(), es[0]);
        assert(Seq::<char>::empty() + es[0] =~= es[0]);
        assert(split_commas(Seq::<char>::empty()).update(0, Seq::<char>::empty() + es[0]) =~= es);
    } else {
        let init = es.drop_last();
        assert forall|i: int| 0 <= i < init.len() implies !(#[trigger] init[i]).contains(',') by {
            assert(init[i] == es[i]);
        }
        lemma_split_join(init);
        let j = join_commas(init).push(',');
        assert(j.drop_last() =~= join_commas(init));
        assert(split_commas(j) == init.push(Seq::empty()));
        assert(!es.last().contains(',')) by {
            assert(es[es.len() - 1] == es.last());
        }
        lemma_split_commas_append(j, es.last());
        let f = init.push(Seq::<char>::empty());
        assert(f.last() + es.last() =~= es.last());
        assert(f.update(f.len() - 1, es.last()) =~= es);
    }
}

proof fn lemma_nonempty_trimmed_fixed(es: Seq<Seq<char>>)
    requires
        forall|i: int| 0 <= i < es.len() ==> is_list_entry(#[trigger] es[i]),
    ensures
        nonempty_trimmed(es) == es,
    decreases es.len(),
{
    if es.len() > 0 {
        let init = es.drop_last();
        assert forall|i: int| 0 <= i < init.len() implies is_list_entry(#[trigger] init[i]) by {
            assert(init[i] == es[i]);
        }
        lemma_nonempty_trimmed_fixed(init);
        assert(is_list_entry(es[es.len() - 1]));
        lemma_trim_fixed(es.last());
        assert(init.push(es.last()) =~= es);
    }
}

/// Splitting entries joined with commas gives the entries back, when each
/// is an entry that a split can give.
pub proof fn lemma_env_list_of_join(es: Seq<Seq<char>>)
    requires
        forall|i: int| 0 <= i < es.len() ==> is_list_entry(#[trigger] es[i]),
    ensures
        env_list(join_commas(es)) == es,
{
    if es.len() == 0 {
        let z = seq![Seq::<char>::empty()];
        assert(split_commas(Seq::<char>::empty()) == z);
        assert(z.drop_last() =~= Seq::<Seq<char>>::empty());
        assert(z.last() == Seq::<char>::empty());
        assert(trim_start(z.last()) == z.last());
        assert(trim_end(z.last()) == z.last());
        assert(trim(z.last()).len() == 0);
        assert(nonempty_trimmed(z) == nonempty_trimmed(z.drop_last()));
        assert(nonempty_trimmed(z) =~= es);
    } else {
        assert forall|i: int| 0 <= i < es.len() implies !(#[trigger] es[i]).contains(',') by {
            assert(is_list_entry(es[i]));
        }
        lemma_split_join(es);
        lemma_nonempty_trimmed_fixed(es);
    }
}

/// Joining the entries of a split list with commas and splitting again
/// gives the same entries.
pub proof fn lemma_env_list_rejoin(s: Seq<char>)
    ensures
        env_list(join_commas(env_list(s))) == env_list(s),
{
    lemma_env_list_entries(s);
    lemma_env_list_of_join(env_list(s));
}

/// A transport keeps its configuration over any sequence of calls, and
/// counts as connected exactly when the last `connect` or `close` among them
/// was a `connect` (or, with neither, as it did at the start). `states[i]` is
/// the transport before `calls[i]` and `states[i + 1]` after it; a call that
/// borrows the transport shared leaves it as it was.
pub proof fn lemma_calls_keep_config(calls: Seq<ZenohCall>, states: Seq<ZenohTransport>)
    requires
        states.len() == calls.len() + 1,
        forall|i: int| 0 <= i < calls.len() ==> is_call_result(#[trigger] calls[i], states[i], states[i + 1]),
    ensures
        forall|i: int| 0 <= i < states.len() ==> #[trigger] states[i].config_view() == states[0].config_view(),
        states.last().connected_view() == connected_after_calls(calls, states[0].connected_view()),
    decreases calls.len(),
{
    if calls.len() > 0 {
        let n = calls.len() - 1;
        let calls0 = calls.drop_last();
        let states0 = states.drop_last();
        assert forall|i: int| 0 <= i < calls0.len() implies is_call_result(
            #[trigger] calls0[i],
            states0[i],
            states0[i + 1],
        ) by {
            assert(calls0[i] == calls[i]);
            assert(is_call_result(calls[i], states[i], states[i + 1]));
        }
        lemma_calls_keep_config(calls0, states0);
        assert(is_call_result(calls[n], states[n], states[n + 1]));
        assert forall|i: int| 0 <= i < states.len() implies #[trigger] states[i].config_view()
            == states[0].config_view() by {
            if i < states.len() - 1 {
                assert(states0[i] == states[i]);
            }
        }
        assert(calls.last() == calls[n]);
        assert(states0.last() == states[n]);
    }
}

} // verus!
